//! Shared encoding and parsing primitives for the record codecs.
//!
//! Each codec writes a record as a sequence of characters built from four
//! kinds of pieces: fixed literals, escaped quoted strings, decimal numbers
//! and length-prefixed raw runs.  For every piece this module gives a spec
//! function describing the produced characters, a spec parser, an executable
//! encoder and parser proved equal to them, and an inversion lemma showing
//! that the parser recovers exactly what the encoder wrote.

use vstd::prelude::*;

verus! {

// ---------------------------------------------------------------------------
// Escaping
// ---------------------------------------------------------------------------

/// How one character is written inside a quoted field: backslash, quote and
/// newline get a two-character escape, everything else stands for itself.
pub open spec fn esc_char(c: char) -> Seq<char> {
    if c == '\\' {
        seq!['\\', '\\']
    } else if c == '"' {
        seq!['\\', '"']
    } else if c == '\n' {
        seq!['\\', 'n']
    } else {
        seq![c]
    }
}

/// The escaped form of a whole string.
pub open spec fn esc(s: Seq<char>) -> Seq<char>
    decreases s.len(),
{
    if s.len() == 0 {
        Seq::empty()
    } else {
        esc_char(s[0]) + esc(s.drop_first())
    }
}

/// Escaping distributes over concatenation.
pub proof fn lemma_esc_app(a: Seq<char>, b: Seq<char>)
    ensures
        esc(a + b) == esc(a) + esc(b),
    decreases a.len(),
{
    if a.len() == 0 {
        assert(a + b =~= b);
        assert(esc(a) + esc(b) =~= esc(b));
    } else {
        assert((a + b).drop_first() =~= a.drop_first() + b);
        lemma_esc_app(a.drop_first(), b);
        assert(esc(a + b) =~= esc(a) + esc(b));
    }
}

/// What a two-character escape stands for, if the second character is a
/// legal escape code.
pub open spec fn unesc_char(c: char) -> Option<char> {
    if c == '\\' {
        Some('\\')
    } else if c == '"' {
        Some('"')
    } else if c == 'n' {
        Some('\n')
    } else {
        None
    }
}

// ---------------------------------------------------------------------------
// Decimal numbers
// ---------------------------------------------------------------------------

/// The digit character for a value below ten.
pub open spec fn digit_char(d: u64) -> char {
    if d == 0 {
        '0'
    } else if d == 1 {
        '1'
    } else if d == 2 {
        '2'
    } else if d == 3 {
        '3'
    } else if d == 4 {
        '4'
    } else if d == 5 {
        '5'
    } else if d == 6 {
        '6'
    } else if d == 7 {
        '7'
    } else if d == 8 {
        '8'
    } else {
        '9'
    }
}

/// The value of a digit character, or `None` for any other character.
pub open spec fn digit_val(c: char) -> Option<u64> {
    if c == '0' {
        Some(0u64)
    } else if c == '1' {
        Some(1u64)
    } else if c == '2' {
        Some(2u64)
    } else if c == '3' {
        Some(3u64)
    } else if c == '4' {
        Some(4u64)
    } else if c == '5' {
        Some(5u64)
    } else if c == '6' {
        Some(6u64)
    } else if c == '7' {
        Some(7u64)
    } else if c == '8' {
        Some(8u64)
    } else if c == '9' {
        Some(9u64)
    } else {
        None
    }
}

/// The canonical decimal digits of `n`, most significant first.
pub open spec fn dec_digits(n: u64) -> Seq<char>
    decreases n,
{
    if n < 10 {
        seq![digit_char(n)]
    } else {
        dec_digits(n / 10).push(digit_char(n % 10))
    }
}

/// The numeric value of a digit sequence, by Horner's rule from the front.
pub open spec fn dval(ds: Seq<char>) -> int
    decreases ds.len(),
{
    if ds.len() == 0 {
        0
    } else {
        dval(ds.drop_last()) * 10 + digit_val(ds.last()).unwrap_or(0)
    }
}

/// Whether every character of `ds` is a decimal digit.
pub open spec fn all_digits(ds: Seq<char>) -> bool {
    forall|j: int| 0 <= j < ds.len() ==> (#[trigger] digit_val(ds[j])) is Some
}

/// Ten to the `k`.
pub open spec fn pow10(k: nat) -> int
    decreases k,
{
    if k == 0 {
        1
    } else {
        10 * pow10((k - 1) as nat)
    }
}

pub proof fn lemma_pow10_pos(k: nat)
    ensures
        pow10(k) >= 1,
    decreases k,
{
    if k > 0 {
        lemma_pow10_pos((k - 1) as nat);
    }
}

/// The canonical digits of `n` are all digits and have value `n`.
pub proof fn lemma_dec_digits_val(n: u64)
    ensures
        all_digits(dec_digits(n)),
        dval(dec_digits(n)) == n,
        dec_digits(n).len() >= 1,
    decreases n,
{
    if n < 10 {
        assert(dec_digits(n) =~= seq![digit_char(n)]);
        assert(dec_digits(n).drop_last() =~= Seq::<char>::empty());
        assert(dec_digits(n).last() == digit_char(n));
        assert(digit_val(digit_char(n)) == Some(n));
        assert(dval(Seq::<char>::empty()) == 0);
        assert(dval(dec_digits(n)) == dval(Seq::<char>::empty()) * 10 + n);
    } else {
        lemma_dec_digits_val(n / 10);
        let ds = dec_digits(n);
        assert(ds =~= dec_digits(n / 10).push(digit_char(n % 10)));
        assert(ds.drop_last() =~= dec_digits(n / 10));
        assert(ds.last() == digit_char(n % 10));
        assert(digit_val(digit_char(n % 10)) == Some(n % 10));
        assert(dval(ds) == (n / 10) * 10 + n % 10);
        assert((n / 10) * 10 + n % 10 == n) by (nonlinear_arith);
        assert forall|j: int| 0 <= j < ds.len() implies (#[trigger] digit_val(ds[j])) is Some by {
            if j < ds.len() - 1 {
                assert(ds[j] == dec_digits(n / 10)[j]);
            }
        }
    }
}

/// Splitting a digit string splits its value positionally.
pub proof fn lemma_dval_app(a: Seq<char>, b: Seq<char>)
    ensures
        dval(a + b) == dval(a) * pow10(b.len() as nat) + dval(b),
    decreases b.len(),
{
    if b.len() == 0 {
        assert(a + b =~= a);
    } else {
        lemma_dval_app(a, b.drop_last());
        assert((a + b).drop_last() =~= a + b.drop_last());
        assert((a + b).last() == b.last());
        let k = (b.len() - 1) as nat;
        assert(dval(a + b) == (dval(a) * pow10(k) + dval(b.drop_last())) * 10 + digit_val(
            b.last(),
        ).unwrap_or(0));
        assert((dval(a) * pow10(k)) * 10 == dval(a) * (10 * pow10(k))) by (nonlinear_arith);
    }
}

// ---------------------------------------------------------------------------
// Spec parsers
// ---------------------------------------------------------------------------

/// Consume the exact literal `lit` at position `i`.
pub open spec fn parse_lit(s: Seq<char>, i: int, lit: Seq<char>) -> Option<int> {
    if 0 <= i && i + lit.len() <= s.len() && s.subrange(i, i + lit.len()) == lit {
        Some(i + lit.len())
    } else {
        None
    }
}

/// Consume digits greedily starting at `i`, accumulating onto `acc`;
/// fails on overflow past `u64::MAX`.
pub open spec fn parse_u64_rec(s: Seq<char>, i: int, acc: u64) -> Option<(u64, int)>
    decreases s.len() - i,
{
    if 0 <= i < s.len() && digit_val(s[i]) is Some {
        let d = digit_val(s[i]).unwrap_or(0);
        if acc * 10 + d <= u64::MAX {
            parse_u64_rec(s, i + 1, (acc * 10 + d) as u64)
        } else {
            None
        }
    } else {
        Some((acc, i))
    }
}

/// Consume a decimal number: at least one digit, greedy, no overflow.
pub open spec fn parse_u64(s: Seq<char>, i: int) -> Option<(u64, int)> {
    if 0 <= i < s.len() && digit_val(s[i]) is Some {
        parse_u64_rec(s, i, 0)
    } else {
        None
    }
}

/// Consume the characters of a quoted field after its opening quote, up to
/// and including the closing quote, undoing escapes.
pub open spec fn parse_qchars(s: Seq<char>, i: int) -> Option<(Seq<char>, int)>
    decreases s.len() - i,
{
    if !(0 <= i < s.len()) {
        None
    } else if s[i] == '"' {
        Some((Seq::empty(), i + 1))
    } else if s[i] == '\\' {
        if i + 1 < s.len() && unesc_char(s[i + 1]) is Some {
            match parse_qchars(s, i + 2) {
                Some((t, j)) => Some((seq![unesc_char(s[i + 1]).unwrap_or(' ')] + t, j)),
                None => None,
            }
        } else {
            None
        }
    } else {
        match parse_qchars(s, i + 1) {
            Some((t, j)) => Some((seq![s[i]] + t, j)),
            None => None,
        }
    }
}

/// Consume a quoted field: opening quote, escaped characters, closing quote.
pub open spec fn parse_quoted(s: Seq<char>, i: int) -> Option<(Seq<char>, int)> {
    if 0 <= i < s.len() && s[i] == '"' {
        parse_qchars(s, i + 1)
    } else {
        None
    }
}

/// The full quoted form of `t`: quote, escaped characters, quote.
pub open spec fn quoted(t: Seq<char>) -> Seq<char> {
    seq!['"'] + esc(t) + seq!['"']
}

/// Consume exactly `n` raw characters.
pub open spec fn parse_raw(s: Seq<char>, i: int, n: int) -> Option<(Seq<char>, int)> {
    if 0 <= i && 0 <= n && i + n <= s.len() {
        Some((s.subrange(i, i + n), i + n))
    } else {
        None
    }
}

// ---------------------------------------------------------------------------
// Inversion lemmas: each parser recovers what the encoder wrote
// ---------------------------------------------------------------------------

/// Digit strings have non-negative values.
pub proof fn lemma_dval_nonneg(ds: Seq<char>)
    ensures
        dval(ds) >= 0,
    decreases ds.len(),
{
    if ds.len() > 0 {
        lemma_dval_nonneg(ds.drop_last());
    }
}

/// After the opening quote, the parser reads back exactly the escaped text.
pub proof fn lemma_parse_qchars_esc(s: Seq<char>, i: int, t: Seq<char>)
    requires
        0 <= i,
        i + esc(t).len() + 1 <= s.len(),
        s.subrange(i, i + esc(t).len() + 1) == esc(t).push('"'),
    ensures
        parse_qchars(s, i) == Some((t, i + esc(t).len() + 1)),
    decreases t.len(),
{
    let e = esc(t);
    let sub = s.subrange(i, i + e.len() + 1);
    if t.len() == 0 {
        assert(sub[0] == s[i]);
        assert(s[i] == '"');
        assert(parse_qchars(s, i) == Some((Seq::<char>::empty(), i + 1)));
        assert(t =~= Seq::<char>::empty());
    } else {
        let c = t[0];
        let t2 = t.drop_first();
        let e2 = esc(t2);
        assert(e == esc_char(c) + e2);
        if c == '\\' || c == '"' || c == '\n' {
            let m = if c == '\\' {
                '\\'
            } else if c == '"' {
                '"'
            } else {
                'n'
            };
            assert(esc_char(c) =~= seq!['\\', m]);
            assert(sub[0] == s[i]);
            assert(sub[1] == s[i + 1]);
            assert(s[i] == '\\');
            assert(s[i + 1] == m);
            assert(unesc_char(m) == Some(c));
            assert forall|k: int| 0 <= k < e2.len() + 1 implies s.subrange(
                i + 2,
                i + 2 + e2.len() + 1,
            )[k] == e2.push('"')[k] by {
                assert(sub[2 + k] == s[i + 2 + k]);
                assert(sub[2 + k] == (esc_char(c) + e2).push('"')[2 + k]);
            }
            assert(s.subrange(i + 2, i + 2 + e2.len() + 1) =~= e2.push('"'));
            lemma_parse_qchars_esc(s, i + 2, t2);
            assert(seq![c] + t2 =~= t);
        } else {
            assert(esc_char(c) =~= seq![c]);
            assert(sub[0] == s[i]);
            assert(s[i] == c);
            assert(c != '"' && c != '\\');
            assert forall|k: int| 0 <= k < e2.len() + 1 implies s.subrange(
                i + 1,
                i + 1 + e2.len() + 1,
            )[k] == e2.push('"')[k] by {
                assert(sub[1 + k] == s[i + 1 + k]);
                assert(sub[1 + k] == (esc_char(c) + e2).push('"')[1 + k]);
            }
            assert(s.subrange(i + 1, i + 1 + e2.len() + 1) =~= e2.push('"'));
            lemma_parse_qchars_esc(s, i + 1, t2);
            assert(seq![c] + t2 =~= t);
        }
    }
}

/// A quoted field parses back to exactly the text that was quoted.
pub proof fn lemma_parse_quoted(s: Seq<char>, i: int, t: Seq<char>)
    requires
        0 <= i,
        i + quoted(t).len() <= s.len(),
        s.subrange(i, i + quoted(t).len()) == quoted(t),
    ensures
        parse_quoted(s, i) == Some((t, i + quoted(t).len())),
{
    let q = quoted(t);
    let e = esc(t);
    assert(q.len() == e.len() + 2);
    let sub = s.subrange(i, i + q.len());
    assert(sub[0] == s[i]);
    assert(q[0] == '"');
    assert(s[i] == '"');
    assert forall|k: int| 0 <= k < e.len() + 1 implies s.subrange(i + 1, i + 1 + e.len() + 1)[k]
        == e.push('"')[k] by {
        assert(sub[1 + k] == s[i + 1 + k]);
        assert(sub[1 + k] == ((seq!['"'] + e) + seq!['"'])[1 + k]);
        if k < e.len() {
            assert(((seq!['"'] + e) + seq!['"'])[1 + k] == e[k]);
        } else {
            assert(((seq!['"'] + e) + seq!['"'])[1 + k] == '"');
        }
    }
    assert(s.subrange(i + 1, i + 1 + e.len() + 1) =~= e.push('"'));
    lemma_parse_qchars_esc(s, i + 1, t);
}

/// The greedy digit parser, started with accumulator `acc` before a run of
/// digits that ends at a non-digit or at the end of the input, returns the
/// positional combination of `acc` and the run.
pub proof fn lemma_parse_u64_digits(s: Seq<char>, i: int, ds: Seq<char>, acc: u64)
    requires
        all_digits(ds),
        0 <= i,
        i + ds.len() <= s.len(),
        s.subrange(i, i + ds.len()) == ds,
        i + ds.len() == s.len() || digit_val(s[i + ds.len()]) is None,
        acc * pow10(ds.len() as nat) + dval(ds) <= u64::MAX,
    ensures
        parse_u64_rec(s, i, acc) == Some(
            (((acc * pow10(ds.len() as nat) + dval(ds)) as u64), i + ds.len()),
        ),
    decreases ds.len(),
{
    lemma_dval_nonneg(ds);
    if ds.len() == 0 {
        assert(pow10(0) == 1);
        assert(i == s.len() || digit_val(s[i]) is None);
        assert(parse_u64_rec(s, i, acc) == Some((acc, i)));
    } else {
        let sub = s.subrange(i, i + ds.len());
        assert(sub[0] == s[i]);
        assert(s[i] == ds[0]);
        assert(digit_val(ds[0]) is Some);
        let d = digit_val(ds[0]).unwrap_or(0);
        let ds2 = ds.drop_first();
        let k = ds2.len() as nat;
        lemma_dval_nonneg(ds2);
        lemma_pow10_pos(k);
        assert(ds =~= seq![ds[0]] + ds2);
        lemma_dval_app(seq![ds[0]], ds2);
        assert(dval(seq![ds[0]]) == d) by {
            assert(seq![ds[0]].drop_last() =~= Seq::<char>::empty());
            assert(dval(Seq::<char>::empty()) == 0);
        }
        assert(dval(ds) == d * pow10(k) + dval(ds2));
        assert(acc * pow10(ds.len() as nat) == (acc * 10) * pow10(k)) by {
            assert(pow10(ds.len() as nat) == 10 * pow10(k));
            assert(acc * (10 * pow10(k)) == (acc * 10) * pow10(k)) by (nonlinear_arith);
        }
        let acc2 = acc * 10 + d;
        assert(acc2 * pow10(k) + dval(ds2) == acc * pow10(ds.len() as nat) + dval(ds)) by {
            assert((acc * 10 + d) * pow10(k) == (acc * 10) * pow10(k) + d * pow10(k))
                by (nonlinear_arith);
        }
        assert(acc2 <= acc2 * pow10(k)) by (nonlinear_arith)
            requires
                acc2 >= 0,
                pow10(k) >= 1,
        ;
        assert(acc2 <= u64::MAX);
        assert forall|j: int| 0 <= j < ds2.len() implies s.subrange(i + 1, i + 1 + ds2.len())[j]
            == ds2[j] by {
            assert(sub[1 + j] == s[i + 1 + j]);
        }
        assert(s.subrange(i + 1, i + 1 + ds2.len()) =~= ds2);
        assert(all_digits(ds2)) by {
            assert(forall|j: int|
                0 <= j < ds2.len() ==> ds2[j] == ds[j + 1] && (#[trigger] digit_val(ds[j + 1]))
                    is Some);
        }
        lemma_parse_u64_digits(s, i + 1, ds2, acc2 as u64);
    }
}

/// A canonical decimal rendering of `n`, followed by a non-digit or the end
/// of the input, parses back to exactly `n`.
pub proof fn lemma_parse_u64_dec(s: Seq<char>, i: int, n: u64)
    requires
        0 <= i,
        i + dec_digits(n).len() <= s.len(),
        s.subrange(i, i + dec_digits(n).len()) == dec_digits(n),
        i + dec_digits(n).len() == s.len() || digit_val(s[i + dec_digits(n).len()]) is None,
    ensures
        parse_u64(s, i) == Some((n, i + dec_digits(n).len())),
{
    let ds = dec_digits(n);
    lemma_dec_digits_val(n);
    assert(s.subrange(i, i + ds.len())[0] == s[i]);
    assert(s[i] == ds[0]);
    assert(digit_val(s[i]) is Some);
    assert(pow10(ds.len() as nat) >= 1) by {
        lemma_pow10_pos(ds.len() as nat);
    }
    lemma_parse_u64_digits(s, i, ds, 0u64);
}

// ---------------------------------------------------------------------------
// Positional helpers: parsing inside a concatenation
// ---------------------------------------------------------------------------

/// A literal standing between a prefix and a rest parses at the prefix's end.
pub proof fn lemma_parse_lit_at(s: Seq<char>, x: Seq<char>, y: Seq<char>, z: Seq<char>)
    requires
        s == x + y + z,
    ensures
        parse_lit(s, x.len() as int, y) == Some(x.len() + y.len() as int),
{
    assert(s.subrange(x.len() as int, x.len() + y.len() as int) =~= y);
}

/// A literal cannot parse where the input's first character differs from its
/// own.
pub proof fn lemma_parse_lit_ne_first(s: Seq<char>, i: int, lit: Seq<char>)
    requires
        0 <= i < s.len(),
        lit.len() > 0,
        s[i] != lit[0],
    ensures
        parse_lit(s, i, lit) is None,
{
    if parse_lit(s, i, lit) is Some {
        assert(s.subrange(i, i + lit.len()) == lit);
        assert(s.subrange(i, i + lit.len())[0] == s[i]);
    }
}

/// A quoted field standing between a prefix and a rest parses at the
/// prefix's end.
pub proof fn lemma_parse_quoted_at(s: Seq<char>, x: Seq<char>, t: Seq<char>, z: Seq<char>)
    requires
        s == x + quoted(t) + z,
    ensures
        parse_quoted(s, x.len() as int) == Some((t, x.len() + quoted(t).len() as int)),
{
    assert(s.subrange(x.len() as int, x.len() + quoted(t).len() as int) =~= quoted(t));
    lemma_parse_quoted(s, x.len() as int, t);
}

/// A canonical decimal standing between a prefix and a rest that does not
/// begin with a digit parses at the prefix's end.
pub proof fn lemma_parse_u64_at(s: Seq<char>, x: Seq<char>, n: u64, z: Seq<char>)
    requires
        s == x + dec_digits(n) + z,
        z.len() == 0 || digit_val(z[0]) is None,
    ensures
        parse_u64(s, x.len() as int) == Some((n, x.len() + dec_digits(n).len() as int)),
{
    let i = x.len() as int;
    let dl = dec_digits(n).len() as int;
    assert(s.subrange(i, i + dl) =~= dec_digits(n));
    if z.len() > 0 {
        assert(s[i + dl] == z[0]);
    }
    lemma_parse_u64_dec(s, i, n);
}

/// A raw run standing between a prefix and a rest parses at the prefix's
/// end, given its exact length.
pub proof fn lemma_parse_raw_at(s: Seq<char>, x: Seq<char>, y: Seq<char>, z: Seq<char>)
    requires
        s == x + y + z,
    ensures
        parse_raw(s, x.len() as int, y.len() as int) == Some((y, x.len() + y.len() as int)),
{
    assert(s.subrange(x.len() as int, x.len() + y.len() as int) =~= y);
}

// ---------------------------------------------------------------------------
// Executable encoders
// ---------------------------------------------------------------------------

/// The digit character for a value below ten.
pub fn digit_char_exec(d: u64) -> (c: char)
    requires
        d < 10,
    ensures
        c == digit_char(d),
{
    if d == 0 {
        '0'
    } else if d == 1 {
        '1'
    } else if d == 2 {
        '2'
    } else if d == 3 {
        '3'
    } else if d == 4 {
        '4'
    } else if d == 5 {
        '5'
    } else if d == 6 {
        '6'
    } else if d == 7 {
        '7'
    } else if d == 8 {
        '8'
    } else {
        '9'
    }
}

/// The value of a digit character, or `None`.
pub fn digit_val_exec(c: char) -> (r: Option<u64>)
    ensures
        r == digit_val(c),
{
    if c == '0' {
        Some(0u64)
    } else if c == '1' {
        Some(1u64)
    } else if c == '2' {
        Some(2u64)
    } else if c == '3' {
        Some(3u64)
    } else if c == '4' {
        Some(4u64)
    } else if c == '5' {
        Some(5u64)
    } else if c == '6' {
        Some(6u64)
    } else if c == '7' {
        Some(7u64)
    } else if c == '8' {
        Some(8u64)
    } else if c == '9' {
        Some(9u64)
    } else {
        None
    }
}

/// Append the escaped form of `s` to `out`.
pub fn esc_push(out: &mut Vec<char>, s: &Vec<char>)
    ensures
        final(out)@ == old(out)@ + esc(s@),
{
    let mut i: usize = 0;
    while i < s.len()
        invariant
            i <= s@.len(),
            out@ == old(out)@ + esc(s@.take(i as int)),
        decreases s@.len() - i,
    {
        let c = s[i];
        proof {
            assert(s@.take(i + 1) =~= s@.take(i as int) + seq![c]);
            lemma_esc_app(s@.take(i as int), seq![c]);
            assert(esc(seq![c]) =~= esc_char(c)) by {
                assert(seq![c].drop_first() =~= Seq::<char>::empty());
                assert(esc(Seq::<char>::empty()) =~= Seq::<char>::empty());
                assert(esc(seq![c]) == esc_char(c) + esc(seq![c].drop_first()));
            }
        }
        if c == '\\' {
            out.push('\\');
            out.push('\\');
        } else if c == '"' {
            out.push('\\');
            out.push('"');
        } else if c == '\n' {
            out.push('\\');
            out.push('n');
        } else {
            out.push(c);
        }
        proof {
            assert(out@ =~= old(out)@ + esc(s@.take(i + 1)));
        }
        i = i + 1;
    }
    proof {
        assert(s@.take(s@.len() as int) =~= s@);
    }
}

/// Append the quoted form of `s` to `out`: quote, escaped text, quote.
pub fn quoted_push(out: &mut Vec<char>, s: &Vec<char>)
    ensures
        final(out)@ == old(out)@ + quoted(s@),
{
    out.push('"');
    esc_push(out, s);
    out.push('"');
    proof {
        assert(out@ =~= old(out)@ + quoted(s@));
    }
}

/// Append the canonical decimal rendering of `n` to `out`.
pub fn dec_push(out: &mut Vec<char>, n: u64)
    ensures
        final(out)@ == old(out)@ + dec_digits(n),
    decreases n,
{
    if n < 10 {
        out.push(digit_char_exec(n));
        proof {
            assert(out@ =~= old(out)@ + dec_digits(n));
        }
    } else {
        dec_push(out, n / 10);
        out.push(digit_char_exec(n % 10));
        proof {
            assert(out@ =~= old(out)@ + dec_digits(n));
        }
    }
}

/// Append the characters of `lit` to `out`.
pub fn lit_push(out: &mut Vec<char>, lit: &str)
    ensures
        final(out)@ == old(out)@ + lit@,
{
    let v = crate::text::str_chars(lit);
    let mut i: usize = 0;
    while i < v.len()
        invariant
            i <= v@.len(),
            v@ == lit@,
            out@ == old(out)@ + v@.take(i as int),
        decreases v@.len() - i,
    {
        out.push(v[i]);
        i = i + 1;
        proof {
            assert(out@ =~= old(out)@ + v@.take(i as int));
        }
    }
    proof {
        assert(v@.take(v@.len() as int) =~= v@);
    }
}

// ---------------------------------------------------------------------------
// Executable parsers
// ---------------------------------------------------------------------------

/// Consume the literal `lit` at position `i`.
pub fn parse_lit_exec(s: &Vec<char>, i: usize, lit: &Vec<char>) -> (r: Option<usize>)
    ensures
        match r {
            Some(j) => parse_lit(s@, i as int, lit@) == Some(j as int),
            None => parse_lit(s@, i as int, lit@) is None,
        },
{
    if i > s.len() || lit.len() > s.len() - i {
        return None;
    }
    let slen = s.len();
    let mut j: usize = 0;
    let mut pos: usize = i;
    while j < lit.len()
        invariant
            j <= lit@.len(),
            pos == i + j,
            i + lit@.len() <= s@.len(),
            s@.len() == slen,
            s@.subrange(i as int, i + j) == lit@.subrange(0, j as int),
        decreases lit@.len() - j,
    {
        if s[pos] != lit[j] {
            proof {
                let full = s@.subrange(i as int, i + lit@.len());
                assert(full[j as int] == s@[i + j]);
                assert(full != lit@);
            }
            return None;
        }
        j = j + 1;
        pos = pos + 1;
        proof {
            assert(s@.subrange(i as int, i + j) =~= lit@.subrange(0, j as int));
        }
    }
    proof {
        assert(s@.subrange(i as int, i + lit@.len()) =~= lit@) by {
            assert(lit@.subrange(0, lit@.len() as int) =~= lit@);
        }
    }
    Some(pos)
}

/// Consume a decimal number at position `i`.
pub fn parse_u64_exec(s: &Vec<char>, i: usize) -> (r: Option<(u64, usize)>)
    ensures
        match r {
            Some(p) => parse_u64(s@, i as int) == Some((p.0, p.1 as int)),
            None => parse_u64(s@, i as int) is None,
        },
{
    if i >= s.len() {
        return None;
    }
    if digit_val_exec(s[i]).is_none() {
        return None;
    }
    let mut pos: usize = i;
    let mut acc: u64 = 0;
    loop
        invariant
            i <= pos <= s@.len(),
            parse_u64(s@, i as int) == parse_u64_rec(s@, pos as int, acc),
        decreases s@.len() - pos,
    {
        if pos >= s.len() {
            return Some((acc, pos));
        }
        let dv = digit_val_exec(s[pos]);
        match dv {
            None => {
                return Some((acc, pos));
            },
            Some(d) => {
                match acc.checked_mul(10) {
                    None => {
                        proof {
                            assert(acc * 10 + d > u64::MAX);
                        }
                        return None;
                    },
                    Some(t) => {
                        match t.checked_add(d) {
                            None => {
                                return None;
                            },
                            Some(a2) => {
                                acc = a2;
                                pos = pos + 1;
                            },
                        }
                    },
                }
            },
        }
    }
}

/// Consume a quoted field's characters after the opening quote.
pub fn parse_qchars_exec(s: &Vec<char>, i: usize) -> (r: Option<(Vec<char>, usize)>)
    ensures
        match r {
            Some(p) => parse_qchars(s@, i as int) == Some((p.0@, p.1 as int)),
            None => parse_qchars(s@, i as int) is None,
        },
{
    let mut pos: usize = i;
    let mut out: Vec<char> = Vec::new();
    loop
        invariant
            i <= pos,
            pos <= s@.len() || pos <= i,
            match parse_qchars(s@, pos as int) {
                Some((t, j)) => parse_qchars(s@, i as int) == Some((out@ + t, j)),
                None => parse_qchars(s@, i as int) is None,
            },
        decreases s@.len() - pos,
    {
        if pos >= s.len() {
            return None;
        }
        let c = s[pos];
        if c == '"' {
            proof {
                assert(out@ + Seq::<char>::empty() =~= out@);
            }
            return Some((out, pos + 1));
        } else if c == '\\' {
            if pos + 1 >= s.len() {
                return None;
            }
            let e = s[pos + 1];
            let m: char;
            if e == '\\' {
                m = '\\';
            } else if e == '"' {
                m = '"';
            } else if e == 'n' {
                m = '\n';
            } else {
                return None;
            }
            proof {
                assert(unesc_char(e) == Some(m));
                if parse_qchars(s@, pos + 2) is Some {
                    let (t2, j2) = parse_qchars(s@, pos + 2).unwrap();
                    assert(out@ + (seq![m] + t2) =~= out@.push(m) + t2);
                }
            }
            out.push(m);
            pos = pos + 2;
        } else {
            proof {
                if parse_qchars(s@, pos + 1) is Some {
                    let (t2, j2) = parse_qchars(s@, pos + 1).unwrap();
                    assert(out@ + (seq![c] + t2) =~= out@.push(c) + t2);
                }
            }
            out.push(c);
            pos = pos + 1;
        }
    }
}

/// Consume a quoted field at position `i`, opening quote included.
pub fn parse_quoted_exec(s: &Vec<char>, i: usize) -> (r: Option<(Vec<char>, usize)>)
    ensures
        match r {
            Some(p) => parse_quoted(s@, i as int) == Some((p.0@, p.1 as int)),
            None => parse_quoted(s@, i as int) is None,
        },
{
    if i >= s.len() {
        return None;
    }
    if s[i] != '"' {
        return None;
    }
    parse_qchars_exec(s, i + 1)
}

/// Consume exactly `n` raw characters at position `i`.
pub fn parse_raw_exec(s: &Vec<char>, i: usize, n: usize) -> (r: Option<(Vec<char>, usize)>)
    ensures
        match r {
            Some(p) => parse_raw(s@, i as int, n as int) == Some((p.0@, p.1 as int)),
            None => parse_raw(s@, i as int, n as int) is None,
        },
{
    if i > s.len() || n > s.len() - i {
        return None;
    }
    let slen = s.len();
    let mut out: Vec<char> = Vec::new();
    let mut j: usize = 0;
    let mut pos: usize = i;
    while j < n
        invariant
            j <= n,
            pos == i + j,
            i + n <= s@.len(),
            s@.len() == slen,
            out@ == s@.subrange(i as int, i + j),
        decreases n - j,
    {
        out.push(s[pos]);
        j = j + 1;
        pos = pos + 1;
        proof {
            assert(out@ =~= s@.subrange(i as int, i + j));
        }
    }
    Some((out, pos))
}

} // verus!
