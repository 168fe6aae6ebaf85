//! Records and the three interchangeable codecs.
//!
//! A record carries a key, a logical index into the replicated log, an
//! optional tombstone mark and an optional value.  Each record is serialized
//! to exactly one line of a segment file.  Three codecs are provided: a
//! plain structured-text form, a markup-tagged form and a compact
//! length-prefixed form.  A store picks one codec at construction time and
//! never mixes codecs within one directory.  Every codec is proved to
//! round-trip every record: see [`lemma_codec_round_trip`].

use vstd::prelude::*;

use crate::enc::{
    dec_digits, dec_push, digit_val, lemma_dec_digits_val, lemma_parse_lit_at,
    lemma_parse_lit_ne_first, lemma_parse_quoted_at, lemma_parse_raw_at, lemma_parse_u64_at,
    lit_push, parse_lit, parse_lit_exec, parse_quoted, parse_quoted_exec, parse_raw,
    parse_raw_exec, parse_u64, parse_u64_exec, quoted, quoted_push,
};
use crate::errors::NullDbReadError;
use crate::text::{chars_string, str_chars, str_eq};

verus! {

// ---------------------------------------------------------------------------
// Record types and their views
// ---------------------------------------------------------------------------

/// A record as held by the plain structured-text codec.
#[derive(Debug)]
pub struct JsonRecord {
    key: String,
    index: u64,
    tombstone: Option<bool>,
    value: Option<String>,
}

/// A record as held by the markup codec.  The tombstone mark is carried as
/// a `class` tag whose value `"tombstone"` marks a deleted key.
#[derive(Debug)]
pub struct HtmlRecord {
    key: String,
    index: u64,
    class: Option<String>,
    value: Option<String>,
}

/// A record as held by the compact length-prefixed codec.
#[derive(Debug)]
pub struct ProtoRecord {
    key: String,
    index: u64,
    tombstone: Option<bool>,
    value: Option<String>,
}

/// A serialized-form record; the variant tells which codec produced it.
#[derive(Debug)]
pub enum Record {
    Json(JsonRecord),
    Html(HtmlRecord),
    Proto(ProtoRecord),
}

/// The mathematical content of a [`JsonRecord`] or [`ProtoRecord`].
#[verifier::ext_equal]
pub struct PlainRecordV {
    pub key: Seq<char>,
    pub index: u64,
    pub tombstone: Option<bool>,
    pub value: Option<Seq<char>>,
}

/// The mathematical content of an [`HtmlRecord`].
#[verifier::ext_equal]
pub struct HtmlRecordV {
    pub key: Seq<char>,
    pub index: u64,
    pub class: Option<Seq<char>>,
    pub value: Option<Seq<char>>,
}

/// The mathematical content of a [`Record`].
pub enum RecordV {
    Json(PlainRecordV),
    Html(HtmlRecordV),
    Proto(PlainRecordV),
}

/// The view of an optional string.
pub open spec fn opt_view(o: Option<String>) -> Option<Seq<char>> {
    match o {
        Some(s) => Some(s@),
        None => None,
    }
}

impl View for JsonRecord {
    type V = PlainRecordV;

    closed spec fn view(&self) -> PlainRecordV {
        PlainRecordV {
            key: self.key@,
            index: self.index,
            tombstone: self.tombstone,
            value: opt_view(self.value),
        }
    }
}

impl View for HtmlRecord {
    type V = HtmlRecordV;

    closed spec fn view(&self) -> HtmlRecordV {
        HtmlRecordV {
            key: self.key@,
            index: self.index,
            class: opt_view(self.class),
            value: opt_view(self.value),
        }
    }
}

impl View for ProtoRecord {
    type V = PlainRecordV;

    closed spec fn view(&self) -> PlainRecordV {
        PlainRecordV {
            key: self.key@,
            index: self.index,
            tombstone: self.tombstone,
            value: opt_view(self.value),
        }
    }
}

impl View for Record {
    type V = RecordV;

    closed spec fn view(&self) -> RecordV {
        match self {
            Record::Json(r) => RecordV::Json(r@),
            Record::Html(r) => RecordV::Html(r@),
            Record::Proto(r) => RecordV::Proto(r@),
        }
    }
}

impl RecordV {
    /// The key of a record, whatever its codec.
    pub open spec fn key(self) -> Seq<char> {
        match self {
            RecordV::Json(r) => r.key,
            RecordV::Html(r) => r.key,
            RecordV::Proto(r) => r.key,
        }
    }

    /// The logical index of a record, whatever its codec.
    pub open spec fn index(self) -> u64 {
        match self {
            RecordV::Json(r) => r.index,
            RecordV::Html(r) => r.index,
            RecordV::Proto(r) => r.index,
        }
    }

    /// The tombstone mark of a record.  For the markup codec a record is a
    /// tombstone exactly when its class tag reads `tombstone`.
    pub open spec fn tombstone(self) -> Option<bool> {
        match self {
            RecordV::Json(r) => r.tombstone,
            RecordV::Proto(r) => r.tombstone,
            RecordV::Html(r) => {
                if r.class == Some("tombstone"@) {
                    Some(true)
                } else {
                    None
                }
            },
        }
    }

    /// The value of a record.
    pub open spec fn value(self) -> Option<Seq<char>> {
        match self {
            RecordV::Json(r) => r.value,
            RecordV::Html(r) => r.value,
            RecordV::Proto(r) => r.value,
        }
    }

    /// Whether this record marks its key as deleted.
    pub open spec fn is_tombstone(self) -> bool {
        self.tombstone() == Some(true)
    }
}

// ---------------------------------------------------------------------------
// Codec selection
// ---------------------------------------------------------------------------

/// The codec a store was built with.
#[derive(Debug, Clone, Copy, PartialEq, Eq, Structural)]
pub enum FileEngine {
    Json,
    Html,
    Proto,
}

/// The record `new_record` builds for a codec from key, index, tombstone
/// mark and value.  The markup codec carries no explicit tombstone mark, so
/// the mark is dropped there.
pub open spec fn record_v(
    e: FileEngine,
    key: Seq<char>,
    index: u64,
    tombstone: Option<bool>,
    value: Option<Seq<char>>,
) -> RecordV {
    match e {
        FileEngine::Json => RecordV::Json(PlainRecordV { key, index, tombstone, value }),
        FileEngine::Html => RecordV::Html(HtmlRecordV { key, index, class: None, value }),
        FileEngine::Proto => RecordV::Proto(PlainRecordV { key, index, tombstone, value }),
    }
}

/// The tombstone record `new_tombstone_record` builds for a codec.
pub open spec fn tombstone_v(e: FileEngine, key: Seq<char>, index: u64) -> RecordV {
    match e {
        FileEngine::Json => RecordV::Json(
            PlainRecordV { key, index, tombstone: Some(true), value: None },
        ),
        FileEngine::Html => RecordV::Html(
            HtmlRecordV { key, index, class: Some("tombstone"@), value: None },
        ),
        FileEngine::Proto => RecordV::Proto(
            PlainRecordV { key, index, tombstone: Some(true), value: None },
        ),
    }
}

/// The codec a given record was produced by.
pub open spec fn engine_of(r: RecordV) -> FileEngine {
    match r {
        RecordV::Json(_) => FileEngine::Json,
        RecordV::Html(_) => FileEngine::Html,
        RecordV::Proto(_) => FileEngine::Proto,
    }
}

// ---------------------------------------------------------------------------
// Encoding specs
// ---------------------------------------------------------------------------

/// The rendering of a tombstone mark in the plain structured-text codec.
pub open spec fn tomb_lit(t: Option<bool>) -> Seq<char> {
    match t {
        Some(true) => "true"@,
        Some(false) => "false"@,
        None => "null"@,
    }
}

/// The rendering of an optional value in the plain structured-text codec.
pub open spec fn json_val_lit(v: Option<Seq<char>>) -> Seq<char> {
    match v {
        Some(s) => quoted(s),
        None => "null"@,
    }
}

/// The plain structured-text encoding of a record.
#[verifier::opaque]
pub open spec fn encode_json(r: PlainRecordV) -> Seq<char> {
    "{\"key\":"@ + quoted(r.key) + ",\"index\":"@ + dec_digits(r.index) + ",\"tombstone\":"@
        + tomb_lit(r.tombstone) + ",\"value\":"@ + json_val_lit(r.value) + "}"@
}

/// The rendering of the optional class tag in the markup codec.
pub open spec fn markup_class_lit(c: Option<Seq<char>>) -> Seq<char> {
    match c {
        Some(s) => " class="@ + quoted(s),
        None => Seq::empty(),
    }
}

/// The rendering of the optional value in the markup codec.
pub open spec fn markup_val_lit(v: Option<Seq<char>>) -> Seq<char> {
    match v {
        Some(s) => ">"@ + quoted(s) + "</record>"@,
        None => "/>"@,
    }
}

/// The markup encoding of a record.
#[verifier::opaque]
pub open spec fn encode_markup(r: HtmlRecordV) -> Seq<char> {
    "<record id="@ + quoted(r.key) + " index=\""@ + dec_digits(r.index) + "\""@
        + markup_class_lit(r.class) + markup_val_lit(r.value)
}

/// The single character carrying the tombstone mark in the compact codec.
pub open spec fn tomb_char(t: Option<bool>) -> char {
    match t {
        Some(true) => 't',
        Some(false) => 'f',
        None => 'n',
    }
}

/// The rendering of the optional value in the compact codec: a dash for no
/// value, or the value's length followed by its characters.
pub open spec fn packed_val_lit(v: Option<Seq<char>>) -> Seq<char> {
    match v {
        Some(s) => dec_digits(s.len() as u64) + seq![';'] + s,
        None => seq!['-'],
    }
}

/// The compact length-prefixed encoding of a record.
#[verifier::opaque]
pub open spec fn encode_packed(r: PlainRecordV) -> Seq<char> {
    seq!['B'] + dec_digits(r.index) + seq![';'] + seq![tomb_char(r.tombstone)] + dec_digits(
        r.key.len() as u64,
    ) + seq![';'] + r.key + packed_val_lit(r.value)
}

/// The encoding of a record under the codec it belongs to.
#[verifier::opaque]
pub open spec fn encode_spec(r: RecordV) -> Seq<char> {
    match r {
        RecordV::Json(p) => encode_json(p),
        RecordV::Html(h) => encode_markup(h),
        RecordV::Proto(p) => encode_packed(p),
    }
}

// ---------------------------------------------------------------------------
// Decoding specs
// ---------------------------------------------------------------------------

/// Parse a tombstone mark in the plain structured-text codec.
pub open spec fn parse_tomb(s: Seq<char>, i: int) -> Option<(Option<bool>, int)> {
    if parse_lit(s, i, "true"@) is Some {
        Some((Some(true), parse_lit(s, i, "true"@).unwrap()))
    } else if parse_lit(s, i, "false"@) is Some {
        Some((Some(false), parse_lit(s, i, "false"@).unwrap()))
    } else if parse_lit(s, i, "null"@) is Some {
        Some((None, parse_lit(s, i, "null"@).unwrap()))
    } else {
        None
    }
}

/// Parse an optional value in the plain structured-text codec.
pub open spec fn parse_json_val(s: Seq<char>, i: int) -> Option<(Option<Seq<char>>, int)> {
    match parse_quoted(s, i) {
        Some((v, j)) => Some((Some(v), j)),
        None => match parse_lit(s, i, "null"@) {
            Some(j) => Some((None::<Seq<char>>, j)),
            None => None,
        },
    }
}

/// What the plain structured-text codec reads from a line: the record,
/// provided the whole line is a well-formed encoding.
#[verifier::opaque]
pub open spec fn decode_json(s: Seq<char>) -> Option<PlainRecordV> {
    match parse_lit(s, 0, "{\"key\":"@) {
        None => None,
        Some(i1) => match parse_quoted(s, i1) {
            None => None,
            Some((key, i2)) => match parse_lit(s, i2, ",\"index\":"@) {
                None => None,
                Some(i3) => match parse_u64(s, i3) {
                    None => None,
                    Some((index, i4)) => match parse_lit(s, i4, ",\"tombstone\":"@) {
                        None => None,
                        Some(i4b) => match parse_tomb(s, i4b) {
                            None => None,
                            Some((tombstone, i5)) => match parse_lit(s, i5, ",\"value\":"@) {
                            None => None,
                                Some(i6) => match parse_json_val(s, i6) {
                                    None => None,
                                    Some((value, i7)) => match parse_lit(s, i7, "}"@) {
                                        None => None,
                                        Some(i8) => if i8 == s.len() {
                                            Some(PlainRecordV { key, index, tombstone, value })
                                        } else {
                                            None
                                        },
                                    },
                                },
                            },
                        },
                    },
                },
            },
        },
    }
}

/// Parse the optional class tag in the markup codec.
pub open spec fn parse_markup_class(s: Seq<char>, i: int) -> Option<(Option<Seq<char>>, int)> {
    match parse_lit(s, i, " class="@) {
        Some(j) => match parse_quoted(s, j) {
            Some((c, j2)) => Some((Some(c), j2)),
            None => None,
        },
        None => Some((None::<Seq<char>>, i)),
    }
}

/// Parse the optional value in the markup codec.
pub open spec fn parse_markup_val(s: Seq<char>, i: int) -> Option<(Option<Seq<char>>, int)> {
    match parse_lit(s, i, "/>"@) {
        Some(j) => Some((None::<Seq<char>>, j)),
        None => match parse_lit(s, i, ">"@) {
            Some(j) => match parse_quoted(s, j) {
                Some((v, j2)) => match parse_lit(s, j2, "</record>"@) {
                    Some(j3) => Some((Some(v), j3)),
                    None => None,
                },
                None => None,
            },
            None => None,
        },
    }
}

/// What the markup codec reads from a line.
#[verifier::opaque]
pub open spec fn decode_markup(s: Seq<char>) -> Option<HtmlRecordV> {
    match parse_lit(s, 0, "<record id="@) {
        None => None,
        Some(i1) => match parse_quoted(s, i1) {
            None => None,
            Some((key, i2)) => match parse_lit(s, i2, " index=\""@) {
                None => None,
                Some(i3) => match parse_u64(s, i3) {
                    None => None,
                    Some((index, i4)) => match parse_lit(s, i4, "\""@) {
                        None => None,
                        Some(i5) => match parse_markup_class(s, i5) {
                            None => None,
                            Some((class, i6)) => match parse_markup_val(s, i6) {
                                None => None,
                                Some((value, i7)) => if i7 == s.len() {
                                    Some(HtmlRecordV { key, index, class, value })
                                } else {
                                    None
                                },
                            },
                        },
                    },
                },
            },
        },
    }
}

/// Parse the tombstone character of the compact codec.
pub open spec fn parse_tomb_char(s: Seq<char>, i: int) -> Option<(Option<bool>, int)> {
    if 0 <= i < s.len() && s[i] == 't' {
        Some((Some(true), i + 1))
    } else if 0 <= i < s.len() && s[i] == 'f' {
        Some((Some(false), i + 1))
    } else if 0 <= i < s.len() && s[i] == 'n' {
        Some((None::<bool>, i + 1))
    } else {
        None
    }
}

/// Parse one semicolon in the compact codec.
pub open spec fn parse_semi(s: Seq<char>, i: int) -> Option<int> {
    if 0 <= i < s.len() && s[i] == ';' {
        Some(i + 1)
    } else {
        None
    }
}

/// Parse the optional value of the compact codec: a dash, or a
/// length-prefixed run of characters.
pub open spec fn parse_packed_val(s: Seq<char>, i: int) -> Option<(Option<Seq<char>>, int)> {
    if 0 <= i < s.len() && s[i] == '-' {
        Some((None::<Seq<char>>, i + 1))
    } else {
        match parse_u64(s, i) {
            None => None,
            Some((n, j)) => match parse_semi(s, j) {
                None => None,
                Some(j2) => match parse_raw(s, j2, n as int) {
                    None => None,
                    Some((v, j3)) => Some((Some(v), j3)),
                },
            },
        }
    }
}

/// What the compact length-prefixed codec reads from a line.
#[verifier::opaque]
pub open spec fn decode_packed(s: Seq<char>) -> Option<PlainRecordV> {
    if !(s.len() >= 1 && s[0] == 'B') {
        None
    } else {
        match parse_u64(s, 1) {
            None => None,
            Some((index, i1)) => match parse_semi(s, i1) {
                None => None,
                Some(i2) => match parse_tomb_char(s, i2) {
                    None => None,
                    Some((tombstone, i3)) => match parse_u64(s, i3) {
                        None => None,
                        Some((klen, i4)) => match parse_semi(s, i4) {
                            None => None,
                            Some(i5) => match parse_raw(s, i5, klen as int) {
                                None => None,
                                Some((key, i6)) => match parse_packed_val(s, i6) {
                                    None => None,
                                    Some((value, i7)) => if i7 == s.len() {
                                        Some(PlainRecordV { key, index, tombstone, value })
                                    } else {
                                        None
                                    },
                                },
                            },
                        },
                    },
                },
            },
        }
    }
}

/// What a given codec reads from a line.
#[verifier::opaque]
pub open spec fn decode_spec(e: FileEngine, s: Seq<char>) -> Option<RecordV> {
    match e {
        FileEngine::Json => match decode_json(s) {
            Some(p) => Some(RecordV::Json(p)),
            None => None,
        },
        FileEngine::Html => match decode_markup(s) {
            Some(h) => Some(RecordV::Html(h)),
            None => None,
        },
        FileEngine::Proto => match decode_packed(s) {
            Some(p) => Some(RecordV::Proto(p)),
            None => None,
        },
    }
}

// ---------------------------------------------------------------------------
// Executable decoders
// ---------------------------------------------------------------------------

/// Parse a tombstone mark in the plain structured-text codec.
fn parse_tomb_exec(s: &Vec<char>, i: usize) -> (r: Option<(Option<bool>, usize)>)
    ensures
        match r {
            Some(p) => parse_tomb(s@, i as int) == Some((p.0, p.1 as int)),
            None => parse_tomb(s@, i as int) is None,
        },
{
    let lt = str_chars("true");
    match parse_lit_exec(s, i, &lt) {
        Some(j) => Some((Some(true), j)),
        None => {
            let lf = str_chars("false");
            match parse_lit_exec(s, i, &lf) {
                Some(j) => Some((Some(false), j)),
                None => {
                    let ln = str_chars("null");
                    match parse_lit_exec(s, i, &ln) {
                        Some(j) => Some((None, j)),
                        None => None,
                    }
                },
            }
        },
    }
}

/// Parse an optional value in the plain structured-text codec.
fn parse_json_val_exec(s: &Vec<char>, i: usize) -> (r: Option<(Option<String>, usize)>)
    ensures
        match r {
            Some(p) => parse_json_val(s@, i as int) == Some((opt_view(p.0), p.1 as int)),
            None => parse_json_val(s@, i as int) is None,
        },
{
    match parse_quoted_exec(s, i) {
        Some((v, j)) => Some((Some(chars_string(&v)), j)),
        None => {
            let ln = str_chars("null");
            match parse_lit_exec(s, i, &ln) {
                Some(j) => Some((None, j)),
                None => None,
            }
        },
    }
}

/// Decode a line under the plain structured-text codec.
fn decode_json_exec(s: &Vec<char>) -> (r: Option<JsonRecord>)
    ensures
        match r {
            Some(rec) => decode_json(s@) == Some(rec@),
            None => decode_json(s@) is None,
        },
{
    proof {
        reveal(decode_json);
    }
    let l1 = str_chars("{\"key\":");
    let i1 = match parse_lit_exec(s, 0, &l1) {
        Some(j) => j,
        None => {
            return None;
        },
    };
    let (key_chars, i2) = match parse_quoted_exec(s, i1) {
        Some(p) => p,
        None => {
            return None;
        },
    };
    let l2 = str_chars(",\"index\":");
    let i3 = match parse_lit_exec(s, i2, &l2) {
        Some(j) => j,
        None => {
            return None;
        },
    };
    let (index, i4) = match parse_u64_exec(s, i3) {
        Some(p) => p,
        None => {
            return None;
        },
    };
    let l3 = str_chars(",\"tombstone\":");
    let i4b = match parse_lit_exec(s, i4, &l3) {
        Some(j) => j,
        None => {
            return None;
        },
    };
    let (tombstone, i5) = match parse_tomb_exec(s, i4b) {
        Some(p) => p,
        None => {
            return None;
        },
    };
    let l4 = str_chars(",\"value\":");
    let i6 = match parse_lit_exec(s, i5, &l4) {
        Some(j) => j,
        None => {
            return None;
        },
    };
    let (value, i7) = match parse_json_val_exec(s, i6) {
        Some(p) => p,
        None => {
            return None;
        },
    };
    let l5 = str_chars("}");
    let i8 = match parse_lit_exec(s, i7, &l5) {
        Some(j) => j,
        None => {
            return None;
        },
    };
    if i8 != s.len() {
        return None;
    }
    let key = chars_string(&key_chars);
    Some(JsonRecord { key, index, tombstone, value })
}

/// Parse the optional class tag in the markup codec.
fn parse_markup_class_exec(s: &Vec<char>, i: usize) -> (r: Option<(Option<String>, usize)>)
    ensures
        match r {
            Some(p) => parse_markup_class(s@, i as int) == Some((opt_view(p.0), p.1 as int)),
            None => parse_markup_class(s@, i as int) is None,
        },
{
    let lc = str_chars(" class=");
    match parse_lit_exec(s, i, &lc) {
        Some(j) => {
            match parse_quoted_exec(s, j) {
                Some((c, j2)) => Some((Some(chars_string(&c)), j2)),
                None => None,
            }
        },
        None => Some((None, i)),
    }
}

/// Parse the optional value in the markup codec.
fn parse_markup_val_exec(s: &Vec<char>, i: usize) -> (r: Option<(Option<String>, usize)>)
    ensures
        match r {
            Some(p) => parse_markup_val(s@, i as int) == Some((opt_view(p.0), p.1 as int)),
            None => parse_markup_val(s@, i as int) is None,
        },
{
    let le = str_chars("/>");
    match parse_lit_exec(s, i, &le) {
        Some(j) => Some((None, j)),
        None => {
            let lg = str_chars(">");
            match parse_lit_exec(s, i, &lg) {
                Some(j) => {
                    match parse_quoted_exec(s, j) {
                        Some((v, j2)) => {
                            let lr = str_chars("</record>");
                            match parse_lit_exec(s, j2, &lr) {
                                Some(j3) => Some((Some(chars_string(&v)), j3)),
                                None => None,
                            }
                        },
                        None => None,
                    }
                },
                None => None,
            }
        },
    }
}

/// Decode a line under the markup codec.
fn decode_markup_exec(s: &Vec<char>) -> (r: Option<HtmlRecord>)
    ensures
        match r {
            Some(rec) => decode_markup(s@) == Some(rec@),
            None => decode_markup(s@) is None,
        },
{
    proof {
        reveal(decode_markup);
    }
    let l1 = str_chars("<record id=");
    let i1 = match parse_lit_exec(s, 0, &l1) {
        Some(j) => j,
        None => {
            return None;
        },
    };
    let (key_chars, i2) = match parse_quoted_exec(s, i1) {
        Some(p) => p,
        None => {
            return None;
        },
    };
    let l2 = str_chars(" index=\"");
    let i3 = match parse_lit_exec(s, i2, &l2) {
        Some(j) => j,
        None => {
            return None;
        },
    };
    let (index, i4) = match parse_u64_exec(s, i3) {
        Some(p) => p,
        None => {
            return None;
        },
    };
    let l3 = str_chars("\"");
    let i5 = match parse_lit_exec(s, i4, &l3) {
        Some(j) => j,
        None => {
            return None;
        },
    };
    let (class, i6) = match parse_markup_class_exec(s, i5) {
        Some(p) => p,
        None => {
            return None;
        },
    };
    let (value, i7) = match parse_markup_val_exec(s, i6) {
        Some(p) => p,
        None => {
            return None;
        },
    };
    if i7 != s.len() {
        return None;
    }
    let key = chars_string(&key_chars);
    Some(HtmlRecord { key, index, class, value })
}

/// Parse one semicolon of the compact codec.
fn parse_semi_exec(s: &Vec<char>, i: usize) -> (r: Option<usize>)
    ensures
        match r {
            Some(j) => parse_semi(s@, i as int) == Some(j as int),
            None => parse_semi(s@, i as int) is None,
        },
{
    if i < s.len() && s[i] == ';' {
        Some(i + 1)
    } else {
        None
    }
}

/// Parse a length-prefixed raw run of the compact codec: a decimal length,
/// a semicolon, then that many characters.
fn parse_len_raw_exec(s: &Vec<char>, i: usize) -> (r: Option<(Vec<char>, usize)>)
    ensures
        match r {
            Some(p) => {
                &&& parse_u64(s@, i as int) is Some
                &&& {
                    let (n, j) = parse_u64(s@, i as int).unwrap();
                    match parse_semi(s@, j) {
                        Some(j2) => parse_raw(s@, j2, n as int) == Some((p.0@, p.1 as int)),
                        None => false,
                    }
                }
            },
            None => {
                match parse_u64(s@, i as int) {
                    None => true,
                    Some((n, j)) => match parse_semi(s@, j) {
                        None => true,
                        Some(j2) => parse_raw(s@, j2, n as int) is None,
                    },
                }
            },
        },
{
    let (n, j) = match parse_u64_exec(s, i) {
        Some(p) => p,
        None => {
            return None;
        },
    };
    let j2 = match parse_semi_exec(s, j) {
        Some(j2) => j2,
        None => {
            return None;
        },
    };
    if j2 > s.len() {
        return None;
    }
    let remaining = s.len() - j2;
    if n > remaining as u64 {
        return None;
    }
    parse_raw_exec(s, j2, n as usize)
}

/// Decode a line under the compact length-prefixed codec.
fn decode_packed_exec(s: &Vec<char>) -> (r: Option<ProtoRecord>)
    ensures
        match r {
            Some(rec) => decode_packed(s@) == Some(rec@),
            None => decode_packed(s@) is None,
        },
{
    proof {
        reveal(decode_packed);
    }
    if s.len() < 1 || s[0] != 'B' {
        return None;
    }
    let (index, i1) = match parse_u64_exec(s, 1) {
        Some(p) => p,
        None => {
            return None;
        },
    };
    let i2 = match parse_semi_exec(s, i1) {
        Some(j) => j,
        None => {
            return None;
        },
    };
    if i2 >= s.len() {
        return None;
    }
    let tc = s[i2];
    let tombstone: Option<bool>;
    if tc == 't' {
        tombstone = Some(true);
    } else if tc == 'f' {
        tombstone = Some(false);
    } else if tc == 'n' {
        tombstone = None;
    } else {
        return None;
    }
    let i3 = i2 + 1;
    let (key_chars, i6) = match parse_len_raw_exec(s, i3) {
        Some(p) => p,
        None => {
            return None;
        },
    };
    let value: Option<String>;
    let i7: usize;
    if i6 < s.len() && s[i6] == '-' {
        value = None;
        i7 = i6 + 1;
    } else {
        match parse_len_raw_exec(s, i6) {
            Some((v, j)) => {
                value = Some(chars_string(&v));
                i7 = j;
            },
            None => {
                return None;
            },
        }
    }
    if i7 != s.len() {
        return None;
    }
    let key = chars_string(&key_chars);
    Some(ProtoRecord { key, index, tombstone, value })
}

// ---------------------------------------------------------------------------
// Executable encoders
// ---------------------------------------------------------------------------

/// Append the plain structured-text rendering of an optional string.
fn push_opt_quoted_or_null(out: &mut Vec<char>, v: &Option<String>)
    ensures
        final(out)@ == old(out)@ + json_val_lit(opt_view(*v)),
{
    match v {
        Some(s) => {
            let cs = str_chars(s.as_str());
            quoted_push(out, &cs);
        },
        None => {
            lit_push(out, "null");
        },
    }
}

impl Record {
    /// The record's serialized line under its own codec.
    pub fn serialize(&self) -> (r: String)
        ensures
            r@ == encode_spec(self@),
    {
        proof {
            reveal(encode_spec);
            reveal(encode_json);
            reveal(encode_markup);
            reveal(encode_packed);
        }
        match self {
            Record::Json(rec) => {
                let mut out: Vec<char> = Vec::new();
                lit_push(&mut out, "{\"key\":");
                let key_chars = str_chars(rec.key.as_str());
                quoted_push(&mut out, &key_chars);
                lit_push(&mut out, ",\"index\":");
                dec_push(&mut out, rec.index);
                lit_push(&mut out, ",\"tombstone\":");
                match rec.tombstone {
                    Some(true) => lit_push(&mut out, "true"),
                    Some(false) => lit_push(&mut out, "false"),
                    None => lit_push(&mut out, "null"),
                }
                lit_push(&mut out, ",\"value\":");
                push_opt_quoted_or_null(&mut out, &rec.value);
                lit_push(&mut out, "}");
                proof {
                    assert(out@ =~= encode_json(rec@));
                }
                chars_string(&out)
            },
            Record::Html(rec) => {
                let mut out: Vec<char> = Vec::new();
                lit_push(&mut out, "<record id=");
                let key_chars = str_chars(rec.key.as_str());
                quoted_push(&mut out, &key_chars);
                lit_push(&mut out, " index=\"");
                dec_push(&mut out, rec.index);
                lit_push(&mut out, "\"");
                match &rec.class {
                    Some(c) => {
                        lit_push(&mut out, " class=");
                        let class_chars = str_chars(c.as_str());
                        quoted_push(&mut out, &class_chars);
                    },
                    None => {},
                }
                proof {
                    assert(out@ =~= "<record id="@ + quoted(rec.key@) + " index=\""@ + dec_digits(
                        rec.index,
                    ) + "\""@ + markup_class_lit(opt_view(rec.class)));
                }
                match &rec.value {
                    Some(v) => {
                        lit_push(&mut out, ">");
                        let val_chars = str_chars(v.as_str());
                        quoted_push(&mut out, &val_chars);
                        lit_push(&mut out, "</record>");
                    },
                    None => {
                        lit_push(&mut out, "/>");
                    },
                }
                proof {
                    assert(out@ =~= encode_markup(rec@));
                }
                chars_string(&out)
            },
            Record::Proto(rec) => {
                let mut out: Vec<char> = Vec::new();
                out.push('B');
                dec_push(&mut out, rec.index);
                out.push(';');
                match rec.tombstone {
                    Some(true) => out.push('t'),
                    Some(false) => out.push('f'),
                    None => out.push('n'),
                }
                let key_chars = str_chars(rec.key.as_str());
                dec_push(&mut out, key_chars.len() as u64);
                out.push(';');
                let mut ki: usize = 0;
                while ki < key_chars.len()
                    invariant
                        ki <= key_chars@.len(),
                        out@ == seq!['B'] + dec_digits(rec.index) + seq![';'] + seq![
                            tomb_char(rec.tombstone),
                        ] + dec_digits(key_chars@.len() as u64) + seq![';'] + key_chars@.take(
                            ki as int,
                        ),
                    decreases key_chars@.len() - ki,
                {
                    out.push(key_chars[ki]);
                    ki = ki + 1;
                    proof {
                        assert(out@ =~= seq!['B'] + dec_digits(rec.index) + seq![';'] + seq![
                            tomb_char(rec.tombstone),
                        ] + dec_digits(key_chars@.len() as u64) + seq![';'] + key_chars@.take(
                            ki as int,
                        ));
                    }
                }
                proof {
                    assert(key_chars@.take(key_chars@.len() as int) =~= key_chars@);
                }
                match &rec.value {
                    Some(v) => {
                        let val_chars = str_chars(v.as_str());
                        dec_push(&mut out, val_chars.len() as u64);
                        out.push(';');
                        let mut vi: usize = 0;
                        let ghost prefix = out@;
                        while vi < val_chars.len()
                            invariant
                                vi <= val_chars@.len(),
                                out@ == prefix + val_chars@.take(vi as int),
                            decreases val_chars@.len() - vi,
                        {
                            out.push(val_chars[vi]);
                            vi = vi + 1;
                            proof {
                                assert(out@ =~= prefix + val_chars@.take(vi as int));
                            }
                        }
                        proof {
                            assert(val_chars@.take(val_chars@.len() as int) =~= val_chars@);
                            assert(out@ =~= encode_packed(rec@));
                        }
                    },
                    None => {
                        out.push('-');
                        proof {
                            assert(out@ =~= encode_packed(rec@));
                        }
                    },
                }
                chars_string(&out)
            },
        }
    }

    /// The record's key.
    pub fn get_id(&self) -> (r: String)
        ensures
            r@ == self@.key(),
    {
        match self {
            Record::Json(rec) => rec.key.clone(),
            Record::Html(rec) => rec.key.clone(),
            Record::Proto(rec) => rec.key.clone(),
        }
    }

    /// The record's logical index.
    pub fn get_index(&self) -> (r: u64)
        ensures
            r == self@.index(),
    {
        match self {
            Record::Json(rec) => rec.index,
            Record::Html(rec) => rec.index,
            Record::Proto(rec) => rec.index,
        }
    }

    /// The record's tombstone mark.
    pub fn get_tombstone(&self) -> (r: Option<bool>)
        ensures
            r == self@.tombstone(),
    {
        match self {
            Record::Json(rec) => rec.tombstone,
            Record::Proto(rec) => rec.tombstone,
            Record::Html(rec) => {
                match &rec.class {
                    Some(c) => {
                        if str_eq(c.as_str(), "tombstone") {
                            Some(true)
                        } else {
                            None
                        }
                    },
                    None => None,
                }
            },
        }
    }

    /// The record's value, if it has one.
    pub fn get_value(&self) -> (r: Option<String>)
        ensures
            opt_view(r) == self@.value(),
    {
        let v = match self {
            Record::Json(rec) => &rec.value,
            Record::Html(rec) => &rec.value,
            Record::Proto(rec) => &rec.value,
        };
        match v {
            Some(s) => Some(s.clone()),
            None => None,
        }
    }
}

// ---------------------------------------------------------------------------
// Record clones and equality
// ---------------------------------------------------------------------------

/// A clone of an optional string, equal to the original.
fn opt_str_clone(o: &Option<String>) -> (r: Option<String>)
    ensures
        r == *o,
{
    match o {
        Some(s) => Some(s.clone()),
        None => None,
    }
}

impl Clone for JsonRecord {
    fn clone(&self) -> (r: Self)
        ensures
            r == *self,
    {
        JsonRecord {
            key: self.key.clone(),
            index: self.index,
            tombstone: self.tombstone,
            value: opt_str_clone(&self.value),
        }
    }
}

impl Clone for HtmlRecord {
    fn clone(&self) -> (r: Self)
        ensures
            r == *self,
    {
        HtmlRecord {
            key: self.key.clone(),
            index: self.index,
            class: opt_str_clone(&self.class),
            value: opt_str_clone(&self.value),
        }
    }
}

impl Clone for ProtoRecord {
    fn clone(&self) -> (r: Self)
        ensures
            r == *self,
    {
        ProtoRecord {
            key: self.key.clone(),
            index: self.index,
            tombstone: self.tombstone,
            value: opt_str_clone(&self.value),
        }
    }
}

impl Clone for Record {
    /// A clone of the record, equal to the original.
    fn clone(&self) -> (r: Self)
        ensures
            r == *self,
    {
        match self {
            Record::Json(rec) => Record::Json(rec.clone()),
            Record::Html(rec) => Record::Html(rec.clone()),
            Record::Proto(rec) => Record::Proto(rec.clone()),
        }
    }
}

// ---------------------------------------------------------------------------
// Record equality
// ---------------------------------------------------------------------------

/// Whether two optional strings hold the same characters.
fn opt_str_eq(a: &Option<String>, b: &Option<String>) -> (r: bool)
    ensures
        r == (opt_view(*a) == opt_view(*b)),
{
    match (a, b) {
        (Some(x), Some(y)) => str_eq(x.as_str(), y.as_str()),
        (None, None) => true,
        _ => false,
    }
}

/// Whether two optional tombstone marks agree.
fn opt_bool_eq(a: &Option<bool>, b: &Option<bool>) -> (r: bool)
    ensures
        r == (*a == *b),
{
    match (a, b) {
        (Some(x), Some(y)) => x == y,
        (None, None) => true,
        _ => false,
    }
}

impl PartialEq for Record {
    /// Two records are equal when they come from the same codec and agree
    /// on every field.
    fn eq(&self, other: &Record) -> (r: bool) {
        match (self, other) {
            (Record::Json(a), Record::Json(b)) => str_eq(a.key.as_str(), b.key.as_str()) && a.index
                == b.index && opt_bool_eq(&a.tombstone, &b.tombstone) && opt_str_eq(
                &a.value,
                &b.value,
            ),
            (Record::Html(a), Record::Html(b)) => str_eq(a.key.as_str(), b.key.as_str()) && a.index
                == b.index && opt_str_eq(&a.class, &b.class) && opt_str_eq(&a.value, &b.value),
            (Record::Proto(a), Record::Proto(b)) => str_eq(a.key.as_str(), b.key.as_str())
                && a.index == b.index && opt_bool_eq(&a.tombstone, &b.tombstone) && opt_str_eq(
                &a.value,
                &b.value,
            ),
            _ => false,
        }
    }
}

impl vstd::std_specs::cmp::PartialEqSpecImpl for Record {
    open spec fn obeys_eq_spec() -> bool {
        true
    }

    open spec fn eq_spec(&self, other: &Record) -> bool {
        self@ == other@
    }
}

// ---------------------------------------------------------------------------
// The codec interface
// ---------------------------------------------------------------------------

// ---------------------------------------------------------------------------
// The round-trip laws: decoding an encoded record yields the record
// ---------------------------------------------------------------------------

/// The plain structured-text codec round-trips every record.
#[verifier::rlimit(100)]
pub proof fn lemma_json_round_trip(r: PlainRecordV)
    ensures
        decode_json(encode_json(r)) == Some(r),
        encode_json(r).len() >= 1,
{
    reveal(decode_json);
    reveal(encode_json);
    reveal_strlit("{\"key\":");
    reveal_strlit(",\"index\":");
    reveal_strlit(",\"tombstone\":");
    reveal_strlit(",\"value\":");
    reveal_strlit("}");
    reveal_strlit("true");
    reveal_strlit("false");
    reveal_strlit("null");
    let l1 = "{\"key\":"@;
    let q = quoted(r.key);
    let l2 = ",\"index\":"@;
    let d = dec_digits(r.index);
    let l3 = ",\"tombstone\":"@;
    let t = tomb_lit(r.tombstone);
    let l4 = ",\"value\":"@;
    let v = json_val_lit(r.value);
    let l5 = "}"@;
    let s = encode_json(r);
    let x0 = Seq::<char>::empty();
    let x1 = l1;
    let x2 = x1 + q;
    let x3 = x2 + l2;
    let x4 = x3 + d;
    let x4b = x4 + l3;
    let x5 = x4b + t;
    let x6 = x5 + l4;
    let x7 = x6 + v;

    assert(s =~= x0 + l1 + (q + l2 + d + l3 + t + l4 + v + l5));
    lemma_parse_lit_at(s, x0, l1, q + l2 + d + l3 + t + l4 + v + l5);
    assert(parse_lit(s, 0, l1) == Some(x1.len() as int));

    assert(s =~= x1 + q + (l2 + d + l3 + t + l4 + v + l5));
    lemma_parse_quoted_at(s, x1, r.key, l2 + d + l3 + t + l4 + v + l5);
    assert(parse_quoted(s, x1.len() as int) == Some((r.key, x2.len() as int)));

    assert(s =~= x2 + l2 + (d + l3 + t + l4 + v + l5));
    lemma_parse_lit_at(s, x2, l2, d + l3 + t + l4 + v + l5);

    let z4 = l3 + t + l4 + v + l5;
    assert(s =~= x3 + d + z4);
    assert(z4[0] == ',');
    lemma_parse_u64_at(s, x3, r.index, z4);

    assert(s =~= x4 + l3 + (t + l4 + v + l5));
    lemma_parse_lit_at(s, x4, l3, t + l4 + v + l5);

    let i4b = x4b.len() as int;
    let z5 = l4 + v + l5;
    assert(s =~= x4b + t + z5);
    match r.tombstone {
        Some(true) => {
            lemma_parse_lit_at(s, x4b, "true"@, z5);
            assert(parse_tomb(s, i4b) == Some((Some(true), x5.len() as int)));
        },
        Some(false) => {
            assert(s[i4b] == t[0]);
            lemma_parse_lit_ne_first(s, i4b, "true"@);
            lemma_parse_lit_at(s, x4b, "false"@, z5);
            assert(parse_tomb(s, i4b) == Some((Some(false), x5.len() as int)));
        },
        None => {
            assert(s[i4b] == t[0]);
            lemma_parse_lit_ne_first(s, i4b, "true"@);
            lemma_parse_lit_ne_first(s, i4b, "false"@);
            lemma_parse_lit_at(s, x4b, "null"@, z5);
            assert(parse_tomb(s, i4b) == Some((None::<bool>, x5.len() as int)));
        },
    }

    assert(s =~= x5 + l4 + (v + l5));
    lemma_parse_lit_at(s, x5, l4, v + l5);

    let i6 = x6.len() as int;
    assert(s =~= x6 + v + l5);
    match r.value {
        Some(vv) => {
            assert(v == quoted(vv));
            lemma_parse_quoted_at(s, x6, vv, l5);
            assert(parse_json_val(s, i6) == Some((Some(vv), x7.len() as int)));
        },
        None => {
            assert(v == "null"@);
            assert(s[i6] == v[0]);
            assert(parse_quoted(s, i6) is None);
            lemma_parse_lit_at(s, x6, "null"@, l5);
            assert(parse_json_val(s, i6) == Some((None::<Seq<char>>, x7.len() as int)));
        },
    }

    assert(s =~= x7 + l5 + Seq::<char>::empty());
    lemma_parse_lit_at(s, x7, l5, Seq::<char>::empty());
    assert(x7.len() + l5.len() == s.len());
    assert(decode_json(s) == Some(
        PlainRecordV { key: r.key, index: r.index, tombstone: r.tombstone, value: r.value },
    ));
    assert(PlainRecordV {
        key: r.key,
        index: r.index,
        tombstone: r.tombstone,
        value: r.value,
    } =~= r);
}

/// The optional class tag parses back between a prefix and a value part.
proof fn lemma_markup_class_at(s: Seq<char>, x: Seq<char>, class: Option<Seq<char>>, z: Seq<char>)
    requires
        s == x + markup_class_lit(class) + z,
        z.len() >= 1,
        z[0] == '/' || z[0] == '>',
    ensures
        parse_markup_class(s, x.len() as int) == Some(
            (class, x.len() + markup_class_lit(class).len() as int),
        ),
{
    reveal_strlit(" class=");
    let cls = markup_class_lit(class);
    let i = x.len() as int;
    match class {
        Some(c) => {
            assert(cls == " class="@ + quoted(c));
            assert(s =~= x + " class="@ + (quoted(c) + z));
            lemma_parse_lit_at(s, x, " class="@, quoted(c) + z);
            assert(s =~= (x + " class="@) + quoted(c) + z);
            lemma_parse_quoted_at(s, x + " class="@, c, z);
        },
        None => {
            assert(cls =~= Seq::<char>::empty());
            assert(s =~= x + z + Seq::<char>::empty());
            assert(s[i] == z[0]);
            lemma_parse_lit_ne_first(s, i, " class="@);
            assert(parse_markup_class(s, i) == Some((None::<Seq<char>>, i)));
        },
    }
}

/// The value part parses back at the end of the line.
proof fn lemma_markup_val_at(s: Seq<char>, x: Seq<char>, value: Option<Seq<char>>)
    requires
        s == x + markup_val_lit(value),
    ensures
        parse_markup_val(s, x.len() as int) == Some((value, s.len() as int)),
{
    reveal_strlit("/>");
    reveal_strlit(">");
    reveal_strlit("</record>");
    let vp = markup_val_lit(value);
    let i = x.len() as int;
    assert(s =~= x + vp + Seq::<char>::empty());
    match value {
        Some(vv) => {
            assert(vp == ">"@ + quoted(vv) + "</record>"@);
            assert(s[i] == vp[0]);
            assert(vp[0] == '>');
            lemma_parse_lit_ne_first(s, i, "/>"@);
            assert(s =~= x + ">"@ + (quoted(vv) + "</record>"@));
            lemma_parse_lit_at(s, x, ">"@, quoted(vv) + "</record>"@);
            assert(s =~= (x + ">"@) + quoted(vv) + "</record>"@);
            lemma_parse_quoted_at(s, x + ">"@, vv, "</record>"@);
            assert(s =~= ((x + ">"@) + quoted(vv)) + "</record>"@ + Seq::<char>::empty());
            lemma_parse_lit_at(s, (x + ">"@) + quoted(vv), "</record>"@, Seq::<char>::empty());
            assert(parse_markup_val(s, i) == Some((Some(vv), s.len() as int)));
        },
        None => {
            assert(vp == "/>"@);
            lemma_parse_lit_at(s, x, "/>"@, Seq::<char>::empty());
            assert(parse_markup_val(s, i) == Some((None::<Seq<char>>, s.len() as int)));
        },
    }
}

/// The head of a markup line parses back: opening literal, quoted key,
/// the index attribute and its closing quote.
#[verifier::rlimit(100)]
proof fn lemma_markup_head(s: Seq<char>, r: HtmlRecordV)
    requires
        s == encode_markup(r),
    ensures
        parse_lit(s, 0, "<record id="@) == Some("<record id="@.len() as int),
        parse_quoted(s, "<record id="@.len() as int) == Some(
            (r.key, ("<record id="@ + quoted(r.key)).len() as int),
        ),
        parse_lit(s, ("<record id="@ + quoted(r.key)).len() as int, " index=\""@) == Some(
            ("<record id="@ + quoted(r.key) + " index=\""@).len() as int,
        ),
        parse_u64(s, ("<record id="@ + quoted(r.key) + " index=\""@).len() as int) == Some(
            (
                r.index,
                ("<record id="@ + quoted(r.key) + " index=\""@ + dec_digits(r.index)).len() as int,
            ),
        ),
        parse_lit(
            s,
            ("<record id="@ + quoted(r.key) + " index=\""@ + dec_digits(r.index)).len() as int,
            "\""@,
        ) == Some(
            ("<record id="@ + quoted(r.key) + " index=\""@ + dec_digits(r.index) + "\""@).len()
                as int,
        ),
{
    reveal(encode_markup);
    reveal_strlit("<record id=");
    reveal_strlit(" index=\"");
    reveal_strlit("\"");
    reveal_strlit("/>");
    reveal_strlit(">");
    reveal_strlit("</record>");
    let l1 = "<record id="@;
    let q = quoted(r.key);
    let l2 = " index=\""@;
    let d = dec_digits(r.index);
    let l3 = "\""@;
    let cls = markup_class_lit(r.class);
    let vp = markup_val_lit(r.value);
    let x0 = Seq::<char>::empty();
    let x1 = l1;
    let x2 = x1 + q;
    let x3 = x2 + l2;
    let x4 = x3 + d;

    assert(s =~= x0 + l1 + (q + l2 + d + l3 + cls + vp));
    lemma_parse_lit_at(s, x0, l1, q + l2 + d + l3 + cls + vp);
    assert(parse_lit(s, 0, l1) == Some(x1.len() as int));

    assert(s =~= x1 + q + (l2 + d + l3 + cls + vp));
    lemma_parse_quoted_at(s, x1, r.key, l2 + d + l3 + cls + vp);

    assert(s =~= x2 + l2 + (d + l3 + cls + vp));
    lemma_parse_lit_at(s, x2, l2, d + l3 + cls + vp);

    let z4 = l3 + cls + vp;
    assert(s =~= x3 + d + z4);
    assert(z4[0] == '"');
    lemma_parse_u64_at(s, x3, r.index, z4);

    assert(s =~= x4 + l3 + (cls + vp));
    lemma_parse_lit_at(s, x4, l3, cls + vp);
}

/// The markup codec round-trips every record.
#[verifier::rlimit(100)]
pub proof fn lemma_markup_round_trip(r: HtmlRecordV)
    ensures
        decode_markup(encode_markup(r)) == Some(r),
        encode_markup(r).len() >= 1,
{
    reveal(decode_markup);
    reveal(encode_markup);
    reveal_strlit("<record id=");
    reveal_strlit(" index=\"");
    reveal_strlit("\"");
    reveal_strlit("/>");
    reveal_strlit(">");
    reveal_strlit("</record>");
    let l1 = "<record id="@;
    let q = quoted(r.key);
    let l2 = " index=\""@;
    let d = dec_digits(r.index);
    let l3 = "\""@;
    let cls = markup_class_lit(r.class);
    let vp = markup_val_lit(r.value);
    let s = encode_markup(r);
    let x5 = l1 + q + l2 + d + l3;
    let x6 = x5 + cls;

    lemma_markup_head(s, r);

    assert(vp.len() >= 2 && (vp[0] == '/' || vp[0] == '>')) by {
        match r.value {
            Some(vv) => {
                assert(vp == ">"@ + quoted(vv) + "</record>"@);
                assert(vp[0] == (">"@ + quoted(vv) + "</record>"@)[0]);
            },
            None => {},
        }
    }
    assert(s =~= x5 + cls + vp);
    lemma_markup_class_at(s, x5, r.class, vp);

    assert(s =~= x6 + vp);
    lemma_markup_val_at(s, x6, r.value);

    assert(decode_markup(s) == Some(
        HtmlRecordV { key: r.key, index: r.index, class: r.class, value: r.value },
    ));
    assert(HtmlRecordV { key: r.key, index: r.index, class: r.class, value: r.value } =~= r);
}

/// The compact length-prefixed codec round-trips every record whose key and
/// value lengths fit the length prefix.
#[verifier::rlimit(100)]
pub proof fn lemma_packed_round_trip(r: PlainRecordV)
    requires
        r.key.len() <= u64::MAX,
        match r.value {
            Some(v) => v.len() <= u64::MAX,
            None => true,
        },
    ensures
        decode_packed(encode_packed(r)) == Some(r),
        encode_packed(r).len() >= 1,
{
    reveal(decode_packed);
    reveal(encode_packed);
    let b = seq!['B'];
    let d1 = dec_digits(r.index);
    let semi = seq![';'];
    let tc = seq![tomb_char(r.tombstone)];
    let d2 = dec_digits(r.key.len() as u64);
    let vp = packed_val_lit(r.value);
    let s = encode_packed(r);
    let x1 = b;
    let x2 = x1 + d1;
    let x3 = x2 + semi;
    let x4 = x3 + tc;
    let x5 = x4 + d2;
    let x6 = x5 + semi;
    let x7 = x6 + r.key;

    assert(s[0] == 'B');
    let z1 = semi + tc + d2 + semi + r.key + vp;
    assert(s =~= x1 + d1 + z1);
    assert(z1[0] == ';');
    lemma_parse_u64_at(s, x1, r.index, z1);

    let i1 = x2.len() as int;
    assert(s[i1] == ';');
    assert(parse_semi(s, i1) == Some(x3.len() as int));

    let i2 = x3.len() as int;
    assert(s =~= x3 + tc + (d2 + semi + r.key + vp));
    assert(s[i2] == tomb_char(r.tombstone));
    assert(parse_tomb_char(s, i2) == Some((r.tombstone, x4.len() as int)));

    let z2 = semi + r.key + vp;
    assert(s =~= x4 + d2 + z2);
    assert(z2[0] == ';');
    lemma_parse_u64_at(s, x4, r.key.len() as u64, z2);

    let i4 = x5.len() as int;
    assert(s[i4] == ';');
    assert(parse_semi(s, i4) == Some(x6.len() as int));

    assert(s =~= x6 + r.key + vp);
    lemma_parse_raw_at(s, x6, r.key, vp);
    assert((r.key.len() as u64) as int == r.key.len() as int);

    let i6 = x7.len() as int;
    match r.value {
        Some(vv) => {
            let d3 = dec_digits(vv.len() as u64);
            assert(vp == d3 + semi + vv);
            lemma_dec_digits_val(vv.len() as u64);
            assert(s =~= x7 + d3 + (semi + vv));
            assert(s[i6] == d3[0]);
            assert(digit_val(d3[0]) is Some);
            assert(s[i6] != '-');
            let z3 = semi + vv;
            assert(z3[0] == ';');
            lemma_parse_u64_at(s, x7, vv.len() as u64, z3);
            let x8 = x7 + d3;
            let i7 = x8.len() as int;
            assert(s[i7] == ';');
            assert(parse_semi(s, i7) == Some(x8.len() + 1 as int));
            let x9 = x8 + semi;
            assert(s =~= x9 + vv + Seq::<char>::empty());
            lemma_parse_raw_at(s, x9, vv, Seq::<char>::empty());
            assert((vv.len() as u64) as int == vv.len() as int);
            assert(parse_packed_val(s, i6) == Some((Some(vv), s.len() as int)));
        },
        None => {
            assert(vp == seq!['-']);
            assert(s[i6] == '-');
            assert(parse_packed_val(s, i6) == Some((None::<Seq<char>>, s.len() as int)));
        },
    }
    assert(decode_packed(s) == Some(
        PlainRecordV { key: r.key, index: r.index, tombstone: r.tombstone, value: r.value },
    ));
    assert(PlainRecordV {
        key: r.key,
        index: r.index,
        tombstone: r.tombstone,
        value: r.value,
    } =~= r);
}

/// Every codec round-trips every record it can encode; the compact codec
/// asks that the key and value lengths fit its length prefix, which holds
/// of every record built from in-memory strings.
pub proof fn lemma_codec_round_trip(r: RecordV)
    requires
        match r {
            RecordV::Proto(p) => p.key.len() <= u64::MAX && (match p.value {
                Some(v) => v.len() <= u64::MAX,
                None => true,
            }),
            _ => true,
        },
    ensures
        decode_spec(engine_of(r), encode_spec(r)) == Some(r),
        encode_spec(r).len() >= 1,
{
    reveal(decode_spec);
    reveal(encode_spec);
    match r {
        RecordV::Json(p) => lemma_json_round_trip(p),
        RecordV::Html(h) => lemma_markup_round_trip(h),
        RecordV::Proto(p) => lemma_packed_round_trip(p),
    }
}

/// A successful decode under a codec yields a record of that codec.
pub proof fn lemma_decode_engine(e: FileEngine, s: Seq<char>)
    ensures
        decode_spec(e, s) is Some ==> engine_of(decode_spec(e, s).unwrap()) == e,
{
    reveal(decode_spec);
}

/// The three codec names differ pairwise.
proof fn lemma_engine_names_distinct()
    ensures
        "json"@ != "html"@,
        "json"@ != "proto"@,
        "html"@ != "proto"@,
{
    reveal_strlit("json");
    reveal_strlit("html");
    reveal_strlit("proto");
    assert("json"@[0] == 'j');
    assert("html"@[0] == 'h');
    assert("proto"@[0] == 'p');
}

impl FileEngine {
    /// The codec named by `engine`; the caller must pass one of the three
    /// codec names.
    pub fn new(engine: &str) -> (r: Self)
        requires
            engine@ == "json"@ || engine@ == "html"@ || engine@ == "proto"@,
        ensures
            engine@ == "json"@ ==> r == FileEngine::Json,
            engine@ == "html"@ ==> r == FileEngine::Html,
            engine@ == "proto"@ ==> r == FileEngine::Proto,
    {
        proof {
            lemma_engine_names_distinct();
        }
        if str_eq(engine, "json") {
            FileEngine::Json
        } else if str_eq(engine, "html") {
            FileEngine::Html
        } else {
            FileEngine::Proto
        }
    }

    /// The codec named by `engine`, or `None` for any other name.
    pub fn try_new(engine: &str) -> (r: Option<Self>)
        ensures
            engine@ == "json"@ ==> r == Some(FileEngine::Json),
            engine@ == "html"@ ==> r == Some(FileEngine::Html),
            engine@ == "proto"@ ==> r == Some(FileEngine::Proto),
            engine@ != "json"@ && engine@ != "html"@ && engine@ != "proto"@ ==> r is None,
    {
        proof {
            lemma_engine_names_distinct();
        }
        if str_eq(engine, "json") {
            Some(FileEngine::Json)
        } else if str_eq(engine, "html") {
            Some(FileEngine::Html)
        } else if str_eq(engine, "proto") {
            Some(FileEngine::Proto)
        } else {
            None
        }
    }

    /// The serialized line of `record` under the record's own codec.
    pub fn serialize(&self, record: Record) -> (r: String)
        ensures
            r@ == encode_spec(record@),
    {
        record.serialize()
    }

    /// Decode one serialized line under this codec.  Returns `Corrupted`
    /// exactly when the line is not a well-formed encoding.
    pub fn get_record_from_str(&self, value: &str) -> (r: Result<Record, NullDbReadError>)
        ensures
            match r {
                Ok(rec) => decode_spec(*self, value@) == Some(rec@),
                Err(e) => e == NullDbReadError::Corrupted && decode_spec(*self, value@) is None,
            },
    {
        proof {
            reveal(decode_spec);
        }
        let v = str_chars(value);
        match self {
            FileEngine::Json => {
                match decode_json_exec(&v) {
                    Some(rec) => Ok(Record::Json(rec)),
                    None => Err(NullDbReadError::Corrupted),
                }
            },
            FileEngine::Html => {
                match decode_markup_exec(&v) {
                    Some(rec) => Ok(Record::Html(rec)),
                    None => Err(NullDbReadError::Corrupted),
                }
            },
            FileEngine::Proto => {
                match decode_packed_exec(&v) {
                    Some(rec) => Ok(Record::Proto(rec)),
                    None => Err(NullDbReadError::Corrupted),
                }
            },
        }
    }

    /// A fresh record for this codec.
    pub fn new_record(
        &self,
        key: String,
        index: u64,
        tombstone: Option<bool>,
        value: Option<String>,
    ) -> (r: Record)
        ensures
            r@ == record_v(*self, key@, index, tombstone, opt_view(value)),
            engine_of(r@) == *self,
            r@.key() == key@,
            r@.index() == index,
            r@.value() == opt_view(value),
            *self != FileEngine::Html ==> r@.tombstone() == tombstone,
    {
        match self {
            FileEngine::Json => Record::Json(JsonRecord { key, index, tombstone, value }),
            FileEngine::Html => Record::Html(HtmlRecord { key, index, class: None, value }),
            FileEngine::Proto => Record::Proto(ProtoRecord { key, index, tombstone, value }),
        }
    }

    /// A fresh tombstone record for this codec: no value, marked deleted.
    pub fn new_tombstone_record(&self, key: String, index: u64) -> (r: Record)
        ensures
            r@ == tombstone_v(*self, key@, index),
            engine_of(r@) == *self,
            r@.key() == key@,
            r@.index() == index,
            r@.value() == None::<Seq<char>>,
            r@.tombstone() == Some(true),
            r@.is_tombstone(),
    {
        match self {
            FileEngine::Json => Record::Json(
                JsonRecord { key, index, tombstone: Some(true), value: None },
            ),
            FileEngine::Html => {
                let cs = str_chars("tombstone");
                let class = chars_string(&cs);
                Record::Html(HtmlRecord { key, index, class: Some(class), value: None })
            },
            FileEngine::Proto => Record::Proto(
                ProtoRecord { key, index, tombstone: Some(true), value: None },
            ),
        }
    }
}

} // verus!
