//! Segment file names and directory grouping.
//!
//! A segment file is named `{generation}-{timestamp}.nullsegment`; the
//! generation and the stamp are read by splitting at the first dash.  The
//! embedding program lists a directory and hands the bare file names to
//! these helpers.

use vstd::prelude::*;

use crate::enc::{
    dec_digits, dec_push, lemma_parse_lit_at, lemma_parse_u64_at, lit_push, parse_lit,
    parse_lit_exec, parse_u64, parse_u64_exec,
};
use crate::text::{chars_string, str_chars};

verus! {

/// The canonical file name of a segment.
pub open spec fn segment_file_name(generation: u64, timestamp: u64) -> Seq<char> {
    dec_digits(generation) + "-"@ + dec_digits(timestamp) + ".nullsegment"@
}

/// Build a segment's file name from its generation and stamp.
pub fn generate_segment_file_name(generation: u64, timestamp: u64) -> (r: String)
    ensures
        r@ == segment_file_name(generation, timestamp),
{
    let mut out: Vec<char> = Vec::new();
    dec_push(&mut out, generation);
    out.push('-');
    dec_push(&mut out, timestamp);
    lit_push(&mut out, ".nullsegment");
    proof {
        reveal_strlit("-");
        assert("-"@ =~= seq!['-']);
        assert(out@ =~= segment_file_name(generation, timestamp));
    }
    chars_string(&out)
}

/// What parsing a file name yields: the generation before the first dash
/// and the stamp after it, with the fixed extension at the end.
pub open spec fn parse_segment_file_name_spec(s: Seq<char>) -> Option<(u64, u64)> {
    match parse_u64(s, 0) {
        None => None,
        Some((generation, i1)) => if 0 <= i1 < s.len() && s[i1] == '-' {
            match parse_u64(s, i1 + 1) {
                None => None,
                Some((timestamp, i2)) => match parse_lit(s, i2, ".nullsegment"@) {
                    Some(i3) => if i3 == s.len() {
                        Some((generation, timestamp))
                    } else {
                        None
                    },
                    None => None,
                },
            }
        } else {
            None
        },
    }
}

/// Read a segment file name back into its generation and stamp.
pub fn parse_segment_file_name(filename: &str) -> (r: Option<(u64, u64)>)
    ensures
        r == parse_segment_file_name_spec(filename@),
{
    let s = str_chars(filename);
    let (generation, i1) = match parse_u64_exec(&s, 0) {
        Some(p) => p,
        None => {
            return None;
        },
    };
    if i1 >= s.len() || s[i1] != '-' {
        return None;
    }
    let (timestamp, i2) = match parse_u64_exec(&s, i1 + 1) {
        Some(p) => p,
        None => {
            return None;
        },
    };
    let ext = str_chars(".nullsegment");
    let i3 = match parse_lit_exec(&s, i2, &ext) {
        Some(j) => j,
        None => {
            return None;
        },
    };
    if i3 != s.len() {
        return None;
    }
    Some((generation, timestamp))
}

/// The generation a file name names, if any: the number before the first
/// dash.
pub open spec fn file_generation(s: Seq<char>) -> Option<u64> {
    match parse_u64(s, 0) {
        None => None,
        Some((generation, i1)) => if 0 <= i1 < s.len() && s[i1] == '-' {
            Some(generation)
        } else {
            None
        },
    }
}

/// Read the generation off a file name.
pub fn get_generation_from_filename(filename: &str) -> (r: Option<u64>)
    ensures
        r == file_generation(filename@),
{
    let s = str_chars(filename);
    let (generation, i1) = match parse_u64_exec(&s, 0) {
        Some(p) => p,
        None => {
            return None;
        },
    };
    if i1 < s.len() && s[i1] == '-' {
        Some(generation)
    } else {
        None
    }
}

/// A canonical file name parses back to the generation and stamp it was
/// built from.
pub proof fn lemma_file_name_round_trip(generation: u64, timestamp: u64)
    ensures
        parse_segment_file_name_spec(segment_file_name(generation, timestamp)) == Some(
            (generation, timestamp),
        ),
{
    reveal_strlit("-");
    reveal_strlit(".nullsegment");
    let s = segment_file_name(generation, timestamp);
    let d1 = dec_digits(generation);
    let d2 = dec_digits(timestamp);
    let x0 = Seq::<char>::empty();
    let z1 = "-"@ + d2 + ".nullsegment"@;
    assert(s =~= x0 + d1 + z1);
    assert(z1[0] == '-');
    lemma_parse_u64_at(s, x0, generation, z1);
    let x1 = d1 + "-"@;
    assert(s[d1.len() as int] == '-');
    let z2 = ".nullsegment"@;
    assert(s =~= x1 + d2 + z2);
    assert(z2[0] == '.');
    lemma_parse_u64_at(s, x1, timestamp, z2);
    let x2 = x1 + d2;
    assert(s =~= x2 + ".nullsegment"@ + Seq::<char>::empty());
    lemma_parse_lit_at(s, x2, ".nullsegment"@, Seq::<char>::empty());
}

/// Whether a file name carries exactly this generation.
pub open spec fn names_generation(g: u64) -> spec_fn(String) -> bool {
    |n: String| file_generation(n@) == Some(g)
}

/// Filtering keeps nothing when no element satisfies the predicate.
proof fn lemma_filter_none(s: Seq<String>, pred: spec_fn(String) -> bool)
    requires
        forall|x: int| 0 <= x < s.len() ==> !(#[trigger] pred(s[x])),
    ensures
        s.filter(pred) == Seq::<String>::empty(),
    decreases s.len(),
{
    reveal(Seq::filter);
    if s.len() > 0 {
        assert(forall|x: int| 0 <= x < s.drop_last().len() ==> s.drop_last()[x] == s[x]);
        lemma_filter_none(s.drop_last(), pred);
    }
}

/// Segment files of one directory, grouped by generation.
pub struct SegmentGenerationMapper {
    /// One bucket per generation seen: the generation and its file names,
    /// in the order they were handed in.
    pub gen_name_segment_files: Vec<(u64, Vec<String>)>,
    /// The generations seen, one entry per bucket.
    pub generations: Vec<u64>,
}

/// Group segment file names by the generation each name carries; names
/// that do not look like segment files are dropped.  Each bucket holds
/// exactly the input names of its generation, in input order, and every
/// name with a readable generation lands in a bucket.
pub fn get_generations_segment_mapper(segment_files: Vec<String>) -> (r: SegmentGenerationMapper)
    ensures
        r.generations@.len() == r.gen_name_segment_files@.len(),
        forall|i: int|
            0 <= i < r.generations@.len() ==> r.generations@[i] == (
            #[trigger] r.gen_name_segment_files@[i]).0,
        forall|i: int, j: int|
            #![trigger r.generations@[i], r.generations@[j]]
            0 <= i < j < r.generations@.len() ==> r.generations@[i] != r.generations@[j],
        forall|i: int|
            0 <= i < r.gen_name_segment_files@.len() ==> (
            #[trigger] r.gen_name_segment_files@[i]).1@ == segment_files@.filter(
                names_generation(r.gen_name_segment_files@[i].0),
            ),
        forall|j: int|
            0 <= j < segment_files@.len() && (#[trigger] file_generation(segment_files@[j]@))
                is Some ==> exists|i: int|
                0 <= i < r.generations@.len() && (#[trigger] r.generations@[i])
                    == file_generation(segment_files@[j]@).unwrap(),
{
    let mut mapper = SegmentGenerationMapper {
        gen_name_segment_files: Vec::new(),
        generations: Vec::new(),
    };
    let mut i: usize = 0;
    proof {
        assert(segment_files@.take(0) =~= Seq::<String>::empty());
        assert(forall|g: u64|
            segment_files@.take(0).filter(#[trigger] names_generation(g))
                == Seq::<String>::empty()) by {
            reveal(Seq::filter);
        }
    }
    while i < segment_files.len()
        invariant
            i <= segment_files@.len(),
            mapper.generations@.len() == mapper.gen_name_segment_files@.len(),
            forall|x: int|
                0 <= x < mapper.generations@.len() ==> mapper.generations@[x] == (
                #[trigger] mapper.gen_name_segment_files@[x]).0,
            forall|x: int, y: int|
                #![trigger mapper.generations@[x], mapper.generations@[y]]
                0 <= x < y < mapper.generations@.len() ==> mapper.generations@[x]
                    != mapper.generations@[y],
            forall|x: int|
                0 <= x < mapper.gen_name_segment_files@.len() ==> (
                #[trigger] mapper.gen_name_segment_files@[x]).1@ == segment_files@.take(
                    i as int,
                ).filter(names_generation(mapper.gen_name_segment_files@[x].0)),
            forall|j: int|
                0 <= j < i && (#[trigger] file_generation(segment_files@[j]@))
                    is Some ==> exists|x: int|
                    0 <= x < mapper.generations@.len() && (#[trigger] mapper.generations@[x])
                        == file_generation(segment_files@[j]@).unwrap(),
        decreases segment_files@.len() - i,
    {
        let name = segment_files[i].clone();
        proof {
            assert(segment_files@.take(i + 1).drop_last() =~= segment_files@.take(i as int));
            assert(segment_files@.take(i + 1) =~= segment_files@.take(i as int).push(
                segment_files@[i as int],
            ));
        }
        match get_generation_from_filename(name.as_str()) {
            Some(generation) => {
                let mut found: Option<usize> = None;
                let mut b: usize = 0;
                while b < mapper.gen_name_segment_files.len()
                    invariant
                        b <= mapper.gen_name_segment_files@.len(),
                        match found {
                            Some(fb) => fb < b && mapper.gen_name_segment_files@[fb as int].0
                                == generation,
                            None => forall|x: int|
                                0 <= x < b ==> (#[trigger] mapper.gen_name_segment_files@[x]).0
                                    != generation,
                        },
                    decreases mapper.gen_name_segment_files@.len() - b,
                {
                    if found.is_none() && mapper.gen_name_segment_files[b].0 == generation {
                        found = Some(b);
                    }
                    b = b + 1;
                }
                match found {
                    Some(fb) => {
                        let ghost before = mapper.gen_name_segment_files@;
                        let bucket = &mut mapper.gen_name_segment_files[fb].1;
                        bucket.push(name);
                        proof {
                            assert(mapper.gen_name_segment_files@[fb as int].1@.drop_last()
                                =~= before[fb as int].1@);
                            assert(forall|x: int|
                                0 <= x < before.len() && x != fb
                                    ==> #[trigger] mapper.gen_name_segment_files@[x]
                                    == before[x]);
                            assert forall|x: int|
                                0 <= x < mapper.gen_name_segment_files@.len() implies (
                            #[trigger] mapper.gen_name_segment_files@[x]).1@
                                == segment_files@.take(i + 1).filter(
                                names_generation(mapper.gen_name_segment_files@[x].0),
                            ) by {
                                let g = mapper.gen_name_segment_files@[x].0;
                                segment_files@.take(i as int).lemma_filter_push(
                                    segment_files@[i as int],
                                    names_generation(g),
                                );
                                if x == fb {
                                    assert(names_generation(g)(segment_files@[i as int]));
                                    assert(mapper.gen_name_segment_files@[x].1@
                                        =~= before[x].1@.push(segment_files@[i as int]));
                                } else {
                                    assert(g != generation);
                                    assert(!names_generation(g)(segment_files@[i as int]));
                                }
                            }
                            assert forall|j: int|
                                0 <= j < i + 1 && (#[trigger] file_generation(
                                    segment_files@[j]@,
                                )) is Some implies exists|x: int|
                                0 <= x < mapper.generations@.len() && (
                                #[trigger] mapper.generations@[x]) == file_generation(
                                    segment_files@[j]@,
                                ).unwrap() by {
                                if j == i {
                                    assert(mapper.generations@[fb as int] == generation);
                                }
                            }
                        }
                    },
                    None => {
                        let ghost before = mapper.gen_name_segment_files@;
                        let ghost before_gens = mapper.generations@;
                        let mut bucket: Vec<String> = Vec::new();
                        bucket.push(name);
                        mapper.gen_name_segment_files.push((generation, bucket));
                        mapper.generations.push(generation);
                        proof {
                            assert(forall|x: int|
                                0 <= x < before.len()
                                    ==> #[trigger] mapper.gen_name_segment_files@[x]
                                    == before[x]);
                            assert(forall|x: int|
                                0 <= x < before_gens.len() ==> #[trigger] mapper.generations@[x]
                                    == before_gens[x]);
                            let newlen = mapper.generations@.len() as int;
                            assert(mapper.generations@[newlen - 1] == generation);
                            assert forall|x: int, y: int|
                                #![trigger mapper.generations@[x], mapper.generations@[y]]
                            0 <= x < y < newlen implies mapper.generations@[x]
                                != mapper.generations@[y] by {
                                if y == newlen - 1 {
                                    assert(mapper.generations@[x] == before_gens[x]);
                                    assert(before_gens[x] == before[x].0);
                                    assert(before[x].0 != generation);
                                }
                            }
                            // no earlier input carries this generation, so its
                            // filtered run so far is empty
                            assert forall|j: int|
                                0 <= j < i implies !(#[trigger] names_generation(generation)(
                                segment_files@.take(i as int)[j],
                            )) by {
                                if file_generation(segment_files@[j]@) == Some(generation) {
                                    let x = choose|x: int|
                                        0 <= x < before_gens.len() && (
                                        #[trigger] before_gens[x]) == file_generation(
                                            segment_files@[j]@,
                                        ).unwrap();
                                    assert(before[x].0 == generation);
                                }
                            }
                            lemma_filter_none(
                                segment_files@.take(i as int),
                                names_generation(generation),
                            );
                            assert forall|j: int|
                                0 <= j < i + 1 && (#[trigger] file_generation(
                                    segment_files@[j]@,
                                )) is Some implies exists|x: int|
                                0 <= x < mapper.generations@.len() && (
                                #[trigger] mapper.generations@[x]) == file_generation(
                                    segment_files@[j]@,
                                ).unwrap() by {
                                if j == i {
                                    assert(mapper.generations@[newlen - 1] == generation);
                                } else {
                                    let x = choose|x: int|
                                        0 <= x < before_gens.len() && (
                                        #[trigger] before_gens[x]) == file_generation(
                                            segment_files@[j]@,
                                        ).unwrap();
                                    assert(mapper.generations@[x] == file_generation(
                                        segment_files@[j]@,
                                    ).unwrap());
                                }
                            }
                            assert forall|x: int|
                                0 <= x < mapper.gen_name_segment_files@.len() implies (
                            #[trigger] mapper.gen_name_segment_files@[x]).1@
                                == segment_files@.take(i + 1).filter(
                                names_generation(mapper.gen_name_segment_files@[x].0),
                            ) by {
                                let g = mapper.gen_name_segment_files@[x].0;
                                segment_files@.take(i as int).lemma_filter_push(
                                    segment_files@[i as int],
                                    names_generation(g),
                                );
                                if x == newlen - 1 {
                                    assert(names_generation(g)(segment_files@[i as int]));
                                    assert(mapper.gen_name_segment_files@[x].1@ =~= Seq::<
                                        String,
                                    >::empty().push(segment_files@[i as int]));
                                } else {
                                    assert(g != generation);
                                    assert(!names_generation(g)(segment_files@[i as int]));
                                }
                            }
                        }
                    },
                }
            },
            None => {
                proof {
                    assert forall|x: int|
                        0 <= x < mapper.gen_name_segment_files@.len() implies (
                    #[trigger] mapper.gen_name_segment_files@[x]).1@ == segment_files@.take(
                        i + 1,
                    ).filter(names_generation(mapper.gen_name_segment_files@[x].0)) by {
                        let g = mapper.gen_name_segment_files@[x].0;
                        segment_files@.take(i as int).lemma_filter_push(
                            segment_files@[i as int],
                            names_generation(g),
                        );
                        assert(!names_generation(g)(segment_files@[i as int]));
                    }
                }
            },
        }
        i = i + 1;
    }
    proof {
        assert(segment_files@.take(segment_files@.len() as int) =~= segment_files@);
    }
    mapper
}

} // verus!
