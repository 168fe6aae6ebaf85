//! Per-segment indexes: key to line number within one sealed segment.
//!
//! An index always reflects the *last* occurrence of a key within its
//! segment (last write wins inside one file).  Indexes are built once, at
//! rotation time or when a pre-existing segment is loaded, and are held in
//! memory only; they can always be rebuilt from the segment's lines.

use vstd::prelude::*;

use crate::errors::NullDbReadError;
use crate::file::{decode_spec, FileEngine, RecordV};

verus! {

// ---------------------------------------------------------------------------
// What a segment's lines denote
// ---------------------------------------------------------------------------

/// The decoded record of one line: `None` for an empty line (tolerated,
/// skipped) or a line that does not decode.
pub open spec fn line_record(e: FileEngine, line: Seq<char>) -> Option<RecordV> {
    if line.len() == 0 {
        None
    } else {
        decode_spec(e, line)
    }
}

/// Whether every line of a segment is empty or decodes under `e`.
pub open spec fn lines_wf(e: FileEngine, lines: Seq<String>) -> bool {
    forall|i: int|
        0 <= i < lines.len() ==> (lines[i]@.len() == 0 || (#[trigger] decode_spec(e, lines[i]@))
            is Some)
}

/// The index a segment's lines induce: each key maps to the line number of
/// its last occurrence.
pub open spec fn seg_index_map(e: FileEngine, lines: Seq<String>) -> Map<Seq<char>, int>
    decreases lines.len(),
{
    if lines.len() == 0 {
        Map::empty()
    } else {
        let m = seg_index_map(e, lines.drop_last());
        match line_record(e, lines.last()@) {
            Some(r) => m.insert(r.key(), lines.len() - 1),
            None => m,
        }
    }
}

/// The record map a segment's lines induce: each key maps to the record on
/// its last occurring line.
pub open spec fn seg_map(e: FileEngine, lines: Seq<String>) -> Map<Seq<char>, RecordV>
    decreases lines.len(),
{
    if lines.len() == 0 {
        Map::empty()
    } else {
        let m = seg_map(e, lines.drop_last());
        match line_record(e, lines.last()@) {
            Some(r) => m.insert(r.key(), r),
            None => m,
        }
    }
}

/// The index and the record map of a segment agree: same keys, and the
/// indexed line holds exactly the mapped record, whose key is the map key.
pub proof fn lemma_seg_index_points(e: FileEngine, lines: Seq<String>, k: Seq<char>)
    requires
        seg_index_map(e, lines).contains_key(k),
    ensures
        seg_map(e, lines).contains_key(k),
        0 <= seg_index_map(e, lines)[k] < lines.len(),
        line_record(e, lines[seg_index_map(e, lines)[k]]@) == Some(seg_map(e, lines)[k]),
        seg_map(e, lines)[k].key() == k,
    decreases lines.len(),
{
    let i = seg_index_map(e, lines)[k];
    match line_record(e, lines.last()@) {
        Some(r) => {
            if r.key() == k {
            } else {
                lemma_seg_index_points(e, lines.drop_last(), k);
                assert(lines.drop_last()[seg_index_map(e, lines.drop_last())[k]] == lines[
                    seg_index_map(e, lines.drop_last())[k]
                ]);
            }
        },
        None => {
            lemma_seg_index_points(e, lines.drop_last(), k);
            assert(lines.drop_last()[seg_index_map(e, lines.drop_last())[k]] == lines[
                seg_index_map(e, lines.drop_last())[k]
            ]);
        },
    }
}

/// The index and the record map of a segment have the same keys.
pub proof fn lemma_seg_maps_same_dom(e: FileEngine, lines: Seq<String>)
    ensures
        seg_index_map(e, lines).dom() == seg_map(e, lines).dom(),
    decreases lines.len(),
{
    if lines.len() > 0 {
        lemma_seg_maps_same_dom(e, lines.drop_last());
        assert(seg_index_map(e, lines).dom() =~= seg_map(e, lines).dom());
    } else {
        assert(seg_index_map(e, lines).dom() =~= seg_map(e, lines).dom());
    }
}

// ---------------------------------------------------------------------------
// The executable index
// ---------------------------------------------------------------------------

/// The map denoted by a list of index entries, later entries winning.
pub open spec fn index_entries_map(es: Seq<(String, usize)>) -> Map<Seq<char>, int>
    decreases es.len(),
{
    if es.len() == 0 {
        Map::empty()
    } else {
        index_entries_map(es.drop_last()).insert(es.last().0@, es.last().1 as int)
    }
}

/// An in-memory index for one sealed segment.
pub struct Index {
    entries: Vec<(String, usize)>,
}

impl View for Index {
    type V = Map<Seq<char>, int>;

    closed spec fn view(&self) -> Map<Seq<char>, int> {
        index_entries_map(self.entries@)
    }
}

/// Look a key up among the first `j` entries, later entries winning.
fn index_get_rec(es: &Vec<(String, usize)>, key: &str, j: usize) -> (r: Option<usize>)
    requires
        j <= es@.len(),
    ensures
        match r {
            Some(v) => index_entries_map(es@.take(j as int)).contains_key(key@)
                && index_entries_map(es@.take(j as int))[key@] == v as int,
            None => !index_entries_map(es@.take(j as int)).contains_key(key@),
        },
    decreases j,
{
    if j == 0 {
        None
    } else {
        proof {
            assert(es@.take(j as int).drop_last() =~= es@.take(j - 1));
            assert(es@.take(j as int).last() == es@[j - 1]);
        }
        let e = &es[j - 1];
        if crate::text::str_eq(e.0.as_str(), key) {
            Some(e.1)
        } else {
            index_get_rec(es, key, j - 1)
        }
    }
}

impl Index {
    /// A fresh, empty index.
    pub fn new() -> (r: Index)
        ensures
            r@ == Map::<Seq<char>, int>::empty(),
    {
        Index { entries: Vec::new() }
    }

    /// The line number recorded for `key`, if any.
    pub fn get(&self, key: &str) -> (r: Option<usize>)
        ensures
            match r {
                Some(v) => self@.contains_key(key@) && self@[key@] == v as int,
                None => !self@.contains_key(key@),
            },
    {
        proof {
            assert(self.entries@.take(self.entries@.len() as int) =~= self.entries@);
        }
        index_get_rec(&self.entries, key, self.entries.len())
    }

    /// Record `line` as the position of `key`, superseding any earlier
    /// entry.
    pub fn insert(&mut self, key: String, line: usize)
        ensures
            final(self)@ == old(self)@.insert(key@, line as int),
    {
        let ghost before = self.entries@;
        self.entries.push((key, line));
        proof {
            assert(self.entries@.drop_last() =~= before);
        }
    }

    /// How many entries the index journal holds, superseded entries
    /// included.
    pub closed spec fn entry_count(self) -> nat {
        self.entries@.len()
    }

    /// How many entries the index journal holds, superseded entries
    /// included.
    pub fn len(&self) -> (r: usize)
        ensures
            r == self.entry_count(),
    {
        self.entries.len()
    }
}

/// Scan one segment's lines and build its index: `key -> line number`,
/// last line winning.  Empty lines (possible from a torn append) are
/// skipped, not treated as corruption; a non-empty line that fails to
/// decode makes the whole construction fail with `Corrupted`.
#[verifier::rlimit(60)]
pub fn generate_index_for_segment(segment_lines: &Vec<String>, file_engine: FileEngine) -> (r:
    Result<Index, NullDbReadError>)
    ensures
        match r {
            Ok(idx) => lines_wf(file_engine, segment_lines@) && idx@ == seg_index_map(
                file_engine,
                segment_lines@,
            ),
            Err(e) => e == NullDbReadError::Corrupted && !lines_wf(file_engine, segment_lines@),
        },
{
    let mut idx = Index::new();
    let mut i: usize = 0;
    while i < segment_lines.len()
        invariant
            i <= segment_lines@.len(),
            lines_wf(file_engine, segment_lines@.take(i as int)),
            idx@ == seg_index_map(file_engine, segment_lines@.take(i as int)),
        decreases segment_lines@.len() - i,
    {
        proof {
            assert(segment_lines@.take(i + 1).drop_last() =~= segment_lines@.take(i as int));
            assert(segment_lines@.take(i + 1).last() == segment_lines@[i as int]);
        }
        let line = &segment_lines[i];
        if !line.as_str().is_empty() {
            match file_engine.get_record_from_str(line.as_str()) {
                Ok(rec) => {
                    idx.insert(rec.get_id(), i);
                    proof {
                        assert(line_record(file_engine, segment_lines@[i as int]@) == Some(rec@));
                        assert(idx@ == seg_index_map(file_engine, segment_lines@.take(i + 1)));
                    }
                },
                Err(_) => {
                    proof {
                        assert(!lines_wf(file_engine, segment_lines@)) by {
                            assert(segment_lines@[i as int]@.len() != 0 && decode_spec(
                                file_engine,
                                segment_lines@[i as int]@,
                            ) is None);
                        }
                    }
                    return Err(NullDbReadError::Corrupted);
                },
            }
        } else {
            proof {
                assert(line_record(file_engine, segment_lines@[i as int]@) is None);
                assert(idx@ == seg_index_map(file_engine, segment_lines@.take(i + 1)));
            }
        }
        proof {
            assert(lines_wf(file_engine, segment_lines@.take(i + 1))) by {
                assert(forall|j: int|
                    0 <= j < i + 1 ==> segment_lines@.take(i + 1)[j] == segment_lines@[j]);
                assert(forall|j: int|
                    0 <= j < i ==> segment_lines@.take(i as int)[j] == segment_lines@[j]);
            }
        }
        i = i + 1;
    }
    proof {
        assert(segment_lines@.take(segment_lines@.len() as int) =~= segment_lines@);
    }
    Ok(idx)
}

} // verus!
