//! The storage engine: a main writable segment, sealed segments with
//! indexes, and last-write-wins reads across them.
//!
//! Segments are kept in ascending read precedence: reads scan the list from
//! the back, and the freshest data always sits at the end.  A sealed
//! segment's precedence is decided by its id — *lower* generations first
//! (compaction promotes survivors to a higher generation, and everything a
//! compacted segment holds is older than any segment rotated after the
//! pass), and within a generation newer creation stamps first.  The main
//! segment's in-memory mirror is consulted before any sealed segment.
//!
//! The engine's view ([`NullDB::view`]) is the map from each key to the
//! record a read returns for it; every operation's contract is stated
//! against that map.

use vstd::prelude::*;

use crate::errors::NullDbReadError;
use crate::file::{encode_spec, engine_of, record_v, tombstone_v, FileEngine, Record, RecordV};
use crate::index::{
    generate_index_for_segment, lemma_seg_index_points, lemma_seg_maps_same_dom, line_record,
    lines_wf, seg_index_map, seg_map, Index,
};
use crate::raft::LogEntry;
use crate::text::str_eq;
use vstd::map::*;
use vstd::string::StringExecFns;

verus! {

// ---------------------------------------------------------------------------
// Segments and configuration
// ---------------------------------------------------------------------------

/// Identifies one segment: the compaction generation that produced it and
/// its creation stamp.  Stamps are drawn from one strictly increasing
/// counter, so no two segments of a store share one.
#[derive(Debug, Clone, Copy, PartialEq, Eq, Structural, Hash)]
pub struct SegmentId {
    pub generation: u64,
    pub timestamp: u64,
}

/// Read precedence between sealed segments: `a` is read before `b` when it
/// has the lower generation, or the same generation and the newer stamp.
pub open spec fn better(a: SegmentId, b: SegmentId) -> bool {
    a.generation < b.generation || (a.generation == b.generation && a.timestamp > b.timestamp)
}

/// One sealed segment: its id and its lines.
pub struct Segment {
    pub id: SegmentId,
    pub lines: Vec<String>,
}

/// What a store is built with: its directory, whether timed compaction is
/// wanted, the codec's name, and how many lines the main segment may hold
/// before a write rotates it.
#[derive(Debug, Clone)]
pub struct Config {
    pub path: String,
    pub compaction: bool,
    pub encoding: String,
    pub rotation_threshold: usize,
}

impl Config {
    /// A configuration with the default rotation threshold.
    pub fn new(path: String, compaction: bool, encoding: String) -> (r: Config)
        ensures
            r.path@ == path@,
            r.compaction == compaction,
            r.encoding@ == encoding@,
            r.rotation_threshold == 5120,
    {
        Config { path, compaction, encoding, rotation_threshold: 5120 }
    }

    /// The same configuration with another rotation threshold.
    pub fn with_rotation_threshold(self, rotation_threshold: usize) -> (r: Config)
        requires
            rotation_threshold >= 1,
        ensures
            r.path@ == self.path@,
            r.compaction == self.compaction,
            r.encoding@ == self.encoding@,
            r.rotation_threshold == rotation_threshold,
    {
        Config { rotation_threshold, ..self }
    }
}

// ---------------------------------------------------------------------------
// The spec model: mirror, sealed lookup
// ---------------------------------------------------------------------------

/// The map denoted by the mirror's entries, later entries winning.
pub open spec fn mirror_map(es: Seq<(String, Record)>) -> Map<Seq<char>, RecordV>
    decreases es.len(),
{
    if es.len() == 0 {
        Map::empty()
    } else {
        mirror_map(es.drop_last()).insert(es.last().0@, es.last().1@)
    }
}

/// The record a read of `k` finds among sealed segments: segments are
/// scanned from the back of the list (highest precedence first), and within
/// one segment the last line for a key wins.
pub open spec fn sealed_find(e: FileEngine, segs: Seq<Segment>, k: Seq<char>) -> Option<RecordV>
    decreases segs.len(),
{
    if segs.len() == 0 {
        None
    } else {
        let m = seg_map(e, segs.last().lines@);
        if m.contains_key(k) {
            Some(m[k])
        } else {
            sealed_find(e, segs.drop_last(), k)
        }
    }
}

/// The combined record map of a list of sealed segments, later segments
/// winning.
pub open spec fn sealed_fold(e: FileEngine, segs: Seq<Segment>) -> Map<Seq<char>, RecordV>
    decreases segs.len(),
{
    if segs.len() == 0 {
        Map::empty()
    } else {
        sealed_fold(e, segs.drop_last()).union_prefer_right(seg_map(e, segs.last().lines@))
    }
}

/// Scanning from the back finds exactly the combined map's entry.
pub proof fn lemma_sealed_find_fold(e: FileEngine, segs: Seq<Segment>, k: Seq<char>)
    ensures
        sealed_find(e, segs, k) == (if sealed_fold(e, segs).contains_key(k) {
            Some(sealed_fold(e, segs)[k])
        } else {
            None::<RecordV>
        }),
    decreases segs.len(),
{
    if segs.len() > 0 {
        lemma_sealed_find_fold(e, segs.drop_last(), k);
    }
}

/// What a search of the sealed segments yields: the winning record, no
/// record at all, or a halt at a segment whose index is missing.
pub enum SealedRead {
    Found(RecordV),
    Absent,
    NoIndex,
}

/// Whether some segment of the list carries the given id.
pub open spec fn has_seg(segs: Seq<Segment>, id: SegmentId) -> bool {
    exists|i: int| 0 <= i < segs.len() && (#[trigger] segs[i]).id == id
}

/// The position of the segment carrying the given id.
pub open spec fn seg_pos(segs: Seq<Segment>, id: SegmentId) -> int {
    choose|i: int| 0 <= i < segs.len() && (#[trigger] segs[i]).id == id
}

// ---------------------------------------------------------------------------
// The engine
// ---------------------------------------------------------------------------

/// The storage engine.
pub struct NullDB {
    /// The lines of the main (writable) segment.
    main_log: Vec<String>,
    /// The main segment's id; always generation zero.
    main_id: SegmentId,
    /// The in-memory mirror of the main segment: the last record per key.
    main_memory: Vec<(String, Record)>,
    /// The sealed segments, in ascending read precedence.
    segments: Vec<Segment>,
    /// The published index of each sealed segment.
    indexes: Vec<(SegmentId, Index)>,
    config: Config,
    file_engine: FileEngine,
    /// The logical index of the most recently applied replicated entry.
    current_raft_index: u64,
    /// The next unused creation stamp.
    next_timestamp: u64,
}

impl View for NullDB {
    type V = Map<Seq<char>, RecordV>;

    /// The record each key currently reads as: the main segment first, then
    /// the sealed segments in precedence order.
    closed spec fn view(&self) -> Map<Seq<char>, RecordV> {
        Map::new(
            |k: Seq<char>|
                seg_map(self.file_engine, self.main_log@).contains_key(k) || sealed_find(
                    self.file_engine,
                    self.segments@,
                    k,
                ) is Some,
            |k: Seq<char>|
                if seg_map(self.file_engine, self.main_log@).contains_key(k) {
                    seg_map(self.file_engine, self.main_log@)[k]
                } else {
                    sealed_find(self.file_engine, self.segments@, k).unwrap()
                },
        )
    }
}

impl NullDB {
    /// The codec every line of this store uses.
    pub closed spec fn engine(self) -> FileEngine {
        self.file_engine
    }

    /// How many lines the main segment holds.
    pub closed spec fn main_len(self) -> nat {
        self.main_log@.len()
    }

    /// How many sealed segments there are.
    pub closed spec fn sealed_count(self) -> nat {
        self.segments@.len()
    }

    /// The number of lines the main segment may hold before a write rotates
    /// it.
    pub closed spec fn rotation_threshold(self) -> nat {
        self.config.rotation_threshold as nat
    }

    /// The logical index of the most recently applied replicated entry.
    pub closed spec fn raft_index(self) -> u64 {
        self.current_raft_index
    }

    /// The record map of the main segment alone.
    pub closed spec fn main_map(self) -> Map<Seq<char>, RecordV> {
        seg_map(self.file_engine, self.main_log@)
    }

    /// The combined record map of the sealed segments alone.
    pub closed spec fn sealed_map(self) -> Map<Seq<char>, RecordV> {
        sealed_fold(self.file_engine, self.segments@)
    }

    /// The id of the sealed segment at a list position (ascending read
    /// precedence).
    pub closed spec fn sealed_seg_id(self, i: int) -> SegmentId {
        self.segments@[i].id
    }

    /// The lines of the sealed segment at a list position.
    pub closed spec fn sealed_seg_lines(self, i: int) -> Seq<String> {
        self.segments@[i].lines@
    }

    /// Whether a sealed segment with this id exists.
    pub closed spec fn has_segment(self, id: SegmentId) -> bool {
        has_seg(self.segments@, id)
    }

    /// The lines of the sealed segment with this id.
    pub closed spec fn segment_lines(self, id: SegmentId) -> Seq<String> {
        self.segments@[seg_pos(self.segments@, id)].lines@
    }

    /// The outcome of searching the first `n` sealed segments, highest
    /// precedence first: the search stops at the first segment it cannot
    /// examine — one without a published index — and otherwise at the
    /// first segment whose record map holds the key.
    pub closed spec fn sealed_read(self, k: Seq<char>, n: int) -> SealedRead
        decreases n,
    {
        if n <= 0 {
            SealedRead::Absent
        } else {
            let s = self.segments@[n - 1];
            if !self.has_index(s.id) {
                SealedRead::NoIndex
            } else if seg_map(self.file_engine, s.lines@).contains_key(k) {
                SealedRead::Found(seg_map(self.file_engine, s.lines@)[k])
            } else {
                self.sealed_read(k, n - 1)
            }
        }
    }

    /// Whether an index is published for this id.
    pub closed spec fn has_index(self, id: SegmentId) -> bool {
        exists|j: int| 0 <= j < self.indexes@.len() && (#[trigger] self.indexes@[j]).0 == id
    }

    /// Whether every sealed segment has a published index.
    pub closed spec fn fully_indexed(self) -> bool {
        forall|i: int|
            0 <= i < self.segments@.len() ==> self.has_index((#[trigger] self.segments@[i]).id)
    }

    /// How many creation stamps are still available.  Every rotation, every
    /// compaction pass and every loaded segment consumes one; the machine
    /// limit of `u64::MAX` stamps is far beyond any real store.
    pub closed spec fn stamps_left(self) -> int {
        u64::MAX - self.next_timestamp
    }

    /// The store's base directory, as characters.
    pub closed spec fn db_path(self) -> Seq<char> {
        self.config.path@
    }

    /// The main segment's id.
    pub closed spec fn main_seg_id(self) -> SegmentId {
        self.main_id
    }

    /// The engine's internal invariant.
    #[verifier::opaque]
    pub closed spec fn wf(self) -> bool {
        // every main line decodes to a record
        &&& forall|i: int|
            0 <= i < self.main_log@.len() ==> (#[trigger] line_record(
                self.file_engine,
                self.main_log@[i]@,
            )) is Some
        // the mirror is exactly the main segment's record map
        &&& mirror_map(self.main_memory@) == seg_map(self.file_engine, self.main_log@)
        // every sealed line is empty or decodes
        &&& forall|i: int|
            0 <= i < self.segments@.len() ==> lines_wf(
                self.file_engine,
                (#[trigger] self.segments@[i]).lines@,
            )
        // the list is in ascending read precedence
        &&& forall|i: int, j: int|
            #![trigger self.segments@[i].id, self.segments@[j].id]
            0 <= i < j < self.segments@.len() ==> better(
                self.segments@[j].id,
                self.segments@[i].id,
            )
        // every stamp in use is below the next free one
        &&& forall|i: int|
            0 <= i < self.segments@.len() ==> (#[trigger] self.segments@[i]).id.timestamp
                < self.next_timestamp
        &&& self.main_id.timestamp < self.next_timestamp
        &&& self.main_id.generation == 0
        // the main segment outranks every sealed segment, so rotating it
        // keeps the list in precedence order
        &&& forall|i: int|
            0 <= i < self.segments@.len() ==> better(
                self.main_id,
                (#[trigger] self.segments@[i]).id,
            )
        // every published index belongs to a sealed segment and is exactly
        // that segment's index map
        &&& forall|j: int|
            0 <= j < self.indexes@.len() ==> has_seg(
                self.segments@,
                (#[trigger] self.indexes@[j]).0,
            ) && self.indexes@[j].1@ == seg_index_map(
                self.file_engine,
                self.segments@[seg_pos(self.segments@, self.indexes@[j].0)].lines@,
            )
        // at most one index per segment id
        &&& forall|j1: int, j2: int|
            #![trigger self.indexes@[j1].0, self.indexes@[j2].0]
            0 <= j1 < j2 < self.indexes@.len() ==> self.indexes@[j1].0 != self.indexes@[j2].0
        &&& self.config.rotation_threshold >= 1
    }

    /// A fresh, empty store.
    pub fn new(config: Config) -> (r: NullDB)
        requires
            config.encoding@ == "json"@ || config.encoding@ == "html"@ || config.encoding@
                == "proto"@,
            config.rotation_threshold >= 1,
        ensures
            r.wf(),
            r@ == Map::<Seq<char>, RecordV>::empty(),
            r.main_len() == 0,
            r.sealed_count() == 0,
            r.raft_index() == 0,
            r.rotation_threshold() == config.rotation_threshold,
            r.fully_indexed(),
            config.encoding@ == "json"@ ==> r.engine() == FileEngine::Json,
            config.encoding@ == "html"@ ==> r.engine() == FileEngine::Html,
            config.encoding@ == "proto"@ ==> r.engine() == FileEngine::Proto,
            r.stamps_left() == u64::MAX - 1,
    {
        let file_engine = FileEngine::new(config.encoding.as_str());
        let r = NullDB {
            main_log: Vec::new(),
            main_id: SegmentId { generation: 0, timestamp: 0 },
            main_memory: Vec::new(),
            segments: Vec::new(),
            indexes: Vec::new(),
            config,
            file_engine,
            current_raft_index: 0,
            next_timestamp: 1,
        };
        proof {
            reveal(NullDB::wf);
            assert(r.wf());
            assert(r@ =~= Map::<Seq<char>, RecordV>::empty());
        }
        r
    }

    /// The store's base directory.
    pub fn get_db_path(&self) -> (r: String)
        ensures
            r@ == self.db_path(),
    {
        self.config.path.clone()
    }

    /// The path of a file inside the store's base directory.
    pub fn get_path_for_file(&self, file_name: String) -> (r: String)
        ensures
            r@ == self.db_path() + "/"@ + file_name@,
    {
        let mut path = self.config.path.clone();
        path.append("/");
        path.append(file_name.as_str());
        path
    }

    /// The codec this store was built with.
    pub fn get_file_engine(&self) -> (r: FileEngine)
        ensures
            r == self.engine(),
    {
        self.file_engine
    }

    /// The id of the current main segment.
    pub fn get_main_log(&self) -> (r: SegmentId)
        requires
            self.wf(),
        ensures
            r == self.main_seg_id(),
            r.generation == 0,
            !self.has_segment(r),
    {
        proof {
            reveal(NullDB::wf);
        }
        self.main_id
    }

    /// The logical index of the most recently applied replicated entry.
    pub fn get_current_raft_index(&self) -> (r: u64)
        ensures
            r == self.raft_index(),
    {
        self.current_raft_index
    }
}

// ---------------------------------------------------------------------------
// The mirror
// ---------------------------------------------------------------------------

/// Look a key up among the first `j` mirror entries, later entries winning.
fn mirror_get_rec<'a>(es: &'a Vec<(String, Record)>, key: &str, j: usize) -> (r: Option<
    &'a Record,
>)
    requires
        j <= es@.len(),
    ensures
        match r {
            Some(rec) => mirror_map(es@.take(j as int)).contains_key(key@) && mirror_map(
                es@.take(j as int),
            )[key@] == rec@,
            None => !mirror_map(es@.take(j as int)).contains_key(key@),
        },
    decreases j,
{
    if j == 0 {
        None
    } else {
        proof {
            assert(es@.take(j as int).drop_last() =~= es@.take(j - 1));
            assert(es@.take(j as int).last() == es@[j - 1]);
        }
        let e = &es[j - 1];
        if str_eq(e.0.as_str(), key) {
            Some(&e.1)
        } else {
            mirror_get_rec(es, key, j - 1)
        }
    }
}

// ---------------------------------------------------------------------------
// Writing
// ---------------------------------------------------------------------------

/// How one write changes the pair (main segment lines, sealed segment
/// count): a write that finds the main segment full rotates it first, so a
/// sealed segment is born holding exactly `threshold` lines.
pub open spec fn write_step(main_len: nat, sealed: nat, threshold: nat) -> (nat, nat) {
    if main_len >= threshold {
        (1 as nat, (sealed + 1) as nat)
    } else {
        ((main_len + 1) as nat, sealed)
    }
}

/// The view after applying a batch of replicated entries: entry `i`
/// (counting from zero) is stored under logical index `index + i + 1`.
pub open spec fn apply_entries(
    m: Map<Seq<char>, RecordV>,
    e: FileEngine,
    entries: Seq<LogEntry>,
    index: u64,
) -> Map<Seq<char>, RecordV>
    decreases entries.len(),
{
    if entries.len() == 0 {
        m
    } else {
        apply_entries(m, e, entries.drop_last(), index).insert(
            entries.last().key@,
            record_v(
                e,
                entries.last().key@,
                (index + entries.len()) as u64,
                None,
                Some(entries.last().value@),
            ),
        )
    }
}

/// The key and value of a record fit the compact codec's length prefix;
/// true of every record held in memory.
fn record_bounds(record: &Record)
    ensures
        record@.key().len() <= u64::MAX,
        match record@.value() {
            Some(v) => v.len() <= u64::MAX,
            None => true,
        },
{
    let k = record.get_id();
    let _n = k.as_str().unicode_len();
    match record.get_value() {
        Some(v) => {
            let _m = v.as_str().unicode_len();
        },
        None => {},
    }
}

impl NullDB {
    /// The lines of the main segment.
    pub closed spec fn main_lines(self) -> Seq<String> {
        self.main_log@
    }

    /// Seal the main segment: build and publish its index, move its lines
    /// into the sealed list, clear the mirror, and start a fresh, empty
    /// main segment.
    #[verifier::rlimit(100)]
    fn rotate(&mut self)
        requires
            old(self).wf(),
            old(self).stamps_left() >= 1,
        ensures
            final(self).wf(),
            final(self)@ == old(self)@,
            final(self).main_len() == 0,
            final(self).main_map() == Map::<Seq<char>, RecordV>::empty(),
            final(self).sealed_count() == old(self).sealed_count() + 1,
            final(self).sealed_map() == old(self).sealed_map().union_prefer_right(old(self).main_map()),
            final(self).sealed_seg_lines(old(self).sealed_count() as int) == old(self).main_lines(),
            final(self).sealed_seg_id(old(self).sealed_count() as int).generation == 0,
            final(self).has_index(final(self).sealed_seg_id(old(self).sealed_count() as int)),
            final(self).index_of(final(self).sealed_seg_id(old(self).sealed_count() as int))
                == seg_index_map(old(self).engine(), old(self).main_lines()),
            forall|i: int|
                0 <= i < old(self).sealed_count() ==> final(self).sealed_seg_id(i) == old(
                    self,
                ).sealed_seg_id(i) && final(self).sealed_seg_lines(i) == old(
                    self,
                ).sealed_seg_lines(i),
            final(self).main_seg_id().generation == 0,
            final(self).main_seg_id().timestamp > old(self).main_seg_id().timestamp,
            final(self).engine() == old(self).engine(),
            final(self).rotation_threshold() == old(self).rotation_threshold(),
            final(self).raft_index() == old(self).raft_index(),
            final(self).db_path() == old(self).db_path(),
            final(self).stamps_left() == old(self).stamps_left() - 1,
            old(self).fully_indexed() ==> final(self).fully_indexed(),
    {
        proof {
            reveal(NullDB::wf);
        }
        let idx = match generate_index_for_segment(&self.main_log, self.file_engine) {
            Ok(idx) => idx,
            Err(_) => {
                proof {
                    assert(lines_wf(self.file_engine, self.main_log@)) by {
                        assert forall|i: int| 0 <= i < self.main_log@.len() implies (
                        self.main_log@[i]@.len() == 0 || (#[trigger] crate::file::decode_spec(
                            self.file_engine,
                            self.main_log@[i]@,
                        )) is Some) by {
                            assert(line_record(self.file_engine, self.main_log@[i]@) is Some);
                        }
                    }
                    assert(false);
                }
                Index::new()
            },
        };
        let mut lines: Vec<String> = Vec::new();
        core::mem::swap(&mut lines, &mut self.main_log);
        let old_id = self.main_id;
        let ghost old_segs = self.segments@;
        let ghost old_indexes = self.indexes@;
        self.segments.push(Segment { id: old_id, lines });
        self.indexes.push((old_id, idx));
        self.main_memory.clear();
        self.main_id = SegmentId { generation: 0, timestamp: self.next_timestamp };
        self.next_timestamp = self.next_timestamp + 1;
        proof {
            let e = self.file_engine;
            let n = old_segs.len() as int;
            assert(self.segments@.drop_last() =~= old_segs);
            assert(self.indexes@.drop_last() =~= old_indexes);
            assert(forall|i: int| 0 <= i < n ==> (#[trigger] self.segments@[i]) == old_segs[i]);
            assert(forall|j: int|
                0 <= j < old_indexes.len() ==> (#[trigger] self.indexes@[j]) == old_indexes[j]);
            assert(self.segments@[n].id == old_id);
            assert(self.segments@[n].lines@ == old(self).main_log@);
            assert(has_seg(self.segments@, old_id));

            assert(mirror_map(self.main_memory@) =~= seg_map(e, self.main_log@)) by {
                assert(self.main_memory@.len() == 0);
                assert(self.main_log@.len() == 0);
            }

            // the sealed main segment outranked, and so differs from, every
            // previously sealed segment
            assert(forall|i: int| 0 <= i < n ==> better(old_id, (#[trigger] old_segs[i]).id));
            assert(forall|i: int| 0 <= i < n ==> old_id != (#[trigger] old_segs[i]).id);

            assert(lines_wf(e, self.segments@[n].lines@)) by {
                assert forall|i: int| 0 <= i < old(self).main_log@.len() implies (old(
                    self,
                ).main_log@[i]@.len() == 0 || (#[trigger] crate::file::decode_spec(
                    e,
                    old(self).main_log@[i]@,
                )) is Some) by {
                    assert(line_record(e, old(self).main_log@[i]@) is Some);
                }
            }

            // every published index still belongs to its segment
            assert forall|j: int| 0 <= j < self.indexes@.len() implies has_seg(
                self.segments@,
                (#[trigger] self.indexes@[j]).0,
            ) && self.indexes@[j].1@ == seg_index_map(
                e,
                self.segments@[seg_pos(self.segments@, self.indexes@[j].0)].lines@,
            ) by {
                if j < old_indexes.len() {
                    let p = seg_pos(old_segs, old_indexes[j].0);
                    assert(0 <= p < old_segs.len() && old_segs[p].id == old_indexes[j].0);
                    assert(self.segments@[p] == old_segs[p]);
                    assert(has_seg(self.segments@, self.indexes@[j].0));
                    let p2 = seg_pos(self.segments@, self.indexes@[j].0);
                    assert(0 <= p2 < self.segments@.len() && self.segments@[p2].id
                        == self.indexes@[j].0);
                    if p2 != p {
                        if p2 == n {
                            assert(old_id == old_segs[p].id);
                            assert(false);
                        } else {
                            assert(better(old_segs[p2].id, old_segs[p].id) || better(
                                old_segs[p].id,
                                old_segs[p2].id,
                            ));
                            assert(false);
                        }
                    }
                } else {
                    assert(self.indexes@[j] == (old_id, idx));
                    let p2 = seg_pos(self.segments@, old_id);
                    assert(0 <= p2 < self.segments@.len() && self.segments@[p2].id == old_id);
                    if p2 != n {
                        assert(old_id != old_segs[p2].id);
                        assert(false);
                    }
                }
            }

            // at most one index per id, the fresh entry included
            assert forall|j1: int, j2: int|
                #![trigger self.indexes@[j1].0, self.indexes@[j2].0]
            0 <= j1 < j2 < self.indexes@.len() implies self.indexes@[j1].0
                != self.indexes@[j2].0 by {
                if j2 == old_indexes.len() {
                    let p = seg_pos(old_segs, old_indexes[j1].0);
                    assert(0 <= p < old_segs.len() && old_segs[p].id == old_indexes[j1].0);
                    assert(old_id != old_segs[p].id);
                }
            }

            assert(self.wf()) by {
                reveal(NullDB::wf);
            }
            self.lemma_index_pos_unique(old_indexes.len() as int);
            assert(self.has_index(old_id));
            assert(self.index_of(old_id) == idx@);
            assert(self@ =~= old(self)@) by {
                assert forall|k: Seq<char>| true implies {
                    &&& (self@.contains_key(k) <==> old(self)@.contains_key(k))
                    &&& (self@.contains_key(k) ==> self@[k] == old(self)@[k])
                } by {
                    assert(sealed_find(e, self.segments@, k) == (if seg_map(
                        e,
                        old(self).main_log@,
                    ).contains_key(k) {
                        Some(seg_map(e, old(self).main_log@)[k])
                    } else {
                        sealed_find(e, old_segs, k)
                    }));
                    assert(!seg_map(e, self.main_log@).contains_key(k));
                }
            }
            assert(self.sealed_map() =~= old(self).sealed_map().union_prefer_right(
                old(self).main_map(),
            ));
            assert(old(self).fully_indexed() ==> self.fully_indexed()) by {
                if old(self).fully_indexed() {
                    assert forall|i: int| 0 <= i < self.segments@.len() implies self.has_index(
                        (#[trigger] self.segments@[i]).id,
                    ) by {
                        if i < n {
                            assert(old_segs[i] == self.segments@[i]);
                            assert(old(self).has_index(old_segs[i].id));
                            let j = choose|j: int|
                                0 <= j < old_indexes.len() && (#[trigger] old_indexes[j]).0
                                    == old_segs[i].id;
                            assert(self.indexes@[j].0 == old_segs[i].id);
                        } else {
                            assert(self.indexes@[old_indexes.len() as int].0 == old_id);
                        }
                    }
                }
            }
        }
    }

    /// Append one record: rotate the main segment first if it is full, then
    /// write the record's line and update the mirror.  The new record
    /// shadows every earlier record for its key.
    /// One appended line inserts its record into the main segment's map
    /// and leaves the rest of the engine's state alone.
    proof fn lemma_append_shape(pre: NullDB, post: NullDB, recv: RecordV)
        requires
            pre.wf(),
            post.file_engine == pre.file_engine,
            post.main_id == pre.main_id,
            post.segments@ == pre.segments@,
            post.indexes@ == pre.indexes@,
            post.config == pre.config,
            post.current_raft_index == pre.current_raft_index,
            post.next_timestamp == pre.next_timestamp,
            post.main_log@.len() == pre.main_log@.len() + 1,
            post.main_log@.drop_last() == pre.main_log@,
            line_record(post.file_engine, post.main_log@.last()@) == Some(recv),
            post.main_memory@.len() == pre.main_memory@.len() + 1,
            post.main_memory@.drop_last() == pre.main_memory@,
            post.main_memory@.last().0@ == recv.key(),
            post.main_memory@.last().1@ == recv,
        ensures
            post.wf(),
            post@ == pre@.insert(recv.key(), recv),
    {
        reveal(NullDB::wf);
        let e = pre.file_engine;
        assert(seg_map(e, post.main_log@) == seg_map(e, pre.main_log@).insert(recv.key(), recv));
        assert(mirror_map(post.main_memory@) == mirror_map(pre.main_memory@).insert(
            recv.key(),
            recv,
        ));
        assert(post.wf()) by {
            assert(forall|i: int|
                0 <= i < pre.main_log@.len() ==> post.main_log@[i] == pre.main_log@[i]);
            assert forall|i: int| 0 <= i < post.main_log@.len() implies (#[trigger] line_record(
                e,
                post.main_log@[i]@,
            )) is Some by {
                if i < pre.main_log@.len() {
                    assert(line_record(e, pre.main_log@[i]@) is Some);
                }
            }
        }
        assert(post@ =~= pre@.insert(recv.key(), recv)) by {
            assert forall|k: Seq<char>| true implies {
                &&& (post@.contains_key(k) <==> pre@.insert(recv.key(), recv).contains_key(k))
                &&& (post@.contains_key(k) ==> post@[k] == pre@.insert(recv.key(), recv)[k])
            } by {
                assert(seg_map(e, post.main_log@) == seg_map(e, pre.main_log@).insert(
                    recv.key(),
                    recv,
                ));
            }
        }
    }

    /// Append one record to the main segment and mirror it, with no
    /// rotation check.
    #[verifier::rlimit(100)]
    fn append_record(&mut self, record: Record)
        requires
            old(self).wf(),
            engine_of(record@) == old(self).engine(),
        ensures
            final(self).wf(),
            final(self)@ == old(self)@.insert(record@.key(), record@),
            final(self).main_map() == old(self).main_map().insert(record@.key(), record@),
            final(self).main_len() == old(self).main_len() + 1,
            final(self).main_lines().drop_last() == old(self).main_lines(),
            final(self).main_lines().last()@ == encode_spec(record@),
            final(self).sealed_count() == old(self).sealed_count(),
            final(self).sealed_map() == old(self).sealed_map(),
            forall|i: int|
                0 <= i < old(self).sealed_count() ==> final(self).sealed_seg_id(i) == old(
                    self,
                ).sealed_seg_id(i) && final(self).sealed_seg_lines(i) == old(
                    self,
                ).sealed_seg_lines(i),
            forall|id: SegmentId| final(self).has_index(id) == old(self).has_index(id),
            forall|id: SegmentId|
                old(self).has_index(id) ==> final(self).index_of(id) == old(self).index_of(id),
            final(self).main_seg_id() == old(self).main_seg_id(),
            final(self).engine() == old(self).engine(),
            final(self).rotation_threshold() == old(self).rotation_threshold(),
            final(self).raft_index() == old(self).raft_index(),
            final(self).db_path() == old(self).db_path(),
            final(self).stamps_left() == old(self).stamps_left(),
            old(self).fully_indexed() ==> final(self).fully_indexed(),
    {
        record_bounds(&record);
        let line = record.serialize();
        let key = record.get_id();
        proof {
            crate::file::lemma_codec_round_trip(record@);
        }
        let ghost old_main = self.main_log@;
        let ghost old_mirror = self.main_memory@;
        self.main_memory.push((key, record));
        self.main_log.push(line);
        proof {
            assert(self.main_log@.drop_last() =~= old_main);
            assert(self.main_memory@.drop_last() =~= old_mirror);
            let recv = self.main_memory@.last().1@;
            assert(line_record(self.file_engine, self.main_log@.last()@) == Some(recv));
            Self::lemma_append_shape(*old(self), *self, recv);
            assert(self.fully_indexed() == old(self).fully_indexed());
        }
    }

    /// Append one record: rotate the main segment first if it is full, then
    /// write the record's line and update the mirror.  The new record
    /// shadows every earlier record for its key.  The branch clauses spell
    /// the write algorithm out: an appending write adds exactly one line and
    /// one mirror entry and touches nothing else; a rotating write seals the
    /// old main segment with its exact lines, publishes its index, and
    /// starts a fresh, newer-stamped main segment holding just this record.
    pub fn write_value_to_log(&mut self, record: Record) -> (r: Result<(), NullDbReadError>)
        requires
            old(self).wf(),
            engine_of(record@) == old(self).engine(),
            old(self).stamps_left() >= 1,
        ensures
            r is Ok,
            final(self).wf(),
            final(self)@ == old(self)@.insert(record@.key(), record@),
            final(self).main_map().contains_key(record@.key()),
            final(self).main_map()[record@.key()] == record@,
            final(self).main_lines().last()@ == encode_spec(record@),
            (final(self).main_len(), final(self).sealed_count()) == write_step(
                old(self).main_len(),
                old(self).sealed_count(),
                old(self).rotation_threshold(),
            ),
            final(self).engine() == old(self).engine(),
            final(self).rotation_threshold() == old(self).rotation_threshold(),
            final(self).raft_index() == old(self).raft_index(),
            final(self).db_path() == old(self).db_path(),
            final(self).stamps_left() >= old(self).stamps_left() - 1,
            old(self).fully_indexed() ==> final(self).fully_indexed(),
            old(self).main_len() < old(self).rotation_threshold() ==> {
                &&& final(self).main_lines().drop_last() == old(self).main_lines()
                &&& final(self).main_map() == old(self).main_map().insert(record@.key(), record@)
                &&& final(self).sealed_map() == old(self).sealed_map()
                &&& forall|i: int|
                    0 <= i < old(self).sealed_count() ==> final(self).sealed_seg_id(i) == old(
                        self,
                    ).sealed_seg_id(i) && final(self).sealed_seg_lines(i) == old(
                        self,
                    ).sealed_seg_lines(i)
                &&& forall|id: SegmentId| final(self).has_index(id) == old(self).has_index(id)
                &&& forall|id: SegmentId|
                    old(self).has_index(id) ==> final(self).index_of(id) == old(self).index_of(
                        id,
                    )
                &&& final(self).main_seg_id() == old(self).main_seg_id()
            },
            old(self).main_len() >= old(self).rotation_threshold() ==> {
                &&& final(self).sealed_map() == old(self).sealed_map().union_prefer_right(
                    old(self).main_map(),
                )
                &&& final(self).sealed_seg_lines(old(self).sealed_count() as int) == old(
                    self,
                ).main_lines()
                &&& final(self).sealed_seg_id(old(self).sealed_count() as int).generation == 0
                &&& final(self).has_index(
                    final(self).sealed_seg_id(old(self).sealed_count() as int),
                )
                &&& final(self).index_of(
                    final(self).sealed_seg_id(old(self).sealed_count() as int),
                ) == seg_index_map(old(self).engine(), old(self).main_lines())
                &&& forall|i: int|
                    0 <= i < old(self).sealed_count() ==> final(self).sealed_seg_id(i) == old(
                        self,
                    ).sealed_seg_id(i) && final(self).sealed_seg_lines(i) == old(
                        self,
                    ).sealed_seg_lines(i)
                &&& final(self).main_map() == Map::<Seq<char>, RecordV>::empty().insert(
                    record@.key(),
                    record@,
                )
                &&& final(self).main_lines().drop_last() == Seq::<String>::empty()
                &&& final(self).main_seg_id().generation == 0
                &&& final(self).main_seg_id().timestamp > old(self).main_seg_id().timestamp
            },
    {
        let rotated = self.main_log.len() >= self.config.rotation_threshold;
        if rotated {
            self.rotate();
        }
        let ghost mid = *self;
        self.append_record(record);
        proof {
            if rotated {
                let n = old(self).sealed_count() as int;
                assert(mid.sealed_seg_id(n) == self.sealed_seg_id(n) && mid.sealed_seg_lines(n)
                    == self.sealed_seg_lines(n));
                assert(self.index_of(self.sealed_seg_id(n)) == seg_index_map(
                    old(self).engine(),
                    old(self).main_lines(),
                ));
                assert(mid.main_lines() =~= Seq::<String>::empty());
                assert(self.main_map() =~= Map::<Seq<char>, RecordV>::empty().insert(
                    record@.key(),
                    record@,
                ));
            }
        }
        Ok(())
    }

    /// Store `value` under `key` at the replicated position after `index`,
    /// and advance the store's replicated index to that position.
    pub fn log(&mut self, key: String, value: String, index: u64) -> (r: Result<
        (),
        NullDbReadError,
    >)
        requires
            old(self).wf(),
            index < u64::MAX,
            old(self).stamps_left() >= 1,
        ensures
            r is Ok,
            final(self).wf(),
            final(self)@ == old(self)@.insert(
                key@,
                record_v(old(self).engine(), key@, (index + 1) as u64, None, Some(value@)),
            ),
            final(self).main_map().contains_key(key@),
            final(self).main_map()[key@] == record_v(
                old(self).engine(),
                key@,
                (index + 1) as u64,
                None,
                Some(value@),
            ),
            final(self).raft_index() == index + 1,
            final(self).engine() == old(self).engine(),
            final(self).rotation_threshold() == old(self).rotation_threshold(),
            final(self).db_path() == old(self).db_path(),
            final(self).stamps_left() >= old(self).stamps_left() - 1,
            old(self).fully_indexed() ==> final(self).fully_indexed(),
            (final(self).main_len(), final(self).sealed_count()) == write_step(
                old(self).main_len(),
                old(self).sealed_count(),
                old(self).rotation_threshold(),
            ),
    {
        let rec = self.file_engine.new_record(key, index + 1, None, Some(value));
        self.current_raft_index = index + 1;
        proof {
            reveal(NullDB::wf);
            assert(self.wf());
        }
        self.write_value_to_log(rec)
    }

    /// Apply a batch of already-ordered replicated entries after `index`,
    /// and advance the store's replicated index past the batch.
    pub fn log_entries(&mut self, entries: Vec<LogEntry>, index: u64) -> (r: Result<
        (),
        NullDbReadError,
    >)
        requires
            old(self).wf(),
            index + entries@.len() <= u64::MAX,
            old(self).stamps_left() >= entries@.len(),
        ensures
            r is Ok,
            final(self).wf(),
            final(self)@ == apply_entries(old(self)@, old(self).engine(), entries@, index),
            final(self).raft_index() == if entries@.len() == 0 {
                old(self).raft_index()
            } else {
                (index + entries@.len()) as u64
            },
            final(self).engine() == old(self).engine(),
            final(self).rotation_threshold() == old(self).rotation_threshold(),
            final(self).db_path() == old(self).db_path(),
            final(self).stamps_left() >= old(self).stamps_left() - entries@.len(),
            old(self).fully_indexed() ==> final(self).fully_indexed(),
    {
        let ghost pre = *self;
        let mut i: usize = 0;
        while i < entries.len()
            invariant
                i <= entries@.len(),
                index + entries@.len() <= u64::MAX,
                pre.stamps_left() >= entries@.len(),
                self.wf(),
                self@ == apply_entries(pre@, pre.engine(), entries@.take(i as int), index),
                self.raft_index() == if i == 0 {
                    pre.raft_index()
                } else {
                    (index + i) as u64
                },
                self.engine() == pre.engine(),
                self.rotation_threshold() == pre.rotation_threshold(),
                self.db_path() == pre.db_path(),
                self.stamps_left() >= pre.stamps_left() - i,
                pre.fully_indexed() ==> self.fully_indexed(),
            decreases entries@.len() - i,
        {
            let key = entries[i].key.clone();
            let value = entries[i].value.clone();
            let entry_index = index + i as u64;
            let r = self.log(key, value, entry_index);
            i = i + 1;
            proof {
                assert(entries@.take(i as int).drop_last() =~= entries@.take(i - 1));
                assert(entries@.take(i as int).last() == entries@[i - 1]);
            }
        }
        proof {
            assert(entries@.take(entries@.len() as int) =~= entries@);
        }
        Ok(())
    }

    /// Write a tombstone for `key` at the store's current replicated index:
    /// the key then reads as deleted.
    pub fn delete_record(&mut self, key: String) -> (r: Result<(), NullDbReadError>)
        requires
            old(self).wf(),
            old(self).stamps_left() >= 1,
        ensures
            r is Ok,
            final(self).wf(),
            final(self)@ == old(self)@.insert(
                key@,
                tombstone_v(old(self).engine(), key@, old(self).raft_index()),
            ),
            final(self).main_map().contains_key(key@),
            final(self).main_map()[key@] == tombstone_v(
                old(self).engine(),
                key@,
                old(self).raft_index(),
            ),
            final(self).raft_index() == old(self).raft_index(),
            final(self).engine() == old(self).engine(),
            final(self).rotation_threshold() == old(self).rotation_threshold(),
            final(self).db_path() == old(self).db_path(),
            final(self).stamps_left() >= old(self).stamps_left() - 1,
            old(self).fully_indexed() ==> final(self).fully_indexed(),
    {
        let rec = self.file_engine.new_tombstone_record(key, self.current_raft_index);
        self.write_value_to_log(rec)
    }
}

// ---------------------------------------------------------------------------
// Reading
// ---------------------------------------------------------------------------

/// The position of the index entry published for `id`, if any.
fn find_index_pos(indexes: &Vec<(SegmentId, Index)>, id: SegmentId) -> (r: Option<usize>)
    ensures
        match r {
            Some(j) => j < indexes@.len() && indexes@[j as int].0 == id,
            None => forall|j: int| 0 <= j < indexes@.len() ==> (#[trigger] indexes@[j]).0 != id,
        },
{
    let mut j: usize = 0;
    while j < indexes.len()
        invariant
            j <= indexes@.len(),
            forall|l: int| 0 <= l < j ==> (#[trigger] indexes@[l]).0 != id,
        decreases indexes@.len() - j,
    {
        let entry_id = indexes[j].0;
        if entry_id.generation == id.generation && entry_id.timestamp == id.timestamp {
            return Some(j);
        }
        j = j + 1;
    }
    None
}

impl NullDB {
    /// The index map published for `id`.
    pub closed spec fn index_of(self, id: SegmentId) -> Map<Seq<char>, int> {
        self.indexes@[choose|j: int|
            0 <= j < self.indexes@.len() && (#[trigger] self.indexes@[j]).0 == id].1@
    }

    /// What a read returns is the sealed segments' combined map, overridden
    /// by the main segment's map.
    pub proof fn lemma_view(self)
        ensures
            self@ == self.sealed_map().union_prefer_right(self.main_map()),
    {
        let e = self.file_engine;
        let m = self.sealed_map().union_prefer_right(self.main_map());
        assert_maps_equal!(self.view(), m, k => {
            lemma_sealed_find_fold(e, self.segments@, k);
        });
    }

    /// Within this engine, an index entry's id picks out one table position,
    /// so `index_of` is the map at that position.
    proof fn lemma_index_pos_unique(self, j: int)
        requires
            self.wf(),
            0 <= j < self.indexes@.len(),
        ensures
            self.has_index(self.indexes@[j].0),
            self.index_of(self.indexes@[j].0) == self.indexes@[j].1@,
    {
        reveal(NullDB::wf);
        let id = self.indexes@[j].0;
        assert(self.has_index(id)) by {
            assert(self.indexes@[j].0 == id);
        }
        let j2 = choose|j2: int|
            0 <= j2 < self.indexes@.len() && (#[trigger] self.indexes@[j2]).0 == id;
        if j2 != j {
            assert(self.indexes@[if j2 < j {
                j2
            } else {
                j
            }].0 != self.indexes@[if j2 < j {
                j
            } else {
                j2
            }].0);
        }
    }

    /// Within this engine, a sealed segment's id picks out one position.
    proof fn lemma_seg_pos_unique(self, i: int)
        requires
            self.wf(),
            0 <= i < self.segments@.len(),
        ensures
            seg_pos(self.segments@, self.segments@[i].id) == i,
    {
        reveal(NullDB::wf);
        let id = self.segments@[i].id;
        assert(has_seg(self.segments@, id));
        let p = seg_pos(self.segments@, id);
        assert(0 <= p < self.segments@.len() && self.segments@[p].id == id);
        if p != i {
            assert(better(self.segments@[if p < i {
                i
            } else {
                p
            }].id, self.segments@[if p < i {
                p
            } else {
                i
            }].id));
        }
    }

    /// Read the record currently stored under `key`: the mirror first, then
    /// the sealed segments in precedence order through their indexes.  A
    /// tombstone hit reads as `ValueDeleted`.  A mirror hit decides by
    /// itself; on a mirror miss the result is exactly what the sealed
    /// search yields, and `Corrupted` arises if and only if that search
    /// reaches a segment with no published index before any hit.
    #[verifier::rlimit(100)]
    pub fn get_value_for_key(&self, key: &str) -> (r: Result<Record, NullDbReadError>)
        requires
            self.wf(),
        ensures
            match r {
                Ok(rec) => self@.contains_key(key@) && rec@ == self@[key@]
                    && !self@[key@].is_tombstone(),
                Err(NullDbReadError::ValueDeleted) => self@.contains_key(key@)
                    && self@[key@].is_tombstone(),
                Err(NullDbReadError::ValueNotFound) => !self@.contains_key(key@),
                Err(NullDbReadError::Corrupted) => !self.fully_indexed(),
                _ => false,
            },
            self.fully_indexed() ==> r != Err::<Record, NullDbReadError>(
                NullDbReadError::Corrupted,
            ),
            self.main_map().contains_key(key@) ==> r != Err::<Record, NullDbReadError>(
                NullDbReadError::Corrupted,
            ),
            !self.main_map().contains_key(key@) ==> match self.sealed_read(
                key@,
                self.sealed_count() as int,
            ) {
                SealedRead::Found(rec) => if rec.is_tombstone() {
                    r == Err::<Record, NullDbReadError>(NullDbReadError::ValueDeleted)
                } else {
                    match r {
                        Ok(out) => out@ == rec,
                        Err(_) => false,
                    }
                },
                SealedRead::Absent => r == Err::<Record, NullDbReadError>(
                    NullDbReadError::ValueNotFound,
                ),
                SealedRead::NoIndex => r == Err::<Record, NullDbReadError>(
                    NullDbReadError::Corrupted,
                ),
            },
    {
        proof {
            reveal(NullDB::wf);
        }
        let ghost e = self.file_engine;
        let ghost k = key@;
        proof {
            assert(self.main_memory@.take(self.main_memory@.len() as int) =~= self.main_memory@);
        }
        match mirror_get_rec(&self.main_memory, key, self.main_memory.len()) {
            Some(rec) => {
                let found = rec.clone();
                proof {
                    assert(seg_map(e, self.main_log@).contains_key(k));
                    assert(self@.contains_key(k) && self@[k] == found@);
                }
                match found.get_tombstone() {
                    Some(true) => Err(NullDbReadError::ValueDeleted),
                    _ => Ok(found),
                }
            },
            None => {
                proof {
                    assert(!seg_map(e, self.main_log@).contains_key(k));
                    assert(self.segments@.take(self.segments@.len() as int) =~= self.segments@);
                }
                let mut i: usize = self.segments.len();
                while i > 0
                    invariant
                        i <= self.segments@.len(),
                        self.wf(),
                        e == self.file_engine,
                        k == key@,
                        !seg_map(e, self.main_log@).contains_key(k),
                        sealed_find(e, self.segments@, k) == sealed_find(
                            e,
                            self.segments@.take(i as int),
                            k,
                        ),
                        self.sealed_read(k, self.segments@.len() as int) == self.sealed_read(
                            k,
                            i as int,
                        ),
                    decreases i,
                {
                    i = i - 1;
                    proof {
                        reveal(NullDB::wf);
                        assert(self.segments@.take(i + 1).drop_last() =~= self.segments@.take(
                            i as int,
                        ));
                        assert(self.segments@.take(i + 1).last() == self.segments@[i as int]);
                    }
                    let seg_id = self.segments[i].id;
                    match find_index_pos(&self.indexes, seg_id) {
                        None => {
                            proof {
                                assert(!self.has_index(self.segments@[i as int].id));
                                assert(!self.fully_indexed());
                                assert(self.sealed_read(k, i + 1) == SealedRead::NoIndex);
                            }
                            return Err(NullDbReadError::Corrupted);
                        },
                        Some(j) => {
                            proof {
                                self.lemma_seg_pos_unique(i as int);
                                assert(self.indexes@[j as int].1@ == seg_index_map(
                                    e,
                                    self.segments@[i as int].lines@,
                                ));
                                assert(self.has_index(self.segments@[i as int].id)) by {
                                    assert(self.indexes@[j as int].0
                                        == self.segments@[i as int].id);
                                }
                            }
                            let line_no = self.indexes[j].1.get(key);
                            match line_no {
                                None => {
                                    proof {
                                        lemma_seg_maps_same_dom(
                                            e,
                                            self.segments@[i as int].lines@,
                                        );
                                        assert(!seg_map(
                                            e,
                                            self.segments@[i as int].lines@,
                                        ).contains_key(k));
                                        assert(self.sealed_read(k, i + 1) == self.sealed_read(
                                            k,
                                            i as int,
                                        ));
                                    }
                                },
                                Some(line) => {
                                    proof {
                                        lemma_seg_index_points(
                                            e,
                                            self.segments@[i as int].lines@,
                                            k,
                                        );
                                    }
                                    let rec = match self.file_engine.get_record_from_str(
                                        self.segments[i].lines[line].as_str(),
                                    ) {
                                        Ok(rec) => rec,
                                        Err(_) => {
                                            proof {
                                                assert(false);
                                            }
                                            return Err(NullDbReadError::Corrupted);
                                        },
                                    };
                                    proof {
                                        assert(rec@ == seg_map(
                                            e,
                                            self.segments@[i as int].lines@,
                                        )[k]);
                                        assert(sealed_find(e, self.segments@, k) == Some(rec@));
                                        assert(self@.contains_key(k) && self@[k] == rec@);
                                        assert(self.sealed_read(k, i + 1) == SealedRead::Found(
                                            rec@,
                                        ));
                                    }
                                    match rec.get_tombstone() {
                                        Some(true) => {
                                            return Err(NullDbReadError::ValueDeleted);
                                        },
                                        _ => {
                                            return Ok(rec);
                                        },
                                    }
                                },
                            }
                        },
                    }
                }
                proof {
                    assert(self.segments@.take(0) =~= Seq::<Segment>::empty());
                    assert(sealed_find(e, self.segments@, k) is None);
                    assert(!self@.contains_key(k));
                    assert(self.sealed_read(k, 0) == SealedRead::Absent);
                }
                Err(NullDbReadError::ValueNotFound)
            },
        }
    }

    /// The first record of the highest-precedence sealed segment: the
    /// freshest sealed segment's opening line.
    pub fn get_latest_record_from_disk(&self) -> (r: Result<Record, NullDbReadError>)
        requires
            self.wf(),
        ensures
            match r {
                Ok(rec) => self.sealed_count() > 0 && line_record(
                    self.engine(),
                    self.sealed_seg_lines(self.sealed_count() - 1)[0]@,
                ) == Some(rec@),
                Err(NullDbReadError::ValueNotFound) => self.sealed_count() == 0,
                Err(NullDbReadError::Corrupted) => self.sealed_count() > 0 && (self.sealed_seg_lines(
                    self.sealed_count() - 1,
                ).len() == 0 || line_record(
                    self.engine(),
                    self.sealed_seg_lines(self.sealed_count() - 1)[0]@,
                ) is None),
                _ => false,
            },
    {
        if self.segments.len() == 0 {
            return Err(NullDbReadError::ValueNotFound);
        }
        let seg = &self.segments[self.segments.len() - 1];
        if seg.lines.len() == 0 {
            return Err(NullDbReadError::Corrupted);
        }
        let line = &seg.lines[0];
        if line.as_str().is_empty() {
            return Err(NullDbReadError::Corrupted);
        }
        match self.file_engine.get_record_from_str(line.as_str()) {
            Ok(rec) => Ok(rec),
            Err(e) => Err(e),
        }
    }

    // -----------------------------------------------------------------------
    // The index table
    // -----------------------------------------------------------------------

    /// Publish `index` as the index of the sealed segment `segment`,
    /// returning the entry it supersedes.  The caller hands in exactly the
    /// segment's own index map, as `generate_index_for_segment` builds it.
    #[verifier::rlimit(100)]
    pub fn add_index(&mut self, segment: SegmentId, index: Index) -> (r: Option<Index>)
        requires
            old(self).wf(),
            old(self).has_segment(segment),
            index@ == seg_index_map(old(self).engine(), old(self).segment_lines(segment)),
        ensures
            final(self).wf(),
            final(self)@ == old(self)@,
            final(self).has_index(segment),
            final(self).index_of(segment) == index@,
            r is Some <==> old(self).has_index(segment),
            match r {
                Some(prior) => prior@ == old(self).index_of(segment),
                None => true,
            },
            forall|id: SegmentId|
                id != segment ==> final(self).has_index(id) == old(self).has_index(id),
            final(self).sealed_count() == old(self).sealed_count(),
            final(self).main_len() == old(self).main_len(),
            final(self).sealed_map() == old(self).sealed_map(),
            final(self).main_map() == old(self).main_map(),
            final(self).engine() == old(self).engine(),
            final(self).rotation_threshold() == old(self).rotation_threshold(),
            final(self).raft_index() == old(self).raft_index(),
            final(self).stamps_left() == old(self).stamps_left(),
    {
        proof {
            reveal(NullDB::wf);
        }
        let ghost oldidx = self.indexes@;
        let jopt = find_index_pos(&self.indexes, segment);
        let prior = match jopt {
            Some(j) => {
                proof {
                    old(self).lemma_index_pos_unique(j as int);
                }
                let entry = self.indexes.remove(j);
                proof {
                    assert forall|l0: int|
                        0 <= l0 < oldidx.len() && (#[trigger] oldidx[l0]).0
                            != segment implies exists|l: int|
                        0 <= l < self.indexes@.len() && (#[trigger] self.indexes@[l]).0
                            == oldidx[l0].0 by {
                        assert(oldidx[j as int].0 == segment);
                        if l0 < j {
                            assert(self.indexes@[l0].0 == oldidx[l0].0);
                        } else {
                            assert(l0 != j);
                            assert(self.indexes@[l0 - 1].0 == oldidx[l0].0);
                        }
                    }
                }
                Some(entry.1)
            },
            None => {
                proof {
                    assert forall|l0: int|
                        0 <= l0 < oldidx.len() && (#[trigger] oldidx[l0]).0
                            != segment implies exists|l: int|
                        0 <= l < self.indexes@.len() && (#[trigger] self.indexes@[l]).0
                            == oldidx[l0].0 by {
                        assert(self.indexes@[l0].0 == oldidx[l0].0);
                    }
                }
                None
            },
        };
        let ghost mid_indexes = self.indexes@;
        proof {
            assert forall|j1: int, j2: int|
                #![trigger mid_indexes[j1].0, mid_indexes[j2].0]
            0 <= j1 < j2 < mid_indexes.len() implies mid_indexes[j1].0 != mid_indexes[j2].0 by {}
            assert(forall|j: int|
                0 <= j < mid_indexes.len() ==> (#[trigger] mid_indexes[j]).0 != segment);
            assert(forall|l0: int|
                0 <= l0 < oldidx.len() && (#[trigger] oldidx[l0]).0 != segment ==> exists|l: int|
                    0 <= l < mid_indexes.len() && (#[trigger] mid_indexes[l]).0 == oldidx[l0].0);
        }
        self.indexes.push((segment, index));
        proof {
            assert(self.indexes@.drop_last() =~= mid_indexes);
            let p = seg_pos(self.segments@, segment);
            assert(0 <= p < self.segments@.len() && self.segments@[p].id == segment);
            assert(self.wf()) by {
                reveal(NullDB::wf);
                assert forall|j: int| 0 <= j < self.indexes@.len() implies has_seg(
                    self.segments@,
                    (#[trigger] self.indexes@[j]).0,
                ) && self.indexes@[j].1@ == seg_index_map(
                    self.file_engine,
                    self.segments@[seg_pos(self.segments@, self.indexes@[j].0)].lines@,
                ) by {
                    if j < mid_indexes.len() {
                        assert(self.indexes@[j] == mid_indexes[j]);
                    } else {
                        assert(self.indexes@[j] == (segment, index));
                        assert(has_seg(self.segments@, segment));
                    }
                }
            }
            assert(self.has_index(segment)) by {
                assert(self.indexes@[mid_indexes.len() as int].0 == segment);
            }
            self.lemma_index_pos_unique(mid_indexes.len() as int);
            assert(self.index_of(segment) == index@);
            assert forall|id: SegmentId| id != segment implies self.has_index(id) == old(
                self,
            ).has_index(id) by {
                if old(self).has_index(id) {
                    let l0 = choose|l0: int|
                        0 <= l0 < oldidx.len() && (#[trigger] oldidx[l0]).0 == id;
                    let l = choose|l: int|
                        0 <= l < mid_indexes.len() && (#[trigger] mid_indexes[l]).0
                            == oldidx[l0].0;
                    assert(self.indexes@[l].0 == id);
                    assert(self.has_index(id));
                }
                if self.has_index(id) {
                    let l = choose|l: int|
                        0 <= l < self.indexes@.len() && (#[trigger] self.indexes@[l]).0 == id;
                    assert(l < mid_indexes.len());
                    assert(mid_indexes[l].0 == id);
                    match jopt {
                        Some(j) => {
                            if l < j {
                                assert(oldidx[l].0 == id);
                            } else {
                                assert(oldidx[l + 1].0 == id);
                            }
                        },
                        None => {
                            assert(oldidx[l].0 == id);
                        },
                    }
                    assert(old(self).has_index(id));
                }
            }
        }
        prior
    }

    /// Retire the published index of `segment`, returning it.  Reads that
    /// reach the segment afterwards report `Corrupted` until a new index is
    /// published.
    pub fn remove_index(&mut self, segment: &SegmentId) -> (r: Option<Index>)
        requires
            old(self).wf(),
        ensures
            final(self).wf(),
            final(self)@ == old(self)@,
            !final(self).has_index(*segment),
            r is Some <==> old(self).has_index(*segment),
            match r {
                Some(removed) => removed@ == old(self).index_of(*segment),
                None => true,
            },
            forall|id: SegmentId|
                id != *segment ==> final(self).has_index(id) == old(self).has_index(id),
            final(self).sealed_count() == old(self).sealed_count(),
            final(self).main_len() == old(self).main_len(),
            final(self).sealed_map() == old(self).sealed_map(),
            final(self).main_map() == old(self).main_map(),
            final(self).engine() == old(self).engine(),
            final(self).rotation_threshold() == old(self).rotation_threshold(),
            final(self).raft_index() == old(self).raft_index(),
            final(self).stamps_left() == old(self).stamps_left(),
    {
        proof {
            reveal(NullDB::wf);
        }
        match find_index_pos(&self.indexes, *segment) {
            Some(j) => {
                proof {
                    old(self).lemma_index_pos_unique(j as int);
                }
                let ghost before = self.indexes@;
                let entry = self.indexes.remove(j);
                proof {
                    assert(self.wf()) by {
                        reveal(NullDB::wf);
                    }
                    assert(!self.has_index(*segment)) by {
                        assert forall|l: int|
                            0 <= l < self.indexes@.len() implies (#[trigger] self.indexes@[l]).0
                            != *segment by {
                            if l < j {
                                assert(self.indexes@[l] == before[l]);
                                assert(before[l].0 != before[j as int].0);
                            } else {
                                assert(self.indexes@[l] == before[l + 1]);
                                assert(before[j as int].0 != before[l + 1].0);
                            }
                        }
                    }
                    assert forall|id: SegmentId| id != *segment implies self.has_index(id) == old(
                        self,
                    ).has_index(id) by {
                        if old(self).has_index(id) {
                            let l0 = choose|l0: int|
                                0 <= l0 < before.len() && (#[trigger] before[l0]).0 == id;
                            assert(before[j as int].0 == *segment);
                            if l0 < j {
                                assert(self.indexes@[l0].0 == id);
                            } else {
                                assert(l0 != j);
                                assert(self.indexes@[l0 - 1].0 == id);
                            }
                            assert(self.has_index(id));
                        }
                        if self.has_index(id) {
                            let l = choose|l: int|
                                0 <= l < self.indexes@.len() && (#[trigger] self.indexes@[l]).0
                                    == id;
                            if l < j {
                                assert(before[l].0 == id);
                            } else {
                                assert(before[l + 1].0 == id);
                            }
                            assert(old(self).has_index(id));
                        }
                    }
                }
                Some(entry.1)
            },
            None => {
                proof {
                    assert(!self.has_index(*segment));
                }
                None
            },
        }
    }
}

impl NullDB {
    // -----------------------------------------------------------------------
    // Loading pre-existing segments
    // -----------------------------------------------------------------------

    /// Whether a loaded segment of this generation would rank below every
    /// sealed segment already present, as loading order requires.
    pub fn accepts_generation(&self, generation: u64) -> (r: bool)
        ensures
            r == (forall|i: int|
                0 <= i < self.sealed_count() ==> generation <= (#[trigger] self.sealed_seg_id(
                    i,
                )).generation),
    {
        let mut i: usize = 0;
        while i < self.segments.len()
            invariant
                i <= self.segments@.len(),
                forall|l: int|
                    0 <= l < i ==> generation <= (#[trigger] self.segments@[l].id).generation,
            decreases self.segments@.len() - i,
        {
            if self.segments[i].id.generation < generation {
                proof {
                    assert(!(generation <= self.sealed_seg_id(i as int).generation));
                }
                return false;
            }
            i = i + 1;
        }
        true
    }

    /// Adopt one pre-existing sealed segment, build and publish its index,
    /// and stamp it.  Callers add segments from worst to best read
    /// precedence: highest generation first, and within one generation the
    /// oldest file first.  A segment with an undecodable non-empty line is
    /// rejected as `Corrupted` and nothing changes.
    #[verifier::rlimit(100)]
    pub fn add_segment(&mut self, generation: u64, lines: Vec<String>) -> (r: Result<
        SegmentId,
        NullDbReadError,
    >)
        requires
            old(self).wf(),
            old(self).stamps_left() >= 2,
            forall|i: int|
                0 <= i < old(self).sealed_count() ==> generation <= (#[trigger] old(
                    self,
                ).sealed_seg_id(i)).generation,
        ensures
            final(self).wf(),
            match r {
                Ok(id) => {
                    &&& final(self).sealed_count() == old(self).sealed_count() + 1
                    &&& id.generation == generation
                    &&& final(self).has_segment(id)
                    &&& final(self).has_index(id)
                    &&& final(self).sealed_seg_id(old(self).sealed_count() as int) == id
                    &&& final(self).sealed_seg_lines(old(self).sealed_count() as int) == lines@
                    &&& final(self).segment_lines(id) == lines@
                    &&& final(self).index_of(id) == seg_index_map(old(self).engine(), lines@)
                    &&& final(self).sealed_map() == old(self).sealed_map().union_prefer_right(
                        seg_map(old(self).engine(), lines@),
                    )
                    &&& final(self)@ == final(self).sealed_map().union_prefer_right(
                        old(self).main_map(),
                    )
                    &&& lines_wf(old(self).engine(), lines@)
                    &&& old(self).fully_indexed() ==> final(self).fully_indexed()
                },
                Err(e) => {
                    &&& e == NullDbReadError::Corrupted
                    &&& !lines_wf(old(self).engine(), lines@)
                    &&& *final(self) == *old(self)
                },
            },
            final(self).main_map() == old(self).main_map(),
            final(self).main_len() == old(self).main_len(),
            final(self).engine() == old(self).engine(),
            final(self).rotation_threshold() == old(self).rotation_threshold(),
            final(self).raft_index() == old(self).raft_index(),
            final(self).stamps_left() >= old(self).stamps_left() - 2,
    {
        proof {
            reveal(NullDB::wf);
        }
        let idx = match generate_index_for_segment(&lines, self.file_engine) {
            Ok(idx) => idx,
            Err(e) => {
                return Err(e);
            },
        };
        let id = SegmentId { generation, timestamp: self.next_timestamp };
        let ghost old_segs = self.segments@;
        let ghost old_indexes = self.indexes@;
        self.segments.push(Segment { id, lines });
        self.indexes.push((id, idx));
        self.main_id = SegmentId { generation: 0, timestamp: self.next_timestamp + 1 };
        self.next_timestamp = self.next_timestamp + 2;
        proof {
            let e = self.file_engine;
            let n = old_segs.len() as int;
            assert(self.segments@.drop_last() =~= old_segs);
            assert(self.indexes@.drop_last() =~= old_indexes);
            assert(forall|i: int| 0 <= i < n ==> (#[trigger] self.segments@[i]) == old_segs[i]);
            assert(forall|j: int|
                0 <= j < old_indexes.len() ==> (#[trigger] self.indexes@[j]) == old_indexes[j]);
            assert(self.segments@[n].id == id);
            assert(has_seg(self.segments@, id));
            assert forall|i: int| 0 <= i < n implies better(id, (#[trigger] old_segs[i]).id) by {
                assert(old(self).sealed_seg_id(i) == old_segs[i].id);
            }
            assert(forall|i: int| 0 <= i < n ==> id != (#[trigger] old_segs[i]).id);

            assert forall|j: int| 0 <= j < self.indexes@.len() implies has_seg(
                self.segments@,
                (#[trigger] self.indexes@[j]).0,
            ) && self.indexes@[j].1@ == seg_index_map(
                e,
                self.segments@[seg_pos(self.segments@, self.indexes@[j].0)].lines@,
            ) by {
                if j < old_indexes.len() {
                    let p = seg_pos(old_segs, old_indexes[j].0);
                    assert(0 <= p < old_segs.len() && old_segs[p].id == old_indexes[j].0);
                    assert(self.segments@[p] == old_segs[p]);
                    assert(has_seg(self.segments@, self.indexes@[j].0));
                    let p2 = seg_pos(self.segments@, self.indexes@[j].0);
                    assert(0 <= p2 < self.segments@.len() && self.segments@[p2].id
                        == self.indexes@[j].0);
                    if p2 != p {
                        if p2 == n {
                            assert(id == old_segs[p].id);
                            assert(false);
                        } else {
                            assert(better(old_segs[p2].id, old_segs[p].id) || better(
                                old_segs[p].id,
                                old_segs[p2].id,
                            ));
                            assert(false);
                        }
                    }
                } else {
                    assert(self.indexes@[j] == (id, idx));
                    let p2 = seg_pos(self.segments@, id);
                    assert(0 <= p2 < self.segments@.len() && self.segments@[p2].id == id);
                    if p2 != n {
                        assert(id != old_segs[p2].id);
                        assert(false);
                    }
                }
            }

            assert forall|j1: int, j2: int|
                #![trigger self.indexes@[j1].0, self.indexes@[j2].0]
            0 <= j1 < j2 < self.indexes@.len() implies self.indexes@[j1].0
                != self.indexes@[j2].0 by {
                if j2 == old_indexes.len() {
                    let p = seg_pos(old_segs, old_indexes[j1].0);
                    assert(0 <= p < old_segs.len() && old_segs[p].id == old_indexes[j1].0);
                    assert(id != old_segs[p].id);
                }
            }

            assert(self.wf()) by {
                reveal(NullDB::wf);
            }
            assert(self.has_index(id)) by {
                assert(self.indexes@[old_indexes.len() as int].0 == id);
            }
            self.lemma_seg_pos_unique(n);
            assert(self.segment_lines(id) == self.segments@[n].lines@);
            self.lemma_index_pos_unique(old_indexes.len() as int);
            assert(self.index_of(id) == idx@);
            assert(self.sealed_map() =~= old(self).sealed_map().union_prefer_right(
                seg_map(e, lines@),
            ));
            self.lemma_view();
            assert(old(self).fully_indexed() ==> self.fully_indexed()) by {
                if old(self).fully_indexed() {
                    assert forall|i: int| 0 <= i < self.segments@.len() implies self.has_index(
                        (#[trigger] self.segments@[i]).id,
                    ) by {
                        if i < n {
                            assert(old_segs[i] == self.segments@[i]);
                            assert(old(self).has_index(old_segs[i].id));
                            let j = choose|j: int|
                                0 <= j < old_indexes.len() && (#[trigger] old_indexes[j]).0
                                    == old_segs[i].id;
                            assert(self.indexes@[j].0 == old_segs[i].id);
                        } else {
                            assert(self.indexes@[old_indexes.len() as int].0 == id);
                        }
                    }
                }
            }
        }
        Ok(id)
    }

    // -----------------------------------------------------------------------
    // Inspection
    // -----------------------------------------------------------------------

    /// How many sealed segments there are.
    pub fn sealed_len(&self) -> (r: usize)
        ensures
            r == self.sealed_count(),
    {
        self.segments.len()
    }

    /// How many lines the main segment holds.
    pub fn main_line_count(&self) -> (r: usize)
        ensures
            r == self.main_len(),
    {
        self.main_log.len()
    }

    /// The id of the sealed segment at a list position (ascending read
    /// precedence).
    pub fn get_segment_id(&self, i: usize) -> (r: SegmentId)
        requires
            i < self.sealed_count(),
        ensures
            r == self.sealed_seg_id(i as int),
    {
        self.segments[i].id
    }

    /// The lines of the sealed segment at a list position.
    pub fn get_segment_lines(&self, i: usize) -> (r: &Vec<String>)
        requires
            i < self.sealed_count(),
        ensures
            r@ == self.sealed_seg_lines(i as int),
    {
        &self.segments[i].lines
    }

    /// The lines of the main segment.
    pub fn get_main_lines(&self) -> (r: &Vec<String>)
        ensures
            r@ == self.main_lines(),
    {
        &self.main_log
    }

    /// The main segment's creation stamp.
    pub fn get_main_timestamp(&self) -> (r: u64)
        ensures
            r == self.main_seg_id().timestamp,
    {
        self.main_id.timestamp
    }

    /// The line number the published index of `id` records for `key`.
    pub fn get_index_entry(&self, id: SegmentId, key: &str) -> (r: Option<usize>)
        requires
            self.wf(),
        ensures
            match r {
                Some(v) => self.has_segment(id) && seg_index_map(
                    self.engine(),
                    self.segment_lines(id),
                ).contains_key(key@) && seg_index_map(self.engine(), self.segment_lines(id))[key@]
                    == v as int,
                None => !self.has_index(id) || (self.has_segment(id) && !seg_index_map(
                    self.engine(),
                    self.segment_lines(id),
                ).contains_key(key@)),
            },
    {
        proof {
            reveal(NullDB::wf);
        }
        match find_index_pos(&self.indexes, id) {
            Some(j) => self.indexes[j].1.get(key),
            None => {
                proof {
                    assert(!self.has_index(id));
                }
                None
            },
        }
    }

    /// Every published index is exactly its segment's index map: one entry
    /// per distinct key in the segment, giving the line of that key's last
    /// occurrence.
    pub proof fn lemma_indexes_correct(self, i: int)
        requires
            self.wf(),
            0 <= i < self.sealed_count(),
            self.has_index(self.sealed_seg_id(i)),
        ensures
            self.index_of(self.sealed_seg_id(i)) == seg_index_map(
                self.engine(),
                self.sealed_seg_lines(i),
            ),
    {
        reveal(NullDB::wf);
        let id = self.segments@[i].id;
        let j = choose|j: int|
            0 <= j < self.indexes@.len() && (#[trigger] self.indexes@[j]).0 == id;
        assert(self.indexes@[j].1@ == seg_index_map(
            self.file_engine,
            self.segments@[seg_pos(self.segments@, id)].lines@,
        ));
        self.lemma_seg_pos_unique(i);
    }
}

impl NullDB {
    // -----------------------------------------------------------------------
    // Compaction
    // -----------------------------------------------------------------------

    /// One compaction pass.  Every sealed segment is visited from worst to
    /// best read precedence; within a segment, later lines supersede earlier
    /// ones, so the working set always holds the record of the
    /// most-recently-visited occurrence of each key — which, by the visit
    /// order, is the occurrence a read would find.  The survivors are
    /// written to a single fresh segment at generation one, its index is
    /// built and published, and every consumed segment and index is
    /// dropped.  What every key reads as is unchanged; the main segment and
    /// its mirror are never touched.
    #[verifier::rlimit(100)]
    pub fn compact(&mut self) -> (r: Result<(), NullDbReadError>)
        requires
            old(self).wf(),
            old(self).stamps_left() >= 1,
        ensures
            r is Ok,
            final(self).wf(),
            final(self)@ == old(self)@,
            final(self).sealed_map() == old(self).sealed_map(),
            final(self).main_map() == old(self).main_map(),
            final(self).main_len() == old(self).main_len(),
            final(self).sealed_count() <= 1,
            final(self).fully_indexed(),
            final(self).engine() == old(self).engine(),
            final(self).rotation_threshold() == old(self).rotation_threshold(),
            final(self).raft_index() == old(self).raft_index(),
            final(self).db_path() == old(self).db_path(),
            final(self).stamps_left() >= old(self).stamps_left() - 1,
            final(self).sealed_count() == 0 <==> old(self).sealed_map() == Map::<
                Seq<char>,
                RecordV,
            >::empty(),
            final(self).sealed_count() == 1 ==> final(self).sealed_seg_id(0).generation == 1,
    {
        let ghost e = self.file_engine;
        let mut working: Vec<(String, Record)> = Vec::new();
        let mut i: usize = 0;
        proof {
            assert(self.segments@.take(0) =~= Seq::<Segment>::empty());
        }
        while i < self.segments.len()
            invariant
                self == old(self),
                self.wf(),
                e == self.file_engine,
                i <= self.segments@.len(),
                mirror_map(working@) == sealed_fold(e, self.segments@.take(i as int)),
                forall|l: int|
                    0 <= l < working@.len() ==> engine_of((#[trigger] working@[l]).1@) == e
                        && working@[l].0@ == working@[l].1@.key(),
            decreases self.segments@.len() - i,
        {
            let ghost w0 = working@;
            let nlines = self.segments[i].lines.len();
            let mut j: usize = 0;
            proof {
                assert(self.segments@[i as int].lines@.take(0) =~= Seq::<String>::empty());
                assert(mirror_map(w0).union_prefer_right(
                    seg_map(e, self.segments@[i as int].lines@.take(0)),
                ) =~= mirror_map(w0));
            }
            while j < nlines
                invariant
                    self == old(self),
                    self.wf(),
                    e == self.file_engine,
                    i < self.segments@.len(),
                    nlines == self.segments@[i as int].lines@.len(),
                    j <= nlines,
                    mirror_map(w0) == sealed_fold(e, self.segments@.take(i as int)),
                    mirror_map(working@) == mirror_map(w0).union_prefer_right(
                        seg_map(e, self.segments@[i as int].lines@.take(j as int)),
                    ),
                    forall|l: int|
                        0 <= l < working@.len() ==> engine_of((#[trigger] working@[l]).1@) == e
                            && working@[l].0@ == working@[l].1@.key(),
                decreases nlines - j,
            {
                let ghost lines = self.segments@[i as int].lines@;
                proof {
                    assert(lines.take(j + 1).drop_last() =~= lines.take(j as int));
                    assert(lines.take(j + 1).last() == lines[j as int]);
                }
                let line = &self.segments[i].lines[j];
                if !line.as_str().is_empty() {
                    match self.file_engine.get_record_from_str(line.as_str()) {
                        Ok(rec) => {
                            let ghost wmid = working@;
                            let key = rec.get_id();
                            proof {
                                crate::file::lemma_decode_engine(e, lines[j as int]@);
                                assert(line_record(e, lines[j as int]@) == Some(rec@));
                            }
                            working.push((key, rec));
                            proof {
                                assert(working@.drop_last() =~= wmid);
                                let recv = working@.last().1@;
                                assert(mirror_map(working@) == mirror_map(wmid).insert(
                                    recv.key(),
                                    recv,
                                ));
                                assert(seg_map(e, lines.take(j + 1)) == seg_map(
                                    e,
                                    lines.take(j as int),
                                ).insert(recv.key(), recv));
                                assert(mirror_map(w0).union_prefer_right(
                                    seg_map(e, lines.take(j + 1)),
                                ) =~= mirror_map(wmid).insert(recv.key(), recv));
                            }
                        },
                        Err(_) => {
                            proof {
                                reveal(NullDB::wf);
                                assert(lines_wf(e, lines));
                                assert(lines[j as int]@.len() != 0 && crate::file::decode_spec(
                                    e,
                                    lines[j as int]@,
                                ) is None);
                                assert(false);
                            }
                            return Err(NullDbReadError::Corrupted);
                        },
                    }
                } else {
                    proof {
                        assert(line_record(e, lines[j as int]@) is None);
                        assert(seg_map(e, lines.take(j + 1)) == seg_map(e, lines.take(j as int)));
                    }
                }
                j = j + 1;
            }
            proof {
                let lines = self.segments@[i as int].lines@;
                assert(lines.take(lines.len() as int) =~= lines);
                assert(self.segments@.take(i + 1).drop_last() =~= self.segments@.take(i as int));
                assert(self.segments@.take(i + 1).last() == self.segments@[i as int]);
                assert(sealed_fold(e, self.segments@.take(i + 1)) == sealed_fold(
                    e,
                    self.segments@.take(i as int),
                ).union_prefer_right(seg_map(e, lines)));
            }
            i = i + 1;
        }
        proof {
            assert(self.segments@.take(self.segments@.len() as int) =~= self.segments@);
            assert(mirror_map(working@) == old(self).sealed_map());
        }

        if working.len() == 0 {
            self.segments.clear();
            self.indexes.clear();
            proof {
                reveal(NullDB::wf);
                assert(self.wf());
                assert(self.sealed_map() =~= Map::<Seq<char>, RecordV>::empty());
                assert(old(self).sealed_map() =~= Map::<Seq<char>, RecordV>::empty());
                old(self).lemma_view();
                self.lemma_view();
                assert(self.sealed_map().union_prefer_right(self.main_map()) =~= old(
                    self,
                ).sealed_map().union_prefer_right(old(self).main_map()));
            }
            return Ok(());
        }

        let mut out_lines: Vec<String> = Vec::new();
        let mut l: usize = 0;
        proof {
            assert(working@.take(0) =~= Seq::<(String, Record)>::empty());
            assert(out_lines@.take(0) =~= Seq::<String>::empty());
        }
        while l < working.len()
            invariant
                e == self.file_engine,
                l <= working@.len(),
                out_lines@.len() == l,
                seg_map(e, out_lines@) == mirror_map(working@.take(l as int)),
                forall|x: int|
                    0 <= x < out_lines@.len() ==> (#[trigger] line_record(e, out_lines@[x]@))
                        is Some,
                forall|x: int|
                    0 <= x < working@.len() ==> engine_of((#[trigger] working@[x]).1@) == e
                        && working@[x].0@ == working@[x].1@.key(),
            decreases working@.len() - l,
        {
            record_bounds(&working[l].1);
            let line = working[l].1.serialize();
            proof {
                crate::file::lemma_codec_round_trip(working@[l as int].1@);
            }
            let ghost out0 = out_lines@;
            out_lines.push(line);
            proof {
                assert(out_lines@.drop_last() =~= out0);
                let recv = working@[l as int].1@;
                assert(line_record(e, out_lines@.last()@) == Some(recv));
                assert(seg_map(e, out_lines@) == seg_map(e, out0).insert(recv.key(), recv));
                assert(working@.take(l + 1).drop_last() =~= working@.take(l as int));
                assert(working@.take(l + 1).last() == working@[l as int]);
                assert(mirror_map(working@.take(l + 1)) == mirror_map(working@.take(
                    l as int,
                )).insert(recv.key(), recv));
                assert forall|x: int| 0 <= x < out_lines@.len() implies (#[trigger] line_record(
                    e,
                    out_lines@[x]@,
                )) is Some by {
                    if x < out0.len() {
                        assert(out_lines@[x] == out0[x]);
                        assert(line_record(e, out0[x]@) is Some);
                    }
                }
            }
            l = l + 1;
        }
        proof {
            assert(working@.take(working@.len() as int) =~= working@);
            assert(seg_map(e, out_lines@) == old(self).sealed_map());
        }

        let id = SegmentId { generation: 1, timestamp: self.next_timestamp };
        proof {
            reveal(NullDB::wf);
        }
        self.next_timestamp = self.next_timestamp + 1;
        let idx = match generate_index_for_segment(&out_lines, self.file_engine) {
            Ok(idx) => idx,
            Err(_) => {
                proof {
                    assert(lines_wf(e, out_lines@)) by {
                        assert forall|x: int| 0 <= x < out_lines@.len() implies (
                        out_lines@[x]@.len() == 0 || (#[trigger] crate::file::decode_spec(
                            e,
                            out_lines@[x]@,
                        )) is Some) by {
                            assert(line_record(e, out_lines@[x]@) is Some);
                        }
                    }
                    assert(false);
                }
                Index::new()
            },
        };
        self.segments.clear();
        self.indexes.clear();
        self.segments.push(Segment { id, lines: out_lines });
        self.indexes.push((id, idx));
        proof {
            assert(self.segments@.len() == 1);
            assert(self.segments@[0].id == id);
            assert(self.indexes@.len() == 1);
            assert(self.wf()) by {
                reveal(NullDB::wf);
                assert(seg_pos(self.segments@, id) == 0);
                assert(lines_wf(e, self.segments@[0].lines@)) by {
                    assert forall|x: int|
                        0 <= x < self.segments@[0].lines@.len() implies (
                    self.segments@[0].lines@[x]@.len() == 0 || (#[trigger]
                    crate::file::decode_spec(e, self.segments@[0].lines@[x]@)) is Some) by {
                        assert(line_record(e, self.segments@[0].lines@[x]@) is Some);
                    }
                }
            }
            assert(self.fully_indexed()) by {
                assert(self.has_index(id)) by {
                    assert(self.indexes@[0].0 == id);
                }
            }
            assert(self.sealed_map() =~= seg_map(e, self.segments@[0].lines@)) by {
                assert(self.segments@.drop_last() =~= Seq::<Segment>::empty());
                assert(sealed_fold(e, Seq::<Segment>::empty()) == Map::<
                    Seq<char>,
                    RecordV,
                >::empty());
                assert(self.segments@.last() == self.segments@[0]);
                assert(Map::<Seq<char>, RecordV>::empty().union_prefer_right(
                    seg_map(e, self.segments@[0].lines@),
                ) =~= seg_map(e, self.segments@[0].lines@));
            }
            assert(self.sealed_map() == old(self).sealed_map());
            assert(old(self).sealed_map() != Map::<Seq<char>, RecordV>::empty()) by {
                let lastk = working@.last().0@;
                assert(mirror_map(working@).contains_key(lastk));
                assert(!Map::<Seq<char>, RecordV>::empty().contains_key(lastk));
            }
            old(self).lemma_view();
            self.lemma_view();
        }
        Ok(())
    }
}

/// The combined sealed map holds a key exactly when some sealed segment
/// holds it: compaction's output covers the union of its inputs' key sets.
pub proof fn lemma_sealed_fold_domain(e: FileEngine, segs: Seq<Segment>, k: Seq<char>)
    ensures
        sealed_fold(e, segs).contains_key(k) <==> exists|i: int|
            0 <= i < segs.len() && seg_map(e, (#[trigger] segs[i]).lines@).contains_key(k),
    decreases segs.len(),
{
    if segs.len() > 0 {
        lemma_sealed_fold_domain(e, segs.drop_last(), k);
        let n = (segs.len() - 1) as int;
        if sealed_fold(e, segs).contains_key(k) {
            if seg_map(e, segs[n].lines@).contains_key(k) {
            } else {
                let i = choose|i: int|
                    0 <= i < segs.drop_last().len() && seg_map(
                        e,
                        (#[trigger] segs.drop_last()[i]).lines@,
                    ).contains_key(k);
                assert(segs.drop_last()[i] == segs[i]);
            }
        }
        if exists|i: int|
            0 <= i < segs.len() && seg_map(e, (#[trigger] segs[i]).lines@).contains_key(k) {
            let i = choose|i: int|
                0 <= i < segs.len() && seg_map(e, (#[trigger] segs[i]).lines@).contains_key(k);
            if i < n {
                assert(segs.drop_last()[i] == segs[i]);
            }
        }
    }
}

// ---------------------------------------------------------------------------
// The laws the store obeys
// ---------------------------------------------------------------------------

/// A write followed immediately by a read of the same key on the same node
/// returns the written record: writing makes the view hold the record under
/// its key, and a read returns exactly the view's record.
pub proof fn lemma_put_then_get(m: Map<Seq<char>, RecordV>, rec: RecordV)
    ensures
        m.insert(rec.key(), rec).contains_key(rec.key()),
        m.insert(rec.key(), rec)[rec.key()] == rec,
{
}

/// A delete followed by a read of the same key reads as deleted: deleting
/// makes the view hold a tombstone under the key, whatever the codec, and
/// a read of a tombstone reports `ValueDeleted`.  Rotation and compaction
/// leave the view untouched, so the tombstone keeps winning after either.
pub proof fn lemma_delete_then_get(
    m: Map<Seq<char>, RecordV>,
    e: FileEngine,
    k: Seq<char>,
    idx: u64,
)
    ensures
        tombstone_v(e, k, idx).is_tombstone(),
        m.insert(k, tombstone_v(e, k, idx)).contains_key(k),
        m.insert(k, tombstone_v(e, k, idx))[k].is_tombstone(),
{
}

/// The pair (main segment lines, sealed segment count) after `n` writes
/// into a fresh store.
pub open spec fn write_steps(threshold: nat, n: nat) -> (nat, nat)
    decreases n,
{
    if n == 0 {
        (0 as nat, 0 as nat)
    } else {
        let prev = write_steps(threshold, (n - 1) as nat);
        write_step(prev.0, prev.1, threshold)
    }
}

/// After `n` writes into a fresh store with rotation threshold `t`, the
/// number of sealed segments is `(n - 1) / t` — that is, `ceil(n/t) - 1` —
/// and the main segment holds the remaining `(n - 1) % t + 1` lines.
pub proof fn lemma_rotation_count(t: nat, n: nat)
    requires
        t >= 1,
        n >= 1,
    ensures
        write_steps(t, n).1 == (n - 1) as int / t as int,
        write_steps(t, n).0 == (n - 1) as int % t as int + 1,
    decreases n,
{
    if n == 1 {
        assert(write_steps(t, 0) == ((0 as nat), (0 as nat)));
        assert(write_steps(t, 1) == write_step(0, 0, t));
        assert((0 as int) / (t as int) == 0) by (nonlinear_arith)
            requires
                t >= 1,
        ;
        assert((0 as int) % (t as int) == 0) by (nonlinear_arith)
            requires
                t >= 1,
        ;
    } else {
        lemma_rotation_count(t, (n - 1) as nat);
        let prev = write_steps(t, (n - 1) as nat);
        assert(write_steps(t, n) == write_step(prev.0, prev.1, t));
        let m = (n - 2) as int;
        let ti = t as int;
        vstd::arithmetic::div_mod::lemma_mod_bound(m, ti);
        if m % ti == ti - 1 {
            assert((m + 1) / ti == m / ti + 1 && (m + 1) % ti == 0) by (nonlinear_arith)
                requires
                    ti >= 1,
                    m >= 0,
                    m % ti == ti - 1,
            ;
        } else {
            assert((m + 1) / ti == m / ti && (m + 1) % ti == m % ti + 1) by (nonlinear_arith)
                requires
                    ti >= 1,
                    m >= 0,
                    0 <= m % ti < ti - 1,
            ;
        }
    }
}

/// A fresh, empty store; timed compaction, when configured, is the
/// caller's loop to run.
pub fn create_db(config: Config) -> (r: NullDB)
    requires
        config.encoding@ == "json"@ || config.encoding@ == "html"@ || config.encoding@
            == "proto"@,
        config.rotation_threshold >= 1,
    ensures
        r.wf(),
        r@ == Map::<Seq<char>, RecordV>::empty(),
        r.main_len() == 0,
        r.sealed_count() == 0,
        r.fully_indexed(),
        r.rotation_threshold() == config.rotation_threshold,
        config.encoding@ == "json"@ ==> r.engine() == FileEngine::Json,
        config.encoding@ == "html"@ ==> r.engine() == FileEngine::Html,
        config.encoding@ == "proto"@ ==> r.engine() == FileEngine::Proto,
        r.stamps_left() == u64::MAX - 1,
{
    NullDB::new(config)
}

/// The record of one serialized line.
pub fn get_value_from_database(value: String, file_engine: &FileEngine) -> (r: Result<
    Record,
    NullDbReadError,
>)
    ensures
        match r {
            Ok(rec) => crate::file::decode_spec(*file_engine, value@) == Some(rec@),
            Err(e) => e == NullDbReadError::Corrupted && crate::file::decode_spec(
                *file_engine,
                value@,
            ) is None,
        },
{
    file_engine.get_record_from_str(value.as_str())
}

/// The key of one serialized line.
pub fn get_key_from_database_line(value: String, file_engine: FileEngine) -> (r: Result<
    String,
    NullDbReadError,
>)
    ensures
        match r {
            Ok(k) => crate::file::decode_spec(file_engine, value@) is Some
                && crate::file::decode_spec(file_engine, value@).unwrap().key() == k@,
            Err(e) => e == NullDbReadError::Corrupted && crate::file::decode_spec(
                file_engine,
                value@,
            ) is None,
        },
{
    match file_engine.get_record_from_str(value.as_str()) {
        Ok(rec) => Ok(rec.get_id()),
        Err(e) => Err(e),
    }
}

} // verus!
