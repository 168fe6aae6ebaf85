//! The compactor: merge every sealed segment into one, keeping the record
//! a read would find for each key.
//!
//! The pass visits sealed segments from worst to best read precedence —
//! generations from newest to oldest, and within one generation older
//! stamps first — replacing the working set's entry at each occurrence, so
//! the survivor per key is the most-recently-visited occurrence: exactly
//! the read-precedence winner.  Survivors are flushed to a single segment
//! at generation one, its index is built and published, and the consumed
//! segments and their indexes are dropped.  A timed loop around
//! [`compactor`] belongs to the embedding program; the pass itself is pure.

use vstd::prelude::*;

use crate::errors::NullDbReadError;
use crate::file::RecordV;
use crate::nulldb::NullDB;

verus! {

/// Run one compaction pass over the store's sealed segments.  What every
/// key reads as is unchanged; the main segment is never touched; afterwards
/// at most one sealed segment remains and every sealed segment is indexed.
pub fn compactor(db: &mut NullDB) -> (r: Result<(), NullDbReadError>)
    requires
        old(db).wf(),
        old(db).stamps_left() >= 1,
    ensures
        r is Ok,
        final(db).wf(),
        final(db)@ == old(db)@,
        final(db).sealed_map() == old(db).sealed_map(),
        final(db).main_map() == old(db).main_map(),
        final(db).main_len() == old(db).main_len(),
        final(db).sealed_count() <= 1,
        final(db).fully_indexed(),
        final(db).engine() == old(db).engine(),
        final(db).rotation_threshold() == old(db).rotation_threshold(),
        final(db).raft_index() == old(db).raft_index(),
        final(db).stamps_left() >= old(db).stamps_left() - 1,
        final(db).sealed_count() == 0 <==> old(db).sealed_map() == Map::<
            Seq<char>,
            RecordV,
        >::empty(),
        final(db).sealed_count() == 1 ==> final(db).sealed_seg_id(0).generation == 1,
{
    db.compact()
}

} // verus!
