//! An append-only, segment-based key-value store with a Raft-style
//! consensus layer.
//!
//! The storage engine ([`nulldb::NullDB`]) keeps a writable main segment and
//! a set of sealed segments, each sealed segment carrying an in-memory index
//! from key to line number.  Records are serialized one per line by a
//! pluggable codec ([`file::FileEngine`]); three interchangeable codecs are
//! provided and each is proved to round-trip every record.  A compactor
//! ([`file_compactor`]) merges sealed segments, keeping the most recent
//! record per key.  The consensus layer ([`raft`]) is a pure state machine
//! over follower, candidate and leader states; callers drive it with ticks
//! and events and perform the actual message transport themselves.

pub mod enc;
pub mod errors;
pub mod file;
pub mod file_compactor;
pub mod index;
pub mod nulldb;
pub mod raft;
pub mod text;
pub mod utils;
