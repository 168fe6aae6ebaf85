//! Storage engine tests: reads, writes, rotation, deletion, loading and
//! compaction.

use nulldb::errors::NullDbReadError;
use nulldb::file::FileEngine;
use nulldb::file_compactor::compactor;
use nulldb::nulldb::{create_db, Config, NullDB};

fn small_db(encoding: &str, threshold: usize) -> NullDB {
    let config = Config::new("/tmp/null".to_string(), false, encoding.to_string())
        .with_rotation_threshold(threshold);
    create_db(config)
}

fn put(db: &mut NullDB, key: &str, value: &str, index: u64) {
    let rec = db
        .get_file_engine()
        .new_record(key.to_string(), index, None, Some(value.to_string()));
    db.write_value_to_log(rec).expect("write");
}

#[test]
fn put_then_get_returns_value() {
    for encoding in ["json", "html", "proto"] {
        let mut db = small_db(encoding, 64);
        put(&mut db, "name", "name:marek", 1);
        let rec = db.get_value_for_key("name").expect("should retrive value");
        assert_eq!(rec.get_id(), "name".to_string());
        assert_eq!(rec.get_value(), Some("name:marek".to_string()));
    }
}

#[test]
fn get_missing_key_is_not_found() {
    let db = small_db("json", 64);
    assert!(matches!(
        db.get_value_for_key("nobody"),
        Err(NullDbReadError::ValueNotFound)
    ));
}

#[test]
fn later_write_shadows_earlier() {
    let mut db = small_db("json", 64);
    put(&mut db, "k", "one", 1);
    put(&mut db, "k", "two", 2);
    let rec = db.get_value_for_key("k").unwrap();
    assert_eq!(rec.get_value(), Some("two".to_string()));
}

#[test]
fn delete_then_get_reads_deleted() {
    for encoding in ["json", "html", "proto"] {
        let mut db = small_db(encoding, 64);
        put(&mut db, "k", "v", 1);
        db.delete_record("k".to_string()).expect("delete");
        assert!(matches!(
            db.get_value_for_key("k"),
            Err(NullDbReadError::ValueDeleted)
        ));
    }
}

#[test]
fn delete_survives_rotation_and_compaction() {
    let mut db = small_db("json", 2);
    put(&mut db, "k", "v", 1);
    db.delete_record("k".to_string()).expect("delete");
    // two fillers force the tombstone's segment to be sealed
    put(&mut db, "f1", "x", 2);
    put(&mut db, "f2", "x", 3);
    assert!(db.sealed_len() >= 1);
    assert!(matches!(
        db.get_value_for_key("k"),
        Err(NullDbReadError::ValueDeleted)
    ));
    compactor(&mut db).expect("compact");
    assert!(matches!(
        db.get_value_for_key("k"),
        Err(NullDbReadError::ValueDeleted)
    ));
}

#[test]
fn rotation_counts_match_formula() {
    // after n writes with threshold t, sealed segments number (n-1)/t
    let t: usize = 3;
    let n: usize = 10;
    let mut db = small_db("json", t);
    for i in 0..n {
        put(&mut db, &format!("key{}", i), &format!("value{}", i), i as u64);
    }
    assert_eq!(db.sealed_len(), (n - 1) / t);
    assert_eq!(db.main_line_count(), (n - 1) % t + 1);
    // every key still reads back
    for i in 0..n {
        let rec = db.get_value_for_key(&format!("key{}", i)).unwrap();
        assert_eq!(rec.get_value(), Some(format!("value{}", i)));
    }
    // each sealed segment's index maps its keys to their lines
    let first = db.get_segment_id(0);
    assert_eq!(db.get_index_entry(first, "key0"), Some(0));
    assert_eq!(db.get_index_entry(first, "key1"), Some(1));
    assert_eq!(db.get_index_entry(first, "key2"), Some(2));
    assert_eq!(db.get_index_entry(first, "key3"), None);
}

#[test]
fn rotation_scenario_with_threshold_two() {
    // threshold two lines: the third write rotates first, so the sealed
    // segment indexes exactly the first two keys and the third key reads
    // from the main segment's mirror
    let mut db = small_db("json", 2);
    put(&mut db, "a", "1", 1);
    put(&mut db, "b", "2", 2);
    put(&mut db, "c", "3", 3);
    assert_eq!(db.sealed_len(), 1);
    assert_eq!(db.main_line_count(), 1);
    let sealed = db.get_segment_id(0);
    assert_eq!(sealed.generation, 0);
    assert_eq!(db.get_index_entry(sealed, "a"), Some(0));
    assert_eq!(db.get_index_entry(sealed, "b"), Some(1));
    assert_eq!(db.get_index_entry(sealed, "c"), None);
    let rec = db.get_value_for_key("c").unwrap();
    assert_eq!(rec.get_value(), Some("3".to_string()));
}

#[test]
fn index_reflects_last_line_per_key() {
    // the same key twice in one sealed segment: the index points at the
    // later line
    let mut db = small_db("json", 2);
    put(&mut db, "dup", "first", 1);
    put(&mut db, "dup", "second", 2);
    put(&mut db, "other", "x", 3);
    let sealed = db.get_segment_id(0);
    assert_eq!(db.get_index_entry(sealed, "dup"), Some(1));
    let rec = db.get_value_for_key("dup").unwrap();
    assert_eq!(rec.get_value(), Some("second".to_string()));
}

#[test]
fn compaction_keeps_most_recent_per_key() {
    let mut db = small_db("json", 2);
    put(&mut db, "a", "1", 1);
    put(&mut db, "b", "1", 2);
    put(&mut db, "a", "2", 3); // rotates {a:1, b:1}
    put(&mut db, "c", "1", 4);
    put(&mut db, "d", "1", 5); // rotates {a:2, c:1}
    assert_eq!(db.sealed_len(), 2);
    compactor(&mut db).expect("compact");
    assert_eq!(db.sealed_len(), 1);
    // union of the consumed key sets, most recent value per key
    assert_eq!(
        db.get_value_for_key("a").unwrap().get_value(),
        Some("2".to_string())
    );
    assert_eq!(
        db.get_value_for_key("b").unwrap().get_value(),
        Some("1".to_string())
    );
    assert_eq!(
        db.get_value_for_key("c").unwrap().get_value(),
        Some("1".to_string())
    );
    // the main segment is untouched
    assert_eq!(
        db.get_value_for_key("d").unwrap().get_value(),
        Some("1".to_string())
    );
    // the compacted segment carries the next generation
    assert_eq!(db.get_segment_id(0).generation, 1);
}

#[test]
fn compaction_of_empty_store_is_empty() {
    let mut db = small_db("json", 4);
    compactor(&mut db).expect("compact");
    assert_eq!(db.sealed_len(), 0);
}

#[test]
fn put_get_many_keys_across_rotations() {
    let mut db = small_db("proto", 16);
    for i in 0..200usize {
        put(&mut db, &format!("k{}", i), &format!("v{}", i), i as u64);
    }
    put(&mut db, "name", "name:marek", 500);
    for i in (0..200usize).step_by(17) {
        let rec = db.get_value_for_key(&format!("k{}", i)).unwrap();
        assert_eq!(rec.get_value(), Some(format!("v{}", i)));
    }
    let rec = db.get_value_for_key("name").expect("should retrive value");
    assert_eq!(rec.get_value(), Some("name:marek".to_string()));
}

#[test]
fn loaded_segments_serve_reads() {
    // pre-existing segment files are adopted worst-precedence first:
    // highest generation first, oldest within one generation
    let engine = FileEngine::Json;
    let older = vec![
        engine
            .new_record("x".to_string(), 1, None, Some("old".to_string()))
            .serialize(),
        engine
            .new_record("y".to_string(), 2, None, Some("kept".to_string()))
            .serialize(),
    ];
    let newer = vec![engine
        .new_record("x".to_string(), 3, None, Some("new".to_string()))
        .serialize()];
    let mut db = small_db("json", 64);
    assert!(db.accepts_generation(1));
    db.add_segment(1, older).expect("load older");
    assert!(db.accepts_generation(0));
    db.add_segment(0, newer).expect("load newer");
    assert_eq!(
        db.get_value_for_key("x").unwrap().get_value(),
        Some("new".to_string())
    );
    assert_eq!(
        db.get_value_for_key("y").unwrap().get_value(),
        Some("kept".to_string())
    );
}

#[test]
fn loading_rejects_corrupt_lines() {
    let mut db = small_db("json", 64);
    let r = db.add_segment(0, vec!["garbage line".to_string()]);
    assert!(matches!(r, Err(NullDbReadError::Corrupted)));
    // empty lines are tolerated and skipped
    let engine = db.get_file_engine();
    let lines = vec![
        String::new(),
        engine
            .new_record("k".to_string(), 1, None, Some("v".to_string()))
            .serialize(),
    ];
    db.add_segment(0, lines).expect("empty lines are fine");
    assert_eq!(
        db.get_value_for_key("k").unwrap().get_value(),
        Some("v".to_string())
    );
}

#[test]
fn latest_record_comes_from_freshest_segment() {
    let mut db = small_db("json", 2);
    put(&mut db, "a", "1", 1);
    put(&mut db, "b", "2", 2);
    put(&mut db, "c", "3", 3); // seals {a, b}
    let rec = db.get_latest_record_from_disk().expect("one sealed segment");
    assert_eq!(rec.get_id(), "a".to_string());
    let empty = small_db("json", 2);
    assert!(matches!(
        empty.get_latest_record_from_disk(),
        Err(NullDbReadError::ValueNotFound)
    ));
}

#[test]
fn log_and_log_entries_assign_indices() {
    let mut db = small_db("json", 64);
    db.log("k".to_string(), "v".to_string(), 4).expect("log");
    assert_eq!(db.get_current_raft_index(), 5);
    let rec = db.get_value_for_key("k").unwrap();
    assert_eq!(rec.get_index(), 5);
    let entries = vec![
        nulldb::raft::LogEntry { key: "p".to_string(), value: "1".to_string() },
        nulldb::raft::LogEntry { key: "q".to_string(), value: "2".to_string() },
    ];
    db.log_entries(entries, 5).expect("log entries");
    assert_eq!(db.get_current_raft_index(), 7);
    assert_eq!(db.get_value_for_key("p").unwrap().get_index(), 6);
    assert_eq!(db.get_value_for_key("q").unwrap().get_index(), 7);
}

#[test]
fn index_table_can_be_retired_and_republished() {
    let mut db = small_db("json", 2);
    put(&mut db, "a", "1", 1);
    put(&mut db, "b", "2", 2);
    put(&mut db, "c", "3", 3); // seals {a, b}
    let sealed = db.get_segment_id(0);
    let idx = db.remove_index(&sealed).expect("index was published");
    // without the index the segment cannot be searched
    assert!(matches!(
        db.get_value_for_key("a"),
        Err(NullDbReadError::Corrupted)
    ));
    db.add_index(sealed, idx);
    assert_eq!(
        db.get_value_for_key("a").unwrap().get_value(),
        Some("1".to_string())
    );
}

#[test]
fn paths_are_joined_under_the_base_directory() {
    let db = small_db("json", 64);
    assert_eq!(db.get_db_path(), "/tmp/null".to_string());
    assert_eq!(
        db.get_path_for_file("0-1.nullsegment".to_string()),
        "/tmp/null/0-1.nullsegment".to_string()
    );
}
