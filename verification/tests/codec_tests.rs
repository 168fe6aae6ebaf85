//! Round-trip and decoding tests for the three codecs.

use nulldb::errors::NullDbReadError;
use nulldb::file::FileEngine;

fn engines() -> Vec<FileEngine> {
    vec![FileEngine::Json, FileEngine::Html, FileEngine::Proto]
}

#[test]
fn round_trip_plain_record() {
    for engine in engines() {
        let rec = engine.new_record(
            "name".to_string(),
            7,
            None,
            Some("name:marek".to_string()),
        );
        let line = rec.serialize();
        let back = engine
            .get_record_from_str(line.as_str())
            .expect("canonical line must decode");
        assert_eq!(back, rec);
        assert_eq!(back.get_id(), "name".to_string());
        assert_eq!(back.get_index(), 7);
        assert_eq!(back.get_value(), Some("name:marek".to_string()));
    }
}

#[test]
fn round_trip_tombstone_record() {
    for engine in engines() {
        let rec = engine.new_tombstone_record("gone".to_string(), 3);
        let line = rec.serialize();
        let back = engine
            .get_record_from_str(line.as_str())
            .expect("canonical line must decode");
        assert_eq!(back, rec);
        assert_eq!(back.get_tombstone(), Some(true));
        assert_eq!(back.get_value(), None);
    }
}

#[test]
fn round_trip_awkward_characters() {
    let awkward = "quote \" backslash \\ newline \n dash - semi ; lt < amp & digits 123";
    for engine in engines() {
        let rec = engine.new_record(
            format!("k{}", awkward),
            u64::MAX,
            Some(false),
            Some(awkward.to_string()),
        );
        let line = rec.serialize();
        let back = engine
            .get_record_from_str(line.as_str())
            .expect("canonical line must decode");
        assert_eq!(back, rec);
        assert_eq!(back.get_value(), Some(awkward.to_string()));
        assert_eq!(back.get_index(), u64::MAX);
    }
}

#[test]
fn round_trip_unicode() {
    for engine in engines() {
        let rec = engine.new_record(
            "clé".to_string(),
            42,
            Some(true),
            Some("wert – größer".to_string()),
        );
        let line = rec.serialize();
        let back = engine
            .get_record_from_str(line.as_str())
            .expect("canonical line must decode");
        assert_eq!(back, rec);
    }
}

#[test]
fn round_trip_empty_key_and_value() {
    for engine in engines() {
        let rec = engine.new_record(String::new(), 0, None, Some(String::new()));
        let line = rec.serialize();
        let back = engine
            .get_record_from_str(line.as_str())
            .expect("canonical line must decode");
        assert_eq!(back, rec);
        assert_eq!(back.get_value(), Some(String::new()));
    }
}

#[test]
fn garbage_is_corrupted() {
    for engine in engines() {
        let r = engine.get_record_from_str("not a record");
        assert!(matches!(r, Err(NullDbReadError::Corrupted)));
        let r = engine.get_record_from_str("");
        assert!(matches!(r, Err(NullDbReadError::Corrupted)));
    }
}

#[test]
fn codecs_reject_each_other() {
    let json = FileEngine::Json;
    let html = FileEngine::Html;
    let line = json
        .new_record("k".to_string(), 1, None, Some("v".to_string()))
        .serialize();
    assert!(matches!(
        html.get_record_from_str(line.as_str()),
        Err(NullDbReadError::Corrupted)
    ));
}

#[test]
fn engine_selection_by_name() {
    assert!(matches!(FileEngine::try_new("json"), Some(FileEngine::Json)));
    assert!(matches!(FileEngine::try_new("html"), Some(FileEngine::Html)));
    assert!(matches!(FileEngine::try_new("proto"), Some(FileEngine::Proto)));
    assert!(matches!(FileEngine::try_new("yaml"), None));
    assert!(matches!(FileEngine::new("json"), FileEngine::Json));
}

#[test]
fn html_tombstone_is_class_based() {
    let engine = FileEngine::Html;
    let rec = engine.new_tombstone_record("k".to_string(), 1);
    let line = rec.serialize();
    let back = engine.get_record_from_str(line.as_str()).unwrap();
    assert_eq!(back.get_tombstone(), Some(true));
    // a plain markup record carries no tombstone mark
    let plain = engine.new_record("k".to_string(), 1, Some(true), Some("v".to_string()));
    assert_eq!(plain.get_tombstone(), None);
}
