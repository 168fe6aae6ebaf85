//! Segment file-name and directory-grouping tests.

use nulldb::utils::{
    generate_segment_file_name, get_generation_from_filename, get_generations_segment_mapper,
    parse_segment_file_name,
};

#[test]
fn file_name_round_trip() {
    let name = generate_segment_file_name(0, 173);
    assert_eq!(name, "0-173.nullsegment".to_string());
    assert_eq!(parse_segment_file_name(name.as_str()), Some((0, 173)));
    let name = generate_segment_file_name(12, u64::MAX);
    assert_eq!(parse_segment_file_name(name.as_str()), Some((12, u64::MAX)));
}

#[test]
fn bad_file_names_do_not_parse() {
    assert_eq!(parse_segment_file_name("readme.txt"), None);
    assert_eq!(parse_segment_file_name("1-2.segment"), None);
    assert_eq!(parse_segment_file_name("-2.nullsegment"), None);
    assert_eq!(parse_segment_file_name("1-2.nullsegment.bak"), None);
    assert_eq!(parse_segment_file_name(""), None);
}

#[test]
fn generation_is_read_before_the_dash() {
    assert_eq!(get_generation_from_filename("2-99.nullsegment"), Some(2));
    assert_eq!(get_generation_from_filename("17-1.nullsegment"), Some(17));
    assert_eq!(get_generation_from_filename("nope"), None);
    assert_eq!(get_generation_from_filename("7.nullsegment"), None);
}

#[test]
fn mapper_groups_by_generation() {
    let files = vec![
        "0-3.nullsegment".to_string(),
        "1-1.nullsegment".to_string(),
        "0-5.nullsegment".to_string(),
        "not-a-number".to_string(),
        "junk".to_string(),
        "2-1.nullsegment".to_string(),
    ];
    let mapper = get_generations_segment_mapper(files);
    assert_eq!(mapper.generations.len(), 3);
    assert_eq!(mapper.gen_name_segment_files.len(), 3);
    for (generation, names) in &mapper.gen_name_segment_files {
        for name in names {
            assert_eq!(get_generation_from_filename(name.as_str()), Some(*generation));
        }
        if *generation == 0 {
            assert_eq!(names.len(), 2);
        } else {
            assert_eq!(names.len(), 1);
        }
    }
}
