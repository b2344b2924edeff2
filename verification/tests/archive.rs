use file_archive::config::{chunk_budget_from_setting, is_truthy_value, parse_u64,
    DEFAULT_CHUNK_BUDGET};
use file_archive::pattern::{FileSet, FilenameFormat, PatternError};
use file_archive::timestamp::{Timestamp, MAX_UNIX_SECS};
use file_archive::writer::{simulate_run, RotatingWriter};
use std::path::PathBuf;

fn join_path(parts: &[&'static str]) -> String {
    let mut buf = PathBuf::new();
    for p in parts {
        buf.push(p);
    }
    buf.to_string_lossy().to_string()
}

fn ts_2016_07_08_09_10_11() -> Timestamp {
    let secs = chrono::NaiveDate::from_ymd_opt(2016, 7, 8)
        .unwrap()
        .and_hms_opt(9, 10, 11)
        .unwrap()
        .and_utc()
        .timestamp();
    Timestamp::from_unix(secs as u64).unwrap()
}

#[test]
fn file_set_is_split() {
    let p = join_path(&["path", "to", "log-*.clef"]);
    let file_set = FileSet::new(&p, FilenameFormat::Timestamp).unwrap();

    let q = join_path(&["path", "to"]);
    assert_eq!(&q, file_set.dir_name());
    assert_eq!("log-*.clef", file_set.file_name_template());
}

#[test]
fn timestamped_file_path_constructed() {
    let p = join_path(&["path", "to", "log-*.clef"]);
    let file_set = FileSet::new(&p, FilenameFormat::Timestamp).unwrap();
    let timestamp = ts_2016_07_08_09_10_11();
    let path = file_set.make_file_path(&timestamp);

    let q = join_path(&["path", "to", "log-00000000577f6df3.clef"]);
    assert_eq!(&q, path.as_str());
}

#[test]
fn readable_file_path_constructed() {
    let p = join_path(&["path", "to", "log-*.clef"]);
    let file_set = FileSet::new(&p, FilenameFormat::Readable).unwrap();
    let timestamp = ts_2016_07_08_09_10_11();
    let path = file_set.make_file_path(&timestamp);

    let q = join_path(&["path", "to", "log-2016-07-08T09_10_11Z.clef"]);
    assert_eq!(&q, path.as_str());
}

#[test]
fn pattern_without_directory_is_rejected() {
    let r = FileSet::new("nodirectory", FilenameFormat::Timestamp);
    assert!(matches!(r, Err(PatternError::NoDirectory)));
}

#[test]
fn pattern_without_wildcard_is_rejected() {
    let r = FileSet::new("dir/nowildcard.log", FilenameFormat::Timestamp);
    assert!(matches!(r, Err(PatternError::NoWildcard)));
}

#[test]
fn absolute_pattern_constructs_expected_paths() {
    let file_set = FileSet::new("/path/to/log-*.clef", FilenameFormat::Timestamp).unwrap();
    let timestamp = ts_2016_07_08_09_10_11();
    assert_eq!(
        "/path/to/log-00000000577f6df3.clef",
        file_set.make_file_path(&timestamp).as_str()
    );

    let file_set = FileSet::new("/path/to/log-*.clef", FilenameFormat::Readable).unwrap();
    assert_eq!(
        "/path/to/log-2016-07-08T09_10_11Z.clef",
        file_set.make_file_path(&timestamp).as_str()
    );
}

#[test]
fn root_directory_pattern_keeps_single_separator() {
    let file_set = FileSet::new("/log-*.clef", FilenameFormat::Timestamp).unwrap();
    assert_eq!("/", file_set.dir_name());
    let timestamp = Timestamp::from_unix(0).unwrap();
    assert_eq!("/log-0000000000000000.clef", file_set.make_file_path(&timestamp).as_str());
}

#[test]
fn epoch_renders_in_both_formats() {
    let timestamp = Timestamp::from_unix(0).unwrap();
    let hex = FileSet::new("d/*", FilenameFormat::Timestamp).unwrap();
    assert_eq!("d/0000000000000000", hex.make_file_path(&timestamp).as_str());
    let readable = FileSet::new("d/*", FilenameFormat::Readable).unwrap();
    assert_eq!("d/1970-01-01T00_00_00Z", readable.make_file_path(&timestamp).as_str());
}

#[test]
fn every_wildcard_occurrence_is_replaced() {
    let file_set = FileSet::new("d/a-*-*.log", FilenameFormat::Timestamp).unwrap();
    let timestamp = Timestamp::from_unix(0).unwrap();
    assert_eq!(
        "d/a-0000000000000000-0000000000000000.log",
        file_set.make_file_path(&timestamp).as_str()
    );
}

#[test]
fn path_construction_is_deterministic() {
    let timestamp = ts_2016_07_08_09_10_11();
    let hex = FileSet::new("/path/to/log-*.clef", FilenameFormat::Timestamp).unwrap();
    assert_eq!(hex.make_file_path(&timestamp), hex.make_file_path(&timestamp));
    let readable = FileSet::new("/path/to/log-*.clef", FilenameFormat::Readable).unwrap();
    assert_eq!(readable.make_file_path(&timestamp), readable.make_file_path(&timestamp));
}

#[test]
fn timestamps_outside_supported_range_are_rejected() {
    assert!(Timestamp::from_unix(MAX_UNIX_SECS).is_some());
    assert!(Timestamp::from_unix(MAX_UNIX_SECS + 1).is_none());
}

#[test]
fn last_supported_second_renders_with_four_digit_year() {
    let timestamp = Timestamp::from_unix(MAX_UNIX_SECS).unwrap();
    let readable = FileSet::new("d/*", FilenameFormat::Readable).unwrap();
    assert_eq!("d/9999-12-31T23_59_59Z", readable.make_file_path(&timestamp).as_str());
}

#[test]
fn truthy_values_recognised() {
    assert!(is_truthy_value("True"));
    assert!(is_truthy_value("true"));
    assert!(!is_truthy_value("TRUE"));
    assert!(!is_truthy_value("1"));
    assert!(!is_truthy_value(""));
}

#[test]
fn chunk_size_parsing() {
    assert_eq!(Some(0), parse_u64("0"));
    assert_eq!(Some(104857600), parse_u64("104857600"));
    assert_eq!(Some(u64::MAX), parse_u64("18446744073709551615"));
    assert_eq!(None, parse_u64("18446744073709551616"));
    assert_eq!(None, parse_u64(""));
    assert_eq!(None, parse_u64("12a"));
    assert_eq!(None, parse_u64("-5"));
}

#[test]
fn chunk_budget_defaults_when_unset() {
    assert_eq!(Some(DEFAULT_CHUNK_BUDGET), chunk_budget_from_setting(""));
    assert_eq!(104857600, DEFAULT_CHUNK_BUDGET);
    assert_eq!(Some(4096), chunk_budget_from_setting("4096"));
    assert_eq!(None, chunk_budget_from_setting("big"));
}

#[test]
fn writer_rotates_before_the_budget_is_exceeded() {
    let mut w = RotatingWriter::new(10, 0);
    assert_eq!(10, w.chunk_budget());

    assert!(!w.needs_rotation("ab".len()));
    w.record_written(b"ab");
    assert_eq!(3, w.current_len());

    assert!(!w.needs_rotation("cd".len()));
    w.record_written(b"cd");
    assert_eq!(6, w.current_len());

    // 6 + 7 + 1 = 14 > 10: a fresh file must be opened first.
    assert!(w.needs_rotation("efghijk".len()));
    w.rotate_to(0);
    w.record_written(b"efghijk");
    assert_eq!(8, w.current_len());
}

#[test]
fn writer_resumes_at_the_existing_length() {
    // A prior run left 5 bytes in the file the pattern names right now.
    let mut w = RotatingWriter::new(10, 5);
    assert_eq!(5, w.current_len());
    assert!(!w.needs_rotation("ab".len()));
    w.record_written(b"ab");
    // The new record occupies offsets 5..8; nothing before 5 is touched.
    assert_eq!(8, w.current_len());
}

#[test]
fn writer_fills_a_file_exactly_to_the_budget() {
    let mut w = RotatingWriter::new(6, 0);
    assert!(!w.needs_rotation(2));
    w.record_written(b"ab");
    assert!(!w.needs_rotation(2));
    w.record_written(b"cd");
    assert_eq!(6, w.current_len());
}

#[test]
fn three_records_split_into_two_files() {
    let records = vec![b"ab".to_vec(), b"cd".to_vec(), b"efghijk".to_vec()];
    let files = simulate_run(10, &records);
    assert_eq!(2, files.len());
    assert_eq!(b"ab\ncd\n".to_vec(), files[0]);
    assert_eq!(b"efghijk\n".to_vec(), files[1]);
}

#[test]
fn oversized_record_is_written_whole_and_alone() {
    let records = vec![b"toolong".to_vec()];
    let files = simulate_run(4, &records);
    assert_eq!(2, files.len());
    assert!(files[0].is_empty());
    assert_eq!(b"toolong\n".to_vec(), files[1]);
}

#[test]
fn no_records_leave_one_empty_file() {
    let records: Vec<Vec<u8>> = Vec::new();
    let files = simulate_run(10, &records);
    assert_eq!(1, files.len());
    assert!(files[0].is_empty());
}
