use rapcsv::parser::parse_buffer;
use rapcsv::{validate_path, CsvError};

#[test]
fn validate_path_accepts_ordinary_paths() {
    assert_eq!(validate_path("data.csv"), Ok(()));
    assert_eq!(validate_path("dir/more dirs/file"), Ok(()));
}

#[test]
fn validate_path_rejects_empty_and_null() {
    assert_eq!(validate_path(""), Err(CsvError::InvalidArgument));
    assert_eq!(validate_path("a\0b"), Err(CsvError::InvalidArgument));
    assert_eq!(validate_path("\0"), Err(CsvError::InvalidArgument));
}

#[test]
fn parse_buffer_reads_whole_files() {
    let parsed = parse_buffer(&b"a,b\r\nc\r\n".to_vec());
    assert!(!parsed.malformed);
    assert_eq!(
        parsed.records,
        vec![
            vec![b"a".to_vec(), b"b".to_vec()],
            vec![b"c".to_vec()],
        ]
    );
}

#[test]
fn parse_buffer_keeps_records_before_malformed_content() {
    let parsed = parse_buffer(&b"good\r\n\"broken".to_vec());
    assert!(parsed.malformed);
    assert_eq!(parsed.records, vec![vec![b"good".to_vec()]]);
}

#[test]
fn parse_buffer_of_empty_input_is_no_records() {
    let parsed = parse_buffer(&Vec::new());
    assert!(!parsed.malformed);
    assert!(parsed.records.is_empty());
}
