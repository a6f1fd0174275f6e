use rapcsv::{CsvError, Reader};

fn bytes(s: &str) -> Vec<u8> {
    s.as_bytes().to_vec()
}

fn row(fields: &[&str]) -> Vec<Vec<u8>> {
    fields.iter().map(|f| f.as_bytes().to_vec()).collect()
}

#[test]
fn reader_rejects_empty_path() {
    let r = Reader::new(String::new());
    assert_eq!(r.err(), Some(CsvError::InvalidArgument));
}

#[test]
fn reader_rejects_null_byte_in_path() {
    let r = Reader::new("data\0.csv".to_string());
    assert_eq!(r.err(), Some(CsvError::InvalidArgument));
}

#[test]
fn fetches_records_in_order_then_empty_forever() {
    let contents = bytes("a,b\r\nc,d\r\n");
    let mut reader = Reader::new("data.csv".to_string()).unwrap();
    assert_eq!(reader.read_row(Ok(contents.clone())).unwrap(), row(&["a", "b"]));
    assert_eq!(reader.read_row(Ok(contents.clone())).unwrap(), row(&["c", "d"]));
    assert_eq!(reader.read_row(Ok(contents.clone())).unwrap(), Vec::<Vec<u8>>::new());
    assert_eq!(reader.read_row(Ok(contents.clone())).unwrap(), Vec::<Vec<u8>>::new());
    assert_eq!(reader.position, 2);
}

#[test]
fn accepts_lf_cr_and_crlf_terminators() {
    let contents = bytes("a\nb\r\nc\rd");
    let mut reader = Reader::new("data.csv".to_string()).unwrap();
    assert_eq!(reader.read_row(Ok(contents.clone())).unwrap(), row(&["a"]));
    assert_eq!(reader.read_row(Ok(contents.clone())).unwrap(), row(&["b"]));
    assert_eq!(reader.read_row(Ok(contents.clone())).unwrap(), row(&["c"]));
    assert_eq!(reader.read_row(Ok(contents.clone())).unwrap(), row(&["d"]));
    assert_eq!(reader.read_row(Ok(contents)).unwrap(), Vec::<Vec<u8>>::new());
}

#[test]
fn blank_lines_yield_no_records() {
    let contents = bytes("a\n\n\nb\n\n");
    let mut reader = Reader::new("data.csv".to_string()).unwrap();
    assert_eq!(reader.read_row(Ok(contents.clone())).unwrap(), row(&["a"]));
    assert_eq!(reader.read_row(Ok(contents.clone())).unwrap(), row(&["b"]));
    assert_eq!(reader.read_row(Ok(contents)).unwrap(), Vec::<Vec<u8>>::new());
}

#[test]
fn quoted_fields_unquote_on_read() {
    let contents = bytes("\"x,y\",z\r\n\"a\"\"b\",\"c\nd\"\r\n");
    let mut reader = Reader::new("data.csv".to_string()).unwrap();
    assert_eq!(reader.read_row(Ok(contents.clone())).unwrap(), row(&["x,y", "z"]));
    assert_eq!(reader.read_row(Ok(contents)).unwrap(), row(&["a\"b", "c\nd"]));
}

#[test]
fn empty_fields_survive() {
    let contents = bytes(",\r\na,,b\r\n");
    let mut reader = Reader::new("data.csv".to_string()).unwrap();
    assert_eq!(reader.read_row(Ok(contents.clone())).unwrap(), row(&["", ""]));
    assert_eq!(reader.read_row(Ok(contents)).unwrap(), row(&["a", "", "b"]));
}

#[test]
fn quote_in_unquoted_field_is_parse_error_with_index() {
    let contents = bytes("ok\r\nbad\"x\r\n");
    let mut reader = Reader::new("data.csv".to_string()).unwrap();
    assert_eq!(reader.read_row(Ok(contents.clone())).unwrap(), row(&["ok"]));
    assert_eq!(
        reader.read_row(Ok(contents.clone())),
        Err(CsvError::ParseError { index: 1 })
    );
    // the cursor is left unchanged, so fixing the file resumes at the same row
    assert_eq!(reader.position, 1);
    let fixed = bytes("ok\r\nmended\r\n");
    assert_eq!(reader.read_row(Ok(fixed)).unwrap(), row(&["mended"]));
}

#[test]
fn unterminated_quote_is_parse_error() {
    let contents = bytes("\"abc");
    let mut reader = Reader::new("data.csv".to_string()).unwrap();
    assert_eq!(reader.read_row(Ok(contents)), Err(CsvError::ParseError { index: 0 }));
}

#[test]
fn unreadable_file_is_io_error_and_cursor_resumes() {
    let contents = bytes("a\r\nb\r\n");
    let mut reader = Reader::new("data.csv".to_string()).unwrap();
    assert_eq!(reader.read_row(Ok(contents.clone())).unwrap(), row(&["a"]));
    let err = reader.read_row(Err("permission denied".to_string()));
    assert_eq!(
        err,
        Err(CsvError::IoError {
            path: "data.csv".to_string(),
            cause: "permission denied".to_string(),
        })
    );
    assert_eq!(reader.position, 1);
    // once the file is readable again the fetch resumes from the same position
    assert_eq!(reader.read_row(Ok(contents)).unwrap(), row(&["b"]));
}

#[test]
fn reader_construction_does_no_io() {
    // a reader on a path that no file backs is fine until a fetch is made
    let reader = Reader::new("nowhere/missing.csv".to_string()).unwrap();
    assert_eq!(reader.position, 0);
}
