use rapcsv::{CsvError, Reader, Writer};

fn row(fields: &[&str]) -> Vec<Vec<u8>> {
    fields.iter().map(|f| f.as_bytes().to_vec()).collect()
}

#[test]
fn writer_rejects_empty_path() {
    let w = Writer::new(String::new());
    assert_eq!(w.err(), Some(CsvError::InvalidArgument));
}

#[test]
fn writer_rejects_null_byte_in_path() {
    let w = Writer::new("out\0.csv".to_string());
    assert_eq!(w.err(), Some(CsvError::InvalidArgument));
}

#[test]
fn plain_fields_stay_unquoted() {
    let writer = Writer::new("out.csv".to_string()).unwrap();
    let out = writer.encode_row(&row(&["a", "b"]));
    assert_eq!(out, b"a,b\r\n".to_vec());
}

#[test]
fn special_fields_are_quoted_and_escaped() {
    let writer = Writer::new("out.csv".to_string()).unwrap();
    let out = writer.encode_row(&row(&["a", "b,c", "d\"e"]));
    assert_eq!(out, b"a,\"b,c\",\"d\"\"e\"\r\n".to_vec());
}

#[test]
fn round_trip_reproduces_fields() {
    let fields = row(&["a", "b,c", "d\"e"]);
    let writer = Writer::new("out.csv".to_string()).unwrap();
    let encoded = writer.encode_row(&fields);
    let mut reader = Reader::new("out.csv".to_string()).unwrap();
    assert_eq!(reader.read_row(Ok(encoded.clone())).unwrap(), fields);
    assert_eq!(reader.read_row(Ok(encoded)).unwrap(), Vec::<Vec<u8>>::new());
}

#[test]
fn delimiter_and_doubled_quote_round_trip() {
    // one field with an embedded delimiter, one with doubled quote characters
    let fields = row(&["x,y", "say \"\"hi\"\""]);
    let writer = Writer::new("out.csv".to_string()).unwrap();
    let encoded = writer.encode_row(&fields);
    assert_eq!(
        encoded,
        b"\"x,y\",\"say \"\"\"\"hi\"\"\"\"\"\r\n".to_vec()
    );
    let mut reader = Reader::new("out.csv".to_string()).unwrap();
    assert_eq!(reader.read_row(Ok(encoded)).unwrap(), fields);
}

#[test]
fn newline_in_field_round_trips() {
    let fields = row(&["line one\nline two", "b"]);
    let writer = Writer::new("out.csv".to_string()).unwrap();
    let encoded = writer.encode_row(&fields);
    assert_eq!(encoded, b"\"line one\nline two\",b\r\n".to_vec());
    let mut reader = Reader::new("out.csv".to_string()).unwrap();
    assert_eq!(reader.read_row(Ok(encoded)).unwrap(), fields);
}

#[test]
fn sole_empty_field_is_quoted_not_blank() {
    let writer = Writer::new("out.csv".to_string()).unwrap();
    let encoded = writer.encode_row(&row(&[""]));
    assert_eq!(encoded, b"\"\"\r\n".to_vec());
    let mut reader = Reader::new("out.csv".to_string()).unwrap();
    assert_eq!(reader.read_row(Ok(encoded)).unwrap(), row(&[""]));
}

#[test]
fn two_empty_fields_round_trip() {
    let writer = Writer::new("out.csv".to_string()).unwrap();
    let encoded = writer.encode_row(&row(&["", ""]));
    assert_eq!(encoded, b",\r\n".to_vec());
    let mut reader = Reader::new("out.csv".to_string()).unwrap();
    assert_eq!(reader.read_row(Ok(encoded)).unwrap(), row(&["", ""]));
}

#[test]
fn appended_record_leaves_the_first_intact() {
    // the bytes of two append calls, one after the other, read back as the
    // first record followed by the second
    let writer = Writer::new("out.csv".to_string()).unwrap();
    let first = row(&["a", "b"]);
    let second = row(&["c", "d,e"]);
    let mut file = writer.encode_row(&first);
    file.extend_from_slice(&writer.encode_row(&second));
    let mut reader = Reader::new("out.csv".to_string()).unwrap();
    assert_eq!(reader.read_row(Ok(file.clone())).unwrap(), first);
    assert_eq!(reader.read_row(Ok(file.clone())).unwrap(), second);
    assert_eq!(reader.read_row(Ok(file)).unwrap(), Vec::<Vec<u8>>::new());
}

#[test]
fn reader_output_pipes_back_through_writer() {
    // reading a file and appending each record reproduces the records
    let source = b"p,q\r\n\"r,s\",t\r\n".to_vec();
    let mut reader = Reader::new("in.csv".to_string()).unwrap();
    let writer = Writer::new("out.csv".to_string()).unwrap();
    let mut copied: Vec<u8> = Vec::new();
    loop {
        let record = reader.read_row(Ok(source.clone())).unwrap();
        if record.is_empty() {
            break;
        }
        copied.extend_from_slice(&writer.encode_row(&record));
    }
    let mut check = Reader::new("out.csv".to_string()).unwrap();
    assert_eq!(check.read_row(Ok(copied.clone())).unwrap(), row(&["p", "q"]));
    assert_eq!(check.read_row(Ok(copied)).unwrap(), row(&["r,s", "t"]));
}
