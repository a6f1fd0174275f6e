use vstd::prelude::*;

use crate::encode::{encode_record, encoded_row};
use crate::errors::CsvError;
use crate::parser::fields_of;
use crate::path_check::{path_ok, validate_path};

verus! {

/// An appending CSV writer.
///
/// It holds a validated path and serializes one record at a time; the host
/// owns the append-mode file handle (opened lazily on the first write and
/// reused), writes the returned bytes to it and flushes before reporting the
/// call complete. Hosts that append concurrently serialize whole calls
/// through one lock per instance, so records land on disk whole and in lock
/// order.
pub struct Writer {
    /// The backing file's path, validated at construction, never changed.
    pub path: String,
}

impl Writer {
    /// Create a CSV writer: validate the path. No file is opened here.
    pub fn new(path: String) -> (r: Result<Writer, CsvError>)
        ensures
            path_ok(path@) ==> (r matches Ok(w) && w.path@ == path@),
            !path_ok(path@) ==> r == Err::<Writer, CsvError>(CsvError::InvalidArgument),
    {
        match validate_path(path.as_str()) {
            Ok(()) => Ok(Writer { path: path }),
            Err(e) => Err(e),
        }
    }

    /// Serialize one row as a complete RFC 4180 record, the bytes the host
    /// appends to the backing file.
    pub fn encode_row(&self, fields: &Vec<Vec<u8>>) -> (out: Vec<u8>)
        requires
            fields@.len() >= 1,
        ensures
            out@ == encoded_row(fields_of(*fields)),
    {
        encode_record(fields)
    }
}

} // verus!
