use vstd::prelude::*;

verus! {

/// The failures a reader or writer operation can surface.
///
/// End-of-data is not an error: the reader reports it as an empty record
/// list, so hosts can tell "done" from "failed" without inspecting content.
#[derive(Debug, PartialEq, Eq)]
pub enum CsvError {
    /// The path handed to a constructor was empty or contained a null
    /// character. Detected at construction, never during fetch or append.
    InvalidArgument,
    /// Opening, reading, writing or flushing the backing file failed; carries
    /// the path involved and the underlying cause as reported by the host.
    IoError { path: String, cause: String },
    /// Malformed CSV was hit while scanning for the next record; carries the
    /// index of the offending record.
    ParseError { index: usize },
}

} // verus!
