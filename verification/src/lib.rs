//! Streaming, row-oriented access to CSV-formatted data.
//!
//! A [`Reader`] parses a text buffer as headerless CSV and serves one record
//! per call, remembering how many records it has already delivered. A
//! [`Writer`] serializes one record at a time into RFC 4180 text suitable for
//! appending to a file. Both are constructed from a validated path; the file
//! system itself is driven by the host program, which hands buffers in and
//! takes encoded bytes out.

pub mod encode;
pub mod errors;
pub mod grammar;
pub mod laws;
pub mod parser;
pub mod path_check;
pub mod reader;
pub mod writer;

pub use errors::CsvError;
pub use path_check::{path_ok, validate_path};
pub use reader::Reader;
pub use writer::Writer;
