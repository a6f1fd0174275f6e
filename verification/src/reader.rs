use vstd::prelude::*;

use crate::errors::CsvError;
use crate::grammar::{lemma_parse_records_nonempty, parse_csv, ParseOutcome};
use crate::parser::{fields_of, parse_buffer, records_of};
use crate::path_check::{path_ok, validate_path};

verus! {

/// What one fetch yields, at the level of the model: a record, the end of
/// the data, or the index of a malformed record.
pub enum RowOutcome {
    Row(Seq<Seq<u8>>),
    End,
    Malformed(nat),
}

/// What one fetch does to the cursor, at the level of the model.
pub struct FetchStep {
    pub outcome: RowOutcome,
    pub cursor: nat,
}

/// The reader's whole per-call behaviour on a readable buffer: with cursor
/// `c` over parsed content `p`, a fetch delivers record `c` and advances the
/// cursor by exactly one; past the last record it reports the malformed
/// record if the buffer ends in one, else the end of the data, and either way
/// leaves the cursor unchanged.
pub open spec fn fetch_step(p: ParseOutcome, c: nat) -> FetchStep {
    if c < p.records.len() {
        FetchStep { outcome: RowOutcome::Row(p.records[c as int]), cursor: (c + 1) as nat }
    } else if p.malformed {
        FetchStep { outcome: RowOutcome::Malformed(p.records.len()), cursor: c }
    } else {
        FetchStep { outcome: RowOutcome::End, cursor: c }
    }
}

/// A position-tracked CSV reader.
///
/// It holds a validated path and the count of records already delivered; the
/// host opens and reads the backing file for each call and hands the whole
/// buffer (or the failure) to [`Reader::read_row`]. Hosts that fetch
/// concurrently serialize whole calls through one lock per instance, so the
/// cursor moves atomically per delivered row.
pub struct Reader {
    /// The backing file's path, validated at construction, never changed.
    pub path: String,
    /// How many records this instance has already delivered.
    pub position: usize,
}

impl Reader {
    /// Open a CSV file for reading: validate the path and set the cursor to
    /// the first record. No file access happens here.
    pub fn new(path: String) -> (r: Result<Reader, CsvError>)
        ensures
            path_ok(path@) ==> (r matches Ok(rd) && rd.path@ == path@ && rd.position == 0),
            !path_ok(path@) ==> r == Err::<Reader, CsvError>(CsvError::InvalidArgument),
    {
        match validate_path(path.as_str()) {
            Ok(()) => Ok(Reader { path: path, position: 0 }),
            Err(e) => Err(e),
        }
    }

    /// Read the next row from the CSV file, whose freshly read contents (or
    /// the failure that reading it met) the host passes in.
    ///
    /// On a readable buffer the call behaves exactly as [`fetch_step`] says
    /// of the parsed records and the current cursor: the delivered record
    /// (never empty) with the cursor advanced by one, or an empty row
    /// meaning end of data, or `ParseError` with the offending index, the
    /// cursor unchanged in both of the latter cases. On an unreadable file
    /// the call fails with `IOError` carrying the path and the cause, and
    /// the cursor keeps its prior value.
    pub fn read_row(&mut self, contents: Result<Vec<u8>, String>) -> (r: Result<
        Vec<Vec<u8>>,
        CsvError,
    >)
        ensures
            final(self).path == old(self).path,
            contents matches Err(cause) ==> {
                &&& final(self).position == old(self).position
                &&& r matches Err(e) && (e matches CsvError::IoError { path, cause: c } && path@
                    == old(self).path@ && c@ == cause@)
            },
            contents matches Ok(buf) ==> {
                let step = fetch_step(parse_csv(buf@), old(self).position as nat);
                &&& final(self).position == step.cursor
                &&& (step.outcome matches RowOutcome::Row(rec) ==> r matches Ok(row)
                    && fields_of(row) == rec && row@.len() >= 1)
                &&& (step.outcome matches RowOutcome::End ==> r matches Ok(row) && row@.len() == 0)
                &&& (step.outcome matches RowOutcome::Malformed(ix) ==> r matches Err(e)
                    && (e matches CsvError::ParseError { index } && index as nat == ix))
            },
    {
        let buf = match contents {
            Ok(buf) => buf,
            Err(cause) => {
                return Err(CsvError::IoError { path: self.path.clone(), cause });
            },
        };
        let mut parsed = parse_buffer(&buf);
        proof {
            lemma_parse_records_nonempty(buf@);
        }
        if self.position < parsed.records.len() {
            let ghost c = self.position as int;
            proof {
                assert(records_of(parsed.records)[c] == fields_of(parsed.records@[c]));
            }
            let row = parsed.records.swap_remove(self.position);
            proof {
                assert(fields_of(row) == parse_csv(buf@).records[c]);
                assert(fields_of(row).len() == row@.len());
            }
            self.position = self.position + 1;
            Ok(row)
        } else if parsed.malformed {
            Err(CsvError::ParseError { index: parsed.records.len() })
        } else {
            Ok(Vec::new())
        }
    }
}

} // verus!
