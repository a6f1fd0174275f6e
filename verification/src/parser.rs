use vstd::prelude::*;

use crate::grammar::{
    lemma_run_snoc, parse_csv, scan_init, scan_run, scan_step, ScanMode, COMMA, CR, LF, QUOTE,
};

verus! {

/// The field sequence a record vector stands for.
pub open spec fn fields_of(r: Vec<Vec<u8>>) -> Seq<Seq<u8>> {
    Seq::new(r@.len(), |i: int| r@[i]@)
}

/// The record sequence a record-list vector stands for.
pub open spec fn records_of(rs: Vec<Vec<Vec<u8>>>) -> Seq<Seq<Seq<u8>>> {
    Seq::new(rs@.len(), |i: int| fields_of(rs@[i]))
}

/// A parsed buffer: the records read, and whether the input ended in (or at)
/// malformed content. When `malformed` holds the offending record's index is
/// `records.len()`.
pub struct ParsedCsv {
    pub records: Vec<Vec<Vec<u8>>>,
    pub malformed: bool,
}

/// Parse a whole buffer as headerless RFC 4180 CSV, running the scanner of
/// [`crate::grammar`] byte by byte.
pub fn parse_buffer(s: &Vec<u8>) -> (out: ParsedCsv)
    ensures
        records_of(out.records) == parse_csv(s@).records,
        out.malformed == parse_csv(s@).malformed,
{
    let mut records: Vec<Vec<Vec<u8>>> = Vec::new();
    let mut fields: Vec<Vec<u8>> = Vec::new();
    let mut cur: Vec<u8> = Vec::new();
    let mut mode: ScanMode = ScanMode::StartRecord;
    let mut i: usize = 0;

    proof {
        assert(s@.take(0) =~= Seq::<u8>::empty());
        assert(records_of(records) =~~= scan_run(scan_init(), s@.take(0)).records);
        assert(fields_of(fields) =~~= scan_run(scan_init(), s@.take(0)).fields);
    }

    while i < s.len()
        invariant
            0 <= i <= s@.len(),
            records_of(records) == scan_run(scan_init(), s@.take(i as int)).records,
            fields_of(fields) == scan_run(scan_init(), s@.take(i as int)).fields,
            cur@ == scan_run(scan_init(), s@.take(i as int)).cur,
            mode == scan_run(scan_init(), s@.take(i as int)).mode,
        decreases s@.len() - i,
    {
        let ghost pre = scan_run(scan_init(), s@.take(i as int));
        let b = s[i];
        proof {
            assert(s@.take(i + 1) =~= s@.take(i as int).push(s@[i as int]));
            lemma_run_snoc(scan_init(), s@.take(i as int), s@[i as int]);
        }
        match mode {
            ScanMode::StartRecord => {
                if b == CR || b == LF {
                    // a blank line yields no record
                } else if b == COMMA {
                    fields.push(Vec::new());
                    cur = Vec::new();
                    mode = ScanMode::StartField;
                } else if b == QUOTE {
                    cur = Vec::new();
                    mode = ScanMode::Quoted;
                } else {
                    cur = Vec::new();
                    cur.push(b);
                    mode = ScanMode::Unquoted;
                }
            },
            ScanMode::StartField => {
                if b == CR || b == LF {
                    fields.push(Vec::new());
                    records.push(fields);
                    fields = Vec::new();
                    cur = Vec::new();
                    mode = ScanMode::StartRecord;
                } else if b == COMMA {
                    fields.push(Vec::new());
                    cur = Vec::new();
                } else if b == QUOTE {
                    cur = Vec::new();
                    mode = ScanMode::Quoted;
                } else {
                    cur = Vec::new();
                    cur.push(b);
                    mode = ScanMode::Unquoted;
                }
            },
            ScanMode::Unquoted => {
                if b == CR || b == LF {
                    fields.push(cur);
                    records.push(fields);
                    fields = Vec::new();
                    cur = Vec::new();
                    mode = ScanMode::StartRecord;
                } else if b == COMMA {
                    fields.push(cur);
                    cur = Vec::new();
                    mode = ScanMode::StartField;
                } else if b == QUOTE {
                    fields = Vec::new();
                    cur = Vec::new();
                    mode = ScanMode::Failed;
                } else {
                    cur.push(b);
                }
            },
            ScanMode::Quoted => {
                if b == QUOTE {
                    mode = ScanMode::QuoteInQuoted;
                } else {
                    cur.push(b);
                }
            },
            ScanMode::QuoteInQuoted => {
                if b == QUOTE {
                    cur.push(QUOTE);
                    mode = ScanMode::Quoted;
                } else if b == COMMA {
                    fields.push(cur);
                    cur = Vec::new();
                    mode = ScanMode::StartField;
                } else if b == CR || b == LF {
                    fields.push(cur);
                    records.push(fields);
                    fields = Vec::new();
                    cur = Vec::new();
                    mode = ScanMode::StartRecord;
                } else {
                    fields = Vec::new();
                    cur = Vec::new();
                    mode = ScanMode::Failed;
                }
            },
            ScanMode::Failed => {},
        }
        proof {
            let post = scan_step(pre, s@[i as int]);
            assert(records_of(records) =~~= post.records);
            assert(fields_of(fields) =~~= post.fields);
        }
        i = i + 1;
    }

    proof {
        assert(s@.take(s@.len() as int) =~= s@);
    }

    match mode {
        ScanMode::StartRecord => ParsedCsv { records: records, malformed: false },
        ScanMode::StartField => {
            fields.push(Vec::new());
            records.push(fields);
            proof {
                assert(records_of(records) =~~= parse_csv(s@).records);
            }
            ParsedCsv { records: records, malformed: false }
        },
        ScanMode::Unquoted => {
            fields.push(cur);
            records.push(fields);
            proof {
                assert(records_of(records) =~~= parse_csv(s@).records);
            }
            ParsedCsv { records: records, malformed: false }
        },
        ScanMode::Quoted => ParsedCsv { records: records, malformed: true },
        ScanMode::QuoteInQuoted => {
            fields.push(cur);
            records.push(fields);
            proof {
                assert(records_of(records) =~~= parse_csv(s@).records);
            }
            ParsedCsv { records: records, malformed: false }
        },
        ScanMode::Failed => ParsedCsv { records: records, malformed: true },
    }
}

} // verus!
