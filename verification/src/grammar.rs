use vstd::prelude::*;

verus! {

/// The CSV delimiter: `,`.
pub const COMMA: u8 = 44;
/// The CSV quote character: `"`.
pub const QUOTE: u8 = 34;
/// Carriage return, half of the standard CRLF record terminator.
pub const CR: u8 = 13;
/// Line feed; accepted on its own as a record terminator too.
pub const LF: u8 = 10;

/// Where the scanner stands between two input bytes.
///
/// Scanning is byte-exact: multi-byte UTF-8 sequences never contain the ASCII
/// bytes the grammar cares about, so running over the bytes of valid UTF-8
/// text splits it only at delimiters, quotes and terminators.
pub enum ScanMode {
    /// At the start of a line, before any field of the record.
    StartRecord,
    /// Just after a delimiter, at the start of a further field.
    StartField,
    /// Inside an unquoted field.
    Unquoted,
    /// Inside a quoted field, after the opening quote.
    Quoted,
    /// Inside a quoted field, just after a quote character that either closes
    /// the field or is the first half of a doubled (escaped) quote.
    QuoteInQuoted,
    /// Malformed input was hit; the records gathered so far stay fixed.
    Failed,
}

/// The scanner's whole state: finished records, the fields of the record
/// being read, the bytes of the field being read, and the mode.
#[verifier::ext_equal]
pub struct ScanState {
    pub records: Seq<Seq<Seq<u8>>>,
    pub fields: Seq<Seq<u8>>,
    pub cur: Seq<u8>,
    pub mode: ScanMode,
}

/// The scanner's state before any input.
pub open spec fn scan_init() -> ScanState {
    ScanState { records: seq![], fields: seq![], cur: seq![], mode: ScanMode::StartRecord }
}

/// One transition of the scanner on one input byte.
///
/// The grammar is headerless RFC 4180: fields are separated by commas,
/// records by CRLF (a lone LF or lone CR is accepted as well), a quoted field
/// may contain delimiters, terminators and doubled quotes, and a wholly empty
/// line yields no record. A quote inside an unquoted field, or anything but a
/// delimiter, terminator or second quote after a closing quote, is malformed.
pub open spec fn scan_step(st: ScanState, b: u8) -> ScanState {
    match st.mode {
        ScanMode::StartRecord => {
            if b == CR || b == LF {
                st
            } else if b == COMMA {
                ScanState { fields: st.fields.push(seq![]), cur: seq![], mode: ScanMode::StartField, ..st }
            } else if b == QUOTE {
                ScanState { cur: seq![], mode: ScanMode::Quoted, ..st }
            } else {
                ScanState { cur: seq![b], mode: ScanMode::Unquoted, ..st }
            }
        },
        ScanMode::StartField => {
            if b == CR || b == LF {
                ScanState {
                    records: st.records.push(st.fields.push(seq![])),
                    fields: seq![],
                    cur: seq![],
                    mode: ScanMode::StartRecord,
                }
            } else if b == COMMA {
                ScanState { fields: st.fields.push(seq![]), cur: seq![], mode: ScanMode::StartField, ..st }
            } else if b == QUOTE {
                ScanState { cur: seq![], mode: ScanMode::Quoted, ..st }
            } else {
                ScanState { cur: seq![b], mode: ScanMode::Unquoted, ..st }
            }
        },
        ScanMode::Unquoted => {
            if b == CR || b == LF {
                ScanState {
                    records: st.records.push(st.fields.push(st.cur)),
                    fields: seq![],
                    cur: seq![],
                    mode: ScanMode::StartRecord,
                }
            } else if b == COMMA {
                ScanState { fields: st.fields.push(st.cur), cur: seq![], mode: ScanMode::StartField, ..st }
            } else if b == QUOTE {
                ScanState { fields: seq![], cur: seq![], mode: ScanMode::Failed, ..st }
            } else {
                ScanState { cur: st.cur.push(b), ..st }
            }
        },
        ScanMode::Quoted => {
            if b == QUOTE {
                ScanState { mode: ScanMode::QuoteInQuoted, ..st }
            } else {
                ScanState { cur: st.cur.push(b), ..st }
            }
        },
        ScanMode::QuoteInQuoted => {
            if b == QUOTE {
                ScanState { cur: st.cur.push(QUOTE), mode: ScanMode::Quoted, ..st }
            } else if b == COMMA {
                ScanState { fields: st.fields.push(st.cur), cur: seq![], mode: ScanMode::StartField, ..st }
            } else if b == CR || b == LF {
                ScanState {
                    records: st.records.push(st.fields.push(st.cur)),
                    fields: seq![],
                    cur: seq![],
                    mode: ScanMode::StartRecord,
                }
            } else {
                ScanState { fields: seq![], cur: seq![], mode: ScanMode::Failed, ..st }
            }
        },
        ScanMode::Failed => st,
    }
}

/// The scanner run over a whole byte sequence, one step per byte.
pub open spec fn scan_run(st: ScanState, s: Seq<u8>) -> ScanState
    decreases s.len(),
{
    if s.len() == 0 {
        st
    } else {
        scan_run(scan_step(st, s[0]), s.drop_first())
    }
}

/// What parsing a whole buffer yields: the records read, and whether the
/// input ended in (or at) malformed content. When `malformed` holds, the
/// offending record's index is `records.len()`: everything before it was
/// read intact.
#[verifier::ext_equal]
pub struct ParseOutcome {
    pub records: Seq<Seq<Seq<u8>>>,
    pub malformed: bool,
}

/// Close out the scanner at end of input: a record still in progress is
/// finished (the final record needs no terminator), while an unclosed quoted
/// field is malformed.
pub open spec fn scan_finish(st: ScanState) -> ParseOutcome {
    match st.mode {
        ScanMode::StartRecord => ParseOutcome { records: st.records, malformed: false },
        ScanMode::StartField => ParseOutcome {
            records: st.records.push(st.fields.push(seq![])),
            malformed: false,
        },
        ScanMode::Unquoted => ParseOutcome {
            records: st.records.push(st.fields.push(st.cur)),
            malformed: false,
        },
        ScanMode::Quoted => ParseOutcome { records: st.records, malformed: true },
        ScanMode::QuoteInQuoted => ParseOutcome {
            records: st.records.push(st.fields.push(st.cur)),
            malformed: false,
        },
        ScanMode::Failed => ParseOutcome { records: st.records, malformed: true },
    }
}

/// The meaning of a CSV buffer: the records it holds, in order, and whether
/// it ends in malformed content.
pub open spec fn parse_csv(s: Seq<u8>) -> ParseOutcome {
    scan_finish(scan_run(scan_init(), s))
}

/// Running the scanner over concatenated input is running it over each part
/// in turn.
pub proof fn lemma_run_append(st: ScanState, a: Seq<u8>, b: Seq<u8>)
    ensures
        scan_run(st, a + b) == scan_run(scan_run(st, a), b),
    decreases a.len(),
{
    if a.len() == 0 {
        assert(a + b =~= b);
    } else {
        assert((a + b).drop_first() =~= a.drop_first() + b);
        lemma_run_append(scan_step(st, a[0]), a.drop_first(), b);
    }
}

/// Extending the input by one byte applies one more step.
pub proof fn lemma_run_snoc(st: ScanState, s: Seq<u8>, b: u8)
    ensures
        scan_run(st, s.push(b)) == scan_step(scan_run(st, s), b),
{
    assert(s.push(b) =~= s + seq![b]);
    lemma_run_append(st, s, seq![b]);
    let mid = scan_run(st, s);
    assert(seq![b].drop_first() =~= Seq::<u8>::empty());
    assert(scan_run(scan_step(mid, b), Seq::<u8>::empty()) == scan_step(mid, b));
}

/// Every record a scan gathers has at least one field, whatever the input:
/// only a non-empty field list is ever pushed, so an empty delivered record
/// can come from nothing the parser produces.
pub open spec fn records_nonempty(rs: Seq<Seq<Seq<u8>>>) -> bool {
    forall|i: int| 0 <= i < rs.len() ==> #[trigger] rs[i].len() >= 1
}

proof fn lemma_step_keeps_nonempty(st: ScanState, b: u8)
    requires
        records_nonempty(st.records),
    ensures
        records_nonempty(scan_step(st, b).records),
{
}

proof fn lemma_run_keeps_nonempty(st: ScanState, s: Seq<u8>)
    requires
        records_nonempty(st.records),
    ensures
        records_nonempty(scan_run(st, s).records),
    decreases s.len(),
{
    if s.len() > 0 {
        lemma_step_keeps_nonempty(st, s[0]);
        lemma_run_keeps_nonempty(scan_step(st, s[0]), s.drop_first());
    }
}

/// No parse of any buffer yields a record without fields.
pub proof fn lemma_parse_records_nonempty(s: Seq<u8>)
    ensures
        records_nonempty(parse_csv(s).records),
{
    lemma_run_keeps_nonempty(scan_init(), s);
}

} // verus!
