use vstd::prelude::*;

use crate::encode::{
    encoded_field, encoded_prefix, encoded_row, quote_escaped, requires_quotes, sole_empty,
    special_byte,
};
use crate::grammar::{
    lemma_run_append, parse_csv, scan_init, scan_run, scan_step, ParseOutcome, ScanMode,
    ScanState, COMMA, CR, LF, QUOTE,
};
use crate::reader::{fetch_step, RowOutcome};

verus! {

/// A scanner state at the start of a line with nothing pending: the state the
/// scanner is in before any input and again after every complete record.
pub open spec fn clean_start(st: ScanState) -> bool {
    &&& st.mode is StartRecord
    &&& st.fields == Seq::<Seq<u8>>::empty()
    &&& st.cur == Seq::<u8>::empty()
}

/// The scanner state after reading one serialized field from a field start:
/// just past the closing quote of a quoted field, unmoved on an empty plain
/// field, inside the field text otherwise.
spec fn after_field(st: ScanState, f: Seq<u8>, force_quotes: bool) -> ScanState {
    if force_quotes || requires_quotes(f) {
        ScanState { cur: f, mode: ScanMode::QuoteInQuoted, ..st }
    } else if f.len() == 0 {
        st
    } else {
        ScanState { cur: f, mode: ScanMode::Unquoted, ..st }
    }
}

/// Running the scanner over a single byte is one step.
proof fn lemma_run_one(st: ScanState, b: u8)
    ensures
        scan_run(st, seq![b]) == scan_step(st, b),
{
    assert(seq![b][0] == b);
    assert(seq![b].drop_first() =~= Seq::<u8>::empty());
    assert(scan_run(st, seq![b]) == scan_run(scan_step(st, b), seq![b].drop_first()));
    assert(scan_run(scan_step(st, b), seq![b].drop_first()) == scan_step(st, b));
}

/// Running the scanner over two bytes is two steps.
proof fn lemma_run_two(st: ScanState, a: u8, b: u8)
    ensures
        scan_run(st, seq![a, b]) == scan_step(scan_step(st, a), b),
{
    assert(seq![a, b][0] == a);
    assert(seq![a, b].drop_first() =~= seq![b]);
    assert(scan_run(st, seq![a, b]) == scan_run(scan_step(st, a), seq![a, b].drop_first()));
    lemma_run_one(scan_step(st, a), b);
}

/// Escaped field text never moves the scanner out of the quoted mode: it
/// only extends the pending field by the original bytes.
proof fn lemma_run_escaped(st: ScanState, f: Seq<u8>)
    requires
        st.mode is Quoted,
    ensures
        scan_run(st, quote_escaped(f)) == (ScanState { cur: st.cur + f, ..st }),
    decreases f.len(),
{
    if f.len() == 0 {
        assert(st.cur + f =~= st.cur);
        assert(scan_run(st, quote_escaped(f)) =~~= ScanState { cur: st.cur + f, ..st });
    } else if f[0] == QUOTE {
        let rest = quote_escaped(f.drop_first());
        lemma_run_append(st, seq![QUOTE, QUOTE], rest);
        let st1 = scan_step(st, QUOTE);
        let st2 = scan_step(st1, QUOTE);
        lemma_run_two(st, QUOTE, QUOTE);
        lemma_run_escaped(st2, f.drop_first());
        assert(st.cur.push(QUOTE) + f.drop_first() =~= st.cur + f);
        assert(scan_run(st, quote_escaped(f)) =~~= ScanState { cur: st.cur + f, ..st });
    } else {
        let rest = quote_escaped(f.drop_first());
        lemma_run_append(st, seq![f[0]], rest);
        let st1 = scan_step(st, f[0]);
        lemma_run_one(st, f[0]);
        lemma_run_escaped(st1, f.drop_first());
        assert(st.cur.push(f[0]) + f.drop_first() =~= st.cur + f);
        assert(scan_run(st, quote_escaped(f)) =~~= ScanState { cur: st.cur + f, ..st });
    }
}

/// A field free of special bytes drops out of `requires_quotes` one byte at
/// a time.
proof fn lemma_not_special_drop(f: Seq<u8>)
    requires
        f.len() > 0,
        !requires_quotes(f),
    ensures
        !requires_quotes(f.drop_first()),
{
    if requires_quotes(f.drop_first()) {
        let i = choose|i: int|
            0 <= i < f.drop_first().len() && special_byte(
                #[trigger] f.drop_first()[i],
            );
        assert(f.drop_first()[i] == f[i + 1]);
        assert(special_byte(f[i + 1]));
        assert(requires_quotes(f));
    }
}

/// Plain field text keeps the scanner in the unquoted mode and extends the
/// pending field by exactly those bytes.
proof fn lemma_run_plain(st: ScanState, f: Seq<u8>)
    requires
        st.mode is Unquoted,
        !requires_quotes(f),
    ensures
        scan_run(st, f) == (ScanState { cur: st.cur + f, ..st }),
    decreases f.len(),
{
    if f.len() == 0 {
        assert(st.cur + f =~= st.cur);
        assert(scan_run(st, f) =~~= ScanState { cur: st.cur + f, ..st });
    } else {
        if special_byte(f[0]) {
            assert(requires_quotes(f));
        }
        let st1 = scan_step(st, f[0]);
        lemma_not_special_drop(f);
        lemma_run_plain(st1, f.drop_first());
        assert(st.cur.push(f[0]) + f.drop_first() =~= st.cur + f);
        assert(scan_run(st, f) =~~= ScanState { cur: st.cur + f, ..st });
    }
}

/// Running the scanner over one serialized field, from the start of a field,
/// lands exactly in [`after_field`].
proof fn lemma_run_encoded_field(st: ScanState, f: Seq<u8>, force_quotes: bool)
    requires
        st.cur == Seq::<u8>::empty(),
        st.mode is StartField || st.mode is StartRecord,
    ensures
        scan_run(st, encoded_field(f, force_quotes)) == after_field(st, f, force_quotes),
{
    if force_quotes || requires_quotes(f) {
        let e = quote_escaped(f);
        lemma_run_append(st, seq![QUOTE] + e, seq![QUOTE]);
        lemma_run_append(st, seq![QUOTE], e);
        let st1 = scan_step(st, QUOTE);
        lemma_run_one(st, QUOTE);
        lemma_run_escaped(st1, f);
        let st2 = scan_run(st1, e);
        assert(st2.cur =~= f);
        let st3 = scan_step(st2, QUOTE);
        lemma_run_one(st2, QUOTE);
        assert(scan_run(st, encoded_field(f, force_quotes)) =~~= after_field(st, f, force_quotes));
    } else if f.len() == 0 {
        assert(encoded_field(f, force_quotes) == f);
        assert(scan_run(st, f) == st);
    } else {
        if special_byte(f[0]) {
            assert(requires_quotes(f));
        }
        let st1 = scan_step(st, f[0]);
        assert(st1.cur =~= seq![f[0]]);
        lemma_not_special_drop(f);
        lemma_run_plain(st1, f.drop_first());
        assert(seq![f[0]] + f.drop_first() =~= f);
        assert(scan_run(st, encoded_field(f, force_quotes)) =~~= after_field(st, f, force_quotes));
    }
}

/// The state a record's first `k` fields should leave the scanner in: the
/// earlier fields done, the `k`-th pending as [`after_field`] says.
spec fn prefix_base(st: ScanState, fields: Seq<Seq<u8>>, k: int) -> ScanState {
    ScanState {
        records: st.records,
        fields: fields.take(k - 1),
        cur: Seq::<u8>::empty(),
        mode: if k == 1 {
            ScanMode::StartRecord
        } else {
            ScanMode::StartField
        },
    }
}

/// Whether the `k`-th serialized field of a record is force-quoted: only a
/// record of exactly one empty field is.
spec fn force_at(fields: Seq<Seq<u8>>, k: int) -> bool {
    k == 1 && sole_empty(fields)
}

/// A delimiter closes the pending field, whatever shape it took.
proof fn lemma_comma_after_field(st: ScanState, f: Seq<u8>, force_quotes: bool)
    requires
        st.cur == Seq::<u8>::empty(),
        st.mode is StartField || st.mode is StartRecord,
    ensures
        scan_step(after_field(st, f, force_quotes), COMMA) == (ScanState {
            fields: st.fields.push(f),
            cur: Seq::<u8>::empty(),
            mode: ScanMode::StartField,
            ..st
        }),
{
    assert(scan_step(after_field(st, f, force_quotes), COMMA) =~~= ScanState {
        fields: st.fields.push(f),
        cur: Seq::<u8>::empty(),
        mode: ScanMode::StartField,
        ..st
    });
}

/// A terminator closes the pending field and the record, except from the
/// untouched start of a record, which a terminator leaves as a blank line.
proof fn lemma_cr_after_field(st: ScanState, f: Seq<u8>, force_quotes: bool)
    requires
        st.cur == Seq::<u8>::empty(),
        st.mode is StartField || (st.mode is StartRecord && (force_quotes || f.len() > 0)),
    ensures
        scan_step(after_field(st, f, force_quotes), CR) == (ScanState {
            records: st.records.push(st.fields.push(f)),
            fields: Seq::<Seq<u8>>::empty(),
            cur: Seq::<u8>::empty(),
            mode: ScanMode::StartRecord,
        }),
{
    assert(scan_step(after_field(st, f, force_quotes), CR) =~~= ScanState {
        records: st.records.push(st.fields.push(f)),
        fields: Seq::<Seq<u8>>::empty(),
        cur: Seq::<u8>::empty(),
        mode: ScanMode::StartRecord,
    });
}

/// Running the scanner over the first `k` serialized fields of a record
/// leaves the earlier fields done and the `k`-th pending.
proof fn lemma_run_encoded_prefix(st: ScanState, fields: Seq<Seq<u8>>, k: int)
    requires
        clean_start(st),
        1 <= k <= fields.len(),
    ensures
        scan_run(st, encoded_prefix(fields, k)) == after_field(
            prefix_base(st, fields, k),
            fields[k - 1],
            force_at(fields, k),
        ),
    decreases k,
{
    if k == 1 {
        assert(fields.take(0) =~= Seq::<Seq<u8>>::empty());
        assert(prefix_base(st, fields, 1) =~~= st);
        lemma_run_encoded_field(st, fields[0], sole_empty(fields));
    } else {
        lemma_run_encoded_prefix(st, fields, k - 1);
        let a = encoded_prefix(fields, k - 1);
        let e = encoded_field(fields[k - 1], false);
        lemma_run_append(st, a + seq![COMMA], e);
        lemma_run_append(st, a, seq![COMMA]);
        let base = prefix_base(st, fields, k - 1);
        lemma_comma_after_field(base, fields[k - 2], force_at(fields, k - 1));
        let st1 = scan_run(st, a);
        let st2 = scan_step(st1, COMMA);
        lemma_run_one(st1, COMMA);
        assert(fields.take(k - 2).push(fields[k - 2]) =~= fields.take(k - 1));
        assert(st2 =~~= prefix_base(st, fields, k));
        lemma_run_encoded_field(st2, fields[k - 1], false);
    }
}

/// Running the scanner over one whole serialized record, from a clean start,
/// appends exactly that record and comes back to a clean start.
pub proof fn lemma_run_encoded_row(st: ScanState, fields: Seq<Seq<u8>>)
    requires
        clean_start(st),
        fields.len() >= 1,
    ensures
        scan_run(st, encoded_row(fields)) == (ScanState {
            records: st.records.push(fields),
            fields: Seq::<Seq<u8>>::empty(),
            cur: Seq::<u8>::empty(),
            mode: ScanMode::StartRecord,
        }),
{
    let k = fields.len() as int;
    lemma_run_encoded_prefix(st, fields, k);
    let a = encoded_prefix(fields, k);
    lemma_run_append(st, a, seq![CR, LF]);
    let base = prefix_base(st, fields, k);
    if k == 1 && fields[0].len() == 0 {
        assert(sole_empty(fields));
    }
    lemma_cr_after_field(base, fields[k - 1], force_at(fields, k));
    let st1 = scan_run(st, a);
    let st2 = scan_step(st1, CR);
    let st3 = scan_step(st2, LF);
    lemma_run_two(st1, CR, LF);
    assert(fields.take(k - 1).push(fields[k - 1]) =~= fields);
    assert(scan_run(st, encoded_row(fields)) =~~= ScanState {
        records: st.records.push(fields),
        fields: Seq::<Seq<u8>>::empty(),
        cur: Seq::<u8>::empty(),
        mode: ScanMode::StartRecord,
    });
}

/// Round trip for one record: a serialized record read back through the
/// parser is exactly the original field sequence, with nothing malformed.
pub proof fn lemma_round_trip(fields: Seq<Seq<u8>>)
    requires
        fields.len() >= 1,
    ensures
        parse_csv(encoded_row(fields)) == (ParseOutcome {
            records: seq![fields],
            malformed: false,
        }),
{
    lemma_run_encoded_row(scan_init(), fields);
    assert(Seq::<Seq<Seq<u8>>>::empty().push(fields) =~= seq![fields]);
    assert(parse_csv(encoded_row(fields)) =~~= ParseOutcome {
        records: seq![fields],
        malformed: false,
    });
}

/// A whole file of serialized records, in order.
pub open spec fn encoded_rows(rows: Seq<Seq<Seq<u8>>>) -> Seq<u8>
    decreases rows.len(),
{
    if rows.len() == 0 {
        seq![]
    } else {
        encoded_rows(rows.drop_last()) + encoded_row(rows.last())
    }
}

/// Every row has at least one field, which is what the writer accepts.
pub open spec fn rows_wellformed(rows: Seq<Seq<Seq<u8>>>) -> bool {
    forall|i: int| 0 <= i < rows.len() ==> #[trigger] rows[i].len() >= 1
}

proof fn lemma_run_encoded_rows(st: ScanState, rows: Seq<Seq<Seq<u8>>>)
    requires
        clean_start(st),
        rows_wellformed(rows),
    ensures
        scan_run(st, encoded_rows(rows)) == (ScanState {
            records: st.records + rows,
            fields: Seq::<Seq<u8>>::empty(),
            cur: Seq::<u8>::empty(),
            mode: ScanMode::StartRecord,
        }),
    decreases rows.len(),
{
    if rows.len() == 0 {
        assert(st.records + rows =~= st.records);
        assert(scan_run(st, encoded_rows(rows)) =~~= ScanState {
            records: st.records + rows,
            fields: Seq::<Seq<u8>>::empty(),
            cur: Seq::<u8>::empty(),
            mode: ScanMode::StartRecord,
        });
    } else {
        lemma_run_encoded_rows(st, rows.drop_last());
        lemma_run_append(st, encoded_rows(rows.drop_last()), encoded_row(rows.last()));
        let st1 = scan_run(st, encoded_rows(rows.drop_last()));
        lemma_run_encoded_row(st1, rows.last());
        assert((st.records + rows.drop_last()).push(rows.last()) =~= st.records + rows);
        assert(scan_run(st, encoded_rows(rows)) =~~= ScanState {
            records: st.records + rows,
            fields: Seq::<Seq<u8>>::empty(),
            cur: Seq::<u8>::empty(),
            mode: ScanMode::StartRecord,
        });
    }
}

/// Append-only round trip: a file built by appending serialized records, in
/// any number, reads back as exactly those records in write order. In
/// particular a record appended to an existing well-formed file leaves every
/// earlier record untouched.
pub proof fn lemma_appended_rows_round_trip(rows: Seq<Seq<Seq<u8>>>)
    requires
        rows_wellformed(rows),
    ensures
        parse_csv(encoded_rows(rows)) == (ParseOutcome { records: rows, malformed: false }),
{
    lemma_run_encoded_rows(scan_init(), rows);
    assert(Seq::<Seq<Seq<u8>>>::empty() + rows =~= rows);
    assert(parse_csv(encoded_rows(rows)) =~~= ParseOutcome { records: rows, malformed: false });
}

/// The reader's cursor after a number of fetches from the start of the same
/// parsed content.
pub open spec fn cursor_after(p: ParseOutcome, calls: nat) -> nat
    decreases calls,
{
    if calls == 0 {
        0
    } else {
        fetch_step(p, cursor_after(p, (calls - 1) as nat)).cursor
    }
}

/// In-order delivery: fetching from record index zero, the call made after
/// `k` earlier calls finds the cursor at `k` and delivers record `k`, for
/// every `k` within the well-formed records.
pub proof fn lemma_fetch_in_order(p: ParseOutcome, k: nat)
    requires
        k < p.records.len(),
    ensures
        cursor_after(p, k) == k,
        fetch_step(p, k).outcome == RowOutcome::Row(p.records[k as int]),
        fetch_step(p, k).cursor == k + 1,
    decreases k,
{
    if k > 0 {
        lemma_fetch_in_order(p, (k - 1) as nat);
    }
}

/// Idempotent terminal state: once every record of well-formed content has
/// been delivered, each further fetch reports the end of the data and leaves
/// the cursor where it was.
pub proof fn lemma_fetch_exhausted(p: ParseOutcome, calls: nat)
    requires
        !p.malformed,
        calls >= p.records.len(),
    ensures
        cursor_after(p, calls) == p.records.len(),
        fetch_step(p, cursor_after(p, calls)).outcome is End,
        fetch_step(p, cursor_after(p, calls)).cursor == cursor_after(p, calls),
    decreases calls,
{
    if calls == 0 {
    } else if calls == p.records.len() {
        lemma_fetch_in_order(p, (calls - 1) as nat);
    } else {
        lemma_fetch_exhausted(p, (calls - 1) as nat);
    }
}

} // verus!
