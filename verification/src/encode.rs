use vstd::prelude::*;

use crate::grammar::{COMMA, CR, LF, QUOTE};
use crate::parser::fields_of;

verus! {

/// The bytes that force a field to be quoted: delimiter, quote, terminator.
pub open spec fn special_byte(b: u8) -> bool {
    b == COMMA || b == QUOTE || b == CR || b == LF
}

/// A field must be quoted when it holds a delimiter, a quote character or a
/// line terminator.
pub open spec fn requires_quotes(f: Seq<u8>) -> bool {
    exists|i: int| 0 <= i < f.len() && special_byte(#[trigger] f[i])
}

/// A field's bytes with every quote character doubled.
pub open spec fn quote_escaped(f: Seq<u8>) -> Seq<u8>
    decreases f.len(),
{
    if f.len() == 0 {
        seq![]
    } else if f[0] == QUOTE {
        seq![QUOTE, QUOTE] + quote_escaped(f.drop_first())
    } else {
        seq![f[0]] + quote_escaped(f.drop_first())
    }
}

/// One serialized field: quoted with doubled quotes when it must be (or when
/// the caller forces it), plain otherwise.
pub open spec fn encoded_field(f: Seq<u8>, force_quotes: bool) -> Seq<u8> {
    if force_quotes || requires_quotes(f) {
        seq![QUOTE] + quote_escaped(f) + seq![QUOTE]
    } else {
        f
    }
}

/// A record of exactly one empty field is written as `""` rather than as a
/// blank line, which would read back as no record at all.
pub open spec fn sole_empty(fields: Seq<Seq<u8>>) -> bool {
    fields.len() == 1 && fields[0].len() == 0
}

/// The first `k` fields of a record, serialized and joined by delimiters.
pub open spec fn encoded_prefix(fields: Seq<Seq<u8>>, k: int) -> Seq<u8>
    decreases k,
{
    if k <= 0 {
        seq![]
    } else if k == 1 {
        encoded_field(fields[0], sole_empty(fields))
    } else {
        encoded_prefix(fields, k - 1) + seq![COMMA] + encoded_field(fields[k - 1], false)
    }
}

/// One whole serialized record: the fields joined by delimiters, closed by
/// the standard CRLF terminator.
pub open spec fn encoded_row(fields: Seq<Seq<u8>>) -> Seq<u8> {
    encoded_prefix(fields, fields.len() as int) + seq![CR, LF]
}

/// Escaping one more byte appends its escaped form.
proof fn lemma_escape_snoc(f: Seq<u8>, b: u8)
    ensures
        quote_escaped(f.push(b)) == quote_escaped(f) + (if b == QUOTE {
            seq![QUOTE, QUOTE]
        } else {
            seq![b]
        }),
    decreases f.len(),
{
    let tail: Seq<u8> = if b == QUOTE { seq![QUOTE, QUOTE] } else { seq![b] };
    if f.len() == 0 {
        let fb = f.push(b);
        assert(fb[0] == b);
        assert(fb.drop_first() =~= Seq::<u8>::empty());
        assert(quote_escaped(fb.drop_first()) =~= Seq::<u8>::empty());
        assert(quote_escaped(fb) =~= tail);
        assert(quote_escaped(f) + tail =~= tail);
    } else {
        assert(f.push(b).drop_first() =~= f.drop_first().push(b));
        lemma_escape_snoc(f.drop_first(), b);
        if f[0] == QUOTE {
            assert(quote_escaped(f.push(b)) =~= seq![QUOTE, QUOTE] + quote_escaped(
                f.drop_first(),
            ) + tail);
            assert(quote_escaped(f) + tail =~= seq![QUOTE, QUOTE] + quote_escaped(f.drop_first())
                + tail);
        } else {
            assert(quote_escaped(f.push(b)) =~= seq![f[0]] + quote_escaped(f.drop_first()) + tail);
            assert(quote_escaped(f) + tail =~= seq![f[0]] + quote_escaped(f.drop_first()) + tail);
        }
    }
}

/// Decide whether a field must be quoted.
fn field_requires_quotes(f: &Vec<u8>) -> (r: bool)
    ensures
        r == requires_quotes(f@),
{
    let mut j: usize = 0;
    while j < f.len()
        invariant
            0 <= j <= f@.len(),
            forall|t: int| 0 <= t < j ==> !special_byte(#[trigger] f@[t]),
        decreases f@.len() - j,
    {
        let b = f[j];
        if b == COMMA || b == QUOTE || b == CR || b == LF {
            proof {
                assert(special_byte(f@[j as int]));
            }
            return true;
        }
        j = j + 1;
    }
    false
}

/// Append one serialized field to the output.
fn push_encoded_field(out: &mut Vec<u8>, f: &Vec<u8>, force_quotes: bool)
    ensures
        final(out)@ == old(out)@ + encoded_field(f@, force_quotes),
{
    let quoted = if force_quotes {
        true
    } else {
        field_requires_quotes(f)
    };
    if quoted {
        let ghost start = out@;
        out.push(QUOTE);
        let mut j: usize = 0;
        proof {
            assert(f@.take(0) =~= Seq::<u8>::empty());
            assert(out@ =~= start + seq![QUOTE] + quote_escaped(f@.take(0)));
        }
        while j < f.len()
            invariant
                0 <= j <= f@.len(),
                out@ == start + seq![QUOTE] + quote_escaped(f@.take(j as int)),
            decreases f@.len() - j,
        {
            let b = f[j];
            if b == QUOTE {
                out.push(QUOTE);
                out.push(QUOTE);
            } else {
                out.push(b);
            }
            proof {
                assert(f@.take(j + 1) =~= f@.take(j as int).push(f@[j as int]));
                lemma_escape_snoc(f@.take(j as int), f@[j as int]);
                assert(out@ =~= start + seq![QUOTE] + quote_escaped(f@.take(j + 1)));
            }
            j = j + 1;
        }
        out.push(QUOTE);
        proof {
            assert(f@.take(f@.len() as int) =~= f@);
            assert(out@ =~= start + encoded_field(f@, force_quotes));
        }
    } else {
        let ghost start = out@;
        let mut j: usize = 0;
        proof {
            assert(out@ =~= start + f@.take(0));
        }
        while j < f.len()
            invariant
                0 <= j <= f@.len(),
                out@ == start + f@.take(j as int),
            decreases f@.len() - j,
        {
            out.push(f[j]);
            proof {
                assert(f@.take(j + 1) =~= f@.take(j as int).push(f@[j as int]));
                assert(out@ =~= start + f@.take(j + 1));
            }
            j = j + 1;
        }
        proof {
            assert(f@.take(f@.len() as int) =~= f@);
            assert(out@ =~= start + encoded_field(f@, force_quotes));
        }
    }
}

/// Serialize one record as RFC 4180 CSV text: fields joined by commas, fields
/// holding a comma, quote or terminator quoted with their quotes doubled, the
/// record closed by CRLF.
pub fn encode_record(fields: &Vec<Vec<u8>>) -> (out: Vec<u8>)
    requires
        fields@.len() >= 1,
    ensures
        out@ == encoded_row(fields_of(*fields)),
{
    let mut out: Vec<u8> = Vec::new();
    let force = fields.len() == 1 && fields[0].len() == 0;
    proof {
        assert(fields_of(*fields).len() == fields@.len());
        assert(fields_of(*fields)[0] == fields@[0]@);
        assert(force == sole_empty(fields_of(*fields)));
        assert(out@ =~= encoded_prefix(fields_of(*fields), 0));
    }
    let mut k: usize = 0;
    while k < fields.len()
        invariant
            fields@.len() >= 1,
            0 <= k <= fields@.len(),
            force == sole_empty(fields_of(*fields)),
            out@ == encoded_prefix(fields_of(*fields), k as int),
        decreases fields@.len() - k,
    {
        let ghost pre = out@;
        if k > 0 {
            out.push(COMMA);
            push_encoded_field(&mut out, &fields[k], false);
            proof {
                assert(fields_of(*fields)[k as int] == fields@[k as int]@);
                assert(out@ =~= encoded_prefix(fields_of(*fields), k + 1));
            }
        } else {
            push_encoded_field(&mut out, &fields[k], force);
            proof {
                assert(fields_of(*fields)[0] == fields@[0]@);
                assert(out@ =~= encoded_prefix(fields_of(*fields), 1));
            }
        }
        k = k + 1;
    }
    out.push(CR);
    out.push(LF);
    proof {
        assert(out@ =~= encoded_row(fields_of(*fields)));
    }
    out
}

} // verus!
