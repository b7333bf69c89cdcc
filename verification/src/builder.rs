//! Statement builder: wraps each field of a row in single quotes, doubling
//! every embedded single quote, joins the quoted fields with `, `, and
//! appends the parenthesized list to an insert prefix after ` VALUES `.

use vstd::prelude::*;

verus! {

/// The single-quote byte `'` that wraps each field literal.
pub const SINGLE_QUOTE: u8 = 39;

/// A field with every single quote doubled: the SQL literal escape.
pub open spec fn escaped_field(f: Seq<u8>) -> Seq<u8>
    decreases f.len(),
{
    if f.len() == 0 {
        Seq::empty()
    } else if f[0] == SINGLE_QUOTE {
        seq![SINGLE_QUOTE, SINGLE_QUOTE] + escaped_field(f.drop_first())
    } else {
        seq![f[0]] + escaped_field(f.drop_first())
    }
}

/// How many single-quote bytes a sequence holds.
pub open spec fn quote_count(f: Seq<u8>) -> nat
    decreases f.len(),
{
    if f.len() == 0 {
        0
    } else {
        (if f[0] == SINGLE_QUOTE {
            1nat
        } else {
            0nat
        }) + quote_count(f.drop_first())
    }
}

/// Escaping distributes over concatenation.
pub proof fn lemma_escaped_append(a: Seq<u8>, b: Seq<u8>)
    ensures
        escaped_field(a + b) == escaped_field(a) + escaped_field(b),
    decreases a.len(),
{
    if a.len() == 0 {
        assert(a + b =~= b);
        assert(escaped_field(a) + escaped_field(b) =~= escaped_field(b));
    } else {
        lemma_escaped_append(a.drop_first(), b);
        assert((a + b).drop_first() =~= a.drop_first() + b);
        assert((a + b)[0] == a[0]);
        assert(escaped_field(a + b) =~= escaped_field(a) + escaped_field(b));
    }
}

/// Escapes one field: every `'` becomes `''`, all other bytes are kept.
pub fn escape_field(f: &Vec<u8>) -> (r: Vec<u8>)
    ensures
        r@ == escaped_field(f@),
{
    let mut out: Vec<u8> = Vec::new();
    let mut i: usize = 0;
    while i < f.len()
        invariant
            i <= f.len(),
            out@ == escaped_field(f@.take(i as int)),
        decreases f.len() - i,
    {
        let b = f[i];
        if b == SINGLE_QUOTE {
            out.push(SINGLE_QUOTE);
            out.push(SINGLE_QUOTE);
        } else {
            out.push(b);
        }
        proof {
            let bs = seq![f@[i as int]];
            lemma_escaped_append(f@.take(i as int), bs);
            assert(bs.drop_first() =~= Seq::<u8>::empty());
            assert(escaped_field(Seq::<u8>::empty()) == Seq::<u8>::empty());
            if f@[i as int] == SINGLE_QUOTE {
                assert(escaped_field(bs) =~= seq![SINGLE_QUOTE, SINGLE_QUOTE]);
            } else {
                assert(escaped_field(bs) =~= bs);
            }
            assert(f@.take(i as int + 1) =~= f@.take(i as int) + bs);
        }
        i = i + 1;
    }
    proof {
        assert(f@.take(f@.len() as int) =~= f@);
    }
    out
}

/// The comma byte `,` that separates the quoted fields.
pub const COMMA: u8 = 44;

/// The space byte that follows each separating comma.
pub const SPACE: u8 = 32;

/// A field wrapped in single quotes, with its inner quotes doubled.
pub open spec fn quoted_field(f: Seq<u8>) -> Seq<u8> {
    seq![SINGLE_QUOTE] + escaped_field(f) + seq![SINGLE_QUOTE]
}

/// The quoted fields of a row joined with `, `, in the row's order.
pub open spec fn values_list(row: Seq<Seq<u8>>) -> Seq<u8>
    decreases row.len(),
{
    if row.len() == 0 {
        Seq::empty()
    } else if row.len() == 1 {
        quoted_field(row[0])
    } else {
        quoted_field(row[0]) + seq![COMMA, SPACE] + values_list(row.drop_first())
    }
}

/// The byte `V`.
pub const LETTER_V: u8 = 86;

/// The byte `A`.
pub const LETTER_A: u8 = 65;

/// The byte `L`.
pub const LETTER_L: u8 = 76;

/// The byte `U`.
pub const LETTER_U: u8 = 85;

/// The byte `E`.
pub const LETTER_E: u8 = 69;

/// The byte `S`.
pub const LETTER_S: u8 = 83;

/// The opening parenthesis byte.
pub const OPEN_PAREN: u8 = 40;

/// The closing parenthesis byte.
pub const CLOSE_PAREN: u8 = 41;

/// The literal ` VALUES (` that introduces the values clause.
pub open spec fn values_keyword() -> Seq<u8> {
    seq![SPACE, LETTER_V, LETTER_A, LETTER_L, LETTER_U, LETTER_E, LETTER_S, SPACE, OPEN_PAREN]
}

/// The full insert statement: prefix, ` VALUES (`, the values list, `)`.
pub open spec fn insert_statement(prefix: Seq<u8>, row: Seq<Seq<u8>>) -> Seq<u8> {
    prefix + values_keyword() + values_list(row) + seq![CLOSE_PAREN]
}

/// The views of a row's fields, in order.
pub open spec fn field_views(fields: Seq<Vec<u8>>) -> Seq<Seq<u8>> {
    Seq::new(fields.len(), |i: int| fields[i]@)
}

/// Appending a field to a row appends its quoted form to the values list,
/// after a `, ` separator when the row was not empty.
pub proof fn lemma_values_list_snoc(row: Seq<Seq<u8>>, f: Seq<u8>)
    ensures
        values_list(row.push(f)) == if row.len() == 0 {
            quoted_field(f)
        } else {
            values_list(row) + seq![COMMA, SPACE] + quoted_field(f)
        },
    decreases row.len(),
{
    if row.len() == 0 {
        assert(row.push(f)[0] == f);
    } else {
        lemma_values_list_snoc(row.drop_first(), f);
        assert(row.push(f).drop_first() =~= row.drop_first().push(f));
        assert(row.push(f)[0] == row[0]);
        assert(values_list(row.push(f)) =~= values_list(row) + seq![COMMA, SPACE]
            + quoted_field(f));
    }
}

/// Quotes one field: `'`, the escaped field, `'`.
pub fn quote_field(f: &Vec<u8>) -> (r: Vec<u8>)
    ensures
        r@ == quoted_field(f@),
{
    let mut out: Vec<u8> = Vec::new();
    out.push(SINGLE_QUOTE);
    let mut esc = escape_field(f);
    out.append(&mut esc);
    out.push(SINGLE_QUOTE);
    proof {
        assert(out@ =~= quoted_field(f@));
    }
    out
}

/// Builds the joined values list of a row's quoted fields.
pub fn build_values_list(row: &Vec<Vec<u8>>) -> (r: Vec<u8>)
    ensures
        r@ == values_list(field_views(row@)),
{
    let mut out: Vec<u8> = Vec::new();
    let mut i: usize = 0;
    while i < row.len()
        invariant
            i <= row.len(),
            out@ == values_list(field_views(row@).take(i as int)),
        decreases row.len() - i,
    {
        if i > 0 {
            out.push(COMMA);
            out.push(SPACE);
        }
        let mut q = quote_field(&row[i]);
        out.append(&mut q);
        proof {
            let fv = field_views(row@);
            lemma_values_list_snoc(fv.take(i as int), fv[i as int]);
            assert(fv.take(i as int + 1) =~= fv.take(i as int).push(fv[i as int]));
            assert(out@ =~= values_list(fv.take(i as int + 1)));
        }
        i = i + 1;
    }
    proof {
        assert(field_views(row@).take(row@.len() as int) =~= field_views(row@));
    }
    out
}

/// Copies the bytes of a source vector onto the end of `out`.
pub(crate) fn push_all(out: &mut Vec<u8>, src: &Vec<u8>)
    ensures
        final(out)@ == old(out)@ + src@,
{
    let mut i: usize = 0;
    while i < src.len()
        invariant
            i <= src.len(),
            out@ == old(out)@ + src@.take(i as int),
        decreases src.len() - i,
    {
        out.push(src[i]);
        proof {
            assert(src@.take(i as int + 1) =~= src@.take(i as int).push(src@[i as int]));
            assert(old(out)@ + src@.take(i as int + 1) =~= (old(out)@ + src@.take(
                i as int,
            )).push(src@[i as int]));
        }
        i = i + 1;
    }
    proof {
        assert(src@.take(src@.len() as int) =~= src@);
    }
}

/// Builds one insert statement for a row: the prefix, then ` VALUES (`,
/// then the quoted fields joined with `, `, then `)`.
pub fn build_insert(prefix: &Vec<u8>, row: &Vec<Vec<u8>>) -> (r: Vec<u8>)
    ensures
        r@ == insert_statement(prefix@, field_views(row@)),
{
    let mut out: Vec<u8> = Vec::new();
    push_all(&mut out, prefix);
    out.push(SPACE);
    out.push(LETTER_V);
    out.push(LETTER_A);
    out.push(LETTER_L);
    out.push(LETTER_U);
    out.push(LETTER_E);
    out.push(LETTER_S);
    out.push(SPACE);
    out.push(OPEN_PAREN);
    let mut vals = build_values_list(row);
    out.append(&mut vals);
    out.push(CLOSE_PAREN);
    proof {
        assert(out@ =~= insert_statement(prefix@, field_views(row@)));
    }
    out
}

/// Counting quotes distributes over concatenation.
pub proof fn lemma_quote_count_append(a: Seq<u8>, b: Seq<u8>)
    ensures
        quote_count(a + b) == quote_count(a) + quote_count(b),
    decreases a.len(),
{
    if a.len() == 0 {
        assert(a + b =~= b);
    } else {
        lemma_quote_count_append(a.drop_first(), b);
        assert((a + b).drop_first() =~= a.drop_first() + b);
        assert((a + b)[0] == a[0]);
    }
}

/// Counting quotes in a single byte.
proof fn lemma_quote_count_single(b: u8)
    ensures
        quote_count(seq![b]) == if b == SINGLE_QUOTE {
            1nat
        } else {
            0nat
        },
{
    assert(seq![b].drop_first() =~= Seq::<u8>::empty());
    assert(quote_count(Seq::<u8>::empty()) == 0);
}

/// Law: escaping a field with `n` single quotes yields exactly `2 * n` of
/// them, and lengthens the field by `n` bytes.
pub proof fn lemma_escape_doubles_quotes(f: Seq<u8>)
    ensures
        quote_count(escaped_field(f)) == 2 * quote_count(f),
        escaped_field(f).len() == f.len() + quote_count(f),
    decreases f.len(),
{
    if f.len() == 0 {
    } else {
        lemma_escape_doubles_quotes(f.drop_first());
        lemma_quote_count_single(f[0]);
        if f[0] == SINGLE_QUOTE {
            assert(seq![SINGLE_QUOTE, SINGLE_QUOTE] =~= seq![SINGLE_QUOTE] + seq![SINGLE_QUOTE]);
            lemma_quote_count_append(seq![SINGLE_QUOTE], seq![SINGLE_QUOTE]);
            lemma_quote_count_append(
                seq![SINGLE_QUOTE, SINGLE_QUOTE],
                escaped_field(f.drop_first()),
            );
        } else {
            lemma_quote_count_append(seq![f[0]], escaped_field(f.drop_first()));
        }
    }
}

/// Law: escaping is not idempotent; a second pass doubles the quotes again,
/// so any field that held a quote escapes to something new each time.
pub proof fn lemma_escape_not_idempotent(f: Seq<u8>)
    requires
        quote_count(f) > 0,
    ensures
        quote_count(escaped_field(escaped_field(f))) == 4 * quote_count(f),
        escaped_field(escaped_field(f)) != escaped_field(f),
{
    lemma_escape_doubles_quotes(f);
    lemma_escape_doubles_quotes(escaped_field(f));
    assert(escaped_field(escaped_field(f)).len() > escaped_field(f).len());
}

/// Escaping a field without single quotes leaves it unchanged.
pub proof fn lemma_escape_plain_field(f: Seq<u8>)
    requires
        quote_count(f) == 0,
    ensures
        escaped_field(f) == f,
    decreases f.len(),
{
    if f.len() == 0 {
        assert(escaped_field(f) =~= f);
    } else {
        assert(f[0] != SINGLE_QUOTE);
        lemma_escape_plain_field(f.drop_first());
        assert(escaped_field(f) =~= f);
    }
}

/// A field wrapped in single quotes with no escaping applied.
pub open spec fn plain_quoted(f: Seq<u8>) -> Seq<u8> {
    seq![SINGLE_QUOTE] + f + seq![SINGLE_QUOTE]
}

/// The plainly quoted fields of a row joined with `, `, in order.
pub open spec fn plain_values_list(row: Seq<Seq<u8>>) -> Seq<u8>
    decreases row.len(),
{
    if row.len() == 0 {
        Seq::empty()
    } else if row.len() == 1 {
        plain_quoted(row[0])
    } else {
        plain_quoted(row[0]) + seq![COMMA, SPACE] + plain_values_list(row.drop_first())
    }
}

/// Law: for a row whose fields hold no single quote, the values list is
/// exactly the fields themselves, quote-wrapped and comma-joined, in the
/// row's original order.
pub proof fn lemma_plain_row_values(row: Seq<Seq<u8>>)
    requires
        forall|i: int| 0 <= i < row.len() ==> quote_count(#[trigger] row[i]) == 0,
    ensures
        values_list(row) == plain_values_list(row),
    decreases row.len(),
{
    if row.len() == 0 {
    } else {
        lemma_escape_plain_field(row[0]);
        assert(quoted_field(row[0]) == plain_quoted(row[0]));
        assert(forall|i: int|
            0 <= i < row.drop_first().len() ==> quote_count(#[trigger] row.drop_first()[i]) == 0);
        lemma_plain_row_values(row.drop_first());
    }
}

/// Law: the empty field is rendered as the bare quoted pair `''`.
pub proof fn lemma_empty_field_quoted()
    ensures
        quoted_field(Seq::<u8>::empty()) == seq![SINGLE_QUOTE, SINGLE_QUOTE],
{
    assert(quoted_field(Seq::<u8>::empty()) =~= seq![SINGLE_QUOTE, SINGLE_QUOTE]);
}

} // verus!

