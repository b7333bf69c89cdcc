//! Tabular reader: parses a record-oriented byte source into rows of fields.
//!
//! The grammar is the usual comma-separated one: records end at a line feed
//! or a carriage return (a `\r\n` pair counts once), fields are separated by
//! commas, and a field may open with a double quote, inside which commas and
//! line breaks are literal and a doubled quote stands for one quote byte. A
//! byte other than a separator after a closing quote continues the field
//! unquoted, a quote inside an unquoted field is a literal byte, and the end
//! of the source closes whatever field is open, so every byte source parses.
//! Empty lines are skipped and the first record is data (no header).
//!
//! Reading still fails, at the first offending record: every record must
//! hold as many fields as the first, and every field must be valid UTF-8.
//! The records before that position stand; `read_prefix` returns them
//! together with the failure, and `read_rows` returns rows only when the
//! whole source reads cleanly.

use vstd::prelude::*;

use crate::builder::COMMA;
use crate::builder::field_views;

verus! {

/// The double-quote byte `"` that may wrap a field.
pub const DOUBLE_QUOTE: u8 = 34;

/// The line-feed byte that ends a record.
pub const LINE_FEED: u8 = 10;

/// The carriage-return byte; also ends a record, and pairs with a
/// following line feed.
pub const CARRIAGE_RETURN: u8 = 13;

/// Where the parser stands between two bytes of the source.
#[derive(Clone, Copy, PartialEq, Eq, Structural, Debug)]
pub enum ParseMode {
    /// At the start of a line: nothing of the current record read yet.
    LineStart,
    /// Just after a comma: a field is owed, and it is empty so far.
    FieldStart,
    /// Inside an unquoted field with at least one byte read.
    Unquoted,
    /// Inside a quoted field, after the opening quote.
    Quoted,
    /// Inside a quoted field, directly after a quote byte.
    QuoteSeen,
}

/// Everything the parser has accumulated: finished rows, the fields of the
/// record being read, the field being read, and the mode.
pub struct ParseState {
    /// The finished records, in source order.
    pub rows: Seq<Seq<Seq<u8>>>,
    /// The finished fields of the current record.
    pub rec: Seq<Seq<u8>>,
    /// The bytes of the current field.
    pub field: Seq<u8>,
    /// The mode between bytes.
    pub mode: ParseMode,
}

/// The state before any byte is read.
pub open spec fn parse_init() -> ParseState {
    ParseState {
        rows: Seq::empty(),
        rec: Seq::empty(),
        field: Seq::empty(),
        mode: ParseMode::LineStart,
    }
}

/// Ends the current field and record and returns to the start of a line.
pub open spec fn close_record(st: ParseState) -> ParseState {
    ParseState {
        rows: st.rows.push(st.rec.push(st.field)),
        rec: Seq::empty(),
        field: Seq::empty(),
        mode: ParseMode::LineStart,
    }
}

/// One step of the parser on one byte of the source.
pub open spec fn parse_step(st: ParseState, b: u8) -> ParseState {
    match st.mode {
        ParseMode::LineStart => if b == LINE_FEED || b == CARRIAGE_RETURN {
            st
        } else if b == DOUBLE_QUOTE {
            ParseState { mode: ParseMode::Quoted, ..st }
        } else if b == COMMA {
            ParseState { rec: st.rec.push(st.field), field: Seq::empty(), mode: ParseMode::FieldStart, ..st }
        } else {
            ParseState { field: st.field.push(b), mode: ParseMode::Unquoted, ..st }
        },
        ParseMode::FieldStart => if b == LINE_FEED || b == CARRIAGE_RETURN {
            close_record(st)
        } else if b == DOUBLE_QUOTE {
            ParseState { mode: ParseMode::Quoted, ..st }
        } else if b == COMMA {
            ParseState { rec: st.rec.push(st.field), field: Seq::empty(), ..st }
        } else {
            ParseState { field: st.field.push(b), mode: ParseMode::Unquoted, ..st }
        },
        ParseMode::Unquoted => if b == LINE_FEED || b == CARRIAGE_RETURN {
            close_record(st)
        } else if b == COMMA {
            ParseState { rec: st.rec.push(st.field), field: Seq::empty(), mode: ParseMode::FieldStart, ..st }
        } else {
            ParseState { field: st.field.push(b), ..st }
        },
        ParseMode::Quoted => if b == DOUBLE_QUOTE {
            ParseState { mode: ParseMode::QuoteSeen, ..st }
        } else {
            ParseState { field: st.field.push(b), ..st }
        },
        ParseMode::QuoteSeen => if b == DOUBLE_QUOTE {
            ParseState { field: st.field.push(DOUBLE_QUOTE), mode: ParseMode::Quoted, ..st }
        } else if b == LINE_FEED || b == CARRIAGE_RETURN {
            close_record(st)
        } else if b == COMMA {
            ParseState { rec: st.rec.push(st.field), field: Seq::empty(), mode: ParseMode::FieldStart, ..st }
        } else {
            ParseState { field: st.field.push(b), mode: ParseMode::Unquoted, ..st }
        },
    }
}

/// The parser run over a whole byte sequence, front to back.
pub open spec fn parse_run(st: ParseState, s: Seq<u8>) -> ParseState
    decreases s.len(),
{
    if s.len() == 0 {
        st
    } else {
        parse_run(parse_step(st, s[0]), s.drop_first())
    }
}

/// Running the parser one byte further is one more step.
pub proof fn lemma_parse_run_snoc(st: ParseState, s: Seq<u8>, b: u8)
    ensures
        parse_run(st, s.push(b)) == parse_step(parse_run(st, s), b),
    decreases s.len(),
{
    if s.len() == 0 {
        assert(s.push(b)[0] == b);
        assert(s.push(b).drop_first() =~= Seq::<u8>::empty());
        assert(parse_run(parse_step(st, b), Seq::<u8>::empty()) == parse_step(st, b));
    } else {
        lemma_parse_run_snoc(parse_step(st, s[0]), s.drop_first(), b);
        assert(s.push(b)[0] == s[0]);
        assert(s.push(b).drop_first() =~= s.drop_first().push(b));
    }
}

/// What the parser yields at end of source: the rows, with the open record
/// closed when one was underway.
pub open spec fn finalize(st: ParseState) -> Seq<Seq<Seq<u8>>> {
    match st.mode {
        ParseMode::LineStart => st.rows,
        ParseMode::FieldStart => st.rows.push(st.rec.push(st.field)),
        ParseMode::Unquoted => st.rows.push(st.rec.push(st.field)),
        ParseMode::Quoted => st.rows.push(st.rec.push(st.field)),
        ParseMode::QuoteSeen => st.rows.push(st.rec.push(st.field)),
    }
}

/// The records of a source, in order. Every byte source parses.
pub open spec fn parsed_records(s: Seq<u8>) -> Seq<Seq<Seq<u8>>> {
    finalize(parse_run(parse_init(), s))
}

/// Why a record was rejected.
#[derive(Clone, Copy, PartialEq, Eq, Structural, Debug)]
pub enum ReadError {
    /// The record holds more or fewer fields than the first record.
    FieldCountMismatch,
    /// A field of the record is not valid UTF-8.
    Encoding,
}

/// Whether a byte sequence is valid UTF-8: what `core::str::from_utf8`
/// accepts.
pub uninterp spec fn valid_utf8(s: Seq<u8>) -> bool;

/// Relies on core::str::from_utf8: whether the bytes are valid UTF-8, a
/// function of the bytes alone.
#[verifier::external_body]
fn check_utf8(v: &Vec<u8>) -> (r: bool)
    ensures
        r == valid_utf8(v@),
{
    core::str::from_utf8(v).is_ok()
}

/// Whether every field of a record is valid UTF-8.
pub open spec fn record_valid_utf8(row: Seq<Seq<u8>>) -> bool {
    forall|i: int| 0 <= i < row.len() ==> valid_utf8(#[trigger] row[i])
}

/// Whether a record is acceptable: as wide as the first record, all of its
/// fields valid UTF-8.
pub open spec fn record_ok(row: Seq<Seq<u8>>, w: nat) -> bool {
    row.len() == w && record_valid_utf8(row)
}

/// The index of the first unacceptable record at or after `i`, or the
/// record count when all are acceptable.
pub open spec fn bad_index(rows: Seq<Seq<Seq<u8>>>, w: nat, i: int) -> int
    decreases rows.len() - i,
{
    if i < 0 || i >= rows.len() {
        rows.len() as int
    } else if !record_ok(rows[i], w) {
        i
    } else {
        bad_index(rows, w, i + 1)
    }
}

/// The readable prefix of a source: every record before the first
/// unacceptable one, and the error that record is rejected with, if any.
/// A width mismatch outranks an encoding fault in the same record.
pub open spec fn source_prefix(s: Seq<u8>) -> (Seq<Seq<Seq<u8>>>, Option<ReadError>) {
    let rows = parsed_records(s);
    if rows.len() == 0 {
        (rows, None)
    } else {
        let w = rows[0].len();
        let n = bad_index(rows, w, 0);
        if n == rows.len() {
            (rows, None)
        } else if rows[n].len() != w {
            (rows.take(n), Some(ReadError::FieldCountMismatch))
        } else {
            (rows.take(n), Some(ReadError::Encoding))
        }
    }
}

/// The views of a sequence of rows, each row a sequence of field views.
pub open spec fn row_views(rows: Seq<Vec<Vec<u8>>>) -> Seq<Seq<Seq<u8>>> {
    Seq::new(rows.len(), |i: int| field_views(rows[i]@))
}

/// The running parser as executable state.
struct Parser {
    rows: Vec<Vec<Vec<u8>>>,
    rec: Vec<Vec<u8>>,
    field: Vec<u8>,
    mode: ParseMode,
}

impl Parser {
    /// The state this parser stands for.
    spec fn model(&self) -> ParseState {
        ParseState {
            rows: row_views(self.rows@),
            rec: field_views(self.rec@),
            field: self.field@,
            mode: self.mode,
        }
    }

    fn new() -> (p: Parser)
        ensures
            p.model() == parse_init(),
    {
        let p = Parser { rows: Vec::new(), rec: Vec::new(), field: Vec::new(), mode: ParseMode::LineStart };
        proof {
            assert(row_views(p.rows@) =~= Seq::<Seq<Seq<u8>>>::empty());
            assert(field_views(p.rec@) =~= Seq::<Seq<u8>>::empty());
        }
        p
    }

    /// Moves the current field onto the current record.
    fn push_field(&mut self)
        ensures
            final(self).model() == (ParseState {
                rec: old(self).model().rec.push(old(self).model().field),
                field: Seq::empty(),
                ..old(self).model()
            }),
    {
        let mut f: Vec<u8> = Vec::new();
        core::mem::swap(&mut f, &mut self.field);
        self.rec.push(f);
        proof {
            assert(field_views(self.rec@) =~= field_views(old(self).rec@).push(old(self).field@));
            assert(row_views(self.rows@) =~= row_views(old(self).rows@));
        }
    }

    /// Closes the current field and record and returns to the line start.
    fn end_record(&mut self)
        ensures
            final(self).model() == close_record(old(self).model()),
    {
        self.push_field();
        let mut r: Vec<Vec<u8>> = Vec::new();
        core::mem::swap(&mut r, &mut self.rec);
        self.rows.push(r);
        self.mode = ParseMode::LineStart;
        proof {
            assert(field_views(self.rec@) =~= Seq::<Seq<u8>>::empty());
            assert(row_views(self.rows@) =~= row_views(old(self).rows@).push(
                field_views(old(self).rec@).push(old(self).field@),
            ));
        }
    }

    /// Feeds one byte of the source to the parser.
    fn step(&mut self, b: u8)
        ensures
            final(self).model() == parse_step(old(self).model(), b),
    {
        match self.mode {
            ParseMode::LineStart => {
                if b == LINE_FEED || b == CARRIAGE_RETURN {
                } else if b == DOUBLE_QUOTE {
                    self.mode = ParseMode::Quoted;
                } else if b == COMMA {
                    self.push_field();
                    self.mode = ParseMode::FieldStart;
                } else {
                    self.field.push(b);
                    self.mode = ParseMode::Unquoted;
                }
            },
            ParseMode::FieldStart => {
                if b == LINE_FEED || b == CARRIAGE_RETURN {
                    self.end_record();
                } else if b == DOUBLE_QUOTE {
                    self.mode = ParseMode::Quoted;
                } else if b == COMMA {
                    self.push_field();
                } else {
                    self.field.push(b);
                    self.mode = ParseMode::Unquoted;
                }
            },
            ParseMode::Unquoted => {
                if b == LINE_FEED || b == CARRIAGE_RETURN {
                    self.end_record();
                } else if b == COMMA {
                    self.push_field();
                    self.mode = ParseMode::FieldStart;
                } else {
                    self.field.push(b);
                }
            },
            ParseMode::Quoted => {
                if b == DOUBLE_QUOTE {
                    self.mode = ParseMode::QuoteSeen;
                } else {
                    self.field.push(b);
                }
            },
            ParseMode::QuoteSeen => {
                if b == DOUBLE_QUOTE {
                    self.field.push(DOUBLE_QUOTE);
                    self.mode = ParseMode::Quoted;
                } else if b == LINE_FEED || b == CARRIAGE_RETURN {
                    self.end_record();
                } else if b == COMMA {
                    self.push_field();
                    self.mode = ParseMode::FieldStart;
                } else {
                    self.field.push(b);
                    self.mode = ParseMode::Unquoted;
                }
            },
        }
    }
}

/// Whether every field of a record is valid UTF-8, checked field by field.
fn record_is_utf8(row: &Vec<Vec<u8>>) -> (b: bool)
    ensures
        b == record_valid_utf8(field_views(row@)),
{
    let mut i: usize = 0;
    while i < row.len()
        invariant
            i <= row.len(),
            forall|k: int| 0 <= k < i ==> valid_utf8(#[trigger] field_views(row@)[k]),
        decreases row.len() - i,
    {
        if !check_utf8(&row[i]) {
            proof {
                assert(!valid_utf8(field_views(row@)[i as int]));
            }
            return false;
        }
        i = i + 1;
    }
    true
}

/// Parses the whole byte source into its records.
fn parse_source(src: &Vec<u8>) -> (rows: Vec<Vec<Vec<u8>>>)
    ensures
        row_views(rows@) == parsed_records(src@),
{
    let mut p = Parser::new();
    let mut i: usize = 0;
    while i < src.len()
        invariant
            i <= src.len(),
            p.model() == parse_run(parse_init(), src@.take(i as int)),
        decreases src.len() - i,
    {
        p.step(src[i]);
        proof {
            lemma_parse_run_snoc(parse_init(), src@.take(i as int), src@[i as int]);
            assert(src@.take(i as int + 1) =~= src@.take(i as int).push(src@[i as int]));
        }
        i = i + 1;
    }
    proof {
        assert(src@.take(src@.len() as int) =~= src@);
    }
    match p.mode {
        ParseMode::LineStart => p.rows,
        ParseMode::FieldStart | ParseMode::Unquoted | ParseMode::Quoted | ParseMode::QuoteSeen => {
            let mut q = p;
            q.end_record();
            q.rows
        },
    }
}

/// Reads the acceptable prefix of a byte source: every record before the
/// first one that is rejected, and the rejection, if any. The first record
/// sets the field count; a record of another width is rejected as a
/// mismatch, one with a field that is not valid UTF-8 as an encoding fault.
pub fn read_prefix(src: &Vec<u8>) -> (r: (Vec<Vec<Vec<u8>>>, Option<ReadError>))
    ensures
        (row_views(r.0@), r.1) == source_prefix(src@),
{
    let mut rows = parse_source(src);
    if rows.len() == 0 {
        return (rows, None);
    }
    let width = rows[0].len();
    let ghost rv = row_views(rows@);
    let ghost w = rv[0].len();
    proof {
        assert(w == width as nat);
    }
    let mut i: usize = 0;
    while i < rows.len()
        invariant
            i <= rows.len(),
            width as nat == w,
            row_views(rows@) == rv,
            rv.len() == rows@.len(),
            rv == parsed_records(src@),
            0 < rv.len(),
            w == rv[0].len(),
            bad_index(rv, w, 0) == bad_index(rv, w, i as int),
        decreases rows.len() - i,
    {
        let width_ok = rows[i].len() == width;
        let utf8_ok = record_is_utf8(&rows[i]);
        proof {
            assert(rv[i as int] == field_views(rows@[i as int]@));
            assert(rv[i as int].len() == rows@[i as int]@.len());
        }
        if !width_ok || !utf8_ok {
            proof {
                assert(!record_ok(rv[i as int], w));
                assert(bad_index(rv, w, i as int) == i as int);
            }
            let e = if !width_ok {
                ReadError::FieldCountMismatch
            } else {
                ReadError::Encoding
            };
            rows.truncate(i);
            proof {
                assert(row_views(rows@) =~= rv.take(i as int));
            }
            return (rows, Some(e));
        }
        proof {
            assert(record_ok(rv[i as int], w));
            assert(bad_index(rv, w, i as int) == bad_index(rv, w, i as int + 1));
        }
        i = i + 1;
    }
    proof {
        assert(bad_index(rv, w, rv.len() as int) == rv.len() as int);
    }
    (rows, None)
}

/// Reads a byte source whole: its rows when every record is acceptable,
/// and the first rejection otherwise.
pub fn read_rows(src: &Vec<u8>) -> (r: Result<Vec<Vec<Vec<u8>>>, ReadError>)
    ensures
        match r {
            Ok(rows) => source_prefix(src@) == (row_views(rows@), None::<ReadError>),
            Err(e) => source_prefix(src@).1 == Some(e),
        },
{
    let (rows, terminal) = read_prefix(src);
    match terminal {
        None => Ok(rows),
        Some(e) => Err(e),
    }
}

} // verus!
