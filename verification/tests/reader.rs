use bulk_ingest::reader::ReadError;
use bulk_ingest::reader::read_prefix;
use bulk_ingest::reader::read_rows;

fn bytes(s: &str) -> Vec<u8> {
    s.as_bytes().to_vec()
}

fn rows_of(strs: &[&[&str]]) -> Vec<Vec<Vec<u8>>> {
    strs.iter().map(|r| r.iter().map(|f| bytes(f)).collect()).collect()
}

#[test]
fn reads_simple_records() {
    let got = read_rows(&bytes("a,b\nc,d\n")).unwrap();
    assert_eq!(got, rows_of(&[&["a", "b"], &["c", "d"]]));
}

#[test]
fn last_record_needs_no_newline() {
    let got = read_rows(&bytes("a,b\nc,d")).unwrap();
    assert_eq!(got, rows_of(&[&["a", "b"], &["c", "d"]]));
}

#[test]
fn carriage_return_line_feed_ends_a_record() {
    let got = read_rows(&bytes("a,b\r\nc,d\r\n")).unwrap();
    assert_eq!(got, rows_of(&[&["a", "b"], &["c", "d"]]));
}

#[test]
fn bare_carriage_return_ends_a_record() {
    let got = read_rows(&bytes("a,b\rc,d\n")).unwrap();
    assert_eq!(got, rows_of(&[&["a", "b"], &["c", "d"]]));
    let trailing = read_rows(&bytes("a,b\r")).unwrap();
    assert_eq!(trailing, rows_of(&[&["a", "b"]]));
}

#[test]
fn first_record_is_data_not_header() {
    let got = read_rows(&bytes("sepal,species\n5.1,setosa\n")).unwrap();
    assert_eq!(got, rows_of(&[&["sepal", "species"], &["5.1", "setosa"]]));
}

#[test]
fn empty_source_has_no_rows() {
    let got = read_rows(&bytes("")).unwrap();
    assert_eq!(got.len(), 0);
}

#[test]
fn empty_lines_are_skipped() {
    let got = read_rows(&bytes("\n\na,b\n\nc,d\n\n")).unwrap();
    assert_eq!(got, rows_of(&[&["a", "b"], &["c", "d"]]));
}

#[test]
fn empty_fields_are_kept() {
    let got = read_rows(&bytes("a,,b\n")).unwrap();
    assert_eq!(got, rows_of(&[&["a", "", "b"]]));
    let lone_comma = read_rows(&bytes(",\n")).unwrap();
    assert_eq!(lone_comma, rows_of(&[&["", ""]]));
}

#[test]
fn quoted_field_holds_separators() {
    let got = read_rows(&bytes("\"a,b\",x\n")).unwrap();
    assert_eq!(got, rows_of(&[&["a,b", "x"]]));
}

#[test]
fn quoted_field_holds_line_breaks() {
    let got = read_rows(&bytes("\"a\nb\",x\n")).unwrap();
    assert_eq!(got, rows_of(&[&["a\nb", "x"]]));
}

#[test]
fn doubled_quote_is_one_quote_byte() {
    let got = read_rows(&bytes("\"c\"\"d\"\n")).unwrap();
    assert_eq!(got, rows_of(&[&["c\"d"]]));
}

#[test]
fn quote_in_unquoted_field_is_literal() {
    let got = read_rows(&bytes("a\"b\n")).unwrap();
    assert_eq!(got, rows_of(&[&["a\"b"]]));
}

#[test]
fn byte_after_closing_quote_continues_the_field() {
    let got = read_rows(&bytes("\"a\"x,y\n")).unwrap();
    assert_eq!(got, rows_of(&[&["ax", "y"]]));
}

#[test]
fn end_of_source_closes_an_open_quoted_field() {
    let got = read_rows(&bytes("\"abc")).unwrap();
    assert_eq!(got, rows_of(&[&["abc"]]));
}

#[test]
fn single_quotes_are_ordinary_bytes() {
    let got = read_rows(&bytes("it's,fine\n")).unwrap();
    assert_eq!(got, rows_of(&[&["it's", "fine"]]));
}

#[test]
fn field_count_mismatch_is_an_error() {
    assert_eq!(read_rows(&bytes("a,b\nc\n")).unwrap_err(), ReadError::FieldCountMismatch);
}

#[test]
fn invalid_utf8_is_an_encoding_error() {
    let mut src = bytes("ok\n");
    src.push(0xFF);
    src.push(b'\n');
    assert_eq!(read_rows(&src).unwrap_err(), ReadError::Encoding);
}

#[test]
fn prefix_stops_at_first_uneven_record() {
    let (rows, terminal) = read_prefix(&bytes("a,b\nc\nd,e\n"));
    assert_eq!(rows, rows_of(&[&["a", "b"]]));
    assert_eq!(terminal, Some(ReadError::FieldCountMismatch));
}

#[test]
fn prefix_stops_at_first_encoding_fault() {
    let mut src = bytes("a\nb\n");
    src.push(0xC0);
    src.push(b'\n');
    src.extend_from_slice(b"c\n");
    let (rows, terminal) = read_prefix(&src);
    assert_eq!(rows, rows_of(&[&["a"], &["b"]]));
    assert_eq!(terminal, Some(ReadError::Encoding));
}

#[test]
fn uneven_record_outranks_its_own_encoding_fault() {
    let mut src = bytes("a,b\n");
    src.push(0xFF);
    src.push(b'\n');
    let (rows, terminal) = read_prefix(&src);
    assert_eq!(rows, rows_of(&[&["a", "b"]]));
    assert_eq!(terminal, Some(ReadError::FieldCountMismatch));
}

#[test]
fn clean_prefix_is_the_whole_source() {
    let (rows, terminal) = read_prefix(&bytes("a,b\nc,d\n"));
    assert_eq!(rows, rows_of(&[&["a", "b"], &["c", "d"]]));
    assert_eq!(terminal, None);
}
