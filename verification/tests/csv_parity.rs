//! Holds the library's reader against the csv crate's default parsing:
//! both read records with no header, comma separators, CRLF-or-bare
//! terminators, double-quoted fields with doubled-quote escapes, literal
//! quotes inside unquoted fields, and skipped blank lines.

use bulk_ingest::reader::ReadError;
use bulk_ingest::reader::read_rows;

fn reference_rows(src: &[u8]) -> Vec<Vec<String>> {
    let mut rdr = csv::ReaderBuilder::new().has_headers(false).from_reader(src);
    rdr.records()
        .map(|r| r.expect("reference parser rejected the source").iter().map(|f| f.to_string()).collect())
        .collect()
}

fn library_rows(src: &[u8]) -> Vec<Vec<String>> {
    read_rows(&src.to_vec())
        .expect("library reader rejected the source")
        .iter()
        .map(|r| r.iter().map(|f| String::from_utf8(f.clone()).unwrap()).collect())
        .collect()
}

#[test]
fn reader_matches_reference_parsing() {
    let sources: &[&[u8]] = &[
        b"a,b\nc,d\n",
        b"a,b\nc,d",
        b"a,b\r\nc,d\r\n",
        b"a,b\rc,d\n",
        b"a,b\r",
        b"\n\na,b\n\nc,d\n\n",
        b"a,,b\n",
        b",\n",
        b"\"a,b\",x\n",
        b"\"a\nb\",x\n",
        b"\"c\"\"d\"\n",
        b"a\"b\n",
        b"\"a\"x,y\n",
        b"\"abc",
        b"it's,fine\n",
        b"",
    ];
    for src in sources {
        assert_eq!(
            library_rows(src),
            reference_rows(src),
            "parsers disagree on {:?}",
            String::from_utf8_lossy(src)
        );
    }
}

#[test]
fn reader_matches_reference_on_uneven_records() {
    let src: &[u8] = b"a,b\nc\n";
    let mut rdr = csv::ReaderBuilder::new().has_headers(false).from_reader(src);
    let outcomes: Vec<bool> = rdr.records().map(|r| r.is_ok()).collect();
    assert_eq!(outcomes, vec![true, false]);
    assert_eq!(read_rows(&src.to_vec()).unwrap_err(), ReadError::FieldCountMismatch);
}
