use bulk_ingest::driver::DriverAction;
use bulk_ingest::driver::GatewayReply;
use bulk_ingest::driver::IngestDriver;
use bulk_ingest::driver::IngestOutcome;
use bulk_ingest::reader::ReadError;

fn bytes(s: &str) -> Vec<u8> {
    s.as_bytes().to_vec()
}

fn new_driver(create: &str, prefix: &str) -> IngestDriver {
    IngestDriver::new(bytes(create), bytes(prefix))
}

/// Runs a driver to its report, handing it the given source when it asks
/// and answering every executed statement from the given replies in order;
/// returns the executed statements and the outcome.
fn run_to_report(
    mut driver: IngestDriver,
    source: Vec<u8>,
    mut replies: Vec<GatewayReply>,
) -> (Vec<Vec<u8>>, IngestOutcome) {
    replies.reverse();
    let mut executed: Vec<Vec<u8>> = Vec::new();
    let mut source = Some(source);
    let mut action = driver.begin();
    loop {
        match action {
            DriverAction::Execute(stmt) => {
                executed.push(stmt);
                assert!(driver.awaiting_reply());
                action = driver.on_reply(replies.pop().expect("driver wanted one reply too many"));
            }
            DriverAction::FetchSource => {
                assert!(driver.awaiting_source());
                action = driver.on_source(source.take().expect("driver asked for the source twice"));
            }
            DriverAction::Report(outcome) => {
                assert!(!driver.awaiting_reply());
                assert!(!driver.awaiting_source());
                return (executed, outcome);
            }
        }
    }
}

#[test]
fn begin_hands_out_the_create_statement() {
    let mut driver = new_driver("CREATE TABLE iris (a TEXT)", "INSERT INTO iris");
    assert!(driver.is_ready());
    let action = driver.begin();
    assert_eq!(action, DriverAction::Execute(bytes("CREATE TABLE iris (a TEXT)")));
    assert!(driver.awaiting_reply());
}

#[test]
fn rejected_create_stops_before_any_row() {
    let driver = new_driver("CREATE TABLE t (a TEXT)", "INSERT INTO t");
    let (executed, outcome) = run_to_report(
        driver,
        bytes("r1\nr2\n"),
        vec![GatewayReply::Rejected(bytes("no such schema"))],
    );
    // Only the create statement went out: zero row statements, and the
    // source was never even requested.
    assert_eq!(executed, vec![bytes("CREATE TABLE t (a TEXT)")]);
    assert_eq!(outcome, IngestOutcome::CreateFailed(bytes("no such schema")));
}

#[test]
fn row_insert_failures_are_swallowed() {
    // Every row insert is rejected, yet the run reports completion: per-row
    // failures are discarded by design, so the outcome cannot tell rows that
    // went in from rows the gateway turned away.
    let driver = new_driver("CREATE TABLE t (a TEXT)", "INSERT INTO t");
    let (executed, outcome) = run_to_report(
        driver,
        bytes("r1\nr2\nr3\n"),
        vec![
            GatewayReply::Accepted,
            GatewayReply::Rejected(bytes("bad row")),
            GatewayReply::Rejected(bytes("bad row")),
            GatewayReply::Rejected(bytes("bad row")),
        ],
    );
    assert_eq!(executed.len(), 4);
    assert_eq!(outcome, IngestOutcome::Completed);
}

#[test]
fn empty_source_completes_with_no_row_statement() {
    let driver = new_driver("CREATE TABLE t (a TEXT)", "INSERT INTO t");
    let (executed, outcome) = run_to_report(driver, bytes(""), vec![GatewayReply::Accepted]);
    assert_eq!(executed, vec![bytes("CREATE TABLE t (a TEXT)")]);
    assert_eq!(outcome, IngestOutcome::Completed);
}

#[test]
fn rows_are_inserted_in_source_order() {
    let driver = new_driver("CREATE TABLE iris (a TEXT, b TEXT)", "INSERT INTO iris");
    let (executed, outcome) = run_to_report(
        driver,
        bytes("5.1,setosa\n6.2,virginica\n"),
        vec![GatewayReply::Accepted, GatewayReply::Accepted, GatewayReply::Accepted],
    );
    assert_eq!(
        executed,
        vec![
            bytes("CREATE TABLE iris (a TEXT, b TEXT)"),
            bytes("INSERT INTO iris VALUES ('5.1', 'setosa')"),
            bytes("INSERT INTO iris VALUES ('6.2', 'virginica')"),
        ]
    );
    assert_eq!(outcome, IngestOutcome::Completed);
}

#[test]
fn fields_are_escaped_in_row_statements() {
    let driver = new_driver("CREATE TABLE t (a TEXT)", "INSERT INTO t");
    let (executed, outcome) = run_to_report(
        driver,
        bytes("it's\n"),
        vec![GatewayReply::Accepted, GatewayReply::Accepted],
    );
    assert_eq!(executed[1], bytes("INSERT INTO t VALUES ('it''s')"));
    assert_eq!(outcome, IngestOutcome::Completed);
}

#[test]
fn rows_before_an_uneven_record_are_inserted() {
    // The read failure is fatal at its own position: the rows before it
    // were already handed out, nothing at or after it is attempted.
    let driver = new_driver("CREATE TABLE t (a TEXT, b TEXT)", "INSERT INTO t");
    let (executed, outcome) = run_to_report(
        driver,
        bytes("5.1,setosa\n6.2\n7.0,virginica\n"),
        vec![GatewayReply::Accepted, GatewayReply::Accepted],
    );
    assert_eq!(
        executed,
        vec![
            bytes("CREATE TABLE t (a TEXT, b TEXT)"),
            bytes("INSERT INTO t VALUES ('5.1', 'setosa')"),
        ]
    );
    assert_eq!(outcome, IngestOutcome::SourceMalformed(ReadError::FieldCountMismatch));
}

#[test]
fn rows_before_an_encoding_fault_are_inserted() {
    let driver = new_driver("CREATE TABLE t (a TEXT)", "INSERT INTO t");
    let mut source = bytes("ok\n");
    source.push(0xFF);
    source.push(b'\n');
    let (executed, outcome) = run_to_report(
        driver,
        source,
        vec![GatewayReply::Accepted, GatewayReply::Accepted],
    );
    assert_eq!(
        executed,
        vec![bytes("CREATE TABLE t (a TEXT)"), bytes("INSERT INTO t VALUES ('ok')")]
    );
    assert_eq!(outcome, IngestOutcome::SourceMalformed(ReadError::Encoding));
}

#[test]
fn unreadable_first_record_aborts_with_no_row_statement() {
    let driver = new_driver("CREATE TABLE t (a TEXT)", "INSERT INTO t");
    let source = vec![0xFF, b'\n'];
    let (executed, outcome) = run_to_report(driver, source, vec![GatewayReply::Accepted]);
    assert_eq!(executed, vec![bytes("CREATE TABLE t (a TEXT)")]);
    assert_eq!(outcome, IngestOutcome::SourceMalformed(ReadError::Encoding));
}
