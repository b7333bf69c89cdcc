//! Ingest driver: the decision core of a create-then-bulk-insert run.
//!
//! The driver holds the create statement and the insert prefix. The caller
//! performs each action the driver hands out — execute a statement against
//! its gateway and feed the reply back, or fetch the raw bytes of the
//! tabular source — so the source is read only after the create statement
//! was accepted. A rejected create ends the run at once. Once the source
//! arrives the driver hands out one insert per readable record, in source
//! order; at the first unreadable record it stops and reports the read
//! failure, with the earlier inserts already issued. A rejected row insert
//! never changes the driver's outcome: completion says only that every
//! readable row statement was handed out, not that every row went in — a
//! deliberate, documented limitation that callers must weigh.

use vstd::prelude::*;

use crate::builder::build_insert;
use crate::builder::insert_statement;
use crate::reader::ReadError;
use crate::reader::read_prefix;
use crate::reader::row_views;
use crate::reader::source_prefix;
use vstd::pervasive::unreached;

verus! {

/// Where the driver stands in its run.
#[derive(Clone, Copy, PartialEq, Eq, Structural, Debug)]
pub enum Phase {
    /// Built, create statement not yet handed out.
    Ready,
    /// The create statement is out; its reply is awaited.
    CreatePending,
    /// The create statement was accepted; the source bytes are awaited.
    AwaitingSource,
    /// Row inserts are being handed out one at a time.
    Inserting,
    /// The outcome has been reported.
    Done,
}

/// What the gateway said of one executed statement.
#[derive(PartialEq, Eq, Debug)]
pub enum GatewayReply {
    /// The statement was executed.
    Accepted,
    /// The statement was rejected, with the gateway's error text.
    Rejected(Vec<u8>),
}

/// The view of a gateway reply.
pub enum ReplyView {
    /// The statement was executed.
    Accepted,
    /// The statement was rejected, with the gateway's error text.
    Rejected(Seq<u8>),
}

impl View for GatewayReply {
    type V = ReplyView;

    open spec fn view(&self) -> ReplyView {
        match self {
            GatewayReply::Accepted => ReplyView::Accepted,
            GatewayReply::Rejected(m) => ReplyView::Rejected(m@),
        }
    }
}

/// One piece of outside input the driver consumes: a gateway reply, or the
/// fetched source bytes.
pub enum EventView {
    /// The gateway's reply to the last executed statement.
    Reply(ReplyView),
    /// The raw bytes of the tabular source.
    Source(Seq<u8>),
}

/// How a whole ingest run ended.
#[derive(PartialEq, Eq, Debug)]
pub enum IngestOutcome {
    /// The create statement was accepted and every readable row was handed
    /// out.
    Completed,
    /// The create statement was rejected, with the gateway's error text.
    CreateFailed(Vec<u8>),
    /// A record could not be read; the rows before it were handed out.
    SourceMalformed(ReadError),
}

/// The view of an ingest outcome.
pub enum OutcomeView {
    /// The create statement was accepted and every readable row was handed
    /// out.
    Completed,
    /// The create statement was rejected, with the gateway's error text.
    CreateFailed(Seq<u8>),
    /// A record could not be read; the rows before it were handed out.
    SourceMalformed(ReadError),
}

impl View for IngestOutcome {
    type V = OutcomeView;

    open spec fn view(&self) -> OutcomeView {
        match self {
            IngestOutcome::Completed => OutcomeView::Completed,
            IngestOutcome::CreateFailed(m) => OutcomeView::CreateFailed(m@),
            IngestOutcome::SourceMalformed(e) => OutcomeView::SourceMalformed(*e),
        }
    }
}

/// What the caller must do next.
#[derive(PartialEq, Eq, Debug)]
pub enum DriverAction {
    /// Execute this statement against the gateway and feed back the reply.
    Execute(Vec<u8>),
    /// Read the tabular source and hand its bytes back.
    FetchSource,
    /// The run is over with this outcome; do nothing more.
    Report(IngestOutcome),
}

/// The view of a driver action.
pub enum ActionView {
    /// Execute this statement against the gateway and feed back the reply.
    Execute(Seq<u8>),
    /// Read the tabular source and hand its bytes back.
    FetchSource,
    /// The run is over with this outcome; do nothing more.
    Report(OutcomeView),
}

impl View for DriverAction {
    type V = ActionView;

    open spec fn view(&self) -> ActionView {
        match self {
            DriverAction::Execute(s) => ActionView::Execute(s@),
            DriverAction::FetchSource => ActionView::FetchSource,
            DriverAction::Report(o) => ActionView::Report(o@),
        }
    }
}

/// The driver as its model: the two statements it was built over, the
/// readable rows of the source once it arrived, the read failure that ends
/// them, if any, the index of the next row to hand out, and the phase.
pub struct DriverModel {
    /// The create statement handed out first.
    pub create: Seq<u8>,
    /// The insert prefix each row statement starts with.
    pub prefix: Seq<u8>,
    /// The readable rows of the source; filled when the source arrives.
    pub rows: Seq<Seq<Seq<u8>>>,
    /// The read failure after the readable rows, if the source had one.
    pub terminal: Option<ReadError>,
    /// The next row to hand out.
    pub next: int,
    /// Where the run stands.
    pub phase: Phase,
}

/// The outcome a run reports once every readable row went out: completion,
/// or the read failure that cut the source short.
pub open spec fn run_outcome(terminal: Option<ReadError>) -> OutcomeView {
    match terminal {
        None => OutcomeView::Completed,
        Some(e) => OutcomeView::SourceMalformed(e),
    }
}

/// The driver's invariant: while inserting, the next index stays within
/// the rows.
pub open spec fn driver_wf(d: DriverModel) -> bool {
    d.phase == Phase::Inserting ==> 1 <= d.next <= d.rows.len()
}

/// One decision of the driver on one piece of outside input.
pub open spec fn spec_step(d: DriverModel, ev: EventView) -> (DriverModel, ActionView) {
    match (d.phase, ev) {
        (Phase::CreatePending, EventView::Reply(reply)) => match reply {
            ReplyView::Rejected(m) => (
                DriverModel { phase: Phase::Done, ..d },
                ActionView::Report(OutcomeView::CreateFailed(m)),
            ),
            ReplyView::Accepted => (
                DriverModel { phase: Phase::AwaitingSource, ..d },
                ActionView::FetchSource,
            ),
        },
        (Phase::AwaitingSource, EventView::Source(s)) => {
            let (rows, terminal) = source_prefix(s);
            if rows.len() == 0 {
                (
                    DriverModel { rows, terminal, phase: Phase::Done, ..d },
                    ActionView::Report(run_outcome(terminal)),
                )
            } else {
                (
                    DriverModel { rows, terminal, next: 1, phase: Phase::Inserting, ..d },
                    ActionView::Execute(insert_statement(d.prefix, rows[0])),
                )
            }
        },
        (Phase::Inserting, EventView::Reply(_)) => if d.next < d.rows.len() {
            (
                DriverModel { next: d.next + 1, ..d },
                ActionView::Execute(insert_statement(d.prefix, d.rows[d.next])),
            )
        } else {
            (DriverModel { phase: Phase::Done, ..d }, ActionView::Report(run_outcome(d.terminal)))
        },
        _ => (d, ActionView::Report(OutcomeView::Completed)),
    }
}

/// Drives a create-then-insert ingest; the caller runs the gateway and
/// reads the source.
pub struct IngestDriver {
    create_stmt: Vec<u8>,
    insert_prefix: Vec<u8>,
    rows: Vec<Vec<Vec<u8>>>,
    terminal: Option<ReadError>,
    next: usize,
    phase: Phase,
}

impl View for IngestDriver {
    type V = DriverModel;

    closed spec fn view(&self) -> DriverModel {
        DriverModel {
            create: self.create_stmt@,
            prefix: self.insert_prefix@,
            rows: row_views(self.rows@),
            terminal: self.terminal,
            next: self.next as int,
            phase: self.phase,
        }
    }
}

impl IngestDriver {
    /// Builds a driver over a create statement and an insert prefix.
    pub fn new(create_stmt: Vec<u8>, insert_prefix: Vec<u8>) -> (d: IngestDriver)
        ensures
            d@ == (DriverModel {
                create: create_stmt@,
                prefix: insert_prefix@,
                rows: Seq::empty(),
                terminal: None,
                next: 0,
                phase: Phase::Ready,
            }),
    {
        let d = IngestDriver {
            create_stmt,
            insert_prefix,
            rows: Vec::new(),
            terminal: None,
            next: 0,
            phase: Phase::Ready,
        };
        proof {
            assert(row_views(d.rows@) =~= Seq::<Seq<Seq<u8>>>::empty());
        }
        d
    }

    /// Whether the driver awaits a gateway reply.
    pub fn awaiting_reply(&self) -> (b: bool)
        ensures
            b == (self@.phase == Phase::CreatePending || self@.phase == Phase::Inserting),
    {
        match self.phase {
            Phase::CreatePending | Phase::Inserting => true,
            Phase::Ready | Phase::AwaitingSource | Phase::Done => false,
        }
    }

    /// Whether the driver awaits the source bytes.
    pub fn awaiting_source(&self) -> (b: bool)
        ensures
            b == (self@.phase == Phase::AwaitingSource),
    {
        match self.phase {
            Phase::AwaitingSource => true,
            _ => false,
        }
    }

    /// Whether the driver has not yet handed out its create statement.
    pub fn is_ready(&self) -> (b: bool)
        ensures
            b == (self@.phase == Phase::Ready),
    {
        match self.phase {
            Phase::Ready => true,
            _ => false,
        }
    }

    /// Hands out the create statement, the run's first action.
    pub fn begin(&mut self) -> (a: DriverAction)
        requires
            old(self)@.phase == Phase::Ready,
        ensures
            final(self)@ == (DriverModel { phase: Phase::CreatePending, ..old(self)@ }),
            driver_wf(final(self)@),
            a@ == ActionView::Execute(old(self)@.create),
    {
        self.phase = Phase::CreatePending;
        let mut stmt: Vec<u8> = Vec::new();
        crate::builder::push_all(&mut stmt, &self.create_stmt);
        proof {
            assert(stmt@ =~= self.create_stmt@);
        }
        DriverAction::Execute(stmt)
    }

    /// Takes the gateway's reply to the last handed-out statement and
    /// decides the next action, as `spec_step` says.
    pub fn on_reply(&mut self, reply: GatewayReply) -> (a: DriverAction)
        requires
            old(self)@.phase == Phase::CreatePending || old(self)@.phase == Phase::Inserting,
            driver_wf(old(self)@),
        ensures
            (final(self)@, a@) == spec_step(old(self)@, EventView::Reply(reply@)),
            driver_wf(final(self)@),
    {
        match self.phase {
            Phase::CreatePending => match reply {
                GatewayReply::Rejected(m) => {
                    self.phase = Phase::Done;
                    DriverAction::Report(IngestOutcome::CreateFailed(m))
                },
                GatewayReply::Accepted => {
                    self.phase = Phase::AwaitingSource;
                    DriverAction::FetchSource
                },
            },
            Phase::Inserting => {
                if self.next < self.rows.len() {
                    let stmt = build_insert(&self.insert_prefix, &self.rows[self.next]);
                    self.next = self.next + 1;
                    DriverAction::Execute(stmt)
                } else {
                    self.phase = Phase::Done;
                    match self.terminal {
                        None => DriverAction::Report(IngestOutcome::Completed),
                        Some(e) => DriverAction::Report(IngestOutcome::SourceMalformed(e)),
                    }
                }
            },
            Phase::Ready | Phase::AwaitingSource | Phase::Done => {
                proof {
                    assert(false);
                }
                unreached()
            },
        }
    }

    /// Takes the fetched source bytes and decides the next action, as
    /// `spec_step` says: the first readable row's insert, or the report
    /// when there is none.
    pub fn on_source(&mut self, source: Vec<u8>) -> (a: DriverAction)
        requires
            old(self)@.phase == Phase::AwaitingSource,
        ensures
            (final(self)@, a@) == spec_step(old(self)@, EventView::Source(source@)),
            driver_wf(final(self)@),
    {
        let (rows, terminal) = read_prefix(&source);
        if rows.len() == 0 {
            self.rows = rows;
            self.terminal = terminal;
            self.phase = Phase::Done;
            match terminal {
                None => DriverAction::Report(IngestOutcome::Completed),
                Some(e) => DriverAction::Report(IngestOutcome::SourceMalformed(e)),
            }
        } else {
            let stmt = build_insert(&self.insert_prefix, &rows[0]);
            self.rows = rows;
            self.terminal = terminal;
            self.next = 1;
            self.phase = Phase::Inserting;
            DriverAction::Execute(stmt)
        }
    }
}

/// The driver run to its end on a sequence of outside inputs: the final
/// model, the statements handed out for execution, and the reported
/// outcome when one input ended the run.
pub open spec fn driver_run(d: DriverModel, events: Seq<EventView>) -> (
    DriverModel,
    Seq<Seq<u8>>,
    Option<OutcomeView>,
)
    decreases events.len(),
{
    if events.len() == 0 || !(d.phase == Phase::CreatePending || d.phase == Phase::AwaitingSource
        || d.phase == Phase::Inserting) {
        (d, Seq::empty(), None)
    } else {
        let (d2, act) = spec_step(d, events[0]);
        match act {
            ActionView::Execute(s) => {
                let (df, stmts, out) = driver_run(d2, events.drop_first());
                (df, seq![s] + stmts, out)
            },
            ActionView::FetchSource => driver_run(d2, events.drop_first()),
            ActionView::Report(o) => (d2, Seq::empty(), Some(o)),
        }
    }
}

/// Law: when the create statement is rejected, the driver reports that
/// failure at once and hands out no row statement at all.
pub proof fn lemma_create_failure_stops(d: DriverModel, events: Seq<EventView>, m: Seq<u8>)
    requires
        d.phase == Phase::CreatePending,
        events.len() > 0,
        events[0] == EventView::Reply(ReplyView::Rejected(m)),
    ensures
        driver_run(d, events).1 == Seq::<Seq<u8>>::empty(),
        driver_run(d, events).2 == Some(OutcomeView::CreateFailed(m)),
{
}

/// While inserting, the driver hands out the remaining row statements in
/// order, whatever each reply says, then reports the run's outcome.
proof fn lemma_inserting_runs_out(d: DriverModel, events: Seq<EventView>)
    requires
        d.phase == Phase::Inserting,
        1 <= d.next <= d.rows.len(),
        events.len() == d.rows.len() - d.next + 1,
        forall|i: int| 0 <= i < events.len() ==> events[i] is Reply,
    ensures
        driver_run(d, events).1 == Seq::new(
            (d.rows.len() - d.next) as nat,
            |i: int| insert_statement(d.prefix, d.rows[d.next + i]),
        ),
        driver_run(d, events).2 == Some(run_outcome(d.terminal)),
    decreases events.len(),
{
    if d.next == d.rows.len() {
        assert(driver_run(d, events).1 =~= Seq::new(
            (d.rows.len() - d.next) as nat,
            |i: int| insert_statement(d.prefix, d.rows[d.next + i]),
        ));
    } else {
        let (d2, act) = spec_step(d, events[0]);
        assert(forall|i: int|
            0 <= i < events.drop_first().len() ==> #[trigger] events.drop_first()[i] == events[
                i + 1
            ]);
        lemma_inserting_runs_out(d2, events.drop_first());
        assert(seq![insert_statement(d.prefix, d.rows[d.next])] + Seq::new(
            (d2.rows.len() - d2.next) as nat,
            |i: int| insert_statement(d2.prefix, d2.rows[d2.next + i]),
        ) =~= Seq::new(
            (d.rows.len() - d.next) as nat,
            |i: int| insert_statement(d.prefix, d.rows[d.next + i]),
        ));
    }
}

/// Law: once the create statement is accepted and the source arrives, the
/// driver hands out exactly one insert per readable record, in source
/// order, and then reports completion — or the read failure that cut the
/// source short — whatever the gateway said of each row: per-row failures
/// are swallowed and never reach the outcome.
pub proof fn lemma_accepted_run_follows_source(
    d: DriverModel,
    events: Seq<EventView>,
    src: Seq<u8>,
)
    requires
        d.phase == Phase::CreatePending,
        events.len() == 2 + source_prefix(src).0.len(),
        events[0] == EventView::Reply(ReplyView::Accepted),
        events[1] == EventView::Source(src),
        forall|i: int| 2 <= i < events.len() ==> events[i] is Reply,
    ensures
        driver_run(d, events).1 == Seq::new(
            source_prefix(src).0.len(),
            |i: int| insert_statement(d.prefix, source_prefix(src).0[i]),
        ),
        driver_run(d, events).2 == Some(run_outcome(source_prefix(src).1)),
{
    let (rows, terminal) = source_prefix(src);
    let (d2, act2) = spec_step(d, events[0]);
    let tail = events.drop_first();
    assert(tail[0] == events[1]);
    let (d3, act3) = spec_step(d2, tail[0]);
    let tail2 = tail.drop_first();
    assert(forall|i: int| 0 <= i < tail2.len() ==> #[trigger] tail2[i] == events[i + 2]);
    assert(act2 == ActionView::FetchSource);
    assert(driver_run(d, events) == driver_run(d2, tail));
    if rows.len() == 0 {
        assert(driver_run(d2, tail) == (d3, Seq::<Seq<u8>>::empty(), Some(run_outcome(terminal))));
        assert(driver_run(d, events).1 =~= Seq::new(
            rows.len(),
            |i: int| insert_statement(d.prefix, rows[i]),
        ));
    } else {
        lemma_inserting_runs_out(d3, tail2);
        assert(driver_run(d2, tail).1 == seq![insert_statement(d.prefix, rows[0])] + driver_run(
            d3,
            tail2,
        ).1);
        assert(driver_run(d2, tail).2 == driver_run(d3, tail2).2);
        assert(seq![insert_statement(d.prefix, rows[0])] + Seq::new(
            (d3.rows.len() - d3.next) as nat,
            |i: int| insert_statement(d3.prefix, d3.rows[d3.next + i]),
        ) =~= Seq::new(rows.len(), |i: int| insert_statement(d.prefix, rows[i])));
    }
}

/// Law: a run whose source reads wholly into rows hands out exactly those
/// rows' inserts, in order, and reports completion even when the gateway
/// rejected every one of them.
pub proof fn lemma_row_replies_ignored(d: DriverModel, events: Seq<EventView>, src: Seq<u8>)
    requires
        d.phase == Phase::CreatePending,
        source_prefix(src).1 is None,
        events.len() == 2 + source_prefix(src).0.len(),
        events[0] == EventView::Reply(ReplyView::Accepted),
        events[1] == EventView::Source(src),
        forall|i: int| 2 <= i < events.len() ==> events[i] is Reply,
    ensures
        driver_run(d, events).1 == Seq::new(
            source_prefix(src).0.len(),
            |i: int| insert_statement(d.prefix, source_prefix(src).0[i]),
        ),
        driver_run(d, events).2 == Some(OutcomeView::Completed),
{
    lemma_accepted_run_follows_source(d, events, src);
}

/// Law: a record that cannot be read ends the run right after the rows
/// before it: their inserts are handed out in order, then the read failure
/// is reported.
pub proof fn lemma_read_failure_aborts(
    d: DriverModel,
    events: Seq<EventView>,
    src: Seq<u8>,
    e: ReadError,
)
    requires
        d.phase == Phase::CreatePending,
        source_prefix(src).1 == Some(e),
        events.len() == 2 + source_prefix(src).0.len(),
        events[0] == EventView::Reply(ReplyView::Accepted),
        events[1] == EventView::Source(src),
        forall|i: int| 2 <= i < events.len() ==> events[i] is Reply,
    ensures
        driver_run(d, events).1 == Seq::new(
            source_prefix(src).0.len(),
            |i: int| insert_statement(d.prefix, source_prefix(src).0[i]),
        ),
        driver_run(d, events).2 == Some(OutcomeView::SourceMalformed(e)),
{
    lemma_accepted_run_follows_source(d, events, src);
}

/// Law: an empty source after an accepted create statement completes with
/// no row statement handed out.
pub proof fn lemma_empty_source_completes(d: DriverModel, events: Seq<EventView>, src: Seq<u8>)
    requires
        d.phase == Phase::CreatePending,
        source_prefix(src) == (Seq::<Seq<Seq<u8>>>::empty(), None::<ReadError>),
        events.len() == 2,
        events[0] == EventView::Reply(ReplyView::Accepted),
        events[1] == EventView::Source(src),
    ensures
        driver_run(d, events).1 == Seq::<Seq<u8>>::empty(),
        driver_run(d, events).2 == Some(OutcomeView::Completed),
{
    lemma_accepted_run_follows_source(d, events, src);
    assert(Seq::new(0, |i: int| insert_statement(d.prefix, source_prefix(src).0[i]))
        =~= Seq::<Seq<u8>>::empty());
}

} // verus!
