//! The pipeline driver: one loop over the merged arrivals.
//!
//! The driver owns the merger and the watermarks and decides; it neither
//! waits nor writes. Its surroundings wait on the sources that it wants, hand
//! over what they yield, carry out the effects that a step asks for, and say
//! when they are done:
//!
//! - `Idle` becomes `AwaitingArrival` on `start`.
//! - In `AwaitingArrival`, `advance` takes the next merged arrival and goes to
//!   `Processing`; with nothing held it stays, and once every source has
//!   ended it goes to `Draining`.
//! - `complete` ends `Processing`, back to `AwaitingArrival`, and ends
//!   `Draining`, on to `Terminated`.
//! - `stop` ends the run: at once while nothing is in flight, else as soon as
//!   the arrival in flight is complete.
//!
//! A source that fails is reported and taken as ended; whether the run goes
//! on with the other sources is the choice of `SourcePolicy`. A sink that
//! keeps failing ends the run by the rule of `SinkHealth`.

use crate::block::Arrival;
use crate::effect::{
    effect_views, reports_of, Effect, EffectView, Failure, FailureView, SinkKind,
};
use crate::extract::{arrival_effects, extract_arrival};
use crate::merge::{
    held, items_of, lemma_items_push, lemma_scan, lemma_take_is_live, MergeState, Merger,
};
use crate::sink::{LogBookView, SinkHealth};
use crate::text::texts;
use crate::watermark::{
    lemma_observed_widens, marks_valid, never_narrowed, observed, Marks, Snapshot,
    WatermarkTracker,
};
use vstd::prelude::*;

verus! {

/// Where the driver stands in its loop.
#[derive(Clone, Copy, Debug, PartialEq, Eq, Structural)]
pub enum Phase {
    /// Not started.
    Idle,
    /// Ready to take the next merged arrival.
    AwaitingArrival,
    /// The effects of an arrival are being carried out.
    Processing,
    /// Every source has ended; what is left is being flushed.
    Draining,
    /// The run is over.
    Terminated,
}

/// What becomes of the run when a source fails.
#[derive(Clone, Copy, Debug, PartialEq, Eq, Structural)]
pub enum SourcePolicy {
    /// The source is taken as ended and the run goes on with the others.
    EndSource,
    /// The run ends once the failure has been reported.
    AbortRun,
}

/// What a step of the driver asks of its surroundings, as contracts speak of
/// it.
pub enum StepView {
    Effects { effects: Seq<EffectView> },
    Wait,
    Drain,
    Refused,
}

/// What a step of the driver asks of its surroundings.
#[derive(Debug, PartialEq, Eq)]
pub enum Step {
    /// An arrival was taken: carry out its effects in order, then call
    /// `complete`.
    Effects { effects: Vec<Effect> },
    /// Nothing is held: wait on the sources that are wanted.
    Wait,
    /// Every source has ended: flush the sinks, then call `complete`.
    Drain,
    /// The driver is not awaiting an arrival; nothing was done.
    Refused,
}

impl View for Step {
    type V = StepView;

    open spec fn view(&self) -> StepView {
        match *self {
            Step::Effects { effects } => StepView::Effects { effects: effect_views(effects@) },
            Step::Wait => StepView::Wait,
            Step::Drain => StepView::Drain,
            Step::Refused => StepView::Refused,
        }
    }
}

/// The driver as contracts speak of it.
pub struct PipelineState {
    pub phase: Phase,
    pub policy: SourcePolicy,
    /// The run ends when the arrival in flight is complete.
    pub stopping: bool,
    pub marks: Marks,
    pub merge: MergeState<Arrival>,
    pub health: SinkHealth,
}

impl PipelineState {
    /// The merger is well formed and every watermark is a valid range.
    pub open spec fn wf(self) -> bool {
        self.merge.wf() && marks_valid(self.marks)
    }

    /// The driver before it is started.
    pub open spec fn initial(labels: Seq<Seq<char>>, policy: SourcePolicy, limit: u32) -> Self {
        PipelineState {
            phase: Phase::Idle,
            policy,
            stopping: false,
            marks: Marks::empty(),
            merge: MergeState::start(labels),
            health: SinkHealth { limit, blocks: 0, pallets: 0, events: 0 },
        }
    }

    /// After `start`.
    pub open spec fn start(self) -> Self {
        if self.phase == Phase::Idle {
            PipelineState { phase: Phase::AwaitingArrival, ..self }
        } else {
            self
        }
    }

    /// Whether an arrival of `source` would be accepted now: the run is
    /// under way and not about to end, and the merger wants the source.
    pub open spec fn wants(self, source: int) -> bool {
        (self.phase == Phase::AwaitingArrival || self.phase == Phase::Processing)
            && !self.stopping && self.merge.wants(source)
    }

    /// After `source` yields `arrival`.
    pub open spec fn offer(self, source: int, arrival: Arrival) -> Self {
        if self.wants(source) {
            PipelineState { merge: self.merge.offer(source, arrival), ..self }
        } else {
            self
        }
    }

    /// After `source` ends.
    pub open spec fn close(self, source: int) -> Self {
        if self.phase == Phase::Terminated {
            self
        } else {
            PipelineState { merge: self.merge.close(source), ..self }
        }
    }

    /// The source whose arrival `advance` takes.
    pub open spec fn serving(self) -> Option<int> {
        if self.phase != Phase::AwaitingArrival {
            None
        } else {
            self.merge.next()
        }
    }

    /// The arrival that `advance` takes, with the label of its source.
    pub open spec fn taking(self) -> Option<(Seq<char>, Arrival)> {
        match self.serving() {
            Some(source) => Some((self.merge.labels[source], self.merge.slots[source]->0)),
            None => None,
        }
    }

    /// What `advance` asks for.
    pub open spec fn asked(self) -> StepView {
        if self.phase != Phase::AwaitingArrival {
            StepView::Refused
        } else {
            match self.merge.next() {
                Some(source) => StepView::Effects {
                    effects: arrival_effects(
                        self.merge.labels[source],
                        self.merge.slots[source]->0,
                    ),
                },
                None => if self.merge.finished() {
                    StepView::Drain
                } else {
                    StepView::Wait
                },
            }
        }
    }

    /// After `advance`. An arrival that holds a block widens the watermark of
    /// its chain. One that holds the failure of its source ends that source,
    /// and makes the run end too where the policy says so.
    pub open spec fn advance(self) -> Self {
        if self.phase != Phase::AwaitingArrival {
            self
        } else {
            match self.merge.next() {
                Some(source) => match self.merge.slots[source]->0 {
                    Ok(block) => PipelineState {
                        phase: Phase::Processing,
                        marks: observed(self.marks, self.merge.labels[source], block.height),
                        merge: self.merge.take(),
                        ..self
                    },
                    Err(_) => PipelineState {
                        phase: Phase::Processing,
                        stopping: self.stopping || self.policy == SourcePolicy::AbortRun,
                        merge: self.merge.take().close(source),
                        ..self
                    },
                },
                None => if self.merge.finished() {
                    PipelineState { phase: Phase::Draining, ..self }
                } else {
                    self
                },
            }
        }
    }

    /// After `complete`.
    pub open spec fn complete(self) -> Self {
        match self.phase {
            Phase::Processing => if self.stopping || self.health.spec_fatal() {
                PipelineState { phase: Phase::Terminated, ..self }
            } else {
                PipelineState { phase: Phase::AwaitingArrival, ..self }
            },
            Phase::Draining => PipelineState { phase: Phase::Terminated, ..self },
            _ => self,
        }
    }

    /// After `stop`.
    pub open spec fn stop(self) -> Self {
        match self.phase {
            Phase::Idle | Phase::AwaitingArrival => PipelineState {
                phase: Phase::Terminated,
                ..self
            },
            Phase::Processing => PipelineState { stopping: true, ..self },
            _ => self,
        }
    }

    /// After the outcome of one append is made known.
    pub open spec fn record_append(self, sink: SinkKind, appended: bool) -> Self {
        if self.phase == Phase::Terminated {
            self
        } else {
            PipelineState { health: self.health.spec_record(sink, appended), ..self }
        }
    }
}

/// The pipeline driver.
#[derive(Debug)]
pub struct Pipeline {
    phase: Phase,
    policy: SourcePolicy,
    stopping: bool,
    tracker: WatermarkTracker,
    merger: Merger<Arrival>,
    health: SinkHealth,
}

impl Pipeline {
    /// The driver as contracts speak of it.
    pub closed spec fn view(&self) -> PipelineState {
        PipelineState {
            phase: self.phase,
            policy: self.policy,
            stopping: self.stopping,
            marks: self.tracker@,
            merge: self.merger@,
            health: self.health,
        }
    }

    /// The parts of the driver are well formed.
    pub closed spec fn wf(&self) -> bool {
        self.tracker.wf() && self.merger.wf()
    }

    /// A well-formed driver has a well-formed state.
    pub proof fn lemma_wf(&self)
        requires
            self.wf(),
        ensures
            self@.wf(),
    {
        self.tracker.lemma_valid();
    }

    /// A driver over one source per label, not yet started. A run is given up
    /// after `sink_failure_limit` failed appends in a row to one sink, or
    /// never on that account where the limit is zero.
    pub fn new(labels: Vec<String>, policy: SourcePolicy, sink_failure_limit: u32) -> (pipeline:
        Pipeline)
        ensures
            pipeline.wf(),
            pipeline@ == PipelineState::initial(texts(labels@), policy, sink_failure_limit),
    {
        Pipeline {
            phase: Phase::Idle,
            policy,
            stopping: false,
            tracker: WatermarkTracker::new(),
            merger: Merger::new(labels),
            health: SinkHealth::new(sink_failure_limit),
        }
    }

    /// Where the driver stands.
    pub fn phase(&self) -> (phase: Phase)
        ensures
            phase == self@.phase,
    {
        self.phase
    }

    /// How the sinks have fared.
    pub fn health(&self) -> (health: SinkHealth)
        ensures
            health == self@.health,
    {
        self.health
    }

    /// A copy of the watermarks as they are now.
    pub fn snapshot(&self) -> (snapshot: Snapshot)
        requires
            self.wf(),
        ensures
            snapshot.wf(),
            snapshot@ == self@.marks,
    {
        self.tracker.snapshot()
    }

    /// The number of sources.
    pub fn source_count(&self) -> (count: usize)
        ensures
            count == self@.merge.count(),
    {
        self.merger.source_count()
    }

    /// Starts the run. Returns whether the driver was idle; a driver that was
    /// not is left as it is.
    pub fn start(&mut self) -> (started: bool)
        requires
            old(self).wf(),
        ensures
            final(self).wf(),
            final(self)@ == old(self)@.start(),
            started == (old(self)@.phase == Phase::Idle),
    {
        match self.phase {
            Phase::Idle => {
                self.phase = Phase::AwaitingArrival;
                true
            },
            _ => false,
        }
    }

    /// Whether the next arrival of `source` would be accepted: the
    /// surroundings wait on exactly the sources for which this holds.
    pub fn wants(&self, source: usize) -> (wanted: bool)
        requires
            self.wf(),
        ensures
            wanted == self@.wants(source as int),
    {
        let under_way = match self.phase {
            Phase::AwaitingArrival | Phase::Processing => true,
            _ => false,
        };
        under_way && !self.stopping && self.merger.wants(source)
    }

    /// Hands over what `source` has yielded. Where it is not wanted, nothing
    /// changes and it comes back.
    pub fn offer(&mut self, source: usize, arrival: Arrival) -> (refused: Option<Arrival>)
        requires
            old(self).wf(),
        ensures
            final(self).wf(),
            final(self)@ == old(self)@.offer(source as int, arrival),
            refused == (if old(self)@.wants(source as int) {
                None
            } else {
                Some(arrival)
            }),
    {
        if self.wants(source) {
            self.merger.offer(source, arrival)
        } else {
            Some(arrival)
        }
    }

    /// Records that `source` has ended. Returns whether that was taken note
    /// of: the source exists and the run is not over.
    pub fn close(&mut self, source: usize) -> (noted: bool)
        requires
            old(self).wf(),
        ensures
            final(self).wf(),
            final(self)@ == old(self)@.close(source as int),
            noted == (old(self)@.phase != Phase::Terminated && source < old(self)@.merge.count()),
    {
        match self.phase {
            Phase::Terminated => false,
            _ => self.merger.close(source),
        }
    }

    /// Takes the next merged arrival, if the driver awaits one. The watermark
    /// of its chain is widened by the height of its block, and the step lists
    /// what is to be appended and reported for it. The effects depend on the
    /// arrival and the label of its source, and on nothing else.
    pub fn advance(&mut self) -> (step: Step)
        requires
            old(self).wf(),
        ensures
            final(self).wf(),
            final(self)@ == old(self)@.advance(),
            step@ == old(self)@.asked(),
            never_narrowed(old(self)@.marks, final(self)@.marks),
    {
        proof {
            self.tracker.lemma_valid();
            lemma_advance_widens(self@);
        }
        match self.phase {
            Phase::AwaitingArrival => {},
            _ => {
                return Step::Refused;
            },
        }
        match self.merger.take() {
            Some(tagged) => {
                let effects = extract_arrival(tagged.chain.as_str(), &tagged.item);
                match &tagged.item {
                    Ok(block) => {
                        self.tracker.observe(tagged.chain.as_str(), block.height);
                    },
                    Err(_) => {
                        self.merger.close(tagged.source);
                        match self.policy {
                            SourcePolicy::AbortRun => {
                                self.stopping = true;
                            },
                            SourcePolicy::EndSource => {},
                        }
                    },
                }
                self.phase = Phase::Processing;
                Step::Effects { effects }
            },
            None => {
                if self.merger.is_finished() {
                    self.phase = Phase::Draining;
                    Step::Drain
                } else {
                    Step::Wait
                }
            },
        }
    }

    /// Says that what the last step asked for has been done. Returns the
    /// phase that the driver is in now.
    pub fn complete(&mut self) -> (phase: Phase)
        requires
            old(self).wf(),
        ensures
            final(self).wf(),
            final(self)@ == old(self)@.complete(),
            phase == final(self)@.phase,
    {
        match self.phase {
            Phase::Processing => {
                if self.stopping || self.health.fatal() {
                    self.phase = Phase::Terminated;
                } else {
                    self.phase = Phase::AwaitingArrival;
                }
            },
            Phase::Draining => {
                self.phase = Phase::Terminated;
            },
            _ => {},
        }
        self.phase
    }

    /// Asks the run to end. While an arrival is in flight the driver lets it
    /// complete first. Returns the phase that the driver is in now.
    pub fn stop(&mut self) -> (phase: Phase)
        requires
            old(self).wf(),
        ensures
            final(self).wf(),
            final(self)@ == old(self)@.stop(),
            phase == final(self)@.phase,
    {
        match self.phase {
            Phase::Idle | Phase::AwaitingArrival => {
                self.phase = Phase::Terminated;
            },
            Phase::Processing => {
                self.stopping = true;
            },
            _ => {},
        }
        self.phase
    }

    /// Makes the outcome of one append known: `Ok` where the line was
    /// appended, else what went wrong. A failure comes back as the report to
    /// make; the run goes on until the sink has failed as often in a row as
    /// the limit says.
    pub fn record_append(&mut self, sink: SinkKind, outcome: Result<(), String>) -> (report: Option<
        Failure,
    >)
        requires
            old(self).wf(),
        ensures
            final(self).wf(),
            final(self)@ == old(self)@.record_append(sink, outcome is Ok),
            match report {
                Some(failure) => outcome is Err && failure@ == (FailureView::Sink {
                    sink,
                    detail: outcome->Err_0@,
                }),
                None => outcome is Ok,
            },
    {
        let appended = outcome.is_ok();
        match self.phase {
            Phase::Terminated => {},
            _ => {
                self.health = self.health.record(sink, appended);
            },
        }
        match outcome {
            Err(detail) => Some(Failure::Sink { sink, detail }),
            Ok(_) => None,
        }
    }
}

/// One thing that happens to a driver.
pub enum PipelineOp {
    Start,
    Offer { source: int, arrival: Arrival },
    Close { source: int },
    Advance,
    Complete,
    Stop,
    RecordAppend { sink: SinkKind, appended: bool },
}

/// The driver after one operation.
pub open spec fn pipeline_step(state: PipelineState, op: PipelineOp) -> PipelineState {
    match op {
        PipelineOp::Start => state.start(),
        PipelineOp::Offer { source, arrival } => state.offer(source, arrival),
        PipelineOp::Close { source } => state.close(source),
        PipelineOp::Advance => state.advance(),
        PipelineOp::Complete => state.complete(),
        PipelineOp::Stop => state.stop(),
        PipelineOp::RecordAppend { sink, appended } => state.record_append(sink, appended),
    }
}

/// The driver after a sequence of operations, made in order.
pub open spec fn pipeline_run(state: PipelineState, ops: Seq<PipelineOp>) -> PipelineState
    decreases ops.len(),
{
    if ops.len() == 0 {
        state
    } else {
        pipeline_step(pipeline_run(state, ops.drop_last()), ops.last())
    }
}

proof fn lemma_advance_widens(state: PipelineState)
    requires
        state.wf(),
    ensures
        state.advance().wf(),
        never_narrowed(state.marks, state.advance().marks),
{
    if state.phase == Phase::AwaitingArrival {
        if state.merge.count() > 0 {
            lemma_scan(state.merge, state.merge.cursor, state.merge.labels.len());
        }
        match state.merge.next() {
            Some(source) => match state.merge.slots[source]->0 {
                Ok(block) => {
                    lemma_observed_widens(state.marks, state.merge.labels[source], block.height);
                },
                Err(_) => {},
            },
            None => {},
        }
    }
}

/// One operation keeps the driver well formed and narrows no watermark.
pub proof fn lemma_step_widens(state: PipelineState, op: PipelineOp)
    requires
        state.wf(),
    ensures
        pipeline_step(state, op).wf(),
        never_narrowed(state.marks, pipeline_step(state, op).marks),
{
    lemma_advance_widens(state);
}

/// Whatever happens to a driver, and in whatever order: it stays well formed,
/// so that every watermark has its lowest height at or below its highest, and
/// between any two points of its history no chain is lost, no lowest height
/// rises and no highest height falls.
pub proof fn lemma_run_widens(state: PipelineState, ops: Seq<PipelineOp>, i: int, j: int)
    requires
        state.wf(),
        0 <= i <= j <= ops.len(),
    ensures
        pipeline_run(state, ops.take(j)).wf(),
        never_narrowed(
            pipeline_run(state, ops.take(i)).marks,
            pipeline_run(state, ops.take(j)).marks,
        ),
    decreases j,
{
    if j == 0 {
        assert(ops.take(0) =~= Seq::empty());
    } else {
        let last = if i == j {
            j - 1
        } else {
            i
        };
        lemma_run_widens(state, ops, last, j - 1);
        assert(ops.take(j).drop_last() =~= ops.take(j - 1));
        lemma_step_widens(pipeline_run(state, ops.take(j - 1)), ops[j - 1]);
    }
}

/// The driver does not wait while an arrival is held: as long as it awaits an
/// arrival and one is held for some source, its next step takes an arrival,
/// whether the other sources have stalled or ended.
pub proof fn lemma_advance_is_live(state: PipelineState, source: int)
    requires
        state.wf(),
        state.phase == Phase::AwaitingArrival,
        0 <= source < state.merge.count(),
        state.merge.slots[source] is Some,
    ensures
        state.asked() is Effects,
        state.advance().phase == Phase::Processing,
{
    lemma_take_is_live(state.merge, source);
}

/// A run that is over stays over: no operation changes a terminated driver.
pub proof fn lemma_terminated_stays(state: PipelineState, op: PipelineOp)
    requires
        state.phase == Phase::Terminated,
    ensures
        pipeline_step(state, op) == state,
{
}

/// A driver with the history of its run: the arrivals that it has accepted
/// and those that it has served, each with the position of its source; the
/// arrivals that it has taken, each with the label of its source; the logs as
/// its steps have asked for them; and the failures that its steps have
/// reported.
pub struct PipelineTrace {
    pub state: PipelineState,
    pub accepted: Seq<(int, Arrival)>,
    pub served: Seq<(int, Arrival)>,
    pub taken: Seq<(Seq<char>, Arrival)>,
    pub book: LogBookView,
    pub reports: Seq<FailureView>,
}

/// The trace after one more operation.
pub open spec fn trace_step(trace: PipelineTrace, op: PipelineOp) -> PipelineTrace {
    let state = pipeline_step(trace.state, op);
    match op {
        PipelineOp::Offer { source, arrival } => PipelineTrace {
            state,
            accepted: if trace.state.wants(source) {
                trace.accepted.push((source, arrival))
            } else {
                trace.accepted
            },
            ..trace
        },
        PipelineOp::Advance => PipelineTrace {
            state,
            accepted: trace.accepted,
            served: match trace.state.serving() {
                Some(source) => trace.served.push((source, trace.state.merge.slots[source]->0)),
                None => trace.served,
            },
            taken: match trace.state.taking() {
                Some(arrival) => trace.taken.push(arrival),
                None => trace.taken,
            },
            book: match trace.state.asked() {
                StepView::Effects { effects } => trace.book.apply(effects),
                _ => trace.book,
            },
            reports: match trace.state.asked() {
                StepView::Effects { effects } => trace.reports + reports_of(effects),
                _ => trace.reports,
            },
        },
        _ => PipelineTrace { state, ..trace },
    }
}

/// The trace of a run that starts at `state` with empty logs.
pub open spec fn pipeline_trace(state: PipelineState, ops: Seq<PipelineOp>) -> PipelineTrace
    decreases ops.len(),
{
    if ops.len() == 0 {
        PipelineTrace {
            state,
            accepted: Seq::empty(),
            served: Seq::empty(),
            taken: Seq::empty(),
            book: LogBookView::empty(),
            reports: Seq::empty(),
        }
    } else {
        trace_step(pipeline_trace(state, ops.drop_last()), ops.last())
    }
}

/// The logs that a sequence of arrivals calls for, from empty logs.
pub open spec fn logs_of(arrivals: Seq<(Seq<char>, Arrival)>) -> LogBookView
    decreases arrivals.len(),
{
    if arrivals.len() == 0 {
        LogBookView::empty()
    } else {
        logs_of(arrivals.drop_last()).apply(
            arrival_effects(arrivals.last().0, arrivals.last().1),
        )
    }
}

/// The failures that a sequence of arrivals makes known.
pub open spec fn failures_of(arrivals: Seq<(Seq<char>, Arrival)>) -> Seq<FailureView>
    decreases arrivals.len(),
{
    if arrivals.len() == 0 {
        Seq::empty()
    } else {
        failures_of(arrivals.drop_last()) + reports_of(
            arrival_effects(arrivals.last().0, arrivals.last().1),
        )
    }
}

/// The watermarks after a sequence of arrivals: each block widens the range
/// of its chain, a failed source changes nothing.
pub open spec fn marks_after(marks: Marks, arrivals: Seq<(Seq<char>, Arrival)>) -> Marks
    decreases arrivals.len(),
{
    if arrivals.len() == 0 {
        marks
    } else {
        match arrivals.last().1 {
            Ok(block) => observed(
                marks_after(marks, arrivals.drop_last()),
                arrivals.last().0,
                block.height,
            ),
            Err(_) => marks_after(marks, arrivals.drop_last()),
        }
    }
}

/// A run is told by its arrivals: the logs, the reports and the watermarks of
/// a run are those that the merged sequence of arrivals calls for, one
/// arrival after the other. The policy, the outcome of the appends and the
/// moments at which a source yields or ends or the run is stopped decide
/// which arrivals are taken, and have no other part in them. Two runs that
/// take the same arrivals in the same order therefore leave the same logs,
/// the same reports and the same watermarks.
pub proof fn lemma_run_told_by_arrivals(state: PipelineState, ops: Seq<PipelineOp>)
    ensures
        pipeline_trace(state, ops).state == pipeline_run(state, ops),
        pipeline_trace(state, ops).book == logs_of(pipeline_trace(state, ops).taken),
        pipeline_trace(state, ops).reports == failures_of(pipeline_trace(state, ops).taken),
        pipeline_trace(state, ops).state.marks == marks_after(
            state.marks,
            pipeline_trace(state, ops).taken,
        ),
    decreases ops.len(),
{
    if ops.len() > 0 {
        let before = pipeline_trace(state, ops.drop_last());
        lemma_run_told_by_arrivals(state, ops.drop_last());
        match ops.last() {
            PipelineOp::Advance => {
                match before.state.taking() {
                    Some(arrival) => {
                        assert(before.taken.push(arrival).drop_last() =~= before.taken);
                    },
                    None => {},
                }
            },
            _ => {},
        }
    }
}

/// The driver loses nothing: in a run that starts with nothing held, the
/// arrivals served for a source, followed by the one still held for it, are
/// the arrivals accepted from that source, in the order in which it yielded
/// them. Each of them is served exactly once, whatever the other sources do.
pub proof fn lemma_run_serves_what_it_accepts(
    state: PipelineState,
    ops: Seq<PipelineOp>,
    source: int,
)
    requires
        state.wf(),
        state.merge.drained(),
    ensures
        pipeline_trace(state, ops).state.wf(),
        items_of(pipeline_trace(state, ops).accepted, source) == items_of(
            pipeline_trace(state, ops).served,
            source,
        ) + held(pipeline_trace(state, ops).state.merge, source),
    decreases ops.len(),
{
    let after = pipeline_trace(state, ops);
    if ops.len() == 0 {
        assert(items_of(after.accepted, source) =~= items_of(after.served, source) + held(
            after.state.merge,
            source,
        ));
    } else {
        let before = pipeline_trace(state, ops.drop_last());
        lemma_run_serves_what_it_accepts(state, ops.drop_last(), source);
        lemma_run_told_by_arrivals(state, ops.drop_last());
        lemma_step_widens(before.state, ops.last());
        match ops.last() {
            PipelineOp::Offer { source: from, arrival } => {
                if before.state.wants(from) {
                    lemma_items_push(before.accepted, (from, arrival), source);
                }
            },
            PipelineOp::Advance => {
                if before.state.merge.count() > 0 {
                    lemma_scan(
                        before.state.merge,
                        before.state.merge.cursor,
                        before.state.merge.labels.len(),
                    );
                }
                match before.state.serving() {
                    Some(from) => {
                        lemma_items_push(
                            before.served,
                            (from, before.state.merge.slots[from]->0),
                            source,
                        );
                    },
                    None => {},
                }
            },
            _ => {},
        }
        assert(items_of(after.accepted, source) =~= items_of(after.served, source) + held(
            after.state.merge,
            source,
        ));
    }
}

} // verus!
