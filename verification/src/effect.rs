//! What the pipeline asks of its surroundings: lines to append to a sink, and
//! failures to report.

use crate::text::{decimal, push_decimal};
use vstd::prelude::*;
use vstd::string::*;

verus! {

/// The three append-only destinations of log records.
#[derive(Clone, Copy, Debug, PartialEq, Eq, Structural)]
pub enum SinkKind {
    /// One record per block that arrived.
    Blocks,
    /// One record per extrinsic that was decoded.
    Pallets,
    /// One record per event that was decoded.
    Events,
}

impl SinkKind {
    /// The name of the sink.
    pub open spec fn spec_name(self) -> Seq<char> {
        match self {
            SinkKind::Blocks => "blocks"@,
            SinkKind::Pallets => "pallets"@,
            SinkKind::Events => "events"@,
        }
    }

    /// The name of the sink.
    pub fn name(self) -> (name: &'static str)
        ensures
            name@ == self.spec_name(),
    {
        match self {
            SinkKind::Blocks => "blocks",
            SinkKind::Pallets => "pallets",
            SinkKind::Events => "events",
        }
    }
}

/// What went wrong, by the collaborator that failed. The pipeline goes on
/// after each of them; none is passed over in silence.
#[derive(Clone, Debug, PartialEq, Eq)]
pub enum Failure {
    /// A source could not produce its next notification.
    Connection { chain: String, detail: String },
    /// The extrinsics of a block could not be fetched.
    BlockFetch { chain: String, height: u64, detail: String },
    /// One extrinsic could not be decoded.
    ExtrinsicDecode { chain: String, height: u64, index: u32, detail: String },
    /// The events of one extrinsic could not be fetched.
    EventsFetch { chain: String, height: u64, index: u32, detail: String },
    /// One event of an extrinsic, at `position` among its events, could not be
    /// decoded.
    EventDecode { chain: String, height: u64, index: u32, position: usize, detail: String },
    /// A line could not be appended to a sink.
    Sink { sink: SinkKind, detail: String },
}

/// A failure as contracts speak of it.
pub enum FailureView {
    Connection { chain: Seq<char>, detail: Seq<char> },
    BlockFetch { chain: Seq<char>, height: u64, detail: Seq<char> },
    ExtrinsicDecode { chain: Seq<char>, height: u64, index: u32, detail: Seq<char> },
    EventsFetch { chain: Seq<char>, height: u64, index: u32, detail: Seq<char> },
    EventDecode { chain: Seq<char>, height: u64, index: u32, position: usize, detail: Seq<char> },
    Sink { sink: SinkKind, detail: Seq<char> },
}

impl View for Failure {
    type V = FailureView;

    open spec fn view(&self) -> FailureView {
        match *self {
            Failure::Connection { chain, detail } => FailureView::Connection {
                chain: chain@,
                detail: detail@,
            },
            Failure::BlockFetch { chain, height, detail } => FailureView::BlockFetch {
                chain: chain@,
                height,
                detail: detail@,
            },
            Failure::ExtrinsicDecode { chain, height, index, detail } => {
                FailureView::ExtrinsicDecode { chain: chain@, height, index, detail: detail@ }
            },
            Failure::EventsFetch { chain, height, index, detail } => FailureView::EventsFetch {
                chain: chain@,
                height,
                index,
                detail: detail@,
            },
            Failure::EventDecode { chain, height, index, position, detail } => {
                FailureView::EventDecode { chain: chain@, height, index, position, detail: detail@ }
            },
            Failure::Sink { sink, detail } => FailureView::Sink { sink, detail: detail@ },
        }
    }
}

/// The words that say where in a chain something went wrong.
pub open spec fn block_place(chain: Seq<char>, height: u64) -> Seq<char> {
    "block "@ + decimal(height as nat) + " of "@ + chain
}

impl FailureView {
    /// The failure in words: where it happened, what could not be done, and
    /// what the collaborator said.
    pub open spec fn text(self) -> Seq<char> {
        match self {
            FailureView::Connection { chain, detail } => "source "@ + chain + ": no notification: "@
                + detail,
            FailureView::BlockFetch { chain, height, detail } => block_place(chain, height)
                + ": extrinsics not fetched: "@ + detail,
            FailureView::ExtrinsicDecode { chain, height, index, detail } => block_place(
                chain,
                height,
            ) + ": extrinsic "@ + decimal(index as nat) + " not decoded: "@ + detail,
            FailureView::EventsFetch { chain, height, index, detail } => block_place(
                chain,
                height,
            ) + ": extrinsic "@ + decimal(index as nat) + ": events not fetched: "@ + detail,
            FailureView::EventDecode { chain, height, index, position, detail } => block_place(
                chain,
                height,
            ) + ": extrinsic "@ + decimal(index as nat) + ": event "@ + decimal(position as nat)
                + " not decoded: "@ + detail,
            FailureView::Sink { sink, detail } => "sink "@ + sink.spec_name()
                + ": line not appended: "@ + detail,
        }
    }
}

fn place(chain: &str, height: u64) -> (text: String)
    ensures
        text@ == block_place(chain@, height),
{
    let mut text = String::from_str("block ");
    push_decimal(&mut text, height);
    text.append(" of ");
    text.append(chain);
    text
}

impl Failure {
    /// The failure in words, for whoever reads the reports.
    pub fn describe(&self) -> (text: String)
        ensures
            text@ == self@.text(),
    {
        match self {
            Failure::Connection { chain, detail } => {
                let mut text = String::from_str("source ");
                text.append(chain.as_str());
                text.append(": no notification: ");
                text.append(detail.as_str());
                text
            },
            Failure::BlockFetch { chain, height, detail } => {
                let mut text = place(chain.as_str(), *height);
                text.append(": extrinsics not fetched: ");
                text.append(detail.as_str());
                text
            },
            Failure::ExtrinsicDecode { chain, height, index, detail } => {
                let mut text = place(chain.as_str(), *height);
                text.append(": extrinsic ");
                push_decimal(&mut text, *index as u64);
                text.append(" not decoded: ");
                text.append(detail.as_str());
                text
            },
            Failure::EventsFetch { chain, height, index, detail } => {
                let mut text = place(chain.as_str(), *height);
                text.append(": extrinsic ");
                push_decimal(&mut text, *index as u64);
                text.append(": events not fetched: ");
                text.append(detail.as_str());
                text
            },
            Failure::EventDecode { chain, height, index, position, detail } => {
                let mut text = place(chain.as_str(), *height);
                text.append(": extrinsic ");
                push_decimal(&mut text, *index as u64);
                text.append(": event ");
                push_decimal(&mut text, *position as u64);
                text.append(" not decoded: ");
                text.append(detail.as_str());
                text
            },
            Failure::Sink { sink, detail } => {
                let mut text = String::from_str("sink ");
                text.append(sink.name());
                text.append(": line not appended: ");
                text.append(detail.as_str());
                text
            },
        }
    }
}

/// One request of the pipeline to its surroundings.
#[derive(Clone, Debug, PartialEq, Eq)]
pub enum Effect {
    /// Append `line`, followed by a line terminator, to `sink`.
    Append { sink: SinkKind, line: String },
    /// Make `failure` known.
    Report { failure: Failure },
}

/// An effect as contracts speak of it.
pub enum EffectView {
    Append { sink: SinkKind, line: Seq<char> },
    Report { failure: FailureView },
}

impl View for Effect {
    type V = EffectView;

    open spec fn view(&self) -> EffectView {
        match *self {
            Effect::Append { sink, line } => EffectView::Append { sink, line: line@ },
            Effect::Report { failure } => EffectView::Report { failure: failure@ },
        }
    }
}

/// A list of effects as contracts speak of it.
pub open spec fn effect_views(effects: Seq<Effect>) -> Seq<EffectView> {
    Seq::new(effects.len(), |i: int| effects[i]@)
}

/// The lines that a list of effects appends to `sink`, in order.
pub open spec fn lines_for(effects: Seq<EffectView>, sink: SinkKind) -> Seq<Seq<char>>
    decreases effects.len(),
{
    if effects.len() == 0 {
        Seq::empty()
    } else {
        match effects.last() {
            EffectView::Append { sink: to, line } if to == sink => lines_for(
                effects.drop_last(),
                sink,
            ).push(line),
            _ => lines_for(effects.drop_last(), sink),
        }
    }
}

/// The failures that a list of effects reports, in order.
pub open spec fn reports_of(effects: Seq<EffectView>) -> Seq<FailureView>
    decreases effects.len(),
{
    if effects.len() == 0 {
        Seq::empty()
    } else {
        match effects.last() {
            EffectView::Report { failure } => reports_of(effects.drop_last()).push(failure),
            _ => reports_of(effects.drop_last()),
        }
    }
}

/// The lines of a single effect.
pub open spec fn lines_of(effect: EffectView, sink: SinkKind) -> Seq<Seq<char>> {
    match effect {
        EffectView::Append { sink: to, line } if to == sink => seq![line],
        _ => Seq::empty(),
    }
}

/// The reports of a single effect.
pub open spec fn report_of(effect: EffectView) -> Seq<FailureView> {
    match effect {
        EffectView::Report { failure } => seq![failure],
        _ => Seq::empty(),
    }
}

/// The lines of a list of one effect.
pub proof fn lemma_lines_single(effect: EffectView, sink: SinkKind)
    ensures
        lines_for(seq![effect], sink) == lines_of(effect, sink),
{
    reveal_with_fuel(lines_for, 2);
    assert(seq![effect].drop_last() =~= Seq::<EffectView>::empty());
    assert(lines_for(seq![effect], sink) =~= lines_of(effect, sink));
}

/// The reports of a list of one effect.
pub proof fn lemma_reports_single(effect: EffectView)
    ensures
        reports_of(seq![effect]) == report_of(effect),
{
    reveal_with_fuel(reports_of, 2);
    assert(seq![effect].drop_last() =~= Seq::<EffectView>::empty());
    assert(reports_of(seq![effect]) =~= report_of(effect));
}

/// The lines of two lists of effects, one after the other.
pub proof fn lemma_lines_concat(a: Seq<EffectView>, b: Seq<EffectView>, sink: SinkKind)
    ensures
        lines_for(a + b, sink) == lines_for(a, sink) + lines_for(b, sink),
    decreases b.len(),
{
    if b.len() == 0 {
        assert(a + b =~= a);
        assert(lines_for(a, sink) + lines_for(b, sink) =~= lines_for(a, sink));
    } else {
        assert((a + b).drop_last() =~= a + b.drop_last());
        assert((a + b).last() == b.last());
        lemma_lines_concat(a, b.drop_last(), sink);
        assert(lines_for(a + b, sink) =~= lines_for(a, sink) + lines_for(b, sink));
    }
}

/// The reports of two lists of effects, one after the other.
pub proof fn lemma_reports_concat(a: Seq<EffectView>, b: Seq<EffectView>)
    ensures
        reports_of(a + b) == reports_of(a) + reports_of(b),
    decreases b.len(),
{
    if b.len() == 0 {
        assert(a + b =~= a);
        assert(reports_of(a) + reports_of(b) =~= reports_of(a));
    } else {
        assert((a + b).drop_last() =~= a + b.drop_last());
        assert((a + b).last() == b.last());
        lemma_reports_concat(a, b.drop_last());
        assert(reports_of(a + b) =~= reports_of(a) + reports_of(b));
    }
}

} // verus!
