//! From a block to its log records: one line for the block, one for each
//! extrinsic that was decoded, one for each event that was decoded. Whatever
//! could not be fetched or decoded is reported where it stands, and the items
//! beside it are handled as if nothing had happened.

use crate::block::{Arrival, Block, Event, Extrinsic};
use crate::effect::{
    effect_views, lemma_lines_concat, lemma_lines_single, lemma_reports_concat,
    lemma_reports_single, lines_for, reports_of, Effect, EffectView, Failure, FailureView,
    SinkKind,
};
use crate::record::{
    block_line, event_line, format_block_line, format_event_line, format_pallet_line, pallet_line,
};
use crate::text::texts;
use vstd::prelude::*;

verus! {

/// What one event of an extrinsic leads to: its line, or the report that it
/// or its field values could not be decoded.
pub open spec fn event_effects(
    chain: Seq<char>,
    height: u64,
    index: u32,
    position: usize,
    event: Result<Event, String>,
) -> EffectView {
    match event {
        Ok(event) => match event.fields {
            Ok(values) => EffectView::Append {
                sink: SinkKind::Events,
                line: event_line(event.pallet@, event.variant@, texts(values@)),
            },
            Err(detail) => EffectView::Report {
                failure: FailureView::EventDecode { chain, height, index, position, detail: detail@ },
            },
        },
        Err(detail) => EffectView::Report {
            failure: FailureView::EventDecode { chain, height, index, position, detail: detail@ },
        },
    }
}

/// What the events of an extrinsic lead to, one effect for each, in order.
pub open spec fn events_effects(
    chain: Seq<char>,
    height: u64,
    index: u32,
    events: Seq<Result<Event, String>>,
) -> Seq<EffectView> {
    Seq::new(
        events.len(),
        |position: int| event_effects(chain, height, index, position as usize, events[position]),
    )
}

/// What one extrinsic leads to. One that was not decoded is reported, with
/// the failure of the pallet name before that of the call name. One that was
/// decoded gets its line, followed by what its events lead to, or by the
/// report that they could not be fetched.
pub open spec fn extrinsic_effects(chain: Seq<char>, height: u64, extrinsic: Extrinsic) -> Seq<
    EffectView,
> {
    match extrinsic.pallet {
        Err(detail) => seq![
            EffectView::Report {
                failure: FailureView::ExtrinsicDecode {
                    chain,
                    height,
                    index: extrinsic.index,
                    detail: detail@,
                },
            },
        ],
        Ok(pallet) => match extrinsic.variant {
            Err(detail) => seq![
                EffectView::Report {
                    failure: FailureView::ExtrinsicDecode {
                        chain,
                        height,
                        index: extrinsic.index,
                        detail: detail@,
                    },
                },
            ],
            Ok(variant) => seq![
                EffectView::Append {
                    sink: SinkKind::Pallets,
                    line: pallet_line(extrinsic.index, pallet@, variant@),
                },
            ] + match extrinsic.events {
                Ok(events) => events_effects(chain, height, extrinsic.index, events@),
                Err(detail) => seq![
                    EffectView::Report {
                        failure: FailureView::EventsFetch {
                            chain,
                            height,
                            index: extrinsic.index,
                            detail: detail@,
                        },
                    },
                ],
            },
        },
    }
}

/// What the extrinsics of a block lead to, in on-chain order.
pub open spec fn extrinsics_effects(chain: Seq<char>, height: u64, extrinsics: Seq<Extrinsic>) -> Seq<
    EffectView,
>
    decreases extrinsics.len(),
{
    if extrinsics.len() == 0 {
        Seq::empty()
    } else {
        extrinsics_effects(chain, height, extrinsics.drop_last()) + extrinsic_effects(
            chain,
            height,
            extrinsics.last(),
        )
    }
}

/// What a block leads to: its line in the block log, then what its extrinsics
/// lead to, or the report that they could not be fetched.
pub open spec fn block_effects(chain: Seq<char>, block: Block) -> Seq<EffectView> {
    seq![
        EffectView::Append {
            sink: SinkKind::Blocks,
            line: block_line(chain, block.hash@, block.height),
        },
    ] + match block.extrinsics {
        Ok(extrinsics) => extrinsics_effects(chain, block.height, extrinsics@),
        Err(detail) => seq![
            EffectView::Report {
                failure: FailureView::BlockFetch { chain, height: block.height, detail: detail@ },
            },
        ],
    }
}

/// What an arrival leads to: the effects of its block, or the report that the
/// source failed.
pub open spec fn arrival_effects(chain: Seq<char>, arrival: Arrival) -> Seq<EffectView> {
    match arrival {
        Ok(block) => block_effects(chain, block),
        Err(detail) => seq![
            EffectView::Report { failure: FailureView::Connection { chain, detail: detail@ } },
        ],
    }
}

proof fn lemma_views_push(effects: Seq<Effect>, effect: Effect)
    ensures
        effect_views(effects.push(effect)) == effect_views(effects).push(effect@),
{
    assert(effect_views(effects.push(effect)) =~= effect_views(effects).push(effect@));
}

fn push_effect(out: &mut Vec<Effect>, effect: Effect)
    ensures
        effect_views(final(out)@) == effect_views(old(out)@).push(effect@),
{
    proof {
        lemma_views_push(out@, effect);
    }
    out.push(effect);
}

fn extract_events(
    out: &mut Vec<Effect>,
    chain: &str,
    height: u64,
    index: u32,
    events: &Vec<Result<Event, String>>,
)
    ensures
        effect_views(final(out)@) == effect_views(old(out)@) + events_effects(
            chain@,
            height,
            index,
            events@,
        ),
{
    let ghost all = events_effects(chain@, height, index, events@);
    let mut position: usize = 0;
    assert(effect_views(out@) =~= effect_views(old(out)@) + all.take(0));
    while position < events.len()
        invariant
            position <= events@.len(),
            all == events_effects(chain@, height, index, events@),
            effect_views(out@) == effect_views(old(out)@) + all.take(position as int),
        decreases events@.len() - position,
    {
        let effect = match &events[position] {
            Ok(event) => match &event.fields {
                Ok(values) => Effect::Append {
                    sink: SinkKind::Events,
                    line: format_event_line(event.pallet.as_str(), event.variant.as_str(), values),
                },
                Err(detail) => Effect::Report {
                    failure: Failure::EventDecode {
                        chain: chain.to_owned(),
                        height,
                        index,
                        position,
                        detail: detail.clone(),
                    },
                },
            },
            Err(detail) => Effect::Report {
                failure: Failure::EventDecode {
                    chain: chain.to_owned(),
                    height,
                    index,
                    position,
                    detail: detail.clone(),
                },
            },
        };
        assert(effect@ == all[position as int]);
        push_effect(out, effect);
        assert(all.take(position + 1) =~= all.take(position as int).push(all[position as int]));
        position = position + 1;
    }
    assert(all.take(position as int) =~= all);
}

fn extract_extrinsic(out: &mut Vec<Effect>, chain: &str, height: u64, extrinsic: &Extrinsic)
    ensures
        effect_views(final(out)@) == effect_views(old(out)@) + extrinsic_effects(
            chain@,
            height,
            *extrinsic,
        ),
{
    let ghost base = effect_views(out@);
    match &extrinsic.pallet {
        Err(detail) => {
            push_effect(
                out,
                Effect::Report {
                    failure: Failure::ExtrinsicDecode {
                        chain: chain.to_owned(),
                        height,
                        index: extrinsic.index,
                        detail: detail.clone(),
                    },
                },
            );
        },
        Ok(pallet) => match &extrinsic.variant {
            Err(detail) => {
                push_effect(
                    out,
                    Effect::Report {
                        failure: Failure::ExtrinsicDecode {
                            chain: chain.to_owned(),
                            height,
                            index: extrinsic.index,
                            detail: detail.clone(),
                        },
                    },
                );
            },
            Ok(variant) => {
                push_effect(
                    out,
                    Effect::Append {
                        sink: SinkKind::Pallets,
                        line: format_pallet_line(extrinsic.index, pallet.as_str(), variant.as_str()),
                    },
                );
                match &extrinsic.events {
                    Ok(events) => {
                        extract_events(out, chain, height, extrinsic.index, events);
                    },
                    Err(detail) => {
                        push_effect(
                            out,
                            Effect::Report {
                                failure: Failure::EventsFetch {
                                    chain: chain.to_owned(),
                                    height,
                                    index: extrinsic.index,
                                    detail: detail.clone(),
                                },
                            },
                        );
                    },
                }
            },
        },
    }
    assert(effect_views(out@) =~= base + extrinsic_effects(chain@, height, *extrinsic));
}

fn extract_extrinsics(out: &mut Vec<Effect>, chain: &str, height: u64, extrinsics: &Vec<Extrinsic>)
    ensures
        effect_views(final(out)@) == effect_views(old(out)@) + extrinsics_effects(
            chain@,
            height,
            extrinsics@,
        ),
{
    let ghost base = effect_views(out@);
    let mut i: usize = 0;
    assert(extrinsics@.take(0) =~= Seq::empty());
    assert(effect_views(out@) =~= base + extrinsics_effects(chain@, height, extrinsics@.take(0)));
    while i < extrinsics.len()
        invariant
            i <= extrinsics@.len(),
            effect_views(out@) == base + extrinsics_effects(
                chain@,
                height,
                extrinsics@.take(i as int),
            ),
        decreases extrinsics@.len() - i,
    {
        extract_extrinsic(out, chain, height, &extrinsics[i]);
        proof {
            let next = extrinsics@.take(i + 1);
            assert(next.drop_last() =~= extrinsics@.take(i as int));
            assert(next.last() == extrinsics@[i as int]);
            assert(effect_views(out@) =~= base + extrinsics_effects(chain@, height, next));
        }
        i = i + 1;
    }
    assert(extrinsics@.take(i as int) =~= extrinsics@);
}

/// Lists what a block of `chain` leads to: the line of the block, then for
/// each extrinsic in on-chain order its line and the lines of its events, with
/// a report in the place of each item that could not be fetched or decoded.
pub fn extract_block(chain: &str, block: &Block) -> (effects: Vec<Effect>)
    ensures
        effect_views(effects@) == block_effects(chain@, *block),
{
    let mut effects: Vec<Effect> = Vec::new();
    assert(effect_views(effects@) =~= Seq::empty());
    push_effect(
        &mut effects,
        Effect::Append {
            sink: SinkKind::Blocks,
            line: format_block_line(chain, &block.hash, block.height),
        },
    );
    match &block.extrinsics {
        Ok(extrinsics) => {
            extract_extrinsics(&mut effects, chain, block.height, extrinsics);
        },
        Err(detail) => {
            push_effect(
                &mut effects,
                Effect::Report {
                    failure: Failure::BlockFetch {
                        chain: chain.to_owned(),
                        height: block.height,
                        detail: detail.clone(),
                    },
                },
            );
        },
    }
    assert(effect_views(effects@) =~= block_effects(chain@, *block));
    effects
}

/// Lists what an arrival of `chain` leads to: the effects of its block, or
/// the report that the source failed.
pub fn extract_arrival(chain: &str, arrival: &Arrival) -> (effects: Vec<Effect>)
    ensures
        effect_views(effects@) == arrival_effects(chain@, *arrival),
{
    match arrival {
        Ok(block) => extract_block(chain, block),
        Err(detail) => {
            let mut effects: Vec<Effect> = Vec::new();
            assert(effect_views(effects@) =~= Seq::empty());
            push_effect(
                &mut effects,
                Effect::Report {
                    failure: Failure::Connection { chain: chain.to_owned(), detail: detail.clone() },
                },
            );
            assert(effect_views(effects@) =~= arrival_effects(chain@, *arrival));
            effects
        },
    }
}

/// The lines of the pallet log that a list of extrinsics calls for: one for
/// each extrinsic that was decoded, in on-chain order.
pub open spec fn pallet_lines(extrinsics: Seq<Extrinsic>) -> Seq<Seq<char>>
    decreases extrinsics.len(),
{
    if extrinsics.len() == 0 {
        Seq::empty()
    } else if extrinsics.last().decoded() {
        pallet_lines(extrinsics.drop_last()).push(
            pallet_line(
                extrinsics.last().index,
                extrinsics.last().pallet->Ok_0@,
                extrinsics.last().variant->Ok_0@,
            ),
        )
    } else {
        pallet_lines(extrinsics.drop_last())
    }
}

/// The indices of the extrinsics of a list that were not decoded, in order.
pub open spec fn undecoded(extrinsics: Seq<Extrinsic>) -> Seq<u32>
    decreases extrinsics.len(),
{
    if extrinsics.len() == 0 {
        Seq::empty()
    } else if extrinsics.last().decoded() {
        undecoded(extrinsics.drop_last())
    } else {
        undecoded(extrinsics.drop_last()).push(extrinsics.last().index)
    }
}

/// The indices that the reports of undecoded extrinsics name, in order.
pub open spec fn undecoded_reported(reports: Seq<FailureView>) -> Seq<u32>
    decreases reports.len(),
{
    if reports.len() == 0 {
        Seq::empty()
    } else {
        match reports.last() {
            FailureView::ExtrinsicDecode { index, .. } => undecoded_reported(
                reports.drop_last(),
            ).push(index),
            _ => undecoded_reported(reports.drop_last()),
        }
    }
}

spec fn undecoded_of(failure: FailureView) -> Seq<u32> {
    match failure {
        FailureView::ExtrinsicDecode { index, .. } => seq![index],
        _ => Seq::empty(),
    }
}

proof fn lemma_undecoded_concat(a: Seq<FailureView>, b: Seq<FailureView>)
    ensures
        undecoded_reported(a + b) == undecoded_reported(a) + undecoded_reported(b),
    decreases b.len(),
{
    if b.len() == 0 {
        assert(a + b =~= a);
        assert(undecoded_reported(a) + undecoded_reported(b) =~= undecoded_reported(a));
    } else {
        assert((a + b).drop_last() =~= a + b.drop_last());
        assert((a + b).last() == b.last());
        lemma_undecoded_concat(a, b.drop_last());
        assert(undecoded_reported(a + b) =~= undecoded_reported(a) + undecoded_reported(b));
    }
}

proof fn lemma_undecoded_single(failure: FailureView)
    ensures
        undecoded_reported(seq![failure]) == undecoded_of(failure),
{
    reveal_with_fuel(undecoded_reported, 2);
    assert(seq![failure].drop_last() =~= Seq::<FailureView>::empty());
    assert(undecoded_reported(seq![failure]) =~= undecoded_of(failure));
}

proof fn lemma_events_quiet(
    chain: Seq<char>,
    height: u64,
    index: u32,
    events: Seq<Result<Event, String>>,
)
    ensures
        lines_for(events_effects(chain, height, index, events), SinkKind::Blocks)
            == Seq::<Seq<char>>::empty(),
        lines_for(events_effects(chain, height, index, events), SinkKind::Pallets)
            == Seq::<Seq<char>>::empty(),
        undecoded_reported(reports_of(events_effects(chain, height, index, events)))
            == Seq::<u32>::empty(),
    decreases events.len(),
{
    let all = events_effects(chain, height, index, events);
    if events.len() > 0 {
        let front = events_effects(chain, height, index, events.drop_last());
        let last = seq![all.last()];
        assert(all =~= front + last);
        lemma_events_quiet(chain, height, index, events.drop_last());
        lemma_lines_concat(front, last, SinkKind::Blocks);
        lemma_lines_concat(front, last, SinkKind::Pallets);
        lemma_reports_concat(front, last);
        lemma_lines_single(all.last(), SinkKind::Blocks);
        lemma_lines_single(all.last(), SinkKind::Pallets);
        lemma_reports_single(all.last());
        lemma_undecoded_concat(reports_of(front), reports_of(last));
        match all.last() {
            EffectView::Report { failure } => {
                lemma_undecoded_single(failure);
            },
            _ => {},
        }
    }
}

proof fn lemma_extrinsic_alone(chain: Seq<char>, height: u64, extrinsic: Extrinsic)
    ensures
        lines_for(extrinsic_effects(chain, height, extrinsic), SinkKind::Blocks)
            == Seq::<Seq<char>>::empty(),
        lines_for(extrinsic_effects(chain, height, extrinsic), SinkKind::Pallets) == if extrinsic.decoded() {
            seq![pallet_line(extrinsic.index, extrinsic.pallet->Ok_0@, extrinsic.variant->Ok_0@)]
        } else {
            Seq::empty()
        },
        undecoded_reported(reports_of(extrinsic_effects(chain, height, extrinsic)))
            == if extrinsic.decoded() {
            Seq::empty()
        } else {
            seq![extrinsic.index]
        },
{
    let all = extrinsic_effects(chain, height, extrinsic);
    if extrinsic.decoded() {
        let first = EffectView::Append {
            sink: SinkKind::Pallets,
            line: pallet_line(extrinsic.index, extrinsic.pallet->Ok_0@, extrinsic.variant->Ok_0@),
        };
        let head = seq![first];
        let tail = match extrinsic.events {
            Ok(events) => events_effects(chain, height, extrinsic.index, events@),
            Err(detail) => seq![
                EffectView::Report {
                    failure: FailureView::EventsFetch {
                        chain,
                        height,
                        index: extrinsic.index,
                        detail: detail@,
                    },
                },
            ],
        };
        assert(all == head + tail);
        lemma_lines_single(first, SinkKind::Blocks);
        lemma_lines_single(first, SinkKind::Pallets);
        lemma_reports_single(first);
        lemma_lines_concat(head, tail, SinkKind::Blocks);
        lemma_lines_concat(head, tail, SinkKind::Pallets);
        lemma_reports_concat(head, tail);
        match extrinsic.events {
            Ok(events) => {
                lemma_events_quiet(chain, height, extrinsic.index, events@);
            },
            Err(detail) => {
                let only = tail[0];
                assert(tail =~= seq![only]);
                lemma_lines_single(only, SinkKind::Blocks);
                lemma_lines_single(only, SinkKind::Pallets);
                lemma_reports_single(only);
                lemma_undecoded_single(only->failure);
            },
        }
        assert(reports_of(all) =~= reports_of(tail));
        assert(lines_for(all, SinkKind::Pallets) =~= seq![first->line]);
        assert(lines_for(all, SinkKind::Blocks) =~= Seq::empty());
    } else {
        let only = all[0];
        assert(all =~= seq![only]);
        lemma_lines_single(only, SinkKind::Blocks);
        lemma_lines_single(only, SinkKind::Pallets);
        lemma_reports_single(only);
        lemma_undecoded_single(only->failure);
    }
}

/// One failure does not reach the items beside it: whatever the extrinsics of
/// a block are, the pallet log gets exactly one line for each extrinsic that
/// was decoded, in on-chain order, exactly one report of an undecoded
/// extrinsic is made for each of the others, in order and with its index, and
/// nothing is appended to the block log.
pub proof fn lemma_extraction_isolated(chain: Seq<char>, height: u64, extrinsics: Seq<Extrinsic>)
    ensures
        lines_for(extrinsics_effects(chain, height, extrinsics), SinkKind::Pallets) == pallet_lines(
            extrinsics,
        ),
        undecoded_reported(reports_of(extrinsics_effects(chain, height, extrinsics))) == undecoded(
            extrinsics,
        ),
        lines_for(extrinsics_effects(chain, height, extrinsics), SinkKind::Blocks)
            == Seq::<Seq<char>>::empty(),
    decreases extrinsics.len(),
{
    if extrinsics.len() > 0 {
        let front = extrinsics_effects(chain, height, extrinsics.drop_last());
        let back = extrinsic_effects(chain, height, extrinsics.last());
        lemma_extraction_isolated(chain, height, extrinsics.drop_last());
        lemma_extrinsic_alone(chain, height, extrinsics.last());
        lemma_lines_concat(front, back, SinkKind::Pallets);
        lemma_lines_concat(front, back, SinkKind::Blocks);
        lemma_reports_concat(front, back);
        lemma_undecoded_concat(reports_of(front), reports_of(back));
        assert(lines_for(front + back, SinkKind::Pallets) =~= pallet_lines(extrinsics));
        assert(undecoded_reported(reports_of(front + back)) =~= undecoded(extrinsics));
        assert(lines_for(front + back, SinkKind::Blocks) =~= Seq::empty());
    }
}

/// A block that arrived has exactly one line in the block log, whatever
/// happens when its extrinsics and events are fetched and decoded.
pub proof fn lemma_one_block_line(chain: Seq<char>, block: Block)
    ensures
        lines_for(block_effects(chain, block), SinkKind::Blocks) == seq![
            block_line(chain, block.hash@, block.height),
        ],
{
    let first = EffectView::Append {
        sink: SinkKind::Blocks,
        line: block_line(chain, block.hash@, block.height),
    };
    let head = seq![first];
    let tail = match block.extrinsics {
        Ok(extrinsics) => extrinsics_effects(chain, block.height, extrinsics@),
        Err(detail) => seq![
            EffectView::Report {
                failure: FailureView::BlockFetch { chain, height: block.height, detail: detail@ },
            },
        ],
    };
    assert(block_effects(chain, block) == head + tail);
    lemma_lines_single(first, SinkKind::Blocks);
    lemma_lines_concat(head, tail, SinkKind::Blocks);
    match block.extrinsics {
        Ok(extrinsics) => {
            lemma_extraction_isolated(chain, block.height, extrinsics@);
        },
        Err(detail) => {
            let only = tail[0];
            assert(tail =~= seq![only]);
            lemma_lines_single(only, SinkKind::Blocks);
        },
    }
    assert(lines_for(head + tail, SinkKind::Blocks) =~= seq![
        block_line(chain, block.hash@, block.height),
    ]);
}

} // verus!
