//! Fan-in of labelled sources into one stream of tagged arrivals.
//!
//! The merger does not read its sources. Whoever drives it asks `wants` for
//! each source, waits on those sources, and hands over what they yield with
//! `offer` and `close`. The merger holds at most one element per source, and
//! `take` hands the held elements out one at a time, looking at the sources
//! in a circle that starts behind the source served last. A source that has
//! stalled or ended is simply passed over.

use crate::text::texts;
use vstd::prelude::*;

verus! {

/// The merger as contracts speak of it.
pub struct MergeState<T> {
    /// The label of each source.
    pub labels: Seq<Seq<char>>,
    /// The element held for each source, if any.
    pub slots: Seq<Option<T>>,
    /// Whether each source has ended.
    pub ended: Seq<bool>,
    /// The source that the next `take` looks at first.
    pub cursor: int,
}

impl<T> MergeState<T> {
    /// The number of sources.
    pub open spec fn count(self) -> int {
        self.labels.len() as int
    }

    /// Every source has a slot and a flag, and the cursor names a source
    /// (or is zero where there is none).
    pub open spec fn wf(self) -> bool {
        &&& self.slots.len() == self.labels.len()
        &&& self.ended.len() == self.labels.len()
        &&& 0 <= self.cursor
        &&& self.cursor < self.count() || self.cursor == 0
    }

    /// The state before anything has arrived.
    pub open spec fn start(labels: Seq<Seq<char>>) -> Self {
        MergeState {
            labels,
            slots: Seq::new(labels.len(), |i: int| None),
            ended: Seq::new(labels.len(), |i: int| false),
            cursor: 0,
        }
    }

    /// Whether an element of `source` would be accepted now: the source is
    /// known, has not ended, and nothing is held for it.
    pub open spec fn wants(self, source: int) -> bool {
        &&& 0 <= source < self.count()
        &&& !self.ended[source]
        &&& self.slots[source] is None
    }

    /// The state after `source` yields `item`; unchanged where the element is
    /// not wanted.
    pub open spec fn offer(self, source: int, item: T) -> Self {
        if self.wants(source) {
            MergeState { slots: self.slots.update(source, Some(item)), ..self }
        } else {
            self
        }
    }

    /// The state after `source` ends; what is held for it stays.
    pub open spec fn close(self, source: int) -> Self {
        if 0 <= source < self.count() {
            MergeState { ended: self.ended.update(source, true), ..self }
        } else {
            self
        }
    }

    /// The source behind `source` in the circle.
    pub open spec fn after(self, source: int) -> int {
        if source + 1 >= self.count() {
            0
        } else {
            source + 1
        }
    }

    /// The first source with a held element among the `left` sources of the
    /// circle that start at `from`.
    pub open spec fn scan(self, from: int, left: nat) -> Option<int>
        decreases left,
    {
        if left == 0 {
            None
        } else if 0 <= from < self.count() && self.slots[from] is Some {
            Some(from)
        } else {
            self.scan(self.after(from), (left - 1) as nat)
        }
    }

    /// The source that the next `take` serves.
    pub open spec fn next(self) -> Option<int> {
        self.scan(self.cursor, self.labels.len())
    }

    /// The state after a `take`: the slot of the source served is empty and
    /// the cursor stands behind that source.
    pub open spec fn take(self) -> Self {
        match self.next() {
            Some(source) => MergeState {
                slots: self.slots.update(source, None),
                cursor: self.after(source),
                ..self
            },
            None => self,
        }
    }

    /// Every source has ended and nothing is held.
    pub open spec fn finished(self) -> bool {
        forall|i: int|
            0 <= i < self.count() ==> (#[trigger] self.ended[i]) && self.slots[i] is None
    }

    /// Nothing is held for any source.
    pub open spec fn drained(self) -> bool {
        forall|i: int| 0 <= i < self.count() ==> (#[trigger] self.slots[i]) is None
    }

    /// How many sources the circle passes from `from` before it reaches `to`.
    pub open spec fn distance(self, from: int, to: int) -> int {
        if to >= from {
            to - from
        } else {
            to + self.count() - from
        }
    }
}

/// What `scan` finds: the source nearest to `from` in the circle that holds an
/// element, or nothing where none of the sources looked at holds one.
pub proof fn lemma_scan<T>(state: MergeState<T>, from: int, left: nat)
    requires
        state.wf(),
        0 <= from < state.count(),
        left <= state.count(),
    ensures
        match state.scan(from, left) {
            Some(found) => {
                &&& 0 <= found < state.count()
                &&& state.slots[found] is Some
                &&& state.distance(from, found) < left
                &&& forall|j: int|
                    0 <= j < state.count() && state.distance(from, j) < state.distance(
                        from,
                        found,
                    ) ==> (#[trigger] state.slots[j]) is None
            },
            None => forall|j: int|
                0 <= j < state.count() && state.distance(from, j) < left ==> (
                #[trigger] state.slots[j]) is None,
        },
    decreases left,
{
    if left > 0 && state.slots[from] is None {
        lemma_scan(state, state.after(from), (left - 1) as nat);
    }
}

/// One element with the source it came from.
#[derive(Clone, Debug, PartialEq, Eq)]
pub struct Tagged<T> {
    /// The position of the source among the merger's sources.
    pub source: usize,
    /// The label of the source.
    pub chain: String,
    /// The element, as the source yielded it.
    pub item: T,
}

/// The fan-in of a fixed set of labelled sources.
#[derive(Debug)]
pub struct Merger<T> {
    labels: Vec<String>,
    slots: Vec<Option<T>>,
    ended: Vec<bool>,
    cursor: usize,
}

impl<T> Merger<T> {
    /// The merger as contracts speak of it.
    pub closed spec fn view(&self) -> MergeState<T> {
        MergeState {
            labels: texts(self.labels@),
            slots: self.slots@,
            ended: self.ended@,
            cursor: self.cursor as int,
        }
    }

    /// Every source has a slot and a flag, and the cursor names a source.
    pub open spec fn wf(&self) -> bool {
        self@.wf()
    }

    /// A merger over one source per label, in the order of the labels.
    pub fn new(labels: Vec<String>) -> (merger: Merger<T>)
        ensures
            merger.wf(),
            merger@ == MergeState::<T>::start(texts(labels@)),
    {
        let mut slots: Vec<Option<T>> = Vec::new();
        let mut ended: Vec<bool> = Vec::new();
        let mut i: usize = 0;
        while i < labels.len()
            invariant
                i <= labels@.len(),
                slots@.len() == i,
                ended@.len() == i,
                forall|k: int| 0 <= k < i ==> (#[trigger] slots@[k]) is None,
                forall|k: int| 0 <= k < i ==> !(#[trigger] ended@[k]),
            decreases labels@.len() - i,
        {
            slots.push(None);
            ended.push(false);
            i = i + 1;
        }
        let merger = Merger { labels, slots, ended, cursor: 0 };
        proof {
            let start = MergeState::<T>::start(texts(labels@));
            assert(merger@.slots =~= start.slots);
            assert(merger@.ended =~= start.ended);
        }
        merger
    }

    /// The number of sources.
    pub fn source_count(&self) -> (count: usize)
        ensures
            count == self@.count(),
    {
        self.labels.len()
    }

    /// The label of `source`, if there is such a source.
    pub fn label(&self, source: usize) -> (label: Option<&String>)
        ensures
            match label {
                Some(text) => source < self@.count() && text@ == self@.labels[source as int],
                None => source >= self@.count(),
            },
    {
        if source < self.labels.len() {
            Some(&self.labels[source])
        } else {
            None
        }
    }

    /// Whether the next element of `source` would be accepted: the driver
    /// waits on exactly the sources for which this holds.
    pub fn wants(&self, source: usize) -> (wanted: bool)
        requires
            self.wf(),
        ensures
            wanted == self@.wants(source as int),
    {
        source < self.slots.len() && !self.ended[source] && self.slots[source].is_none()
    }

    /// Hands over an element that `source` has yielded. It is held until a
    /// `take` serves the source. Where the element is not wanted (no such
    /// source, the source has ended, or an element is already held for it)
    /// nothing changes and the element comes back.
    pub fn offer(&mut self, source: usize, item: T) -> (refused: Option<T>)
        requires
            old(self).wf(),
        ensures
            final(self).wf(),
            final(self)@ == old(self)@.offer(source as int, item),
            refused == (if old(self)@.wants(source as int) {
                None
            } else {
                Some(item)
            }),
    {
        if self.wants(source) {
            self.slots[source] = Some(item);
            assert(self@.slots =~= old(self)@.slots.update(source as int, Some(item)));
            None
        } else {
            Some(item)
        }
    }

    /// Records that `source` has ended. An element still held for it will be
    /// handed out. Returns whether there is such a source.
    pub fn close(&mut self, source: usize) -> (known: bool)
        requires
            old(self).wf(),
        ensures
            final(self).wf(),
            final(self)@ == old(self)@.close(source as int),
            known == (source < old(self)@.count()),
    {
        if source < self.ended.len() {
            self.ended[source] = true;
            assert(self@.ended =~= old(self)@.ended.update(source as int, true));
            true
        } else {
            false
        }
    }

    /// Hands out the next element: that of the first source, in the circle
    /// that starts at the cursor, for which one is held. `None` exactly when
    /// nothing is held for any source.
    pub fn take(&mut self) -> (arrival: Option<Tagged<T>>)
        requires
            old(self).wf(),
        ensures
            final(self).wf(),
            final(self)@ == old(self)@.take(),
            match arrival {
                Some(tagged) => {
                    &&& old(self)@.next() == Some(tagged.source as int)
                    &&& tagged.chain@ == old(self)@.labels[tagged.source as int]
                    &&& old(self)@.slots[tagged.source as int] == Some(tagged.item)
                },
                None => old(self)@.next() is None && old(self)@.drained(),
            },
    {
        let count = self.labels.len();
        let mut from: usize = self.cursor;
        let mut looked: usize = 0;
        while looked < count
            invariant
                *self == *old(self),
                self.wf(),
                count == self@.count(),
                looked <= count,
                looked < count ==> from < count,
                self@.next() == self@.scan(from as int, (count - looked) as nat),
            decreases count - looked,
        {
            let behind = if from + 1 >= count {
                0
            } else {
                from + 1
            };
            if self.slots[from].is_some() {
                let item = self.slots[from].take().unwrap();
                let chain = self.labels[from].clone();
                self.cursor = behind;
                proof {
                    assert(self@.slots =~= old(self)@.slots.update(from as int, None));
                }
                return Some(Tagged { source: from, chain, item });
            }
            from = behind;
            looked = looked + 1;
        }
        proof {
            if count > 0 {
                lemma_scan(self@, self@.cursor, count as nat);
            }
        }
        None
    }

    /// Whether the merged stream is over: every source has ended and nothing
    /// is held.
    pub fn is_finished(&self) -> (finished: bool)
        requires
            self.wf(),
        ensures
            finished == self@.finished(),
    {
        let mut i: usize = 0;
        while i < self.slots.len()
            invariant
                self.wf(),
                i <= self@.count(),
                forall|k: int|
                    0 <= k < i ==> self.ended@[k] && (#[trigger] self.slots@[k]) is None,
            decreases self@.count() - i,
        {
            if !self.ended[i] || self.slots[i].is_some() {
                return false;
            }
            i = i + 1;
        }
        true
    }
}

/// One thing that happens to a merger.
pub enum MergeOp<T> {
    /// A source yields an element.
    Offer { source: int, item: T },
    /// A source ends.
    Close { source: int },
    /// The driver asks for the next element.
    Take,
}

/// A merger with the history of what it has accepted and handed out, each
/// element with the position of its source.
pub struct MergeTrace<T> {
    pub state: MergeState<T>,
    pub accepted: Seq<(int, T)>,
    pub emitted: Seq<(int, T)>,
}

/// The trace after one more operation.
pub open spec fn merge_step<T>(trace: MergeTrace<T>, op: MergeOp<T>) -> MergeTrace<T> {
    match op {
        MergeOp::Offer { source, item } => if trace.state.wants(source) {
            MergeTrace {
                state: trace.state.offer(source, item),
                accepted: trace.accepted.push((source, item)),
                emitted: trace.emitted,
            }
        } else {
            trace
        },
        MergeOp::Close { source } => MergeTrace {
            state: trace.state.close(source),
            accepted: trace.accepted,
            emitted: trace.emitted,
        },
        MergeOp::Take => match trace.state.next() {
            Some(source) => MergeTrace {
                state: trace.state.take(),
                accepted: trace.accepted,
                emitted: trace.emitted.push((source, trace.state.slots[source]->0)),
            },
            None => trace,
        },
    }
}

/// The trace of a fresh merger over `labels` after the operations `ops`.
pub open spec fn merge_run<T>(labels: Seq<Seq<char>>, ops: Seq<MergeOp<T>>) -> MergeTrace<T>
    decreases ops.len(),
{
    if ops.len() == 0 {
        MergeTrace {
            state: MergeState::start(labels),
            accepted: Seq::empty(),
            emitted: Seq::empty(),
        }
    } else {
        merge_step(merge_run(labels, ops.drop_last()), ops.last())
    }
}

/// The elements of `source` in a history, in the order of the history.
pub open spec fn items_of<T>(history: Seq<(int, T)>, source: int) -> Seq<T>
    decreases history.len(),
{
    if history.len() == 0 {
        Seq::empty()
    } else if history.last().0 == source {
        items_of(history.drop_last(), source).push(history.last().1)
    } else {
        items_of(history.drop_last(), source)
    }
}

/// What is held for `source`: one element or none.
pub open spec fn held<T>(state: MergeState<T>, source: int) -> Seq<T> {
    if 0 <= source < state.count() && state.slots[source] is Some {
        seq![state.slots[source]->0]
    } else {
        Seq::empty()
    }
}

/// The elements of `source` in a history that has one more entry.
pub proof fn lemma_items_push<T>(history: Seq<(int, T)>, entry: (int, T), source: int)
    ensures
        items_of(history.push(entry), source) == if entry.0 == source {
            items_of(history, source).push(entry.1)
        } else {
            items_of(history, source)
        },
{
    assert(history.push(entry).drop_last() =~= history);
}

/// Nothing is lost, doubled or reordered: whatever happens to a merger, and in
/// whatever order, the elements handed out for a source, followed by the one
/// still held for it, are the elements accepted from that source, in the order
/// in which it yielded them. Once nothing is held, the two are the same.
pub proof fn lemma_merge_complete<T>(labels: Seq<Seq<char>>, ops: Seq<MergeOp<T>>, source: int)
    ensures
        merge_run(labels, ops).state.wf(),
        merge_run(labels, ops).state.labels == labels,
        items_of(merge_run(labels, ops).accepted, source) == items_of(
            merge_run(labels, ops).emitted,
            source,
        ) + held(merge_run(labels, ops).state, source),
        merge_run(labels, ops).state.drained() ==> items_of(
            merge_run(labels, ops).emitted,
            source,
        ) == items_of(merge_run(labels, ops).accepted, source),
    decreases ops.len(),
{
    let trace = merge_run(labels, ops);
    if ops.len() == 0 {
        assert(items_of(trace.accepted, source) =~= items_of(trace.emitted, source) + held(
            trace.state,
            source,
        ));
    } else {
        let before = merge_run(labels, ops.drop_last());
        lemma_merge_complete(labels, ops.drop_last(), source);
        match ops.last() {
            MergeOp::Offer { source: from, item } => {
                if before.state.wants(from) {
                    lemma_items_push(before.accepted, (from, item), source);
                }
            },
            MergeOp::Close { source: from } => {},
            MergeOp::Take => {
                if before.state.count() > 0 {
                    lemma_scan(before.state, before.state.cursor, before.state.labels.len());
                }
                match before.state.next() {
                    Some(from) => {
                        lemma_items_push(
                            before.emitted,
                            (from, before.state.slots[from]->0),
                            source,
                        );
                    },
                    None => {},
                }
            },
        }
        assert(items_of(trace.accepted, source) =~= items_of(trace.emitted, source) + held(
            trace.state,
            source,
        ));
    }
    if trace.state.drained() {
        assert(held(trace.state, source) =~= Seq::empty());
        assert(items_of(trace.emitted, source) + held(trace.state, source) =~= items_of(
            trace.emitted,
            source,
        ));
    }
}

/// Every element in the history of a run came from one of the sources.
pub proof fn lemma_merge_sources<T>(labels: Seq<Seq<char>>, ops: Seq<MergeOp<T>>, k: int)
    requires
        0 <= k < merge_run(labels, ops).emitted.len(),
    ensures
        0 <= merge_run(labels, ops).emitted[k].0 < labels.len(),
    decreases ops.len(),
{
    if ops.len() > 0 {
        let before = merge_run(labels, ops.drop_last());
        lemma_merge_complete(labels, ops.drop_last(), 0);
        if k < before.emitted.len() {
            lemma_merge_sources(labels, ops.drop_last(), k);
        }
        if before.state.count() > 0 {
            lemma_scan(before.state, before.state.cursor, before.state.labels.len());
        }
    }
}

/// A held element is never blocked by the other sources: whether they have
/// stalled, ended or hold elements of their own, the next `take` hands an
/// element out; and where `source` is the only one that holds an element, it
/// is that one.
pub proof fn lemma_take_is_live<T>(state: MergeState<T>, source: int)
    requires
        state.wf(),
        0 <= source < state.count(),
        state.slots[source] is Some,
    ensures
        state.next() is Some,
        (forall|j: int| 0 <= j < state.count() && j != source ==> (#[trigger] state.slots[j]) is None)
            ==> state.next() == Some(source),
{
    lemma_scan(state, state.cursor, state.labels.len());
}

/// A source that goes on is never shut out: once its element has been handed
/// out, its next element is wanted, whatever the state of the other sources.
pub proof fn lemma_served_source_is_wanted<T>(state: MergeState<T>, source: int)
    requires
        state.wf(),
        state.next() == Some(source),
        !state.ended[source],
    ensures
        state.take().wf(),
        state.take().wants(source),
{
    lemma_scan(state, state.cursor, state.labels.len());
}

/// No source is starved: while an element is held for `source`, each `take`
/// either hands out that element or brings the cursor nearer to the source, so
/// that it is handed out after at most as many takes as there are sources.
pub proof fn lemma_take_is_fair<T>(state: MergeState<T>, source: int)
    requires
        state.wf(),
        0 <= source < state.count(),
        state.slots[source] is Some,
    ensures
        state.take().wf(),
        state.next() == Some(source) || {
            &&& state.take().slots[source] == state.slots[source]
            &&& state.take().distance(state.take().cursor, source) < state.distance(
                state.cursor,
                source,
            )
        },
        0 <= state.distance(state.cursor, source) < state.count(),
{
    lemma_scan(state, state.cursor, state.labels.len());
}

} // verus!
