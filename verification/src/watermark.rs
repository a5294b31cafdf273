//! Per-chain watermarks: the lowest and highest block height seen so far.
//!
//! A tracker is a mapping from chain label to a range of heights. Observing a
//! height widens the range of its chain and never narrows one. The chain with
//! the highest (or lowest) height overall is found by a reduction over the
//! mapping; where several chains share the extreme height, the chain whose
//! label comes first in lexicographic order is the answer.

use crate::text::{
    lemma_precedes_irreflexive, lemma_precedes_total, lemma_precedes_transitive, precedes,
    text_precedes,
};
use vstd::prelude::*;

verus! {

/// The range of heights observed for one chain.
#[derive(Clone, Copy, Debug, PartialEq, Eq, Structural)]
pub struct Watermark {
    pub lowest: u64,
    pub highest: u64,
}

impl Watermark {
    /// A range is valid when it is not empty.
    pub open spec fn wf(self) -> bool {
        self.lowest <= self.highest
    }

    /// The range that holds `height` alone.
    pub open spec fn spec_single(height: u64) -> Watermark {
        Watermark { lowest: height, highest: height }
    }

    /// This range made wide enough to hold `height` as well.
    pub open spec fn spec_widen(self, height: u64) -> Watermark {
        Watermark {
            lowest: if height < self.lowest {
                height
            } else {
                self.lowest
            },
            highest: if height > self.highest {
                height
            } else {
                self.highest
            },
        }
    }

    /// The range that holds `height` alone.
    #[verifier::when_used_as_spec(spec_single)]
    pub fn single(height: u64) -> (mark: Watermark)
        ensures
            mark == Watermark::spec_single(height),
    {
        Watermark { lowest: height, highest: height }
    }

    /// This range made wide enough to hold `height` as well.
    #[verifier::when_used_as_spec(spec_widen)]
    pub fn widen(self, height: u64) -> (mark: Watermark)
        ensures
            mark == self.spec_widen(height),
    {
        Watermark {
            lowest: if height < self.lowest {
                height
            } else {
                self.lowest
            },
            highest: if height > self.highest {
                height
            } else {
                self.highest
            },
        }
    }
}

/// A mapping from chain label to watermark, as contracts speak of it.
pub type Marks = Map<Seq<char>, Watermark>;

/// The mapping after one observation: a chain seen for the first time gets
/// the range of that one height, a known chain has its range widened.
pub open spec fn observed(marks: Marks, chain: Seq<char>, height: u64) -> Marks {
    if marks.dom().contains(chain) {
        marks.insert(chain, marks[chain].spec_widen(height))
    } else {
        marks.insert(chain, Watermark::spec_single(height))
    }
}

/// Every range of the mapping is valid.
pub open spec fn marks_valid(marks: Marks) -> bool {
    forall|c: Seq<char>| #[trigger] marks.dom().contains(c) ==> marks[c].wf()
}

/// Every chain of `before` is still in `after`, with a range at least as wide.
pub open spec fn never_narrowed(before: Marks, after: Marks) -> bool {
    forall|c: Seq<char>| #[trigger]
        before.dom().contains(c) ==> after.dom().contains(c) && after[c].lowest
            <= before[c].lowest && before[c].highest <= after[c].highest
}

/// `chain` has the highest height of the mapping, and among the chains that
/// share that height its label comes first.
pub open spec fn is_highest(marks: Marks, chain: Seq<char>) -> bool {
    &&& marks.dom().contains(chain)
    &&& forall|d: Seq<char>| #[trigger]
        marks.dom().contains(d) ==> marks[d].highest <= marks[chain].highest
    &&& forall|d: Seq<char>| #[trigger]
        marks.dom().contains(d) && marks[d].highest == marks[chain].highest ==> !precedes(
            d,
            chain,
        )
}

/// `chain` has the lowest height of the mapping, and among the chains that
/// share that height its label comes first.
pub open spec fn is_lowest(marks: Marks, chain: Seq<char>) -> bool {
    &&& marks.dom().contains(chain)
    &&& forall|d: Seq<char>| #[trigger]
        marks.dom().contains(d) ==> marks[chain].lowest <= marks[d].lowest
    &&& forall|d: Seq<char>| #[trigger]
        marks.dom().contains(d) && marks[d].lowest == marks[chain].lowest ==> !precedes(
            d,
            chain,
        )
}

spec fn rank(mark: Watermark, want_highest: bool) -> int {
    if want_highest {
        mark.highest as int
    } else {
        -(mark.lowest as int)
    }
}

/// One chain with its watermark.
#[derive(Clone, Debug, PartialEq, Eq)]
pub struct ChainMark {
    pub chain: String,
    pub mark: Watermark,
}

spec fn has_chain(entries: Seq<ChainMark>, chain: Seq<char>) -> bool {
    exists|i: int| 0 <= i < entries.len() && (#[trigger] entries[i]).chain@ == chain
}

spec fn index_of(entries: Seq<ChainMark>, chain: Seq<char>) -> int {
    choose|i: int| 0 <= i < entries.len() && (#[trigger] entries[i]).chain@ == chain
}

spec fn distinct(entries: Seq<ChainMark>) -> bool {
    forall|i: int, j: int|
        0 <= i < j < entries.len() ==> (#[trigger] entries[i]).chain@ != (
        #[trigger] entries[j]).chain@
}

spec fn marks_of(entries: Seq<ChainMark>) -> Marks {
    Map::new(
        |c: Seq<char>| has_chain(entries, c),
        |c: Seq<char>| entries[index_of(entries, c)].mark,
    )
}

proof fn lemma_marks_at(entries: Seq<ChainMark>, i: int)
    requires
        distinct(entries),
        0 <= i < entries.len(),
    ensures
        marks_of(entries).dom().contains(entries[i].chain@),
        marks_of(entries)[entries[i].chain@] == entries[i].mark,
{
    let c = entries[i].chain@;
    assert(has_chain(entries, c));
    let k = index_of(entries, c);
    assert(k == i);
}

proof fn lemma_marks_absent(entries: Seq<ChainMark>, chain: Seq<char>)
    requires
        forall|i: int| 0 <= i < entries.len() ==> (#[trigger] entries[i]).chain@ != chain,
    ensures
        !marks_of(entries).dom().contains(chain),
{
}

/// A point-in-time copy of the watermarks of every chain.
#[derive(Debug)]
pub struct Snapshot {
    entries: Vec<ChainMark>,
}

impl Snapshot {
    /// No chain is held twice, and every range is valid.
    pub closed spec fn wf(&self) -> bool {
        &&& distinct(self.entries@)
        &&& forall|i: int| 0 <= i < self.entries@.len() ==> (#[trigger] self.entries@[i]).mark.wf()
    }

    /// The mapping from chain label to watermark.
    pub closed spec fn view(&self) -> Marks {
        marks_of(self.entries@)
    }

    /// A well-formed snapshot holds valid ranges only, and finitely many.
    pub proof fn lemma_valid(&self)
        requires
            self.wf(),
        ensures
            marks_valid(self@),
            self@.dom().finite(),
    {
        lemma_marks_count(self.entries@);
        assert forall|c: Seq<char>| #[trigger] self@.dom().contains(c) implies self@[c].wf() by {
            let k = index_of(self.entries@, c);
            assert(self.entries@[k].mark.wf());
        }
    }

    fn empty() -> (snapshot: Snapshot)
        ensures
            snapshot.wf(),
            snapshot@ == Marks::empty(),
    {
        let snapshot = Snapshot { entries: Vec::new() };
        assert(snapshot@ =~= Marks::empty());
        snapshot
    }

    fn find(&self, key: &String) -> (found: Option<usize>)
        ensures
            match found {
                Some(i) => i < self.entries@.len() && self.entries@[i as int].chain@ == key@,
                None => forall|i: int|
                    0 <= i < self.entries@.len() ==> (#[trigger] self.entries@[i]).chain@ != key@,
            },
    {
        let mut i: usize = 0;
        while i < self.entries.len()
            invariant
                i <= self.entries@.len(),
                forall|k: int| 0 <= k < i ==> (#[trigger] self.entries@[k]).chain@ != key@,
            decreases self.entries@.len() - i,
        {
            if self.entries[i].chain == *key {
                return Some(i);
            }
            i = i + 1;
        }
        None
    }

    fn observe(&mut self, chain: &str, height: u64)
        requires
            old(self).wf(),
        ensures
            final(self).wf(),
            final(self)@ == observed(old(self)@, chain@, height),
    {
        let key = chain.to_owned();
        let ghost before = self.entries@;
        match self.find(&key) {
            Some(i) => {
                let mark = self.entries[i].mark.widen(height);
                self.entries[i].mark = mark;
                proof {
                    let after = self.entries@;
                    assert(after[i as int].chain@ == key@);
                    assert(forall|k: int|
                        0 <= k < before.len() && k != i ==> after[k] == before[k]);
                    lemma_marks_at(before, i as int);
                    assert forall|c: Seq<char>|
                        has_chain(after, c) <==> has_chain(before, c) by {
                        if has_chain(after, c) {
                            let k = index_of(after, c);
                            assert(before[k].chain@ == c);
                        }
                        if has_chain(before, c) {
                            let k = index_of(before, c);
                            assert(after[k].chain@ == c);
                        }
                    }
                    assert forall|c: Seq<char>| has_chain(after, c) implies marks_of(after)[c]
                        == observed(marks_of(before), key@, height)[c] by {
                        let k = index_of(after, c);
                        lemma_marks_at(after, k);
                        lemma_marks_at(before, k);
                    }
                    assert(marks_of(after) =~= observed(marks_of(before), key@, height));
                }
            },
            None => {
                self.entries.push(ChainMark { chain: key, mark: Watermark::single(height) });
                proof {
                    let after = self.entries@;
                    let last = before.len() as int;
                    lemma_marks_absent(before, key@);
                    assert(forall|k: int| 0 <= k < before.len() ==> after[k] == before[k]);
                    assert(after[last].chain@ == key@);
                    assert forall|c: Seq<char>|
                        has_chain(after, c) <==> (has_chain(before, c) || c == key@) by {
                        if has_chain(after, c) {
                            let k = index_of(after, c);
                            if k < last {
                                assert(before[k].chain@ == c);
                            }
                        }
                        if has_chain(before, c) {
                            let k = index_of(before, c);
                            assert(after[k].chain@ == c);
                        }
                    }
                    assert forall|c: Seq<char>| has_chain(after, c) implies marks_of(after)[c]
                        == observed(marks_of(before), key@, height)[c] by {
                        let k = index_of(after, c);
                        lemma_marks_at(after, k);
                        if k < last {
                            lemma_marks_at(before, k);
                        }
                    }
                    assert(marks_of(after) =~= observed(marks_of(before), key@, height));
                }
            },
        }
    }

    /// The number of chains in the snapshot.
    pub fn len(&self) -> (count: usize)
        requires
            self.wf(),
        ensures
            count == self@.dom().len(),
            self@.dom().finite(),
    {
        proof {
            lemma_marks_count(self.entries@);
        }
        self.entries.len()
    }

    /// The watermark of `chain`, if the chain has been observed.
    pub fn get(&self, chain: &str) -> (mark: Option<Watermark>)
        requires
            self.wf(),
        ensures
            mark == (if self@.dom().contains(chain@) {
                Some(self@[chain@])
            } else {
                None
            }),
    {
        let key = chain.to_owned();
        match self.find(&key) {
            Some(i) => {
                proof {
                    lemma_marks_at(self.entries@, i as int);
                }
                Some(self.entries[i].mark)
            },
            None => {
                proof {
                    lemma_marks_absent(self.entries@, key@);
                }
                None
            },
        }
    }

    fn extreme(&self, want_highest: bool) -> (best: Option<ChainMark>)
        requires
            self.wf(),
        ensures
            match best {
                Some(entry) => {
                    &&& want_highest ==> is_highest(self@, entry.chain@)
                    &&& !want_highest ==> is_lowest(self@, entry.chain@)
                    &&& entry.mark == self@[entry.chain@]
                },
                None => self@ == Marks::empty(),
            },
    {
        let ghost entries = self.entries@;
        if self.entries.len() == 0 {
            assert(self@ =~= Marks::empty());
            return None;
        }
        let mut b: usize = 0;
        let mut i: usize = 1;
        proof {
            lemma_precedes_irreflexive(entries[0].chain@);
        }
        while i < self.entries.len()
            invariant
                entries == self.entries@,
                0 <= b < i <= entries.len(),
                forall|k: int|
                    0 <= k < i ==> rank((#[trigger] entries[k]).mark, want_highest) <= rank(
                        entries[b as int].mark,
                        want_highest,
                    ),
                forall|k: int|
                    0 <= k < i && rank((#[trigger] entries[k]).mark, want_highest) == rank(
                        entries[b as int].mark,
                        want_highest,
                    ) ==> !precedes(entries[k].chain@, entries[b as int].chain@),
            decreases entries.len() - i,
        {
            let candidate = &self.entries[i];
            let current = &self.entries[b];
            let better = if want_highest {
                candidate.mark.highest > current.mark.highest
            } else {
                candidate.mark.lowest < current.mark.lowest
            };
            let tied = if want_highest {
                candidate.mark.highest == current.mark.highest
            } else {
                candidate.mark.lowest == current.mark.lowest
            };
            proof {
                lemma_precedes_irreflexive(entries[i as int].chain@);
            }
            if better {
                b = i;
            } else if tied && text_precedes(candidate.chain.as_str(), current.chain.as_str()) {
                proof {
                    assert forall|k: int|
                        0 <= k < i && rank((#[trigger] entries[k]).mark, want_highest) == rank(
                            entries[i as int].mark,
                            want_highest,
                        ) implies !precedes(entries[k].chain@, entries[i as int].chain@) by {
                        if precedes(entries[k].chain@, entries[i as int].chain@) {
                            lemma_precedes_transitive(
                                entries[k].chain@,
                                entries[i as int].chain@,
                                entries[b as int].chain@,
                            );
                        }
                    }
                }
                b = i;
            }
            i = i + 1;
        }
        let entry = ChainMark { chain: self.entries[b].chain.clone(), mark: self.entries[b].mark };
        proof {
            lemma_marks_at(entries, b as int);
            let chain = entry.chain@;
            assert forall|d: Seq<char>| #[trigger] self@.dom().contains(d) implies rank(
                self@[d],
                want_highest,
            ) <= rank(self@[chain], want_highest) && (rank(self@[d], want_highest) == rank(
                self@[chain],
                want_highest,
            ) ==> !precedes(d, chain)) by {
                let k = index_of(entries, d);
                lemma_marks_at(entries, k);
            }
        }
        Some(entry)
    }

    /// The chain with the highest height of all, with its watermark. Of
    /// several chains at that height, the one whose label comes first in
    /// lexicographic order is returned. `None` on an empty snapshot.
    pub fn highest_chain(&self) -> (best: Option<ChainMark>)
        requires
            self.wf(),
        ensures
            match best {
                Some(entry) => is_highest(self@, entry.chain@) && entry.mark == self@[entry.chain@],
                None => self@ == Marks::empty(),
            },
    {
        self.extreme(true)
    }

    /// The chain with the lowest height of all, with its watermark. Of
    /// several chains at that height, the one whose label comes first in
    /// lexicographic order is returned. `None` on an empty snapshot.
    pub fn lowest_chain(&self) -> (best: Option<ChainMark>)
        requires
            self.wf(),
        ensures
            match best {
                Some(entry) => is_lowest(self@, entry.chain@) && entry.mark == self@[entry.chain@],
                None => self@ == Marks::empty(),
            },
    {
        self.extreme(false)
    }

    fn copy(&self) -> (snapshot: Snapshot)
        ensures
            snapshot.entries@ == self.entries@,
    {
        let mut entries: Vec<ChainMark> = Vec::new();
        let mut i: usize = 0;
        while i < self.entries.len()
            invariant
                i <= self.entries@.len(),
                entries@ == self.entries@.take(i as int),
            decreases self.entries@.len() - i,
        {
            entries.push(
                ChainMark { chain: self.entries[i].chain.clone(), mark: self.entries[i].mark },
            );
            assert(entries@ =~= self.entries@.take(i + 1));
            i = i + 1;
        }
        assert(entries@ =~= self.entries@);
        Snapshot { entries }
    }
}

proof fn lemma_marks_count(entries: Seq<ChainMark>)
    requires
        distinct(entries),
    ensures
        marks_of(entries).dom().finite(),
        marks_of(entries).dom().len() == entries.len(),
    decreases entries.len(),
{
    let dom = marks_of(entries).dom();
    if entries.len() == 0 {
        assert(dom =~= Set::empty());
    } else {
        let front = entries.drop_last();
        let last = entries.last();
        lemma_marks_count(front);
        let front_dom = marks_of(front).dom();
        assert forall|c: Seq<char>| dom.contains(c) <==> front_dom.insert(last.chain@).contains(
            c,
        ) by {
            if has_chain(entries, c) {
                let k = index_of(entries, c);
                if k < front.len() {
                    assert(front[k].chain@ == c);
                }
            }
            if has_chain(front, c) {
                let k = index_of(front, c);
                assert(entries[k].chain@ == c);
            }
            if c == last.chain@ {
                assert(entries[entries.len() - 1].chain@ == c);
            }
        }
        assert(dom =~= front_dom.insert(last.chain@));
        if front_dom.contains(last.chain@) {
            let k = index_of(front, last.chain@);
            assert(entries[k].chain@ == entries[entries.len() - 1].chain@);
        }
    }
}

/// The watermarks of every chain observed so far.
#[derive(Debug)]
pub struct WatermarkTracker {
    current: Snapshot,
}

impl WatermarkTracker {
    /// No chain is held twice, and every range is valid.
    pub closed spec fn wf(&self) -> bool {
        self.current.wf()
    }

    /// The mapping from chain label to watermark.
    pub closed spec fn view(&self) -> Marks {
        self.current@
    }

    /// A well-formed tracker holds valid ranges only, and finitely many.
    pub proof fn lemma_valid(&self)
        requires
            self.wf(),
        ensures
            marks_valid(self@),
            self@.dom().finite(),
    {
        self.current.lemma_valid();
    }

    /// A tracker that has observed nothing.
    pub fn new() -> (tracker: WatermarkTracker)
        ensures
            tracker.wf(),
            tracker@ == Marks::empty(),
    {
        WatermarkTracker { current: Snapshot::empty() }
    }

    /// Records that a block of `chain` at `height` was seen: a chain seen for
    /// the first time gets the range `(height, height)`; a known chain has its
    /// lowest height lowered or its highest raised where `height` lies
    /// outside the range. The other chains are left as they are.
    pub fn observe(&mut self, chain: &str, height: u64)
        requires
            old(self).wf(),
        ensures
            final(self).wf(),
            final(self)@ == observed(old(self)@, chain@, height),
            never_narrowed(old(self)@, final(self)@),
            marks_valid(final(self)@),
    {
        proof {
            self.current.lemma_valid();
        }
        self.current.observe(chain, height);
        proof {
            self.current.lemma_valid();
        }
    }

    /// The watermark of `chain`, if the chain has been observed.
    pub fn get(&self, chain: &str) -> (mark: Option<Watermark>)
        requires
            self.wf(),
        ensures
            mark == (if self@.dom().contains(chain@) {
                Some(self@[chain@])
            } else {
                None
            }),
    {
        self.current.get(chain)
    }

    /// A copy of the watermarks as they are now; later observations do not
    /// reach it.
    pub fn snapshot(&self) -> (snapshot: Snapshot)
        requires
            self.wf(),
        ensures
            snapshot.wf(),
            snapshot@ == self@,
    {
        self.current.copy()
    }
}

/// The mapping after a sequence of observations, made in order.
pub open spec fn observed_all(marks: Marks, calls: Seq<(Seq<char>, u64)>) -> Marks
    decreases calls.len(),
{
    if calls.len() == 0 {
        marks
    } else {
        observed(observed_all(marks, calls.drop_last()), calls.last().0, calls.last().1)
    }
}

/// One observation keeps every range valid and narrows none.
pub proof fn lemma_observed_widens(marks: Marks, chain: Seq<char>, height: u64)
    requires
        marks_valid(marks),
    ensures
        marks_valid(observed(marks, chain, height)),
        never_narrowed(marks, observed(marks, chain, height)),
{
}

/// Whatever is observed and in whatever order, after every call each range
/// is valid, and between any two points of the sequence no chain is lost, no
/// lowest height rises and no highest height falls.
pub proof fn lemma_observations_monotone(
    marks: Marks,
    calls: Seq<(Seq<char>, u64)>,
    i: int,
    j: int,
)
    requires
        marks_valid(marks),
        0 <= i <= j <= calls.len(),
    ensures
        marks_valid(observed_all(marks, calls.take(j))),
        never_narrowed(observed_all(marks, calls.take(i)), observed_all(marks, calls.take(j))),
    decreases j,
{
    if j == 0 {
        assert(calls.take(0) =~= Seq::empty());
    } else if i == j {
        lemma_observations_monotone(marks, calls, j - 1, j - 1);
        assert(calls.take(j).drop_last() =~= calls.take(j - 1));
        lemma_observed_widens(
            observed_all(marks, calls.take(j - 1)),
            calls[j - 1].0,
            calls[j - 1].1,
        );
    } else {
        lemma_observations_monotone(marks, calls, i, j - 1);
        assert(calls.take(j).drop_last() =~= calls.take(j - 1));
        lemma_observed_widens(
            observed_all(marks, calls.take(j - 1)),
            calls[j - 1].0,
            calls[j - 1].1,
        );
    }
}

/// The chain with the highest height is determined by the mapping alone.
pub proof fn lemma_highest_unique(marks: Marks, a: Seq<char>, b: Seq<char>)
    requires
        is_highest(marks, a),
        is_highest(marks, b),
    ensures
        a == b,
{
    lemma_precedes_total(a, b);
}

/// The chain with the lowest height is determined by the mapping alone.
pub proof fn lemma_lowest_unique(marks: Marks, a: Seq<char>, b: Seq<char>)
    requires
        is_lowest(marks, a),
        is_lowest(marks, b),
    ensures
        a == b,
{
    lemma_precedes_total(a, b);
}

} // verus!
