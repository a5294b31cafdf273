//! The three append-only logs, held in memory, and the rule by which failing
//! appends end a run.
//!
//! A log is a sequence of lines; its text is each line followed by a line
//! feed. Lines are only ever added at the end.

use crate::effect::{effect_views, lines_for, Effect, EffectView, SinkKind};
use crate::record::record_text;
use vstd::prelude::*;
use vstd::string::*;

verus! {

/// The text of a log: each line followed by a line feed.
pub open spec fn log_text(lines: Seq<Seq<char>>) -> Seq<char>
    decreases lines.len(),
{
    if lines.len() == 0 {
        Seq::empty()
    } else {
        log_text(lines.drop_last()) + record_text(lines.last())
    }
}

/// The position of the first line feed of a text; its length where it has
/// none.
pub open spec fn first_feed(text: Seq<char>) -> int
    decreases text.len(),
{
    if text.len() == 0 {
        0
    } else if text[0] == '\n' {
        0
    } else {
        1 + first_feed(text.drop_first())
    }
}

/// The lines of a text: what stands before each of its line feeds, and what
/// stands behind the last one where that is not empty.
pub open spec fn text_lines(text: Seq<char>) -> Seq<Seq<char>>
    decreases text.len(),
{
    if text.len() == 0 {
        Seq::empty()
    } else {
        let feed = first_feed(text);
        if feed < 0 || feed >= text.len() {
            seq![text]
        } else {
            seq![text.take(feed)] + text_lines(text.skip(feed + 1))
        }
    }
}

/// The line holds no line feed.
pub open spec fn single_line(line: Seq<char>) -> bool {
    forall|i: int| 0 <= i < line.len() ==> line[i] != '\n'
}

proof fn lemma_log_text_front(lines: Seq<Seq<char>>)
    requires
        lines.len() > 0,
    ensures
        log_text(lines) == record_text(lines[0]) + log_text(lines.drop_first()),
    decreases lines.len(),
{
    if lines.len() == 1 {
        assert(lines.drop_last() =~= Seq::<Seq<char>>::empty());
        assert(lines.drop_first() =~= Seq::<Seq<char>>::empty());
        assert(log_text(lines) =~= record_text(lines[0]) + log_text(lines.drop_first()));
    } else {
        lemma_log_text_front(lines.drop_last());
        assert(lines.drop_last().drop_first() =~= lines.drop_first().drop_last());
        assert(lines.drop_first().last() == lines.last());
        assert(log_text(lines) =~= record_text(lines[0]) + log_text(lines.drop_first()));
    }
}

proof fn lemma_first_feed(line: Seq<char>, rest: Seq<char>)
    requires
        single_line(line),
    ensures
        first_feed(line + seq!['\n'] + rest) == line.len(),
    decreases line.len(),
{
    let text = line + seq!['\n'] + rest;
    if line.len() > 0 {
        assert(text[0] == line[0]);
        assert(text.drop_first() =~= line.drop_first() + seq!['\n'] + rest);
        assert(single_line(line.drop_first())) by {
            assert forall|i: int| 0 <= i < line.drop_first().len() implies line.drop_first()[i]
                != '\n' by {
                assert(line.drop_first()[i] == line[i + 1]);
            }
        }
        lemma_first_feed(line.drop_first(), rest);
    } else {
        assert(text[0] == '\n');
    }
}

/// Lines never run into each other: the text of a log, read line by line,
/// gives back exactly the lines that were appended, in their order, as long
/// as none of them holds a line feed of its own.
pub proof fn lemma_lines_round_trip(lines: Seq<Seq<char>>)
    requires
        forall|i: int| 0 <= i < lines.len() ==> single_line(#[trigger] lines[i]),
    ensures
        text_lines(log_text(lines)) == lines,
    decreases lines.len(),
{
    if lines.len() > 0 {
        let first = lines[0];
        let rest = lines.drop_first();
        let tail = log_text(rest);
        let text = log_text(lines);
        reveal_strlit("\n");
        lemma_log_text_front(lines);
        assert(record_text(first) =~= first + seq!['\n']);
        assert(text =~= first + seq!['\n'] + tail);
        lemma_first_feed(first, tail);
        assert(text.take(first.len() as int) =~= first);
        assert(text.skip(first.len() as int + 1) =~= tail);
        assert forall|i: int| 0 <= i < rest.len() implies single_line(#[trigger] rest[i]) by {
            assert(rest[i] == lines[i + 1]);
        }
        lemma_lines_round_trip(rest);
        assert(seq![first] + rest =~= lines);
    }
}

/// The three logs as contracts speak of them: the lines of each, in the order
/// in which they were appended.
pub struct LogBookView {
    pub blocks: Seq<Seq<char>>,
    pub pallets: Seq<Seq<char>>,
    pub events: Seq<Seq<char>>,
}

impl LogBookView {
    /// The lines of one log.
    pub open spec fn lines(self, sink: SinkKind) -> Seq<Seq<char>> {
        match sink {
            SinkKind::Blocks => self.blocks,
            SinkKind::Pallets => self.pallets,
            SinkKind::Events => self.events,
        }
    }

    /// The logs after `line` is appended to `sink`; the other two are as
    /// before.
    pub open spec fn append(self, sink: SinkKind, line: Seq<char>) -> LogBookView {
        match sink {
            SinkKind::Blocks => LogBookView { blocks: self.blocks.push(line), ..self },
            SinkKind::Pallets => LogBookView { pallets: self.pallets.push(line), ..self },
            SinkKind::Events => LogBookView { events: self.events.push(line), ..self },
        }
    }

    /// The logs after the lines of `effects` are appended, each to its sink.
    pub open spec fn apply(self, effects: Seq<EffectView>) -> LogBookView {
        LogBookView {
            blocks: self.blocks + lines_for(effects, SinkKind::Blocks),
            pallets: self.pallets + lines_for(effects, SinkKind::Pallets),
            events: self.events + lines_for(effects, SinkKind::Events),
        }
    }

    /// The logs with nothing in them.
    pub open spec fn empty() -> LogBookView {
        LogBookView { blocks: Seq::empty(), pallets: Seq::empty(), events: Seq::empty() }
    }
}

/// The three logs, held in memory.
#[derive(Debug)]
pub struct LogBook {
    blocks: Vec<String>,
    pallets: Vec<String>,
    events: Vec<String>,
}

impl LogBook {
    /// The lines of each log.
    pub closed spec fn view(&self) -> LogBookView {
        LogBookView {
            blocks: crate::text::texts(self.blocks@),
            pallets: crate::text::texts(self.pallets@),
            events: crate::text::texts(self.events@),
        }
    }

    /// Three empty logs.
    pub fn new() -> (book: LogBook)
        ensures
            book@ == LogBookView::empty(),
    {
        let book = LogBook { blocks: Vec::new(), pallets: Vec::new(), events: Vec::new() };
        assert(book@.blocks =~= Seq::empty());
        assert(book@.pallets =~= Seq::empty());
        assert(book@.events =~= Seq::empty());
        book
    }

    /// Appends `line` to `sink`. What the logs held before stays as it was.
    pub fn append(&mut self, sink: SinkKind, line: String)
        ensures
            final(self)@ == old(self)@.append(sink, line@),
    {
        match sink {
            SinkKind::Blocks => {
                self.blocks.push(line);
                assert(self@.blocks =~= old(self)@.blocks.push(line@));
            },
            SinkKind::Pallets => {
                self.pallets.push(line);
                assert(self@.pallets =~= old(self)@.pallets.push(line@));
            },
            SinkKind::Events => {
                self.events.push(line);
                assert(self@.events =~= old(self)@.events.push(line@));
            },
        }
    }

    /// Appends the lines of `effects`, each to its sink and in the order of
    /// the list. Reports are passed over.
    pub fn apply(&mut self, effects: &Vec<Effect>)
        ensures
            final(self)@ == old(self)@.apply(effect_views(effects@)),
    {
        let ghost all = effect_views(effects@);
        let mut i: usize = 0;
        proof {
            assert(all.take(0) =~= Seq::empty());
            assert(self@.blocks =~= old(self)@.apply(all.take(0)).blocks);
            assert(self@.pallets =~= old(self)@.apply(all.take(0)).pallets);
            assert(self@.events =~= old(self)@.apply(all.take(0)).events);
        }
        while i < effects.len()
            invariant
                i <= effects@.len(),
                all == effect_views(effects@),
                self@ == old(self)@.apply(all.take(i as int)),
            decreases effects@.len() - i,
        {
            let ghost before = self@;
            proof {
                let next = all.take(i + 1);
                assert(next.drop_last() =~= all.take(i as int));
                assert(next.last() == effects@[i as int]@);
            }
            match &effects[i] {
                Effect::Append { sink, line } => {
                    self.append(*sink, line.clone());
                },
                Effect::Report { .. } => {},
            }
            proof {
                let next = all.take(i + 1);
                assert(self@.blocks =~= old(self)@.apply(next).blocks);
                assert(self@.pallets =~= old(self)@.apply(next).pallets);
                assert(self@.events =~= old(self)@.apply(next).events);
            }
            i = i + 1;
        }
        assert(all.take(i as int) =~= all);
    }

    fn lines_ref(&self, sink: SinkKind) -> (lines: &Vec<String>)
        ensures
            crate::text::texts(lines@) == self@.lines(sink),
    {
        match sink {
            SinkKind::Blocks => &self.blocks,
            SinkKind::Pallets => &self.pallets,
            SinkKind::Events => &self.events,
        }
    }

    /// The number of lines of one log.
    pub fn line_count(&self, sink: SinkKind) -> (count: usize)
        ensures
            count == self@.lines(sink).len(),
    {
        self.lines_ref(sink).len()
    }

    /// The line at `position` of one log, if the log has that many.
    pub fn line(&self, sink: SinkKind, position: usize) -> (line: Option<&String>)
        ensures
            match line {
                Some(text) => position < self@.lines(sink).len() && text@ == self@.lines(
                    sink,
                )[position as int],
                None => position >= self@.lines(sink).len(),
            },
    {
        let lines = self.lines_ref(sink);
        if position < lines.len() {
            assert(crate::text::texts(lines@)[position as int] == lines@[position as int]@);
            Some(&lines[position])
        } else {
            None
        }
    }

    /// The text of one log: each of its lines followed by a line feed.
    pub fn content(&self, sink: SinkKind) -> (text: String)
        ensures
            text@ == log_text(self@.lines(sink)),
    {
        let lines = self.lines_ref(sink);
        let ghost all = self@.lines(sink);
        let mut text = String::new();
        let mut i: usize = 0;
        assert(all.take(0) =~= Seq::empty());
        while i < lines.len()
            invariant
                i <= lines@.len(),
                all == crate::text::texts(lines@),
                text@ == log_text(all.take(i as int)),
            decreases lines@.len() - i,
        {
            text.append(lines[i].as_str());
            text.append("\n");
            proof {
                let next = all.take(i + 1);
                assert(next.drop_last() =~= all.take(i as int));
                assert(next.last() == lines@[i as int]@);
                assert(text@ =~= log_text(next));
            }
            i = i + 1;
        }
        assert(all.take(i as int) =~= all);
        text
    }
}

/// How many appends in a row have failed for each sink, and the number at
/// which a run is given up. A limit of zero means that a run is never given
/// up on account of its sinks.
#[derive(Clone, Copy, Debug, PartialEq, Eq, Structural)]
pub struct SinkHealth {
    pub limit: u32,
    pub blocks: u32,
    pub pallets: u32,
    pub events: u32,
}

impl SinkHealth {
    /// The number of appends to `sink` that have failed in a row.
    pub open spec fn spec_failures(self, sink: SinkKind) -> u32 {
        match sink {
            SinkKind::Blocks => self.blocks,
            SinkKind::Pallets => self.pallets,
            SinkKind::Events => self.events,
        }
    }

    /// The count of `sink` after one more append: zero after one that
    /// succeeded, one more after one that failed (it stays at the largest
    /// number that fits).
    pub open spec fn next_count(count: u32, appended: bool) -> u32 {
        if appended {
            0
        } else if count == u32::MAX {
            count
        } else {
            (count + 1) as u32
        }
    }

    /// The counts after one more append to `sink`; the counts of the other
    /// sinks are as before.
    pub open spec fn spec_record(self, sink: SinkKind, appended: bool) -> SinkHealth {
        match sink {
            SinkKind::Blocks => SinkHealth {
                blocks: Self::next_count(self.blocks, appended),
                ..self
            },
            SinkKind::Pallets => SinkHealth {
                pallets: Self::next_count(self.pallets, appended),
                ..self
            },
            SinkKind::Events => SinkHealth {
                events: Self::next_count(self.events, appended),
                ..self
            },
        }
    }

    /// Whether some sink has failed as many times in a row as the limit says.
    pub open spec fn spec_fatal(self) -> bool {
        self.limit > 0 && (self.blocks >= self.limit || self.pallets >= self.limit || self.events
            >= self.limit)
    }

    /// No failures yet, and a run is given up after `limit` failed appends in
    /// a row to one sink.
    pub fn new(limit: u32) -> (health: SinkHealth)
        ensures
            health == (SinkHealth { limit, blocks: 0, pallets: 0, events: 0 }),
    {
        SinkHealth { limit, blocks: 0, pallets: 0, events: 0 }
    }

    /// The number of appends to `sink` that have failed in a row.
    #[verifier::when_used_as_spec(spec_failures)]
    pub fn failures(self, sink: SinkKind) -> (count: u32)
        ensures
            count == self.spec_failures(sink),
    {
        match sink {
            SinkKind::Blocks => self.blocks,
            SinkKind::Pallets => self.pallets,
            SinkKind::Events => self.events,
        }
    }

    /// The counts after one more append to `sink`.
    #[verifier::when_used_as_spec(spec_record)]
    pub fn record(self, sink: SinkKind, appended: bool) -> (health: SinkHealth)
        ensures
            health == self.spec_record(sink, appended),
    {
        let count = self.failures(sink);
        let next = if appended {
            0
        } else if count == u32::MAX {
            count
        } else {
            count + 1
        };
        match sink {
            SinkKind::Blocks => SinkHealth { blocks: next, ..self },
            SinkKind::Pallets => SinkHealth { pallets: next, ..self },
            SinkKind::Events => SinkHealth { events: next, ..self },
        }
    }

    /// Whether the run is to be given up.
    #[verifier::when_used_as_spec(spec_fatal)]
    pub fn fatal(self) -> (fatal: bool)
        ensures
            fatal == self.spec_fatal(),
    {
        self.limit > 0 && (self.blocks >= self.limit || self.pallets >= self.limit || self.events
            >= self.limit)
    }
}

} // verus!
