use chain_ingest::effect::{Effect, Failure, SinkKind};
use chain_ingest::sink::{LogBook, SinkHealth};

#[test]
fn a_new_book_is_empty() {
    let book = LogBook::new();
    for sink in [SinkKind::Blocks, SinkKind::Pallets, SinkKind::Events] {
        assert_eq!(book.line_count(sink), 0);
        assert_eq!(book.line(sink, 0), None);
        assert_eq!(book.content(sink), "");
    }
}

#[test]
fn lines_are_appended_to_their_sink_only() {
    let mut book = LogBook::new();
    book.append(SinkKind::Blocks, "first".to_string());
    book.append(SinkKind::Events, "event".to_string());
    book.append(SinkKind::Blocks, "second".to_string());
    assert_eq!(book.line_count(SinkKind::Blocks), 2);
    assert_eq!(book.line_count(SinkKind::Pallets), 0);
    assert_eq!(book.line_count(SinkKind::Events), 1);
    assert_eq!(book.line(SinkKind::Blocks, 0), Some(&"first".to_string()));
    assert_eq!(book.line(SinkKind::Blocks, 1), Some(&"second".to_string()));
    assert_eq!(book.line(SinkKind::Blocks, 2), None);
    assert_eq!(book.content(SinkKind::Blocks), "first\nsecond\n");
    assert_eq!(book.content(SinkKind::Pallets), "");
    assert_eq!(book.content(SinkKind::Events), "event\n");
}

#[test]
fn every_line_of_the_text_is_one_of_the_lines_appended() {
    let inputs: Vec<String> = (0..40).map(|n| format!("line number {n} of the log")).collect();
    let mut book = LogBook::new();
    for line in &inputs {
        book.append(SinkKind::Pallets, line.clone());
    }
    let text = book.content(SinkKind::Pallets);
    let found: Vec<&str> = text.lines().collect();
    assert_eq!(found, inputs);
    assert!(text.ends_with('\n'));
}

#[test]
fn effects_are_applied_in_order() {
    let effects = vec![
        Effect::Append { sink: SinkKind::Blocks, line: "b1".to_string() },
        Effect::Append { sink: SinkKind::Pallets, line: "p1".to_string() },
        Effect::Report {
            failure: Failure::Connection { chain: "X".to_string(), detail: "down".to_string() },
        },
        Effect::Append { sink: SinkKind::Events, line: "e1".to_string() },
        Effect::Append { sink: SinkKind::Pallets, line: "p2".to_string() },
    ];
    let mut book = LogBook::new();
    book.append(SinkKind::Pallets, "p0".to_string());
    book.apply(&effects);
    assert_eq!(book.content(SinkKind::Blocks), "b1\n");
    assert_eq!(book.content(SinkKind::Pallets), "p0\np1\np2\n");
    assert_eq!(book.content(SinkKind::Events), "e1\n");
    book.apply(&Vec::new());
    assert_eq!(book.line_count(SinkKind::Pallets), 3);
}

#[test]
fn a_run_is_given_up_at_the_limit() {
    let mut health = SinkHealth::new(3);
    assert_eq!(health, SinkHealth { limit: 3, blocks: 0, pallets: 0, events: 0 });
    assert!(!health.fatal());
    health = health.record(SinkKind::Events, false);
    health = health.record(SinkKind::Events, false);
    assert_eq!(health.failures(SinkKind::Events), 2);
    assert!(!health.fatal());
    health = health.record(SinkKind::Events, false);
    assert_eq!(health.failures(SinkKind::Events), 3);
    assert!(health.fatal());
    health = health.record(SinkKind::Events, true);
    assert_eq!(health.failures(SinkKind::Events), 0);
    assert!(!health.fatal());
}

#[test]
fn failures_count_in_a_row_and_per_sink() {
    let mut health = SinkHealth::new(2);
    health = health.record(SinkKind::Blocks, false);
    health = health.record(SinkKind::Pallets, false);
    health = health.record(SinkKind::Events, false);
    assert_eq!(health, SinkHealth { limit: 2, blocks: 1, pallets: 1, events: 1 });
    assert!(!health.fatal());
    health = health.record(SinkKind::Blocks, true);
    health = health.record(SinkKind::Blocks, false);
    assert_eq!(health.failures(SinkKind::Blocks), 1);
    assert!(!health.fatal());
    health = health.record(SinkKind::Pallets, false);
    assert_eq!(health.failures(SinkKind::Pallets), 2);
    assert!(health.fatal());
}

#[test]
fn a_limit_of_zero_never_gives_up() {
    let mut health = SinkHealth::new(0);
    for _ in 0..10 {
        health = health.record(SinkKind::Blocks, false);
    }
    assert_eq!(health.failures(SinkKind::Blocks), 10);
    assert!(!health.fatal());
}

#[test]
fn the_count_stays_at_the_largest_number() {
    let health = SinkHealth { limit: 1, blocks: u32::MAX, pallets: 0, events: 0 };
    let next = health.record(SinkKind::Blocks, false);
    assert_eq!(next.failures(SinkKind::Blocks), u32::MAX);
    assert!(next.fatal());
    assert_eq!(next.record(SinkKind::Blocks, true).failures(SinkKind::Blocks), 0);
}
