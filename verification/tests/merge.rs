use chain_ingest::merge::{Merger, Tagged};

fn labels(names: &[&str]) -> Vec<String> {
    names.iter().map(|name| name.to_string()).collect()
}

#[test]
fn a_fresh_merger_wants_every_source() {
    let merger: Merger<u32> = Merger::new(labels(&["X", "Y", "Z"]));
    assert_eq!(merger.source_count(), 3);
    assert!(merger.wants(0) && merger.wants(1) && merger.wants(2));
    assert!(!merger.wants(3));
    assert_eq!(merger.label(1), Some(&"Y".to_string()));
    assert_eq!(merger.label(3), None);
    assert!(!merger.is_finished());
}

#[test]
fn take_tags_the_element_with_its_source() {
    let mut merger: Merger<u32> = Merger::new(labels(&["X", "Y"]));
    assert_eq!(merger.offer(1, 7), None);
    assert_eq!(merger.take(), Some(Tagged { source: 1, chain: "Y".to_string(), item: 7 }));
    assert_eq!(merger.take(), None);
}

#[test]
fn one_element_is_held_per_source() {
    let mut merger: Merger<u32> = Merger::new(labels(&["X", "Y"]));
    assert_eq!(merger.offer(0, 1), None);
    assert!(!merger.wants(0));
    assert_eq!(merger.offer(0, 2), Some(2));
    assert_eq!(merger.offer(2, 3), Some(3));
    assert_eq!(merger.take().unwrap().item, 1);
    assert!(merger.wants(0));
    assert_eq!(merger.offer(0, 2), None);
    assert_eq!(merger.take().unwrap().item, 2);
}

#[test]
fn sources_are_served_in_a_circle() {
    let mut merger: Merger<&str> = Merger::new(labels(&["A", "B", "C"]));
    let mut out = Vec::new();
    let mut next = [0usize; 3];
    let feeds = [vec!["a0", "a1", "a2"], vec!["b0", "b1", "b2"], vec!["c0", "c1", "c2"]];
    loop {
        for source in 0..3 {
            if merger.wants(source) && next[source] < feeds[source].len() {
                assert_eq!(merger.offer(source, feeds[source][next[source]]), None);
                next[source] += 1;
            }
        }
        match merger.take() {
            Some(tagged) => out.push(tagged.item),
            None => break,
        }
    }
    assert_eq!(out, vec!["a0", "b0", "c0", "a1", "b1", "c1", "a2", "b2", "c2"]);
}

#[test]
fn merge_is_complete_and_keeps_each_order() {
    let feeds: [Vec<u32>; 3] = [vec![10, 11, 12, 13], vec![], vec![100, 101]];
    let schedule = [0usize, 0, 2, 1, 0, 2, 2, 0, 1, 0, 0, 2, 1];
    let mut merger: Merger<u32> = Merger::new(labels(&["X", "Y", "Z"]));
    let mut next = [0usize; 3];
    let mut out: Vec<Tagged<u32>> = Vec::new();
    let mut turn = 0;
    while !merger.is_finished() {
        let source = schedule[turn % schedule.len()];
        turn += 1;
        if merger.wants(source) {
            if next[source] < feeds[source].len() {
                assert_eq!(merger.offer(source, feeds[source][next[source]]), None);
                next[source] += 1;
            } else {
                assert!(merger.close(source));
            }
        }
        if turn % 3 == 0 {
            if let Some(tagged) = merger.take() {
                out.push(tagged);
            }
        }
        assert!(turn < 1000);
    }
    assert_eq!(out.len(), 6);
    for source in 0..3 {
        let seen: Vec<u32> =
            out.iter().filter(|tagged| tagged.source == source).map(|tagged| tagged.item).collect();
        assert_eq!(seen, feeds[source]);
    }
    for tagged in &out {
        assert_eq!(Some(&tagged.chain), merger.label(tagged.source));
    }
}

#[test]
fn a_stalled_source_does_not_block_the_others() {
    let mut merger: Merger<u32> = Merger::new(labels(&["stalled", "live"]));
    assert_eq!(merger.offer(0, 1), None);
    assert_eq!(merger.take().unwrap().item, 1);
    for item in 0..50u32 {
        assert!(merger.wants(1));
        assert_eq!(merger.offer(1, item), None);
        let tagged = merger.take().unwrap();
        assert_eq!((tagged.source, tagged.item), (1, item));
    }
    assert!(merger.wants(0));
    assert!(!merger.is_finished());
}

#[test]
fn an_ended_source_does_not_block_the_others() {
    let mut merger: Merger<u32> = Merger::new(labels(&["early", "late"]));
    assert!(merger.close(0));
    assert!(!merger.wants(0));
    assert_eq!(merger.offer(0, 9), Some(9));
    for item in 0..5u32 {
        assert_eq!(merger.offer(1, item), None);
        assert_eq!(merger.take().unwrap().item, item);
    }
    assert!(!merger.is_finished());
    assert!(merger.close(1));
    assert!(merger.is_finished());
}

#[test]
fn what_is_held_survives_the_end_of_its_source() {
    let mut merger: Merger<u32> = Merger::new(labels(&["X"]));
    assert_eq!(merger.offer(0, 5), None);
    assert!(merger.close(0));
    assert!(!merger.is_finished());
    assert_eq!(merger.take(), Some(Tagged { source: 0, chain: "X".to_string(), item: 5 }));
    assert!(merger.is_finished());
    assert_eq!(merger.take(), None);
}

#[test]
fn closing_an_unknown_source_changes_nothing() {
    let mut merger: Merger<u32> = Merger::new(labels(&["X"]));
    assert!(!merger.close(1));
    assert!(merger.wants(0));
    assert!(!merger.is_finished());
}

#[test]
fn a_merger_without_sources_is_finished() {
    let mut merger: Merger<u32> = Merger::new(Vec::new());
    assert_eq!(merger.source_count(), 0);
    assert!(merger.is_finished());
    assert_eq!(merger.take(), None);
    assert_eq!(merger.offer(0, 1), Some(1));
    assert!(!merger.close(0));
}

#[test]
fn the_cursor_stands_behind_the_source_served_last() {
    let mut merger: Merger<u32> = Merger::new(labels(&["A", "B", "C"]));
    assert_eq!(merger.offer(2, 1), None);
    assert_eq!(merger.take().unwrap().source, 2);
    assert_eq!(merger.offer(2, 2), None);
    assert_eq!(merger.offer(1, 3), None);
    assert_eq!(merger.offer(0, 4), None);
    let order: Vec<usize> = (0..3).map(|_| merger.take().unwrap().source).collect();
    assert_eq!(order, vec![0, 1, 2]);
    assert_eq!(merger.offer(0, 5), None);
    assert_eq!(merger.offer(2, 6), None);
    let order: Vec<usize> = (0..2).map(|_| merger.take().unwrap().source).collect();
    assert_eq!(order, vec![0, 2]);
}
