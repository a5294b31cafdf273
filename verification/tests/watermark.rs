use chain_ingest::text::text_precedes;
use chain_ingest::watermark::{Watermark, WatermarkTracker};

#[test]
fn watermark_after_four_heights() {
    let mut tracker = WatermarkTracker::new();
    for height in [5u64, 2, 9, 1] {
        tracker.observe("A", height);
    }
    let snapshot = tracker.snapshot();
    assert_eq!(snapshot.get("A"), Some(Watermark { lowest: 1, highest: 9 }));
    assert_eq!(snapshot.len(), 1);
}

#[test]
fn first_observation_sets_both_ends() {
    let mut tracker = WatermarkTracker::new();
    assert_eq!(tracker.get("A"), None);
    tracker.observe("A", 42);
    assert_eq!(tracker.get("A"), Some(Watermark { lowest: 42, highest: 42 }));
    assert_eq!(tracker.get("B"), None);
}

#[test]
fn range_only_widens() {
    let heights = [7u64, 7, 3, 12, 5, 0, u64::MAX, 9];
    let mut tracker = WatermarkTracker::new();
    let mut previous: Option<Watermark> = None;
    for height in heights {
        tracker.observe("chain", height);
        let now = tracker.get("chain").unwrap();
        assert!(now.lowest <= now.highest);
        assert!(now.lowest <= height && height <= now.highest);
        if let Some(before) = previous {
            assert!(now.lowest <= before.lowest);
            assert!(now.highest >= before.highest);
        }
        previous = Some(now);
    }
    assert_eq!(previous, Some(Watermark { lowest: 0, highest: u64::MAX }));
}

#[test]
fn other_chains_are_left_alone() {
    let mut tracker = WatermarkTracker::new();
    tracker.observe("X", 10);
    tracker.observe("Y", 100);
    tracker.observe("X", 12);
    tracker.observe("Y", 99);
    assert_eq!(tracker.get("X"), Some(Watermark { lowest: 10, highest: 12 }));
    assert_eq!(tracker.get("Y"), Some(Watermark { lowest: 99, highest: 100 }));
    assert_eq!(tracker.snapshot().len(), 2);
}

#[test]
fn snapshot_is_a_copy() {
    let mut tracker = WatermarkTracker::new();
    tracker.observe("A", 5);
    let snapshot = tracker.snapshot();
    tracker.observe("A", 50);
    tracker.observe("B", 1);
    assert_eq!(snapshot.get("A"), Some(Watermark { lowest: 5, highest: 5 }));
    assert_eq!(snapshot.get("B"), None);
    assert_eq!(snapshot.len(), 1);
    assert_eq!(tracker.get("A"), Some(Watermark { lowest: 5, highest: 50 }));
}

#[test]
fn widen_and_single() {
    let mark = Watermark::single(8);
    assert_eq!(mark, Watermark { lowest: 8, highest: 8 });
    assert_eq!(mark.widen(8), mark);
    assert_eq!(mark.widen(3), Watermark { lowest: 3, highest: 8 });
    assert_eq!(mark.widen(11), Watermark { lowest: 8, highest: 11 });
    assert_eq!(mark.widen(3).widen(11).widen(5), Watermark { lowest: 3, highest: 11 });
}

#[test]
fn extremes_of_an_empty_snapshot() {
    let snapshot = WatermarkTracker::new().snapshot();
    assert_eq!(snapshot.len(), 0);
    assert_eq!(snapshot.highest_chain(), None);
    assert_eq!(snapshot.lowest_chain(), None);
}

#[test]
fn highest_and_lowest_chain() {
    let mut tracker = WatermarkTracker::new();
    tracker.observe("Polkadot", 200);
    tracker.observe("AssetHub", 50);
    tracker.observe("AssetHub", 60);
    tracker.observe("Polkadot", 210);
    let snapshot = tracker.snapshot();
    let highest = snapshot.highest_chain().unwrap();
    assert_eq!(highest.chain, "Polkadot");
    assert_eq!(highest.mark, Watermark { lowest: 200, highest: 210 });
    let lowest = snapshot.lowest_chain().unwrap();
    assert_eq!(lowest.chain, "AssetHub");
    assert_eq!(lowest.mark, Watermark { lowest: 50, highest: 60 });
}

#[test]
fn ties_go_to_the_first_label_in_order() {
    for order in [["b", "a", "c"], ["c", "b", "a"], ["a", "c", "b"]] {
        let mut tracker = WatermarkTracker::new();
        for chain in order {
            tracker.observe(chain, 10);
        }
        let snapshot = tracker.snapshot();
        assert_eq!(snapshot.highest_chain().unwrap().chain, "a");
        assert_eq!(snapshot.lowest_chain().unwrap().chain, "a");
    }
}

#[test]
fn tie_break_looks_at_tied_chains_only() {
    let mut tracker = WatermarkTracker::new();
    tracker.observe("a", 1);
    tracker.observe("m", 9);
    tracker.observe("z", 9);
    tracker.observe("k", 5);
    tracker.observe("b", 1);
    let snapshot = tracker.snapshot();
    assert_eq!(snapshot.highest_chain().unwrap().chain, "m");
    assert_eq!(snapshot.lowest_chain().unwrap().chain, "a");
}

#[test]
fn a_prefix_comes_first() {
    let mut tracker = WatermarkTracker::new();
    tracker.observe("chain-1", 3);
    tracker.observe("chain", 3);
    let snapshot = tracker.snapshot();
    assert_eq!(snapshot.highest_chain().unwrap().chain, "chain");
}

#[test]
fn order_of_labels() {
    assert!(text_precedes("", "a"));
    assert!(!text_precedes("a", ""));
    assert!(!text_precedes("", ""));
    assert!(!text_precedes("abc", "abc"));
    assert!(text_precedes("abc", "abd"));
    assert!(!text_precedes("abd", "abc"));
    assert!(text_precedes("ab", "abc"));
    assert!(!text_precedes("abc", "ab"));
    assert!(text_precedes("B", "a"));
    assert!(text_precedes("z", "é"));
    assert!(text_precedes("é", "日"));
    let pairs = [("Kusama", "Polkadot"), ("a", "b"), ("", "x"), ("x", "xy"), ("é", "日本")];
    for (left, right) in pairs {
        assert_eq!(text_precedes(left, right), left < right);
        assert_eq!(text_precedes(right, left), right < left);
    }
}
