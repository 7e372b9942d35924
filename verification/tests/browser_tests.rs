use zen::snapshots::oldest_first;
use zen::browser::{BrowserItem, BrowserNode, NodeKey, browser_items, close_key, collapse_key, find_day_above, toggle_key};

fn nodes(items: &[BrowserItem]) -> Vec<BrowserNode> {
    items.iter().map(|i| i.node).collect()
}

#[test]
fn browser_lists_newest_first_and_opens_only_open_nodes() {
    let dates = vec![(2023, 12, 31), (2024, 1, 5), (2024, 1, 5), (2024, 2, 1)];
    let open = vec![NodeKey::Year(2024), NodeKey::Month(2024, 1), NodeKey::Day(2024, 1, 5)];
    let items = browser_items(&dates, &open);
    assert_eq!(
        nodes(&items),
        vec![
            BrowserNode::Year(2024),
            BrowserNode::Month(2024, 2),
            BrowserNode::Month(2024, 1),
            BrowserNode::Day(2024, 1, 5),
            BrowserNode::Snap(2),
            BrowserNode::Snap(1),
            BrowserNode::Year(2023),
        ]
    );
    assert!(items[0].expanded);
    assert!(!items[1].expanded);
    assert_eq!(items[4].depth, 3);
    assert!(browser_items(&vec![], &open).is_empty());
}

#[test]
fn toggle_and_close_keys() {
    let mut open = vec![NodeKey::Year(2024)];
    toggle_key(&mut open, NodeKey::Month(2024, 1));
    assert!(open.contains(&NodeKey::Month(2024, 1)));
    toggle_key(&mut open, NodeKey::Year(2024));
    assert!(!open.contains(&NodeKey::Year(2024)));
    close_key(&mut open, NodeKey::Month(2024, 1));
    assert!(open.is_empty());
}

#[test]
fn collapsing_a_snapshot_closes_its_day_and_finds_the_day_above() {
    let dates = vec![(2024, 1, 5), (2024, 1, 5)];
    let open = vec![NodeKey::Year(2024), NodeKey::Month(2024, 1), NodeKey::Day(2024, 1, 5)];
    let items = browser_items(&dates, &open);
    assert_eq!(collapse_key(&items[4], dates[0], &open), Some(NodeKey::Day(2024, 1, 5)));
    assert_eq!(collapse_key(&items[0], (0, 0, 0), &open), Some(NodeKey::Year(2024)));
    assert_eq!(find_day_above(&items, 4), Some(2));
    assert_eq!(find_day_above(&items, 1), None);
}

#[test]
fn snapshots_are_listed_oldest_first_keeping_ties_in_order() {
    let stamps: Vec<i64> = vec![3_000, -5, 1_000, 3_000, 0];
    assert_eq!(oldest_first(&stamps), vec![1, 4, 2, 0, 3]);
    assert_eq!(oldest_first(&Vec::new()), Vec::<usize>::new());
}
