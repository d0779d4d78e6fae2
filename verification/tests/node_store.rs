use fas_rs::error::Error;
use fas_rs::node::{Mode, Node, NodeEntry};

fn entry(id: &str, value: &str) -> NodeEntry {
    NodeEntry { id: id.to_string(), value: value.to_string() }
}

#[test]
fn init_resets_mode_to_balance() {
    let mut node = Node::init(&vec![], 0);
    let got = node.get_node("mode", 0, None);
    assert_eq!(got.unwrap(), "balance");
}

#[test]
fn init_overrides_stale_mode_from_scan() {
    let scan = vec![entry("mode", "fast"), entry("gov", "schedutil")];
    let mut node = Node::init(&scan, 0);
    assert_eq!(node.get_node("mode", 0, None).unwrap(), "balance");
    assert_eq!(node.get_node("gov", 0, None).unwrap(), "schedutil");
}

#[test]
fn get_within_interval_is_cached() {
    let mut node = Node::init(&vec![entry("x", "1")], 0);
    // A different value is on offer in both scans, but within the
    // refresh interval the cache answers and the scan is not consulted.
    let scan = vec![entry("x", "2")];
    assert_eq!(node.get_node("x", 500, Some(&scan)).unwrap(), "1");
    assert_eq!(node.get_node("x", 1000, Some(&scan)).unwrap(), "1");
    assert!(!node.needs_refresh(1000));
}

#[test]
fn get_after_interval_rereads() {
    let mut node = Node::init(&vec![entry("x", "1")], 0);
    let scan = vec![entry("x", "2")];
    assert!(node.needs_refresh(1500));
    assert_eq!(node.get_node("x", 1500, Some(&scan)).unwrap(), "2");
    // The refresh restarted the clock: still fresh shortly after.
    assert!(!node.needs_refresh(2400));
    assert_eq!(node.get_node("x", 2400, Some(&vec![entry("x", "3")])).unwrap(), "2");
}

#[test]
fn get_missing_node_is_node_not_found() {
    let mut node = Node::init(&vec![], 0);
    assert!(matches!(node.get_node("absent", 0, None), Err(Error::NodeNotFound)));
}

#[test]
fn create_then_get() {
    let mut node = Node::init(&vec![], 0);
    node.create_node("gov", "performance").unwrap();
    assert_eq!(node.get_node("gov", 0, None).unwrap(), "performance");
}

#[test]
fn remove_forgets_the_node() {
    let mut node = Node::init(&vec![], 0);
    node.create_node("gov", "performance").unwrap();
    node.remove_node("gov").unwrap();
    assert!(matches!(node.get_node("gov", 0, None), Err(Error::NodeNotFound)));
}

#[test]
fn remove_unknown_node_fails() {
    let mut node = Node::init(&vec![], 0);
    assert!(matches!(node.remove_node("ghost"), Err(Error::Io)));
}

#[test]
fn refresh_last_entry_wins() {
    let mut node = Node::init(&vec![], 0);
    node.refresh(&vec![entry("x", "1"), entry("x", "2")], 0);
    assert_eq!(node.get_node("x", 0, None).unwrap(), "2");
}

#[test]
fn mode_names_parse() {
    assert_eq!(Mode::from_name("powersave"), Some(Mode::Powersave));
    assert_eq!(Mode::from_name("balance"), Some(Mode::Balance));
    assert_eq!(Mode::from_name("performance"), Some(Mode::Performance));
    assert_eq!(Mode::from_name("fast"), Some(Mode::Fast));
    assert_eq!(Mode::from_name("turbo"), None);
    assert_eq!(Mode::from_name(""), None);
}

#[test]
fn refresh_evicts_removed_nodes() {
    let mut node = Node::init(&vec![entry("x", "1")], 0);
    assert_eq!(node.get_node("x", 0, None).unwrap(), "1");
    // The backing file for x was deleted externally; the stale read's
    // fresh scan no longer lists it, so the cache must not either.
    let scan = vec![entry("gov", "schedutil")];
    assert!(matches!(node.get_node("x", 1500, Some(&scan)), Err(Error::NodeNotFound)));
    assert_eq!(node.get_node("gov", 1500, None).unwrap(), "schedutil");
}
