use std::cell::Cell;
use gossip::address::Address;
use gossip::detector::Detector;
use gossip::node::{Diff, Node, PeerNode, SelfNode, RETENTION_NANOS};
use gossip::value::Value;

/// A detector whose verdict the test sets by hand.
struct Probe {
    failing: Cell<bool>,
    updates: Cell<u32>,
}

impl Detector for Probe {
    fn fresh() -> Self {
        Probe { failing: Cell::new(false), updates: Cell::new(0) }
    }

    fn update(&mut self) {
        self.updates.set(self.updates.get() + 1);
    }

    fn failed(&self) -> bool {
        self.failing.get()
    }
}

fn addr() -> Address {
    Address::V4 { ip: u32::from_be_bytes([127, 1, 1, 11]), port: 3322 }
}

fn render(a: &Address) -> String {
    match *a {
        Address::V4 { ip, port } => {
            let [b0, b1, b2, b3] = ip.to_be_bytes();
            format!("{}.{}.{}.{}:{}", b0, b1, b2, b3, port)
        }
        Address::V6 { .. } => panic!("not a version 4 address"),
    }
}

fn has_change(diff: &Vec<Diff>, key: &str, value: Value, sequence: u64) -> bool {
    diff.iter().any(|(k, (v, s))| k == key && *v == value && *s == sequence)
}

fn integer(n: i64) -> Value {
    Value::from(n)
}

fn text(s: &str) -> Value {
    Value::from(s.to_string())
}

#[test]
fn node_test_self_node_is_node() {
    let node = SelfNode::new("root".to_string(), addr());
    assert_eq!(node.identifier(), "root");
    assert_eq!(render(node.address()), "127.1.1.11:3322");
    assert_eq!(node.sequence(), 0);

    assert_eq!(node.digest(), ("root".into(), 0));
    assert!(node.get("buckets").is_none());
    assert!(node.diff(0).is_empty());
}

#[test]
fn node_test_self_node_set() {
    let mut node = SelfNode::new("root".into(), addr());
    node.set("buckets", vec![1, 5, 6].into());
    assert_eq!(node.sequence(), 1);
    assert_eq!(node.digest(), ("root".into(), 1));

    let v = node.get("buckets");
    assert!(v.is_some());
    assert_eq!(v.unwrap().as_integers().unwrap().as_slice(), [1, 5, 6]);

    let d = node.diff(0);
    assert_eq!(d.len(), 1);
    assert_eq!(d[0].0, "buckets".to_string());
    assert_eq!(d[0].1.0.as_integers().unwrap().as_slice(), [1, 5, 6]);
    assert_eq!(d[0].1.1, 1);

    assert!(node.diff(1).is_empty());
}

#[test]
fn node_test_self_node_multiple_sets() {
    let mut node = SelfNode::new("root".into(), addr());

    node.set("key1", integer(10));
    node.set("key2", text("value"));
    node.set("key1", integer(20));

    assert_eq!(node.sequence(), 3);
    assert!(node.get("key1") == Some(&integer(20)));
    assert!(node.get("key2") == Some(&text("value")));

    let diff = node.diff(0);
    assert_eq!(diff.len(), 2);

    assert!(has_change(&diff, "key1", integer(20), 3));
    assert!(has_change(&diff, "key2", text("value"), 2));
}

#[test]
fn node_test_self_node_partial_diff() {
    let mut node = SelfNode::new("root".into(), addr());
    node.set("key1", integer(10));
    node.set("key2", text("value"));
    node.set("key3", Value::from(true));

    let diff = node.diff(1);
    assert_eq!(diff.len(), 2);
    assert!(has_change(&diff, "key2", text("value"), 2));
    assert!(has_change(&diff, "key3", Value::from(true), 3));
}

#[test]
fn node_test_self_node_is_not_discardable() {
    let mut node = SelfNode::new("root".into(), addr());
    assert_eq!(node.discardable(), false);
}

#[test]
fn node_test_peer_node_is_node() {
    let node = PeerNode::<Probe>::new("peer1".into(), addr());
    assert_eq!(node.identifier(), "peer1");
    assert_eq!(render(node.address()), "127.1.1.11:3322");
    assert_eq!(node.sequence(), 0);

    assert_eq!(node.digest(), ("peer1".into(), 0));
    assert!(node.get("buckets").is_none());
    assert!(node.diff(0).is_empty());
}

#[test]
fn node_test_peer_node_apply() {
    let mut node = PeerNode::<Probe>::new("peer1".to_string(), addr());
    node.apply(2, vec![
        ("key1".into(), (integer(10), 1)),
        ("key2".into(), (text("value"), 2)),
    ]);

    assert_eq!(node.sequence(), 2);
    assert!(node.get("key1") == Some(&integer(10)));
    assert!(node.get("key2") == Some(&text("value")));
}

#[test]
fn node_test_peer_node_apply_outdated() {
    let mut node = PeerNode::<Probe>::new("peer1".to_string(), addr());
    node.apply(5, vec![("key1".into(), (integer(10), 5))]);
    node.apply(3, vec![("key2".into(), (integer(20), 3))]);
    node.apply(6, vec![("key1".into(), (integer(99), 5))]);

    assert_eq!(node.sequence(), 6);
    assert!(node.get("key1") == Some(&integer(10)));
    assert!(node.get("key2").is_none());
}

#[test]
fn node_test_peer_node_diff() {
    let mut node = PeerNode::<Probe>::new("peer1".to_string(), addr());
    node.apply(3, vec![
        ("key1".into(), (integer(10), 1)),
        ("key2".into(), (integer(20), 2)),
        ("key3".into(), (integer(30), 3)),
    ]);

    let diff = node.diff(1);
    assert_eq!(diff.len(), 2);
    assert!(has_change(&diff, "key2", integer(20), 2));
    assert!(has_change(&diff, "key3", integer(30), 3));
}

#[test]
fn node_test_peer_node_active() {
    let mut node = PeerNode::<Probe>::new("peer1".to_string(), addr());

    // Starts as inactive
    assert_eq!(node.active(), false);

    // Becomes active when the failure detector receives an update
    node.update_detector();
    node.update_detector();
    assert_eq!(node.active(), true);

    // Becomes inactive when marked as inactive
    node.mark_inactive();
    assert_eq!(node.active(), false);
}

#[test]
fn node_test_peer_node_discardable() {
    let mut node = PeerNode::<Probe>::new("peer1".to_string(), addr());

    // With recent activity...
    node.update_detector();
    assert_eq!(node.active(), true);
    // not discardable and still active
    assert_eq!(node.discardable(), false);
    assert_eq!(node.active(), true);

    let detector = node.detector().unwrap();
    assert_eq!(detector.failed(), false);
    // Time passes: the detector reports a failure...
    detector.failing.set(true);
    assert_eq!(detector.failed(), true);
    // not discardable but now not active
    assert_eq!(node.discardable(), false);
    assert_eq!(node.active(), false);

    // A million seconds pass: the node becomes discardable
    assert_eq!(node.discardable_after(false, 1_000_000 * 1_000_000_000), true);

    // With new activity...
    node.update_detector();
    // no longer discardable and once again active
    assert_eq!(node.discardable(), false);
    assert_eq!(node.active(), true);
}

#[test]
fn test_test_self_node_is_node() {
    let node = SelfNode::new("root".to_string(), addr());
    assert_eq!(node.identifier(), "root");
    assert_eq!(render(node.address()), "127.1.1.11:3322");
    assert_eq!(node.sequence(), 0);

    assert_eq!(node.digest(), ("root".into(), 0));
    assert!(node.get("buckets").is_none());
    assert!(node.diff(0).is_empty());
}

#[test]
fn test_test_self_node_set() {
    let mut node = SelfNode::new("root".into(), addr());
    node.set("buckets", vec![1, 5, 6].into());
    assert_eq!(node.sequence(), 1);
    assert_eq!(node.digest(), ("root".into(), 1));

    let v = node.get("buckets");
    assert!(v.is_some());
    assert_eq!(v.unwrap().as_integers().unwrap().as_slice(), [1, 5, 6]);

    let d = node.diff(0);
    assert_eq!(d.len(), 1);
    assert_eq!(d[0].0, "buckets".to_string());
    assert_eq!(d[0].1.0.as_integers().unwrap().as_slice(), [1, 5, 6]);
    assert_eq!(d[0].1.1, 1);

    assert!(node.diff(1).is_empty());
}

#[test]
fn test_test_self_node_multiple_sets() {
    let mut node = SelfNode::new("root".into(), addr());

    node.set("key1", integer(10));
    node.set("key2", text("value"));
    node.set("key1", integer(20));

    assert_eq!(node.sequence(), 3);
    assert!(node.get("key1") == Some(&integer(20)));
    assert!(node.get("key2") == Some(&text("value")));

    let diff = node.diff(0);
    assert_eq!(diff.len(), 2);

    assert!(has_change(&diff, "key1", integer(20), 3));
    assert!(has_change(&diff, "key2", text("value"), 2));
}

#[test]
fn test_test_self_node_partial_diff() {
    let mut node = SelfNode::new("root".into(), addr());
    node.set("key1", integer(10));
    node.set("key2", text("value"));
    node.set("key3", Value::from(true));

    let diff = node.diff(1);
    assert_eq!(diff.len(), 2);
    assert!(has_change(&diff, "key2", text("value"), 2));
    assert!(has_change(&diff, "key3", Value::from(true), 3));
}

#[test]
fn test_test_self_node_is_not_discardable() {
    let mut node = SelfNode::new("root".into(), addr());
    assert_eq!(node.discardable(), false);
}

#[test]
fn test_test_peer_node_is_node() {
    let node = PeerNode::<Probe>::new("peer1".into(), addr());
    assert_eq!(node.identifier(), "peer1");
    assert_eq!(render(node.address()), "127.1.1.11:3322");
    assert_eq!(node.sequence(), 0);

    assert_eq!(node.digest(), ("peer1".into(), 0));
    assert!(node.get("buckets").is_none());
    assert!(node.diff(0).is_empty());
}

#[test]
fn test_test_peer_node_apply() {
    let mut node = PeerNode::<Probe>::new("peer1".to_string(), addr());
    node.apply(2, vec![
        ("key1".into(), (integer(10), 1)),
        ("key2".into(), (text("value"), 2)),
    ]);

    assert_eq!(node.sequence(), 2);
    assert!(node.get("key1") == Some(&integer(10)));
    assert!(node.get("key2") == Some(&text("value")));
}

#[test]
fn test_test_peer_node_apply_outdated() {
    let mut node = PeerNode::<Probe>::new("peer1".to_string(), addr());
    node.apply(5, vec![("key1".into(), (integer(10), 5))]);
    node.apply(3, vec![("key2".into(), (integer(20), 3))]);
    node.apply(6, vec![("key1".into(), (integer(99), 5))]);

    assert_eq!(node.sequence(), 6);
    assert!(node.get("key1") == Some(&integer(10)));
    assert!(node.get("key2").is_none());
}

#[test]
fn test_test_peer_node_diff() {
    let mut node = PeerNode::<Probe>::new("peer1".to_string(), addr());
    node.apply(3, vec![
        ("key1".into(), (integer(10), 1)),
        ("key2".into(), (integer(20), 2)),
        ("key3".into(), (integer(30), 3)),
    ]);

    let diff = node.diff(1);
    assert_eq!(diff.len(), 2);
    assert!(has_change(&diff, "key2", integer(20), 2));
    assert!(has_change(&diff, "key3", integer(30), 3));
}

#[test]
fn test_test_peer_node_active() {
    let mut node = PeerNode::<Probe>::new("peer1".to_string(), addr());

    // Starts as inactive
    assert_eq!(node.active(), false);

    // Becomes active when the failure detector receives an update
    node.update_detector();
    node.update_detector();
    assert_eq!(node.active(), true);

    // Becomes inactive when marked as inactive
    node.mark_inactive();
    assert_eq!(node.active(), false);
}

#[test]
fn test_test_peer_node_discardable() {
    let mut node = PeerNode::<Probe>::new("peer1".to_string(), addr());

    // With recent activity...
    node.update_detector();
    assert_eq!(node.active(), true);
    // not discardable and still active
    assert_eq!(node.discardable(), false);
    assert_eq!(node.active(), true);

    let detector = node.detector().unwrap();
    assert_eq!(detector.failed(), false);
    // Time passes: the detector reports a failure...
    detector.failing.set(true);
    assert_eq!(detector.failed(), true);
    // not discardable but now not active
    assert_eq!(node.discardable(), false);
    assert_eq!(node.active(), false);

    // A million seconds pass: the node becomes discardable
    assert_eq!(node.discardable_after(false, 1_000_000 * 1_000_000_000), true);

    // With new activity...
    node.update_detector();
    // no longer discardable and once again active
    assert_eq!(node.discardable(), false);
    assert_eq!(node.active(), true);
}

#[test]
fn stale_batch_changes_nothing() {
    let mut node = PeerNode::<Probe>::new("peer1".to_string(), addr());
    node.apply(4, vec![("a".into(), (integer(1), 4))]);
    assert_eq!(node.detector().unwrap().updates.get(), 0);
    node.apply(3, vec![("a".into(), (integer(2), 9)), ("b".into(), (integer(3), 9))]);
    assert_eq!(node.sequence(), 4);
    assert!(node.get("a") == Some(&integer(1)));
    assert!(node.get("b").is_none());
    assert_eq!(node.detector().unwrap().updates.get(), 0);
}

#[test]
fn batch_at_equal_sequence_is_stale() {
    let mut node = PeerNode::<Probe>::new("peer1".to_string(), addr());
    node.apply(4, vec![("a".into(), (integer(1), 4))]);
    node.apply(4, vec![("b".into(), (integer(2), 3)), ("a".into(), (integer(7), 5))]);
    assert_eq!(node.sequence(), 4);
    assert!(node.get("a") == Some(&integer(1)));
    assert!(node.get("b").is_none());
    assert_eq!(node.detector().unwrap().updates.get(), 0);
}

#[test]
fn batch_at_sequence_zero_leaves_a_new_peer_inactive() {
    let mut node = PeerNode::<Probe>::new("peer1".to_string(), addr());
    node.apply(0, vec![("a".into(), (integer(1), 1))]);
    assert!(!node.active());
    assert!(node.get("a").is_none());
}

#[test]
fn judging_an_active_peer() {
    let mut node = PeerNode::<Probe>::new("peer1".to_string(), addr());
    node.apply(1, vec![]);
    // a detector that has not failed leaves the peer as it was
    assert_eq!(node.discardable_after(false, RETENTION_NANOS * 2), false);
    assert!(node.active());
    // a failed one turns it inactive, without dropping it
    assert_eq!(node.discardable_after(true, RETENTION_NANOS * 2), false);
    assert!(!node.active());
    assert_eq!(node.sequence(), 1);
    // an inactive peer ignores the verdict and goes by its inactive time
    assert_eq!(node.discardable_after(true, 5), false);
    assert!(!node.active());
    assert_eq!(node.discardable_after(false, RETENTION_NANOS * 2), true);
}

#[test]
fn observe_reads_only_what_applies() {
    let mut node = PeerNode::<Probe>::new("peer1".to_string(), addr());
    let (failed, _) = node.observe();
    assert!(!failed);
    node.update_detector();
    node.detector().unwrap().failing.set(true);
    assert_eq!(node.observe(), (true, 0));
}

#[test]
fn later_update_in_one_batch_wins() {
    let mut node = PeerNode::<Probe>::new("peer1".to_string(), addr());
    node.apply(9, vec![("a".into(), (integer(1), 2)), ("a".into(), (integer(2), 5)), ("a".into(), (integer(3), 4))]);
    assert!(node.get("a") == Some(&integer(2)));
    assert_eq!(node.diff(4).len(), 1);
    assert_eq!(node.diff(5).len(), 0);
}

#[test]
fn sequence_follows_the_highest_accepted_batch() {
    let mut node = PeerNode::<Probe>::new("peer1".to_string(), addr());
    for (batch, expected) in [(2u64, 2u64), (5, 5), (3, 5), (7, 7), (6, 7)] {
        node.apply(batch, vec![]);
        assert_eq!(node.sequence(), expected);
    }
}

#[test]
fn inactive_peer_is_kept_for_a_day() {
    let mut node = PeerNode::<Probe>::new("peer1".to_string(), addr());
    assert_eq!(node.discardable_after(false, RETENTION_NANOS), false);
    assert_eq!(node.discardable_after(false, RETENTION_NANOS + 1), true);
    assert_eq!(node.discardable(), false);
}

#[test]
fn self_node_sequence_rises_with_each_set() {
    let mut node = SelfNode::new("root".into(), addr());
    for n in 1..=5u64 {
        node.set("k", integer(n as i64));
        assert_eq!(node.sequence(), n);
        assert_eq!(node.digest().1, n);
    }
    assert!(node.get("k") == Some(&integer(5)));
    assert_eq!(node.diff(4).len(), 1);
    assert_eq!(node.diff(5).len(), 0);
}

#[test]
fn batch_at_the_largest_sequence_is_accepted() {
    let mut node = PeerNode::<Probe>::new("peer1".to_string(), addr());
    node.apply(u64::MAX, vec![("a".into(), (integer(1), u64::MAX))]);
    assert_eq!(node.sequence(), u64::MAX);
    assert!(node.get("a") == Some(&integer(1)));
    assert_eq!(node.diff(u64::MAX - 1).len(), 1);
    assert!(node.diff(u64::MAX).is_empty());
}
