use gossip::address::Address;
use gossip::detector::Detector;
use gossip::node::{Node, PeerNode, RETENTION_NANOS};
use gossip::peers::{Peers, FANOUT};
use gossip::utils::rng;

/// A detector that never reports a failure.
struct Steady;

impl Detector for Steady {
    fn fresh() -> Self {
        Steady
    }

    fn update(&mut self) {}

    fn failed(&self) -> bool {
        false
    }
}

fn addr_from(a: [u8; 4], port: u16) -> Address {
    Address::V4 { ip: u32::from_be_bytes(a), port }
}

fn addr() -> Address {
    addr_from([127, 1, 1, 11], 3322)
}

fn addrs() -> Vec<Address> {
    vec![addr_from([127, 1, 1, 11], 3322), addr_from([127, 1, 1, 12], 3322), addr_from([127, 1, 1, 13], 3322)]
}

fn peer(id: &str, a: Address) -> PeerNode<Steady> {
    PeerNode::new(id.to_string(), a)
}

#[test]
fn peers_test_peers_creation() {
    let peers = Peers::<Steady>::new(addrs());
    assert_eq!(peers.len(), 0);
    assert!(peers.digest().is_empty());
    assert!(peers.actives().is_empty());
}

#[test]
fn peers_test_peers_add_and_get() {
    let mut peers = Peers::new(addrs());
    let p = peer("p1", addr());
    peers.add(p);
    assert_eq!(peers.len(), 1);
    assert!(peers.get("p1").is_some());
    assert!(peers.get_mut("p1").is_some());
    assert_eq!(peers.get("p1").unwrap().identifier(), "p1");
}

#[test]
fn peers_test_peers_digest() {
    let mut peers = Peers::new(addrs());
    let peer1 = peer("p1", addr());
    peers.add(peer1);
    let peer2 = peer("p2", addr_from([127, 1, 1, 20], 3322));
    peers.add(peer2);
    assert_eq!(peers.len(), 2);
    assert_eq!(peers.digest(), [("p1".into(), 0), ("p2".into(), 0)]);
}

#[test]
fn peers_test_peers_next() {
    let mut peers = Peers::new(addrs());
    peers.add(peer("p1", addr()));
    peers.add(peer("p2", addr_from([127, 1, 1, 20], 3322)));
    assert_eq!(peers.next().unwrap().identifier(), "p2");
    assert_eq!(peers.next().unwrap().identifier(), "p1");
    assert_eq!(peers.next().unwrap().identifier(), "p2");
    assert_eq!(peers.next().unwrap().identifier(), "p1");
    assert_eq!(peers.next().unwrap().identifier(), "p2");
    peers.add(peer("p3", addr_from([127, 1, 1, 21], 3322)));
    assert_eq!(peers.next().unwrap().identifier(), "p1");
    assert_eq!(peers.next().unwrap().identifier(), "p2");
    assert_eq!(peers.next().unwrap().identifier(), "p3");
    assert_eq!(peers.next().unwrap().identifier(), "p1");
}

#[test]
fn test_test_peers_creation() {
    let peers = Peers::<Steady>::new(addrs());
    assert_eq!(peers.len(), 0);
    assert!(peers.digest().is_empty());
    assert!(peers.actives().is_empty());
}

#[test]
fn test_test_peers_add_and_get() {
    let mut peers = Peers::new(addrs());
    let p = peer("p1", addr());
    peers.add(p);
    assert_eq!(peers.len(), 1);
    assert!(peers.get("p1").is_some());
    assert!(peers.get_mut("p1").is_some());
    assert_eq!(peers.get("p1").unwrap().identifier(), "p1");
}

#[test]
fn test_test_peers_digest() {
    let mut peers = Peers::new(addrs());
    let peer1 = peer("p1", addr());
    peers.add(peer1);
    let peer2 = peer("p2", addr_from([127, 1, 1, 20], 3322));
    peers.add(peer2);
    assert_eq!(peers.len(), 2);
    assert_eq!(peers.digest(), [("p1".into(), 0), ("p2".into(), 0)]);
}

#[test]
fn test_test_peers_next() {
    let mut peers = Peers::new(addrs());
    peers.add(peer("p1", addr()));
    peers.add(peer("p2", addr_from([127, 1, 1, 20], 3322)));
    assert_eq!(peers.next().unwrap().identifier(), "p2");
    assert_eq!(peers.next().unwrap().identifier(), "p1");
    assert_eq!(peers.next().unwrap().identifier(), "p2");
    assert_eq!(peers.next().unwrap().identifier(), "p1");
    assert_eq!(peers.next().unwrap().identifier(), "p2");
    peers.add(peer("p3", addr_from([127, 1, 1, 21], 3322)));
    assert_eq!(peers.next().unwrap().identifier(), "p1");
    assert_eq!(peers.next().unwrap().identifier(), "p2");
    assert_eq!(peers.next().unwrap().identifier(), "p3");
    assert_eq!(peers.next().unwrap().identifier(), "p1");
}

#[test]
fn next_on_empty_table_is_none() {
    let mut peers = Peers::<Steady>::new(addrs());
    assert!(peers.next().is_none());
}

#[test]
fn add_replaces_in_place() {
    let mut peers = Peers::new(addrs());
    peers.add(peer("p1", addr()));
    peers.add(peer("p2", addr_from([127, 1, 1, 20], 3322)));
    let mut newer = peer("p1", addr_from([127, 1, 1, 30], 4000));
    newer.apply(3, vec![]);
    let replaced = peers.add(newer);
    assert_eq!(replaced.unwrap().sequence(), 0);
    assert_eq!(peers.len(), 2);
    assert_eq!(peers.digest(), [("p1".into(), 3), ("p2".into(), 0)]);
    assert!(*peers.get("p1").unwrap().address() == addr_from([127, 1, 1, 30], 4000));
}

#[test]
fn targets_on_empty_table_are_the_roots() {
    let mut peers = Peers::<Steady>::new(addrs());
    let mut r = rng(1);
    assert_eq!(peers.targets(&mut r), addrs());
}

#[test]
fn targets_are_few_distinct_and_known() {
    let mut peers = Peers::new(addrs());
    let mut addresses = vec![];
    for n in 0..10u8 {
        let a = addr_from([10, 0, 0, n], 3322);
        addresses.push(a);
        let mut p = peer(&format!("p{}", n), a);
        if n % 2 == 0 {
            p.apply(1, vec![]);
        }
        peers.add(p);
    }
    assert_eq!(peers.actives().len(), 5);
    let mut r = rng(42);
    for round in 0..50usize {
        let t = peers.targets(&mut r);
        assert!(!t.is_empty());
        assert!(t.len() <= FANOUT);
        for (i, a) in t.iter().enumerate() {
            assert!(addresses.contains(a) || addrs().contains(a));
            assert!(!t[i + 1..].contains(a));
        }
        // the round-robin peer is always among them
        assert!(t.contains(&addresses[(round + 1) % 10]));
        // with five active peers, the targets are always filled to the fan-out
        assert_eq!(t.len(), FANOUT);
    }
}

#[test]
fn targets_take_every_active_peer_when_few() {
    let mut peers = Peers::new(vec![]);
    let mut a = peer("a", addr());
    a.apply(1, vec![]);
    peers.add(a);
    let mut b = peer("b", addr_from([127, 1, 1, 20], 3322));
    b.apply(1, vec![]);
    peers.add(b);
    let mut r = rng(9);
    for _ in 0..20 {
        let mut t = peers.targets(&mut r);
        t.sort_by_key(|a| match a {
            Address::V4 { ip, .. } => *ip,
            Address::V6 { .. } => 0,
        });
        assert!(t == vec![addr(), addr_from([127, 1, 1, 20], 3322)]);
    }
}

#[test]
fn prune_after_goes_by_verdicts_and_inactive_time() {
    let mut peers = Peers::new(addrs());
    let mut a = peer("a", addr());
    a.apply(1, vec![]);
    peers.add(a);
    let mut b = peer("b", addr_from([127, 1, 1, 20], 3322));
    b.apply(2, vec![]);
    peers.add(b);
    peers.add(peer("c", addr_from([127, 1, 1, 21], 3322)));
    peers.add(peer("d", addr_from([127, 1, 1, 22], 3322)));
    // a: active, failed; b: active, fine; c: inactive too long; d: inactive, recent
    peers.prune_after(&vec![true, false, false, false], &vec![0, 0, RETENTION_NANOS + 1, 10]);
    assert_eq!(peers.digest(), [("a".into(), 1), ("b".into(), 2), ("d".into(), 0)]);
    assert!(!peers.get("a").unwrap().active());
    assert!(peers.get("b").unwrap().active());
    assert!(peers.get("c").is_none());
    // the index follows the table
    assert!(peers.get("d").unwrap().identifier() == "d");
}

#[test]
fn prune_keeps_active_peers() {
    let mut peers = Peers::new(addrs());
    let mut a = peer("a", addr());
    a.apply(1, vec![]);
    peers.add(a);
    peers.add(peer("b", addr_from([127, 1, 1, 20], 3322)));
    peers.prune();
    assert_eq!(peers.len(), 2);
    assert_eq!(peers.digest(), [("a".into(), 1), ("b".into(), 0)]);
    assert!(peers.get("a").unwrap().active());
}
