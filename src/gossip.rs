//! The three-phase reconciliation between participants: a digest says how
//! recent each known participant is; the receiver answers with the diffs the
//! sender lacks and requests for what it lacks itself; requests are answered
//! with diffs, and diffs are taken in by the peer table.
use vstd::prelude::*;
use crate::address::Address;
use crate::detector::Detector;
use crate::utils::Rng;
use crate::node::{
    applied, is_diff, merged, no_entries, sequence_bounds_values, sequence_of, Diff, Digest, Node, NodeView,
    SelfNode,
};
use crate::node::PeerNode;
use crate::peers::{active_peers, has_peer, peer_index, peer_with, peers_of, Peers};

verus! {

/// A batch of updates for one participant: its digest, the updates, and its
/// address when the receiver may not know it yet.
pub type NodeDiff = (Digest, Vec<Diff>, Option<Address>);

/// What one batch to send is made of: whose state, from which sequence on,
/// and whether the address goes with it.
pub type Planned = (NodeView, u64, bool);

/// `d` is the batch that `p` describes.
pub open spec fn realizes(d: NodeDiff, p: Planned) -> bool {
    &&& d.0.0@ == p.0.identifier
    &&& d.0.1 == p.0.sequence
    &&& is_diff(d.1@, p.0.values, p.1)
    &&& d.2 == (if p.2 {
        Some(p.0.address)
    } else {
        None::<Address>
    })
}

/// Each batch of `ds` is the one the same position of `ps` describes.
pub open spec fn realizes_all(ds: Seq<NodeDiff>, ps: Seq<Planned>) -> bool {
    &&& ds.len() == ps.len()
    &&& forall|i: int| 0 <= i < ds.len() ==> realizes(#[trigger] ds[i], ps[i])
}

/// Digests as identifier and sequence.
pub open spec fn digest_views(ds: Seq<Digest>) -> Seq<(Seq<char>, u64)> {
    ds.map_values(|d: Digest| (d.0@, d.1))
}

/// The batch that answers one request for what follows `req.1`: from the
/// local node if the request names it, else from the peer so identified; in
/// either case only when that node holds more. A batch from sequence 0
/// carries the address; an unknown identifier gets nothing.
pub open spec fn answer<D>(s: NodeView, t: Seq<PeerNode<D>>, req: Digest) -> Seq<Planned> {
    let id = req.0@;
    let from = req.1;
    if id == s.identifier {
        if s.sequence > from {
            seq![(s, from, from == 0)]
        } else {
            Seq::empty()
        }
    } else if has_peer(t, id) && peer_with(t, id)@.sequence > from {
        seq![(peer_with(t, id)@, from, from == 0)]
    } else {
        Seq::empty()
    }
}

/// The batches that answer `reqs`, in order.
pub open spec fn answers<D>(s: NodeView, t: Seq<PeerNode<D>>, reqs: Seq<Digest>) -> Seq<
    Planned,
>
    decreases reqs.len(),
{
    if reqs.len() == 0 {
        Seq::empty()
    } else {
        answers(s, t, reqs.drop_last()) + answer(s, t, reqs.last())
    }
}

/// Some digest of `incoming` names `id`.
pub open spec fn mentions(incoming: Seq<Digest>, id: Seq<char>) -> bool {
    exists|i: int| 0 <= i < incoming.len() && #[trigger] incoming[i].0@ == id
}

/// The request one incoming digest calls for: none for the local node; for a
/// known peer, the peer's own sequence when the sender is ahead; for an
/// unknown identifier, everything (from sequence 0).
pub open spec fn request_for<D>(s: NodeView, t: Seq<PeerNode<D>>, d: Digest) -> Seq<(Seq<char>, u64)> {
    let id = d.0@;
    if id == s.identifier {
        Seq::empty()
    } else if has_peer(t, id) {
        if peer_with(t, id)@.sequence < d.1 {
            seq![(id, peer_with(t, id)@.sequence)]
        } else {
            Seq::empty()
        }
    } else {
        seq![(id, 0)]
    }
}

/// The requests `incoming` calls for, in order.
pub open spec fn requests_for<D>(s: NodeView, t: Seq<PeerNode<D>>, incoming: Seq<Digest>) -> Seq<
    (Seq<char>, u64),
>
    decreases incoming.len(),
{
    if incoming.len() == 0 {
        Seq::empty()
    } else {
        requests_for(s, t, incoming.drop_last()) + request_for(s, t, incoming.last())
    }
}

/// The batch one incoming digest calls for: what the local node or the known
/// peer so identified holds after the sender's sequence, when the sender is
/// behind. A sender ahead of the local node is ignored.
pub open spec fn update_for<D>(s: NodeView, t: Seq<PeerNode<D>>, d: Digest) -> Seq<Planned> {
    let id = d.0@;
    if id == s.identifier {
        if d.1 < s.sequence {
            seq![(s, d.1, false)]
        } else {
            Seq::empty()
        }
    } else if has_peer(t, id) && peer_with(t, id)@.sequence > d.1 {
        seq![(peer_with(t, id)@, d.1, false)]
    } else {
        Seq::empty()
    }
}

/// The batches `incoming` calls for, in order.
pub open spec fn updates_for<D>(s: NodeView, t: Seq<PeerNode<D>>, incoming: Seq<Digest>) -> Seq<
    Planned,
>
    decreases incoming.len(),
{
    if incoming.len() == 0 {
        Seq::empty()
    } else {
        updates_for(s, t, incoming.drop_last()) + update_for(s, t, incoming.last())
    }
}

/// Everything held by each peer of `actives` that `incoming` does not
/// mention, with its address, in order.
pub open spec fn introductions<D>(actives: Seq<PeerNode<D>>, incoming: Seq<Digest>) -> Seq<Planned>
    decreases actives.len(),
{
    if actives.len() == 0 {
        Seq::empty()
    } else {
        let before = introductions(actives.drop_last(), incoming);
        let p = actives.last();
        if mentions(incoming, p@.identifier) {
            before
        } else {
            before.push((p@, 0, true))
        }
    }
}

/// The batches that answer a digest: those it calls for, then everything the
/// local node holds (with its address) if the digest does not mention it,
/// then everything held by each active peer it does not mention.
pub open spec fn digest_answer<D: Detector>(s: NodeView, t: Seq<PeerNode<D>>, incoming: Seq<Digest>) -> Seq<Planned> {
    let own = if mentions(incoming, s.identifier) {
        Seq::empty()
    } else {
        seq![(s, 0u64, true)]
    };
    updates_for(s, t, incoming) + own + introductions(active_peers(t), incoming)
}

/// Whether some digest of `incoming` names `identifier`.
fn mentioned(incoming: &Vec<Digest>, identifier: &String) -> (r: bool)
    ensures
        r == mentions(incoming@, identifier@),
{
    let mut i: usize = 0;
    while i < incoming.len()
        invariant
            i <= incoming@.len(),
            forall|j: int| 0 <= j < i ==> (#[trigger] incoming@[j]).0@ != identifier@,
        decreases incoming@.len() - i,
    {
        if String::eq(&incoming[i].0, identifier) {
            return true;
        }
        i = i + 1;
    }
    false
}

/// What the peer table holds of each peer: its state and whether it is
/// active.
pub open spec fn peer_states<D: Detector>(t: Seq<PeerNode<D>>) -> Seq<(NodeView, bool)> {
    t.map_values(|n: PeerNode<D>| (n@, n.is_active()))
}

/// A peer never seen before, at `address`.
pub open spec fn unseen(identifier: Seq<char>, address: Address) -> NodeView {
    NodeView { identifier, address, sequence: 0, values: no_entries() }
}

/// The peer table after one incoming batch. A batch for the local node is
/// ignored; one for a known peer is applied to it (see [`applied`]), which
/// makes it active unless the batch is stale; one for an unknown peer that
/// comes with an address adds the peer with the batch applied (so active
/// unless the batch is stamped 0); one
/// for an unknown peer without an address is dropped.
pub open spec fn take_in(own: Seq<char>, table: Seq<(NodeView, bool)>, d: NodeDiff) -> Seq<(NodeView, bool)> {
    let id = d.0.0@;
    let sequence = d.0.1;
    if id == own {
        table
    } else if exists|i: int| 0 <= i < table.len() && #[trigger] table[i].0.identifier == id {
        let i = choose|i: int| 0 <= i < table.len() && #[trigger] table[i].0.identifier == id;
        table.update(
            i,
            (applied(table[i].0, sequence, d.1@), table[i].1 || sequence > table[i].0.sequence),
        )
    } else if d.2 is Some {
        table.push((applied(unseen(id, d.2->0), sequence, d.1@), sequence > 0))
    } else {
        table
    }
}

/// The peer table after the incoming batches, taken in order.
pub open spec fn taken_in(own: Seq<char>, table: Seq<(NodeView, bool)>, diffs: Seq<NodeDiff>) -> Seq<
    (NodeView, bool),
>
    decreases diffs.len(),
{
    if diffs.len() == 0 {
        table
    } else {
        take_in(own, taken_in(own, table, diffs.drop_last()), diffs.last())
    }
}

/// A request for everything (from sequence 0) that names the local node is
/// answered with one batch: everything the node holds, with its address, as
/// long as it has written anything.
pub proof fn lemma_full_request<D>(s: NodeView, t: Seq<PeerNode<D>>, req: Digest)
    requires
        req.0@ == s.identifier,
        req.1 == 0,
        s.sequence > 0,
    ensures
        answers(s, t, seq![req]) == seq![(s, 0u64, true)],
{
    let one = seq![req];
    assert(one.drop_last() =~= Seq::<Digest>::empty());
    assert(one.last() == req);
    assert(answers(s, t, one.drop_last()) == Seq::<Planned>::empty());
    assert(answer(s, t, req) == seq![(s, 0u64, true)]);
    assert(answers(s, t, one) == answers(s, t, one.drop_last()) + answer(s, t, req));
    assert(Seq::<Planned>::empty() + seq![(s, 0u64, true)] =~= seq![(s, 0u64, true)]);
}


/// Entries with distinct keys, each under a sequence above 0, merged into a
/// peer that holds nothing, give exactly the entries listed.
proof fn lemma_merge_into_nothing(u: Seq<Diff>)
    requires
        forall|i: int, j: int| 0 <= i < j < u.len() ==> u[i].0@ != u[j].0@,
        forall|i: int| 0 <= i < u.len() ==> (#[trigger] u[i]).1.1 > 0,
    ensures
        forall|k: Seq<char>|
            #[trigger] merged(no_entries(), u).contains_key(k) <==> exists|i: int|
                0 <= i < u.len() && u[i].0@ == k,
        forall|i: int|
            0 <= i < u.len() ==> merged(no_entries(), u)[(#[trigger] u[i]).0@] == (u[i].1.0@, u[i].1.1),
    decreases u.len(),
{
    if u.len() > 0 {
        let rest = u.drop_last();
        assert forall|i: int, j: int| 0 <= i < j < rest.len() implies rest[i].0@ != rest[j].0@ by {
            assert(rest[i] == u[i] && rest[j] == u[j]);
        }
        assert forall|i: int| 0 <= i < rest.len() implies (#[trigger] rest[i]).1.1 > 0 by {
            assert(rest[i] == u[i]);
        }
        lemma_merge_into_nothing(rest);
        let before = merged(no_entries(), rest);
        let last = u.last();
        let n = u.len() - 1;
        assert(u[n] == last);
        if before.contains_key(last.0@) {
            let i = choose|i: int| 0 <= i < rest.len() && rest[i].0@ == last.0@;
            assert(rest[i] == u[i]);
        }
        assert(sequence_of(before, last.0@) == 0);
        assert forall|k: Seq<char>|
            #[trigger] merged(no_entries(), u).contains_key(k) implies exists|i: int|
                0 <= i < u.len() && u[i].0@ == k by {
            if k != last.0@ {
                let i = choose|i: int| 0 <= i < rest.len() && rest[i].0@ == k;
                assert(rest[i] == u[i]);
            }
        }
        assert forall|k: Seq<char>|
            (exists|i: int| 0 <= i < u.len() && u[i].0@ == k) implies #[trigger] merged(
            no_entries(),
            u,
        ).contains_key(k) by {
            let i = choose|i: int| 0 <= i < u.len() && u[i].0@ == k;
            if i < n {
                assert(rest[i] == u[i]);
            }
        }
        assert forall|i: int| 0 <= i < u.len() implies merged(no_entries(), u)[(#[trigger] u[i]).0@] == (
        u[i].1.0@, u[i].1.1) by {
            if i < n {
                assert(rest[i] == u[i]);
            }
        }
    }
}

/// Round trip: the batch that answers a request from sequence 0 (everything
/// a node holds, with its address), taken in by a participant that is not
/// that node and does not know it, adds it as a peer holding exactly that
/// node's state, active when the node has written anything.
pub proof fn lemma_round_trip(own: Seq<char>, table: Seq<(NodeView, bool)>, d: NodeDiff, s: NodeView)
    requires
        realizes(d, (s, 0, true)),
        sequence_bounds_values(s),
        own != s.identifier,
        forall|i: int| 0 <= i < table.len() ==> (#[trigger] table[i]).0.identifier != s.identifier,
    ensures
        take_in(own, table, d) == table.push((s, s.sequence > 0)),
{
    let u = d.1@;
    assert forall|i: int, j: int| 0 <= i < j < u.len() implies u[i].0@ != u[j].0@ by {}
    assert forall|i: int| 0 <= i < u.len() implies (#[trigger] u[i]).1.1 > 0 by {
        assert(u[i].1.1 > 0);
    }
    lemma_merge_into_nothing(u);
    let after = applied(unseen(s.identifier, s.address), s.sequence, u);
    if s.sequence == 0 {
        assert(s.values =~= no_entries());
        assert(after == s);
    } else {
        assert(merged(no_entries(), u) =~= s.values) by {
            assert forall|k: Seq<char>| #[trigger] s.values.contains_key(k) implies merged(
                no_entries(),
                u,
            ).contains_key(k) by {
                let i = choose|i: int| 0 <= i < u.len() && u[i].0@ == k;
            }
            assert forall|k: Seq<char>| #[trigger] merged(no_entries(), u).contains_key(k) implies s.values.contains_key(
                k,
            ) && merged(no_entries(), u)[k] == s.values[k] by {
                let i = choose|i: int| 0 <= i < u.len() && u[i].0@ == k;
                assert(merged(no_entries(), u)[u[i].0@] == (u[i].1.0@, u[i].1.1));
            }
        }
        assert(after == s);
    }
}

/// The batch of `n`'s entries after `from`, with its address if asked.
fn diff_of<N: Node>(n: &N, from: u64, with_address: bool) -> (r: NodeDiff)
    ensures
        realizes(r, (n.state(), from, with_address)),
{
    let address = if with_address {
        Some(*n.address())
    } else {
        None
    };
    (n.digest(), n.diff(from), address)
}

proof fn lemma_realizes_push(ds: Seq<NodeDiff>, ps: Seq<Planned>, d: NodeDiff, p: Planned)
    requires
        realizes_all(ds, ps),
        realizes(d, p),
    ensures
        realizes_all(ds.push(d), ps.push(p)),
{
    assert forall|i: int| 0 <= i < ds.len() + 1 implies realizes(#[trigger] ds.push(d)[i], ps.push(p)[i]) by {
        if i < ds.len() {
            assert(ds.push(d)[i] == ds[i]);
            assert(ps.push(p)[i] == ps[i]);
        }
    }
}

/// One participant's side of the exchange: the local node and its peers.
pub struct Gossip<D> {
    pub node: SelfNode,
    pub peers: Peers<D>,
}

impl<D: Detector> Gossip<D> {
    pub fn new(node: SelfNode, peers: Peers<D>) -> (r: Gossip<D>)
        ensures
            r.node == node,
            r.peers == peers,
    {
        Gossip { node, peers }
    }

    /// Answers requests: for each `(identifier, sequence)`, the node so
    /// identified (the local node, else a peer) sends what it holds after
    /// `sequence`, if anything; answers from sequence 0 carry the address.
    /// Unknown identifiers get no answer.
    pub fn process_requests(&self, requests: Vec<Digest>) -> (r: Vec<NodeDiff>)
        requires
            self.peers.wf(),
        ensures
            realizes_all(r@, answers(self.node@, self.peers.table(), requests@)),
    {
        let own = self.node.digest();
        let ghost s = self.node@;
        let ghost t = self.peers.table();
        let mut diffs: Vec<NodeDiff> = Vec::new();
        let mut i: usize = 0;
        while i < requests.len()
            invariant
                i <= requests@.len(),
                own.0@ == s.identifier,
                own.1 == s.sequence,
                s == self.node@,
                t == self.peers.table(),
                self.peers.wf(),
                realizes_all(diffs@, answers(s, t, requests@.subrange(0, i as int))),
            decreases requests@.len() - i,
        {
            let (identifier, sequence) = &requests[i];
            let ghost before = diffs@;
            let ghost planned = answers(s, t, requests@.subrange(0, i as int));
            proof {
                assert(requests@.subrange(0, i + 1).drop_last() =~= requests@.subrange(0, i as int));
            }
            if String::eq(identifier, &own.0) {
                if own.1 > *sequence {
                    let d = diff_of(&self.node, *sequence, *sequence == 0);
                    proof {
                        lemma_realizes_push(diffs@, planned, d, (s, *sequence, *sequence == 0));
                        assert(planned.push((s, *sequence, *sequence == 0)) =~= planned + answer(
                            s,
                            t,
                            requests@[i as int],
                        ));
                    }
                    diffs.push(d);
                } else {
                    assert(planned =~= planned + answer(s, t, requests@[i as int]));
                }
            } else {
                match self.peers.get(identifier.as_str()) {
                    Some(n) => {
                        if n.sequence() > *sequence {
                            let d = diff_of(n, *sequence, *sequence == 0);
                            proof {
                                lemma_realizes_push(diffs@, planned, d, (n@, *sequence, *sequence == 0));
                                assert(planned.push((n@, *sequence, *sequence == 0)) =~= planned
                                    + answer(s, t, requests@[i as int]));
                            }
                            diffs.push(d);
                        } else {
                            assert(planned =~= planned + answer(s, t, requests@[i as int]));
                        }
                    },
                    None => {
                        assert(planned =~= planned + answer(s, t, requests@[i as int]));
                    },
                }
            }
            i = i + 1;
        }
        proof {
            assert(requests@.subrange(0, requests@.len() as int) =~= requests@);
        }
        diffs
    }

    /// Answers a digest with the requests and the batches it calls for (see
    /// [`requests_for`] and [`digest_answer`]).
    pub fn process_digest(&self, digest: Vec<Digest>) -> (r: (Vec<Digest>, Vec<NodeDiff>))
        requires
            self.peers.wf(),
        ensures
            digest_views(r.0@) == requests_for(self.node@, self.peers.table(), digest@),
            realizes_all(r.1@, digest_answer(self.node@, self.peers.table(), digest@)),
    {
        let own = self.node.digest();
        let ghost s = self.node@;
        let ghost t = self.peers.table();
        let mut requests: Vec<Digest> = Vec::new();
        let mut diffs: Vec<NodeDiff> = Vec::new();
        let mut i: usize = 0;
        while i < digest.len()
            invariant
                i <= digest@.len(),
                own.0@ == s.identifier,
                own.1 == s.sequence,
                s == self.node@,
                t == self.peers.table(),
                self.peers.wf(),
                digest_views(requests@) == requests_for(s, t, digest@.subrange(0, i as int)),
                realizes_all(diffs@, updates_for(s, t, digest@.subrange(0, i as int))),
            decreases digest@.len() - i,
        {
            let (identifier, sequence) = &digest[i];
            let ghost asked = requests@;
            let ghost planned = updates_for(s, t, digest@.subrange(0, i as int));
            proof {
                assert(digest@.subrange(0, i + 1).drop_last() =~= digest@.subrange(0, i as int));
                assert(digest@.subrange(0, i + 1).last() == digest@[i as int]);
            }
            if String::eq(identifier, &own.0) {
                if *sequence < own.1 {
                    let d = diff_of(&self.node, *sequence, false);
                    proof {
                        lemma_realizes_push(diffs@, planned, d, (s, *sequence, false));
                        assert(planned.push((s, *sequence, false)) =~= planned + update_for(
                            s,
                            t,
                            digest@[i as int],
                        ));
                    }
                    diffs.push(d);
                } else {
                    assert(planned =~= planned + update_for(s, t, digest@[i as int]));
                }
                assert(digest_views(requests@) =~= requests_for(s, t, digest@.subrange(0, i + 1)));
            } else {
                match self.peers.get(identifier.as_str()) {
                    Some(n) => {
                        let known = n.sequence();
                        if known < *sequence {
                            requests.push((identifier.clone(), known));
                            assert(planned =~= planned + update_for(s, t, digest@[i as int]));
                        } else if known > *sequence {
                            let d = diff_of(n, *sequence, false);
                            proof {
                                lemma_realizes_push(diffs@, planned, d, (n@, *sequence, false));
                                assert(planned.push((n@, *sequence, false)) =~= planned + update_for(
                                    s,
                                    t,
                                    digest@[i as int],
                                ));
                            }
                            diffs.push(d);
                        } else {
                            assert(planned =~= planned + update_for(s, t, digest@[i as int]));
                        }
                    },
                    None => {
                        requests.push((identifier.clone(), 0));
                        assert(planned =~= planned + update_for(s, t, digest@[i as int]));
                    },
                }
                assert(digest_views(requests@) =~= requests_for(s, t, digest@.subrange(0, i + 1)));
            }
            i = i + 1;
        }
        proof {
            assert(digest@.subrange(0, digest@.len() as int) =~= digest@);
        }
        let ghost answered = diffs@;
        let ghost updates = updates_for(s, t, digest@);
        let own_identifier = own.0;
        if !mentioned(&digest, &own_identifier) {
            let d = diff_of(&self.node, 0, true);
            proof {
                lemma_realizes_push(diffs@, updates, d, (s, 0u64, true));
            }
            diffs.push(d);
        }
        let ghost head = if mentions(digest@, s.identifier) {
            updates
        } else {
            updates.push((s, 0u64, true))
        };
        let actives = self.peers.actives();
        let ghost peers = peers_of(actives@);
        let mut j: usize = 0;
        while j < actives.len()
            invariant
                j <= actives@.len(),
                peers == peers_of(actives@),
                realizes_all(diffs@, head + introductions(peers.subrange(0, j as int), digest@)),
            decreases actives@.len() - j,
        {
            let n = actives[j];
            let ghost so_far = head + introductions(peers.subrange(0, j as int), digest@);
            proof {
                assert(peers.subrange(0, j + 1).drop_last() =~= peers.subrange(0, j as int));
                assert(peers.subrange(0, j + 1).last() == *n);
            }
            let identifier = n.identifier().to_owned();
            if !mentioned(&digest, &identifier) {
                let d = diff_of(n, 0, true);
                proof {
                    lemma_realizes_push(diffs@, so_far, d, (n@, 0u64, true));
                    assert(so_far.push((n@, 0u64, true)) =~= head + introductions(
                        peers.subrange(0, j + 1),
                        digest@,
                    ));
                }
                diffs.push(d);
            } else {
                assert(so_far =~= head + introductions(peers.subrange(0, j + 1), digest@));
            }
            j = j + 1;
        }
        proof {
            assert(peers.subrange(0, peers.len() as int) =~= peers);
            let own_part = if mentions(digest@, s.identifier) {
                Seq::<Planned>::empty()
            } else {
                seq![(s, 0u64, true)]
            };
            assert(head =~= updates + own_part);
            assert(head + introductions(peers, digest@) =~= digest_answer(s, t, digest@));
        }
        (requests, diffs)
    }

    /// Takes in incoming batches, in order (see [`take_in`]).
    pub fn process_diffs(&mut self, diffs: Vec<NodeDiff>)
        requires
            old(self).peers.wf(),
        ensures
            final(self).peers.wf(),
            final(self).node == old(self).node,
            final(self).peers.cursor() == old(self).peers.cursor(),
            final(self).peers.seeds() == old(self).peers.seeds(),
            peer_states(final(self).peers.table()) == taken_in(
                old(self).node@.identifier,
                peer_states(old(self).peers.table()),
                diffs@,
            ),
    {
        let own = self.node.digest();
        let ghost id0 = self.node@.identifier;
        let ghost all = diffs@;
        for d in it: diffs
            invariant
                it.seq() == all,
                own.0@ == id0,
                self.node == old(self).node,
                id0 == self.node@.identifier,
                self.peers.wf(),
                self.peers.cursor() == old(self).peers.cursor(),
                self.peers.seeds() == old(self).peers.seeds(),
                peer_states(self.peers.table()) == taken_in(
                    id0,
                    peer_states(old(self).peers.table()),
                    all.subrange(0, it.index()),
                ),
        {
            let ghost k = it.index();
            let ghost before = self.peers.table();
            let ghost d0 = d;
            proof {
                assert(all.subrange(0, k + 1).drop_last() =~= all.subrange(0, k));
                assert(all.subrange(0, k + 1).last() == d0);
                self.peers.lemma_distinct_identifiers();
            }
            let ((identifier, sequence), updates, address) = d;
            if String::eq(&identifier, &own.0) {
            } else {
                let ghost id = identifier@;
                proof {
                    if has_peer(before, id) {
                        let i = peer_index(before, id);
                        assert(peer_states(before)[i].0.identifier == id);
                    }
                    if exists|i: int|
                        0 <= i < peer_states(before).len() && #[trigger] peer_states(before)[i].0.identifier
                            == id {
                        let i = choose|i: int|
                            0 <= i < peer_states(before).len() && #[trigger] peer_states(
                                before,
                            )[i].0.identifier == id;
                        assert(before[i]@.identifier == id);
                    }
                }
                match self.peers.get_mut(identifier.as_str()) {
                    Some(n) => {
                        let ghost i = peer_index(before, id);
                        n.apply(sequence, updates);
                        proof {
                            let j = choose|j: int|
                                0 <= j < peer_states(before).len() && #[trigger] peer_states(
                                    before,
                                )[j].0.identifier == id;
                            assert(peer_states(before)[j].0.identifier == before[j]@.identifier);
                            assert(j == i);
                            assert(peer_states(self.peers.table()) =~= peer_states(before).update(
                                i,
                                (
                                    applied(before[i]@, sequence, updates@),
                                    before[i].is_active() || sequence > before[i]@.sequence,
                                ),
                            ));
                        }
                    },
                    None => {
                        match address {
                            Some(a) => {
                                let mut peer: PeerNode<D> = PeerNode::new(identifier, a);
                                peer.apply(sequence, updates);
                                let replaced = self.peers.add(peer);
                                proof {
                                    assert(replaced is None);
                                    assert(peer_states(self.peers.table()) =~= peer_states(before).push(
                                        (applied(unseen(id, a), sequence, updates@), sequence > 0),
                                    ));
                                }
                            },
                            None => {},
                        }
                    },
                }
            }
        }
        proof {
            assert(all.subrange(0, all.len() as int) =~= all);
        }
    }

    /// How recent everything known is: the local node's digest, then each
    /// peer's in table order.
    pub fn digest(&self) -> (r: Vec<Digest>)
        ensures
            digest_views(r@) == seq![(self.node@.identifier, self.node@.sequence)] + self.peers.table().map_values(
                |n: PeerNode<D>| (n@.identifier, n@.sequence),
            ),
    {
        let mut out: Vec<Digest> = Vec::new();
        out.push(self.node.digest());
        let mut peers = self.peers.digest();
        out.append(&mut peers);
        proof {
            assert(digest_views(out@) =~= seq![(self.node@.identifier, self.node@.sequence)]
                + self.peers.table().map_values(|n: PeerNode<D>| (n@.identifier, n@.sequence)));
        }
        out
    }

    /// One round of gossip: the addresses to send to (see
    /// [`Peers::targets`]) and the digest to send them.
    pub fn tick(&mut self, rng: &mut Rng) -> (r: (Vec<Address>, Vec<Digest>))
        requires
            old(self).peers.wf(),
        ensures
            final(self).peers.wf(),
            final(self).node == old(self).node,
            final(self).peers.table() == old(self).peers.table(),
            digest_views(r.1@) == seq![(old(self).node@.identifier, old(self).node@.sequence)]
                + old(self).peers.table().map_values(|n: PeerNode<D>| (n@.identifier, n@.sequence)),
            old(self).peers.table().len() == 0 ==> r.0@ == old(self).peers.seeds(),
            r.0@.len() <= crate::peers::FANOUT || old(self).peers.table().len() == 0,
    {
        let digest = self.digest();
        let targets = self.peers.targets(rng);
        (targets, digest)
    }
}

} // verus!
