//! The peer table: every remote participant known, in the order first seen,
//! with a round-robin cursor and the seed addresses to fall back on.
use vstd::prelude::*;
use crate::address::Address;
use crate::detector::Detector;
use crate::node::{Digest, Node, PeerNode, RETENTION_NANOS};
use crate::utils::Rng;
use crate::utils::rand::{choose_item, shuffle};

verus! {

#[verifier::external_type_specification]
#[verifier::external_body]
#[verifier::reject_recursive_types(T)]
#[verifier::reject_recursive_types(S)]
pub struct ExIndexSet<T, S>(indexmap::IndexSet<T, S>);

/// The identifiers an index set holds, in insertion order.
pub uninterp spec fn members(s: indexmap::IndexSet<String>) -> Seq<Seq<char>>;

/// No identifiers.
pub open spec fn no_members() -> Seq<Seq<char>> {
    Seq::empty()
}

/// Relies on `IndexSet::new`: a set with no members.
#[verifier::external_body]
fn empty_index() -> (r: indexmap::IndexSet<String>)
    ensures
        members(r) == no_members(),
{
    indexmap::IndexSet::new()
}

/// Relies on `IndexSet::get_index_of`: the position of `id`, if it is a member.
#[verifier::external_body]
fn position_of(s: &indexmap::IndexSet<String>, id: &str) -> (r: Option<usize>)
    ensures
        match r {
            Some(i) => i < members(*s).len() && members(*s)[i as int] == id@,
            None => !members(*s).contains(id@),
        },
{
    s.get_index_of(id)
}

/// Relies on `IndexSet::insert_full`: a new member goes last and the result
/// is its position and `true`; a member already there keeps its position,
/// which is returned with `false`, and the set is unchanged.
#[verifier::external_body]
fn insert_member(s: &mut indexmap::IndexSet<String>, id: String) -> (r: (usize, bool))
    ensures
        r.1 == !members(*old(s)).contains(id@),
        r.1 ==> members(*final(s)) == members(*old(s)).push(id@) && r.0 == members(*old(s)).len(),
        !r.1 ==> members(*final(s)) == members(*old(s)) && r.0 < members(*old(s)).len()
            && members(*old(s))[r.0 as int] == id@,
{
    s.insert_full(id)
}

/// The addresses a sample holds.
pub uninterp spec fn sampled(s: fxhash::FxHashSet<Address>) -> Set<Address>;

/// No addresses.
pub open spec fn no_addresses() -> Set<Address> {
    Set::empty()
}

/// Relies on `FxHashSet::default`: a set with no addresses.
#[verifier::external_body]
fn empty_sample() -> (r: fxhash::FxHashSet<Address>)
    ensures
        sampled(r) == no_addresses(),
{
    fxhash::FxHashSet::default()
}

/// Relies on `HashSet::insert`: `address` is in the set afterwards, and
/// nothing else changes.
#[verifier::external_body]
fn sample_insert(s: &mut fxhash::FxHashSet<Address>, address: Address)
    ensures
        sampled(*final(s)) == sampled(*old(s)).insert(address),
{
    s.insert(address);
}

/// Relies on `HashSet::len`: the number of addresses in the set.
#[verifier::external_body]
fn sample_len(s: &fxhash::FxHashSet<Address>) -> (r: usize)
    ensures
        sampled(*s).finite() ==> r == sampled(*s).len(),
{
    s.len()
}

/// Relies on `HashSet::into_iter`: every address once, in an order the set
/// picks.
#[verifier::external_body]
fn sample_into_vec(s: fxhash::FxHashSet<Address>) -> (r: Vec<Address>)
    ensures
        r@.to_set() == sampled(s),
        r@.no_duplicates(),
{
    s.into_iter().collect()
}

/// How many addresses one round of gossip is sent to at most.
pub const FANOUT: usize = 4;

/// A draw of 53 random bits falls below this bound with probability 0.2,
/// the chance that a seed address joins the targets.
pub const ROOT_ODDS: u64 = 1_801_439_850_948_199;

/// A draw of 53 random bits falls below this bound with probability 0.1,
/// the chance that an inactive peer joins the targets.
pub const INACTIVE_ODDS: u64 = 900_719_925_474_100;

/// Draws 53 random bits (the precision of a draw from [0, 1)) and says
/// whether they fall below `odds`.
fn chance(rng: &mut Rng, odds: u64) -> bool {
    (rng.rand_u64() >> 11u64) < odds
}

/// The peers behind a sequence of references.
pub open spec fn peers_of<D>(refs: Seq<&PeerNode<D>>) -> Seq<PeerNode<D>> {
    refs.map_values(|n: &PeerNode<D>| *n)
}

/// The peers of `nodes` that are active, in order.
pub open spec fn active_peers<D: Detector>(nodes: Seq<PeerNode<D>>) -> Seq<PeerNode<D>> {
    nodes.filter(|n: PeerNode<D>| n.is_active())
}

/// The peers of `nodes` that are inactive, in order.
pub open spec fn inactive_peers<D: Detector>(nodes: Seq<PeerNode<D>>) -> Seq<PeerNode<D>> {
    nodes.filter(|n: PeerNode<D>| !n.is_active())
}

/// The items of `s` whose mark in `keep` is set, in order.
pub open spec fn kept<T>(s: Seq<T>, keep: Seq<bool>) -> Seq<T>
    decreases s.len(),
{
    if s.len() == 0 || keep.len() == 0 {
        Seq::empty()
    } else {
        let before = kept(s.drop_last(), keep.drop_last());
        if keep.last() {
            before.push(s.last())
        } else {
            before
        }
    }
}

/// `marked` is `nodes` after judging each peer on `failed`: every peer keeps
/// its state; an active peer whose detector failed becomes inactive, and every
/// other peer is left exactly as it was.
pub open spec fn judged<D: Detector>(nodes: Seq<PeerNode<D>>, marked: Seq<PeerNode<D>>, failed: Seq<bool>) -> bool {
    &&& marked.len() == nodes.len()
    &&& forall|j: int|
        0 <= j < nodes.len() ==> {
            &&& (#[trigger] marked[j])@ == nodes[j]@
            &&& marked[j].is_active() == (nodes[j].is_active() && !failed[j])
            &&& !(nodes[j].is_active() && failed[j]) ==> marked[j] == nodes[j]
        }
}

/// Which peers stay: the active ones, and the inactive ones not inactive for
/// longer than [`RETENTION_NANOS`].
pub open spec fn retained<D: Detector>(nodes: Seq<PeerNode<D>>, inactive_nanos: Seq<u128>) -> Seq<bool> {
    Seq::new(nodes.len(), |j: int| nodes[j].is_active() || inactive_nanos[j] <= RETENTION_NANOS)
}

/// `after` is `before` pruned on the given verdicts and inactive times: the
/// judged peers that are retained, in order.
pub open spec fn pruned<D: Detector>(
    before: Seq<PeerNode<D>>,
    after: Seq<PeerNode<D>>,
    failed: Seq<bool>,
    inactive_nanos: Seq<u128>,
) -> bool {
    exists|marked: Seq<PeerNode<D>>|
        judged(before, marked, failed) && after == kept(marked, #[trigger] retained(before, inactive_nanos))
}

/// `a` is a seed address or the address of one of `nodes`.
pub open spec fn known_address<D>(seeds: Seq<Address>, nodes: Seq<PeerNode<D>>, a: Address) -> bool {
    seeds.contains(a) || exists|i: int| 0 <= i < nodes.len() && #[trigger] nodes[i]@.address == a
}

/// The identifiers of `nodes`, in order.
pub open spec fn identifiers<D>(nodes: Seq<PeerNode<D>>) -> Seq<Seq<char>> {
    nodes.map_values(|n: PeerNode<D>| n@.identifier)
}

/// The position of the peer identified by `id`, when `has_peer(nodes, id)`.
pub open spec fn peer_index<D>(nodes: Seq<PeerNode<D>>, id: Seq<char>) -> int {
    choose|i: int| 0 <= i < nodes.len() && #[trigger] nodes[i]@.identifier == id
}

/// The peer identified by `id`, when `has_peer(nodes, id)`.
pub open spec fn peer_with<D>(nodes: Seq<PeerNode<D>>, id: Seq<char>) -> PeerNode<D> {
    nodes[peer_index(nodes, id)]
}

/// Some peer of `nodes` is identified by `id`.
pub open spec fn has_peer<D>(nodes: Seq<PeerNode<D>>, id: Seq<char>) -> bool {
    exists|i: int| 0 <= i < nodes.len() && #[trigger] nodes[i]@.identifier == id
}

/// Putting a peer with the same identifier in place of another leaves the
/// identifiers as they were.
proof fn lemma_replace_keeps_identifiers<D>(nodes: Seq<PeerNode<D>>, i: int)
    requires
        0 <= i < nodes.len(),
    ensures
        forall|x: PeerNode<D>|
            x@.identifier == nodes[i]@.identifier ==> #[trigger] identifiers(nodes.update(i, x))
                == identifiers(nodes),
{
    assert forall|x: PeerNode<D>| x@.identifier == nodes[i]@.identifier implies #[trigger] identifiers(
        nodes.update(i, x),
    ) == identifiers(nodes) by {
        assert(identifiers(nodes.update(i, x)) =~= identifiers(nodes));
    }
}

/// The cursor after one more step; it wraps around at the largest `usize`.
pub open spec fn next_cursor(c: usize) -> usize {
    if c == usize::MAX {
        0
    } else {
        (c + 1) as usize
    }
}

/// The cursor after `k` steps from `c`.
pub open spec fn cursor_after(c: usize, k: nat) -> usize
    decreases k,
{
    if k == 0 {
        c
    } else {
        next_cursor(cursor_after(c, (k - 1) as nat))
    }
}

/// Round robin: from a cursor at `c`, the `k`-th call of [`Peers::next`]
/// leaves the cursor at `c + k` and so returns the peer at position
/// `(c + k) mod len` of a table of `len` peers (the cursor wraps to 0 only
/// past the largest `usize`).
pub proof fn lemma_round_robin(c: usize, k: nat, len: nat)
    requires
        c + k <= usize::MAX,
        len > 0,
    ensures
        cursor_after(c, k) == c + k,
        (cursor_after(c, k) as int) % (len as int) == (c + k) % (len as int),
    decreases k,
{
    if k > 0 {
        lemma_round_robin(c, (k - 1) as nat, len);
    }
}

/// The peers known, by identifier, with a round-robin cursor and the seed
/// addresses used when no peer is known.
pub struct Peers<D> {
    index: indexmap::IndexSet<String>,
    nodes: Vec<PeerNode<D>>,
    offset: usize,
    roots: Vec<Address>,
}

impl<D> Peers<D> {
    /// The table is well formed: its index lists exactly the identifiers of
    /// its peers, each once.
    pub closed spec fn wf(&self) -> bool {
        &&& members(self.index) == identifiers(self.nodes@)
        &&& identifiers(self.nodes@).no_duplicates()
    }

    /// No two peers of a well-formed table share an identifier.
    pub proof fn lemma_distinct_identifiers(&self)
        requires
            self.wf(),
        ensures
            identifiers(self.table()).no_duplicates(),
            forall|i: int, j: int|
                0 <= i < self.table().len() && 0 <= j < self.table().len() && i != j ==> (
                #[trigger] self.table()[i])@.identifier != (#[trigger] self.table()[j])@.identifier,
    {
        assert forall|i: int, j: int|
            0 <= i < self.table().len() && 0 <= j < self.table().len() && i != j implies (
            #[trigger] self.table()[i])@.identifier != (#[trigger] self.table()[j])@.identifier by {
            assert(identifiers(self.nodes@)[i] == self.nodes@[i]@.identifier);
            assert(identifiers(self.nodes@)[j] == self.nodes@[j]@.identifier);
        }
    }

    /// The peers, in the order first seen.
    pub closed spec fn table(&self) -> Seq<PeerNode<D>> {
        self.nodes@
    }

    /// How many times the cursor has moved.
    pub closed spec fn cursor(&self) -> usize {
        self.offset
    }

    /// The seed addresses.
    pub closed spec fn seeds(&self) -> Seq<Address> {
        self.roots@
    }

}

impl<D: Detector> Peers<D> {
    pub fn new(roots: Vec<Address>) -> (r: Peers<D>)
        ensures
            r.wf(),
            r.table() == Seq::<PeerNode<D>>::empty(),
            r.cursor() == 0,
            r.seeds() == roots@,
    {
        let index = empty_index();
        let nodes: Vec<PeerNode<D>> = Vec::new();
        proof {
            assert(identifiers(nodes@) =~= no_members());
        }
        Peers { index, nodes, offset: 0, roots }
    }

    pub fn len(&self) -> (r: usize)
        ensures
            r == self.table().len(),
    {
        self.nodes.len()
    }

    /// The peer identified by `identifier`.
    pub fn get(&self, identifier: &str) -> (r: Option<&PeerNode<D>>)
        requires
            self.wf(),
        ensures
            match r {
                Some(n) => has_peer(self.table(), identifier@) && *n == peer_with(
                    self.table(),
                    identifier@,
                ),
                None => !has_peer(self.table(), identifier@),
            },
    {
        match position_of(&self.index, identifier) {
            Some(i) => {
                proof {
                    assert(identifiers(self.nodes@)[i as int] == identifier@);
                    assert(self.nodes@[i as int]@.identifier == identifier@);
                    self.lemma_distinct_identifiers();
                    let j = choose|j: int|
                        0 <= j < self.nodes@.len() && #[trigger] self.nodes@[j]@.identifier == identifier@;
                    assert(identifiers(self.nodes@)[j] == identifier@);
                }
                Some(&self.nodes[i])
            },
            None => {
                proof {
                    if has_peer(self.table(), identifier@) {
                        let i = choose|i: int|
                            0 <= i < self.nodes.len() && #[trigger] self.nodes@[i]@.identifier == identifier@;
                        assert(identifiers(self.nodes@)[i] == identifier@);
                    }
                }
                None
            },
        }
    }

    /// Adds `node`, or replaces the peer with the same identifier in its
    /// position, handing the replaced peer back.
    pub fn add(&mut self, node: PeerNode<D>) -> (r: Option<PeerNode<D>>)
        requires
            old(self).wf(),
        ensures
            final(self).wf(),
            final(self).cursor() == old(self).cursor(),
            final(self).seeds() == old(self).seeds(),
            match r {
                None => !has_peer(old(self).table(), node@.identifier) && final(self).table()
                    == old(self).table().push(node),
                Some(prev) => exists|i: int|
                    0 <= i < old(self).table().len() && old(self).table()[i] == prev
                        && prev@.identifier == node@.identifier && final(self).table()
                        == old(self).table().update(i, node),
            },
    {
        let ghost old_nodes = self.nodes@;
        let ghost old_index = members(self.index);
        let ghost id = node@.identifier;
        let identifier = node.identifier().to_owned();
        let (position, fresh) = insert_member(&mut self.index, identifier);
        if fresh {
            self.nodes.push(node);
            proof {
                let nodes = self.nodes@;
                assert(identifiers(nodes) =~= identifiers(old_nodes).push(id));
                if has_peer(old_nodes, id) {
                    let i = choose|i: int| 0 <= i < old_nodes.len() && #[trigger] old_nodes[i]@.identifier == id;
                    assert(identifiers(old_nodes)[i] == id);
                    assert(old_index[i] == id);
                    assert(old_index.contains(id));
                }
                assert(!has_peer(old_nodes, id));
                assert(old_nodes == old(self).table());
                assert(nodes == old_nodes.push(node));
                assert(identifiers(nodes).no_duplicates()) by {
                    assert forall|a: int, b: int|
                        0 <= a < nodes.len() && 0 <= b < nodes.len() && a != b implies
                        identifiers(nodes)[a] != identifiers(nodes)[b] by {
                        if b == old_nodes.len() {
                            assert(identifiers(old_nodes)[a] == identifiers(nodes)[a]);
                        } else if a == old_nodes.len() {
                            assert(identifiers(old_nodes)[b] == identifiers(nodes)[b]);
                        }
                    }
                }
            }
            None
        } else {
            let ghost incoming = node;
            let mut node = node;
            std::mem::swap(&mut self.nodes[position], &mut node);
            proof {
                let nodes = self.nodes@;
                assert(old_index[position as int] == id);
                assert(identifiers(old_nodes)[position as int] == id);
                assert(nodes == old_nodes.update(position as int, incoming));
                assert(identifiers(nodes) =~= identifiers(old_nodes));
            }
            assert(old(self).table()[position as int] == node);
            Some(node)
        }
    }

    /// The peer identified by `identifier`, to change in place.
    pub fn get_mut(&mut self, identifier: &str) -> (r: Option<&mut PeerNode<D>>)
        requires
            old(self).wf(),
        ensures
            match r {
                Some(n) => {
                    &&& has_peer(old(self).table(), identifier@)
                    &&& *n == peer_with(old(self).table(), identifier@)
                    &&& final(self).table() == old(self).table().update(
                        peer_index(old(self).table(), identifier@),
                        *final(n),
                    )
                    &&& final(self).cursor() == old(self).cursor()
                    &&& final(self).seeds() == old(self).seeds()
                    &&& final(n)@.identifier == n@.identifier ==> final(self).wf()
                },
                None => !has_peer(old(self).table(), identifier@) && *final(self) == *old(self),
            },
    {
        match position_of(&self.index, identifier) {
            Some(i) => {
                proof {
                    lemma_replace_keeps_identifiers(self.nodes@, i as int);
                    assert(identifiers(self.nodes@)[i as int] == identifier@);
                    assert(self.nodes@[i as int]@.identifier == identifier@);
                    self.lemma_distinct_identifiers();
                    let j = choose|j: int|
                        0 <= j < self.nodes@.len() && #[trigger] self.nodes@[j]@.identifier == identifier@;
                    assert(identifiers(self.nodes@)[j] == identifier@);
                }
                Some(&mut self.nodes[i])
            },
            None => {
                proof {
                    if has_peer(self.table(), identifier@) {
                        let i = choose|i: int|
                            0 <= i < self.nodes.len() && #[trigger] self.nodes@[i]@.identifier == identifier@;
                        assert(identifiers(self.nodes@)[i] == identifier@);
                    }
                }
                None
            },
        }
    }

    /// The digest of every peer, in table order.
    pub fn digest(&self) -> (r: Vec<Digest>)
        ensures
            r@.len() == self.table().len(),
            forall|i: int|
                0 <= i < r@.len() ==> (#[trigger] r@[i]).0@ == self.table()[i]@.identifier && r@[i].1
                    == self.table()[i]@.sequence,
    {
        let mut out: Vec<Digest> = Vec::new();
        let mut i: usize = 0;
        while i < self.nodes.len()
            invariant
                i <= self.nodes.len(),
                out@.len() == i,
                forall|j: int|
                    0 <= j < i ==> (#[trigger] out@[j]).0@ == self.nodes@[j]@.identifier && out@[j].1
                        == self.nodes@[j]@.sequence,
            decreases self.nodes.len() - i,
        {
            out.push(self.nodes[i].digest());
            i = i + 1;
        }
        out
    }

    /// Moves the cursor on by one and returns the peer it then points at,
    /// counting positions modulo the table's size; `None` when the table is
    /// empty.
    pub fn next(&mut self) -> (r: Option<&PeerNode<D>>)
        requires
            old(self).wf(),
        ensures
            final(self).wf(),
            final(self).table() == old(self).table(),
            final(self).seeds() == old(self).seeds(),
            final(self).cursor() == next_cursor(old(self).cursor()),
            old(self).table().len() == 0 ==> r is None,
            old(self).table().len() > 0 ==> (r matches Some(n) && *n == old(self).table()[(
            final(self).cursor() as int) % (old(self).table().len() as int)]),
    {
        self.offset = self.offset.wrapping_add(1);
        let len = self.nodes.len();
        if len == 0 {
            None
        } else {
            Some(&self.nodes[self.offset % len])
        }
    }

    /// The active peers and the inactive ones, each in table order.
    fn partition(&self) -> (r: (Vec<&PeerNode<D>>, Vec<&PeerNode<D>>))
        ensures
            peers_of(r.0@) == active_peers(self.table()),
            peers_of(r.1@) == inactive_peers(self.table()),
    {
        let mut actives: Vec<&PeerNode<D>> = Vec::new();
        let mut inactives: Vec<&PeerNode<D>> = Vec::new();
        let mut i: usize = 0;
        while i < self.nodes.len()
            invariant
                i <= self.nodes@.len(),
                peers_of(actives@) == active_peers(self.nodes@.subrange(0, i as int)),
                peers_of(inactives@) == inactive_peers(self.nodes@.subrange(0, i as int)),
            decreases self.nodes@.len() - i,
        {
            proof {
                reveal(Seq::filter);
                assert(self.nodes@.subrange(0, i + 1).drop_last() =~= self.nodes@.subrange(0, i as int));
            }
            let n = &self.nodes[i];
            let ghost (a0, i0) = (actives@, inactives@);
            if n.active() {
                actives.push(n);
                assert(peers_of(actives@) =~= peers_of(a0).push(*n));
            } else {
                inactives.push(n);
                assert(peers_of(inactives@) =~= peers_of(i0).push(*n));
            }
            i = i + 1;
        }
        proof {
            assert(self.nodes@.subrange(0, self.nodes@.len() as int) =~= self.nodes@);
        }
        (actives, inactives)
    }

    /// The active peers, in table order.
    pub fn actives(&self) -> (r: Vec<&PeerNode<D>>)
        ensures
            peers_of(r@) == active_peers(self.table()),
    {
        let (actives, _) = self.partition();
        actives
    }

    /// Drops the peers that are discardable, given for each peer in table
    /// order whether its detector reports a failure and how long it has been
    /// inactive (see [`PeerNode::discardable_after`]): an active peer stays,
    /// turning inactive if its detector failed; an inactive peer goes once it
    /// has been inactive for longer than [`RETENTION_NANOS`]. The peers that
    /// stay keep their order.
    pub fn prune_after(&mut self, failed: &Vec<bool>, inactive_nanos: &Vec<u128>)
        requires
            old(self).wf(),
            failed@.len() == old(self).table().len(),
            inactive_nanos@.len() == old(self).table().len(),
        ensures
            final(self).wf(),
            final(self).cursor() == old(self).cursor(),
            final(self).seeds() == old(self).seeds(),
            pruned(old(self).table(), final(self).table(), failed@, inactive_nanos@),
    {
        let ghost start = self.nodes@;
        let ghost keep_all = retained(start, inactive_nanos@);
        let mut old_nodes: Vec<PeerNode<D>> = Vec::new();
        std::mem::swap(&mut old_nodes, &mut self.nodes);
        self.index = empty_index();
        let ghost mut keep: Seq<bool> = Seq::empty();
        let ghost mut marked: Seq<PeerNode<D>> = Seq::empty();
        let mut position: usize = 0;
        proof {
            assert(identifiers(self.nodes@) =~= no_members());
        }
        for node in it: old_nodes
            invariant
                it.seq() == start,
                position == it.index(),
                failed@.len() == start.len(),
                inactive_nanos@.len() == start.len(),
                keep_all == retained(start, inactive_nanos@),
                self.offset == old(self).offset,
                self.roots@ == old(self).roots@,
                identifiers(start).no_duplicates(),
                keep == keep_all.subrange(0, it.index()),
                marked.len() == it.index(),
                forall|j: int|
                    0 <= j < marked.len() ==> {
                        &&& (#[trigger] marked[j])@ == start[j]@
                        &&& marked[j].is_active() == (start[j].is_active() && !failed@[j])
                        &&& !(start[j].is_active() && failed@[j]) ==> marked[j] == start[j]
                    },
                self.nodes@ == kept(marked, keep),
                members(self.index) == identifiers(self.nodes@),
                identifiers(self.nodes@).no_duplicates(),
                forall|j: int| 0 <= j < self.nodes@.len() ==> exists|i: int|
                    0 <= i < it.index() && (#[trigger] self.nodes@[j])@.identifier == start[i]@.identifier,
        {
            let mut node = node;
            let ghost i = it.index();
            assert(position < failed.len());
            let drop = node.discardable_after(failed[position], inactive_nanos[position]);
            proof {
                assert(drop == !keep_all[i]);
            }
            if !drop {
                let ghost before = self.nodes@;
                let identifier = node.identifier().to_owned();
                let ghost id = identifier@;
                proof {
                    if members(self.index).contains(id) {
                        let j = choose|j: int| 0 <= j < members(self.index).len() && members(self.index)[j] == id;
                        assert(identifiers(self.nodes@)[j] == id);
                        let w = choose|w: int|
                            0 <= w < i && (#[trigger] self.nodes@[j])@.identifier == start[w]@.identifier;
                        assert(identifiers(start)[w] == identifiers(start)[i]);
                    }
                }
                insert_member(&mut self.index, identifier);
                let ghost judged_node = node;
                self.nodes.push(node);
                proof {
                    assert(self.nodes@ == before.push(judged_node));
                    assert(identifiers(self.nodes@) =~= identifiers(before).push(id));
                    assert forall|a: int, b: int|
                        0 <= a < self.nodes@.len() && 0 <= b < self.nodes@.len() && a != b implies
                        identifiers(self.nodes@)[a] != identifiers(self.nodes@)[b] by {
                        if b == before.len() {
                            assert(identifiers(before)[a] == identifiers(self.nodes@)[a]);
                        } else if a == before.len() {
                            assert(identifiers(before)[b] == identifiers(self.nodes@)[b]);
                        }
                    }
                    assert forall|j: int| 0 <= j < self.nodes@.len() implies exists|w: int|
                        0 <= w < i + 1 && (#[trigger] self.nodes@[j])@.identifier == start[w]@.identifier by {
                        if j < before.len() {
                            assert(self.nodes@[j] == before[j]);
                        } else {
                            assert(self.nodes@[j]@.identifier == start[i]@.identifier);
                        }
                    }
                }
            }
            proof {
                let ghost k0 = keep;
                let ghost m0 = marked;
                keep = keep.push(!drop);
                marked = marked.push(node);
                assert(keep.drop_last() =~= k0);
                assert(marked.drop_last() =~= m0);
                assert(keep =~= keep_all.subrange(0, i + 1));
            }
            position = position + 1;
        }
        proof {
            assert(keep_all.subrange(0, start.len() as int) =~= keep_all);
            assert(judged(start, marked, failed@));
        }
    }

    /// Drops the peers that are discardable, each judged on its detector's
    /// verdict and the clock (see [`Peers::prune_after`], which states what
    /// happens for every verdict and reading).
    pub fn prune(&mut self)
        requires
            old(self).wf(),
        ensures
            final(self).wf(),
            final(self).cursor() == old(self).cursor(),
            final(self).seeds() == old(self).seeds(),
            exists|failed: Seq<bool>, inactive_nanos: Seq<u128>|
                failed.len() == old(self).table().len() && inactive_nanos.len() == old(
                    self,
                ).table().len() && #[trigger] pruned(
                    old(self).table(),
                    final(self).table(),
                    failed,
                    inactive_nanos,
                ),
    {
        let mut failed: Vec<bool> = Vec::new();
        let mut inactive_nanos: Vec<u128> = Vec::new();
        let mut i: usize = 0;
        while i < self.nodes.len()
            invariant
                i <= self.nodes@.len(),
                failed@.len() == i,
                inactive_nanos@.len() == i,
            decreases self.nodes@.len() - i,
        {
            let (f, a) = self.nodes[i].observe();
            failed.push(f);
            inactive_nanos.push(a);
            i = i + 1;
        }
        self.prune_after(&failed, &inactive_nanos);
    }

    /// The addresses to send the next round of gossip to. With no peer known
    /// these are the seed addresses. Otherwise the cursor moves on and the
    /// peer it reaches is taken; a seed joins with probability 0.2 and an
    /// inactive peer with probability 0.1; then the active peers, shuffled,
    /// join one by one until there are [`FANOUT`] addresses or no active peer
    /// is left. Each address comes once. With no peer known the generator is
    /// not drawn from.
    pub fn targets(&mut self, rng: &mut Rng) -> (r: Vec<Address>)
        requires
            old(self).wf(),
        ensures
            final(self).wf(),
            final(self).table() == old(self).table(),
            final(self).seeds() == old(self).seeds(),
            old(self).table().len() == 0 ==> r@ == old(self).seeds() && final(self).cursor() == old(
                self,
            ).cursor() && *final(rng) == *old(rng),
            old(self).table().len() > 0 ==> {
                &&& final(self).cursor() == next_cursor(old(self).cursor())
                &&& r@.len() <= FANOUT
                &&& r@.no_duplicates()
                &&& r@.contains(
                    old(self).table()[(final(self).cursor() as int) % (old(
                        self,
                    ).table().len() as int)]@.address,
                )
                &&& forall|a: Address|
                    #[trigger] r@.contains(a) ==> known_address(old(self).seeds(), old(self).table(), a)
                &&& r@.len() == FANOUT || forall|k: int|
                    0 <= k < active_peers(old(self).table()).len() ==> r@.contains(
                        (#[trigger] active_peers(old(self).table())[k])@.address,
                    )
            },
    {
        if self.nodes.len() == 0 {
            let roots = self.roots.clone();
            proof {
                assert(roots@ =~= self.roots@);
            }
            return roots;
        }
        let mut sample = empty_sample();
        let first = match self.next() {
            Some(n) => *n.address(),
            None => {
                return Vec::new();
            },
        };
        sample_insert(&mut sample, first);
        let ghost seeds = self.roots@;
        let ghost nodes = self.nodes@;
        proof {
            assert(sampled(sample) =~= no_addresses().insert(first));
            assert(sampled(sample).len() == 1);
        }
        if self.roots.len() > 0 && chance(rng, ROOT_ODDS) {
            let root = *choose_item(rng, &self.roots);
            sample_insert(&mut sample, root);
        }
        let (mut actives, inactives) = self.partition();
        if chance(rng, INACTIVE_ODDS) && inactives.len() > 0 {
            let peer = *choose_item(rng, &inactives);
            proof {
                let k = choose|k: int| 0 <= k < inactives@.len() && peer == inactives@[k];
                assert(peers_of(inactives@)[k] == *peer);
                assert(inactive_peers(nodes).contains(*peer));
                nodes.lemma_filter_contains_rev(|n: PeerNode<D>| !n.is_active(), *peer);
            }
            sample_insert(&mut sample, *peer.address());
        }
        proof {
            assert(sampled(sample).len() <= 3);
        }
        let ghost chosen = actives@;
        let all = actives.len();
        shuffle(rng, &mut actives, all);
        let mut size = sample_len(&sample);
        let mut i: usize = 0;
        while i < actives.len() && size < FANOUT
            invariant
                i <= actives@.len(),
                sampled(sample).finite(),
                size == sampled(sample).len(),
                size <= FANOUT,
                sampled(sample).contains(first),
                actives@.to_multiset() == chosen.to_multiset(),
                peers_of(chosen) == active_peers(nodes),
                forall|j: int| 0 <= j < i ==> sampled(sample).contains((#[trigger] actives@[j])@.address),
                forall|a: Address| #[trigger] sampled(sample).contains(a) ==> known_address(seeds, nodes, a),
            decreases actives@.len() - i,
        {
            let peer = actives[i];
            proof {
                broadcast use vstd::seq_lib::group_to_multiset_ensures;
                assert(actives@.contains(actives@[i as int]));
                assert(actives@.to_multiset().count(actives@[i as int]) > 0);
                assert(chosen.to_multiset().count(actives@[i as int]) > 0);
                assert(chosen.contains(actives@[i as int]));
                let k = choose|k: int| 0 <= k < chosen.len() && chosen[k] == peer;
                assert(peers_of(chosen)[k] == *peer);
                assert(active_peers(nodes).contains(*peer));
                nodes.lemma_filter_contains_rev(|n: PeerNode<D>| n.is_active(), *peer);
            }
            sample_insert(&mut sample, *peer.address());
            size = sample_len(&sample);
            i = i + 1;
        }
        proof {
            if size < FANOUT {
                assert(i == actives@.len());
                assert forall|k: int| 0 <= k < active_peers(nodes).len() implies sampled(sample).contains(
                    (#[trigger] active_peers(nodes)[k])@.address,
                ) by {
                    broadcast use vstd::seq_lib::group_to_multiset_ensures;
                    let p = active_peers(nodes)[k];
                    assert(peers_of(chosen)[k] == p);
                    assert(chosen.contains(chosen[k]));
                    assert(chosen.to_multiset().count(chosen[k]) > 0);
                    assert(actives@.to_multiset().count(chosen[k]) > 0);
                    assert(actives@.contains(chosen[k]));
                    let j = choose|j: int| 0 <= j < actives@.len() && actives@[j] == chosen[k];
                    assert(sampled(sample).contains(actives@[j]@.address));
                }
            }
        }
        let ghost picked = sampled(sample);
        let r = sample_into_vec(sample);
        proof {
            r@.unique_seq_to_set();
            assert(picked.len() <= FANOUT);
            assert(r@.len() <= FANOUT);
            assert(r@.len() == picked.len());
            assert forall|a: Address| #[trigger] picked.contains(a) implies r@.contains(a) by {
                assert(r@.to_set().contains(a));
            }
            assert(r@.to_set().contains(first));
            assert(r@.contains(first));
            assert(self.nodes@ == nodes);
            assert(self.roots@ == seeds);
            assert forall|a: Address| #[trigger] r@.contains(a) implies known_address(seeds, nodes, a) by {
                assert(r@.to_set().contains(a));
            }
        }
        r
    }
}

} // verus!
