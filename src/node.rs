//! Participants: the local node, whose state is written here, and remote
//! peers, whose state arrives in versioned batches.
use vstd::prelude::*;
use crate::address::Address;
use crate::detector::Detector;
use crate::utils::Touch;
use crate::value::{Value, ValueView};

verus! {

#[verifier::external_type_specification]
#[verifier::external_body]
pub struct ExFxHasher(fxhash::FxHasher);

#[verifier::external_type_specification]
#[verifier::external_body]
#[verifier::reject_recursive_types(H)]
pub struct ExBuildHasherDefault<H>(std::hash::BuildHasherDefault<H>);

/// A value together with the sequence number under which it was written.
pub type SequencedValue = (Value, u64);

/// One versioned key/value update: `(key, (value, sequence))`.
pub type Diff = (String, (Value, u64));

/// How recent a participant's state is: `(identifier, sequence)`.
pub type Digest = (String, u64);

/// A node's versioned values, by key.
pub type Values = fxhash::FxHashMap<String, SequencedValue>;

/// What a key holds in the model: the value's content and its sequence.
pub type Entry = (ValueView, u64);

/// The entries a map of versioned values holds, by key.
pub uninterp spec fn stored(m: Values) -> Map<Seq<char>, Entry>;

/// The empty map of entries.
pub open spec fn no_entries() -> Map<Seq<char>, Entry> {
    Map::empty()
}

/// Relies on `FxHashMap::default`: a map with no entries.
#[verifier::external_body]
fn empty_values() -> (r: Values)
    ensures
        stored(r) == no_entries(),
{
    fxhash::FxHashMap::default()
}

/// Relies on `HashMap::get`: the entry stored under `key`, if any.
#[verifier::external_body]
fn lookup<'a>(m: &'a Values, key: &str) -> (r: Option<&'a SequencedValue>)
    ensures
        match r {
            Some(e) => stored(*m).contains_key(key@) && stored(*m)[key@] == (e.0@, e.1),
            None => !stored(*m).contains_key(key@),
        },
{
    m.get(key)
}

/// Relies on `HashMap::insert`: `key` now holds `entry`; other keys keep theirs.
#[verifier::external_body]
fn store(m: &mut Values, key: String, entry: SequencedValue)
    ensures
        stored(*final(m)) == stored(*old(m)).insert(key@, (entry.0@, entry.1)),
{
    m.insert(key, entry);
}

/// Relies on `HashMap::iter`: every entry once, in an order the map picks.
#[verifier::external_body]
fn entries<'a>(m: &'a Values) -> (r: Vec<(&'a String, &'a SequencedValue)>)
    ensures
        forall|i: int|
            0 <= i < r@.len() ==> stored(*m).contains_key(#[trigger] r@[i].0@) && stored(*m)[r@[i].0@]
                == (r@[i].1.0@, r@[i].1.1),
        forall|k: Seq<char>|
            #[trigger] stored(*m).contains_key(k) ==> exists|i: int| 0 <= i < r@.len() && r@[i].0@ == k,
        forall|i: int, j: int| 0 <= i < j < r@.len() ==> r@[i].0@ != r@[j].0@,
{
    m.iter().collect()
}

/// The sequence under which `key` is stored, 0 when it is absent.
pub open spec fn sequence_of(values: Map<Seq<char>, Entry>, key: Seq<char>) -> u64 {
    if values.contains_key(key) {
        values[key].1
    } else {
        0
    }
}

/// `d` lists exactly the entries of `values` whose sequence is above `from`,
/// each key once, in some order.
pub open spec fn is_diff(d: Seq<Diff>, values: Map<Seq<char>, Entry>, from: u64) -> bool {
    &&& forall|i: int|
        0 <= i < d.len() ==> {
            &&& values.contains_key(#[trigger] d[i].0@)
            &&& values[d[i].0@] == (d[i].1.0@, d[i].1.1)
            &&& d[i].1.1 > from
        }
    &&& forall|k: Seq<char>|
        #[trigger] values.contains_key(k) && values[k].1 > from ==> exists|i: int|
            0 <= i < d.len() && d[i].0@ == k
    &&& forall|i: int, j: int| 0 <= i < j < d.len() ==> d[i].0@ != d[j].0@
}

/// The model of a participant's state.
pub struct NodeView {
    pub identifier: Seq<char>,
    pub address: Address,
    pub sequence: u64,
    pub values: Map<Seq<char>, Entry>,
}

/// The state that local and remote participants share.
struct BaseNode {
    identifier: String,
    address: Address,
    sequence: u64,
    values: Values,
}

impl View for BaseNode {
    type V = NodeView;

    closed spec fn view(&self) -> NodeView {
        NodeView {
            identifier: self.identifier@,
            address: self.address,
            sequence: self.sequence,
            values: stored(self.values),
        }
    }
}

impl BaseNode {
    fn new(identifier: String, address: Address) -> (r: BaseNode)
        ensures
            r@ == (NodeView {
                identifier: identifier@,
                address,
                sequence: 0,
                values: no_entries(),
            }),
    {
        BaseNode { identifier, address, sequence: 0, values: empty_values() }
    }

    fn digest(&self) -> (r: Digest)
        ensures
            r.0@ == self@.identifier,
            r.1 == self@.sequence,
    {
        (self.identifier.clone(), self.sequence)
    }

    fn get(&self, key: &str) -> (r: Option<&Value>)
        ensures
            match r {
                Some(v) => self@.values.contains_key(key@) && v@ == self@.values[key@].0,
                None => !self@.values.contains_key(key@),
            },
    {
        match lookup(&self.values, key) {
            Some(e) => Some(&e.0),
            None => None,
        }
    }

    fn diff(&self, from: u64) -> (r: Vec<Diff>)
        ensures
            is_diff(r@, self@.values, from),
    {
        let all = entries(&self.values);
        let ghost values = self@.values;
        let mut out: Vec<Diff> = Vec::new();
        let mut i: usize = 0;
        while i < all.len()
            invariant
                i <= all.len(),
                values == stored(self.values),
                forall|n: int|
                    0 <= n < all@.len() ==> values.contains_key(#[trigger] all@[n].0@) && values[all@[n].0@]
                        == (all@[n].1.0@, all@[n].1.1),
                forall|n: int, m: int| 0 <= n < m < all@.len() ==> all@[n].0@ != all@[m].0@,
                forall|n: int|
                    0 <= n < out@.len() ==> {
                        &&& values.contains_key(#[trigger] out@[n].0@)
                        &&& values[out@[n].0@] == (out@[n].1.0@, out@[n].1.1)
                        &&& out@[n].1.1 > from
                    },
                forall|n: int|
                    0 <= n < out@.len() ==> exists|m: int| 0 <= m < i && #[trigger] out@[n].0@ == all@[m].0@,
                forall|m: int|
                    #![trigger all@[m]]
                    0 <= m < i && all@[m].1.1 > from ==> exists|n: int|
                        0 <= n < out@.len() && out@[n].0@ == all@[m].0@,
                forall|n: int, m: int| 0 <= n < m < out@.len() ==> out@[n].0@ != out@[m].0@,
            decreases all.len() - i,
        {
            let (k, e) = all[i];
            if e.1 > from {
                let ghost before = out@;
                out.push((k.clone(), (e.0.clone(), e.1)));
                assert forall|n: int, m: int| 0 <= n < m < out@.len() implies out@[n].0@ != out@[m].0@ by {
                    if m == out@.len() - 1 {
                        let w = choose|w: int| 0 <= w < i && #[trigger] before[n].0@ == all@[w].0@;
                        assert(all@[w].0@ != all@[i as int].0@);
                    }
                }
                assert forall|m: int| #![trigger all@[m]] 0 <= m <= i && all@[m].1.1 > from implies exists|n: int|
                    0 <= n < out@.len() && out@[n].0@ == all@[m].0@ by {
                    if m < i {
                        let n = choose|n: int| 0 <= n < before.len() && before[n].0@ == all@[m].0@;
                        assert(out@[n] == before[n]);
                    } else {
                        assert(out@[out@.len() - 1].0@ == all@[m].0@);
                    }
                }
            } else {
                assert forall|m: int| #![trigger all@[m]] 0 <= m <= i && all@[m].1.1 > from implies exists|n: int|
                    0 <= n < out@.len() && out@[n].0@ == all@[m].0@ by {
                    assert(m < i);
                }
            }
            i = i + 1;
        }
        proof {
            assert forall|k: Seq<char>| #[trigger] values.contains_key(k) && values[k].1 > from implies exists|n: int|
                0 <= n < out@.len() && out@[n].0@ == k by {
                let m = choose|m: int| 0 <= m < all@.len() && all@[m].0@ == k;
                assert(all@[m].1.1 > from);
            }
        }
        out
    }
}

/// Every stored value was written under a sequence between 1 and the node's
/// own.
pub open spec fn sequence_bounds_values(v: NodeView) -> bool {
    forall|k: Seq<char>| #[trigger] v.values.contains_key(k) ==> 1 <= v.values[k].1 <= v.sequence
}

/// The local participant. Its state changes only through [`SelfNode::set`],
/// each call under a fresh, higher sequence.
pub struct SelfNode {
    base: BaseNode,
}

impl View for SelfNode {
    type V = NodeView;

    closed spec fn view(&self) -> NodeView {
        self.base@
    }
}

impl SelfNode {
    #[verifier::type_invariant]
    closed spec fn inv(&self) -> bool {
        sequence_bounds_values(self.base@)
    }

    pub fn new(identifier: String, address: Address) -> (r: SelfNode)
        ensures
            r@ == (NodeView {
                identifier: identifier@,
                address,
                sequence: 0,
                values: no_entries(),
            }),
    {
        SelfNode { base: BaseNode::new(identifier, address) }
    }

    /// Writes `value` under `key` with the next sequence.
    pub fn set(&mut self, key: &str, value: Value)
        requires
            old(self)@.sequence < u64::MAX,
        ensures
            final(self)@ == (NodeView {
                identifier: old(self)@.identifier,
                address: old(self)@.address,
                sequence: (old(self)@.sequence + 1) as u64,
                values: old(self)@.values.insert(
                    key@,
                    (value@, (old(self)@.sequence + 1) as u64),
                ),
            }),
            sequence_bounds_values(final(self)@),
    {
        proof {
            use_type_invariant(&*self);
        }
        // The invariant must hold at every step, so the state is taken out,
        // updated, and put back whole.
        let mut base = BaseNode {
            identifier: String::new(),
            address: self.base.address,
            sequence: 0,
            values: empty_values(),
        };
        std::mem::swap(&mut base, &mut self.base);
        let sequence = base.sequence + 1;
        base.sequence = sequence;
        store(&mut base.values, key.to_owned(), (value, sequence));
        self.base = base;
        proof {
            use_type_invariant(&*self);
        }
    }

    /// The local node is never dropped.
    pub fn discardable(&mut self) -> (r: bool)
        ensures
            !r,
            final(self)@ == old(self)@,
    {
        false
    }
}

/// How long an inactive peer is kept before it may be dropped: 24 hours, in
/// nanoseconds.
pub const RETENTION_NANOS: u128 = 86_400_000_000_000;

/// `values` after taking in `updates` in order: an update replaces what its
/// key holds only when its sequence is above the stored one (0 for an absent
/// key); on equal sequences the stored value stays.
pub open spec fn merged(values: Map<Seq<char>, Entry>, updates: Seq<Diff>) -> Map<Seq<char>, Entry>
    decreases updates.len(),
{
    if updates.len() == 0 {
        values
    } else {
        let before = merged(values, updates.drop_last());
        let u = updates.last();
        if u.1.1 > sequence_of(before, u.0@) {
            before.insert(u.0@, (u.1.0@, u.1.1))
        } else {
            before
        }
    }
}

/// The state of a peer after a batch stamped `sequence` carrying `updates`:
/// a batch not above the peer's sequence is stale and changes nothing (equal
/// sequences are no update); any other is merged and its sequence becomes the
/// peer's.
pub open spec fn applied(v: NodeView, sequence: u64, updates: Seq<Diff>) -> NodeView {
    if sequence <= v.sequence {
        v
    } else {
        NodeView { sequence, values: merged(v.values, updates), ..v }
    }
}

/// A remote participant. It is active while it carries a failure detector;
/// `inactive_since` records when it last stopped being active.
pub struct PeerNode<D> {
    base: BaseNode,
    detector: Option<D>,
    inactive_since: Touch,
}

impl<D> View for PeerNode<D> {
    type V = NodeView;

    closed spec fn view(&self) -> NodeView {
        self.base@
    }
}

impl<D: Detector> PeerNode<D> {
    /// Whether the peer carries a detector.
    pub closed spec fn is_active(&self) -> bool {
        self.detector is Some
    }

    /// A newly observed peer: inactive, at sequence 0, holding nothing.
    pub fn new(identifier: String, address: Address) -> (r: PeerNode<D>)
        ensures
            r@ == (NodeView {
                identifier: identifier@,
                address,
                sequence: 0,
                values: no_entries(),
            }),
            !r.is_active(),
    {
        PeerNode { base: BaseNode::new(identifier, address), detector: None, inactive_since: Touch::now() }
    }

    pub fn active(&self) -> (r: bool)
        ensures
            r == self.is_active(),
    {
        self.detector.is_some()
    }

    /// The peer's detector, while it is active.
    pub fn detector(&self) -> (r: Option<&D>)
        ensures
            r is Some == self.is_active(),
    {
        match &self.detector {
            Some(d) => Some(d),
            None => None,
        }
    }

    /// Drops the detector and starts counting inactive time from now.
    pub fn mark_inactive(&mut self)
        ensures
            final(self)@ == old(self)@,
            !final(self).is_active(),
    {
        self.detector = None;
        self.inactive_since = Touch::now();
    }

    /// Feeds the detector a successful exchange, creating one if the peer was
    /// inactive.
    pub fn update_detector(&mut self)
        ensures
            final(self)@ == old(self)@,
            final(self).is_active(),
    {
        match &mut self.detector {
            Some(d) => d.update(),
            None => {
                self.detector = Some(D::fresh());
            },
        }
    }

    /// The sequence under which `key` is stored, 0 when it is absent.
    pub fn current_sequence_for(&self, key: &str) -> (r: u64)
        ensures
            r == sequence_of(self@.values, key@),
    {
        match lookup(&self.base.values, key) {
            Some(e) => e.1,
            None => 0,
        }
    }

    /// Takes in a batch stamped `sequence`. A batch whose sequence is not above
    /// the peer's is stale and leaves the peer exactly as it was; otherwise the detector
    /// is fed, each update newer than what its key holds is stored, and the
    /// batch's sequence becomes the peer's.
    pub fn apply(&mut self, sequence: u64, updates: Vec<Diff>)
        ensures
            final(self)@ == applied(old(self)@, sequence, updates@),
            sequence <= old(self)@.sequence ==> *final(self) == *old(self),
            sequence > old(self)@.sequence ==> final(self).is_active(),
    {
        if sequence <= self.base.sequence {
            return;
        }
        self.update_detector();
        let ghost start = self@.values;
        let ghost all = updates@;
        for u in it: updates
            invariant
                it.seq() == all,
                self.is_active(),
                self@.identifier == old(self)@.identifier,
                self@.address == old(self)@.address,
                self@.sequence == old(self)@.sequence,
                self@.values == merged(start, all.subrange(0, it.index())),
        {
            proof {
                assert(all.subrange(0, it.index() + 1).drop_last() =~= all.subrange(0, it.index()));
            }
            let (key, (value, s)) = u;
            if s > self.current_sequence_for(key.as_str()) {
                store(&mut self.base.values, key, (value, s));
            }
        }
        proof {
            assert(all.subrange(0, all.len() as int) =~= all);
        }
        self.base.sequence = sequence;
    }

    /// What the peer's outside collaborators say now: whether its detector
    /// reports a failure (only read while active) and how many nanoseconds it
    /// has been inactive (only read while inactive; 0 otherwise).
    pub fn observe(&self) -> (r: (bool, u128))
        ensures
            !self.is_active() ==> !r.0,
            self.is_active() ==> r.1 == 0,
    {
        match &self.detector {
            Some(d) => (d.failed(), 0),
            None => (false, self.inactive_since.age_nanos()),
        }
    }

    /// Whether the peer may be dropped, given whether its detector reports a
    /// failure and how long it has been inactive. An active peer is never
    /// dropped: if its detector failed it becomes inactive (its inactive time
    /// starting now), so that dropping takes two observations; otherwise it is
    /// left as it was. An inactive peer is left as it was, and may be dropped
    /// once it has been inactive for longer than [`RETENTION_NANOS`].
    pub fn discardable_after(&mut self, failed: bool, inactive_nanos: u128) -> (r: bool)
        ensures
            final(self)@ == old(self)@,
            old(self).is_active() ==> !r && final(self).is_active() == !failed,
            old(self).is_active() && !failed ==> *final(self) == *old(self),
            !old(self).is_active() ==> *final(self) == *old(self) && r == (inactive_nanos
                > RETENTION_NANOS),
    {
        if self.detector.is_some() {
            if failed {
                self.mark_inactive();
            }
            false
        } else {
            inactive_nanos > RETENTION_NANOS
        }
    }

    /// Whether the peer may be dropped, judged on its detector's verdict and
    /// the clock (see [`PeerNode::observe`] and [`PeerNode::discardable_after`]).
    pub fn discardable(&mut self) -> (r: bool)
        ensures
            final(self)@ == old(self)@,
            old(self).is_active() ==> !r,
            old(self).is_active() && final(self).is_active() ==> *final(self) == *old(self),
            !old(self).is_active() ==> *final(self) == *old(self),
    {
        let (failed, inactive_nanos) = self.observe();
        self.discardable_after(failed, inactive_nanos)
    }
}

/// What the local node and the peers have in common.
pub trait Node {
    /// The node's state.
    spec fn state(&self) -> NodeView;

    fn identifier(&self) -> (r: &str)
        ensures
            r@ == self.state().identifier,
    ;

    fn address(&self) -> (r: &Address)
        ensures
            *r == self.state().address,
    ;

    fn sequence(&self) -> (r: u64)
        ensures
            r == self.state().sequence,
    ;

    /// `(identifier, sequence)`.
    fn digest(&self) -> (r: Digest)
        ensures
            r.0@ == self.state().identifier,
            r.1 == self.state().sequence,
    ;

    /// The value stored under `key`.
    fn get(&self, key: &str) -> (r: Option<&Value>)
        ensures
            match r {
                Some(v) => self.state().values.contains_key(key@) && v@ == self.state().values[key@].0,
                None => !self.state().values.contains_key(key@),
            },
    ;

    /// The entries stored under a sequence above `from`, each key once, in
    /// no particular order.
    fn diff(&self, from: u64) -> (r: Vec<Diff>)
        ensures
            is_diff(r@, self.state().values, from),
    ;

    /// Whether the node may be dropped from the peer table; judging may
    /// change whether it is active, never its state.
    fn discardable(&mut self) -> (r: bool)
        ensures
            final(self).state() == old(self).state(),
    ;
}

impl Node for SelfNode {
    open spec fn state(&self) -> NodeView {
        self@
    }

    fn identifier(&self) -> (r: &str) {
        self.base.identifier.as_str()
    }

    fn address(&self) -> (r: &Address) {
        &self.base.address
    }

    fn sequence(&self) -> (r: u64) {
        self.base.sequence
    }

    fn digest(&self) -> (r: Digest) {
        self.base.digest()
    }

    fn get(&self, key: &str) -> (r: Option<&Value>) {
        self.base.get(key)
    }

    fn diff(&self, from: u64) -> (r: Vec<Diff>) {
        self.base.diff(from)
    }

    fn discardable(&mut self) -> (r: bool) {
        SelfNode::discardable(self)
    }
}

impl<D: Detector> Node for PeerNode<D> {
    open spec fn state(&self) -> NodeView {
        self@
    }

    fn identifier(&self) -> (r: &str) {
        self.base.identifier.as_str()
    }

    fn address(&self) -> (r: &Address) {
        &self.base.address
    }

    fn sequence(&self) -> (r: u64) {
        self.base.sequence
    }

    fn digest(&self) -> (r: Digest) {
        self.base.digest()
    }

    fn get(&self, key: &str) -> (r: Option<&Value>) {
        self.base.get(key)
    }

    fn diff(&self, from: u64) -> (r: Vec<Diff>) {
        self.base.diff(from)
    }

    fn discardable(&mut self) -> (r: bool) {
        PeerNode::discardable(self)
    }
}

/// An update is lost unless its sequence is above what its key holds: when no
/// update of a batch for `key` carries a sequence above the one stored for
/// `key`, taking in the batch leaves `key` as it was (holding the same entry,
/// or absent).
pub proof fn lemma_stale_update_keeps_key(v: NodeView, sequence: u64, updates: Seq<Diff>, key: Seq<char>)
    requires
        forall|i: int|
            0 <= i < updates.len() && #[trigger] updates[i].0@ == key ==> updates[i].1.1
                <= sequence_of(v.values, key),
    ensures
        applied(v, sequence, updates).values.contains_key(key) == v.values.contains_key(key),
        v.values.contains_key(key) ==> applied(v, sequence, updates).values[key] == v.values[key],
{
    lemma_merge_keeps_key(v.values, updates, key);
}

proof fn lemma_merge_keeps_key(values: Map<Seq<char>, Entry>, updates: Seq<Diff>, key: Seq<char>)
    requires
        forall|i: int|
            0 <= i < updates.len() && #[trigger] updates[i].0@ == key ==> updates[i].1.1
                <= sequence_of(values, key),
    ensures
        merged(values, updates).contains_key(key) == values.contains_key(key),
        values.contains_key(key) ==> merged(values, updates)[key] == values[key],
    decreases updates.len(),
{
    if updates.len() > 0 {
        let rest = updates.drop_last();
        assert forall|i: int|
            0 <= i < rest.len() && #[trigger] rest[i].0@ == key implies rest[i].1.1
                <= sequence_of(values, key) by {
            assert(rest[i] == updates[i]);
        }
        lemma_merge_keeps_key(values, rest, key);
        let u = updates.last();
        if u.0@ == key {
            assert(updates[updates.len() - 1].0@ == key);
        }
    }
}

/// The batch sequence stamped on each of `batches`, with `start` first, at
/// its highest.
pub open spec fn highest_sequence(start: u64, batches: Seq<(u64, Seq<Diff>)>) -> u64
    decreases batches.len(),
{
    if batches.len() == 0 {
        start
    } else {
        let before = highest_sequence(start, batches.drop_last());
        if batches.last().0 > before {
            batches.last().0
        } else {
            before
        }
    }
}

/// The state of a peer after taking in `batches` in order.
pub open spec fn applied_all(v: NodeView, batches: Seq<(u64, Seq<Diff>)>) -> NodeView
    decreases batches.len(),
{
    if batches.len() == 0 {
        v
    } else {
        let b = batches.last();
        applied(applied_all(v, batches.drop_last()), b.0, b.1)
    }
}

/// Whatever batches a peer takes in, in whatever order, its sequence ends at
/// the highest of its starting sequence and the batches' sequences: that is
/// the sequence of the highest batch accepted, stale batches being refused.
pub proof fn lemma_sequence_is_highest_batch(v: NodeView, batches: Seq<(u64, Seq<Diff>)>)
    ensures
        applied_all(v, batches).sequence == highest_sequence(v.sequence, batches),
    decreases batches.len(),
{
    if batches.len() > 0 {
        lemma_sequence_is_highest_batch(v, batches.drop_last());
    }
}

/// With batch sequences that increase from the peer's own, every batch is
/// accepted and the peer ends at the last one's sequence.
pub proof fn lemma_increasing_batches(v: NodeView, batches: Seq<(u64, Seq<Diff>)>)
    requires
        batches.len() > 0,
        v.sequence <= batches[0].0,
        forall|i: int| 0 < i < batches.len() ==> batches[i - 1].0 < #[trigger] batches[i].0,
    ensures
        applied_all(v, batches).sequence == batches.last().0,
    decreases batches.len(),
{
    lemma_sequence_is_highest_batch(v, batches);
    lemma_highest_of_increasing(v.sequence, batches);
}

proof fn lemma_highest_of_increasing(start: u64, batches: Seq<(u64, Seq<Diff>)>)
    requires
        batches.len() > 0,
        start <= batches[0].0,
        forall|i: int| 0 < i < batches.len() ==> batches[i - 1].0 < #[trigger] batches[i].0,
    ensures
        highest_sequence(start, batches) == batches.last().0,
    decreases batches.len(),
{
    if batches.len() > 1 {
        let rest = batches.drop_last();
        assert forall|i: int| 0 < i < rest.len() implies rest[i - 1].0 < #[trigger] rest[i].0 by {
            assert(batches[i] == rest[i]);
        }
        lemma_highest_of_increasing(start, rest);
        assert(rest.last() == batches[batches.len() - 2]);
        assert(batches[batches.len() - 2].0 < batches[batches.len() - 1].0);
    } else {
        assert(highest_sequence(start, batches.drop_last()) == start);
    }
}

} // verus!
