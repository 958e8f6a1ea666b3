//! K-buckets.
//!
//! - A bucket holds at most `k` contacts, least recently seen first, and a list
//!   of spares that arrived while it was full.
//! - Removing a contact promotes the newest spare.
//! - A bucket is lonely when no lookup has touched it for an hour.  Only lookups
//!   touch buckets; adding contacts does not.

use std::collections::VecDeque;
use std::ops::RangeInclusive;
use std::time::UNIX_EPOCH;

use vstd::prelude::*;

use crate::node::same_id;
use crate::node::Node;
use crate::ranking::at_most;
use crate::ranking::distinct_ids;
use crate::ranking::has_id;
use crate::seqs::filter_members;
use crate::seqs::filter_step;
use crate::utils::ID_LEN;

verus! {

/// How long, in seconds, a bucket goes without a lookup before it is lonely.
pub const LONELY_AFTER: u64 = 3600;

/// How many spares a bucket keeps for each contact it may hold.
pub const SPARES_PER_CONTACT: usize = 5;

/// `RangeInclusive::start`: the lower bound of a range that was not iterated to
/// its end.
pub assume_specification<Idx>[ RangeInclusive::<Idx>::start ](range: &RangeInclusive<Idx>) -> (start:
    &Idx)
    ensures
        !range@.exhausted ==> *start == range@.start,
;

/// `RangeInclusive::end`: the upper bound of a range that was not iterated to
/// its end.
pub assume_specification<Idx>[ RangeInclusive::<Idx>::end ](range: &RangeInclusive<Idx>) -> (end:
    &Idx)
    ensures
        !range@.exhausted ==> *end == range@.end,
;

/// Whole seconds since the Unix epoch by `SystemTime::elapsed`, or `None` where
/// the clock stands before it.  The clock may show anything.
#[verifier::external_body]
fn secs_since_epoch() -> (secs: Option<u64>) {
    match UNIX_EPOCH.elapsed() {
        Ok(duration) => Some(duration.as_secs()),
        Err(_) => None,
    }
}

/// The time is one that a reading of the system clock gave: the whole seconds
/// since the Unix epoch that the clock showed, or zero where it stood before the
/// epoch.
pub closed spec fn read_off_clock(time: u64) -> bool {
    exists|shown: Option<u64>| #[trigger]
        call_ensures(secs_since_epoch, (), shown) && time == match shown {
            Some(secs) => secs,
            None => 0,
        }
}

/// Whole seconds since the Unix epoch; zero before it.
pub fn now_secs() -> (now: u64)
    ensures
        read_off_clock(now),
{
    match secs_since_epoch() {
        Some(secs) => secs,
        None => 0,
    }
}

/// The peers of `nodes` with another ID.
pub open spec fn without(nodes: Seq<Node>, id: [u8; ID_LEN]) -> Seq<Node> {
    nodes.filter(|n: Node| n.id != id)
}

/// At most the last `count` peers.
pub open spec fn latest(nodes: Seq<Node>, count: nat) -> Seq<Node> {
    if nodes.len() <= count {
        nodes
    } else {
        nodes.skip(nodes.len() - count)
    }
}

/// The bit at position `at` of an ID, most significant first.
pub open spec fn id_bit(id: Seq<u8>, at: int) -> u8 {
    (id[at / 8] >> ((7 - at % 8) as u8)) & 1u8
}

/// All peers have the same bit at position `at`.
pub open spec fn agree_at(nodes: Seq<Node>, at: int) -> bool {
    forall|i: int|
        0 <= i < nodes.len() ==> id_bit((#[trigger] nodes[i]).id@, at) == id_bit(nodes[0].id@, at)
}

/// The first position from `at` on in which the IDs of the peers differ, or 160.
pub open spec fn first_split_bit(nodes: Seq<Node>, at: nat) -> nat
    decreases 160 - at,
{
    if at >= 160 {
        160
    } else if agree_at(nodes, at as int) {
        first_split_bit(nodes, at + 1)
    } else {
        at
    }
}

/// The length in bits of the prefix that the IDs of all peers share; zero for
/// no peers.
pub open spec fn shared_bits(nodes: Seq<Node>) -> nat {
    if nodes.len() == 0 {
        0
    } else {
        first_split_bit(nodes, 0)
    }
}

/// What a bucket holds.
pub struct BucketModel {
    /// Lowest folded ID of the bucket's range.
    pub lo: u128,
    /// Highest folded ID of the bucket's range.
    pub hi: u128,
    /// The contacts, least recently seen first.
    pub nodes: Seq<Node>,
    /// Peers that arrived while the bucket was full, oldest first.
    pub spares: Seq<Node>,
    /// How many contacts the bucket may hold.
    pub ksize: nat,
    /// When a lookup last touched the bucket.
    pub updated: u64,
}

impl BucketModel {
    /// The bounds on contacts and spares hold, there are spares only while the
    /// bucket is full, and no peer is there twice.
    pub open spec fn wf(&self) -> bool {
        &&& self.nodes.len() <= self.ksize
        &&& self.spares.len() <= self.ksize * SPARES_PER_CONTACT
        &&& self.nodes.len() < self.ksize ==> self.spares.len() == 0
        &&& distinct_ids(self.nodes + self.spares)
    }

    /// The range of the bucket holds the folded ID.
    pub open spec fn covers(&self, long_id: u128) -> bool {
        self.lo <= long_id <= self.hi
    }

    /// The peer is a contact or there is room for one more.
    pub open spec fn accepts(&self, node: Node) -> bool {
        has_id(self.nodes, node.id) || self.nodes.len() < self.ksize
    }

    /// The bucket after the peer was seen: it is the most recently seen contact
    /// or, in a full bucket that does not know it, the newest spare.
    pub open spec fn with_node(self, node: Node) -> BucketModel {
        if self.accepts(node) {
            BucketModel { nodes: without(self.nodes, node.id).push(node), ..self }
        } else {
            BucketModel {
                spares: latest(
                    without(self.spares, node.id).push(node),
                    self.ksize * SPARES_PER_CONTACT as nat,
                ),
                ..self
            }
        }
    }

    /// The bucket after the peer was removed: where it was a contact, the newest
    /// spare takes its place.
    pub open spec fn without_node(self, id: [u8; ID_LEN]) -> BucketModel {
        let spares = without(self.spares, id);
        let nodes = without(self.nodes, id);
        if has_id(self.nodes, id) && spares.len() > 0 {
            BucketModel { nodes: nodes.push(spares.last()), spares: spares.drop_last(), ..self }
        } else {
            BucketModel { nodes, spares, ..self }
        }
    }

    /// The bucket that the given peers fill in turn.
    pub open spec fn filled(lo: u128, hi: u128, ksize: nat, now: u64, peers: Seq<Node>) -> BucketModel {
        BucketModel {
            lo,
            hi,
            nodes: at_most(peers, ksize),
            spares: if peers.len() <= ksize {
                Seq::empty()
            } else {
                peers.skip(ksize as int)
            },
            ksize,
            updated: now,
        }
    }

    /// The highest folded ID of the lower half of the range.
    pub open spec fn middle(&self) -> u128 {
        (self.lo + (self.hi - self.lo) / 2) as u128
    }

    /// The contacts and spares up to the middle of the range.
    pub open spec fn low_side(&self) -> Seq<Node> {
        (self.nodes + self.spares).filter(|n: Node| n.long_id <= self.middle())
    }

    /// The contacts and spares above the middle of the range.
    pub open spec fn high_side(&self) -> Seq<Node> {
        (self.nodes + self.spares).filter(|n: Node| !(n.long_id <= self.middle()))
    }

    /// The lower half of the bucket, made at the given time.
    pub open spec fn low_half(&self, now: u64) -> BucketModel {
        BucketModel::filled(self.lo, self.middle(), self.ksize, now, self.low_side())
    }

    /// The upper half of the bucket, made at the given time.
    pub open spec fn high_half(&self, now: u64) -> BucketModel {
        BucketModel::filled(
            (self.middle() + 1) as u128,
            self.hi,
            self.ksize,
            now,
            self.high_side(),
        )
    }

    /// No lookup has touched the bucket for more than an hour before `now`.
    pub open spec fn lonely_at(&self, now: u64) -> bool {
        now - self.updated > LONELY_AFTER
    }
}

/// Leaving out an ID that no peer has changes nothing.
pub proof fn without_absent(nodes: Seq<Node>, id: [u8; ID_LEN])
    requires
        !has_id(nodes, id),
    ensures
        without(nodes, id) == nodes,
    decreases nodes.len(),
{
    reveal(Seq::filter);
    if nodes.len() > 0 {
        assert(nodes[nodes.len() - 1] == nodes.last());
        assert forall|i: int| 0 <= i < nodes.drop_last().len() implies (
        #[trigger] nodes.drop_last()[i]).id != id by {
            assert(nodes[i].id != id);
        }
        without_absent(nodes.drop_last(), id);
        assert(nodes.drop_last().push(nodes.last()) =~= nodes);
    } else {
        assert(without(nodes, id) =~= nodes);
    }
}

/// Where no ID is there twice, leaving one out takes out the one peer that has
/// it.
pub proof fn without_one(nodes: Seq<Node>, at: int)
    requires
        distinct_ids(nodes),
        0 <= at < nodes.len(),
    ensures
        without(nodes, nodes[at].id) == nodes.remove(at),
        !has_id(nodes.remove(at), nodes[at].id),
        distinct_ids(nodes.remove(at)),
    decreases nodes.len(),
{
    reveal(Seq::filter);
    let id = nodes[at].id;
    let rest = nodes.drop_last();
    if at == nodes.len() - 1 {
        assert forall|i: int| 0 <= i < rest.len() implies (#[trigger] rest[i]).id != id by {
            assert(rest[i] == nodes[i]);
        }
        without_absent(rest, id);
        assert(nodes.remove(at) =~= rest);
    } else {
        assert forall|i: int, j: int| 0 <= i < j < rest.len() implies (#[trigger] rest[i]).id
            != (#[trigger] rest[j]).id by {
            assert(rest[i] == nodes[i] && rest[j] == nodes[j]);
        }
        assert(rest[at] == nodes[at]);
        without_one(rest, at);
        assert(nodes[at].id != nodes[nodes.len() - 1].id);
        assert(nodes.remove(at) =~= rest.remove(at).push(nodes.last()));
    }
    let left = nodes.remove(at);
    assert forall|i: int| 0 <= i < left.len() implies (#[trigger] left[i]).id != id by {
        assert(left[i] == nodes[if i < at { i } else { i + 1 }]);
    }
    assert forall|i: int, j: int| 0 <= i < j < left.len() implies (#[trigger] left[i]).id != (
    #[trigger] left[j]).id by {
        assert(left[i] == nodes[if i < at { i } else { i + 1 }]);
        assert(left[j] == nodes[if j < at { j } else { j + 1 }]);
    }
}

/// Two lists without common or repeated IDs.
pub proof fn distinct_in_both(a: Seq<Node>, b: Seq<Node>)
    ensures
        distinct_ids(a + b) <==> distinct_ids(a) && distinct_ids(b) && forall|i: int|
            0 <= i < b.len() ==> !has_id(a, (#[trigger] b[i]).id),
{
    let both = a + b;
    if distinct_ids(both) {
        assert forall|i: int, j: int| 0 <= i < j < a.len() implies (#[trigger] a[i]).id != (
        #[trigger] a[j]).id by {
            assert(both[i] == a[i] && both[j] == a[j]);
        }
        assert forall|i: int, j: int| 0 <= i < j < b.len() implies (#[trigger] b[i]).id != (
        #[trigger] b[j]).id by {
            assert(both[a.len() + i] == b[i] && both[a.len() + j] == b[j]);
        }
        assert forall|i: int| 0 <= i < b.len() implies !has_id(a, (#[trigger] b[i]).id) by {
            assert(both[a.len() + i] == b[i]);
            assert forall|k: int| 0 <= k < a.len() implies (#[trigger] a[k]).id != b[i].id by {
                assert(both[k] == a[k]);
            }
        }
    }
    if distinct_ids(a) && distinct_ids(b) && forall|i: int|
        0 <= i < b.len() ==> !has_id(a, (#[trigger] b[i]).id) {
        assert forall|i: int, j: int| 0 <= i < j < both.len() implies (#[trigger] both[i]).id != (
        #[trigger] both[j]).id by {
            if j < a.len() {
                assert(both[i] == a[i] && both[j] == a[j]);
            } else if i >= a.len() {
                assert(both[i] == b[i - a.len()] && both[j] == b[j - a.len()]);
            } else {
                assert(both[i] == a[i] && both[j] == b[j - a.len()]);
                assert(!has_id(a, b[j - a.len()].id));
            }
        }
    }
}

/// Where in `nodes` the ID stands, if it does.
fn position_of(nodes: &VecDeque<Node>, id: &[u8; ID_LEN]) -> (at: Option<usize>)
    ensures
        match at {
            Some(at) => at < nodes@.len() && nodes@[at as int].id == *id,
            None => !has_id(nodes@, *id),
        },
{
    let mut at: usize = 0;
    while at < nodes.len()
        invariant
            at <= nodes@.len(),
            forall|i: int| 0 <= i < at ==> (#[trigger] nodes@[i]).id != *id,
        decreases nodes@.len() - at,
    {
        if same_id(&nodes[at].id, id) {
            return Some(at);
        }
        at = at + 1;
    }
    None
}

/// Takes the peer with the ID out of the list; tells whether it was there.
fn take_out(nodes: &mut VecDeque<Node>, id: &[u8; ID_LEN]) -> (found: bool)
    requires
        distinct_ids(old(nodes)@),
    ensures
        found == has_id(old(nodes)@, *id),
        final(nodes)@ == without(old(nodes)@, *id),
{
    match position_of(nodes, id) {
        Some(at) => {
            proof {
                without_one(nodes@, at as int);
            }
            let _ = nodes.remove(at);
            true
        },
        None => {
            proof {
                without_absent(nodes@, *id);
            }
            false
        },
    }
}

/// A bucket for a contiguous range of the keyspace.
pub struct KBucket {
    /// The folded IDs that the bucket covers.
    pub range: RangeInclusive<u128>,
    /// Contacts, least recently seen first.
    pub nodes: VecDeque<Node>,
    /// Peers that arrived while the bucket was full, oldest first.
    pub replacement_nodes: VecDeque<Node>,
    /// How many contacts the bucket may hold.
    pub ksize: usize,
    /// How many spares the bucket may hold.
    pub max_replacement_nodes: usize,
    /// When a lookup last touched the bucket, in seconds since the Unix epoch.
    pub last_updated: u64,
}

impl View for KBucket {
    type V = BucketModel;

    open spec fn view(&self) -> BucketModel {
        BucketModel {
            lo: self.range@.start,
            hi: self.range@.end,
            nodes: self.nodes@,
            spares: self.replacement_nodes@,
            ksize: self.ksize as nat,
            updated: self.last_updated,
        }
    }
}

impl KBucket {
    /// The bucket's bounds hold and no peer is in it twice.
    pub open spec fn wf(&self) -> bool {
        &&& self@.wf()
        &&& !self.range@.exhausted
        &&& self.max_replacement_nodes == self.ksize * SPARES_PER_CONTACT
    }

    /// An empty bucket for the range, touched at `now`.
    pub fn new_at(range: RangeInclusive<u128>, ksize: usize, now: u64) -> (bucket: Self)
        requires
            !range@.exhausted,
            ksize * SPARES_PER_CONTACT <= usize::MAX,
        ensures
            bucket.wf(),
            bucket@ == BucketModel::filled(
                range@.start,
                range@.end,
                ksize as nat,
                now,
                Seq::empty(),
            ),
    {
        let bucket: KBucket = Self {
            range,
            nodes: VecDeque::new(),
            replacement_nodes: VecDeque::new(),
            ksize,
            max_replacement_nodes: ksize * SPARES_PER_CONTACT,
            last_updated: now,
        };
        assert(bucket@.nodes =~= Seq::empty());
        assert(bucket@.spares =~= Seq::empty());
        bucket
    }

    /// An empty bucket for the range, touched now.
    pub fn new(range: RangeInclusive<u128>, ksize: usize) -> (bucket: Self)
        requires
            !range@.exhausted,
            ksize * SPARES_PER_CONTACT <= usize::MAX,
        ensures
            bucket.wf(),
            bucket@ == BucketModel::filled(
                range@.start,
                range@.end,
                ksize as nat,
                bucket.last_updated,
                Seq::empty(),
            ),
            read_off_clock(bucket.last_updated),
    {
        Self::new_at(range, ksize, now_secs())
    }

    /// Notes that a lookup touched the bucket at `now`.
    pub fn touch_at(&mut self, now: u64)
        ensures
            final(self)@ == (BucketModel { updated: now, ..old(self)@ }),
            old(self).wf() ==> final(self).wf(),
    {
        self.last_updated = now;
    }

    /// Notes that a lookup touched the bucket.
    pub fn touch_last_updated(&mut self)
        ensures
            final(self)@ == (BucketModel { updated: final(self).last_updated, ..old(self)@ }),
            read_off_clock(final(self).last_updated),
            old(self).wf() ==> final(self).wf(),
    {
        let now: u64 = now_secs();
        self.touch_at(now);
    }

    /// Takes note that the peer was seen.  A contact becomes the most recently
    /// seen one, a new peer a contact if there is room: `true`.  In a full
    /// bucket a new peer becomes the newest spare, and the oldest spares beyond
    /// the bound are dropped: `false`.
    pub fn add_node(&mut self, node: Node) -> (accepted: bool)
        requires
            old(self).wf(),
        ensures
            final(self).wf(),
            accepted == old(self)@.accepts(node),
            final(self)@ == old(self)@.with_node(node),
    {
        proof {
            distinct_in_both(self.nodes@, self.replacement_nodes@);
        }
        if take_out(&mut self.nodes, &node.id) {
            self.nodes.push_back(node);
            proof {
                with_node_keeps_wf(old(self)@, node);
            }
            return true;
        }
        proof {
            without_absent(old(self).nodes@, node.id);
        }
        if self.nodes.len() < self.ksize {
            self.nodes.push_back(node);
            proof {
                with_node_keeps_wf(old(self)@, node);
            }
            return true;
        }
        take_out(&mut self.replacement_nodes, &node.id);
        self.replacement_nodes.push_back(node);
        let ghost grown = self.replacement_nodes@;
        proof {
            filter_members(old(self).replacement_nodes@, |n: Node| n.id != node.id);
            assert(grown.skip(0) =~= grown);
        }
        while self.replacement_nodes.len() > self.max_replacement_nodes
            invariant
                grown.len() <= old(self)@.spares.len() + 1,
                self.replacement_nodes@.len() <= grown.len(),
                self.replacement_nodes@ == grown.skip(grown.len() - self.replacement_nodes@.len()),
                grown.len() > self.max_replacement_nodes ==> self.replacement_nodes@.len()
                    >= self.max_replacement_nodes,
                grown.len() <= self.max_replacement_nodes ==> self.replacement_nodes@ == grown,
                self.nodes@ == old(self).nodes@,
                self.range == old(self).range,
                self.ksize == old(self).ksize,
                self.max_replacement_nodes == old(self).max_replacement_nodes,
                self.last_updated == old(self).last_updated,
            decreases self.replacement_nodes@.len(),
        {
            let _ = self.replacement_nodes.pop_front();
            assert(self.replacement_nodes@ =~= grown.skip(
                grown.len() - self.replacement_nodes@.len(),
            ));
        }
        proof {
            with_node_keeps_wf(old(self)@, node);
        }
        false
    }

    /// Removes the peer from contacts and spares.  Where it was a contact, the
    /// newest spare is promoted.
    pub fn remove_node(&mut self, node: &Node)
        requires
            old(self).wf(),
        ensures
            final(self).wf(),
            final(self)@ == old(self)@.without_node(node.id),
    {
        proof {
            distinct_in_both(self.nodes@, self.replacement_nodes@);
            without_node_keeps_wf(self@, node.id);
        }
        take_out(&mut self.replacement_nodes, &node.id);
        if take_out(&mut self.nodes, &node.id) {
            if let Some(spare) = self.replacement_nodes.pop_back() {
                self.nodes.push_back(spare);
            }
        }
    }

    /// Whether the peer is a contact.
    pub fn contains(&self, node: &Node) -> (known: bool)
        ensures
            known == has_id(self@.nodes, node.id),
    {
        position_of(&self.nodes, &node.id).is_some()
    }

    /// The two halves of the bucket, made at `now`.  Contacts and spares go to
    /// the half that covers them, contacts first, and fill it in turn.
    #[verifier::rlimit(40)]
    pub fn split_at(self, now: u64) -> (halves: (KBucket, KBucket))
        requires
            self.wf(),
            self@.lo <= self@.hi,
            self@.lo < u128::MAX,
        ensures
            halves.0.wf(),
            halves.1.wf(),
            halves.0@ == self@.low_half(now),
            halves.1@ == self@.high_half(now),
    {
        let lo: u128 = *self.range.start();
        let hi: u128 = *self.range.end();
        let mid: u128 = lo + (hi - lo) / 2;
        let mut low: KBucket = KBucket::new_at(RangeInclusive::new(lo, mid), self.ksize, now);
        let mut high: KBucket = KBucket::new_at(RangeInclusive::new(mid + 1, hi), self.ksize, now);
        let ghost all = self@.nodes + self@.spares;
        let ghost is_low = |n: Node| n.long_id <= mid;
        let ghost is_high = |n: Node| !(n.long_id <= mid);
        let first: usize = self.nodes.len();
        let mut at: usize = 0;
        assert(all.take(0).filter(is_low) =~= Seq::empty()) by {
            reveal(Seq::filter);
        }
        assert(all.take(0).filter(is_high) =~= Seq::empty()) by {
            reveal(Seq::filter);
        }
        while at < first
            invariant
                self.wf(),
                first == self.nodes@.len(),
                at <= first,
                all == self@.nodes + self@.spares,
                is_low == (|n: Node| n.long_id <= mid),
                is_high == (|n: Node| !(n.long_id <= mid)),
                lo == self@.lo,
                hi == self@.hi,
                mid == self@.middle(),
                mid < u128::MAX,
                low.wf(),
                high.wf(),
                low@ == BucketModel::filled(
                    lo,
                    mid,
                    self@.ksize,
                    now,
                    all.take(at as int).filter(is_low),
                ),
                high@ == BucketModel::filled(
                    (mid + 1) as u128,
                    hi,
                    self@.ksize,
                    now,
                    all.take(at as int).filter(is_high),
                ),
            decreases first - at,
        {
            let node: Node = self.nodes[at].clone();
            assert(node == all[at as int]);
            proof {
                fill_one(lo, mid, self@.ksize, now, all, at as int, is_low);
                fill_one((mid + 1) as u128, hi, self@.ksize, now, all, at as int, is_high);
            }
            if node.long_id <= mid {
                low.add_node(node);
            } else {
                high.add_node(node);
            }
            at = at + 1;
        }
        let rest: usize = self.replacement_nodes.len();
        let mut spare: usize = 0;
        while spare < rest
            invariant
                self.wf(),
                first == self.nodes@.len(),
                rest == self.replacement_nodes@.len(),
                spare <= rest,
                all == self@.nodes + self@.spares,
                is_low == (|n: Node| n.long_id <= mid),
                is_high == (|n: Node| !(n.long_id <= mid)),
                lo == self@.lo,
                hi == self@.hi,
                mid == self@.middle(),
                mid < u128::MAX,
                low.wf(),
                high.wf(),
                low@ == BucketModel::filled(
                    lo,
                    mid,
                    self@.ksize,
                    now,
                    all.take(first + spare).filter(is_low),
                ),
                high@ == BucketModel::filled(
                    (mid + 1) as u128,
                    hi,
                    self@.ksize,
                    now,
                    all.take(first + spare).filter(is_high),
                ),
            decreases rest - spare,
        {
            let node: Node = self.replacement_nodes[spare].clone();
            assert(node == all[first + spare]);
            proof {
                fill_one(lo, mid, self@.ksize, now, all, first + spare, is_low);
                fill_one((mid + 1) as u128, hi, self@.ksize, now, all, first + spare, is_high);
            }
            if node.long_id <= mid {
                low.add_node(node);
            } else {
                high.add_node(node);
            }
            spare = spare + 1;
        }
        assert(all.take(first + spare) =~= all);
        assert(is_low =~= (|n: Node| n.long_id <= self@.middle()));
        assert(is_high =~= (|n: Node| !(n.long_id <= self@.middle())));
        (low, high)
    }

    /// The two halves of the bucket.
    pub fn split(self) -> (halves: (KBucket, KBucket))
        requires
            self.wf(),
            self@.lo <= self@.hi,
            self@.lo < u128::MAX,
        ensures
            halves.0.wf(),
            halves.1.wf(),
            halves.0@ == self@.low_half(halves.0.last_updated),
            halves.1@ == self@.high_half(halves.0.last_updated),
            read_off_clock(halves.0.last_updated),
    {
        self.split_at(now_secs())
    }

    /// The length in bits of the prefix that the IDs of all contacts share:
    /// none for no contacts, the whole ID for one.
    pub fn depth(&self) -> (bits: usize)
        ensures
            bits == shared_bits(self@.nodes),
            bits <= 160,
            self@.nodes.len() == 0 ==> bits == 0,
            self@.nodes.len() == 1 ==> bits == 160,
            forall|at: int| 0 <= at < bits ==> agree_at(self@.nodes, at),
            self@.nodes.len() > 0 && bits < 160 ==> !agree_at(self@.nodes, bits as int),
    {
        if self.nodes.len() == 0 {
            return 0;
        }
        let ghost nodes = self@.nodes;
        let mut byte_at: usize = 0;
        let mut bits: usize = 0;
        while byte_at < ID_LEN
            invariant
                nodes == self@.nodes,
                nodes.len() > 0,
                byte_at <= ID_LEN,
                bits == 8 * byte_at,
                first_split_bit(nodes, 0) == first_split_bit(nodes, bits as nat),
                forall|at: int| 0 <= at < bits ==> agree_at(nodes, at),
            decreases ID_LEN - byte_at,
        {
            let byte: u8 = self.nodes[0].id[byte_at];
            let mut step: u8 = 0;
            while step < 8
                invariant
                    nodes == self@.nodes,
                    nodes.len() > 0,
                    byte_at < ID_LEN,
                    step <= 8,
                    bits == 8 * byte_at + step,
                    byte == nodes[0].id@[byte_at as int],
                    first_split_bit(nodes, 0) == first_split_bit(nodes, bits as nat),
                    forall|at: int| 0 <= at < bits ==> agree_at(nodes, at),
                decreases 8 - step,
            {
                let shift: u8 = 7 - step;
                let bit: u8 = (byte >> shift) & 1;
                assert(bits as int / 8 == byte_at && bits as int % 8 == step);
                assert(bit == id_bit(nodes[0].id@, bits as int));
                let mut which: usize = 1;
                while which < self.nodes.len()
                    invariant
                        nodes == self@.nodes,
                        nodes.len() > 0,
                        byte_at < ID_LEN,
                        shift == 7 - step,
                        step < 8,
                        bits == 8 * byte_at + step,
                        bits as int / 8 == byte_at,
                        bits as int % 8 == step as int,
                        bit == id_bit(nodes[0].id@, bits as int),
                        1 <= which <= nodes.len(),
                        first_split_bit(nodes, 0) == first_split_bit(nodes, bits as nat),
                        forall|at: int| 0 <= at < bits ==> agree_at(nodes, at),
                        forall|i: int|
                            0 <= i < which ==> id_bit((#[trigger] nodes[i]).id@, bits as int)
                                == bit,
                    decreases nodes.len() - which,
                {
                    let other: u8 = (self.nodes[which].id[byte_at] >> shift) & 1;
                    assert(other == id_bit(nodes[which as int].id@, bits as int));
                    if other != bit {
                        return bits;
                    }
                    which = which + 1;
                }
                assert(agree_at(nodes, bits as int));
                bits = bits + 1;
                step = step + 1;
            }
            byte_at = byte_at + 1;
        }
        bits
    }

    /// Whether at `now` no lookup has touched the bucket for more than an hour.
    pub fn is_lonely_at(&self, now: u64) -> (lonely: bool)
        ensures
            lonely == self@.lonely_at(now),
    {
        now.saturating_sub(self.last_updated) > LONELY_AFTER
    }

    /// Whether no lookup has touched the bucket for more than an hour.
    pub fn is_lonely(&self) -> (lonely: bool)
        ensures
            exists|now: u64| #[trigger] read_off_clock(now) && lonely == self@.lonely_at(now),
    {
        let now: u64 = now_secs();
        self.is_lonely_at(now)
    }

    /// The least recently seen contact.
    pub fn head(&self) -> (head: Option<&Node>)
        ensures
            match head {
                Some(node) => self@.nodes.len() > 0 && *node == self@.nodes[0],
                None => self@.nodes.len() == 0,
            },
    {
        if self.nodes.len() == 0 {
            None
        } else {
            Some(&self.nodes[0])
        }
    }

    /// The contacts, least recently seen first.
    pub fn nodes(&self) -> (nodes: &VecDeque<Node>)
        ensures
            nodes@ == self@.nodes,
    {
        &self.nodes
    }

    /// How many contacts there are.
    pub fn len(&self) -> (count: usize)
        ensures
            count == self@.nodes.len(),
    {
        self.nodes.len()
    }

    /// Whether there is no contact.
    pub fn is_empty(&self) -> (empty: bool)
        ensures
            empty == (self@.nodes.len() == 0),
    {
        self.nodes.len() == 0
    }

    /// Whether the bucket's range holds the folded ID.
    pub fn covers(&self, long_id: u128) -> (covered: bool)
        requires
            !self.range@.exhausted,
        ensures
            covered == self@.covers(long_id),
    {
        self.range.contains(&long_id)
    }
}

/// Filling a bucket with the peers of a list that belong to it, one peer more.
proof fn fill_one(
    lo: u128,
    hi: u128,
    ksize: nat,
    now: u64,
    all: Seq<Node>,
    at: int,
    belongs: spec_fn(Node) -> bool,
)
    requires
        0 <= at < all.len(),
        all.len() <= 6 * ksize,
        distinct_ids(all),
    ensures
        BucketModel::filled(lo, hi, ksize, now, all.take(at + 1).filter(belongs)) == if belongs(
            all[at],
        ) {
            BucketModel::filled(lo, hi, ksize, now, all.take(at).filter(belongs)).with_node(
                all[at],
            )
        } else {
            BucketModel::filled(lo, hi, ksize, now, all.take(at).filter(belongs))
        },
{
    let node = all[at];
    let peers = all.take(at).filter(belongs);
    filter_step(all, at, belongs);
    if belongs(node) {
        filter_members(all.take(at), belongs);
        assert forall|i: int| 0 <= i < peers.len() implies (#[trigger] peers[i]).id != node.id by {
            assert(all.take(at).contains(peers[i]));
            let j = choose|j: int| 0 <= j < at && all.take(at)[j] == peers[i];
            assert(all[j] == peers[i]);
        }
        let before = BucketModel::filled(lo, hi, ksize, now, peers);
        let after = BucketModel::filled(lo, hi, ksize, now, peers.push(node));
        assert(!has_id(before.nodes, node.id));
        assert(!has_id(before.spares, node.id)) by {
            assert forall|i: int| 0 <= i < before.spares.len() implies (
            #[trigger] before.spares[i]).id != node.id by {
                assert(before.spares[i] == peers[i + ksize]);
            }
        }
        without_absent(before.nodes, node.id);
        without_absent(before.spares, node.id);
        if peers.len() < ksize {
            assert(after.nodes =~= before.with_node(node).nodes);
            assert(after.spares =~= before.with_node(node).spares);
        } else {
            assert(after.nodes =~= before.nodes);
            assert(after.spares =~= before.spares.push(node));
        }
    }
}

/// Seeing a peer keeps the bounds of a bucket.
pub proof fn with_node_keeps_wf(bucket: BucketModel, node: Node)
    requires
        bucket.wf(),
    ensures
        bucket.with_node(node).wf(),
{
    let after = bucket.with_node(node);
    distinct_in_both(bucket.nodes, bucket.spares);
    if has_id(bucket.nodes, node.id) {
        let at = choose|i: int|
            0 <= i < bucket.nodes.len() && (#[trigger] bucket.nodes[i]).id == node.id;
        without_one(bucket.nodes, at);
        let kept = bucket.nodes.remove(at);
        push_distinct(kept, node);
        assert forall|i: int| 0 <= i < after.spares.len() implies !has_id(
            after.nodes,
            (#[trigger] after.spares[i]).id,
        ) by {
            let id = after.spares[i].id;
            assert(!has_id(bucket.nodes, bucket.spares[i].id));
            assert forall|k: int| 0 <= k < after.nodes.len() implies (#[trigger] after.nodes[k]).id
                != id by {
                if k < kept.len() {
                    assert(after.nodes[k] == bucket.nodes[if k < at { k } else { k + 1 }]);
                } else {
                    assert(after.nodes[k] == node);
                    assert(bucket.nodes[at].id == node.id);
                }
            }
        }
    } else if bucket.nodes.len() < bucket.ksize {
        without_absent(bucket.nodes, node.id);
        push_distinct(bucket.nodes, node);
        assert(after.nodes + after.spares =~= after.nodes);
    } else {
        let kept = without(bucket.spares, node.id);
        if has_id(bucket.spares, node.id) {
            let at = choose|i: int|
                0 <= i < bucket.spares.len() && (#[trigger] bucket.spares[i]).id == node.id;
            without_one(bucket.spares, at);
        } else {
            without_absent(bucket.spares, node.id);
        }
        push_distinct(kept, node);
        filter_members(bucket.spares, |n: Node| n.id != node.id);
        let grown = kept.push(node);
        let drop = grown.len() - after.spares.len();
        assert forall|i: int| 0 <= i < after.spares.len() implies #[trigger] after.spares[i]
            == grown[i + drop] by {}
        assert forall|i: int| 0 <= i < after.spares.len() implies !has_id(
            after.nodes,
            (#[trigger] after.spares[i]).id,
        ) by {
            assert(after.spares[i] == grown[i + drop]);
            if i + drop < kept.len() {
                assert(bucket.spares.contains(kept[i + drop]));
            }
        }
        assert forall|i: int, j: int| 0 <= i < j < after.spares.len() implies (
        #[trigger] after.spares[i]).id != (#[trigger] after.spares[j]).id by {
            assert(after.spares[i] == grown[i + drop]);
            assert(after.spares[j] == grown[j + drop]);
        }
    }
    distinct_in_both(after.nodes, after.spares);
}

/// Adding a peer with a new ID to peers without repeated IDs.
pub proof fn push_distinct(nodes: Seq<Node>, node: Node)
    requires
        distinct_ids(nodes),
        !has_id(nodes, node.id),
    ensures
        distinct_ids(nodes.push(node)),
{
    let grown = nodes.push(node);
    assert forall|i: int, j: int| 0 <= i < j < grown.len() implies (#[trigger] grown[i]).id != (
    #[trigger] grown[j]).id by {
        assert(grown[i] == nodes[i]);
        if j < nodes.len() {
            assert(grown[j] == nodes[j]);
        }
    }
}

/// Removing a peer keeps the bounds of a bucket.
pub proof fn without_node_keeps_wf(bucket: BucketModel, id: [u8; ID_LEN])
    requires
        bucket.wf(),
    ensures
        bucket.without_node(id).wf(),
        !has_id(bucket.without_node(id).nodes, id),
        !has_id(bucket.without_node(id).spares, id),
{
    let after = bucket.without_node(id);
    let nodes = without(bucket.nodes, id);
    let spares = without(bucket.spares, id);
    distinct_in_both(bucket.nodes, bucket.spares);
    if has_id(bucket.nodes, id) {
        let at = choose|i: int| 0 <= i < bucket.nodes.len() && (#[trigger] bucket.nodes[i]).id == id;
        without_one(bucket.nodes, at);
    } else {
        without_absent(bucket.nodes, id);
    }
    if has_id(bucket.spares, id) {
        let at = choose|i: int|
            0 <= i < bucket.spares.len() && (#[trigger] bucket.spares[i]).id == id;
        without_one(bucket.spares, at);
    } else {
        without_absent(bucket.spares, id);
    }
    filter_members(bucket.nodes, |n: Node| n.id != id);
    filter_members(bucket.spares, |n: Node| n.id != id);
    assert forall|i: int| 0 <= i < spares.len() implies !has_id(nodes, (#[trigger] spares[i]).id) by {
        let other = spares[i].id;
        assert(bucket.spares.contains(spares[i]));
        assert forall|k: int| 0 <= k < nodes.len() implies (#[trigger] nodes[k]).id != other by {
            assert(bucket.nodes.contains(nodes[k]));
        }
    }
    distinct_in_both(nodes, spares);
    if has_id(bucket.nodes, id) && spares.len() > 0 {
        push_distinct(nodes, spares.last());
        assert forall|i: int| 0 <= i < after.spares.len() implies !has_id(
            after.nodes,
            (#[trigger] after.spares[i]).id,
        ) by {
            assert(after.spares[i] == spares[i]);
            assert forall|k: int| 0 <= k < after.nodes.len() implies (#[trigger] after.nodes[k]).id
                != after.spares[i].id by {
                if k < nodes.len() {
                    assert(after.nodes[k] == nodes[k]);
                } else {
                    assert(spares[spares.len() - 1] == after.nodes[k]);
                }
            }
        }
        distinct_in_both(after.nodes, after.spares);
    }
}

} // verus!
