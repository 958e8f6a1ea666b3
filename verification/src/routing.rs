//! The routing table: k-buckets that partition the keyspace and split as they
//! fill up.
//!
//! A full bucket splits if it covers the local node or if its depth is not a
//! multiple of five; otherwise its least recently seen contact is handed to the
//! caller to ping.

use std::ops::RangeInclusive;

use vstd::prelude::*;

use crate::bucket::BucketModel;
pub use crate::bucket::KBucket;
use crate::bucket::now_secs;
use crate::bucket::read_off_clock;
use crate::bucket::push_distinct;
use crate::bucket::shared_bits;
use crate::bucket::SPARES_PER_CONTACT;
use crate::bucket::with_node_keeps_wf;
use crate::bucket::without;
use crate::bucket::without_node_keeps_wf;
use crate::node::Node;
use crate::node::same_id;
use crate::node::xor_distance;
use crate::ranking::arrange;
use crate::ranking::arranged;
use crate::ranking::at_most;
use crate::ranking::distinct_ids;
use crate::ranking::has_id;
use crate::ranking_laws::arranging_sorts_by_distance;
use crate::seqs::filter_members;
use crate::seqs::filter_step;
use crate::utils::ID_LEN;

verus! {

/// The buckets lie side by side and together cover `lo` to `hi`.
pub open spec fn chain(buckets: Seq<BucketModel>, lo: int, hi: int) -> bool {
    &&& buckets.len() > 0
    &&& buckets[0].lo == lo
    &&& buckets.last().hi == hi
    &&& forall|i: int| 0 <= i < buckets.len() ==> (#[trigger] buckets[i]).lo <= buckets[i].hi
    &&& forall|i: int|
        0 < i < buckets.len() ==> (#[trigger] buckets[i]).lo == buckets[i - 1].hi + 1
}

/// The bucket that covers the folded ID.
pub open spec fn index_for(buckets: Seq<BucketModel>, long_id: u128) -> int {
    choose|i: int| 0 <= i < buckets.len() && (#[trigger] buckets[i]).covers(long_id)
}

proof fn chain_is_increasing(buckets: Seq<BucketModel>, lo: int, hi: int, i: int, j: int)
    requires
        chain(buckets, lo, hi),
        0 <= i < j < buckets.len(),
    ensures
        buckets[i].hi < buckets[j].lo,
    decreases j - i,
{
    assert(buckets[j].lo == buckets[j - 1].hi + 1);
    if i < j - 1 {
        chain_is_increasing(buckets, lo, hi, i, j - 1);
        assert(buckets[j - 1].lo <= buckets[j - 1].hi);
    }
}

/// Buckets that lie side by side cover each folded ID of their range exactly
/// once.
pub proof fn covered_exactly_once(buckets: Seq<BucketModel>, lo: int, hi: int, long_id: u128)
    requires
        chain(buckets, lo, hi),
        lo <= long_id <= hi,
    ensures
        0 <= index_for(buckets, long_id) < buckets.len(),
        buckets[index_for(buckets, long_id)].covers(long_id),
        forall|i: int|
            0 <= i < buckets.len() && (#[trigger] buckets[i]).covers(long_id) ==> i == index_for(
                buckets,
                long_id,
            ),
{
    some_bucket_covers(buckets, lo, hi, long_id, buckets.len() - 1);
    let at = index_for(buckets, long_id);
    assert forall|i: int| 0 <= i < buckets.len() && (#[trigger] buckets[i]).covers(
        long_id,
    ) implies i == at by {
        if i < at {
            chain_is_increasing(buckets, lo, hi, i, at);
        } else if at < i {
            chain_is_increasing(buckets, lo, hi, at, i);
        }
    }
}

proof fn some_bucket_covers(
    buckets: Seq<BucketModel>,
    lo: int,
    hi: int,
    long_id: u128,
    upto: int,
)
    requires
        chain(buckets, lo, hi),
        0 <= upto < buckets.len(),
        lo <= long_id <= buckets[upto].hi,
    ensures
        exists|i: int| 0 <= i < buckets.len() && (#[trigger] buckets[i]).covers(long_id),
    decreases upto,
{
    if long_id >= buckets[upto].lo {
        assert(buckets[upto].covers(long_id));
    } else {
        assert(buckets[upto].lo == buckets[upto - 1].hi + 1);
        some_bucket_covers(buckets, lo, hi, long_id, upto - 1);
    }
}

proof fn chains_join(a: Seq<BucketModel>, b: Seq<BucketModel>, lo: int, mid: int, hi: int)
    requires
        chain(a, lo, mid),
        chain(b, mid + 1, hi),
    ensures
        chain(a + b, lo, hi),
{
    let both = a + b;
    assert forall|i: int| 0 <= i < both.len() implies (#[trigger] both[i]).lo <= both[i].hi by {
        if i < a.len() {
            assert(both[i] == a[i]);
        } else {
            assert(both[i] == b[i - a.len()]);
        }
    }
    assert forall|i: int| 0 < i < both.len() implies (#[trigger] both[i]).lo == both[i - 1].hi + 1 by {
        if i < a.len() {
            assert(both[i] == a[i] && both[i - 1] == a[i - 1]);
        } else if i > a.len() {
            assert(both[i] == b[i - a.len()] && both[i - 1] == b[i - a.len() - 1]);
        } else {
            assert(both[i] == b[0] && both[i - 1] == a.last());
        }
    }
}

/// The buckets that stand in place of `bucket` after the peer was seen at `now`
/// by a node with the folded ID `local`, and the contact to ping.
///
/// A bucket that does not accept the peer is split if it may be, and the half
/// that covers the peer takes it.  A bucket that may not be split hands out its
/// least recently seen contact.
pub open spec fn settle(bucket: BucketModel, local: u128, node: Node, now: u64) -> (
    Seq<BucketModel>,
    Option<Node>,
)
    decreases bucket.hi - bucket.lo,
{
    let seen = bucket.with_node(node);
    if bucket.accepts(node) {
        (seq![seen], None)
    } else if bucket.lo < bucket.hi && splits(seen, local) {
        if node.long_id <= seen.middle() {
            let (low, ping) = settle(seen.low_half(now), local, node, now);
            (low.push(seen.high_half(now)), ping)
        } else {
            let (high, ping) = settle(seen.high_half(now), local, node, now);
            (seq![seen.low_half(now)] + high, ping)
        }
    } else {
        (
            seq![seen],
            if seen.nodes.len() == 0 {
                None
            } else {
                Some(seen.nodes[0])
            },
        )
    }
}

/// A full bucket is split if it covers the local node or if its depth is not a
/// multiple of five.
pub open spec fn splits(bucket: BucketModel, local: u128) -> bool {
    bucket.covers(local) || shared_bits(bucket.nodes) % 5 != 0
}

/// The range is a block of the keyspace: all folded IDs with a given prefix.
pub open spec fn is_block(lo: u128, hi: u128) -> bool {
    let width = lo ^ hi;
    (width >> 1u128) & width == width >> 1u128 && lo & width == 0
}

/// The halves of a block are blocks.
pub proof fn halves_of_a_block(lo: u128, hi: u128)
    requires
        is_block(lo, hi),
        lo < hi,
    ensures
        ({
            let mid = (lo + (hi - lo) / 2) as u128;
            &&& is_block(lo, mid)
            &&& is_block((mid + 1) as u128, hi)
        }),
{
    let width: u128 = lo ^ hi;
    let half: u128 = width >> 1u128;
    let mid: u128 = lo | half;
    assert(hi == lo | width && (lo | width) as int == lo as int + width as int && width >= 1) by (bit_vector)
        requires
            width == lo ^ hi,
            (width >> 1u128) & width == width >> 1u128,
            lo & width == 0,
            lo < hi,
    ;
    assert(half as int == (hi - lo) / 2) by {
        assert(half == width / 2) by (bit_vector)
            requires
                half == width >> 1u128,
        ;
    }
    assert((lo | half) as int == lo as int + half as int) by (bit_vector)
        requires
            half == width >> 1u128,
            (width >> 1u128) & width == width >> 1u128,
            lo & width == 0,
    ;
    assert(mid == (lo + (hi - lo) / 2) as u128);
    assert(is_block(lo, mid)) by {
        assert(((lo ^ mid) >> 1u128) & (lo ^ mid) == (lo ^ mid) >> 1u128 && lo & (lo ^ mid) == 0)
            by (bit_vector)
            requires
                mid == lo | half,
                half == width >> 1u128,
                (width >> 1u128) & width == width >> 1u128,
                lo & width == 0,
        ;
    }
    let next: u128 = (mid + 1) as u128;
    assert(((next ^ hi) >> 1u128) & (next ^ hi) == (next ^ hi) >> 1u128 && next & (next ^ hi) == 0)
        by (bit_vector)
        requires
            next as int == mid as int + 1,
            hi == lo | width,
            mid == lo | half,
            half == width >> 1u128,
            (width >> 1u128) & width == width >> 1u128,
            lo & width == 0,
            width >= 1,
    ;
}

/// Seen from inside a block, whatever is in the block is nearer than what is
/// not.
pub proof fn inside_a_block_is_nearer(lo: u128, hi: u128, target: u128, inside: u128, outside: u128)
    requires
        is_block(lo, hi),
        lo <= target <= hi,
        lo <= inside <= hi,
        !(lo <= outside <= hi),
    ensures
        xor_distance(target, inside) < xor_distance(target, outside),
{
    let width: u128 = lo ^ hi;
    assert((target ^ inside) < (target ^ outside)) by (bit_vector)
        requires
            width == lo ^ hi,
            (width >> 1u128) & width == width >> 1u128,
            lo & width == 0,
            lo <= target,
            target <= hi,
            lo <= inside,
            inside <= hi,
            outside < lo || outside > hi,
    ;
}

/// The contacts and spares of the bucket.
pub open spec fn peers_of(bucket: BucketModel) -> Seq<Node> {
    bucket.nodes + bucket.spares
}

/// The bucket keeps its bounds, covers a block of the keyspace, holds only what
/// it covers, and does not hold the given ID.
pub open spec fn sound(bucket: BucketModel, ksize: nat, local: [u8; ID_LEN]) -> bool {
    &&& bucket.wf()
    &&& bucket.ksize == ksize
    &&& is_block(bucket.lo, bucket.hi)
    &&& forall|i: int|
        0 <= i < peers_of(bucket).len() ==> bucket.covers((#[trigger] peers_of(bucket)[i]).long_id)
            && peers_of(bucket)[i].id != local
}

/// What a routing table holds.
pub struct TableModel {
    /// The local node.
    pub local: Node,
    /// How many contacts a bucket may hold.
    pub ksize: nat,
    /// The buckets, lowest range first.
    pub buckets: Seq<BucketModel>,
}

impl TableModel {
    /// The buckets partition the keyspace, each is sound, and none holds the
    /// local node.
    #[verifier::opaque]
    pub open spec fn wf(&self) -> bool {
        &&& chain(self.buckets, 0, u128::MAX as int)
        &&& forall|i: int|
            0 <= i < self.buckets.len() ==> sound(
                #[trigger] self.buckets[i],
                self.ksize,
                self.local.id,
            )
    }

    /// The bucket that covers the folded ID.
    pub open spec fn home(&self, long_id: u128) -> int {
        index_for(self.buckets, long_id)
    }

    /// The peer is a contact.
    pub open spec fn knows(&self, node: Node) -> bool {
        has_id(self.buckets[self.home(node.long_id)].nodes, node.id)
    }

    /// The table with other buckets in place of one.
    pub open spec fn with_buckets(self, at: int, buckets: Seq<BucketModel>) -> TableModel {
        TableModel {
            buckets: self.buckets.take(at) + buckets + self.buckets.skip(at + 1),
            ..self
        }
    }

    /// The table after the peer was seen.
    pub open spec fn with_contact(self, node: Node, now: u64) -> TableModel {
        let at = self.home(node.long_id);
        if node.id == self.local.id {
            self
        } else {
            self.with_buckets(at, settle(self.buckets[at], self.local.long_id, node, now).0)
        }
    }

    /// The contact to ping after the peer was seen.
    pub open spec fn to_ping(self, node: Node, now: u64) -> Option<Node> {
        if node.id == self.local.id {
            None
        } else {
            settle(self.buckets[self.home(node.long_id)], self.local.long_id, node, now).1
        }
    }

    /// The table without the peer.
    pub open spec fn without_contact(self, node: Node) -> TableModel {
        let at = self.home(node.long_id);
        self.with_buckets(at, seq![self.buckets[at].without_node(node.id)])
    }

    /// The table after a lookup of the folded ID.
    pub open spec fn looked_up(self, long_id: u128, now: u64) -> TableModel {
        let at = self.home(long_id);
        self.with_buckets(at, seq![BucketModel { updated: now, ..self.buckets[at] }])
    }
}

proof fn filled_is_sound(
    lo: u128,
    hi: u128,
    now: u64,
    whole: BucketModel,
    local: [u8; ID_LEN],
    belongs: spec_fn(Node) -> bool,
)
    requires
        sound(whole, whole.ksize, local),
        is_block(lo, hi),
        forall|n: Node| #[trigger] belongs(n) && whole.covers(n.long_id) ==> lo <= n.long_id <= hi,
    ensures
        ({
            let side = peers_of(whole).filter(belongs);
            let part = BucketModel::filled(lo, hi, whole.ksize, now, side);
            &&& sound(part, whole.ksize, local)
            &&& peers_of(part) == side
        }),
{
    let all = peers_of(whole);
    let side = all.filter(belongs);
    let part = BucketModel::filled(lo, hi, whole.ksize, now, side);
    filter_members(all, belongs);
    filter_distinct(all, belongs);
    assert(part.nodes + part.spares =~= side);
    assert forall|i: int| 0 <= i < side.len() implies part.covers((#[trigger] side[i]).long_id)
        && side[i].id != local by {
        assert(all.contains(side[i]));
        let j = choose|j: int| 0 <= j < all.len() && all[j] == side[i];
        assert(whole.covers(all[j].long_id));
        assert(belongs(side[i]));
    }
}

proof fn filter_distinct(nodes: Seq<Node>, keep: spec_fn(Node) -> bool)
    requires
        distinct_ids(nodes),
    ensures
        distinct_ids(nodes.filter(keep)),
    decreases nodes.len(),
{
    reveal(Seq::filter);
    if nodes.len() > 0 {
        let front = nodes.drop_last();
        assert forall|i: int, j: int| 0 <= i < j < front.len() implies (#[trigger] front[i]).id != (
        #[trigger] front[j]).id by {
            assert(front[i] == nodes[i] && front[j] == nodes[j]);
        }
        filter_distinct(front, keep);
        let kept = front.filter(keep);
        filter_members(front, keep);
        if keep(nodes.last()) {
            assert forall|i: int| 0 <= i < kept.len() implies (#[trigger] kept[i]).id
                != nodes.last().id by {
                assert(front.contains(kept[i]));
                let j = choose|j: int| 0 <= j < front.len() && front[j] == kept[i];
                assert(nodes[j] == kept[i]);
                assert(nodes[nodes.len() - 1] == nodes.last());
            }
            push_distinct(kept, nodes.last());
        }
    }
}

/// The halves of a sound bucket are sound, lie side by side, and hold between
/// them what it held.
pub proof fn halves_are_sound(bucket: BucketModel, local: [u8; ID_LEN], now: u64)
    requires
        sound(bucket, bucket.ksize, local),
        bucket.lo < bucket.hi,
    ensures
        bucket.lo <= bucket.middle() < bucket.hi,
        sound(bucket.low_half(now), bucket.ksize, local),
        sound(bucket.high_half(now), bucket.ksize, local),
        peers_of(bucket.low_half(now)) == bucket.low_side(),
        peers_of(bucket.high_half(now)) == bucket.high_side(),
{
    let low = |n: Node| n.long_id <= bucket.middle();
    let high = |n: Node| !(n.long_id <= bucket.middle());
    halves_of_a_block(bucket.lo, bucket.hi);
    filled_is_sound(bucket.lo, bucket.middle(), now, bucket, local, low);
    filled_is_sound((bucket.middle() + 1) as u128, bucket.hi, now, bucket, local, high);
}

/// Seeing a peer that a sound bucket covers leaves it sound.
pub proof fn with_node_is_sound(bucket: BucketModel, local: [u8; ID_LEN], node: Node)
    requires
        sound(bucket, bucket.ksize, local),
        bucket.covers(node.long_id),
        node.id != local,
    ensures
        sound(bucket.with_node(node), bucket.ksize, local),
{
    let after = bucket.with_node(node);
    with_node_keeps_wf(bucket, node);
    filter_members(bucket.nodes, |n: Node| n.id != node.id);
    filter_members(bucket.spares, |n: Node| n.id != node.id);
    assert forall|i: int| 0 <= i < bucket.nodes.len() implies #[trigger] bucket.nodes[i]
        == peers_of(bucket)[i] by {}
    assert forall|i: int| 0 <= i < bucket.spares.len() implies #[trigger] bucket.spares[i]
        == peers_of(bucket)[bucket.nodes.len() + i] by {}
    assert forall|i: int| 0 <= i < peers_of(after).len() implies after.covers(
        (#[trigger] peers_of(after)[i]).long_id,
    ) && peers_of(after)[i].id != local by {
        let peer = peers_of(after)[i];
        if i < after.nodes.len() {
            assert(peer == after.nodes[i]);
            if peer != node {
                assert(bucket.nodes.contains(peer)) by {
                    if bucket.accepts(node) {
                        assert(without(bucket.nodes, node.id)[i] == peer);
                    }
                }
            }
        } else {
            let k = i - after.nodes.len();
            assert(peer == after.spares[k]);
            if peer != node {
                assert(bucket.spares.contains(peer)) by {
                    if !bucket.accepts(node) {
                        let kept = without(bucket.spares, node.id);
                        let grown = kept.push(node);
                        let drop = grown.len() - after.spares.len();
                        assert(after.spares[k] == grown[k + drop]);
                        assert(kept[k + drop] == peer);
                    }
                }
            }
        }
    }
}

/// Removing a peer from a sound bucket leaves it sound.
pub proof fn without_node_is_sound(bucket: BucketModel, local: [u8; ID_LEN], id: [u8; ID_LEN])
    requires
        sound(bucket, bucket.ksize, local),
    ensures
        sound(bucket.without_node(id), bucket.ksize, local),
{
    let after = bucket.without_node(id);
    without_node_keeps_wf(bucket, id);
    filter_members(bucket.nodes, |n: Node| n.id != id);
    filter_members(bucket.spares, |n: Node| n.id != id);
    let nodes = without(bucket.nodes, id);
    let spares = without(bucket.spares, id);
    assert forall|i: int| 0 <= i < bucket.nodes.len() implies #[trigger] bucket.nodes[i]
        == peers_of(bucket)[i] by {}
    assert forall|i: int| 0 <= i < bucket.spares.len() implies #[trigger] bucket.spares[i]
        == peers_of(bucket)[bucket.nodes.len() + i] by {}
    assert forall|i: int| 0 <= i < peers_of(after).len() implies after.covers(
        (#[trigger] peers_of(after)[i]).long_id,
    ) && peers_of(after)[i].id != local by {
        let peer = peers_of(after)[i];
        if i < nodes.len() {
            assert(peer == nodes[i]);
            assert(bucket.nodes.contains(peer));
        } else if i < after.nodes.len() {
            assert(peer == spares[spares.len() - 1]);
            assert(bucket.spares.contains(peer));
        } else {
            assert(peer == spares[i - after.nodes.len()]);
            assert(bucket.spares.contains(peer));
        }
    }
}

/// The buckets that stand in place of a sound bucket are sound and cover its
/// range.
pub proof fn settled_is_sound(
    bucket: BucketModel,
    local: [u8; ID_LEN],
    local_long: u128,
    node: Node,
    now: u64,
)
    requires
        sound(bucket, bucket.ksize, local),
        bucket.lo <= bucket.hi,
        bucket.covers(node.long_id),
        node.id != local,
    ensures
        ({
            let after = settle(bucket, local_long, node, now).0;
            &&& chain(after, bucket.lo as int, bucket.hi as int)
            &&& forall|i: int|
                0 <= i < after.len() ==> sound(#[trigger] after[i], bucket.ksize, local)
        }),
    decreases bucket.hi - bucket.lo,
{
    let seen = bucket.with_node(node);
    with_node_is_sound(bucket, local, node);
    if !bucket.accepts(node) && bucket.lo < bucket.hi && splits(seen, local_long) {
        halves_are_sound(seen, local, now);
        let low = seen.low_half(now);
        let high = seen.high_half(now);
        let after = settle(bucket, local_long, node, now).0;
        if node.long_id <= seen.middle() {
            settled_is_sound(low, local, local_long, node, now);
            let inner = settle(low, local_long, node, now).0;
            chains_join(
                inner,
                seq![high],
                seen.lo as int,
                seen.middle() as int,
                seen.hi as int,
            );
            assert(after =~= inner + seq![high]);
        } else {
            settled_is_sound(high, local, local_long, node, now);
            let inner = settle(high, local_long, node, now).0;
            chains_join(seq![low], inner, seen.lo as int, seen.middle() as int, seen.hi as int);
        }
    }
}

/// Buckets that cover the range of one bucket can stand in its place.
#[verifier::rlimit(40)]
proof fn replaced_is_wf(table: TableModel, at: int, buckets: Seq<BucketModel>)
    requires
        table.wf(),
        0 <= at < table.buckets.len(),
        chain(buckets, table.buckets[at].lo as int, table.buckets[at].hi as int),
        forall|i: int|
            0 <= i < buckets.len() ==> sound(#[trigger] buckets[i], table.ksize, table.local.id),
    ensures
        table.with_buckets(at, buckets).wf(),
{
    reveal(TableModel::wf);
    let left = table.buckets.take(at);
    let right = table.buckets.skip(at + 1);
    let lo = table.buckets[at].lo as int;
    let hi = table.buckets[at].hi as int;
    let after = table.with_buckets(at, buckets);
    if at > 0 {
        assert(table.buckets[at].lo == table.buckets[at - 1].hi + 1);
        assert(chain(left, 0, lo - 1)) by {
            assert forall|i: int| 0 < i < left.len() implies (#[trigger] left[i]).lo == left[i
                - 1].hi + 1 by {
                assert(left[i] == table.buckets[i] && left[i - 1] == table.buckets[i - 1]);
            }
        }
        chains_join(left, buckets, 0, lo - 1, hi);
    } else {
        assert(left + buckets =~= buckets);
    }
    if at + 1 < table.buckets.len() {
        assert(table.buckets[at + 1].lo == table.buckets[at].hi + 1);
        assert(chain(right, hi + 1, u128::MAX as int)) by {
            assert forall|i: int| 0 < i < right.len() implies (#[trigger] right[i]).lo == right[i
                - 1].hi + 1 by {
                assert(right[i] == table.buckets[at + 1 + i]);
                assert(right[i - 1] == table.buckets[at + i]);
            }
        }
        chains_join(left + buckets, right, 0, hi, u128::MAX as int);
    } else {
        assert(left + buckets + right =~= left + buckets);
    }
    assert forall|i: int| 0 <= i < after.buckets.len() implies sound(
        #[trigger] after.buckets[i],
        table.ksize,
        table.local.id,
    ) by {
        if i < at {
            assert(after.buckets[i] == table.buckets[i]);
        } else if i < at + buckets.len() {
            assert(after.buckets[i] == buckets[i - at]);
        } else {
            assert(after.buckets[i] == table.buckets[i - buckets.len() + 1]);
        }
    }
}

/// Seeing a peer keeps the table a partition of the keyspace without the local
/// node in it.
pub proof fn with_contact_keeps_wf(table: TableModel, node: Node, now: u64)
    requires
        table.wf(),
    ensures
        table.with_contact(node, now).wf(),
{
    reveal(TableModel::wf);
    if node.id != table.local.id {
        covered_exactly_once(table.buckets, 0, u128::MAX as int, node.long_id);
        let at = table.home(node.long_id);
        let bucket = table.buckets[at];
        settled_is_sound(bucket, table.local.id, table.local.long_id, node, now);
        replaced_is_wf(table, at, settle(bucket, table.local.long_id, node, now).0);
    }
}

/// Removing a peer keeps the table a partition of the keyspace.
pub proof fn without_contact_keeps_wf(table: TableModel, node: Node)
    requires
        table.wf(),
    ensures
        table.without_contact(node).wf(),
{
    reveal(TableModel::wf);
    covered_exactly_once(table.buckets, 0, u128::MAX as int, node.long_id);
    let at = table.home(node.long_id);
    without_node_is_sound(table.buckets[at], table.local.id, node.id);
    replaced_is_wf(table, at, seq![table.buckets[at].without_node(node.id)]);
}

/// A lookup keeps the table a partition of the keyspace.
pub proof fn looked_up_keeps_wf(table: TableModel, long_id: u128, now: u64)
    requires
        table.wf(),
    ensures
        table.looked_up(long_id, now).wf(),
{
    reveal(TableModel::wf);
    covered_exactly_once(table.buckets, 0, u128::MAX as int, long_id);
    let at = table.home(long_id);
    let touched = BucketModel { updated: now, ..table.buckets[at] };
    assert(peers_of(touched) == peers_of(table.buckets[at]));
    replaced_is_wf(table, at, seq![touched]);
}

/// The contacts of the buckets beside a central one in the order in which a
/// lookup visits them: by turns the next bucket to the left and the next to the
/// right, and what is left of one side once the other is used up.  Of each
/// bucket, the most recently seen contact comes first.
///
/// The next bucket to the left is `left - 1`, the next to the right is `right`.
pub open spec fn beside(
    buckets: Seq<BucketModel>,
    left: int,
    right: int,
    take_left: bool,
) -> Seq<Node>
    decreases left + (buckets.len() - right),
{
    if !(0 <= left && right <= buckets.len()) {
        Seq::empty()
    } else if take_left && left > 0 {
        buckets[left - 1].nodes.reverse() + beside(buckets, left - 1, right, false)
    } else if right < buckets.len() {
        buckets[right].nodes.reverse() + beside(buckets, left, right + 1, true)
    } else if left > 0 {
        buckets[left - 1].nodes.reverse() + beside(buckets, left - 1, right, take_left)
    } else {
        Seq::empty()
    }
}

/// The contacts in the order in which a lookup visits them, starting from the
/// bucket at `center`.
pub open spec fn outward(buckets: Seq<BucketModel>, center: int) -> Seq<Node> {
    buckets[center].nodes.reverse() + beside(buckets, center, center + 1, true)
}

/// Walks the contacts outward from the bucket that covers a target.
pub struct TableTraverser<'a> {
    buckets: &'a Vec<KBucket>,
    /// The bucket whose contacts are being handed out.
    current: usize,
    /// How many contacts of it are left.
    count: usize,
    /// The next bucket to the left is the one below this.
    left: usize,
    /// The next bucket to the right.
    right: usize,
    take_left: bool,
}

/// What the buckets hold.
pub open spec fn bucket_models(buckets: Seq<KBucket>) -> Seq<BucketModel> {
    buckets.map_values(|b: KBucket| b@)
}

impl<'a> TableTraverser<'a> {
    /// The walk is somewhere among its buckets.
    pub closed spec fn wf(&self) -> bool {
        &&& self.current < self.buckets@.len()
        &&& self.count <= self.buckets@[self.current as int].nodes@.len()
        &&& self.left <= self.right <= self.buckets@.len()
    }

    /// The contacts still to come.
    pub closed spec fn coming(&self) -> Seq<Node> {
        self.buckets@[self.current as int].nodes@.take(self.count as int).reverse() + beside(
            bucket_models(self.buckets@),
            self.left as int,
            self.right as int,
            self.take_left,
        )
    }

    /// A step of the walk led to `after` and handed out `next`: the first of the
    /// contacts still to come, or nothing once there are none.
    pub open spec fn steps_to(&self, after: &Self, next: Option<Node>) -> bool {
        match next {
            Some(node) => self.coming().len() > 0 && node == self.coming()[0] && after.coming()
                == self.coming().drop_first(),
            None => self.coming().len() == 0 && after.coming() == self.coming(),
        }
    }

    /// A walk that starts from the bucket at `center`.
    pub fn new(buckets: &'a Vec<KBucket>, center: usize) -> (walk: Self)
        requires
            center < buckets@.len(),
        ensures
            walk.wf(),
            walk.coming() == outward(bucket_models(buckets@), center as int),
    {
        let total: usize = buckets.len();
        let count: usize = buckets[center].nodes.len();
        assert(center < total);
        assert(buckets@[center as int].nodes@.take(count as int)
            =~= buckets@[center as int].nodes@);
        Self { buckets, current: center, count, left: center, right: center + 1, take_left: true }
    }

    /// The next contact.
    pub fn next(&mut self) -> (next: Option<Node>)
        requires
            old(self).wf(),
        ensures
            final(self).wf(),
            old(self).steps_to(final(self), next),
    {
        let ghost models = bucket_models(self.buckets@);
        while self.count == 0
            invariant
                self.wf(),
                models == bucket_models(self.buckets@),
                self.coming() == old(self).coming(),
            decreases self.left + (self.buckets@.len() - self.right), self.count,
        {
            assert(self.buckets@[self.current as int].nodes@.take(0).reverse() =~= Seq::empty());
            let ghost before = self.coming();
            assert(before =~= beside(models, self.left as int, self.right as int, self.take_left));
            if self.take_left && self.left > 0 {
                self.left = self.left - 1;
                self.current = self.left;
                self.take_left = false;
            } else if self.right < self.buckets.len() {
                self.current = self.right;
                self.right = self.right + 1;
                self.take_left = true;
            } else if self.left > 0 {
                self.left = self.left - 1;
                self.current = self.left;
            } else {
                return None;
            }
            self.count = self.buckets[self.current].nodes.len();
            assert(self.buckets@[self.current as int].nodes@.take(self.count as int)
                =~= self.buckets@[self.current as int].nodes@);
        }
        let ghost nodes = self.buckets@[self.current as int].nodes@;
        let ghost before = self.coming();
        self.count = self.count - 1;
        let node: Node = self.buckets[self.current].nodes[self.count].clone();
        assert(nodes.take(self.count + 1).reverse()[0] == node);
        assert(self.coming() =~= before.drop_first());
        Some(node)
    }
}

impl TableModel {
    /// The table after the peer was seen by its bucket and the bucket was split.
    pub open spec fn split_for(self, node: Node, now: u64) -> TableModel {
        let at = self.home(node.long_id);
        let seen = self.buckets[at].with_node(node);
        self.with_buckets(at, seq![seen.low_half(now), seen.high_half(now)])
    }
}

/// Replacing the first of two buckets that were put in place of one.
proof fn replace_first(
    table: TableModel,
    at: int,
    low: BucketModel,
    high: BucketModel,
    inner: Seq<BucketModel>,
)
    requires
        0 <= at < table.buckets.len(),
    ensures
        table.with_buckets(at, seq![low, high]).with_buckets(at, inner) == table.with_buckets(
            at,
            inner.push(high),
        ),
{
    let pair = table.with_buckets(at, seq![low, high]);
    assert(pair.buckets.take(at) =~= table.buckets.take(at));
    assert(pair.buckets.skip(at + 1) =~= seq![high] + table.buckets.skip(at + 1));
    assert(pair.with_buckets(at, inner).buckets =~= table.with_buckets(
        at,
        inner.push(high),
    ).buckets);
}

/// Replacing the second of two buckets that were put in place of one.
proof fn replace_second(
    table: TableModel,
    at: int,
    low: BucketModel,
    high: BucketModel,
    inner: Seq<BucketModel>,
)
    requires
        0 <= at < table.buckets.len(),
    ensures
        table.with_buckets(at, seq![low, high]).with_buckets(at + 1, inner) == table.with_buckets(
            at,
            seq![low] + inner,
        ),
{
    let pair = table.with_buckets(at, seq![low, high]);
    assert(pair.buckets.take(at + 1) =~= table.buckets.take(at).push(low));
    assert(pair.buckets.skip(at + 2) =~= table.buckets.skip(at + 1));
    assert(pair.with_buckets(at + 1, inner).buckets =~= table.with_buckets(
        at,
        seq![low] + inner,
    ).buckets);
}

/// Replacing a bucket that was put in place of another.
proof fn replace_again(
    table: TableModel,
    at: int,
    bucket: BucketModel,
    inner: Seq<BucketModel>,
)
    requires
        0 <= at < table.buckets.len(),
    ensures
        table.with_buckets(at, seq![bucket]).with_buckets(at, inner) == table.with_buckets(
            at,
            inner,
        ),
{
    let one = table.with_buckets(at, seq![bucket]);
    assert(one.buckets.take(at) =~= table.buckets.take(at));
    assert(one.buckets.skip(at + 1) =~= table.buckets.skip(at + 1));
}

/// The halves of a bucket after it has seen a peer are sound and lie side by side.
proof fn seen_halves_chain(
    bucket: BucketModel,
    local: [u8; ID_LEN],
    node: Node,
    now: u64,
)
    requires
        sound(bucket, bucket.ksize, local),
        bucket.lo < bucket.hi,
        bucket.covers(node.long_id),
        node.id != local,
    ensures
        ({
            let seen = bucket.with_node(node);
            let halves = seq![seen.low_half(now), seen.high_half(now)];
            &&& chain(halves, bucket.lo as int, bucket.hi as int)
            &&& forall|i: int| 0 <= i < halves.len() ==> sound(
                #[trigger] halves[i],
                bucket.ksize,
                local,
            )
            &&& bucket.lo <= seen.middle() < bucket.hi
        }),
{
    let seen = bucket.with_node(node);
    let low = seen.low_half(now);
    let high = seen.high_half(now);
    with_node_is_sound(bucket, local, node);
    halves_are_sound(seen, local, now);
    let halves = seq![low, high];
    assert forall|i: int| 0 <= i < halves.len() implies (#[trigger] halves[i]).lo
        <= halves[i].hi by {
        assert(halves[i] == low || halves[i] == high);
    }
    assert forall|i: int| 0 < i < halves.len() implies (#[trigger] halves[i]).lo == halves[i - 1].hi
        + 1 by {
        assert(halves[i] == high && halves[i - 1] == low);
    }
    assert forall|i: int| 0 <= i < halves.len() implies sound(
        #[trigger] halves[i],
        bucket.ksize,
        local,
    ) by {
        assert(halves[i] == low || halves[i] == high);
    }
}

/// A table in which a bucket was split for a peer is still a partition of the
/// keyspace.
#[verifier::rlimit(40)]
proof fn split_is_wf(table: TableModel, node: Node, now: u64)
    requires
        table.wf(),
        node.id != table.local.id,
        table.buckets[table.home(node.long_id)].lo < table.buckets[table.home(node.long_id)].hi,
    ensures
        table.split_for(node, now).wf(),
{
    let at = table.home(node.long_id);
    let bucket = table.buckets[at];
    assert(0 <= at < table.buckets.len() && bucket.covers(node.long_id) && sound(
        bucket,
        table.ksize,
        table.local.id,
    )) by {
        reveal(TableModel::wf);
        covered_exactly_once(table.buckets, 0, u128::MAX as int, node.long_id);
    }
    seen_halves_chain(bucket, table.local.id, node, now);
    let seen = bucket.with_node(node);
    replaced_is_wf(table, at, seq![seen.low_half(now), seen.high_half(now)]);
}

/// In a table in which a bucket was split for a peer, one of the halves covers the
/// peer.
#[verifier::rlimit(40)]
proof fn split_keeps_wf(table: TableModel, node: Node, now: u64)
    requires
        table.wf(),
        node.id != table.local.id,
        table.buckets[table.home(node.long_id)].lo < table.buckets[table.home(node.long_id)].hi,
    ensures
        table.split_for(node, now).wf(),
        ({
            let at = table.home(node.long_id);
            let seen = table.buckets[at].with_node(node);
            let split = table.split_for(node, now);
            let half = split.buckets[split.home(node.long_id)];
            &&& 0 <= at < table.buckets.len()
            &&& split.home(node.long_id) == if node.long_id <= seen.middle() {
                at
            } else {
                at + 1
            }
            &&& half == if node.long_id <= seen.middle() {
                seen.low_half(now)
            } else {
                seen.high_half(now)
            }
            &&& 0 <= half.hi - half.lo < seen.hi - seen.lo
        }),
{
    let at = table.home(node.long_id);
    let bucket = table.buckets[at];
    let seen = bucket.with_node(node);
    let split = table.split_for(node, now);
    let low = seen.low_half(now);
    let high = seen.high_half(now);
    split_is_wf(table, node, now);
    assert(0 <= at < table.buckets.len() && bucket.covers(node.long_id)) by {
        reveal(TableModel::wf);
        covered_exactly_once(table.buckets, 0, u128::MAX as int, node.long_id);
    }
    let half = if node.long_id <= seen.middle() {
        at
    } else {
        at + 1
    };
    assert(split.buckets[at] == low);
    assert(split.buckets[at + 1] == high);
    assert(split.buckets.len() == table.buckets.len() + 1);
    assert(split.buckets[half].covers(node.long_id));
    assert(split.home(node.long_id) == half) by {
        reveal(TableModel::wf);
        covered_exactly_once(split.buckets, 0, u128::MAX as int, node.long_id);
    }
}

impl TableModel {
    /// The table after lookups at `now` touched the given buckets.
    pub open spec fn touched(self, hit: spec_fn(int) -> bool, now: u64) -> TableModel {
        TableModel {
            buckets: Seq::new(
                self.buckets.len(),
                |i: int|
                    if hit(i) {
                        BucketModel { updated: now, ..self.buckets[i] }
                    } else {
                        self.buckets[i]
                    },
            ),
            ..self
        }
    }
}

/// Where a bucket does not accept a peer and may be split, seeing the peer comes
/// to the same as splitting the bucket and then seeing the peer.
proof fn splitting_settles_alike(table: TableModel, node: Node, now: u64)
    requires
        table.wf(),
        node.id != table.local.id,
        ({
            let bucket = table.buckets[table.home(node.long_id)];
            &&& !bucket.accepts(node)
            &&& bucket.lo < bucket.hi
            &&& splits(bucket.with_node(node), table.local.long_id)
        }),
    ensures
        table.split_for(node, now).with_contact(node, now) == table.with_contact(node, now),
        table.split_for(node, now).to_ping(node, now) == table.to_ping(node, now),
{
    split_keeps_wf(table, node, now);
    let at = table.home(node.long_id);
    let bucket = table.buckets[at];
    let seen = bucket.with_node(node);
    let local = table.local.long_id;
    if node.long_id <= seen.middle() {
        let inner = settle(seen.low_half(now), local, node, now);
        replace_first(table, at, seen.low_half(now), seen.high_half(now), inner.0);
        assert(settle(bucket, local, node, now) == (inner.0.push(seen.high_half(now)), inner.1));
    } else {
        let inner = settle(seen.high_half(now), local, node, now);
        replace_second(table, at, seen.low_half(now), seen.high_half(now), inner.0);
        assert(settle(bucket, local, node, now) == (seq![seen.low_half(now)] + inner.0, inner.1));
    }
}

/// Whether a lookup of `target` may name the peer: it is neither the target nor
/// the excluded peer.
pub open spec fn eligible(target: Node, exclude: Option<Node>) -> spec_fn(Node) -> bool {
    |n: Node|
        n.id != target.id && match exclude {
            Some(other) => n.id != other.id,
            None => true,
        }
}

impl TableModel {
    /// The first `k` contacts that a lookup of `target` visits and may name.
    pub open spec fn candidates(&self, target: Node, exclude: Option<Node>) -> Seq<Node> {
        at_most(
            outward(self.buckets, self.home(target.long_id)).filter(eligible(target, exclude)),
            self.ksize,
        )
    }

    /// The answer to a lookup of `target`: the candidates, nearest first.
    pub open spec fn neighbors(&self, target: Node, exclude: Option<Node>) -> Seq<Node> {
        arranged(target.long_id, self.candidates(target, exclude))
    }
}

/// Buckets that together partition the keyspace.
pub struct RoutingTable {
    /// The local node.
    pub node: Node,
    /// How many contacts a bucket may hold.
    pub ksize: usize,
    /// The buckets, lowest range first.
    pub buckets: Vec<KBucket>,
}

impl View for RoutingTable {
    type V = TableModel;

    open spec fn view(&self) -> TableModel {
        TableModel {
            local: self.node,
            ksize: self.ksize as nat,
            buckets: bucket_models(self.buckets@),
        }
    }
}

impl RoutingTable {
    /// The buckets partition the keyspace, keep their bounds, and do not hold
    /// the local node.
    pub open spec fn wf(&self) -> bool {
        &&& self@.wf()
        &&& self.buckets_wf()
    }

    /// An empty table, one bucket wide, made at `now`.
    pub fn new_at(node: Node, ksize: usize, now: u64) -> (table: Self)
        requires
            ksize * SPARES_PER_CONTACT <= usize::MAX,
        ensures
            table.wf(),
            table@ == (TableModel {
                local: node,
                ksize: ksize as nat,
                buckets: seq![
                    BucketModel::filled(0, u128::MAX, ksize as nat, now, Seq::empty()),
                ],
            }),
    {
        assert(is_block(0, u128::MAX)) by {
            assert(((0u128 ^ u128::MAX) >> 1u128) & (0u128 ^ u128::MAX) == (0u128 ^ u128::MAX)
                >> 1u128 && 0u128 & (0u128 ^ u128::MAX) == 0) by (bit_vector);
        }
        let bucket: KBucket = KBucket::new_at(RangeInclusive::new(0, u128::MAX), ksize, now);
        let mut buckets: Vec<KBucket> = Vec::new();
        buckets.push(bucket);
        let table: RoutingTable = Self { node, ksize, buckets };
        proof {
            reveal(TableModel::wf);
        }
        assert(table@.buckets =~= seq![
            BucketModel::filled(0, u128::MAX, ksize as nat, now, Seq::empty()),
        ]);
        table
    }

    /// An empty table, one bucket wide.
    pub fn new(node: Node, ksize: usize) -> (table: Self)
        requires
            ksize * SPARES_PER_CONTACT <= usize::MAX,
        ensures
            table.wf(),
            exists|now: u64|
                read_off_clock(now) && table@ == (TableModel {
                    local: node,
                    ksize: ksize as nat,
                    buckets: seq![
                        #[trigger] BucketModel::filled(
                            0,
                            u128::MAX,
                            ksize as nat,
                            now,
                            Seq::empty(),
                        ),
                    ],
                }),
    {
        let now: u64 = now_secs();
        Self::new_at(node, ksize, now)
    }

    /// Takes note that the peer was seen at `now`.  The local node is ignored.
    /// Returns the contact to ping where the peer's bucket is full and may not
    /// be split.
    pub fn add_contact_at(&mut self, node: Node, now: u64) -> (ping: Option<Node>)
        requires
            old(self).wf(),
        ensures
            final(self).wf(),
            final(self)@ == old(self)@.with_contact(node, now),
            ping == old(self)@.to_ping(node, now),
    {
        if same_id(&node.id, &self.node.id) {
            return None;
        }
        self.insert(node, now)
    }

    /// Takes note that the peer was seen.  Returns the contact to ping where the
    /// peer's bucket is full and may not be split; a contact that does not
    /// answer is to be removed by `remove_contact`.
    pub fn add_contact(&mut self, node: Node) -> (ping: Option<Node>)
        requires
            old(self).wf(),
        ensures
            final(self).wf(),
            exists|now: u64|
                read_off_clock(now) && final(self)@ == #[trigger] old(self)@.with_contact(node, now)
                    && ping == old(self)@.to_ping(node, now),
    {
        let now: u64 = now_secs();
        self.add_contact_at(node, now)
    }

    #[verifier::rlimit(40)]
    fn insert(&mut self, node: Node, now: u64) -> (ping: Option<Node>)
        requires
            old(self).wf(),
            node.id != old(self).node.id,
        ensures
            final(self).wf(),
            final(self)@ == old(self)@.with_contact(node, now),
            ping == old(self)@.to_ping(node, now),
        decreases
            old(self)@.buckets[old(self)@.home(node.long_id)].hi
                - old(self)@.buckets[old(self)@.home(node.long_id)].lo,
    {
        let ghost table = self@;
        let idx: usize = self.bucket_index_for(node.long_id);
        let ghost bucket = table.buckets[idx as int];
        proof {
            with_contact_keeps_wf(table, node, now);
        }
        let accepted: bool = self.see_at(idx, node.clone());
        if accepted {
            return None;
        }
        if self.may_split(idx) {
            self.split_bucket(idx, now);
            proof {
                splitting_settles_alike(table, node, now);
                split_keeps_wf(table, node, now);
                replace_again(
                    table,
                    idx as int,
                    bucket.with_node(node),
                    seq![
                        bucket.with_node(node).low_half(now),
                        bucket.with_node(node).high_half(now),
                    ],
                );
            }
            return self.insert(node, now);
        }
        match self.buckets[idx].head() {
            Some(head) => Some(head.clone()),
            None => None,
        }
    }

    /// Every bucket keeps its bounds.
    pub open spec fn buckets_wf(&self) -> bool {
        &&& forall|i: int| 0 <= i < self.buckets@.len() ==> (#[trigger] self.buckets@[i]).wf()
        &&& self.ksize * SPARES_PER_CONTACT <= usize::MAX
    }

    /// Shows the peer to the bucket at `idx`.
    fn see_at(&mut self, idx: usize, node: Node) -> (accepted: bool)
        requires
            old(self).buckets_wf(),
            idx < old(self).buckets@.len(),
        ensures
            final(self).buckets_wf(),
            accepted == old(self)@.buckets[idx as int].accepts(node),
            final(self)@ == old(self)@.with_buckets(
                idx as int,
                seq![old(self)@.buckets[idx as int].with_node(node)],
            ),
            final(self)@.buckets[idx as int] == old(self)@.buckets[idx as int].with_node(node),
            final(self).buckets@.len() == old(self).buckets@.len(),
    {
        assert(self.buckets@[idx as int]@ == self@.buckets[idx as int]);
        let accepted: bool = self.buckets[idx].add_node(node);
        assert(self@.buckets =~= old(self)@.with_buckets(
            idx as int,
            seq![old(self)@.buckets[idx as int].with_node(node)],
        ).buckets);
        accepted
    }

    /// Whether the bucket at `idx` may be split.
    fn may_split(&self, idx: usize) -> (may: bool)
        requires
            self.buckets_wf(),
            idx < self.buckets@.len(),
        ensures
            may == ({
                let bucket = self@.buckets[idx as int];
                bucket.lo < bucket.hi && splits(bucket, self@.local.long_id)
            }),
    {
        assert(self.buckets@[idx as int]@ == self@.buckets[idx as int]);
        let bucket: &KBucket = &self.buckets[idx];
        let lo: u128 = *bucket.range.start();
        let hi: u128 = *bucket.range.end();
        lo < hi && (bucket.covers(self.node.long_id) || !bucket.depth().is_multiple_of(5))
    }

    /// Removes the peer.  Where it was a contact, the newest spare of its bucket
    /// is promoted.
    pub fn remove_contact(&mut self, node: &Node)
        requires
            old(self).wf(),
        ensures
            final(self).wf(),
            final(self)@ == old(self)@.without_contact(*node),
    {
        let ghost table = self@;
        let idx: usize = self.bucket_index_for(node.long_id);
        proof {
            without_contact_keeps_wf(table, *node);
            assert(self.buckets@[idx as int]@ == table.buckets[idx as int]);
        }
        self.buckets[idx].remove_node(node);
        assert(self@.buckets =~= table.without_contact(*node).buckets);
    }

    /// Whether the peer is not a contact.
    pub fn is_new_node(&self, node: &Node) -> (new: bool)
        requires
            self.wf(),
        ensures
            new == !self@.knows(*node),
    {
        let idx: usize = self.bucket_index_for(node.long_id);
        assert(self.buckets@[idx as int]@ == self@.buckets[idx as int]);
        !self.buckets[idx].contains(node)
    }

    /// At most `k` contacts near `target`, nearest first: the first that are met
    /// on the way outward from the bucket of `target`, without `target` itself
    /// and without `exclude`.  The bucket of `target` is touched at `now`.
    ///
    /// The walk takes the left neighbour of two buckets first and stops as soon as
    /// it has met enough contacts.  So these are the `k` nearest of all where the
    /// bucket of `target` holds as many or the table no more; otherwise a contact
    /// that was not met may be nearer than one that was.
    pub fn find_neighbors_at(&mut self, target: &Node, exclude: Option<&Node>, now: u64) -> (found:
        Vec<Node>)
        requires
            old(self).wf(),
        ensures
            final(self).wf(),
            final(self)@ == old(self)@.looked_up(target.long_id, now),
            found@ == old(self)@.neighbors(
                *target,
                match exclude {
                    Some(node) => Some(*node),
                    None => None,
                },
            ),
            found@.len() <= old(self)@.ksize,
            forall|i: int, j: int|
                0 <= i < j < found@.len() ==> (target.long_id ^ (#[trigger] found@[i]).long_id) <= (
                target.long_id ^ (#[trigger] found@[j]).long_id),
    {
        let ghost table = self@;
        let idx: usize = self.bucket_index_for(target.long_id);
        proof {
            looked_up_keeps_wf(table, target.long_id, now);
            assert(self.buckets@[idx as int]@ == table.buckets[idx as int]);
        }
        let found: Vec<Node> = self.neighbors_from(idx, target, exclude);
        proof {
            let other = match exclude {
                Some(node) => Some(*node),
                None => None,
            };
            arranging_sorts_by_distance(target.long_id, table.candidates(*target, other));
        }
        self.buckets[idx].touch_at(now);
        assert(self@.buckets =~= table.looked_up(target.long_id, now).buckets);
        found
    }

    /// At most `k` contacts near `target`, nearest first, without `target`
    /// itself and without `exclude`.
    pub fn find_neighbors(&mut self, target: &Node, exclude: Option<&Node>) -> (found: Vec<Node>)
        requires
            old(self).wf(),
        ensures
            final(self).wf(),
            exists|now: u64|
                read_off_clock(now) && final(self)@ == #[trigger] old(self)@.looked_up(
                    target.long_id,
                    now,
                ),
            found@ == old(self)@.neighbors(
                *target,
                match exclude {
                    Some(node) => Some(*node),
                    None => None,
                },
            ),
            found@.len() <= old(self)@.ksize,
            forall|i: int, j: int|
                0 <= i < j < found@.len() ==> (target.long_id ^ (#[trigger] found@[i]).long_id) <= (
                target.long_id ^ (#[trigger] found@[j]).long_id),
    {
        let now: u64 = now_secs();
        self.find_neighbors_at(target, exclude, now)
    }

    #[verifier::rlimit(40)]
    fn neighbors_from(&self, idx: usize, target: &Node, exclude: Option<&Node>) -> (found: Vec<
        Node,
    >)
        requires
            self.wf(),
            idx == self@.home(target.long_id),
            idx < self.buckets@.len(),
        ensures
            found@ == self@.neighbors(
                *target,
                match exclude {
                    Some(node) => Some(*node),
                    None => None,
                },
            ),
    {
        let ghost other = match exclude {
            Some(node) => Some(*node),
            None => None,
        };
        let ghost fits = eligible(*target, other);
        let ghost order = outward(self@.buckets, idx as int);
        let mut walk: TableTraverser<'_> = TableTraverser::new(&self.buckets, idx);
        let mut chosen: Vec<Node> = Vec::new();
        let ghost mut seen: int = 0;
        assert(order.take(0).filter(fits) =~= Seq::empty()) by {
            reveal(Seq::filter);
        }
        assert(order.skip(0) =~= order);
        assert(self.ksize == 0 ==> chosen@ =~= self@.candidates(*target, other));
        while chosen.len() < self.ksize
            invariant_except_break
                walk.wf(),
                walk.coming() == order.skip(seen),
                chosen@.len() == self.ksize ==> chosen@ == self@.candidates(*target, other),
            invariant
                0 <= seen <= order.len(),
                order == outward(self@.buckets, idx as int),
                other == (match exclude {
                    Some(node) => Some(*node),
                    None => None,
                }),
                fits == eligible(*target, other),
                idx == self@.home(target.long_id),
                chosen@ == order.take(seen).filter(fits),
                chosen@.len() <= self.ksize,
            ensures
                chosen@ == self@.candidates(*target, other),
            decreases order.len() - seen,
        {
            match walk.next() {
                None => {
                    assert(order.take(seen) =~= order);
                    break ;
                },
                Some(node) => {
                    proof {
                        assert(node == order[seen]);
                        filter_step(order, seen, fits);
                        assert(order.skip(seen).drop_first() =~= order.skip(seen + 1));
                        seen = seen + 1;
                    }
                    let is_target: bool = same_id(&node.id, &target.id);
                    let is_excluded: bool = match exclude {
                        Some(ex) => same_id(&node.id, &ex.id),
                        None => false,
                    };
                    if !is_target && !is_excluded {
                        chosen.push(node);
                    }
                    proof {
                        if chosen@.len() == self.ksize {
                            let rest = order.skip(seen);
                            Seq::filter_distributes_over_add(order.take(seen), rest, fits);
                            assert(order =~= order.take(seen) + rest);
                            assert(at_most(order.filter(fits), self.ksize as nat) =~= chosen@);
                        }
                    }
                },
            }
        }
        arrange(&chosen, target.long_id)
    }

    /// The buckets that at `now` no lookup has touched for more than an hour.
    pub fn lonely_buckets_at(&self, now: u64) -> (lonely: Vec<&KBucket>)
        ensures
            lonely@.map_values(|b: &KBucket| b@) == self@.buckets.filter(
                |b: BucketModel| b.lonely_at(now),
            ),
    {
        let ghost alone = |b: BucketModel| b.lonely_at(now);
        let mut lonely: Vec<&KBucket> = Vec::new();
        let mut at: usize = 0;
        assert(self@.buckets.take(0).filter(alone) =~= Seq::empty()) by {
            reveal(Seq::filter);
        }
        assert(lonely@.map_values(|b: &KBucket| b@) =~= Seq::<BucketModel>::empty());
        while at < self.buckets.len()
            invariant
                at <= self.buckets@.len(),
                alone == (|b: BucketModel| b.lonely_at(now)),
                lonely@.map_values(|b: &KBucket| b@) == self@.buckets.take(at as int).filter(
                    alone,
                ),
            decreases self.buckets@.len() - at,
        {
            proof {
                filter_step(self@.buckets, at as int, alone);
            }
            let ghost before = lonely@;
            if self.buckets[at].is_lonely_at(now) {
                lonely.push(&self.buckets[at]);
                assert(lonely@.map_values(|b: &KBucket| b@) =~= before.map_values(
                    |b: &KBucket| b@,
                ).push(self@.buckets[at as int]));
            }
            at = at + 1;
        }
        assert(self@.buckets.take(at as int) =~= self@.buckets);
        lonely
    }

    /// The buckets that no lookup has touched for more than an hour.
    pub fn lonely_buckets(&self) -> (lonely: Vec<&KBucket>)
        ensures
            exists|now: u64|
                read_off_clock(now) && lonely@.map_values(|b: &KBucket| b@) == self@.buckets.filter(
                    #[trigger] lonely_by(now),
                ),
    {
        let now: u64 = now_secs();
        let lonely: Vec<&KBucket> = self.lonely_buckets_at(now);
        assert(lonely_by(now) =~= (|b: BucketModel| b.lonely_at(now)));
        lonely
    }

    /// Puts the two halves of a bucket in its place.
    fn split_bucket(&mut self, idx: usize, now: u64)
        requires
            old(self).buckets_wf(),
            idx < old(self).buckets@.len(),
            old(self)@.buckets[idx as int].lo < old(self)@.buckets[idx as int].hi,
        ensures
            final(self).buckets_wf(),
            final(self)@ == old(self)@.with_buckets(
                idx as int,
                seq![
                    old(self)@.buckets[idx as int].low_half(now),
                    old(self)@.buckets[idx as int].high_half(now),
                ],
            ),
    {
        assert(self.buckets@[idx as int]@ == self@.buckets[idx as int]);
        let bucket: KBucket = self.buckets.remove(idx);
        let (low, high) = bucket.split_at(now);
        self.buckets.insert(idx, high);
        self.buckets.insert(idx, low);
        assert forall|i: int| 0 <= i < self.buckets@.len() implies (
        #[trigger] self.buckets@[i]).wf() by {
            if i < idx {
                assert(self.buckets@[i] == old(self).buckets@[i]);
            } else if i > idx + 1 {
                assert(self.buckets@[i] == old(self).buckets@[i - 1]);
            }
        }
        assert(self@.buckets =~= old(self)@.with_buckets(
            idx as int,
            seq![
                old(self)@.buckets[idx as int].low_half(now),
                old(self)@.buckets[idx as int].high_half(now),
            ],
        ).buckets);
    }

    fn bucket_index_for(&self, long_id: u128) -> (idx: usize)
        requires
            self.wf(),
        ensures
            idx < self.buckets@.len(),
            idx == self@.home(long_id),
            self@.buckets[idx as int].covers(long_id),
    {
        proof {
            reveal(TableModel::wf);
            covered_exactly_once(self@.buckets, 0, u128::MAX as int, long_id);
        }
        let ghost home = self@.home(long_id);
        let mut idx: usize = 0;
        while idx < self.buckets.len()
            invariant
                self.wf(),
                idx <= home < self.buckets@.len(),
                home == self@.home(long_id),
                self@.buckets[home].covers(long_id),
                forall|i: int|
                    0 <= i < self@.buckets.len() && (#[trigger] self@.buckets[i]).covers(long_id)
                        ==> i == home,
            decreases self.buckets@.len() - idx,
        {
            assert(self@.buckets[idx as int] == self.buckets@[idx as int]@);
            if self.buckets[idx].covers(long_id) {
                return idx;
            }
            idx = idx + 1;
        }
        idx
    }

    /// The buckets, lowest range first.
    pub fn buckets(&self) -> (buckets: &Vec<KBucket>)
        ensures
            buckets@ == self.buckets@,
    {
        &self.buckets
    }
}

/// Which buckets are lonely at `now`.
pub open spec fn lonely_by(now: u64) -> spec_fn(BucketModel) -> bool {
    |b: BucketModel| b.lonely_at(now)
}

} // verus!
