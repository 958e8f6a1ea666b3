//! What holds of the routing table as a whole.

use vstd::prelude::*;

use crate::node::xor_distance;
use crate::node::Node;
use crate::ranking::arranged_is_sorted;
use crate::ranking::has_id;
use crate::ranking::in_order;
use crate::routing::beside;
use crate::routing::chain;
use crate::routing::covered_exactly_once;
use crate::routing::eligible;
use crate::routing::halves_are_sound;
use crate::routing::inside_a_block_is_nearer;
use crate::routing::outward;
use crate::routing::peers_of;
use crate::routing::settle;
use crate::routing::settled_is_sound;
use crate::routing::sound;
use crate::routing::splits;
use crate::routing::with_contact_keeps_wf;
use crate::routing::with_node_is_sound;
use crate::bucket::shared_bits;
use crate::bucket::without;
use crate::routing::without_contact_keeps_wf;
use crate::bucket::without_node_keeps_wf;
use crate::bucket::BucketModel;
use crate::routing::TableModel;
use crate::seqs::filter_members;
use crate::utils::ID_LEN;

verus! {

/// Every folded ID belongs to exactly one bucket of a table.
pub proof fn buckets_partition_the_keyspace(table: TableModel, long_id: u128)
    requires
        table.wf(),
    ensures
        0 <= table.home(long_id) < table.buckets.len(),
        forall|i: int|
            0 <= i < table.buckets.len() ==> ((#[trigger] table.buckets[i]).covers(long_id) <==> i
                == table.home(long_id)),
{
    reveal(TableModel::wf);
    covered_exactly_once(table.buckets, 0, u128::MAX as int, long_id);
}

/// The local node is never a contact of its own table.
pub proof fn local_node_is_no_contact(table: TableModel, bucket: int)
    requires
        table.wf(),
        0 <= bucket < table.buckets.len(),
    ensures
        !has_id(table.buckets[bucket].nodes, table.local.id),
        !has_id(table.buckets[bucket].spares, table.local.id),
{
    reveal(TableModel::wf);
    let b = table.buckets[bucket];
    assert forall|i: int| 0 <= i < b.nodes.len() implies (#[trigger] b.nodes[i]).id
        != table.local.id by {
        assert(peers_of(b)[i] == b.nodes[i]);
    }
    assert forall|i: int| 0 <= i < b.spares.len() implies (#[trigger] b.spares[i]).id
        != table.local.id by {
        assert(peers_of(b)[b.nodes.len() + i] == b.spares[i]);
    }
}

/// Where a settled peer ended up.
spec fn ended_in(bucket: BucketModel, local_long: u128, node: Node, ping: Option<Node>) -> bool {
    &&& bucket.covers(node.long_id)
    &&& match ping {
        None => has_id(bucket.nodes, node.id),
        Some(head) => bucket.nodes.len() == bucket.ksize && bucket.nodes[0] == head && !has_id(
            bucket.nodes,
            node.id,
        ) && bucket.spares.len() > 0 && bucket.spares.last() == node && !(bucket.lo < bucket.hi
            && splits(bucket, local_long)),
    }
}

proof fn settled_peer(
    bucket: BucketModel,
    local: [u8; ID_LEN],
    local_long: u128,
    node: Node,
    now: u64,
) -> (at: int)
    requires
        sound(bucket, bucket.ksize, local),
        bucket.ksize > 0,
        bucket.lo <= bucket.hi,
        bucket.covers(node.long_id),
        node.id != local,
    ensures
        ({
            let (after, ping) = settle(bucket, local_long, node, now);
            &&& 0 <= at < after.len()
            &&& ended_in(after[at], local_long, node, ping)
        }),
    decreases bucket.hi - bucket.lo,
{
    let seen = bucket.with_node(node);
    let (after, ping) = settle(bucket, local_long, node, now);
    with_node_is_sound(bucket, local, node);
    if bucket.accepts(node) {
        assert(seen.nodes[seen.nodes.len() - 1] == node);
        0
    } else if bucket.lo < bucket.hi && splits(seen, local_long) {
        halves_are_sound(seen, local, now);
        if node.long_id <= seen.middle() {
            let at = settled_peer(seen.low_half(now), local, local_long, node, now);
            let inner = settle(seen.low_half(now), local_long, node, now).0;
            assert(after[at] == inner[at]);
            at
        } else {
            let at = settled_peer(seen.high_half(now), local, local_long, node, now);
            let inner = settle(seen.high_half(now), local_long, node, now).0;
            assert(after[at + 1] == inner[at]);
            at + 1
        }
    } else {
        0
    }
}

/// The home of a folded ID that one of the buckets put in place of another
/// covers.
proof fn home_after_replacement(
    table: TableModel,
    at: int,
    buckets: Seq<BucketModel>,
    which: int,
    long_id: u128,
)
    requires
        table.with_buckets(at, buckets).wf(),
        0 <= at < table.buckets.len(),
        0 <= which < buckets.len(),
        buckets[which].covers(long_id),
    ensures
        table.with_buckets(at, buckets).home(long_id) == at + which,
        table.with_buckets(at, buckets).buckets[at + which] == buckets[which],
{
    reveal(TableModel::wf);
    let after = table.with_buckets(at, buckets);
    assert(after.buckets[at + which] == buckets[which]);
    covered_exactly_once(after.buckets, 0, u128::MAX as int, long_id);
    assert(after.buckets[at + which].covers(long_id));
}

/// A peer that was seen is a contact afterwards, unless a contact is to be
/// pinged.  The contact to ping is the least recently seen one of a full
/// bucket, and the peer is the newest spare of that bucket.  A bucket with a
/// contact to ping may not be split: it does not cover the local node and its
/// depth is a multiple of five, or its range is a single point.
pub proof fn a_seen_peer_is_contact_or_spare(table: TableModel, node: Node, now: u64)
    requires
        table.wf(),
        table.ksize > 0,
        node.id != table.local.id,
    ensures
        ({
            let after = table.with_contact(node, now);
            let bucket = after.buckets[after.home(node.long_id)];
            match table.to_ping(node, now) {
                None => after.knows(node),
                Some(head) => !after.knows(node) && bucket.nodes.len() == table.ksize
                    && bucket.nodes[0] == head && bucket.spares.len() > 0 && bucket.spares.last()
                    == node && (bucket.lo == bucket.hi || (!bucket.covers(table.local.long_id)
                    && shared_bits(bucket.nodes) % 5 == 0)),
            }
        }),
{
    reveal(TableModel::wf);
    covered_exactly_once(table.buckets, 0, u128::MAX as int, node.long_id);
    with_contact_keeps_wf(table, node, now);
    let at = table.home(node.long_id);
    let bucket = table.buckets[at];
    let local_long = table.local.long_id;
    let which = settled_peer(bucket, table.local.id, local_long, node, now);
    let inner = settle(bucket, local_long, node, now).0;
    settled_is_sound(bucket, table.local.id, local_long, node, now);
    assert(sound(inner[which], table.ksize, table.local.id));
    home_after_replacement(table, at, inner, which, node.long_id);
    let after = table.with_contact(node, now);
    assert(after.buckets[at + which].lo <= after.buckets[at + which].hi) by {
        assert(chain(after.buckets, 0, u128::MAX as int));
    }
}

/// A peer is a primary contact of the half that covers it.
proof fn contact_goes_to_its_half(bucket: BucketModel, local: [u8; ID_LEN], now: u64, other: Node)
    requires
        sound(bucket, bucket.ksize, local),
        bucket.lo < bucket.hi,
        bucket.nodes.contains(other),
    ensures
        other.long_id <= bucket.middle() ==> bucket.low_half(now).nodes.contains(other),
        other.long_id > bucket.middle() ==> bucket.high_half(now).nodes.contains(other),
{
    let low = |n: Node| n.long_id <= bucket.middle();
    let high = |n: Node| !(n.long_id <= bucket.middle());
    let belongs = if other.long_id <= bucket.middle() {
        low
    } else {
        high
    };
    let half = if other.long_id <= bucket.middle() {
        bucket.low_half(now)
    } else {
        bucket.high_half(now)
    };
    let side = peers_of(bucket).filter(belongs);
    Seq::filter_distributes_over_add(bucket.nodes, bucket.spares, belongs);
    let first = bucket.nodes.filter(belongs);
    filter_members(bucket.nodes, belongs);
    assert(first.contains(other));
    let i = choose|i: int| 0 <= i < first.len() && first[i] == other;
    assert(side[i] == other);
    assert(half.nodes[i] == side[i]);
}

proof fn settled_contact_stays(
    bucket: BucketModel,
    local: [u8; ID_LEN],
    local_long: u128,
    node: Node,
    now: u64,
    other: Node,
) -> (at: int)
    requires
        sound(bucket, bucket.ksize, local),
        bucket.lo <= bucket.hi,
        bucket.covers(node.long_id),
        bucket.covers(other.long_id),
        node.id != local,
        bucket.nodes.contains(other),
        node.id == other.id ==> node.long_id == other.long_id,
    ensures
        ({
            let after = settle(bucket, local_long, node, now).0;
            &&& 0 <= at < after.len()
            &&& after[at].covers(other.long_id)
            &&& has_id(after[at].nodes, other.id)
        }),
    decreases bucket.hi - bucket.lo,
{
    let seen = bucket.with_node(node);
    let after = settle(bucket, local_long, node, now).0;
    with_node_is_sound(bucket, local, node);
    if bucket.accepts(node) {
        filter_members(bucket.nodes, |n: Node| n.id != node.id);
        if other.id == node.id {
            assert(seen.nodes[seen.nodes.len() - 1].id == other.id);
        } else {
            let kept = without(bucket.nodes, node.id);
            assert(kept.contains(other));
            let i = choose|i: int| 0 <= i < kept.len() && kept[i] == other;
            assert(seen.nodes[i] == other);
        }
        0
    } else {
        let k = choose|k: int| 0 <= k < bucket.nodes.len() && bucket.nodes[k] == other;
        assert(seen.nodes[k] == other);
        if bucket.lo < bucket.hi && splits(seen, local_long) {
            halves_are_sound(seen, local, now);
            contact_goes_to_its_half(seen, local, now, other);
            let low = seen.low_half(now);
            let high = seen.high_half(now);
            if node.long_id <= seen.middle() {
                let inner = settle(low, local_long, node, now).0;
                if other.long_id <= seen.middle() {
                    let at = settled_contact_stays(low, local, local_long, node, now, other);
                    assert(after[at] == inner[at]);
                    at
                } else {
                    assert(after[inner.len() as int] == high);
                    let i = choose|i: int| 0 <= i < high.nodes.len() && high.nodes[i] == other;
                    assert(high.nodes[i].id == other.id);
                    inner.len() as int
                }
            } else {
                let inner = settle(high, local_long, node, now).0;
                if other.long_id <= seen.middle() {
                    assert(after[0] == low);
                    let i = choose|i: int| 0 <= i < low.nodes.len() && low.nodes[i] == other;
                    assert(low.nodes[i].id == other.id);
                    0
                } else {
                    let at = settled_contact_stays(high, local, local_long, node, now, other);
                    assert(after[at + 1] == inner[at]);
                    at + 1
                }
            }
        } else {
            0
        }
    }
}

/// Seeing a peer makes no contact unknown: what was a contact is one
/// afterwards, however often buckets were split.
pub proof fn seeing_a_peer_loses_no_contact(table: TableModel, node: Node, now: u64, other: Node)
    requires
        table.wf(),
        table.buckets[table.home(other.long_id)].nodes.contains(other),
        node.id == other.id ==> node.long_id == other.long_id,
    ensures
        table.with_contact(node, now).knows(other),
{
    reveal(TableModel::wf);
    covered_exactly_once(table.buckets, 0, u128::MAX as int, node.long_id);
    covered_exactly_once(table.buckets, 0, u128::MAX as int, other.long_id);
    let home = table.home(other.long_id);
    let nodes = table.buckets[home].nodes;
    let k = choose|k: int| 0 <= k < nodes.len() && nodes[k] == other;
    assert(nodes[k].id == other.id);
    if node.id != table.local.id {
        with_contact_keeps_wf(table, node, now);
        let after = table.with_contact(node, now);
        let at = table.home(node.long_id);
        let bucket = table.buckets[at];
        let local_long = table.local.long_id;
        let inner = settle(bucket, local_long, node, now).0;
        if home == at {
            let which = settled_contact_stays(
                bucket,
                table.local.id,
                local_long,
                node,
                now,
                other,
            );
            home_after_replacement(table, at, inner, which, other.long_id);
        } else {
            let moved = if home < at {
                home
            } else {
                home + inner.len() - 1
            };
            assert(after.buckets[moved] == table.buckets[home]);
            covered_exactly_once(after.buckets, 0, u128::MAX as int, other.long_id);
            assert(after.buckets[moved].covers(other.long_id));
        }
    }
}

/// A removed peer is neither contact nor spare afterwards, and its bucket has as
/// many contacts as before if there was a spare to promote.
pub proof fn a_removed_peer_is_unknown(table: TableModel, node: Node)
    requires
        table.wf(),
    ensures
        ({
            let after = table.without_contact(node);
            let old_bucket = table.buckets[table.home(node.long_id)];
            let bucket = after.buckets[after.home(node.long_id)];
            &&& !after.knows(node)
            &&& !has_id(bucket.spares, node.id)
            &&& table.knows(node) && old_bucket.spares.len() > 0 ==> bucket.nodes.len()
                == old_bucket.nodes.len() && bucket.nodes.last() == old_bucket.spares.last()
        }),
{
    reveal(TableModel::wf);
    covered_exactly_once(table.buckets, 0, u128::MAX as int, node.long_id);
    without_contact_keeps_wf(table, node);
    let at = table.home(node.long_id);
    let bucket = table.buckets[at];
    without_node_keeps_wf(bucket, node.id);
    home_after_replacement(table, at, seq![bucket.without_node(node.id)], 0, node.long_id);
    if table.knows(node) && bucket.spares.len() > 0 {
        let k = choose|k: int| 0 <= k < bucket.nodes.len() && (#[trigger] bucket.nodes[k]).id
            == node.id;
        crate::bucket::distinct_in_both(bucket.nodes, bucket.spares);
        crate::bucket::without_one(bucket.nodes, k);
        assert forall|i: int| 0 <= i < bucket.spares.len() implies (#[trigger] bucket.spares[i]).id
            != node.id by {
            assert(!has_id(bucket.nodes, bucket.spares[i].id));
            assert(bucket.nodes[k].id == node.id);
        }
        crate::bucket::without_absent(bucket.spares, node.id);
    }
}

/// Adding or removing peers leaves the time of the last lookup as it is.
pub proof fn contacts_do_not_touch_the_timer(bucket: BucketModel, node: Node)
    ensures
        bucket.with_node(node).updated == bucket.updated,
        bucket.without_node(node.id).updated == bucket.updated,
{
}

proof fn beside_has(
    buckets: Seq<BucketModel>,
    left: int,
    right: int,
    take_left: bool,
    which: int,
    node: Node,
)
    requires
        0 <= left <= right <= buckets.len(),
        0 <= which < left || right <= which < buckets.len(),
        buckets[which].nodes.contains(node),
    ensures
        beside(buckets, left, right, take_left).contains(node),
    decreases left + (buckets.len() - right),
{
    let (next, rest) = if take_left && left > 0 {
        (left - 1, beside(buckets, left - 1, right, false))
    } else if right < buckets.len() {
        (right, beside(buckets, left, right + 1, true))
    } else {
        (left - 1, beside(buckets, left - 1, right, take_left))
    };
    let all = beside(buckets, left, right, take_left);
    let here = buckets[next].nodes.reverse();
    assert(all == here + rest);
    if which == next {
        let k = choose|k: int|
            0 <= k < buckets[which].nodes.len() && buckets[which].nodes[k] == node;
        assert(here[here.len() - 1 - k] == node);
        assert(all[here.len() - 1 - k] == node);
    } else {
        if take_left && left > 0 {
            beside_has(buckets, left - 1, right, false, which, node);
        } else if right < buckets.len() {
            beside_has(buckets, left, right + 1, true, which, node);
        } else {
            beside_has(buckets, left - 1, right, take_left, which, node);
        }
        let k = choose|k: int| 0 <= k < rest.len() && rest[k] == node;
        assert(all[here.len() + k] == node);
    }
}

proof fn beside_is_of_buckets(
    buckets: Seq<BucketModel>,
    left: int,
    right: int,
    take_left: bool,
    node: Node,
) -> (which: int)
    requires
        0 <= left <= right <= buckets.len(),
        beside(buckets, left, right, take_left).contains(node),
    ensures
        0 <= which < left || right <= which < buckets.len(),
        buckets[which].nodes.contains(node),
    decreases left + (buckets.len() - right),
{
    let all = beside(buckets, left, right, take_left);
    let (next, rest) = if take_left && left > 0 {
        (left - 1, beside(buckets, left - 1, right, false))
    } else if right < buckets.len() {
        (right, beside(buckets, left, right + 1, true))
    } else {
        (left - 1, beside(buckets, left - 1, right, take_left))
    };
    let here = buckets[next].nodes.reverse();
    let k = choose|k: int| 0 <= k < all.len() && all[k] == node;
    assert(all == here + rest);
    if k < here.len() {
        assert(buckets[next].nodes[here.len() - 1 - k] == node);
        next
    } else {
        assert(rest[k - here.len()] == node);
        if take_left && left > 0 {
            beside_is_of_buckets(buckets, left - 1, right, false, node)
        } else if right < buckets.len() {
            beside_is_of_buckets(buckets, left, right + 1, true, node)
        } else {
            beside_is_of_buckets(buckets, left - 1, right, take_left, node)
        }
    }
}

/// How many contacts the buckets hold together.
pub open spec fn total(buckets: Seq<BucketModel>) -> nat
    decreases buckets.len(),
{
    if buckets.len() == 0 {
        0
    } else {
        total(buckets.drop_last()) + buckets.last().nodes.len()
    }
}

proof fn total_of_both(a: Seq<BucketModel>, b: Seq<BucketModel>)
    ensures
        total(a + b) == total(a) + total(b),
    decreases b.len(),
{
    if b.len() == 0 {
        assert(a + b =~= a);
    } else {
        assert((a + b).drop_last() =~= a + b.drop_last());
        total_of_both(a, b.drop_last());
    }
}

proof fn total_of_one(bucket: BucketModel)
    ensures
        total(seq![bucket]) == bucket.nodes.len(),
{
    assert(seq![bucket].drop_last() =~= Seq::<BucketModel>::empty());
    assert(total(Seq::<BucketModel>::empty()) == 0);
}

proof fn beside_counts(buckets: Seq<BucketModel>, left: int, right: int, take_left: bool)
    requires
        0 <= left <= right <= buckets.len(),
    ensures
        beside(buckets, left, right, take_left).len() == total(buckets.take(left)) + total(
            buckets.skip(right),
        ),
    decreases left + (buckets.len() - right),
{
    if left > 0 {
        assert(buckets.take(left).drop_last() =~= buckets.take(left - 1));
        assert(buckets.take(left).last() == buckets[left - 1]);
    }
    if right < buckets.len() {
        assert(buckets.skip(right) =~= seq![buckets[right]] + buckets.skip(right + 1));
        total_of_both(seq![buckets[right]], buckets.skip(right + 1));
        total_of_one(buckets[right]);
    }
    if take_left && left > 0 {
        beside_counts(buckets, left - 1, right, false);
    } else if right < buckets.len() {
        beside_counts(buckets, left, right + 1, true);
    } else if left > 0 {
        beside_counts(buckets, left - 1, right, take_left);
    } else {
        assert(buckets.take(left) =~= Seq::<BucketModel>::empty());
        assert(buckets.skip(right) =~= Seq::<BucketModel>::empty());
    }
}

/// A lookup that is not cut short visits every contact of every bucket, nothing
/// else, and as many peers as there are contacts.
pub proof fn a_lookup_visits_every_contact(buckets: Seq<BucketModel>, center: int, node: Node)
    requires
        0 <= center < buckets.len(),
    ensures
        outward(buckets, center).contains(node) <==> exists|which: int|
            0 <= which < buckets.len() && (#[trigger] buckets[which]).nodes.contains(node),
        outward(buckets, center).len() == total(buckets),
{
    let all = outward(buckets, center);
    let here = buckets[center].nodes.reverse();
    let rest = beside(buckets, center, center + 1, true);
    if all.contains(node) {
        let k = choose|k: int| 0 <= k < all.len() && all[k] == node;
        if k < here.len() {
            assert(buckets[center].nodes[here.len() - 1 - k] == node);
            assert(buckets[center].nodes.contains(node));
        } else {
            assert(rest[k - here.len()] == node);
            let which = beside_is_of_buckets(buckets, center, center + 1, true, node);
            assert(buckets[which].nodes.contains(node));
        }
    }
    if exists|which: int|
        0 <= which < buckets.len() && (#[trigger] buckets[which]).nodes.contains(node) {
        let which = choose|which: int|
            0 <= which < buckets.len() && (#[trigger] buckets[which]).nodes.contains(node);
        if which == center {
            let k = choose|k: int|
                0 <= k < buckets[which].nodes.len() && buckets[which].nodes[k] == node;
            assert(all[here.len() - 1 - k] == node);
        } else {
            beside_has(buckets, center, center + 1, true, which, node);
            let k = choose|k: int| 0 <= k < rest.len() && rest[k] == node;
            assert(all[here.len() + k] == node);
        }
    }
    beside_counts(buckets, center, center + 1, true);
    assert(buckets =~= buckets.take(center) + seq![buckets[center]] + buckets.skip(center + 1));
    total_of_both(buckets.take(center) + seq![buckets[center]], buckets.skip(center + 1));
    total_of_both(buckets.take(center), seq![buckets[center]]);
    total_of_one(buckets[center]);
}

/// The answer to a lookup: at most `k` contacts, nearest first, neither the
/// target nor the excluded peer among them; and where it has fewer than `k`,
/// every contact that may be named is in it.
pub proof fn neighbors_are_near_and_few(table: TableModel, target: Node, exclude: Option<Node>)
    requires
        table.wf(),
    ensures
        ({
            let found = table.neighbors(target, exclude);
            &&& found.len() <= table.ksize
            &&& in_order(target.long_id, found)
            &&& forall|node: Node| #[trigger]
                found.contains(node) ==> node.id != target.id && (exclude matches Some(other)
                    ==> node.id != other.id) && exists|which: int|
                    0 <= which < table.buckets.len() && (
                    #[trigger] table.buckets[which]).nodes.contains(node)
            &&& found.len() < table.ksize ==> forall|node: Node, which: int|
                #![trigger found.contains(node), table.buckets[which]]
                0 <= which < table.buckets.len() && table.buckets[which].nodes.contains(node)
                    && eligible(target, exclude)(node) ==> found.contains(node)
        }),
{
    reveal(TableModel::wf);
    let found = table.neighbors(target, exclude);
    let chosen = table.candidates(target, exclude);
    let fits = eligible(target, exclude);
    let center = table.home(target.long_id);
    let order = outward(table.buckets, center);
    covered_exactly_once(table.buckets, 0, u128::MAX as int, target.long_id);
    arranged_is_sorted(target.long_id, chosen);
    filter_members(order, fits);
    assert forall|node: Node| #[trigger] found.contains(node) implies node.id != target.id && (
    exclude matches Some(other) ==> node.id != other.id) && exists|which: int|
        0 <= which < table.buckets.len() && (#[trigger] table.buckets[which]).nodes.contains(
            node,
        ) by {
        assert(chosen.contains(node));
        let k = choose|k: int| 0 <= k < chosen.len() && chosen[k] == node;
        assert(order.filter(fits)[k] == node);
        assert(order.filter(fits).contains(node));
        a_lookup_visits_every_contact(table.buckets, center, node);
    }
    if found.len() < table.ksize {
        assert forall|node: Node, which: int|
            #![trigger found.contains(node), table.buckets[which]]
            0 <= which < table.buckets.len() && table.buckets[which].nodes.contains(node) && fits(
                node,
            ) implies found.contains(node) by {
            a_lookup_visits_every_contact(table.buckets, center, node);
            assert(order.contains(node));
            assert(order.filter(fits).contains(node));
            assert(chosen.contains(node));
        }
    }
}

/// Every contact of the target's own bucket that may be named is in the answer,
/// and is nearer to the target than any contact of another bucket.
pub proof fn the_home_bucket_is_named_and_nearest(
    table: TableModel,
    target: Node,
    exclude: Option<Node>,
    near: Node,
    which: int,
    far: Node,
)
    requires
        table.wf(),
        table.buckets[table.home(target.long_id)].nodes.contains(near),
        eligible(target, exclude)(near),
        0 <= which < table.buckets.len(),
        which != table.home(target.long_id),
        table.buckets[which].nodes.contains(far),
    ensures
        table.neighbors(target, exclude).contains(near),
        xor_distance(target.long_id, near.long_id) < xor_distance(target.long_id, far.long_id),
{
    reveal(TableModel::wf);
    let center = table.home(target.long_id);
    let home = table.buckets[center];
    let other = table.buckets[which];
    let fits = eligible(target, exclude);
    let order = outward(table.buckets, center);
    let first = home.nodes.reverse();
    let rest = beside(table.buckets, center, center + 1, true);
    let chosen = table.candidates(target, exclude);
    covered_exactly_once(table.buckets, 0, u128::MAX as int, target.long_id);
    let i = choose|i: int| 0 <= i < home.nodes.len() && home.nodes[i] == near;
    assert(first[first.len() - 1 - i] == near);
    assert(first.contains(near));
    filter_members(first, fits);
    assert(first.filter(fits).contains(near));
    let k = choose|k: int| 0 <= k < first.filter(fits).len() && first.filter(fits)[k] == near;
    Seq::filter_distributes_over_add(first, rest, fits);
    assert(order.filter(fits)[k] == near);
    assert(chosen[k] == near);
    arranged_is_sorted(target.long_id, chosen);
    assert(chosen.contains(near));
    assert(peers_of(home)[i] == near);
    let j = choose|j: int| 0 <= j < other.nodes.len() && other.nodes[j] == far;
    assert(peers_of(other)[j] == far);
    covered_exactly_once(table.buckets, 0, u128::MAX as int, far.long_id);
    assert(other.covers(far.long_id));
    assert(!home.covers(far.long_id));
    inside_a_block_is_nearer(home.lo, home.hi, target.long_id, near.long_id, far.long_id);
}

proof fn beside_ignores_times(
    a: Seq<BucketModel>,
    b: Seq<BucketModel>,
    left: int,
    right: int,
    take_left: bool,
)
    requires
        a.len() == b.len(),
        forall|i: int| 0 <= i < a.len() ==> (#[trigger] a[i]).nodes == b[i].nodes,
        0 <= left <= right <= a.len(),
    ensures
        beside(a, left, right, take_left) == beside(b, left, right, take_left),
    decreases left + (a.len() - right),
{
    if take_left && left > 0 {
        assert(a[left - 1].nodes == b[left - 1].nodes);
        beside_ignores_times(a, b, left - 1, right, false);
    } else if right < a.len() {
        assert(a[right].nodes == b[right].nodes);
        beside_ignores_times(a, b, left, right + 1, true);
    } else if left > 0 {
        assert(a[left - 1].nodes == b[left - 1].nodes);
        beside_ignores_times(a, b, left - 1, right, take_left);
    }
}

/// Touching buckets changes neither which bucket covers a folded ID nor what a
/// lookup answers, and leaves the table a partition of the keyspace.
pub proof fn touching_changes_no_answer(table: TableModel, hit: spec_fn(int) -> bool, now: u64)
    requires
        table.wf(),
    ensures
        table.touched(hit, now).wf(),
        forall|long_id: u128| #[trigger]
            table.touched(hit, now).home(long_id) == table.home(long_id),
        forall|target: Node, exclude: Option<Node>| #[trigger]
            table.touched(hit, now).neighbors(target, exclude) == table.neighbors(target, exclude),
{
    reveal(TableModel::wf);
    let after = table.touched(hit, now);
    let a = table.buckets;
    let b = after.buckets;
    assert forall|i: int| 0 <= i < a.len() implies (#[trigger] a[i]).nodes == b[i].nodes && a[i].lo
        == b[i].lo && a[i].hi == b[i].hi && a[i].spares == b[i].spares by {}
    assert(chain(b, 0, u128::MAX as int)) by {
        assert forall|i: int| 0 <= i < b.len() implies (#[trigger] b[i]).lo <= b[i].hi by {
            assert(a[i].lo <= a[i].hi);
        }
        assert forall|i: int| 0 < i < b.len() implies (#[trigger] b[i]).lo == b[i - 1].hi + 1 by {
            assert(a[i].lo == a[i - 1].hi + 1);
        }
        assert(a[0].lo == b[0].lo);
        assert(a.last() == a[a.len() - 1] && b.last() == b[b.len() - 1]);
    }
    assert forall|i: int| 0 <= i < b.len() implies sound(
        #[trigger] b[i],
        after.ksize,
        after.local.id,
    ) by {
        assert(sound(a[i], table.ksize, table.local.id));
        assert(peers_of(b[i]) == peers_of(a[i]));
    }
    assert forall|long_id: u128| #[trigger] after.home(long_id) == table.home(long_id) by {
        covered_exactly_once(a, 0, u128::MAX as int, long_id);
        covered_exactly_once(b, 0, u128::MAX as int, long_id);
        assert(b[table.home(long_id)].covers(long_id));
    }
    assert forall|target: Node, exclude: Option<Node>| #[trigger]
        after.neighbors(target, exclude) == table.neighbors(target, exclude) by {
        let center = table.home(target.long_id);
        covered_exactly_once(a, 0, u128::MAX as int, target.long_id);
        assert(after.home(target.long_id) == center);
        beside_ignores_times(a, b, center, center + 1, true);
        assert(outward(a, center) == outward(b, center));
    }
}

/// A lookup touches one bucket more.
pub proof fn a_lookup_touches_one_more(
    table: TableModel,
    hit: spec_fn(int) -> bool,
    long_id: u128,
    now: u64,
)
    requires
        table.wf(),
    ensures
        table.touched(hit, now).looked_up(long_id, now) == table.touched(
            |i: int| hit(i) || i == table.home(long_id),
            now,
        ),
{
    touching_changes_no_answer(table, hit, now);
    reveal(TableModel::wf);
    covered_exactly_once(table.buckets, 0, u128::MAX as int, long_id);
    let at = table.home(long_id);
    let before = table.touched(hit, now);
    assert(before.home(long_id) == at);
    assert(before.looked_up(long_id, now).buckets =~= table.touched(
        |i: int| hit(i) || i == at,
        now,
    ).buckets);
}

/// A split loses no contact and no spare and makes up none: each goes to the half
/// that covers it.
pub proof fn a_split_keeps_every_peer(
    bucket: BucketModel,
    local: [u8; ID_LEN],
    now: u64,
    peer: Node,
)
    requires
        sound(bucket, bucket.ksize, local),
        bucket.lo < bucket.hi,
    ensures
        peers_of(bucket.low_half(now)).contains(peer) <==> peers_of(bucket).contains(peer)
            && peer.long_id <= bucket.middle(),
        peers_of(bucket.high_half(now)).contains(peer) <==> peers_of(bucket).contains(peer)
            && peer.long_id > bucket.middle(),
{
    halves_are_sound(bucket, local, now);
    filter_members(peers_of(bucket), |n: Node| n.long_id <= bucket.middle());
    filter_members(peers_of(bucket), |n: Node| !(n.long_id <= bucket.middle()));
}

} // verus!
