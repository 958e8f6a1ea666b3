//! What becomes of contacts and spares, in terms of the lists themselves.

use vstd::prelude::*;

use crate::bucket::BucketModel;
use crate::bucket::agree_at;
use crate::bucket::first_split_bit;
use crate::bucket::id_bit;
use crate::bucket::shared_bits;
use crate::bucket::without_absent;
use crate::bucket::without_one;
use crate::node::Node;
use crate::ranking::distinct_ids;
use crate::ranking::has_id;
use crate::ranking_laws::arranging_sorts_by_distance;
use crate::routing::TableModel;
use crate::routing::eligible;
use crate::routing::halves_are_sound;
use crate::routing::lonely_by;
use crate::routing::peers_of;
use crate::routing::settle;
use crate::routing::sound;
use crate::routing::splits;
use crate::routing::with_node_is_sound;
use crate::routing_laws::a_split_keeps_every_peer;
use crate::routing_laws::buckets_partition_the_keyspace;
use crate::routing_laws::neighbors_are_near_and_few;
use crate::routing_laws::the_home_bucket_is_named_and_nearest;
use crate::seqs::filter_members;
use crate::utils::ID_LEN;

verus! {

/// The answer to a lookup has its peers in order of their XOR distance from the
/// target, at most `k` of them.  It names only contacts, and neither the target nor
/// the excluded peer.  Where it names fewer than `k`, it names every other contact.
pub proof fn a_lookup_names_the_nearest_first(
    table: TableModel,
    target: Node,
    exclude: Option<Node>,
    bucket: int,
    at: int,
)
    requires
        table.wf(),
        0 <= bucket < table.buckets.len(),
        0 <= at < table.buckets[bucket].nodes.len(),
    ensures
        ({
            let found = table.neighbors(target, exclude);
            let contact = table.buckets[bucket].nodes[at];
            &&& found.len() <= table.ksize
            &&& forall|i: int, j: int|
                0 <= i < j < found.len() ==> (target.long_id ^ (#[trigger] found[i]).long_id) <= (
                target.long_id ^ (#[trigger] found[j]).long_id)
            &&& forall|i: int|
                0 <= i < found.len() ==> (#[trigger] found[i]).id != target.id && (
                exclude matches Some(other) ==> found[i].id != other.id) && exists|which: int|
                    0 <= which < table.buckets.len() && (
                    #[trigger] table.buckets[which]).nodes.contains(found[i])
            &&& found.len() < table.ksize && contact.id != target.id && (
            exclude matches Some(other) ==> contact.id != other.id) ==> found.contains(contact)
        }),
{
    let found = table.neighbors(target, exclude);
    let contact = table.buckets[bucket].nodes[at];
    neighbors_are_near_and_few(table, target, exclude);
    arranging_sorts_by_distance(target.long_id, table.candidates(target, exclude));
    assert forall|i: int| 0 <= i < found.len() implies found.contains(#[trigger] found[i]) by {}
    assert(table.buckets[bucket].nodes.contains(contact));
    if found.len() < table.ksize && contact.id != target.id && (exclude matches Some(other)
        ==> contact.id != other.id) {
        assert(eligible(target, exclude)(contact));
        assert(found.contains(contact) || !found.contains(contact));
    }
}

/// A lookup names every contact of the bucket whose range holds the target, apart
/// from the target and the excluded peer; and each of them is nearer to the target
/// than any contact of another bucket.
pub proof fn a_lookup_names_the_bucket_of_the_target(
    table: TableModel,
    target: Node,
    exclude: Option<Node>,
    bucket: int,
    at: int,
    other: int,
    place: int,
)
    requires
        table.wf(),
        0 <= bucket < table.buckets.len(),
        0 <= other < table.buckets.len(),
        table.buckets[bucket].lo <= target.long_id <= table.buckets[bucket].hi,
        !(table.buckets[other].lo <= target.long_id <= table.buckets[other].hi),
        0 <= at < table.buckets[bucket].nodes.len(),
        0 <= place < table.buckets[other].nodes.len(),
        table.buckets[bucket].nodes[at].id != target.id,
        exclude matches Some(peer) ==> table.buckets[bucket].nodes[at].id != peer.id,
    ensures
        table.neighbors(target, exclude).contains(table.buckets[bucket].nodes[at]),
        (target.long_id ^ table.buckets[bucket].nodes[at].long_id) < (target.long_id
            ^ table.buckets[other].nodes[place].long_id),
{
    buckets_partition_the_keyspace(table, target.long_id);
    let near = table.buckets[bucket].nodes[at];
    let far = table.buckets[other].nodes[place];
    assert(table.buckets[bucket].covers(target.long_id));
    assert(!table.buckets[other].covers(target.long_id));
    assert(table.buckets[bucket].nodes.contains(near));
    assert(table.buckets[other].nodes.contains(far));
    assert(eligible(target, exclude)(near));
    the_home_bucket_is_named_and_nearest(table, target, exclude, near, other, far);
}

/// A peer that is seen becomes the last of the contacts if it is one or if there is
/// room: the others keep their places before it.  In a full bucket that does not
/// have it, it becomes the last of the spares, of which the newest five for each
/// contact are kept.
pub proof fn the_latest_peer_is_last(bucket: BucketModel, node: Node, at: int)
    requires
        bucket.wf(),
    ensures
        ({
            let after = bucket.with_node(node);
            let known = exists|i: int|
                0 <= i < bucket.nodes.len() && (#[trigger] bucket.nodes[i]).id == node.id;
            let spare = exists|i: int|
                0 <= i < bucket.spares.len() && (#[trigger] bucket.spares[i]).id == node.id;
            let full = bucket.nodes.len() >= bucket.ksize;
            &&& after.lo == bucket.lo && after.hi == bucket.hi && after.ksize == bucket.ksize
            &&& after.updated == bucket.updated
            &&& 0 <= at < bucket.nodes.len() && bucket.nodes[at].id == node.id ==> after.nodes
                == bucket.nodes.remove(at).push(node) && after.spares == bucket.spares
            &&& !known && !full ==> after.nodes == bucket.nodes.push(node) && after.spares
                == bucket.spares
            &&& !known && full ==> after.nodes == bucket.nodes
            &&& !known && full && bucket.ksize > 0 ==> after.spares.len() > 0
                && after.spares.last() == node
            &&& !known && full && !spare && bucket.spares.len() < 5 * bucket.ksize
                ==> after.spares == bucket.spares.push(node)
            &&& !known && full && !spare && bucket.spares.len() == 5 * bucket.ksize
                && bucket.ksize > 0 ==> after.spares == bucket.spares.drop_first().push(node)
            &&& !known && full && 0 <= at < bucket.spares.len() && bucket.spares[at].id == node.id
                ==> after.spares == bucket.spares.remove(at).push(node)
        }),
{
    let after = bucket.with_node(node);
    both_are_distinct(bucket);
    if 0 <= at < bucket.nodes.len() && bucket.nodes[at].id == node.id {
        without_one(bucket.nodes, at);
        assert(has_id(bucket.nodes, node.id));
    }
    if !has_id(bucket.nodes, node.id) {
        without_absent(bucket.nodes, node.id);
        if bucket.nodes.len() >= bucket.ksize {
            if has_id(bucket.spares, node.id) {
                if 0 <= at < bucket.spares.len() && bucket.spares[at].id == node.id {
                    without_one(bucket.spares, at);
                }
                let k = choose|k: int|
                    0 <= k < bucket.spares.len() && (#[trigger] bucket.spares[k]).id == node.id;
                without_one(bucket.spares, k);
            } else {
                without_absent(bucket.spares, node.id);
                let grown = bucket.spares.push(node);
                if bucket.spares.len() == 5 * bucket.ksize {
                    assert(grown.skip(1) =~= bucket.spares.drop_first().push(node)
                        || bucket.ksize == 0);
                }
            }
        }
    }
}

proof fn both_are_distinct(bucket: BucketModel)
    requires
        bucket.wf(),
    ensures
        distinct_ids(bucket.nodes),
        distinct_ids(bucket.spares),
{
    crate::bucket::distinct_in_both(bucket.nodes, bucket.spares);
}

/// A contact that is removed makes place for the newest spare, which becomes the
/// last of the contacts.  The others keep their places.  Removing a spare leaves
/// the contacts as they are, and removing an unknown peer leaves the bucket so.
pub proof fn the_newest_spare_takes_the_place(bucket: BucketModel, id: [u8; ID_LEN], at: int)
    requires
        bucket.wf(),
    ensures
        ({
            let after = bucket.without_node(id);
            let known = exists|i: int|
                0 <= i < bucket.nodes.len() && (#[trigger] bucket.nodes[i]).id == id;
            let spare = exists|i: int|
                0 <= i < bucket.spares.len() && (#[trigger] bucket.spares[i]).id == id;
            &&& after.lo == bucket.lo && after.hi == bucket.hi && after.ksize == bucket.ksize
            &&& after.updated == bucket.updated
            &&& 0 <= at < bucket.nodes.len() && bucket.nodes[at].id == id && bucket.spares.len()
                > 0 ==> after.nodes == bucket.nodes.remove(at).push(bucket.spares.last())
                && after.spares == bucket.spares.drop_last()
            &&& 0 <= at < bucket.nodes.len() && bucket.nodes[at].id == id && bucket.spares.len()
                == 0 ==> after.nodes == bucket.nodes.remove(at) && after.spares == bucket.spares
            &&& 0 <= at < bucket.spares.len() && bucket.spares[at].id == id ==> after.nodes
                == bucket.nodes && after.spares == bucket.spares.remove(at)
            &&& !known && !spare ==> after == bucket
        }),
{
    crate::bucket::distinct_in_both(bucket.nodes, bucket.spares);
    if 0 <= at < bucket.nodes.len() && bucket.nodes[at].id == id {
        without_one(bucket.nodes, at);
        assert(has_id(bucket.nodes, id));
        assert(!has_id(bucket.spares, id)) by {
            assert forall|i: int| 0 <= i < bucket.spares.len() implies (
            #[trigger] bucket.spares[i]).id != id by {
                assert(!has_id(bucket.nodes, bucket.spares[i].id));
            }
        }
        without_absent(bucket.spares, id);
    }
    if 0 <= at < bucket.spares.len() && bucket.spares[at].id == id {
        without_one(bucket.spares, at);
        assert(!has_id(bucket.nodes, bucket.spares[at].id));
        without_absent(bucket.nodes, id);
    }
    if !has_id(bucket.nodes, id) && !has_id(bucket.spares, id) {
        without_absent(bucket.nodes, id);
        without_absent(bucket.spares, id);
    }
}

/// The halves of a bucket have the two halves of its range, with the middle between
/// them.  A peer with a folded ID up to the middle goes to the lower half, any other
/// to the upper half, in the order in which they were there, and the first `k` of a
/// half are its contacts.  Both were touched when they were made.
pub proof fn a_split_halves_the_range(bucket: BucketModel, now: u64)
    requires
        bucket.lo < bucket.hi,
    ensures
        ({
            let low = bucket.low_half(now);
            let high = bucket.high_half(now);
            &&& low.lo == bucket.lo && high.hi == bucket.hi && high.lo == low.hi + 1
            &&& low.hi - low.lo == (bucket.hi - bucket.lo) / 2
            &&& low.ksize == bucket.ksize && high.ksize == bucket.ksize
            &&& low.updated == now && high.updated == now
            &&& low.nodes + low.spares == (bucket.nodes + bucket.spares).filter(
                |n: Node| n.long_id <= low.hi,
            )
            &&& high.nodes + high.spares == (bucket.nodes + bucket.spares).filter(
                |n: Node| n.long_id > low.hi,
            )
            &&& low.spares.len() > 0 ==> low.nodes.len() == bucket.ksize
            &&& high.spares.len() > 0 ==> high.nodes.len() == bucket.ksize
            &&& low.nodes.len() <= bucket.ksize && high.nodes.len() <= bucket.ksize
        }),
{
    let low = bucket.low_half(now);
    let high = bucket.high_half(now);
    assert(low.nodes + low.spares =~= bucket.low_side());
    assert(high.nodes + high.spares =~= bucket.high_side());
    assert((|n: Node| n.long_id <= low.hi) =~= (|n: Node| n.long_id <= bucket.middle()));
    assert((|n: Node| n.long_id > low.hi) =~= (|n: Node| !(n.long_id <= bucket.middle())));
}

/// The depth of a list of peers is the length of the bit string that all their IDs
/// start with, counted from the most significant bit.
pub proof fn the_depth_is_the_common_prefix(nodes: Seq<Node>, at: int, i: int, j: int)
    requires
        0 <= i < nodes.len(),
        0 <= j < nodes.len(),
    ensures
        shared_bits(nodes) <= 160,
        0 <= at < shared_bits(nodes) ==> (nodes[i].id@[at / 8] >> ((7 - at % 8) as u8)) & 1u8 == (
        nodes[j].id@[at / 8] >> ((7 - at % 8) as u8)) & 1u8,
        shared_bits(nodes) < 160 ==> exists|a: int, b: int|
            0 <= a < nodes.len() && 0 <= b < nodes.len() && ((#[trigger] nodes[a]).id@[(shared_bits(
                nodes,
            ) / 8) as int] >> ((7 - shared_bits(nodes) % 8) as u8)) & 1u8 != ((
            #[trigger] nodes[b]).id@[(shared_bits(nodes) / 8) as int] >> ((7 - shared_bits(nodes)
                % 8) as u8)) & 1u8,
        shared_bits(Seq::empty()) == 0,
{
    let depth = shared_bits(nodes);
    split_bit_is_first(nodes, 0, at);
    if 0 <= at < depth {
        assert(agree_at(nodes, at));
        assert(id_bit(nodes[i].id@, at) == id_bit(nodes[0].id@, at));
        assert(id_bit(nodes[j].id@, at) == id_bit(nodes[0].id@, at));
    }
    if depth < 160 {
        assert(!agree_at(nodes, depth as int));
        let a = choose|a: int|
            0 <= a < nodes.len() && id_bit((#[trigger] nodes[a]).id@, depth as int) != id_bit(
                nodes[0].id@,
                depth as int,
            );
        assert(id_bit(nodes[a].id@, depth as int) != id_bit(nodes[0].id@, depth as int));
    }
}

proof fn split_bit_is_first(nodes: Seq<Node>, from: nat, at: int)
    requires
        from <= 160,
    ensures
        from <= first_split_bit(nodes, from) <= 160,
        from <= at < first_split_bit(nodes, from) ==> agree_at(nodes, at),
        first_split_bit(nodes, from) < 160 ==> !agree_at(
            nodes,
            first_split_bit(nodes, from) as int,
        ),
    decreases 160 - from,
{
    if from < 160 && agree_at(nodes, from as int) {
        split_bit_is_first(nodes, from + 1, at);
    }
}

/// What happens to a full bucket that a new peer belongs to: it is split if its
/// range holds the local node or its depth is not a multiple of five.  Otherwise it
/// stays one bucket, and the least recently seen contact is to be pinged.  A bucket
/// with room, or one that has the peer as a contact, is never split, and nobody is
/// pinged.
pub proof fn a_full_bucket_is_split_or_its_oldest_pinged(
    table: TableModel,
    bucket: int,
    node: Node,
    now: u64,
)
    requires
        table.wf(),
        0 <= bucket < table.buckets.len(),
        table.buckets[bucket].lo <= node.long_id <= table.buckets[bucket].hi,
        node.id != table.local.id,
    ensures
        ({
            let home = table.buckets[bucket];
            let after = table.with_contact(node, now);
            let known = exists|i: int|
                0 <= i < home.nodes.len() && (#[trigger] home.nodes[i]).id == node.id;
            let local = home.lo <= table.local.long_id <= home.hi;
            &&& known || home.nodes.len() < table.ksize ==> table.to_ping(node, now) is None
                && after.buckets.len() == table.buckets.len()
            &&& !known && home.nodes.len() >= table.ksize && home.lo < home.hi && (local
                || shared_bits(home.nodes) % 5 != 0) ==> after.buckets.len() > table.buckets.len()
            &&& !known && home.nodes.len() >= table.ksize && !local && shared_bits(home.nodes) % 5
                == 0 && home.nodes.len() > 0 ==> table.to_ping(node, now) == Some(home.nodes[0])
                && after.buckets.len() == table.buckets.len()
        }),
{
    buckets_partition_the_keyspace(table, node.long_id);
    assert(table.buckets[bucket].covers(node.long_id));
    reveal(TableModel::wf);
    let home = table.buckets[bucket];
    let inner = settle(home, table.local.long_id, node, now).0;
    let seen = home.with_node(node);
    assert(has_id(home.nodes, node.id) <==> exists|i: int|
        0 <= i < home.nodes.len() && (#[trigger] home.nodes[i]).id == node.id);
    if !home.accepts(node) && home.lo < home.hi && splits(seen, table.local.long_id) {
        some_bucket_is_left(seen.low_half(now), table.local.long_id, node, now);
        some_bucket_is_left(seen.high_half(now), table.local.long_id, node, now);
        assert(inner.len() >= 2);
    }
}

proof fn some_bucket_is_left(bucket: BucketModel, local: u128, node: Node, now: u64)
    ensures
        settle(bucket, local, node, now).0.len() >= 1,
    decreases bucket.hi - bucket.lo,
{
}

/// A lookup sets the time of the bucket whose range holds the folded ID, and
/// changes nothing else in the table.
pub proof fn a_lookup_touches_its_bucket(table: TableModel, long_id: u128, now: u64, bucket: int)
    requires
        table.wf(),
        0 <= bucket < table.buckets.len(),
    ensures
        ({
            let before = table.buckets[bucket];
            let after = table.looked_up(long_id, now);
            &&& after.buckets.len() == table.buckets.len()
            &&& after.local == table.local && after.ksize == table.ksize
            &&& before.lo <= long_id <= before.hi ==> after.buckets[bucket] == (BucketModel {
                updated: now,
                ..before
            })
            &&& !(before.lo <= long_id <= before.hi) ==> after.buckets[bucket] == before
        }),
{
    buckets_partition_the_keyspace(table, long_id);
    assert(table.buckets[bucket].covers(long_id) <==> bucket == table.home(long_id));
    let after = table.looked_up(long_id, now);
    let at = table.home(long_id);
    if bucket < at {
        assert(after.buckets[bucket] == table.buckets.take(at)[bucket]);
    } else if bucket > at {
        assert(after.buckets[bucket] == table.buckets.skip(at + 1)[bucket - at - 1]);
    }
}

/// A bucket is to be refreshed exactly if more than an hour has passed since a
/// lookup touched it.
pub proof fn a_bucket_is_lonely_after_an_hour(buckets: Seq<BucketModel>, now: u64, bucket: int)
    requires
        0 <= bucket < buckets.len(),
    ensures
        buckets.filter(lonely_by(now)).contains(buckets[bucket]) <==> now > buckets[bucket].updated
            + 3600,
{
    filter_members(buckets, lonely_by(now));
    assert(buckets.contains(buckets[bucket]));
}

/// Seeing or removing a peer changes only the bucket whose range holds it, or what
/// that bucket is split into.
pub proof fn only_one_bucket_changes(table: TableModel, node: Node, now: u64, bucket: int)
    requires
        table.wf(),
        0 <= bucket < table.buckets.len(),
        !(table.buckets[bucket].lo <= node.long_id <= table.buckets[bucket].hi),
    ensures
        table.with_contact(node, now).buckets.contains(table.buckets[bucket]),
        table.without_contact(node).buckets.contains(table.buckets[bucket]),
        table.without_contact(node).buckets.len() == table.buckets.len(),
{
    buckets_partition_the_keyspace(table, node.long_id);
    assert(!table.buckets[bucket].covers(node.long_id));
    let at = table.home(node.long_id);
    let inner = settle(table.buckets[at], table.local.long_id, node, now).0;
    let seen = table.with_buckets(at, inner);
    let gone = table.without_contact(node);
    if bucket < at {
        assert(seen.buckets[bucket] == table.buckets[bucket]);
        assert(gone.buckets[bucket] == table.buckets[bucket]);
    } else {
        let rest = table.buckets.skip(at + 1);
        assert(rest[bucket - at - 1] == table.buckets[bucket]);
        assert(seen.buckets[at + inner.len() + (bucket - at - 1)] == table.buckets[bucket]);
        assert(gone.buckets[at + 1 + (bucket - at - 1)] == table.buckets[bucket]);
    }
    assert(table.buckets.contains(table.buckets[bucket]));
}

/// A peer is known exactly if the bucket whose range holds it has a contact with its
/// ID; spares do not count.
pub proof fn a_peer_is_known_by_its_id(table: TableModel, node: Node, bucket: int)
    requires
        table.wf(),
        0 <= bucket < table.buckets.len(),
        table.buckets[bucket].lo <= node.long_id <= table.buckets[bucket].hi,
    ensures
        table.knows(node) <==> exists|i: int|
            0 <= i < table.buckets[bucket].nodes.len() && (
            #[trigger] table.buckets[bucket].nodes[i]).id == node.id,
{
    buckets_partition_the_keyspace(table, node.long_id);
    assert(table.buckets[bucket].covers(node.long_id));
}

proof fn settled_peer_stays(
    bucket: BucketModel,
    local: [u8; ID_LEN],
    local_long: u128,
    node: Node,
    now: u64,
    other: Node,
) -> (at: int)
    requires
        sound(bucket, bucket.ksize, local),
        bucket.lo <= bucket.hi,
        bucket.covers(node.long_id),
        node.id != local,
        node.id != other.id,
        peers_of(bucket).contains(other),
        has_id(peers_of(bucket), node.id) || bucket.spares.len() < 5 * bucket.ksize,
    ensures
        ({
            let after = settle(bucket, local_long, node, now).0;
            0 <= at < after.len() && peers_of(after[at]).contains(other)
        }),
    decreases bucket.hi - bucket.lo,
{
    let seen = bucket.with_node(node);
    let after = settle(bucket, local_long, node, now).0;
    with_node_is_sound(bucket, local, node);
    seen_peer_stays(bucket, node, other);
    if !bucket.accepts(node) && bucket.lo < bucket.hi && splits(seen, local_long) {
        halves_are_sound(seen, local, now);
        a_split_keeps_every_peer(seen, local, now, other);
        a_split_keeps_every_peer(seen, local, now, node);
        let low = seen.low_half(now);
        let high = seen.high_half(now);
        assert(peers_of(seen).contains(node)) by {
            let k = peers_of(seen).len() - 1;
            assert(peers_of(seen)[k] == seen.spares.last());
        }
        if node.long_id <= seen.middle() {
            let inner = settle(low, local_long, node, now).0;
            if other.long_id <= seen.middle() {
                let k = choose|k: int| 0 <= k < peers_of(low).len() && peers_of(low)[k] == node;
                assert(has_id(peers_of(low), node.id));
                let at = settled_peer_stays(low, local, local_long, node, now, other);
                assert(after[at] == inner[at]);
                at
            } else {
                assert(after[inner.len() as int] == high);
                inner.len() as int
            }
        } else {
            let inner = settle(high, local_long, node, now).0;
            if other.long_id <= seen.middle() {
                assert(after[0] == low);
                0
            } else {
                let k = choose|k: int| 0 <= k < peers_of(high).len() && peers_of(high)[k] == node;
                assert(has_id(peers_of(high), node.id));
                let at = settled_peer_stays(high, local, local_long, node, now, other);
                assert(after[at + 1] == inner[at]);
                at + 1
            }
        }
    } else {
        assert(after[0] == seen);
        0
    }
}

proof fn seen_peer_stays(bucket: BucketModel, node: Node, other: Node)
    requires
        bucket.wf(),
        node.id != other.id,
        peers_of(bucket).contains(other),
        has_id(peers_of(bucket), node.id) || bucket.spares.len() < 5 * bucket.ksize,
    ensures
        peers_of(bucket.with_node(node)).contains(other),
        !bucket.accepts(node) ==> bucket.with_node(node).spares.len() > 0
            && bucket.with_node(node).spares.last() == node,
{
    let seen = bucket.with_node(node);
    both_are_distinct(bucket);
    let all = peers_of(bucket);
    let k = choose|k: int| 0 <= k < all.len() && all[k] == other;
    let keep = |n: Node| n.id != node.id;
    filter_members(bucket.nodes, keep);
    filter_members(bucket.spares, keep);
    if bucket.accepts(node) {
        if k < bucket.nodes.len() {
            assert(bucket.nodes[k] == other);
            assert(bucket.nodes.contains(other));
            let kept = bucket.nodes.filter(keep);
            assert(kept.contains(other));
            let i = choose|i: int| 0 <= i < kept.len() && kept[i] == other;
            assert(peers_of(seen)[i] == other);
        } else {
            assert(bucket.spares[k - bucket.nodes.len()] == other);
            assert(peers_of(seen)[seen.nodes.len() + (k - bucket.nodes.len())] == other);
        }
    } else {
        let kept = bucket.spares.filter(keep);
        if has_id(all, node.id) {
            let j = choose|j: int| 0 <= j < all.len() && (#[trigger] all[j]).id == node.id;
            if j < bucket.nodes.len() {
                assert(bucket.nodes[j] == all[j]);
                assert(has_id(bucket.nodes, node.id));
            } else {
                assert(bucket.spares[j - bucket.nodes.len()] == all[j]);
                without_one(bucket.spares, j - bucket.nodes.len());
            }
        }
        assert(kept.len() < 5 * bucket.ksize);
        assert(seen.spares == kept.push(node));
        if k < bucket.nodes.len() {
            assert(peers_of(seen)[k] == other);
        } else {
            assert(bucket.spares[k - bucket.nodes.len()] == other);
            assert(bucket.spares.contains(other));
            assert(kept.contains(other));
            let i = choose|i: int| 0 <= i < kept.len() && kept[i] == other;
            assert(peers_of(seen)[seen.nodes.len() + i] == other);
        }
    }
}

/// Seeing a peer makes the table forget no other, contact or spare, however often
/// buckets are split, as long as the bucket has room for one spare more.
pub proof fn seeing_a_peer_forgets_no_other(
    table: TableModel,
    node: Node,
    now: u64,
    bucket: int,
    other: Node,
)
    requires
        table.wf(),
        0 <= bucket < table.buckets.len(),
        table.buckets[bucket].lo <= node.long_id <= table.buckets[bucket].hi,
        table.buckets[bucket].spares.len() < 5 * table.ksize,
        table.buckets[bucket].nodes.contains(other) || table.buckets[bucket].spares.contains(other),
        other.id != node.id,
    ensures
        exists|i: int|
            0 <= i < table.with_contact(node, now).buckets.len() && ((
            #[trigger] table.with_contact(node, now).buckets[i]).nodes.contains(other)
                || table.with_contact(node, now).buckets[i].spares.contains(other)),
{
    buckets_partition_the_keyspace(table, node.long_id);
    let home = table.buckets[bucket];
    assert(home.covers(node.long_id));
    let after = table.with_contact(node, now);
    if node.id == table.local.id {
        assert(after.buckets[bucket] == home);
    } else {
        reveal(TableModel::wf);
        let all = peers_of(home);
        if home.nodes.contains(other) {
            let k = choose|k: int| 0 <= k < home.nodes.len() && home.nodes[k] == other;
            assert(all[k] == other);
        } else {
            let k = choose|k: int| 0 <= k < home.spares.len() && home.spares[k] == other;
            assert(all[home.nodes.len() + k] == other);
        }
        let local_long = table.local.long_id;
        let inner = settle(home, local_long, node, now).0;
        let at = settled_peer_stays(home, table.local.id, local_long, node, now, other);
        let part = inner[at];
        assert(after.buckets[bucket + at] == part);
        let j = choose|j: int| 0 <= j < peers_of(part).len() && peers_of(part)[j] == other;
        if j < part.nodes.len() {
            assert(part.nodes[j] == other);
        } else {
            assert(part.spares[j - part.nodes.len()] == other);
        }
    }
}

} // verus!
