//! What holds of every routing table that calls can lead to.

use vstd::prelude::*;

use crate::bucket::shared_bits;
use crate::bucket::without;
use crate::bucket::BucketModel;
use crate::node::Node;
use crate::ranking::has_id;
use crate::routing::chain;
use crate::routing::covered_exactly_once;
use crate::routing::halves_are_sound;
use crate::routing::is_block;
use crate::routing::looked_up_keeps_wf;
use crate::routing::peers_of;
use crate::routing::settle;
use crate::routing::sound;
use crate::routing::splits;
use crate::routing::with_contact_keeps_wf;
use crate::routing::with_node_is_sound;
use crate::routing::without_contact_keeps_wf;
use crate::routing::TableModel;
use crate::routing_laws::a_seen_peer_is_contact_or_spare;
use crate::seqs::filter_members;
use crate::utils::ID_LEN;

verus! {

/// Every contact and spare of the bucket is as `keep` asks.
pub open spec fn only(bucket: BucketModel, keep: spec_fn(Node) -> bool) -> bool {
    forall|i: int| 0 <= i < peers_of(bucket).len() ==> keep(#[trigger] peers_of(bucket)[i])
}

/// Every contact and spare of the table is as `keep` asks.
pub open spec fn only_in(table: TableModel, keep: spec_fn(Node) -> bool) -> bool {
    forall|i: int| 0 <= i < table.buckets.len() ==> only(#[trigger] table.buckets[i], keep)
}

proof fn only_of_parts(bucket: BucketModel, keep: spec_fn(Node) -> bool)
    ensures
        only(bucket, keep) <==> (forall|i: int|
            0 <= i < bucket.nodes.len() ==> keep(#[trigger] bucket.nodes[i])) && (forall|i: int|
            0 <= i < bucket.spares.len() ==> keep(#[trigger] bucket.spares[i])),
{
    let all = peers_of(bucket);
    if only(bucket, keep) {
        assert forall|i: int| 0 <= i < bucket.nodes.len() implies keep(
            #[trigger] bucket.nodes[i],
        ) by {
            assert(all[i] == bucket.nodes[i]);
        }
        assert forall|i: int| 0 <= i < bucket.spares.len() implies keep(
            #[trigger] bucket.spares[i],
        ) by {
            assert(all[bucket.nodes.len() + i] == bucket.spares[i]);
        }
    }
    if (forall|i: int| 0 <= i < bucket.nodes.len() ==> keep(#[trigger] bucket.nodes[i])) && (forall|
        i: int,
    | 0 <= i < bucket.spares.len() ==> keep(#[trigger] bucket.spares[i])) {
        assert forall|i: int| 0 <= i < all.len() implies keep(#[trigger] all[i]) by {
            if i < bucket.nodes.len() {
                assert(all[i] == bucket.nodes[i]);
            } else {
                assert(all[i] == bucket.spares[i - bucket.nodes.len()]);
            }
        }
    }
}

proof fn without_keeps(nodes: Seq<Node>, id: [u8; ID_LEN], keep: spec_fn(Node) -> bool)
    requires
        forall|i: int| 0 <= i < nodes.len() ==> keep(#[trigger] nodes[i]),
    ensures
        forall|i: int| 0 <= i < without(nodes, id).len() ==> keep(#[trigger] without(nodes, id)[i]),
{
    filter_members(nodes, |n: Node| n.id != id);
    assert forall|i: int| 0 <= i < without(nodes, id).len() implies keep(
        #[trigger] without(nodes, id)[i],
    ) by {
        assert(nodes.contains(without(nodes, id)[i]));
    }
}

proof fn seeing_keeps(bucket: BucketModel, node: Node, keep: spec_fn(Node) -> bool)
    requires
        only(bucket, keep),
        keep(node),
    ensures
        only(bucket.with_node(node), keep),
{
    only_of_parts(bucket, keep);
    without_keeps(bucket.nodes, node.id, keep);
    without_keeps(bucket.spares, node.id, keep);
    let after = bucket.with_node(node);
    let grown = without(bucket.spares, node.id).push(node);
    assert forall|i: int| 0 <= i < after.nodes.len() implies keep(#[trigger] after.nodes[i]) by {
        if bucket.accepts(node) && i < without(bucket.nodes, node.id).len() {
            assert(after.nodes[i] == without(bucket.nodes, node.id)[i]);
        }
    }
    assert forall|i: int| 0 <= i < after.spares.len() implies keep(#[trigger] after.spares[i]) by {
        if !bucket.accepts(node) {
            let drop = grown.len() - after.spares.len();
            assert(after.spares[i] == grown[i + drop]);
            if i + drop < without(bucket.spares, node.id).len() {
                assert(grown[i + drop] == without(bucket.spares, node.id)[i + drop]);
            }
        }
    }
    only_of_parts(after, keep);
}

proof fn removing_keeps(bucket: BucketModel, id: [u8; ID_LEN], keep: spec_fn(Node) -> bool)
    requires
        only(bucket, keep),
    ensures
        only(bucket.without_node(id), keep),
{
    only_of_parts(bucket, keep);
    without_keeps(bucket.nodes, id, keep);
    without_keeps(bucket.spares, id, keep);
    let after = bucket.without_node(id);
    let nodes = without(bucket.nodes, id);
    let spares = without(bucket.spares, id);
    assert forall|i: int| 0 <= i < after.nodes.len() implies keep(#[trigger] after.nodes[i]) by {
        if i < nodes.len() {
            assert(after.nodes[i] == nodes[i]);
        } else {
            assert(after.nodes[i] == spares[spares.len() - 1]);
        }
    }
    assert forall|i: int| 0 <= i < after.spares.len() implies keep(#[trigger] after.spares[i]) by {
        assert(after.spares[i] == spares[i]);
    }
    only_of_parts(after, keep);
}

proof fn halving_keeps(
    bucket: BucketModel,
    local: [u8; ID_LEN],
    now: u64,
    keep: spec_fn(Node) -> bool,
)
    requires
        sound(bucket, bucket.ksize, local),
        bucket.lo < bucket.hi,
        only(bucket, keep),
    ensures
        only(bucket.low_half(now), keep),
        only(bucket.high_half(now), keep),
{
    halves_are_sound(bucket, local, now);
    let all = peers_of(bucket);
    filter_members(all, |n: Node| n.long_id <= bucket.middle());
    filter_members(all, |n: Node| !(n.long_id <= bucket.middle()));
    assert forall|i: int| 0 <= i < bucket.low_side().len() implies keep(
        #[trigger] bucket.low_side()[i],
    ) by {
        assert(all.contains(bucket.low_side()[i]));
    }
    assert forall|i: int| 0 <= i < bucket.high_side().len() implies keep(
        #[trigger] bucket.high_side()[i],
    ) by {
        assert(all.contains(bucket.high_side()[i]));
    }
}

proof fn settling_keeps(
    bucket: BucketModel,
    local: [u8; ID_LEN],
    local_long: u128,
    node: Node,
    now: u64,
    keep: spec_fn(Node) -> bool,
)
    requires
        sound(bucket, bucket.ksize, local),
        bucket.covers(node.long_id),
        node.id != local,
        only(bucket, keep),
        keep(node),
    ensures
        forall|i: int|
            0 <= i < settle(bucket, local_long, node, now).0.len() ==> only(
                #[trigger] settle(bucket, local_long, node, now).0[i],
                keep,
            ),
    decreases bucket.hi - bucket.lo,
{
    let seen = bucket.with_node(node);
    let after = settle(bucket, local_long, node, now).0;
    seeing_keeps(bucket, node, keep);
    with_node_is_sound(bucket, local, node);
    if !bucket.accepts(node) && bucket.lo < bucket.hi && splits(seen, local_long) {
        halving_keeps(seen, local, now, keep);
        halves_are_sound(seen, local, now);
        let low = seen.low_half(now);
        let high = seen.high_half(now);
        if node.long_id <= seen.middle() {
            settling_keeps(low, local, local_long, node, now, keep);
            let inner = settle(low, local_long, node, now).0;
            assert forall|i: int| 0 <= i < after.len() implies only(#[trigger] after[i], keep) by {
                if i < inner.len() {
                    assert(after[i] == inner[i]);
                } else {
                    assert(after[i] == high);
                }
            }
        } else {
            settling_keeps(high, local, local_long, node, now, keep);
            let inner = settle(high, local_long, node, now).0;
            assert forall|i: int| 0 <= i < after.len() implies only(#[trigger] after[i], keep) by {
                if i > 0 {
                    assert(after[i] == inner[i - 1]);
                } else {
                    assert(after[i] == low);
                }
            }
        }
    }
}

proof fn replacing_keeps(
    table: TableModel,
    at: int,
    buckets: Seq<BucketModel>,
    keep: spec_fn(Node) -> bool,
)
    requires
        only_in(table, keep),
        0 <= at < table.buckets.len(),
        forall|i: int| 0 <= i < buckets.len() ==> only(#[trigger] buckets[i], keep),
    ensures
        only_in(table.with_buckets(at, buckets), keep),
{
    let after = table.with_buckets(at, buckets);
    assert forall|i: int| 0 <= i < after.buckets.len() implies only(
        #[trigger] after.buckets[i],
        keep,
    ) by {
        if i < at {
            assert(after.buckets[i] == table.buckets[i]);
        } else if i < at + buckets.len() {
            assert(after.buckets[i] == buckets[i - at]);
        } else {
            assert(after.buckets[i] == table.buckets[i - buckets.len() + 1]);
        }
    }
}

/// Something that happens to a routing table.
pub enum TableStep {
    Seen { node: Node, now: u64 },
    Removed { node: Node },
    LookedUp { long_id: u128, now: u64 },
}

/// The table after one step.
pub open spec fn stepped(table: TableModel, step: TableStep) -> TableModel {
    match step {
        TableStep::Seen { node, now } => table.with_contact(node, now),
        TableStep::Removed { node } => table.without_contact(node),
        TableStep::LookedUp { long_id, now } => table.looked_up(long_id, now),
    }
}

/// The table after all steps.
pub open spec fn after_steps(table: TableModel, steps: Seq<TableStep>) -> TableModel
    decreases steps.len(),
{
    if steps.len() == 0 {
        table
    } else {
        stepped(after_steps(table, steps.drop_last()), steps.last())
    }
}

/// An empty table made at `now`.
pub open spec fn fresh_table(local: Node, ksize: nat, now: u64) -> TableModel {
    TableModel {
        local,
        ksize,
        buckets: seq![BucketModel::filled(0, u128::MAX, ksize, now, Seq::empty())],
    }
}

/// The folded ID of the peer belongs to its raw one.
pub open spec fn genuine() -> spec_fn(Node) -> bool {
    |node: Node| node.wf()
}

/// Every peer that is seen has the folded ID that belongs to its raw one.
pub open spec fn sees_genuine_peers(steps: Seq<TableStep>) -> bool {
    forall|i: int|
        0 <= i < steps.len() ==> match #[trigger] steps[i] {
            TableStep::Seen { node, .. } => node.wf(),
            _ => true,
        }
}

proof fn fresh_is_in_order(local: Node, ksize: nat, now: u64)
    ensures
        fresh_table(local, ksize, now).wf(),
        only_in(fresh_table(local, ksize, now), genuine()),
{
    reveal(TableModel::wf);
    assert(is_block(0, u128::MAX)) by {
        assert(((0u128 ^ u128::MAX) >> 1u128) & (0u128 ^ u128::MAX) == (0u128 ^ u128::MAX) >> 1u128
            && 0u128 & (0u128 ^ u128::MAX) == 0) by (bit_vector);
    }
    let bucket = BucketModel::filled(0, u128::MAX, ksize, now, Seq::empty());
    assert(peers_of(bucket) =~= Seq::empty());
    assert(bucket.nodes + bucket.spares =~= Seq::empty());
}

/// A step keeps a table in order, and keeps its peers as `keep` asks if the peer
/// that is seen is so.
proof fn step_keeps(table: TableModel, step: TableStep, keep: spec_fn(Node) -> bool)
    requires
        table.wf(),
        only_in(table, keep),
        step matches TableStep::Seen { node, .. } ==> keep(node),
    ensures
        stepped(table, step).wf(),
        only_in(stepped(table, step), keep),
        stepped(table, step).local == table.local,
        stepped(table, step).ksize == table.ksize,
{
    match step {
        TableStep::Seen { node, now } => {
            with_contact_keeps_wf(table, node, now);
            if node.id != table.local.id {
                reveal(TableModel::wf);
                covered_exactly_once(table.buckets, 0, u128::MAX as int, node.long_id);
                let at = table.home(node.long_id);
                let bucket = table.buckets[at];
                let local_long = table.local.long_id;
                assert(only(bucket, keep));
                settling_keeps(bucket, table.local.id, local_long, node, now, keep);
                replacing_keeps(table, at, settle(bucket, local_long, node, now).0, keep);
            }
        },
        TableStep::Removed { node } => {
            without_contact_keeps_wf(table, node);
            reveal(TableModel::wf);
            covered_exactly_once(table.buckets, 0, u128::MAX as int, node.long_id);
            let at = table.home(node.long_id);
            assert(only(table.buckets[at], keep));
            removing_keeps(table.buckets[at], node.id, keep);
            replacing_keeps(table, at, seq![table.buckets[at].without_node(node.id)], keep);
        },
        TableStep::LookedUp { long_id, now } => {
            looked_up_keeps_wf(table, long_id, now);
            reveal(TableModel::wf);
            covered_exactly_once(table.buckets, 0, u128::MAX as int, long_id);
            let at = table.home(long_id);
            let touched = BucketModel { updated: now, ..table.buckets[at] };
            assert(only(table.buckets[at], keep));
            assert(peers_of(touched) == peers_of(table.buckets[at]));
            replacing_keeps(table, at, seq![touched], keep);
        },
    }
}

proof fn steps_keep(local: Node, ksize: nat, now: u64, steps: Seq<TableStep>)
    requires
        sees_genuine_peers(steps),
    ensures
        ({
            let table = after_steps(fresh_table(local, ksize, now), steps);
            &&& table.wf()
            &&& only_in(table, genuine())
            &&& table.local == local
            &&& table.ksize == ksize
        }),
    decreases steps.len(),
{
    if steps.len() == 0 {
        fresh_is_in_order(local, ksize, now);
    } else {
        let before = steps.drop_last();
        assert forall|i: int| 0 <= i < before.len() implies match #[trigger] before[i] {
            TableStep::Seen { node, .. } => node.wf(),
            _ => true,
        } by {
            assert(before[i] == steps[i]);
        }
        steps_keep(local, ksize, now, before);
        assert(steps[steps.len() - 1] == steps.last());
        step_keeps(after_steps(fresh_table(local, ksize, now), before), steps.last(), genuine());
    }
}

/// In a table whose peers have the folded IDs that belong to their raw ones, no ID
/// is there twice: neither in two buckets nor in two places of one.
pub proof fn no_id_is_there_twice(table: TableModel, bucket: int, at: int, other: int, place: int)
    requires
        table.wf(),
        only_in(table, genuine()),
        0 <= bucket < table.buckets.len(),
        0 <= other < table.buckets.len(),
        0 <= at < peers_of(table.buckets[bucket]).len(),
        0 <= place < peers_of(table.buckets[other]).len(),
        peers_of(table.buckets[bucket])[at].id == peers_of(table.buckets[other])[place].id,
    ensures
        bucket == other,
        at == place,
{
    reveal(TableModel::wf);
    let a = table.buckets[bucket];
    let b = table.buckets[other];
    assert(sound(a, table.ksize, table.local.id) && sound(b, table.ksize, table.local.id));
    assert(only(a, genuine()) && only(b, genuine()));
    let one = peers_of(a)[at];
    let two = peers_of(b)[place];
    assert(genuine()(one) && genuine()(two));
    assert(one.long_id == two.long_id);
    covered_exactly_once(table.buckets, 0, u128::MAX as int, one.long_id);
    assert(a.covers(one.long_id) && b.covers(two.long_id));
    assert(bucket == other);
    if at < place {
        assert(peers_of(a)[at].id != peers_of(a)[place].id);
    } else if place < at {
        assert(peers_of(a)[place].id != peers_of(a)[at].id);
    }
}

/// Whatever peers a node sees, removes and looks up, its table is in order.  The
/// ranges of the buckets follow on each other from the lowest folded ID to the
/// highest.  Every peer has the folded ID that belongs to its raw one, and is in
/// the bucket that covers it.  No bucket has more contacts than it may hold.  No ID
/// is in the table twice, and the local one is not in it at all.
pub proof fn every_table_is_in_order(local: Node, ksize: nat, now: u64, steps: Seq<TableStep>)
    requires
        sees_genuine_peers(steps),
    ensures
        ({
            let table = after_steps(fresh_table(local, ksize, now), steps);
            &&& table.wf()
            &&& only_in(table, genuine())
            &&& table.local == local
            &&& table.ksize == ksize
            &&& chain(table.buckets, 0, u128::MAX as int)
            &&& forall|i: int|
                0 <= i < table.buckets.len() ==> (#[trigger] table.buckets[i]).nodes.len() <= ksize
            &&& forall|i: int, j: int|
                0 <= i < table.buckets.len() && 0 <= j < peers_of(table.buckets[i]).len() ==> {
                    &&& table.buckets[i].covers((#[trigger] peers_of(table.buckets[i])[j]).long_id)
                    &&& peers_of(table.buckets[i])[j].id != local.id
                }
            &&& forall|i: int, j: int, k: int, l: int|
                0 <= i < table.buckets.len() && 0 <= j < peers_of(table.buckets[i]).len() && 0 <= k
                    < table.buckets.len() && 0 <= l < peers_of(table.buckets[k]).len() && (
                #[trigger] peers_of(table.buckets[i])[j]).id == (
                #[trigger] peers_of(table.buckets[k])[l]).id ==> i == k && j == l
        }),
{
    steps_keep(local, ksize, now, steps);
    let table = after_steps(fresh_table(local, ksize, now), steps);
    assert forall|i: int, j: int, k: int, l: int|
        0 <= i < table.buckets.len() && 0 <= j < peers_of(table.buckets[i]).len() && 0 <= k
            < table.buckets.len() && 0 <= l < peers_of(table.buckets[k]).len() && (
        #[trigger] peers_of(table.buckets[i])[j]).id == (
        #[trigger] peers_of(table.buckets[k])[l]).id implies i == k && j == l by {
        no_id_is_there_twice(table, i, j, k, l);
    }
    reveal(TableModel::wf);
}

/// No peer but the given one has its folded ID.
pub open spec fn apart_from(node: Node) -> spec_fn(Node) -> bool {
    |other: Node| other.long_id == node.long_id ==> other.id == node.id
}

/// Where no two peers share a folded ID, a contact to ping comes from a full
/// bucket that does not cover the local node and whose depth is a multiple of
/// five.
pub proof fn a_ping_comes_from_an_unsplittable_bucket(table: TableModel, node: Node, now: u64)
    requires
        table.wf(),
        table.ksize > 0,
        only_in(table, apart_from(node)),
    ensures
        node.id == table.local.id ==> table.to_ping(node, now) is None && table.with_contact(
            node,
            now,
        ) == table,
        ({
            let after = table.with_contact(node, now);
            let bucket = after.buckets[after.home(node.long_id)];
            table.to_ping(node, now) matches Some(head) ==> {
                &&& bucket.nodes.len() == table.ksize
                &&& bucket.nodes[0] == head
                &&& bucket.covers(node.long_id)
                &&& !bucket.covers(table.local.long_id)
                &&& shared_bits(bucket.nodes) % 5 == 0
            }
        }),
{
    if node.id != table.local.id {
        a_seen_peer_is_contact_or_spare(table, node, now);
        step_keeps(table, TableStep::Seen { node, now }, apart_from(node));
        let after = table.with_contact(node, now);
        let bucket = after.buckets[after.home(node.long_id)];
        if table.to_ping(node, now) is Some {
            reveal(TableModel::wf);
            covered_exactly_once(after.buckets, 0, u128::MAX as int, node.long_id);
            assert(sound(bucket, table.ksize, table.local.id));
            assert(only(bucket, apart_from(node)));
            let head = peers_of(bucket)[0];
            assert(head == bucket.nodes[0]);
            assert(bucket.covers(head.long_id));
            assert(apart_from(node)(head));
            assert(has_id(bucket.nodes, head.id));
            assert(head.id != node.id);
        }
    }
}

} // verus!
