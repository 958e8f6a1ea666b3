//! Lists of peers in order of their distance from a pivot.

use vstd::prelude::*;

use crate::node::big_endian;
use crate::node::big_endian_injective;
use crate::node::id_below;
use crate::node::same_id;
use crate::node::xor_distance;
use crate::node::Node;
use crate::utils::ID_LEN;

verus! {

/// `a` comes before `b` seen from `pivot`: it is nearer or, at one distance,
/// has the smaller ID.
pub open spec fn precedes(pivot: u128, a: Node, b: Node) -> bool {
    let near = xor_distance(pivot, a.long_id);
    let far = xor_distance(pivot, b.long_id);
    near < far || (near == far && big_endian(a.id@) < big_endian(b.id@))
}

/// Every peer of `nodes` comes before those behind it.
pub open spec fn ranked(pivot: u128, nodes: Seq<Node>) -> bool {
    forall|i: int, j: int|
        0 <= i < j < nodes.len() ==> precedes(pivot, #[trigger] nodes[i], #[trigger] nodes[j])
}

/// No two peers of `nodes` have one ID.
pub open spec fn distinct_ids(nodes: Seq<Node>) -> bool {
    forall|i: int, j: int|
        0 <= i < j < nodes.len() ==> (#[trigger] nodes[i]).id != (#[trigger] nodes[j]).id
}

/// A peer of `nodes` has the ID.
pub open spec fn has_id(nodes: Seq<Node>, id: [u8; ID_LEN]) -> bool {
    exists|i: int| 0 <= i < nodes.len() && (#[trigger] nodes[i]).id == id
}

/// Where `node` belongs in the ranked list `nodes`: behind the last peer that
/// comes before it.
pub open spec fn place(pivot: u128, nodes: Seq<Node>, node: Node) -> int
    decreases nodes.len(),
{
    if nodes.len() == 0 {
        0
    } else if precedes(pivot, nodes.last(), node) {
        nodes.len() as int
    } else {
        place(pivot, nodes.drop_last(), node)
    }
}

/// `nodes` with `node` in its place, unless its ID is already there.
pub open spec fn offer(pivot: u128, nodes: Seq<Node>, node: Node) -> Seq<Node> {
    if has_id(nodes, node.id) {
        nodes
    } else {
        nodes.insert(place(pivot, nodes, node), node)
    }
}

/// `nodes` after every peer of `offered` was offered in turn.
pub open spec fn offer_all(pivot: u128, nodes: Seq<Node>, offered: Seq<Node>) -> Seq<Node>
    decreases offered.len(),
{
    if offered.len() == 0 {
        nodes
    } else {
        offer(pivot, offer_all(pivot, nodes, offered.drop_last()), offered.last())
    }
}

/// At most the first `count` peers.
pub open spec fn at_most(nodes: Seq<Node>, count: nat) -> Seq<Node> {
    if nodes.len() <= count {
        nodes
    } else {
        nodes.take(count as int)
    }
}

/// The place of a peer in a list: the one before comes before the peer, and none from
/// there on does.
pub proof fn place_bounds(pivot: u128, nodes: Seq<Node>, node: Node)
    ensures
        0 <= place(pivot, nodes, node) <= nodes.len(),
        forall|i: int|
            place(pivot, nodes, node) <= i < nodes.len() ==> !precedes(
                pivot,
                #[trigger] nodes[i],
                node,
            ),
        place(pivot, nodes, node) > 0 ==> precedes(
            pivot,
            nodes[place(pivot, nodes, node) - 1],
            node,
        ),
    decreases nodes.len(),
{
    if nodes.len() > 0 && !precedes(pivot, nodes.last(), node) {
        place_bounds(pivot, nodes.drop_last(), node);
        assert forall|i: int| place(pivot, nodes, node) <= i < nodes.len() implies !precedes(
            pivot,
            #[trigger] nodes[i],
            node,
        ) by {
            if i < nodes.len() - 1 {
                assert(nodes.drop_last()[i] == nodes[i]);
            }
        }
    }
}

/// Of two peers with different IDs one comes before the other.
pub proof fn precedes_is_total(pivot: u128, a: Node, b: Node)
    requires
        a.id != b.id,
    ensures
        precedes(pivot, a, b) || precedes(pivot, b, a),
{
    if big_endian(a.id@) == big_endian(b.id@) {
        big_endian_injective(a.id@, b.id@);
        assert(a.id =~= b.id);
    }
}

/// Offering a peer to a ranked list without repeated IDs leaves it ranked and
/// without repeated IDs.
pub proof fn offer_keeps_order(pivot: u128, nodes: Seq<Node>, node: Node)
    requires
        ranked(pivot, nodes),
        distinct_ids(nodes),
    ensures
        ranked(pivot, offer(pivot, nodes, node)),
        distinct_ids(offer(pivot, nodes, node)),
        offer(pivot, nodes, node).len() == nodes.len() + if has_id(nodes, node.id) {
            0int
        } else {
            1int
        },
{
    if !has_id(nodes, node.id) {
        let at = place(pivot, nodes, node);
        place_bounds(pivot, nodes, node);
        let result = offer(pivot, nodes, node);
        assert forall|i: int, j: int| 0 <= i < j < result.len() implies precedes(
            pivot,
            #[trigger] result[i],
            #[trigger] result[j],
        ) && result[i].id != result[j].id by {
            let from = if i < at { i } else { i - 1 };
            let to = if j < at { j } else { j - 1 };
            if i != at && j != at {
                assert(result[i] == nodes[from]);
                assert(result[j] == nodes[to]);
            } else if j == at {
                assert(result[i] == nodes[i]);
                assert(nodes[i].id != node.id);
                if i < at - 1 {
                    assert(precedes(pivot, nodes[i], nodes[at - 1]));
                }
            } else {
                assert(result[j] == nodes[j - 1]);
                assert(nodes[j - 1].id != node.id);
                precedes_is_total(pivot, node, nodes[j - 1]);
            }
        }
    }
}

/// The list after an offer has the IDs it had and that of the offered peer.
pub proof fn offer_ids(pivot: u128, nodes: Seq<Node>, node: Node, id: [u8; ID_LEN])
    ensures
        has_id(offer(pivot, nodes, node), id) <==> has_id(nodes, id) || id == node.id,
{
    let result = offer(pivot, nodes, node);
    if !has_id(nodes, node.id) {
        let at = place(pivot, nodes, node);
        place_bounds(pivot, nodes, node);
        assert(result[at] == node);
        if has_id(nodes, id) {
            let i = choose|i: int| 0 <= i < nodes.len() && (#[trigger] nodes[i]).id == id;
            assert(result[if i < at { i } else { i + 1 }] == nodes[i]);
        }
        if has_id(result, id) && id != node.id {
            let i = choose|i: int| 0 <= i < result.len() && (#[trigger] result[i]).id == id;
            assert(result[i] == nodes[if i < at { i } else { i - 1 }]);
        }
    }
}

/// Every peer of the list after an offer was there before or is the one
/// offered.
pub proof fn offer_members(pivot: u128, nodes: Seq<Node>, node: Node, member: Node)
    requires
        offer(pivot, nodes, node).contains(member),
    ensures
        nodes.contains(member) || member == node,
{
    if !has_id(nodes, node.id) {
        let result = offer(pivot, nodes, node);
        let at = place(pivot, nodes, node);
        place_bounds(pivot, nodes, node);
        let i = choose|i: int| 0 <= i < result.len() && result[i] == member;
        if i != at {
            assert(result[i] == nodes[if i < at { i } else { i - 1 }]);
        }
    }
}

/// Offering many peers to a ranked list without repeated IDs leaves it ranked
/// and without repeated IDs, with the IDs of both and no others, and with no
/// peer from elsewhere.
pub proof fn offer_all_keeps_order(pivot: u128, nodes: Seq<Node>, offered: Seq<Node>)
    requires
        ranked(pivot, nodes),
        distinct_ids(nodes),
    ensures
        ranked(pivot, offer_all(pivot, nodes, offered)),
        distinct_ids(offer_all(pivot, nodes, offered)),
        forall|id: [u8; ID_LEN]|
            has_id(offer_all(pivot, nodes, offered), id) <==> has_id(nodes, id) || has_id(
                offered,
                id,
            ),
        forall|member: Node|
            offer_all(pivot, nodes, offered).contains(member) ==> nodes.contains(member)
                || offered.contains(member),
    decreases offered.len(),
{
    if offered.len() > 0 {
        let before = offer_all(pivot, nodes, offered.drop_last());
        offer_all_keeps_order(pivot, nodes, offered.drop_last());
        offer_keeps_order(pivot, before, offered.last());
        let after = offer_all(pivot, nodes, offered);
        assert forall|id: [u8; ID_LEN]| has_id(after, id) <==> has_id(nodes, id) || has_id(
            offered,
            id,
        ) by {
            offer_ids(pivot, before, offered.last(), id);
            has_id_drop_last(offered, id);
        }
        assert forall|member: Node| after.contains(member) implies nodes.contains(member)
            || offered.contains(member) by {
            offer_members(pivot, before, offered.last(), member);
            if offered.drop_last().contains(member) {
                let i = choose|i: int|
                    0 <= i < offered.drop_last().len() && offered.drop_last()[i] == member;
                assert(offered[i] == member);
            }
            if member == offered.last() {
                assert(offered[offered.len() - 1] == member);
            }
        }
    }
}

proof fn has_id_drop_last(nodes: Seq<Node>, id: [u8; ID_LEN])
    requires
        nodes.len() > 0,
    ensures
        has_id(nodes, id) <==> has_id(nodes.drop_last(), id) || nodes.last().id == id,
{
    if has_id(nodes, id) {
        let i = choose|i: int| 0 <= i < nodes.len() && (#[trigger] nodes[i]).id == id;
        if i < nodes.len() - 1 {
            assert(nodes.drop_last()[i] == nodes[i]);
        }
    }
    if has_id(nodes.drop_last(), id) {
        let i = choose|i: int|
            0 <= i < nodes.drop_last().len() && (#[trigger] nodes.drop_last()[i]).id == id;
        assert(nodes[i].id == id);
    }
    if nodes.last().id == id {
        assert(nodes[nodes.len() - 1].id == id);
    }
}

/// A bounded ranked list that peers were offered to holds the nearest of them:
/// a peer that was in the list or was offered, and is not in the list that is
/// kept, comes behind every peer that is kept, and the list is full.
pub proof fn the_nearest_are_kept(
    pivot: u128,
    nodes: Seq<Node>,
    offered: Seq<Node>,
    bound: nat,
    candidate: Node,
)
    requires
        ranked(pivot, nodes),
        distinct_ids(nodes),
        nodes.contains(candidate) || offered.contains(candidate),
        candidate.wf(),
        forall|i: int| 0 <= i < nodes.len() ==> (#[trigger] nodes[i]).wf(),
        forall|i: int| 0 <= i < offered.len() ==> (#[trigger] offered[i]).wf(),
    ensures
        ({
            let kept = at_most(offer_all(pivot, nodes, offered), bound);
            has_id(kept, candidate.id) || (kept.len() == bound && forall|i: int|
                0 <= i < kept.len() ==> precedes(pivot, #[trigger] kept[i], candidate))
        }),
{
    let all = offer_all(pivot, nodes, offered);
    let kept = at_most(all, bound);
    offer_all_keeps_order(pivot, nodes, offered);
    assert(has_id(nodes, candidate.id) || has_id(offered, candidate.id));
    let at = choose|i: int| 0 <= i < all.len() && (#[trigger] all[i]).id == candidate.id;
    let found = all[at];
    assert(all.contains(found));
    if nodes.contains(found) {
        let i = choose|i: int| 0 <= i < nodes.len() && nodes[i] == found;
        assert(nodes[i].wf());
    } else {
        let i = choose|i: int| 0 <= i < offered.len() && offered[i] == found;
        assert(offered[i].wf());
    }
    assert(all[at].long_id == candidate.long_id);
    if at < kept.len() {
        assert(kept[at].id == candidate.id);
    } else {
        assert forall|i: int| 0 <= i < kept.len() implies precedes(
            pivot,
            #[trigger] kept[i],
            candidate,
        ) by {
            assert(kept[i] == all[i]);
            assert(precedes(pivot, all[i], all[at]));
        }
    }
}

/// No peer of `nodes` comes before one that stands in front of it.
pub open spec fn in_order(pivot: u128, nodes: Seq<Node>) -> bool {
    forall|i: int, j: int|
        0 <= i < j < nodes.len() ==> !precedes(pivot, #[trigger] nodes[j], #[trigger] nodes[i])
}

/// The peers of `nodes`, nearest to the pivot first.
pub open spec fn arranged(pivot: u128, nodes: Seq<Node>) -> Seq<Node>
    decreases nodes.len(),
{
    if nodes.len() == 0 {
        nodes
    } else {
        let front = arranged(pivot, nodes.drop_last());
        front.insert(place(pivot, front, nodes.last()), nodes.last())
    }
}

/// Arranging peers neither adds nor loses any, and puts the nearest first.
pub proof fn arranged_is_sorted(pivot: u128, nodes: Seq<Node>)
    ensures
        in_order(pivot, arranged(pivot, nodes)),
        arranged(pivot, nodes).to_multiset() == nodes.to_multiset(),
        arranged(pivot, nodes).len() == nodes.len(),
        forall|node: Node| arranged(pivot, nodes).contains(node) <==> nodes.contains(node),
    decreases nodes.len(),
{
    if nodes.len() > 0 {
        let front = arranged(pivot, nodes.drop_last());
        let at = place(pivot, front, nodes.last());
        let result = arranged(pivot, nodes);
        arranged_is_sorted(pivot, nodes.drop_last());
        place_bounds(pivot, front, nodes.last());
        assert forall|i: int, j: int| 0 <= i < j < result.len() implies !precedes(
            pivot,
            #[trigger] result[j],
            #[trigger] result[i],
        ) by {
            let from = if i < at { i } else { i - 1 };
            let to = if j < at { j } else { j - 1 };
            if i != at && j != at {
                assert(result[i] == front[from] && result[j] == front[to]);
            } else if j == at {
                assert(result[i] == front[i]);
                if i < at - 1 {
                    assert(!precedes(pivot, front[at - 1], front[i]));
                }
            } else {
                assert(result[j] == front[j - 1]);
            }
        }
        assert(nodes =~= nodes.drop_last().push(nodes.last()));
        broadcast use {vstd::seq_lib::to_multiset_build, vstd::seq_lib::to_multiset_insert};

        assert(result.to_multiset() =~= nodes.to_multiset());
        assert forall|node: Node| result.contains(node) <==> nodes.contains(node) by {
            broadcast use vstd::seq_lib::to_multiset_contains;

            assert(result.contains(node) <==> result.to_multiset().count(node) > 0);
            assert(nodes.contains(node) <==> nodes.to_multiset().count(node) > 0);
        }
    }
}

/// The peers, nearest to the pivot first.
pub fn arrange(nodes: &Vec<Node>, pivot: u128) -> (result: Vec<Node>)
    ensures
        result@ == arranged(pivot, nodes@),
{
    let mut result: Vec<Node> = Vec::new();
    let mut count: usize = 0;
    assert(nodes@.take(0) =~= result@);
    while count < nodes.len()
        invariant
            count <= nodes@.len(),
            result@ == arranged(pivot, nodes@.take(count as int)),
        decreases nodes@.len() - count,
    {
        let node: Node = nodes[count].clone();
        let mut at: usize = result.len();
        assert(result@.take(at as int) =~= result@);
        while at > 0 && !comes_before(pivot, &result[at - 1], &node)
            invariant
                at <= result@.len(),
                place(pivot, result@, node) == place(pivot, result@.take(at as int), node),
            decreases at,
        {
            assert(result@.take(at as int).drop_last() =~= result@.take(at - 1));
            at = at - 1;
        }
        assert(at > 0 ==> result@.take(at as int).last() == result@[at - 1]);
        assert(nodes@.take(count + 1).drop_last() =~= nodes@.take(count as int));
        result.insert(at, node);
        count = count + 1;
    }
    assert(nodes@.take(count as int) =~= nodes@);
    result
}

/// Whether `a` comes before `b` seen from `pivot`.
pub fn comes_before(pivot: u128, a: &Node, b: &Node) -> (before: bool)
    ensures
        before == precedes(pivot, *a, *b),
{
    let near: u128 = pivot ^ a.long_id;
    let far: u128 = pivot ^ b.long_id;
    near < far || (near == far && id_below(&a.id, &b.id))
}

/// Where in `nodes` the ID stands, if it does.
pub fn find_id(nodes: &Vec<Node>, id: &[u8; ID_LEN]) -> (at: Option<usize>)
    ensures
        match at {
            Some(at) => at < nodes@.len() && nodes@[at as int].id == *id && forall|i: int|
                0 <= i < at ==> (#[trigger] nodes@[i]).id != *id,
            None => !has_id(nodes@, *id),
        },
{
    let mut at: usize = 0;
    while at < nodes.len()
        invariant
            at <= nodes@.len(),
            forall|i: int| 0 <= i < at ==> (#[trigger] nodes@[i]).id != *id,
        decreases nodes@.len() - at,
    {
        if same_id(&nodes[at].id, id) {
            return Some(at);
        }
        at = at + 1;
    }
    None
}

/// Puts `node` in its place in the ranked list, unless its ID is already there.
pub fn offer_node(nodes: &mut Vec<Node>, pivot: u128, node: Node)
    ensures
        final(nodes)@ == offer(pivot, old(nodes)@, node),
{
    if find_id(nodes, &node.id).is_some() {
        return;
    }
    let mut at: usize = nodes.len();
    assert(nodes@.take(at as int) =~= nodes@);
    while at > 0 && !comes_before(pivot, &nodes[at - 1], &node)
        invariant
            at <= nodes@.len(),
            place(pivot, nodes@, node) == place(pivot, nodes@.take(at as int), node),
        decreases at,
    {
        assert(nodes@.take(at as int).drop_last() =~= nodes@.take(at - 1));
        at = at - 1;
    }
    assert(at > 0 ==> nodes@.take(at as int).last() == nodes@[at - 1]);
    nodes.insert(at, node);
}

/// Cuts the list to at most `count` peers.
pub fn cut_to(nodes: &mut Vec<Node>, count: usize)
    ensures
        final(nodes)@ == at_most(old(nodes)@, count as nat),
{
    if nodes.len() > count {
        nodes.truncate(count);
    }
}

} // verus!
