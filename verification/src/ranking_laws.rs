//! Ranked lists of peers, in terms of the XOR distance itself.

use vstd::prelude::*;

use crate::node::Node;
use crate::node::big_endian;
use crate::ranking::arranged;
use crate::ranking::arranged_is_sorted;
use crate::ranking::at_most;
use crate::ranking::distinct_ids;
use crate::ranking::has_id;
use crate::ranking::offer;
use crate::ranking::offer_all;
use crate::ranking::offer_all_keeps_order;
use crate::ranking::place;
use crate::ranking::place_bounds;
use crate::ranking::precedes;
use crate::ranking::precedes_is_total;
use crate::ranking::ranked;
use crate::ranking::the_nearest_are_kept;

verus! {

/// In a ranked list, no peer is farther from the pivot than one behind it: the
/// exclusive or of the pivot and the folded ID does not fall along the list.  At
/// one distance the smaller ID comes first.
pub proof fn ranked_lists_are_by_distance(pivot: u128, nodes: Seq<Node>)
    requires
        ranked(pivot, nodes),
    ensures
        forall|i: int, j: int|
            0 <= i < j < nodes.len() ==> (pivot ^ (#[trigger] nodes[i]).long_id) <= (pivot ^ (
            #[trigger] nodes[j]).long_id),
        forall|i: int, j: int|
            0 <= i < j < nodes.len() && (#[trigger] nodes[i]).long_id == (
            #[trigger] nodes[j]).long_id ==> big_endian(nodes[i].id@) < big_endian(nodes[j].id@),
{
    assert forall|i: int, j: int| 0 <= i < j < nodes.len() implies (pivot ^ (
    #[trigger] nodes[i]).long_id) <= (pivot ^ (#[trigger] nodes[j]).long_id) by {
        assert(precedes(pivot, nodes[i], nodes[j]));
    }
    assert forall|i: int, j: int| 0 <= i < j < nodes.len() && (#[trigger] nodes[i]).long_id == (
    #[trigger] nodes[j]).long_id implies big_endian(nodes[i].id@) < big_endian(nodes[j].id@) by {
        assert(precedes(pivot, nodes[i], nodes[j]));
    }
}

/// Arranging peers puts them in order of their XOR distance from the pivot, and
/// keeps each as often as it was there.
pub proof fn arranging_sorts_by_distance(pivot: u128, nodes: Seq<Node>)
    ensures
        forall|i: int, j: int|
            0 <= i < j < nodes.len() ==> (pivot ^ (#[trigger] arranged(pivot, nodes)[i]).long_id)
                <= (pivot ^ (#[trigger] arranged(pivot, nodes)[j]).long_id),
        arranged(pivot, nodes).len() == nodes.len(),
        arranged(pivot, nodes).to_multiset() == nodes.to_multiset(),
{
    arranged_is_sorted(pivot, nodes);
    let list = arranged(pivot, nodes);
    assert forall|i: int, j: int| 0 <= i < j < nodes.len() implies (pivot ^ (
    #[trigger] list[i]).long_id) <= (pivot ^ (#[trigger] list[j]).long_id) by {
        assert(!precedes(pivot, list[j], list[i]));
    }
}

/// A bounded list that peers were offered to keeps the nearest: a peer that it had
/// or was offered is in it, or it is full and no peer in it is farther from the
/// pivot.  The list is in order of distance, no peer in it comes from elsewhere,
/// and no ID is there twice.
pub proof fn a_bounded_list_keeps_the_nearest(
    pivot: u128,
    nodes: Seq<Node>,
    offered: Seq<Node>,
    bound: nat,
    peer: Node,
)
    requires
        ranked(pivot, nodes),
        distinct_ids(nodes),
        forall|i: int| 0 <= i < nodes.len() ==> (#[trigger] nodes[i]).wf(),
        forall|i: int| 0 <= i < offered.len() ==> (#[trigger] offered[i]).wf(),
        nodes.contains(peer) || offered.contains(peer),
    ensures
        ({
            let kept = at_most(offer_all(pivot, nodes, offered), bound);
            &&& kept.len() <= bound
            &&& forall|i: int, j: int|
                0 <= i < j < kept.len() ==> (#[trigger] kept[i]).id != (#[trigger] kept[j]).id && (
                pivot ^ kept[i].long_id) <= (pivot ^ kept[j].long_id)
            &&& forall|i: int|
                0 <= i < kept.len() ==> nodes.contains(#[trigger] kept[i]) || offered.contains(
                    kept[i],
                )
            &&& (exists|i: int| 0 <= i < kept.len() && (#[trigger] kept[i]).id == peer.id) || (
            kept.len() == bound && forall|i: int|
                0 <= i < kept.len() ==> (pivot ^ (#[trigger] kept[i]).long_id) <= (pivot
                    ^ peer.long_id))
        }),
{
    let all = offer_all(pivot, nodes, offered);
    let kept = at_most(all, bound);
    offer_all_keeps_order(pivot, nodes, offered);
    ranked_lists_are_by_distance(pivot, all);
    assert forall|i: int, j: int| 0 <= i < j < kept.len() implies (#[trigger] kept[i]).id != (
    #[trigger] kept[j]).id && (pivot ^ kept[i].long_id) <= (pivot ^ kept[j].long_id) by {
        assert(kept[i] == all[i] && kept[j] == all[j]);
    }
    assert forall|i: int| 0 <= i < kept.len() implies nodes.contains(#[trigger] kept[i])
        || offered.contains(kept[i]) by {
        assert(all.contains(all[i]));
    }
    assert(peer.wf()) by {
        if nodes.contains(peer) {
            let k = choose|k: int| 0 <= k < nodes.len() && nodes[k] == peer;
            assert(nodes[k].wf());
        } else {
            let k = choose|k: int| 0 <= k < offered.len() && offered[k] == peer;
            assert(offered[k].wf());
        }
    }
    the_nearest_are_kept(pivot, nodes, offered, bound, peer);
    if !has_id(kept, peer.id) {
        assert forall|i: int| 0 <= i < kept.len() implies (pivot ^ (#[trigger] kept[i]).long_id)
            <= (pivot ^ peer.long_id) by {
            assert(precedes(pivot, kept[i], peer));
        }
    }
}

/// Offering a peer to a ranked list makes no place of it farther.
proof fn an_offer_brings_nearer(pivot: u128, nodes: Seq<Node>, node: Node)
    requires
        ranked(pivot, nodes),
        distinct_ids(nodes),
    ensures
        nodes.len() <= offer(pivot, nodes, node).len(),
        forall|i: int|
            0 <= i < nodes.len() ==> (pivot ^ (#[trigger] offer(pivot, nodes, node)[i]).long_id)
                <= (pivot ^ nodes[i].long_id),
{
    if !has_id(nodes, node.id) {
        let at = place(pivot, nodes, node);
        let after = offer(pivot, nodes, node);
        place_bounds(pivot, nodes, node);
        assert forall|i: int| 0 <= i < nodes.len() implies (pivot ^ (#[trigger] after[i]).long_id)
            <= (pivot ^ nodes[i].long_id) by {
            if i < at {
                assert(after[i] == nodes[i]);
            } else if i == at {
                assert(after[i] == node);
                assert(nodes[i].id != node.id);
                precedes_is_total(pivot, node, nodes[i]);
            } else {
                assert(after[i] == nodes[i - 1]);
                assert(precedes(pivot, nodes[i - 1], nodes[i]));
            }
        }
    }
}

/// Offering peers to a ranked list makes no place of it farther.
pub proof fn offers_bring_nearer(pivot: u128, nodes: Seq<Node>, offered: Seq<Node>)
    requires
        ranked(pivot, nodes),
        distinct_ids(nodes),
    ensures
        nodes.len() <= offer_all(pivot, nodes, offered).len(),
        forall|i: int|
            0 <= i < nodes.len() ==> (pivot ^ (#[trigger] offer_all(
                pivot,
                nodes,
                offered,
            )[i]).long_id) <= (pivot ^ nodes[i].long_id),
    decreases offered.len(),
{
    if offered.len() > 0 {
        let before = offer_all(pivot, nodes, offered.drop_last());
        offers_bring_nearer(pivot, nodes, offered.drop_last());
        offer_all_keeps_order(pivot, nodes, offered.drop_last());
        an_offer_brings_nearer(pivot, before, offered.last());
        assert forall|i: int| 0 <= i < nodes.len() implies (pivot ^ (#[trigger] offer_all(
            pivot,
            nodes,
            offered,
        )[i]).long_id) <= (pivot ^ nodes[i].long_id) by {
            assert((pivot ^ before[i].long_id) <= (pivot ^ nodes[i].long_id));
        }
    }
}

/// Offering peers takes nothing away: who is in the list stays as they are, whatever
/// peer with the same ID is offered, and of every offered ID there is someone.
pub proof fn an_offer_takes_nothing_away(
    pivot: u128,
    nodes: Seq<Node>,
    offered: Seq<Node>,
    at: int,
    which: int,
)
    requires
        ranked(pivot, nodes),
        distinct_ids(nodes),
    ensures
        0 <= at < nodes.len() ==> offer_all(pivot, nodes, offered).contains(nodes[at]),
        0 <= which < offered.len() ==> exists|i: int|
            0 <= i < offer_all(pivot, nodes, offered).len() && (#[trigger] offer_all(
                pivot,
                nodes,
                offered,
            )[i]).id == offered[which].id,
    decreases offered.len(),
{
    offer_all_keeps_order(pivot, nodes, offered);
    if 0 <= which < offered.len() {
        assert(has_id(offered, offered[which].id));
        assert(has_id(offer_all(pivot, nodes, offered), offered[which].id));
    }
    if 0 <= at < nodes.len() {
        if offered.len() > 0 {
            let before = offer_all(pivot, nodes, offered.drop_last());
            an_offer_takes_nothing_away(pivot, nodes, offered.drop_last(), at, -1);
            let k = choose|k: int| 0 <= k < before.len() && before[k] == nodes[at];
            let node = offered.last();
            if !has_id(before, node.id) {
                place_bounds(pivot, before, node);
                let place = place(pivot, before, node);
                let after = offer(pivot, before, node);
                assert(after[if k < place {
                    k
                } else {
                    k + 1
                }] == nodes[at]);
            }
        } else {
            assert(offer_all(pivot, nodes, offered) == nodes);
        }
    }
}

} // verus!
