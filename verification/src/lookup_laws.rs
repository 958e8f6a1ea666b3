//! What lookups are for: finding the peers nearest to a key, and the value that
//! most peers hold.

use vstd::prelude::*;

use crate::crawling::leader;
use crate::crawling::leader_leads;
use crate::crawling::held;
use crate::crawling::majority;
use crate::crawling::missing_after;
use crate::crawling::nearest_after;
use crate::crawling::occurrences;
use crate::crawling::peers_in;
use crate::crawling::reached_after;
use crate::crawling::silent;
use crate::crawling::values_in;
use crate::crawling::Answer;
use crate::crawling::FindPayload;
use crate::crawling::NodeSpiderCrawl;
use crate::crawling::PeerTuple;
use crate::crawling::SpiderCrawl;
use crate::crawling::ValueSpiderCrawl;
use crate::node::Node;
use crate::ranking::distinct_ids;
use crate::ranking::has_id;
use crate::ranking::offer_all;
use crate::ranking::offer_all_keeps_order;
use crate::ranking::ranked;
use crate::ranking_laws::a_bounded_list_keeps_the_nearest;
use crate::ranking_laws::offers_bring_nearer;
use crate::ranking_laws::ranked_lists_are_by_distance;
use crate::seqs::filter_members;
use crate::utils::ID_LEN;

verus! {

/// The answer came and names a peer with this ID, IP and port.
pub open spec fn names_peer(answer: Answer, peer: Node) -> bool {
    answer.1.0 && match answer.1.1 {
        FindPayload::Nodes(tuples) => exists|k: int|
            0 <= k < tuples@.len() && (#[trigger] tuples@[k]).0@ == peer.id@ && tuples@[k].1
                == peer.ip && tuples@[k].2 == peer.port,
        _ => false,
    }
}

/// One of the answers names the peer.
pub open spec fn is_named(answers: Seq<Answer>, peer: Node) -> bool {
    exists|a: int| 0 <= a < answers.len() && names_peer(#[trigger] answers[a], peer)
}

/// The peer with the ID was asked and did not answer.
pub open spec fn kept_silent(answers: Seq<Answer>, id: [u8; ID_LEN]) -> bool {
    exists|a: int| 0 <= a < answers.len() && (#[trigger] answers[a]).0 == id && !answers[a].1.0
}

/// Every peer's folded ID belongs to its raw one.
pub open spec fn all_genuine(nodes: Seq<Node>) -> bool {
    forall|i: int| 0 <= i < nodes.len() ==> (#[trigger] nodes[i]).wf()
}

/// The peers that an answer carries are those that it names with IDs of the right
/// length: ID, IP and port are as they were sent, and the folded ID belongs to the
/// raw one.
pub proof fn an_answer_carries_the_peers_it_names(payload: FindPayload, peer: Node)
    requires
        peer.wf(),
    ensures
        peers_in(payload).contains(peer) <==> (payload matches FindPayload::Nodes(tuples) && exists|
            k: int,
        |
            0 <= k < tuples@.len() && (#[trigger] tuples@[k]).0@ == peer.id@ && tuples@[k].1
                == peer.ip && tuples@[k].2 == peer.port),
        forall|i: int| 0 <= i < peers_in(payload).len() ==> (#[trigger] peers_in(payload)[i]).wf(),
{
    if let FindPayload::Nodes(tuples) = payload {
        let sized = |t: PeerTuple| t.0@.len() == ID_LEN;
        let kept = tuples@.filter(sized);
        let peers = peers_in(payload);
        filter_members(tuples@, sized);
        assert forall|i: int| 0 <= i < peers.len() implies (#[trigger] peers[i]).wf() && peers[i].id@
            == kept[i].0@ && peers[i].ip == kept[i].1 && peers[i].port == kept[i].2 by {
            assert(kept.contains(kept[i]));
            assert(sized(kept[i]));
            crate::utils::id_of_has_bytes(kept[i].0@);
        }
        if peers.contains(peer) {
            let i = choose|i: int| 0 <= i < peers.len() && peers[i] == peer;
            assert(kept.contains(kept[i]));
            let k = choose|k: int| 0 <= k < tuples@.len() && tuples@[k] == kept[i];
            assert(tuples@[k].0@ == peer.id@);
        }
        if exists|k: int|
            0 <= k < tuples@.len() && (#[trigger] tuples@[k]).0@ == peer.id@ && tuples@[k].1
                == peer.ip && tuples@[k].2 == peer.port {
            let k = choose|k: int|
                0 <= k < tuples@.len() && (#[trigger] tuples@[k]).0@ == peer.id@ && tuples@[k].1
                    == peer.ip && tuples@[k].2 == peer.port;
            assert(kept.contains(tuples@[k]));
            let i = choose|i: int| 0 <= i < kept.len() && kept[i] == tuples@[k];
            assert(peers[i].id@ == peer.id@);
            assert(peers[i].id =~= peer.id);
            assert(peers[i] == peer);
        }
    }
}

proof fn named_before_or_last(answers: Seq<Answer>, peer: Node)
    requires
        answers.len() > 0,
    ensures
        is_named(answers, peer) <==> is_named(answers.drop_last(), peer) || names_peer(
            answers.last(),
            peer,
        ),
{
    let front = answers.drop_last();
    if is_named(answers, peer) {
        let a = choose|a: int| 0 <= a < answers.len() && names_peer(#[trigger] answers[a], peer);
        if a < front.len() {
            assert(names_peer(front[a], peer));
        }
    }
    if is_named(front, peer) {
        let a = choose|a: int| 0 <= a < front.len() && names_peer(#[trigger] front[a], peer);
        assert(names_peer(answers[a], peer));
    }
    if names_peer(answers.last(), peer) {
        assert(names_peer(answers[answers.len() - 1], peer));
    }
}

proof fn reached_is_in_order(pivot: u128, bound: nat, nodes: Seq<Node>, answers: Seq<Answer>)
    requires
        ranked(pivot, nodes),
        distinct_ids(nodes),
        nodes.len() <= bound,
        all_genuine(nodes),
    ensures
        ranked(pivot, reached_after(pivot, bound, nodes, answers)),
        distinct_ids(reached_after(pivot, bound, nodes, answers)),
        reached_after(pivot, bound, nodes, answers).len() <= bound,
        all_genuine(reached_after(pivot, bound, nodes, answers)),
        nearest_after(pivot, bound, nodes, answers) == reached_after(pivot, bound, nodes, answers),
        forall|i: int|
            0 <= i < reached_after(pivot, bound, nodes, answers).len() ==> nodes.contains(
                #[trigger] reached_after(pivot, bound, nodes, answers)[i],
            ) || is_named(answers, reached_after(pivot, bound, nodes, answers)[i]),
    decreases answers.len(),
{
    let after = reached_after(pivot, bound, nodes, answers);
    if answers.len() == 0 {
        assert forall|i: int| 0 <= i < after.len() implies nodes.contains(
            #[trigger] after[i],
        ) by {}
    } else {
        let front = answers.drop_last();
        let before = reached_after(pivot, bound, nodes, front);
        let answer = answers.last();
        reached_is_in_order(pivot, bound, nodes, front);
        if answer.1.0 {
            let peers = peers_in(answer.1.1);
            let all = offer_all(pivot, before, peers);
            offer_all_keeps_order(pivot, before, peers);
            assert forall|i: int, j: int| 0 <= i < j < after.len() implies (
            #[trigger] after[i]).id != (#[trigger] after[j]).id by {
                assert(after[i] == all[i] && after[j] == all[j]);
            }
            assert forall|i: int| 0 <= i < after.len() implies (#[trigger] after[i]).wf() && (
            nodes.contains(after[i]) || is_named(answers, after[i])) by {
                let peer = after[i];
                assert(all[i] == peer);
                assert(all.contains(peer));
                named_before_or_last(answers, peer);
                if before.contains(peer) {
                    let k = choose|k: int| 0 <= k < before.len() && before[k] == peer;
                    assert(before[k].wf());
                } else {
                    let k = choose|k: int| 0 <= k < peers.len() && peers[k] == peer;
                    an_answer_carries_the_peers_it_names(answer.1.1, Node::key(peer.id));
                    assert(peers[k].wf());
                    an_answer_carries_the_peers_it_names(answer.1.1, peer);
                }
            }
            if answer.1.1 is Value {
                assert(peers =~= Seq::empty());
            }
        } else {
            assert forall|i: int| 0 <= i < after.len() implies nodes.contains(#[trigger] after[i])
                || is_named(answers, after[i]) by {
                named_before_or_last(answers, after[i]);
            }
        }
    }
}

proof fn reached_or_beaten(
    pivot: u128,
    bound: nat,
    nodes: Seq<Node>,
    answers: Seq<Answer>,
    peer: Node,
)
    requires
        ranked(pivot, nodes),
        distinct_ids(nodes),
        nodes.len() <= bound,
        all_genuine(nodes),
        peer.wf(),
        nodes.contains(peer) || is_named(answers, peer),
    ensures
        ({
            let known = reached_after(pivot, bound, nodes, answers);
            (exists|i: int| 0 <= i < known.len() && (#[trigger] known[i]).id == peer.id) || (
            known.len() == bound && forall|i: int|
                0 <= i < known.len() ==> (pivot ^ (#[trigger] known[i]).long_id) <= (pivot
                    ^ peer.long_id))
        }),
    decreases answers.len(),
{
    let known = reached_after(pivot, bound, nodes, answers);
    if answers.len() == 0 {
        let k = choose|k: int| 0 <= k < nodes.len() && nodes[k] == peer;
        assert(known[k].id == peer.id);
    } else {
        let front = answers.drop_last();
        let before = reached_after(pivot, bound, nodes, front);
        let answer = answers.last();
        reached_is_in_order(pivot, bound, nodes, front);
        named_before_or_last(answers, peer);
        if nodes.contains(peer) || is_named(front, peer) {
            reached_or_beaten(pivot, bound, nodes, front, peer);
        }
        if answer.1.0 {
            let peers = peers_in(answer.1.1);
            let all = offer_all(pivot, before, peers);
            an_answer_carries_the_peers_it_names(answer.1.1, peer);
            if exists|i: int| 0 <= i < before.len() && (#[trigger] before[i]).id == peer.id {
                let i = choose|i: int| 0 <= i < before.len() && (#[trigger] before[i]).id == peer.id;
                assert(before[i].wf());
                assert(before.contains(before[i]));
                assert(before[i].long_id == peer.long_id);
                a_bounded_list_keeps_the_nearest(pivot, before, peers, bound, before[i]);
            } else if peers.contains(peer) {
                a_bounded_list_keeps_the_nearest(pivot, before, peers, bound, peer);
            } else {
                offers_bring_nearer(pivot, before, peers);
                assert(known.len() == bound);
                assert forall|i: int| 0 <= i < known.len() implies (pivot ^ (
                #[trigger] known[i]).long_id) <= (pivot ^ peer.long_id) by {
                    assert(known[i] == all[i]);
                    assert((pivot ^ before[i].long_id) <= (pivot ^ peer.long_id));
                }
            }
        }
    }
}

proof fn silent_is_who_kept_silent(answers: Seq<Answer>, id: [u8; ID_LEN])
    ensures
        silent(answers).contains(id) <==> kept_silent(answers, id),
{
    let mute = |a: Answer| !a.1.0;
    let quiet = answers.filter(mute);
    filter_members(answers, mute);
    if silent(answers).contains(id) {
        let k = choose|k: int| 0 <= k < silent(answers).len() && silent(answers)[k] == id;
        assert(quiet.contains(quiet[k]));
        let a = choose|a: int| 0 <= a < answers.len() && answers[a] == quiet[k];
        assert(answers[a].0 == id && !answers[a].1.0);
    }
    if kept_silent(answers, id) {
        let a = choose|a: int|
            0 <= a < answers.len() && (#[trigger] answers[a]).0 == id && !answers[a].1.0;
        assert(quiet.contains(answers[a]));
        let k = choose|k: int| 0 <= k < quiet.len() && quiet[k] == answers[a];
        assert(silent(answers)[k] == id);
    }
}

/// `rivals` are as many peers as a lookup keeps, each known before or named in an
/// answer, each still known unless it kept silent, and none farther from the target
/// than `distance`.
pub open spec fn outdo(
    rivals: Seq<Node>,
    bound: nat,
    pivot: u128,
    distance: u128,
    nodes: Seq<Node>,
    answers: Seq<Answer>,
    known: Seq<Node>,
) -> bool {
    &&& rivals.len() == bound
    &&& forall|i: int, j: int|
        0 <= i < j < rivals.len() ==> (#[trigger] rivals[i]).id != (#[trigger] rivals[j]).id
    &&& forall|i: int|
        0 <= i < rivals.len() ==> (pivot ^ (#[trigger] rivals[i]).long_id) <= distance && (
        nodes.contains(rivals[i]) || is_named(answers, rivals[i])) && (known.contains(rivals[i])
            || kept_silent(answers, rivals[i].id))
}

proof fn a_round_reaches(
    pivot: u128,
    bound: nat,
    nodes: Seq<Node>,
    answers: Seq<Answer>,
    known: Seq<Node>,
    peer: Node,
)
    requires
        ranked(pivot, nodes),
        distinct_ids(nodes),
        nodes.len() <= bound,
        all_genuine(nodes),
        peer.wf(),
        nodes.contains(peer) || is_named(answers, peer),
        !kept_silent(answers, peer.id),
        known == reached_after(pivot, bound, nodes, answers).filter(
            |n: Node| !silent(answers).contains(n.id),
        ),
    ensures
        (exists|i: int| 0 <= i < known.len() && (#[trigger] known[i]).id == peer.id) || (exists|
            rivals: Seq<Node>,
        | #[trigger]
            outdo(rivals, bound, pivot, pivot ^ peer.long_id, nodes, answers, known)),
        forall|i: int|
            0 <= i < known.len() ==> (nodes.contains(#[trigger] known[i]) || is_named(
                answers,
                known[i],
            )) && !kept_silent(answers, known[i].id),
        forall|i: int, j: int|
            0 <= i < j < known.len() ==> (#[trigger] known[i]).id != (#[trigger] known[j]).id && (
            pivot ^ known[i].long_id) <= (pivot ^ known[j].long_id),
        known.len() <= bound,
{
    let stays = |n: Node| !silent(answers).contains(n.id);
    let all = reached_after(pivot, bound, nodes, answers);
    reached_is_in_order(pivot, bound, nodes, answers);
    reached_or_beaten(pivot, bound, nodes, answers, peer);
    filter_members(all, stays);
    crate::node::filter_keeps_order(pivot, all, stays);
    ranked_lists_are_by_distance(pivot, known);
    assert forall|i: int| 0 <= i < known.len() implies (nodes.contains(#[trigger] known[i])
        || is_named(answers, known[i])) && !kept_silent(answers, known[i].id) by {
        assert(all.contains(known[i]) && stays(known[i]));
        let k = choose|k: int| 0 <= k < all.len() && all[k] == known[i];
        assert(nodes.contains(all[k]) || is_named(answers, all[k]));
        silent_is_who_kept_silent(answers, known[i].id);
    }
    if exists|i: int| 0 <= i < all.len() && (#[trigger] all[i]).id == peer.id {
        let k = choose|k: int| 0 <= k < all.len() && (#[trigger] all[k]).id == peer.id;
        silent_is_who_kept_silent(answers, peer.id);
        assert(all.contains(all[k]));
        assert(known.contains(all[k]));
        let i = choose|i: int| 0 <= i < known.len() && known[i] == all[k];
        assert(known[i].id == peer.id);
    } else {
        assert forall|i: int| 0 <= i < all.len() implies (pivot ^ (#[trigger] all[i]).long_id) <= (
        pivot ^ peer.long_id) && (nodes.contains(all[i]) || is_named(answers, all[i])) && (
        known.contains(all[i]) || kept_silent(answers, all[i].id)) by {
            silent_is_who_kept_silent(answers, all[i].id);
            assert(all.contains(all[i]));
        }
        assert(outdo(all, bound, pivot, pivot ^ peer.long_id, nodes, answers, known));
    }
}

/// A round of a lookup of peers takes in what the answers name.  A peer that was
/// known or is named in an answer that came, and did not keep silent itself, is
/// among the nearest peers of the lookup afterwards, unless as many peers as the
/// lookup keeps are at least as near to the target.  The nearest peers are in order
/// of their distance, and each was known before or is named in an answer.
pub proof fn a_round_finds_the_nearest_peers(
    crawl: NodeSpiderCrawl,
    answers: Seq<Answer>,
    peer: Node,
)
    requires
        crawl.wf(),
        all_genuine(crawl.base.nearest.heap@),
        peer.wf(),
        crawl.base.nearest.heap@.contains(peer) || is_named(answers, peer),
        !kept_silent(answers, peer.id),
    ensures
        ({
            let target = crawl.base.nearest.node.long_id;
            let bound = crawl.base.nearest.maxsize as nat;
            let known = crawl.nearest_then(answers);
            &&& (exists|i: int| 0 <= i < known.len() && (#[trigger] known[i]).id == peer.id) || (
            exists|rivals: Seq<Node>| #[trigger]
                outdo(
                    rivals,
                    bound,
                    target,
                    target ^ peer.long_id,
                    crawl.base.nearest.heap@,
                    answers,
                    known,
                ))
            &&& forall|i: int|
                0 <= i < known.len() ==> (crawl.base.nearest.heap@.contains(#[trigger] known[i])
                    || is_named(answers, known[i])) && !kept_silent(answers, known[i].id)
            &&& forall|i: int, j: int|
                0 <= i < j < known.len() ==> (#[trigger] known[i]).id != (#[trigger] known[j]).id
                    && (target ^ known[i].long_id) <= (target ^ known[j].long_id)
            &&& known.len() <= bound
        }),
{
    a_round_reaches(
        crawl.base.nearest.node.long_id,
        crawl.base.nearest.maxsize as nat,
        crawl.base.nearest.heap@,
        answers,
        crawl.nearest_then(answers),
        peer,
    );
}

/// A round of a lookup of a value takes in what the answers name, as one of a
/// lookup of peers does.
pub proof fn a_round_for_a_value_finds_the_nearest_peers(
    crawl: ValueSpiderCrawl,
    answers: Seq<Answer>,
    peer: Node,
)
    requires
        crawl.wf(),
        all_genuine(crawl.base.nearest.heap@),
        peer.wf(),
        crawl.base.nearest.heap@.contains(peer) || is_named(answers, peer),
        !kept_silent(answers, peer.id),
    ensures
        ({
            let target = crawl.base.nearest.node.long_id;
            let bound = crawl.base.nearest.maxsize as nat;
            let known = crawl.nearest_then(answers);
            &&& (exists|i: int| 0 <= i < known.len() && (#[trigger] known[i]).id == peer.id) || (
            exists|rivals: Seq<Node>| #[trigger]
                outdo(
                    rivals,
                    bound,
                    target,
                    target ^ peer.long_id,
                    crawl.base.nearest.heap@,
                    answers,
                    known,
                ))
            &&& forall|i: int|
                0 <= i < known.len() ==> (crawl.base.nearest.heap@.contains(#[trigger] known[i])
                    || is_named(answers, known[i])) && !kept_silent(answers, known[i].id)
            &&& forall|i: int, j: int|
                0 <= i < j < known.len() ==> (#[trigger] known[i]).id != (#[trigger] known[j]).id
                    && (target ^ known[i].long_id) <= (target ^ known[j].long_id)
            &&& known.len() <= bound
        }),
{
    reached_is_in_order(
        crawl.base.nearest.node.long_id,
        crawl.base.nearest.maxsize as nat,
        crawl.base.nearest.heap@,
        answers,
    );
    a_round_reaches(
        crawl.base.nearest.node.long_id,
        crawl.base.nearest.maxsize as nat,
        crawl.base.nearest.heap@,
        answers,
        crawl.nearest_then(answers),
        peer,
    );
}

/// Where everyone answered, a known or named peer is among the nearest peers after
/// the round, or the lookup keeps as many as it may and none of them is farther from
/// the target.
pub proof fn a_round_without_silence_is_complete(
    crawl: NodeSpiderCrawl,
    answers: Seq<Answer>,
    peer: Node,
)
    requires
        crawl.wf(),
        all_genuine(crawl.base.nearest.heap@),
        peer.wf(),
        crawl.base.nearest.heap@.contains(peer) || is_named(answers, peer),
        forall|a: int| 0 <= a < answers.len() ==> (#[trigger] answers[a]).1.0,
    ensures
        ({
            let target = crawl.base.nearest.node.long_id;
            let known = crawl.nearest_then(answers);
            (exists|i: int| 0 <= i < known.len() && (#[trigger] known[i]).id == peer.id) || (
            known.len() == crawl.base.nearest.maxsize && forall|i: int|
                0 <= i < known.len() ==> (target ^ (#[trigger] known[i]).long_id) <= (target
                    ^ peer.long_id))
        }),
{
    let target = crawl.base.nearest.node.long_id;
    let bound = crawl.base.nearest.maxsize as nat;
    let nodes = crawl.base.nearest.heap@;
    let all = reached_after(target, bound, nodes, answers);
    let stays = |n: Node| !silent(answers).contains(n.id);
    reached_or_beaten(target, bound, nodes, answers, peer);
    assert forall|i: int| 0 <= i < all.len() implies stays(#[trigger] all[i]) by {
        silent_is_who_kept_silent(answers, all[i].id);
    }
    crate::seqs::filter_of_all(all, stays);
}

/// Picks the answers that came and carry exactly this value.
pub open spec fn carrying(value: Seq<u8>) -> spec_fn(Answer) -> bool {
    |answer: Answer|
        answer.1.0 && match answer.1.1 {
            FindPayload::Value(bytes) => bytes@ == value,
            _ => false,
        }
}

proof fn occurrences_are_counted(values: Seq<Seq<u8>>, value: Seq<u8>)
    ensures
        occurrences(values, value) == values.to_multiset().count(value),
    decreases values.len(),
{
    broadcast use {vstd::seq_lib::to_multiset_build, vstd::seq_lib::to_multiset_contains};

    if values.len() > 0 {
        occurrences_are_counted(values.drop_last(), value);
        assert(values =~= values.drop_last().push(values.last()));
    } else {
        assert(!values.contains(value));
        assert(values.to_multiset().count(value) == 0);
    }
}

proof fn values_are_carried(answers: Seq<Answer>, value: Seq<u8>)
    ensures
        occurrences(values_in(answers), value) == answers.filter(carrying(value)).len(),
    decreases answers.len(),
{
    reveal(Seq::filter);
    let values = values_in(answers);
    let hit = |a: Answer| crate::crawling::is_hit(a);
    if answers.len() > 0 {
        let front = answers.drop_last();
        values_are_carried(front, value);
        if hit(answers.last()) {
            let last = answers.last().1.1->Value_0@;
            assert(answers.filter(hit) == front.filter(hit).push(answers.last()));
            assert(values =~= values_in(front).push(last));
            assert(values.drop_last() =~= values_in(front));
        } else {
            assert(answers.filter(hit) == front.filter(hit));
            assert(values =~= values_in(front));
        }
    } else {
        assert(answers.filter(hit) =~= Seq::empty());
        assert(values =~= Seq::empty());
        assert(answers.filter(carrying(value)) =~= Seq::empty());
    }
}

/// The value that a list is said to hold most often is in it, no value is in it more
/// often, and every value in front of its first place is in it less often.
pub proof fn the_majority_is_most_often_there(values: Seq<Seq<u8>>, value: Seq<u8>)
    requires
        values.len() > 0,
    ensures
        values.contains(majority(values)),
        values.to_multiset().count(value) <= values.to_multiset().count(majority(values)),
        exists|at: int|
            0 <= at < values.len() && (#[trigger] values[at]) == majority(values) && forall|j: int|
                0 <= j < at ==> values.to_multiset().count(#[trigger] values[j])
                    < values.to_multiset().count(majority(values)),
{
    let at = leader(values, values.len());
    leader_leads(values, values.len());
    leader_is_first(values, values.len());
    occurrences_are_counted(values, majority(values));
    occurrences_are_counted(values, value);
    assert(values[at] == majority(values));
    if values.contains(value) {
        let i = choose|i: int| 0 <= i < values.len() && values[i] == value;
        assert(occurrences(values, values[i]) <= occurrences(values, values[at]));
    } else {
        broadcast use vstd::seq_lib::to_multiset_contains;

        assert(values.to_multiset().count(value) == 0);
    }
    assert forall|j: int| 0 <= j < at implies values.to_multiset().count(#[trigger] values[j])
        < values.to_multiset().count(majority(values)) by {
        occurrences_are_counted(values, values[j]);
    }
}

proof fn leader_is_first(values: Seq<Seq<u8>>, upto: nat)
    requires
        0 < upto <= values.len(),
    ensures
        forall|j: int|
            0 <= j < leader(values, upto) ==> occurrences(values, #[trigger] values[j])
                < occurrences(values, values[leader(values, upto)]),
    decreases upto,
{
    if upto > 1 {
        leader_is_first(values, (upto - 1) as nat);
        leader_leads(values, (upto - 1) as nat);
    }
}

/// The value that a lookup returns is carried by an answer that came, and by at least
/// as many of them as any other value.  There is one as soon as any answer carries a
/// value.
pub proof fn a_lookup_returns_what_most_peers_hold(answers: Seq<Answer>, value: Seq<u8>)
    ensures
        values_in(answers).len() > 0 <==> exists|a: int|
            0 <= a < answers.len() && (#[trigger] answers[a]).1.0 && answers[a].1.1 is Value,
        values_in(answers).len() > 0 ==> ({
            let best = majority(values_in(answers));
            &&& answers.filter(carrying(value)).len() <= answers.filter(carrying(best)).len()
            &&& exists|a: int| 0 <= a < answers.len() && carrying(best)(#[trigger] answers[a])
        }),
{
    let values = values_in(answers);
    let hit = |a: Answer| crate::crawling::is_hit(a);
    filter_members(answers, hit);
    let hits = answers.filter(hit);
    if values.len() > 0 {
        let best = majority(values);
        the_majority_is_most_often_there(values, value);
        occurrences_are_counted(values, value);
        occurrences_are_counted(values, best);
        values_are_carried(answers, value);
        values_are_carried(answers, best);
        let k = choose|k: int| 0 <= k < values.len() && values[k] == best;
        assert(hits.contains(hits[k]));
        let a = choose|a: int| 0 <= a < answers.len() && answers[a] == hits[k];
        assert(hit(answers[a]));
        assert(carrying(best)(answers[a]));
        assert(answers[a].1.0 && answers[a].1.1 is Value);
    }
    if exists|a: int|
        0 <= a < answers.len() && (#[trigger] answers[a]).1.0 && answers[a].1.1 is Value {
        let a = choose|a: int|
            0 <= a < answers.len() && (#[trigger] answers[a]).1.0 && answers[a].1.1 is Value;
        assert(hits.contains(answers[a]));
    }
}

/// A lookup that starts from given peers knows the nearest of them: a peer that it
/// starts from is known, or it knows as many as it may and none is farther from the
/// target.  It knows no others, nearest first, and has asked none.
pub proof fn a_lookup_starts_from_the_nearest(
    crawl: SpiderCrawl,
    node: Node,
    peers: Seq<Node>,
    ksize: usize,
    alpha: usize,
    peer: Node,
)
    requires
        crawl.starts(node, peers, ksize, alpha),
        all_genuine(peers),
        peers.contains(peer),
    ensures
        ({
            let known = crawl.nearest.heap@;
            &&& (exists|i: int| 0 <= i < known.len() && (#[trigger] known[i]).id == peer.id) || (
            known.len() == ksize && forall|i: int|
                0 <= i < known.len() ==> (node.long_id ^ (#[trigger] known[i]).long_id) <= (
                node.long_id ^ peer.long_id))
            &&& forall|i: int| 0 <= i < known.len() ==> peers.contains(#[trigger] known[i])
            &&& forall|i: int, j: int|
                0 <= i < j < known.len() ==> (#[trigger] known[i]).id != (#[trigger] known[j]).id
                    && (node.long_id ^ known[i].long_id) <= (node.long_id ^ known[j].long_id)
            &&& known.len() <= ksize
            &&& crawl.nearest.contacted@.len() == 0
        }),
{
    a_bounded_list_keeps_the_nearest(node.long_id, Seq::empty(), peers, ksize as nat, peer);
}

/// A round asks the nearest peers that were not asked before: each is known and was
/// not asked.  A known peer that was not asked is in the round, or the round asks as
/// many as `alpha` and none of them is farther from the target.  Where the known
/// peers are those of the last round, all that were not asked are; where they are
/// not, no more than `alpha` are.
pub proof fn a_round_asks_the_nearest(crawl: SpiderCrawl, peer: Node)
    requires
        crawl.wf(),
    ensures
        ({
            let known = crawl.nearest.heap@;
            let asked = crawl.nearest.contacted@;
            let target = crawl.nearest.node.long_id;
            let round = crawl.next_peers();
            &&& forall|i: int|
                0 <= i < round.len() ==> known.contains(#[trigger] round[i]) && !asked.contains(
                    round[i].id,
                )
            &&& known.contains(peer) && !asked.contains(peer.id) && !round.contains(peer)
                ==> round.len() == crawl.alpha && forall|i: int|
                0 <= i < round.len() ==> (target ^ (#[trigger] round[i]).long_id) <= (target
                    ^ peer.long_id)
            &&& known.len() == crawl.last_ids_crawled@.len() && (forall|i: int|
                0 <= i < known.len() ==> (#[trigger] known[i]).id == crawl.last_ids_crawled@[i])
                && known.contains(peer) && !asked.contains(peer.id) ==> round.contains(peer)
            &&& !(known.len() == crawl.last_ids_crawled@.len() && (forall|i: int|
                0 <= i < known.len() ==> (#[trigger] known[i]).id == crawl.last_ids_crawled@[i]))
                ==> round.len() <= crawl.alpha
        }),
{
    let known = crawl.nearest.heap@;
    let asked = crawl.nearest.contacted@;
    let target = crawl.nearest.node.long_id;
    let round = crawl.next_peers();
    let waits = |n: Node| !asked.contains(n.id);
    let waiting = crawl.nearest.waiting();
    assert(crawl.nearest.listed() == known);
    filter_members(known, waits);
    crate::node::filter_keeps_order(target, known, waits);
    ranked_lists_are_by_distance(target, waiting);
    assert forall|i: int| 0 <= i < round.len() implies known.contains(#[trigger] round[i])
        && !asked.contains(round[i].id) by {
        assert(round[i] == waiting[i]);
        assert(waits(waiting[i]));
    }
    if crate::crawling::ids_of(known) == crawl.last_ids_crawled@ {
        assert forall|i: int| 0 <= i < known.len() implies (#[trigger] known[i]).id
            == crawl.last_ids_crawled@[i] by {
            assert(crate::crawling::ids_of(known)[i] == known[i].id);
        }
    }
    if known.contains(peer) && !asked.contains(peer.id) {
        assert(waiting.contains(peer));
        let k = choose|k: int| 0 <= k < waiting.len() && waiting[k] == peer;
        if k < round.len() {
            assert(round[k] == peer);
        } else {
            assert forall|i: int| 0 <= i < round.len() implies (target ^ (
            #[trigger] round[i]).long_id) <= (target ^ peer.long_id) by {
                assert(round[i] == waiting[i]);
            }
            if known.len() == crawl.last_ids_crawled@.len() && (forall|i: int|
                0 <= i < known.len() ==> (#[trigger] known[i]).id == crawl.last_ids_crawled@[i]) {
                assert(crate::crawling::ids_of(known) =~= crawl.last_ids_crawled@);
            }
            assert(round.len() == crawl.alpha) by {
                if crate::crawling::ids_of(known) == crawl.last_ids_crawled@ {
                    assert(waiting.len() <= known.len());
                }
            }
        }
    }
}

/// The answer came and carries no value.
pub open spec fn misses(answer: Answer) -> bool {
    answer.1.0 && !(answer.1.1 is Value)
}

proof fn missing_is_in_order(
    pivot: u128,
    bound: nat,
    nodes: Seq<Node>,
    missing: Seq<Node>,
    answers: Seq<Answer>,
)
    requires
        ranked(pivot, nodes),
        distinct_ids(nodes),
        nodes.len() <= bound,
        all_genuine(nodes),
        ranked(pivot, missing),
        distinct_ids(missing),
        missing.len() <= 1,
        all_genuine(missing),
    ensures
        ({
            let left = missing_after(pivot, bound, nodes, missing, answers);
            &&& ranked(pivot, left)
            &&& distinct_ids(left)
            &&& left.len() <= 1
            &&& all_genuine(left)
            &&& missing.len() == 1 ==> left.len() == 1 && (pivot ^ left[0].long_id) <= (pivot
                ^ missing[0].long_id)
            &&& forall|i: int|
                0 <= i < left.len() ==> missing.contains(#[trigger] left[i]) || exists|a: int|
                    0 <= a < answers.len() && misses(#[trigger] answers[a]) && answers[a].0
                        == left[i].id
        }),
    decreases answers.len(),
{
    let left = missing_after(pivot, bound, nodes, missing, answers);
    if answers.len() == 0 {
        assert forall|i: int| 0 <= i < left.len() implies missing.contains(#[trigger] left[i]) by {}
    } else {
        let front = answers.drop_last();
        let answer = answers.last();
        let known = nearest_after(pivot, bound, nodes, front);
        let before = missing_after(pivot, bound, nodes, missing, front);
        missing_is_in_order(pivot, bound, nodes, missing, front);
        reached_is_in_order(pivot, bound, nodes, front);
        if misses(answer) && has_id(known, answer.0) {
            let at = choose|i: int| 0 <= i < known.len() && (#[trigger] known[i]).id == answer.0;
            let peer = held(known, answer.0);
            assert(peer == known[at] && peer.wf());
            let offered = seq![peer];
            assert forall|i: int| 0 <= i < offered.len() implies (#[trigger] offered[i]).wf() by {}
            assert(offered[0] == peer);
            assert(offered.contains(peer));
            offer_all_keeps_order(pivot, before, offered);
            a_bounded_list_keeps_the_nearest(pivot, before, offered, 1, peer);
            offers_bring_nearer(pivot, before, offered);
            let all = offer_all(pivot, before, offered);
            assert forall|i: int| 0 <= i < left.len() implies (#[trigger] left[i]).wf() && (
            missing.contains(left[i]) || exists|a: int|
                0 <= a < answers.len() && misses(#[trigger] answers[a]) && answers[a].0
                    == left[i].id) by {
                assert(left[i] == all[i]);
                if before.contains(left[i]) {
                    let k = choose|k: int| 0 <= k < before.len() && before[k] == left[i];
                    assert(before[k].wf());
                    if !missing.contains(before[k]) {
                        let a = choose|a: int|
                            0 <= a < front.len() && misses(#[trigger] front[a]) && front[a].0
                                == before[k].id;
                        assert(misses(answers[a]) && answers[a].0 == left[i].id);
                    }
                } else {
                    assert(left[i] == peer);
                    assert(misses(answers[answers.len() - 1]));
                }
            }
            if before.len() == 1 {
                assert(left[0] == all[0]);
            }
        } else {
            assert forall|i: int| 0 <= i < left.len() implies missing.contains(#[trigger] left[i])
                || exists|a: int|
                0 <= a < answers.len() && misses(#[trigger] answers[a]) && answers[a].0
                    == left[i].id by {
                if !missing.contains(left[i]) {
                    let a = choose|a: int|
                        0 <= a < front.len() && misses(#[trigger] front[a]) && front[a].0
                            == left[i].id;
                    assert(misses(answers[a]) && answers[a].0 == left[i].id);
                }
            }
        }
    }
}

proof fn missing_is_nearest(
    pivot: u128,
    bound: nat,
    nodes: Seq<Node>,
    missing: Seq<Node>,
    answers: Seq<Answer>,
    which: int,
    peer: Node,
)
    requires
        ranked(pivot, nodes),
        distinct_ids(nodes),
        nodes.len() <= bound,
        all_genuine(nodes),
        ranked(pivot, missing),
        distinct_ids(missing),
        missing.len() <= 1,
        all_genuine(missing),
        0 <= which < answers.len(),
        misses(answers[which]),
        nearest_after(pivot, bound, nodes, answers.take(which)).contains(peer),
        peer.id == answers[which].0,
    ensures
        ({
            let left = missing_after(pivot, bound, nodes, missing, answers);
            left.len() == 1 && (pivot ^ left[0].long_id) <= (pivot ^ peer.long_id)
        }),
    decreases answers.len(),
{
    let left = missing_after(pivot, bound, nodes, missing, answers);
    let front = answers.drop_last();
    let answer = answers.last();
    let known = nearest_after(pivot, bound, nodes, front);
    let before = missing_after(pivot, bound, nodes, missing, front);
    missing_is_in_order(pivot, bound, nodes, missing, front);
    missing_is_in_order(pivot, bound, nodes, missing, answers);
    reached_is_in_order(pivot, bound, nodes, front);
    if which < front.len() {
        assert(front.take(which) =~= answers.take(which));
        missing_is_nearest(pivot, bound, nodes, missing, front, which, peer);
    } else {
        assert(front =~= answers.take(which));
    }
    if misses(answer) && has_id(known, answer.0) {
        let at = choose|i: int| 0 <= i < known.len() && (#[trigger] known[i]).id == answer.0;
        let near = held(known, answer.0);
        assert(near == known[at] && near.wf());
        let offered = seq![near];
        assert(offered[0] == near);
        assert(offered.contains(near));
        offers_bring_nearer(pivot, before, offered);
        offer_all_keeps_order(pivot, before, offered);
        let all = offer_all(pivot, before, offered);
        if which < front.len() {
            assert(left[0] == all[0]);
        } else {
            let k = choose|k: int| 0 <= k < known.len() && known[k] == peer;
            assert(known[k].wf());
            assert(near.long_id == peer.long_id);
            a_bounded_list_keeps_the_nearest(pivot, before, offered, 1, near);
            if exists|i: int| 0 <= i < left.len() && (#[trigger] left[i]).id == near.id {
                assert(left[0].wf());
            }
        }
    } else if which == front.len() {
        let k = choose|k: int| 0 <= k < known.len() && known[k] == peer;
        assert(known[k].id == answer.0);
    }
}

/// The value that was found goes to the nearest peer that does not have it: the peer
/// that is named answered without a value, now or before, and no peer that the lookup
/// knew of when it answered without a value is nearer to the target.
pub proof fn the_value_goes_to_the_nearest_without_it(
    crawl: ValueSpiderCrawl,
    answers: Seq<Answer>,
    which: int,
    peer: Node,
)
    requires
        crawl.wf(),
        all_genuine(crawl.base.nearest.heap@),
        all_genuine(crawl.nearest_without_value.heap@),
        crawl.nearest_without_value.heap@.len() <= 1,
        0 <= which < answers.len(),
        misses(answers[which]),
        peer.id == answers[which].0,
        nearest_after(
            crawl.base.nearest.node.long_id,
            crawl.base.nearest.maxsize as nat,
            crawl.base.nearest.heap@,
            answers.take(which),
        ).contains(peer),
    ensures
        ({
            let target = crawl.base.nearest.node.long_id;
            let without = crawl.missing_then(answers);
            &&& without.len() == 1
            &&& (target ^ without[0].long_id) <= (target ^ peer.long_id)
            &&& crawl.nearest_without_value.heap@.contains(without[0]) || exists|a: int|
                0 <= a < answers.len() && misses(#[trigger] answers[a]) && answers[a].0
                    == without[0].id
        }),
{
    let target = crawl.base.nearest.node.long_id;
    let bound = crawl.base.nearest.maxsize as nat;
    let nodes = crawl.base.nearest.heap@;
    let missing = crawl.nearest_without_value.heap@;
    missing_is_nearest(target, bound, nodes, missing, answers, which, peer);
    missing_is_in_order(target, bound, nodes, missing, answers);
    let without = crawl.missing_then(answers);
    assert(missing.contains(without[0]) || exists|a: int|
        0 <= a < answers.len() && misses(#[trigger] answers[a]) && answers[a].0 == without[0].id);
}

} // verus!
