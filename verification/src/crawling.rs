//! Iterative lookups.
//!
//! A lookup keeps the `k` nearest peers that it knows of and asks those it has
//! not asked yet, a few at a time, until every one of them was asked.  What it
//! asks for and what it makes of the answers is decided here; whoever drives a
//! lookup sends the requests and hands the answers back:
//!
//! - [`SpiderCrawl`] keeps the state of a lookup and picks the peers of a round,
//! - [`ValueSpiderCrawl`] looks for a value,
//! - [`NodeSpiderCrawl`] looks for the nearest peers.

use vstd::prelude::*;

use crate::node::fold_id;
use crate::node::same_id;
use crate::node::Node;
use crate::node::NodeHeap;
use crate::ranking::at_most;
use crate::ranking::distinct_ids;
use crate::ranking::has_id;
use crate::ranking::offer_all;
use crate::ranking::ranked;
use crate::seqs::filter_members;
use crate::seqs::filter_step;
use crate::utils::id_of;
use crate::utils::same_bytes;
use crate::utils::to_id;
use crate::utils::ID_LEN;

verus! {

/// A peer in an answer: its ID, IP and port.
pub type PeerTuple = (Vec<u8>, Option<String>, Option<u16>);

/// What an answer carries.
#[derive(Debug)]
pub enum FindPayload {
    /// Peers nearer to the target.
    Nodes(Vec<PeerTuple>),
    /// The value.
    Value(Vec<u8>),
    /// Nothing.
    Empty,
}

/// An answer: whether it came at all, and what it carries.
#[derive(Debug)]
pub struct RawResponse(pub bool, pub FindPayload);

/// The peer in an answer.
pub open spec fn peer_of(tuple: PeerTuple) -> Node {
    Node {
        id: id_of(tuple.0@),
        ip: tuple.1,
        port: tuple.2,
        long_id: fold_id(tuple.0@),
    }
}

/// The peers in an answer.  One whose ID has another length than IDs have is
/// left out.
pub open spec fn peers_in(payload: FindPayload) -> Seq<Node> {
    match payload {
        FindPayload::Nodes(tuples) => tuples@.filter(
            |t: PeerTuple| t.0@.len() == ID_LEN,
        ).map_values(|t: PeerTuple| peer_of(t)),
        _ => Seq::empty(),
    }
}

/// An answer to a request for a value or for peers.
#[derive(Debug)]
pub struct RPCFindResponse {
    pub response: RawResponse,
}

impl RPCFindResponse {
    /// The answer.
    pub fn new(response: RawResponse) -> (answer: Self)
        ensures
            answer.response == response,
    {
        Self { response }
    }

    /// Whether the peer answered.
    pub fn happened(&self) -> (answered: bool)
        ensures
            answered == self.response.0,
    {
        self.response.0
    }

    /// Whether the answer carries a value.
    pub fn has_value(&self) -> (found: bool)
        ensures
            found == (self.response.1 is Value),
    {
        matches!(self.response.1, FindPayload::Value(_))
    }

    /// The value that the answer carries.
    pub fn get_value(&self) -> (value: Option<Vec<u8>>)
        ensures
            match self.response.1 {
                FindPayload::Value(bytes) => value matches Some(found) && found@ == bytes@,
                _ => value is None,
            },
    {
        match &self.response.1 {
            FindPayload::Value(bytes) => Some(vstd::slice::slice_to_vec(bytes.as_slice())),
            _ => None,
        }
    }

    /// The peers that the answer carries.
    pub fn get_node_list(&self) -> (nodes: Vec<Node>)
        ensures
            nodes@ == peers_in(self.response.1),
    {
        decode_peers(&self.response.1)
    }
}

/// The peers that an answer carries.
fn decode_peers(payload: &FindPayload) -> (nodes: Vec<Node>)
    ensures
        nodes@ == peers_in(*payload),
{
    let mut nodes: Vec<Node> = Vec::new();
    if let FindPayload::Nodes(tuples) = payload {
        let ghost sized = |t: PeerTuple| t.0@.len() == ID_LEN;
        let mut at: usize = 0;
        assert(tuples@.take(0).filter(sized) =~= Seq::empty()) by {
            reveal(Seq::filter);
        }
        assert(nodes@ =~= tuples@.take(0).filter(sized).map_values(|t: PeerTuple| peer_of(t)));
        while at < tuples.len()
            invariant
                at <= tuples@.len(),
                sized == (|t: PeerTuple| t.0@.len() == ID_LEN),
                nodes@ == tuples@.take(at as int).filter(sized).map_values(
                    |t: PeerTuple| peer_of(t),
                ),
            decreases tuples@.len() - at,
        {
            proof {
                filter_step(tuples@, at as int, sized);
            }
            let ghost before = tuples@.take(at as int).filter(sized);
            let tuple: &PeerTuple = &tuples[at];
            if let Some(id) = to_id(tuple.0.as_slice()) {
                let node: Node = Node::new(id, tuple.1.clone(), tuple.2);
                assert(node == peer_of(*tuple));
                nodes.push(node);
                assert(nodes@ =~= before.push(*tuple).map_values(|t: PeerTuple| peer_of(t)));
            }
            at = at + 1;
        }
        assert(tuples@.take(at as int) =~= tuples@);
    }
    nodes
}

/// The first peers of `nodes`, at most `count`.
fn first_nodes(nodes: &Vec<Node>, count: usize) -> (first: Vec<Node>)
    ensures
        first@ == at_most(nodes@, count as nat),
{
    let mut first: Vec<Node> = Vec::new();
    while first.len() < nodes.len() && first.len() < count
        invariant
            first@.len() <= nodes@.len(),
            first@.len() <= count,
            first@ == nodes@.take(first@.len() as int),
        decreases nodes@.len() - first@.len(),
    {
        let at: usize = first.len();
        first.push(nodes[at].clone());
        assert(first@ =~= nodes@.take(first@.len() as int));
    }
    assert(first@ =~= at_most(nodes@, count as nat));
    first
}

/// Whether the two lists of IDs are the same.
fn same_ids(a: &Vec<[u8; ID_LEN]>, b: &Vec<[u8; ID_LEN]>) -> (same: bool)
    ensures
        same == (a@ == b@),
{
    if a.len() != b.len() {
        return false;
    }
    let mut at: usize = 0;
    while at < a.len()
        invariant
            a@.len() == b@.len(),
            at <= a@.len(),
            forall|i: int| 0 <= i < at ==> a@[i] == b@[i],
        decreases a@.len() - at,
    {
        if !same_id(&a[at], &b[at]) {
            return false;
        }
        at = at + 1;
    }
    assert(a@ =~= b@);
    true
}

/// The IDs of the peers.
pub open spec fn ids_of(nodes: Seq<Node>) -> Seq<[u8; ID_LEN]> {
    nodes.map_values(|n: Node| n.id)
}

/// The state of a lookup.
pub struct SpiderCrawl {
    pub ksize: usize,
    pub alpha: usize,
    /// The target.
    pub node: Node,
    /// The nearest peers known, and which of them were asked.
    pub nearest: NodeHeap,
    /// The nearest peers at the start of the last round.
    pub last_ids_crawled: Vec<[u8; ID_LEN]>,
}

impl SpiderCrawl {
    /// The nearest peers stand in order and within their bound.
    pub open spec fn wf(&self) -> bool {
        &&& self.nearest.wf()
        &&& self.nearest.nodes().len() <= self.nearest.maxsize
    }

    /// A lookup of `node` that knows the nearest of the given peers and has asked
    /// none.
    pub open spec fn starts(&self, node: Node, peers: Seq<Node>, ksize: usize, alpha: usize) -> bool {
        &&& self.wf()
        &&& self.ksize == ksize
        &&& self.alpha == alpha
        &&& self.node == node
        &&& self.nearest.node == node
        &&& self.nearest.maxsize == ksize
        &&& self.nearest.nodes() == at_most(
            offer_all(node.long_id, Seq::empty(), peers),
            ksize as nat,
        )
        &&& self.nearest.contacted@ == Seq::<[u8; ID_LEN]>::empty()
        &&& self.last_ids_crawled@ == Seq::<[u8; ID_LEN]>::empty()
    }

    /// A lookup of `node` that starts from the given peers.
    pub fn new(node: Node, peers: Vec<Node>, ksize: usize, alpha: usize) -> (crawl: Self)
        ensures
            crawl.starts(node, peers@, ksize, alpha),
    {
        let mut nearest: NodeHeap = NodeHeap::new(node.clone(), ksize);
        nearest.push(peers);
        Self { ksize, alpha, node, nearest, last_ids_crawled: Vec::new() }
    }

    /// How many peers the next round asks: `alpha`, or all where the nearest
    /// peers have not changed since the last round.
    pub open spec fn width(&self) -> nat {
        if ids_of(self.nearest.listed()) == self.last_ids_crawled@ {
            self.nearest.listed().len()
        } else {
            self.alpha as nat
        }
    }

    /// The peers that the next round asks: the nearest that were not asked yet.
    pub open spec fn next_peers(&self) -> Seq<Node> {
        at_most(self.nearest.waiting(), self.width())
    }

    /// Starts a round: the peers to ask, which count as asked from now on.
    pub fn find_round(&mut self) -> (peers: Vec<Node>)
        requires
            old(self).wf(),
        ensures
            final(self).wf(),
            peers@ == old(self).next_peers(),
            final(self).nearest.contacted@ == old(self).nearest.contacted@ + ids_of(peers@),
            final(self).last_ids_crawled@ == ids_of(old(self).nearest.listed()),
            final(self).nearest.nodes() == old(self).nearest.nodes(),
            final(self).nearest.node == old(self).nearest.node,
            final(self).nearest.maxsize == old(self).nearest.maxsize,
            final(self).ksize == old(self).ksize,
            final(self).alpha == old(self).alpha,
            final(self).node == old(self).node,
    {
        let current_ids: Vec<[u8; ID_LEN]> = self.nearest.get_ids();
        let count: usize = if same_ids(&current_ids, &self.last_ids_crawled) {
            self.nearest.len()
        } else {
            self.alpha
        };
        self.last_ids_crawled = current_ids;
        let waiting: Vec<Node> = self.nearest.get_uncontacted();
        let peers: Vec<Node> = first_nodes(&waiting, count);
        proof {
            next_peers_are_new(*old(self));
        }
        let ghost asked = self.nearest.contacted@;
        let mut at: usize = 0;
        assert(asked =~= asked + ids_of(peers@.take(0)));
        while at < peers.len()
            invariant
                at <= peers@.len(),
                old(self).wf(),
                asked == old(self).nearest.contacted@,
                peers@ == old(self).next_peers(),
                distinct_ids(peers@),
                forall|i: int|
                    0 <= i < peers@.len() ==> !asked.contains((#[trigger] peers@[i]).id),
                self.nearest.contacted@ == asked + ids_of(peers@.take(at as int)),
                self.last_ids_crawled@ == ids_of(old(self).nearest.listed()),
                self.nearest.nodes() == old(self).nearest.nodes(),
                self.nearest.node == old(self).nearest.node,
                self.nearest.maxsize == old(self).nearest.maxsize,
                self.ksize == old(self).ksize,
                self.alpha == old(self).alpha,
                self.node == old(self).node,
            decreases peers@.len() - at,
        {
            let ghost before = self.nearest.contacted@;
            assert(!before.contains(peers@[at as int].id)) by {
                if before.contains(peers@[at as int].id) {
                    let k = choose|k: int|
                        0 <= k < before.len() && before[k] == peers@[at as int].id;
                    if k < asked.len() {
                        assert(asked[k] == peers@[at as int].id);
                        assert(asked.contains(peers@[at as int].id));
                    } else {
                        assert(peers@[k - asked.len()].id == peers@[at as int].id);
                    }
                }
            }
            self.nearest.mark_contacted(&peers[at]);
            at = at + 1;
            assert(self.nearest.contacted@ =~= asked + ids_of(peers@.take(at as int)));
        }
        assert(peers@.take(at as int) =~= peers@);
        peers
    }
}

/// The peers of a round were not asked before, and none is asked twice in the
/// round.
pub proof fn next_peers_are_new(crawl: SpiderCrawl)
    requires
        crawl.wf(),
    ensures
        distinct_ids(crawl.next_peers()),
        forall|i: int|
            0 <= i < crawl.next_peers().len() ==> !crawl.nearest.contacted@.contains(
                (#[trigger] crawl.next_peers()[i]).id,
            ),
{
    let waits = |n: Node| !crawl.nearest.contacted@.contains(n.id);
    let waiting = crawl.nearest.waiting();
    let listed = crawl.nearest.listed();
    assert(ranked(crawl.nearest.node.long_id, listed));
    assert(distinct_ids(listed));
    crate::node::filter_keeps_order(crawl.nearest.node.long_id, listed, waits);
    filter_members(listed, waits);
    let next = crawl.next_peers();
    assert forall|i: int, j: int| 0 <= i < j < next.len() implies (#[trigger] next[i]).id != (
    #[trigger] next[j]).id by {
        assert(next[i] == waiting[i] && next[j] == waiting[j]);
    }
    assert forall|i: int| 0 <= i < next.len() implies !crawl.nearest.contacted@.contains(
        (#[trigger] next[i]).id,
    ) by {
        assert(next[i] == waiting[i]);
    }
}

/// A round asks someone if anyone is left to ask, unless `alpha` is zero and the
/// nearest peers have just changed.
pub proof fn a_round_makes_progress(crawl: SpiderCrawl)
    requires
        crawl.wf(),
        crawl.nearest.waiting().len() > 0,
        crawl.alpha > 0 || ids_of(crawl.nearest.listed()) == crawl.last_ids_crawled@,
    ensures
        crawl.next_peers().len() > 0,
{
    filter_members(
        crawl.nearest.listed(),
        |n: Node| !crawl.nearest.contacted@.contains(n.id),
    );
}

/// A peer that was asked, and its answer.
pub type Answer = ([u8; ID_LEN], RawResponse);

/// The peers that did not answer.
pub open spec fn silent(answers: Seq<Answer>) -> Seq<[u8; ID_LEN]> {
    answers.filter(|a: Answer| !a.1.0).map_values(|a: Answer| a.0)
}

/// The answer carries a value.
pub open spec fn is_hit(answer: Answer) -> bool {
    answer.1.0 && answer.1.1 is Value
}

/// The values in the answers.
pub open spec fn values_in(answers: Seq<Answer>) -> Seq<Seq<u8>> {
    answers.filter(|a: Answer| is_hit(a)).map_values(|a: Answer| a.1.1->Value_0@)
}

/// The peer with the ID.
pub open spec fn held(nodes: Seq<Node>, id: [u8; ID_LEN]) -> Node {
    nodes[choose|i: int| 0 <= i < nodes.len() && (#[trigger] nodes[i]).id == id]
}

/// The nearest `bound` peers known after the answers to a request for a value.
pub open spec fn nearest_after(
    pivot: u128,
    bound: nat,
    nodes: Seq<Node>,
    answers: Seq<Answer>,
) -> Seq<Node>
    decreases answers.len(),
{
    if answers.len() == 0 {
        nodes
    } else {
        let before = nearest_after(pivot, bound, nodes, answers.drop_last());
        let answer = answers.last();
        if answer.1.0 && !(answer.1.1 is Value) {
            at_most(offer_all(pivot, before, peers_in(answer.1.1)), bound)
        } else {
            before
        }
    }
}

/// The nearest peer known that was asked for the value and does not have it.
pub open spec fn missing_after(
    pivot: u128,
    bound: nat,
    nodes: Seq<Node>,
    missing: Seq<Node>,
    answers: Seq<Answer>,
) -> Seq<Node>
    decreases answers.len(),
{
    if answers.len() == 0 {
        missing
    } else {
        let known = nearest_after(pivot, bound, nodes, answers.drop_last());
        let before = missing_after(pivot, bound, nodes, missing, answers.drop_last());
        let answer = answers.last();
        if answer.1.0 && !(answer.1.1 is Value) && has_id(known, answer.0) {
            at_most(offer_all(pivot, before, seq![held(known, answer.0)]), 1)
        } else {
            before
        }
    }
}

/// The nearest peers after a round: those known after the answers, without the
/// peers that did not answer.
pub open spec fn settled_nearest(
    pivot: u128,
    bound: nat,
    nodes: Seq<Node>,
    answers: Seq<Answer>,
) -> Seq<Node> {
    nearest_after(pivot, bound, nodes, answers).filter(
        |n: Node| !silent(answers).contains(n.id),
    )
}

/// How often the value is in the list.
pub open spec fn occurrences(values: Seq<Seq<u8>>, value: Seq<u8>) -> nat
    decreases values.len(),
{
    if values.len() == 0 {
        0
    } else {
        occurrences(values.drop_last(), value) + if values.last() == value {
            1nat
        } else {
            0nat
        }
    }
}

/// Of the first `upto` values, the first that is in the list most often.
pub open spec fn leader(values: Seq<Seq<u8>>, upto: nat) -> int
    decreases upto,
{
    if upto <= 1 {
        0
    } else {
        let before = leader(values, (upto - 1) as nat);
        if occurrences(values, values[upto - 1]) > occurrences(values, values[before]) {
            upto - 1
        } else {
            before
        }
    }
}

/// The value that is in the list most often; of several, the first.
pub open spec fn majority(values: Seq<Seq<u8>>) -> Seq<u8> {
    values[leader(values, values.len())]
}

/// None of the first `upto` values is in the list more often than their leader.
pub proof fn leader_leads(values: Seq<Seq<u8>>, upto: nat)
    requires
        0 < upto <= values.len(),
    ensures
        0 <= leader(values, upto) < upto,
        forall|i: int|
            0 <= i < upto ==> occurrences(values, #[trigger] values[i]) <= occurrences(
                values,
                values[leader(values, upto)],
            ),
    decreases upto,
{
    if upto > 1 {
        leader_leads(values, (upto - 1) as nat);
    }
}

/// No value is in the list more often than the one that is returned.
pub proof fn majority_is_most_frequent(values: Seq<Seq<u8>>, value: Seq<u8>)
    requires
        values.contains(value),
    ensures
        values.contains(majority(values)),
        occurrences(values, value) <= occurrences(values, majority(values)),
{
    leader_leads(values, values.len());
    let i = choose|i: int| 0 <= i < values.len() && values[i] == value;
    assert(values[i] == value);
}

/// The values as sequences of bytes.
pub open spec fn bytes_of(values: Seq<Vec<u8>>) -> Seq<Seq<u8>> {
    values.map_values(|v: Vec<u8>| v@)
}

fn count_value(values: &Vec<Vec<u8>>, value: &Vec<u8>) -> (count: usize)
    ensures
        count == occurrences(bytes_of(values@), value@),
        count <= values@.len(),
{
    let mut count: usize = 0;
    let mut at: usize = 0;
    let ghost bytes = bytes_of(values@);
    assert(bytes.take(0) =~= Seq::empty());
    while at < values.len()
        invariant
            bytes == bytes_of(values@),
            count <= at <= values@.len(),
            count == occurrences(bytes.take(at as int), value@),
        decreases values@.len() - at,
    {
        assert(bytes.take(at + 1).drop_last() =~= bytes.take(at as int));
        assert(bytes.take(at + 1).last() == values@[at as int]@);
        if same_bytes(values[at].as_slice(), value.as_slice()) {
            count = count + 1;
        }
        at = at + 1;
    }
    assert(bytes.take(at as int) =~= bytes);
    count
}

/// The value that is in the list most often; of several, the first.
pub fn most_frequent(values: &Vec<Vec<u8>>) -> (value: Vec<u8>)
    requires
        values@.len() > 0,
    ensures
        value@ == majority(bytes_of(values@)),
{
    let ghost bytes = bytes_of(values@);
    let mut best: usize = 0;
    let mut best_count: usize = count_value(values, &values[0]);
    let mut at: usize = 1;
    while at < values.len()
        invariant
            bytes == bytes_of(values@),
            1 <= at <= values@.len(),
            best < at,
            best == leader(bytes, at as nat),
            best_count == occurrences(bytes, bytes[best as int]),
        decreases values@.len() - at,
    {
        assert(bytes[at as int] == values@[at as int]@);
        let count: usize = count_value(values, &values[at]);
        if count > best_count {
            best = at;
            best_count = count;
        }
        at = at + 1;
    }
    vstd::slice::slice_to_vec(values[best].as_slice())
}

/// The peers that did not answer.
fn silent_peers(answers: &Vec<Answer>) -> (ids: Vec<[u8; ID_LEN]>)
    ensures
        ids@ == silent(answers@),
{
    let ghost mute = |a: Answer| !a.1.0;
    let mut ids: Vec<[u8; ID_LEN]> = Vec::new();
    let mut at: usize = 0;
    assert(answers@.take(0).filter(mute) =~= Seq::empty()) by {
        reveal(Seq::filter);
    }
    assert(ids@ =~= answers@.take(0).filter(mute).map_values(|a: Answer| a.0));
    while at < answers.len()
        invariant
            at <= answers@.len(),
            mute == (|a: Answer| !a.1.0),
            ids@ == answers@.take(at as int).filter(mute).map_values(|a: Answer| a.0),
        decreases answers@.len() - at,
    {
        proof {
            filter_step(answers@, at as int, mute);
        }
        let ghost before = answers@.take(at as int).filter(mute);
        if !answers[at].1.0 {
            ids.push(answers[at].0);
            assert(ids@ =~= before.push(answers@[at as int]).map_values(|a: Answer| a.0));
        }
        at = at + 1;
    }
    assert(answers@.take(at as int) =~= answers@);
    ids
}

/// The values in the answers.
fn found_values(answers: &Vec<Answer>) -> (values: Vec<Vec<u8>>)
    ensures
        bytes_of(values@) == values_in(answers@),
{
    let ghost hit = |a: Answer| is_hit(a);
    let ghost value = |a: Answer| a.1.1->Value_0@;
    let mut values: Vec<Vec<u8>> = Vec::new();
    let mut at: usize = 0;
    assert(answers@.take(0).filter(hit) =~= Seq::empty()) by {
        reveal(Seq::filter);
    }
    assert(bytes_of(values@) =~= answers@.take(0).filter(hit).map_values(value));
    while at < answers.len()
        invariant
            at <= answers@.len(),
            hit == (|a: Answer| is_hit(a)),
            value == (|a: Answer| a.1.1->Value_0@),
            bytes_of(values@) == answers@.take(at as int).filter(hit).map_values(value),
        decreases answers@.len() - at,
    {
        proof {
            filter_step(answers@, at as int, hit);
        }
        let ghost before = answers@.take(at as int).filter(hit);
        let ghost old_values = values@;
        if answers[at].1.0 {
            if let FindPayload::Value(bytes) = &answers[at].1.1 {
                values.push(vstd::slice::slice_to_vec(bytes.as_slice()));
                assert(bytes_of(values@) =~= bytes_of(old_values).push(bytes@));
                assert(before.push(answers@[at as int]).map_values(value)
                    =~= before.map_values(value).push(bytes@));
            }
        }
        at = at + 1;
    }
    assert(answers@.take(at as int) =~= answers@);
    assert(values_in(answers@) =~= answers@.filter(hit).map_values(value));
    values
}

/// What a lookup of a value does next.
pub enum ValueStep {
    /// Another round is to be started.
    Continue,
    /// The value was found.  It is to be stored at the given peer, the nearest
    /// that was asked and does not have it.
    Found { value: Vec<u8>, store_at: Option<Node> },
    /// There is no value to be found.  These are the nearest peers.
    Missed { nearest: Vec<Node> },
}

/// A lookup that ends when a value is found or every near peer was asked.
pub struct ValueSpiderCrawl {
    pub base: SpiderCrawl,
    /// The nearest peer that was asked and does not have the value.
    pub nearest_without_value: NodeHeap,
}

impl ValueSpiderCrawl {
    /// The lists of peers stand in order, and measure from the same target.
    pub open spec fn wf(&self) -> bool {
        &&& self.base.wf()
        &&& self.nearest_without_value.wf()
        &&& self.nearest_without_value.maxsize == 1
        &&& self.nearest_without_value.node.long_id == self.base.nearest.node.long_id
    }

    /// A lookup of the value under `node` that starts from the given peers.
    pub fn new(node: Node, peers: Vec<Node>, ksize: usize, alpha: usize) -> (crawl: Self)
        ensures
            crawl.wf(),
            crawl.base.starts(node, peers@, ksize, alpha),
            crawl.nearest_without_value.nodes() == Seq::<Node>::empty(),
    {
        let nearest_without_value: NodeHeap = NodeHeap::new(node.clone(), 1);
        Self { base: SpiderCrawl::new(node, peers, ksize, alpha), nearest_without_value }
    }

    /// The nearest peers known after the answers of a round.
    pub open spec fn nearest_then(&self, answers: Seq<Answer>) -> Seq<Node> {
        settled_nearest(
            self.base.nearest.node.long_id,
            self.base.nearest.maxsize as nat,
            self.base.nearest.nodes(),
            answers,
        )
    }

    /// The nearest peer without the value after the answers of a round.
    pub open spec fn missing_then(&self, answers: Seq<Answer>) -> Seq<Node> {
        missing_after(
            self.base.nearest.node.long_id,
            self.base.nearest.maxsize as nat,
            self.base.nearest.nodes(),
            self.nearest_without_value.nodes(),
            answers,
        )
    }

    /// Takes in the answers of a round and says what to do next.
    ///
    /// Where answers carry values, the one that most of them carry is the result.
    /// Peers that did not answer are dropped.
    #[verifier::rlimit(40)]
    pub fn take_answers(&mut self, answers: &Vec<Answer>) -> (step: ValueStep)
        requires
            old(self).wf(),
        ensures
            final(self).wf(),
            final(self).base.nearest.nodes() == old(self).nearest_then(answers@),
            final(self).base.nearest.contacted@ == old(self).base.nearest.contacted@,
            final(self).base.nearest.maxsize == old(self).base.nearest.maxsize,
            final(self).base.nearest.node == old(self).base.nearest.node,
            final(self).base.node == old(self).base.node,
            final(self).base.ksize == old(self).base.ksize,
            final(self).base.alpha == old(self).base.alpha,
            final(self).base.last_ids_crawled@ == old(self).base.last_ids_crawled@,
            !(step is Found) ==> final(self).nearest_without_value.nodes() == old(
                self,
            ).missing_then(answers@),
            match step {
                ValueStep::Found { value, store_at } => {
                    &&& values_in(answers@).len() > 0
                    &&& value@ == majority(values_in(answers@))
                    &&& match store_at {
                        Some(peer) => old(self).missing_then(answers@).len() > 0 && peer == old(
                            self,
                        ).missing_then(answers@)[0],
                        None => old(self).missing_then(answers@).len() == 0,
                    }
                },
                ValueStep::Missed { nearest } => {
                    &&& values_in(answers@).len() == 0
                    &&& final(self).base.nearest.waiting().len() == 0
                    &&& nearest@ == final(self).base.nearest.nodes()
                    &&& nearest@.len() <= final(self).base.nearest.maxsize
                    &&& forall|i: int|
                        0 <= i < nearest@.len() ==> final(self).base.nearest.contacted@.contains(
                            (#[trigger] nearest@[i]).id,
                        )
                },
                ValueStep::Continue => {
                    &&& values_in(answers@).len() == 0
                    &&& final(self).base.nearest.waiting().len() > 0
                    &&& exists|i: int|
                        0 <= i < final(self).base.nearest.heap@.len()
                            && !final(self).base.nearest.contacted@.contains(
                            (#[trigger] final(self).base.nearest.heap@[i]).id,
                        )
                },
            },
    {
        let ghost pivot = self.base.nearest.node.long_id;
        let ghost bound = self.base.nearest.maxsize as nat;
        let ghost nodes = self.base.nearest.nodes();
        let ghost missing = self.nearest_without_value.nodes();
        let mut at: usize = 0;
        assert(answers@.take(0) =~= Seq::empty());
        while at < answers.len()
            invariant
                at <= answers@.len(),
                self.wf(),
                pivot == self.base.nearest.node.long_id,
                bound == self.base.nearest.maxsize,
                self.base.nearest.nodes() == nearest_after(
                    pivot,
                    bound,
                    nodes,
                    answers@.take(at as int),
                ),
                self.nearest_without_value.nodes() == missing_after(
                    pivot,
                    bound,
                    nodes,
                    missing,
                    answers@.take(at as int),
                ),
                self.base.nearest.contacted@ == old(self).base.nearest.contacted@,
                self.base.nearest.node == old(self).base.nearest.node,
                self.base.nearest.maxsize == old(self).base.nearest.maxsize,
                self.base.node == old(self).base.node,
                self.base.ksize == old(self).base.ksize,
                self.base.alpha == old(self).base.alpha,
                self.base.last_ids_crawled@ == old(self).base.last_ids_crawled@,
            decreases answers@.len() - at,
        {
            let ghost upto = answers@.take(at + 1);
            assert(upto.drop_last() =~= answers@.take(at as int));
            assert(upto.last() == answers@[at as int]);
            let answer: &Answer = &answers[at];
            let is_value: bool = matches!(answer.1.1, FindPayload::Value(_));
            if answer.1.0 && !is_value {
                let ghost known = self.base.nearest.nodes();
                match self.base.nearest.get_node(&answer.0) {
                    Some(peer) => {
                        proof {
                            only_holder(known, peer);
                        }
                        self.nearest_without_value.push_one(peer);
                    },
                    None => {},
                }
                self.base.nearest.push(decode_peers(&answer.1.1));
            }
            at = at + 1;
        }
        assert(answers@.take(at as int) =~= answers@);
        let gone: Vec<[u8; ID_LEN]> = silent_peers(answers);
        let ghost known = self.base.nearest.nodes();
        self.base.nearest.remove(gone.as_slice());
        proof {
            filter_members(known, |n: Node| !gone@.contains(n.id));
        }
        let values: Vec<Vec<u8>> = found_values(answers);
        assert(bytes_of(values@).len() == values@.len());
        if values.len() > 0 {
            let value: Vec<u8> = most_frequent(&values);
            let store_at: Option<Node> = self.nearest_without_value.popleft();
            return ValueStep::Found { value, store_at };
        }
        if self.base.nearest.have_contacted_all() {
            return ValueStep::Missed { nearest: self.base.nearest.to_vec() };
        }
        ValueStep::Continue
    }
}

/// Where no ID is there twice, a peer of the list is the one with its ID.
proof fn only_holder(nodes: Seq<Node>, peer: Node)
    requires
        distinct_ids(nodes),
        nodes.contains(peer),
    ensures
        has_id(nodes, peer.id),
        held(nodes, peer.id) == peer,
{
    let at = choose|i: int| 0 <= i < nodes.len() && nodes[i] == peer;
    assert(nodes[at].id == peer.id);
    let other = choose|i: int| 0 <= i < nodes.len() && (#[trigger] nodes[i]).id == peer.id;
    if other < at {
        assert(nodes[other].id != nodes[at].id);
    } else if at < other {
        assert(nodes[at].id != nodes[other].id);
    }
}

/// What a lookup of peers does next.
pub enum NodeStep {
    /// Another round is to be started.
    Continue,
    /// These are the nearest peers.
    Done { nearest: Vec<Node> },
}

/// The nearest `bound` peers known after the answers to a request for peers.
pub open spec fn reached_after(
    pivot: u128,
    bound: nat,
    nodes: Seq<Node>,
    answers: Seq<Answer>,
) -> Seq<Node>
    decreases answers.len(),
{
    if answers.len() == 0 {
        nodes
    } else {
        let before = reached_after(pivot, bound, nodes, answers.drop_last());
        let answer = answers.last();
        if answer.1.0 {
            at_most(offer_all(pivot, before, peers_in(answer.1.1)), bound)
        } else {
            before
        }
    }
}

/// A lookup that ends when every near peer was asked.
pub struct NodeSpiderCrawl {
    pub base: SpiderCrawl,
}

impl NodeSpiderCrawl {
    /// The nearest peers stand in order and within their bound.
    pub open spec fn wf(&self) -> bool {
        self.base.wf()
    }

    /// A lookup of the peers nearest to `node` that starts from the given peers.
    pub fn new(node: Node, peers: Vec<Node>, ksize: usize, alpha: usize) -> (crawl: Self)
        ensures
            crawl.wf(),
            crawl.base.starts(node, peers@, ksize, alpha),
    {
        Self { base: SpiderCrawl::new(node, peers, ksize, alpha) }
    }

    /// The nearest peers known after the answers of a round.
    pub open spec fn nearest_then(&self, answers: Seq<Answer>) -> Seq<Node> {
        reached_after(
            self.base.nearest.node.long_id,
            self.base.nearest.maxsize as nat,
            self.base.nearest.nodes(),
            answers,
        ).filter(|n: Node| !silent(answers).contains(n.id))
    }

    /// Takes in the answers of a round and says what to do next.  Peers that did
    /// not answer are dropped.
    pub fn take_answers(&mut self, answers: &Vec<Answer>) -> (step: NodeStep)
        requires
            old(self).wf(),
        ensures
            final(self).wf(),
            final(self).base.nearest.nodes() == old(self).nearest_then(answers@),
            final(self).base.nearest.contacted@ == old(self).base.nearest.contacted@,
            final(self).base.nearest.maxsize == old(self).base.nearest.maxsize,
            final(self).base.nearest.node == old(self).base.nearest.node,
            final(self).base.node == old(self).base.node,
            final(self).base.ksize == old(self).base.ksize,
            final(self).base.alpha == old(self).base.alpha,
            final(self).base.last_ids_crawled@ == old(self).base.last_ids_crawled@,
            match step {
                NodeStep::Done { nearest } => {
                    &&& final(self).base.nearest.waiting().len() == 0
                    &&& nearest@ == final(self).base.nearest.nodes()
                    &&& nearest@.len() <= final(self).base.nearest.maxsize
                    &&& forall|i: int|
                        0 <= i < nearest@.len() ==> final(self).base.nearest.contacted@.contains(
                            (#[trigger] nearest@[i]).id,
                        )
                },
                NodeStep::Continue => {
                    &&& final(self).base.nearest.waiting().len() > 0
                    &&& exists|i: int|
                        0 <= i < final(self).base.nearest.heap@.len()
                            && !final(self).base.nearest.contacted@.contains(
                            (#[trigger] final(self).base.nearest.heap@[i]).id,
                        )
                },
            },
    {
        let ghost pivot = self.base.nearest.node.long_id;
        let ghost bound = self.base.nearest.maxsize as nat;
        let ghost nodes = self.base.nearest.nodes();
        let mut at: usize = 0;
        assert(answers@.take(0) =~= Seq::empty());
        while at < answers.len()
            invariant
                at <= answers@.len(),
                self.wf(),
                pivot == self.base.nearest.node.long_id,
                bound == self.base.nearest.maxsize,
                self.base.nearest.nodes() == reached_after(
                    pivot,
                    bound,
                    nodes,
                    answers@.take(at as int),
                ),
                self.base.nearest.contacted@ == old(self).base.nearest.contacted@,
                self.base.nearest.node == old(self).base.nearest.node,
                self.base.nearest.maxsize == old(self).base.nearest.maxsize,
                self.base.node == old(self).base.node,
                self.base.ksize == old(self).base.ksize,
                self.base.alpha == old(self).base.alpha,
                self.base.last_ids_crawled@ == old(self).base.last_ids_crawled@,
            decreases answers@.len() - at,
        {
            let ghost upto = answers@.take(at + 1);
            assert(upto.drop_last() =~= answers@.take(at as int));
            assert(upto.last() == answers@[at as int]);
            let answer: &Answer = &answers[at];
            if answer.1.0 {
                self.base.nearest.push(decode_peers(&answer.1.1));
            }
            at = at + 1;
        }
        assert(answers@.take(at as int) =~= answers@);
        let gone: Vec<[u8; ID_LEN]> = silent_peers(answers);
        let ghost known = self.base.nearest.nodes();
        self.base.nearest.remove(gone.as_slice());
        proof {
            filter_members(known, |n: Node| !gone@.contains(n.id));
        }
        if self.base.nearest.have_contacted_all() {
            return NodeStep::Done { nearest: self.base.nearest.to_vec() };
        }
        NodeStep::Continue
    }
}

/// A peer that did not answer is not among the nearest peers after the round.
pub proof fn silent_peers_are_dropped(
    crawl: NodeSpiderCrawl,
    lookup: ValueSpiderCrawl,
    answers: Seq<Answer>,
    which: int,
)
    requires
        0 <= which < answers.len(),
        !answers[which].1.0,
    ensures
        !has_id(crawl.nearest_then(answers), answers[which].0),
        !has_id(lookup.nearest_then(answers), answers[which].0),
{
    let mute = |a: Answer| !a.1.0;
    let id = answers[which].0;
    filter_members(answers, mute);
    assert(answers.filter(mute).contains(answers[which]));
    let k = choose|k: int|
        0 <= k < answers.filter(mute).len() && answers.filter(mute)[k] == answers[which];
    assert(silent(answers)[k] == id);
    let stays = |n: Node| !silent(answers).contains(n.id);
    filter_members(
        reached_after(
            crawl.base.nearest.node.long_id,
            crawl.base.nearest.maxsize as nat,
            crawl.base.nearest.nodes(),
            answers,
        ),
        stays,
    );
    filter_members(
        nearest_after(
            lookup.base.nearest.node.long_id,
            lookup.base.nearest.maxsize as nat,
            lookup.base.nearest.nodes(),
            answers,
        ),
        stays,
    );
}

} // verus!
