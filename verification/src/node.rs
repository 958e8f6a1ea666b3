//! Peers and the bounded list of nearest peers that a lookup keeps.
//!
//! A [`Node`] is a peer with a 20-byte ID.  A [`NodeHeap`] holds the peers
//! nearest to a pivot node by XOR distance and remembers which of them have
//! been contacted.

use rand::RngCore;
use vstd::prelude::*;

use crate::ranking::at_most;
use crate::ranking::cut_to;
use crate::ranking::distinct_ids;
use crate::ranking::find_id;
use crate::ranking::has_id;
use crate::ranking::offer_all;
use crate::ranking::offer_all_keeps_order;
use crate::ranking::offer_node;
use crate::ranking::precedes;
use crate::ranking::ranked;
use crate::ranking_laws::ranked_lists_are_by_distance;
use crate::seqs::filter_step;
use crate::seqs::filter_members;
use crate::text::append_decimal;
use crate::text::decimal;
use crate::utils::ID_LEN;

verus! {

/// The number that `bytes` write in base 256, most significant byte first.
pub open spec fn big_endian(bytes: Seq<u8>) -> nat
    decreases bytes.len(),
{
    if bytes.len() == 0 {
        0
    } else {
        big_endian(bytes.drop_last()) * 256 + bytes.last() as nat
    }
}

/// `256` to the power of `exponent`.
pub open spec fn pow256(exponent: nat) -> nat
    decreases exponent,
{
    if exponent == 0 {
        1
    } else {
        pow256((exponent - 1) as nat) * 256
    }
}

/// A number written in `n` bytes is below `256` to the power of `n`.
pub proof fn big_endian_bound(bytes: Seq<u8>)
    ensures
        big_endian(bytes) < pow256(bytes.len()),
    decreases bytes.len(),
{
    if bytes.len() > 0 {
        big_endian_bound(bytes.drop_last());
    }
}

/// Byte strings of one length that write the same number are the same.
pub proof fn big_endian_injective(a: Seq<u8>, b: Seq<u8>)
    requires
        a.len() == b.len(),
        big_endian(a) == big_endian(b),
    ensures
        a == b,
    decreases a.len(),
{
    if a.len() > 0 {
        big_endian_injective(a.drop_last(), b.drop_last());
        assert(a =~= a.drop_last().push(a.last()));
        assert(b =~= b.drop_last().push(b.last()));
    } else {
        assert(a =~= b);
    }
}

/// The first byte in which two byte strings of one length differ decides which
/// number is smaller.
pub proof fn big_endian_less(a: Seq<u8>, b: Seq<u8>, at: int)
    requires
        a.len() == b.len(),
        0 <= at < a.len(),
        a.take(at) == b.take(at),
        a[at] < b[at],
    ensures
        big_endian(a) < big_endian(b),
    decreases a.len(),
{
    if at == a.len() - 1 {
        assert(a.drop_last() =~= a.take(at));
        assert(b.drop_last() =~= b.take(at));
    } else {
        assert(a.drop_last().take(at) =~= a.take(at));
        assert(b.drop_last().take(at) =~= b.take(at));
        big_endian_less(a.drop_last(), b.drop_last(), at);
    }
}

/// The number in `bytes[from..to]`, for at most sixteen bytes.
fn read_big_endian(bytes: &[u8; ID_LEN], from: usize, to: usize) -> (number: u128)
    requires
        from <= to <= ID_LEN,
        to - from <= 16,
    ensures
        number == big_endian(bytes@.subrange(from as int, to as int)),
{
    let mut number: u128 = 0;
    let mut at: usize = from;
    while at < to
        invariant
            from <= at <= to <= ID_LEN,
            to - from <= 16,
            number == big_endian(bytes@.subrange(from as int, at as int)),
        decreases to - at,
    {
        let ghost next = bytes@.subrange(from as int, at + 1);
        proof {
            assert(next.drop_last() =~= bytes@.subrange(from as int, at as int));
            big_endian_bound(next);
            pow256_grows(next.len(), 16);
            reveal_with_fuel(pow256, 17);
        }
        number = number * 256 + bytes[at] as u128;
        at = at + 1;
    }
    number
}

proof fn pow256_grows(low: nat, high: nat)
    requires
        low <= high,
    ensures
        pow256(low) <= pow256(high),
    decreases high,
{
    if low < high {
        pow256_grows(low, (high - 1) as nat);
    }
}

/// The 160-bit ID folded into 128 bits: the first sixteen bytes as a number,
/// with the last four XOR-ed into its top 32 bits.
pub open spec fn fold_id(id: Seq<u8>) -> u128 {
    (big_endian(id.subrange(0, 16)) as u128) ^ ((big_endian(id.subrange(16, 20)) as u128) << 96u128)
}

/// XOR distance between two folded IDs.
pub open spec fn xor_distance(a: u128, b: u128) -> u128 {
    a ^ b
}

/// The distance between two IDs does not depend on the side it is seen from,
/// is zero between equal IDs and between no others.
pub proof fn distance_is_symmetric_and_separating(a: u128, b: u128)
    ensures
        xor_distance(a, b) == xor_distance(b, a),
        xor_distance(a, b) == 0 <==> a == b,
{
    assert(a ^ b == b ^ a && (a ^ b == 0 <==> a == b)) by (bit_vector);
}

/// Going by way of a third ID is never shorter.
pub proof fn distance_triangle(a: u128, b: u128, c: u128)
    ensures
        xor_distance(a, c) <= xor_distance(a, b) + xor_distance(b, c),
{
    let p: u128 = a ^ b;
    let q: u128 = b ^ c;
    assert(a ^ c == (a ^ b) ^ (b ^ c)) by (bit_vector);
    assert((p ^ q) <= (p | q)) by (bit_vector);
    assert((p | q) as int <= p as int + q as int) by {
        assert((p | q) == (p & !q) + q && (p & !q) <= p && (p & !q) <= !q && !q == 0xffff_ffff_ffff_ffff_ffff_ffff_ffff_ffffu128 - q)
            by (bit_vector);
    }
}

/// From any ID there is exactly one ID at a given distance.
pub proof fn distance_is_unidirectional(a: u128, b: u128, c: u128)
    requires
        xor_distance(a, b) == xor_distance(a, c),
    ensures
        b == c,
{
    assert(a ^ b == a ^ c ==> b == c) by (bit_vector);
}

/// A peer.
#[derive(Debug, PartialEq, Eq, Hash)]
pub struct Node {
    /// Raw ID.
    pub id: [u8; ID_LEN],
    pub ip: Option<String>,
    pub port: Option<u16>,
    /// The ID folded into an integer for distance computations.
    pub long_id: u128,
}

/// Whether two IDs are the same.
pub fn same_id(a: &[u8; ID_LEN], b: &[u8; ID_LEN]) -> (same: bool)
    ensures
        same == (*a == *b),
{
    let mut at: usize = 0;
    while at < ID_LEN
        invariant
            at <= ID_LEN,
            forall|i: int| 0 <= i < at ==> a@[i] == b@[i],
        decreases ID_LEN - at,
    {
        if a[at] != b[at] {
            return false;
        }
        at = at + 1;
    }
    assert(*a =~= *b);
    true
}

/// Whether `a` is the smaller of two IDs, read as numbers.
pub fn id_below(a: &[u8; ID_LEN], b: &[u8; ID_LEN]) -> (below: bool)
    ensures
        below == (big_endian(a@) < big_endian(b@)),
{
    let mut at: usize = 0;
    while at < ID_LEN
        invariant
            at <= ID_LEN,
            a@.take(at as int) == b@.take(at as int),
        decreases ID_LEN - at,
    {
        if a[at] != b[at] {
            proof {
                if a@[at as int] < b@[at as int] {
                    big_endian_less(a@, b@, at as int);
                } else {
                    big_endian_less(b@, a@, at as int);
                }
            }
            return a[at] < b[at];
        }
        assert(a@.take(at + 1) =~= a@.take(at as int).push(a@[at as int]));
        assert(b@.take(at + 1) =~= b@.take(at as int).push(b@[at as int]));
        at = at + 1;
    }
    assert(a@.take(20) =~= a@);
    assert(b@.take(20) =~= b@);
    false
}

/// Text of an optional IP address.
pub open spec fn ip_text(ip: Option<String>) -> Seq<char> {
    match ip {
        Some(ip) => ip@,
        None => "None"@,
    }
}

/// Text of an optional port.
pub open spec fn port_text(port: Option<u16>) -> Seq<char> {
    match port {
        Some(port) => decimal(port as nat),
        None => "None"@,
    }
}

impl Node {
    /// The folded ID belongs to the raw one.
    pub open spec fn wf(&self) -> bool {
        self.long_id == fold_id(self.id@)
    }

    /// A peer with the given ID, IP and port.
    pub open spec fn at(id: [u8; ID_LEN], ip: Option<String>, port: Option<u16>) -> Node {
        Node { id, ip, port, long_id: fold_id(id@) }
    }

    /// A peer with an address.
    pub fn new(id: [u8; ID_LEN], ip: Option<String>, port: Option<u16>) -> (node: Self)
        ensures
            node == Node::at(id, ip, port),
            node.wf(),
    {
        let long_id: u128 = Self::id_to_u128(&id);
        Self { id, ip, port, long_id }
    }

    /// A peer without an address, as a key to look up.
    pub open spec fn key(id: [u8; ID_LEN]) -> Node {
        Node { id, ip: None, port: None, long_id: fold_id(id@) }
    }

    /// A peer without an address, as a key to look up.
    pub fn from_id(id: [u8; ID_LEN]) -> (node: Self)
        ensures
            node == Node::key(id),
            node.wf(),
    {
        Self::new(id, None, None)
    }

    /// A peer with a random ID and no address.
    pub fn random() -> (node: Self)
        ensures
            drawn_id(node.id),
            node == Node::key(node.id),
            node.wf(),
    {
        Self::from_id(draw_id())
    }

    fn id_to_u128(id: &[u8; ID_LEN]) -> (folded: u128)
        ensures
            folded == fold_id(id@),
    {
        let base: u128 = read_big_endian(id, 0, 16);
        let tail: u128 = read_big_endian(id, 16, 20);
        base ^ (tail << 96u128)
    }

    /// XOR distance to another peer.
    pub fn distance_to(&self, other: &Node) -> (distance: u128)
        ensures
            distance == xor_distance(self.long_id, other.long_id),
            distance == self.long_id ^ other.long_id,
    {
        self.long_id ^ other.long_id
    }

    /// Both peers have the same IP and the same port.
    pub open spec fn same_home(&self, other: &Node) -> bool {
        &&& self.port == other.port
        &&& match (self.ip, other.ip) {
            (Some(a), Some(b)) => a@ == b@,
            (None, None) => true,
            _ => false,
        }
    }

    /// Whether both peers have the same IP and the same port.
    pub fn same_home_as(&self, other: &Node) -> (same: bool)
        ensures
            same == self.same_home(other),
    {
        let same_ip: bool = match (&self.ip, &other.ip) {
            (Some(a), Some(b)) => *a == *b,
            (None, None) => true,
            _ => false,
        };
        let same_port: bool = match (self.port, other.port) {
            (Some(a), Some(b)) => a == b,
            (None, None) => true,
            _ => false,
        };
        same_ip && same_port
    }

    /// The peer's IP and port, if both are known.
    pub fn address(&self) -> (address: Option<(String, u16)>)
        ensures
            match (self.ip, self.port) {
                (Some(ip), Some(port)) => address == Some((ip, port)),
                _ => address is None,
            },
    {
        match (&self.ip, self.port) {
            (Some(ip), Some(port)) => Some((ip.clone(), port)),
            _ => None,
        }
    }

    /// Text of the peer: `ip:port`.
    pub open spec fn label(&self) -> Seq<char> {
        ip_text(self.ip) + ":"@ + port_text(self.port)
    }

    /// The peer as `ip:port`, with `None` for what is not known.
    pub fn display(&self) -> (text: String)
        ensures
            text@ == self.label(),
    {
        let mut text: String = match &self.ip {
            Some(ip) => ip.clone(),
            None => "None".to_owned(),
        };
        text.append(":");
        match self.port {
            Some(port) => append_decimal(&mut text, port as u64),
            None => text.append("None"),
        }
        text
    }
}

impl Clone for Node {
    fn clone(&self) -> (copy: Self)
        ensures
            copy == *self,
    {
        Self { id: self.id, ip: self.ip.clone(), port: self.port, long_id: self.long_id }
    }
}

/// Twenty bytes from `rand::thread_rng` by `fill_bytes`.  The bytes are random,
/// so nothing is claimed of them.
#[verifier::external_body]
fn random_id() -> (id: [u8; ID_LEN]) {
    let mut id = [0u8; ID_LEN];
    rand::thread_rng().fill_bytes(&mut id);
    id
}

/// The ID is one that a draw of random bytes gave.
pub closed spec fn drawn_id(id: [u8; ID_LEN]) -> bool {
    call_ensures(random_id, (), id)
}

/// A random ID.
pub fn draw_id() -> (id: [u8; ID_LEN])
    ensures
        drawn_id(id),
{
    random_id()
}

/// Whether `ids` has the ID among them.
pub fn contains_id(ids: &[[u8; ID_LEN]], id: &[u8; ID_LEN]) -> (found: bool)
    ensures
        found == ids@.contains(*id),
{
    let mut at: usize = 0;
    while at < ids.len()
        invariant
            at <= ids@.len(),
            forall|i: int| 0 <= i < at ==> ids@[i] != *id,
        decreases ids@.len() - at,
    {
        if same_id(&ids[at], id) {
            return true;
        }
        at = at + 1;
    }
    false
}

/// A bounded list of the peers nearest to a pivot, nearest first.
///
/// A lookup keeps the `k` nearest peers it knows of here and notes which of
/// them it has contacted.
#[derive(Debug)]
pub struct NodeHeap {
    /// The pivot from which distances are measured.
    pub node: Node,
    /// The peers held, nearest first.
    pub heap: Vec<Node>,
    /// IDs of the peers that were contacted.
    pub contacted: Vec<[u8; ID_LEN]>,
    /// How many peers the list may hold.
    pub maxsize: usize,
}

impl NodeHeap {
    /// The peers held, nearest first.
    pub open spec fn nodes(&self) -> Seq<Node> {
        self.heap@
    }

    /// The peers stand in order of distance and none is there twice.
    pub open spec fn wf(&self) -> bool {
        &&& ranked(self.node.long_id, self.nodes())
        &&& distinct_ids(self.nodes())
    }

    /// The peers that are shown: at most `maxsize` of them.
    pub open spec fn listed(&self) -> Seq<Node> {
        at_most(self.nodes(), self.maxsize as nat)
    }

    /// The shown peers that were not contacted.
    pub open spec fn waiting(&self) -> Seq<Node> {
        self.listed().filter(|n: Node| !self.contacted@.contains(n.id))
    }

    /// An empty list for the pivot and the bound.
    pub fn new(node: Node, maxsize: usize) -> (heap: Self)
        ensures
            heap.wf(),
            heap.node == node,
            heap.maxsize == maxsize,
            heap.nodes() == Seq::<Node>::empty(),
            heap.contacted@ == Seq::<[u8; ID_LEN]>::empty(),
    {
        Self { node, heap: Vec::new(), contacted: Vec::new(), maxsize }
    }

    /// Takes in every peer whose ID is not there yet, then drops the farthest
    /// until at most `maxsize` are left.
    pub fn push(&mut self, nodes: Vec<Node>)
        requires
            old(self).wf(),
        ensures
            final(self).wf(),
            final(self).nodes() == at_most(
                offer_all(old(self).node.long_id, old(self).nodes(), nodes@),
                old(self).maxsize as nat,
            ),
            final(self).nodes().len() <= final(self).maxsize,
            forall|i: int, j: int|
                0 <= i < j < final(self).nodes().len() ==> (old(self).node.long_id ^ (
                #[trigger] final(self).nodes()[i]).long_id) <= (old(self).node.long_id ^ (
                #[trigger] final(self).nodes()[j]).long_id),
            final(self).node == old(self).node,
            final(self).contacted == old(self).contacted,
            final(self).maxsize == old(self).maxsize,
    {
        let mut at: usize = 0;
        while at < nodes.len()
            invariant
                at <= nodes@.len(),
                self.heap@ == offer_all(
                    old(self).node.long_id,
                    old(self).nodes(),
                    nodes@.take(at as int),
                ),
                self.node == old(self).node,
                self.contacted == old(self).contacted,
                self.maxsize == old(self).maxsize,
            decreases nodes@.len() - at,
        {
            offer_node(&mut self.heap, self.node.long_id, nodes[at].clone());
            assert(nodes@.take(at + 1).drop_last() =~= nodes@.take(at as int));
            at = at + 1;
        }
        assert(nodes@.take(at as int) =~= nodes@);
        proof {
            offer_all_keeps_order(old(self).node.long_id, old(self).nodes(), nodes@);
        }
        cut_to(&mut self.heap, self.maxsize);
        proof {
            ranked_lists_are_by_distance(self.node.long_id, self.heap@);
        }
    }

    /// Takes in one peer.
    pub fn push_one(&mut self, node: Node)
        requires
            old(self).wf(),
        ensures
            final(self).wf(),
            final(self).nodes() == at_most(
                offer_all(old(self).node.long_id, old(self).nodes(), seq![node]),
                old(self).maxsize as nat,
            ),
            final(self).nodes().len() <= final(self).maxsize,
            forall|i: int, j: int|
                0 <= i < j < final(self).nodes().len() ==> (old(self).node.long_id ^ (
                #[trigger] final(self).nodes()[i]).long_id) <= (old(self).node.long_id ^ (
                #[trigger] final(self).nodes()[j]).long_id),
            final(self).node == old(self).node,
            final(self).contacted == old(self).contacted,
            final(self).maxsize == old(self).maxsize,
    {
        let mut nodes: Vec<Node> = Vec::new();
        nodes.push(node);
        assert(nodes@ =~= seq![node]);
        self.push(nodes);
    }

    /// Drops the peers with the given IDs.
    pub fn remove(&mut self, peers: &[[u8; ID_LEN]])
        requires
            old(self).wf(),
        ensures
            final(self).wf(),
            final(self).nodes() == old(self).nodes().filter(|n: Node| !peers@.contains(n.id)),
            final(self).node == old(self).node,
            final(self).contacted == old(self).contacted,
            final(self).maxsize == old(self).maxsize,
    {
        let ghost stays = |n: Node| !peers@.contains(n.id);
        let mut rest: Vec<Node> = Vec::new();
        let mut at: usize = 0;
        while at < self.heap.len()
            invariant
                *self == *old(self),
                at <= self.heap@.len(),
                stays == (|n: Node| !peers@.contains(n.id)),
                rest@ == self.heap@.take(at as int).filter(stays),
            decreases self.heap@.len() - at,
        {
            proof {
                filter_step(self.heap@, at as int, stays);
            }
            if !contains_id(peers, &self.heap[at].id) {
                rest.push(self.heap[at].clone());
            }
            at = at + 1;
        }
        assert(self.heap@.take(at as int) =~= self.heap@);
        proof {
            filter_keeps_order(self.node.long_id, self.heap@, stays);
        }
        self.heap = rest;
    }

    /// Takes out the nearest peer.
    pub fn popleft(&mut self) -> (nearest: Option<Node>)
        requires
            old(self).wf(),
        ensures
            final(self).wf(),
            match nearest {
                Some(node) => old(self).nodes().len() > 0 && node == old(self).nodes()[0]
                    && final(self).nodes() == old(self).nodes().drop_first(),
                None => old(self).nodes().len() == 0 && final(self).nodes() == old(self).nodes(),
            },
            final(self).node == old(self).node,
            final(self).contacted == old(self).contacted,
            final(self).maxsize == old(self).maxsize,
    {
        if self.heap.len() == 0 {
            return None;
        }
        let nearest: Node = self.heap.remove(0);
        assert(self.heap@ =~= old(self).heap@.drop_first());
        Some(nearest)
    }

    /// Whether a peer with the ID of `node` is held.
    pub fn contains(&self, node: &Node) -> (held: bool)
        ensures
            held == has_id(self.nodes(), node.id),
    {
        find_id(&self.heap, &node.id).is_some()
    }

    /// The held peer with the given ID.
    pub fn get_node(&self, node_id: &[u8; ID_LEN]) -> (found: Option<Node>)
        ensures
            match found {
                Some(node) => self.nodes().contains(node) && node.id == *node_id,
                None => !has_id(self.nodes(), *node_id),
            },
    {
        match find_id(&self.heap, node_id) {
            Some(at) => {
                assert(self.nodes()[at as int] == self.heap@[at as int]);
                Some(self.heap[at].clone())
            },
            None => None,
        }
    }

    /// Whether every shown peer was contacted.
    pub fn have_contacted_all(&self) -> (all: bool)
        ensures
            all == (self.waiting().len() == 0),
            all == forall|i: int|
                0 <= i < self.listed().len() ==> self.contacted@.contains(
                    (#[trigger] self.listed()[i]).id,
                ),
    {
        let waiting: Vec<Node> = self.get_uncontacted();
        proof {
            filter_members(self.listed(), |n: Node| !self.contacted@.contains(n.id));
        }
        waiting.len() == 0
    }

    /// The IDs of the shown peers, nearest first.
    pub fn get_ids(&self) -> (ids: Vec<[u8; ID_LEN]>)
        ensures
            ids@ == self.listed().map_values(|n: Node| n.id),
    {
        let mut ids: Vec<[u8; ID_LEN]> = Vec::new();
        let mut at: usize = 0;
        while at < self.len()
            invariant
                at <= self.listed().len(),
                ids@ == self.listed().take(at as int).map_values(|n: Node| n.id),
            decreases self.listed().len() - at,
        {
            ids.push(self.heap[at].id);
            at = at + 1;
            assert(ids@ =~= self.listed().take(at as int).map_values(|n: Node| n.id));
        }
        assert(self.listed().take(at as int) =~= self.listed());
        ids
    }

    /// How many peers are shown.
    pub fn len(&self) -> (count: usize)
        ensures
            count == self.listed().len(),
    {
        if self.heap.len() <= self.maxsize {
            self.heap.len()
        } else {
            self.maxsize
        }
    }

    /// Whether no peer is held.
    pub fn is_empty(&self) -> (empty: bool)
        ensures
            empty == (self.nodes().len() == 0),
    {
        self.heap.len() == 0
    }

    /// Notes that the peer was contacted.
    pub fn mark_contacted(&mut self, node: &Node)
        ensures
            final(self).contacted@ == if old(self).contacted@.contains(node.id) {
                old(self).contacted@
            } else {
                old(self).contacted@.push(node.id)
            },
            final(self).nodes() == old(self).nodes(),
            final(self).node == old(self).node,
            final(self).maxsize == old(self).maxsize,
    {
        if !contains_id(&self.contacted, &node.id) {
            self.contacted.push(node.id);
        }
    }

    /// The shown peers that were not contacted, nearest first.
    pub fn get_uncontacted(&self) -> (waiting: Vec<Node>)
        ensures
            waiting@ == self.waiting(),
    {
        let ghost waits = |n: Node| !self.contacted@.contains(n.id);
        let mut waiting: Vec<Node> = Vec::new();
        let mut at: usize = 0;
        while at < self.len()
            invariant
                at <= self.listed().len(),
                waits == (|n: Node| !self.contacted@.contains(n.id)),
                waiting@ == self.listed().take(at as int).filter(waits),
            decreases self.listed().len() - at,
        {
            proof {
                filter_step(self.listed(), at as int, waits);
            }
            if !contains_id(&self.contacted, &self.heap[at].id) {
                waiting.push(self.heap[at].clone());
            }
            at = at + 1;
        }
        assert(self.listed().take(at as int) =~= self.listed());
        waiting
    }

    /// The shown peers, nearest first.
    pub fn iter(&self) -> (nodes: Vec<Node>)
        ensures
            nodes@ == self.listed(),
    {
        let mut nodes: Vec<Node> = Vec::new();
        let mut at: usize = 0;
        while at < self.len()
            invariant
                at <= self.listed().len(),
                nodes@ == self.listed().take(at as int),
            decreases self.listed().len() - at,
        {
            nodes.push(self.heap[at].clone());
            at = at + 1;
            assert(nodes@ =~= self.listed().take(at as int));
        }
        assert(self.listed().take(at as int) =~= self.listed());
        nodes
    }

    /// The shown peers, nearest first.
    pub fn to_vec(&self) -> (nodes: Vec<Node>)
        ensures
            nodes@ == self.listed(),
    {
        self.iter()
    }

    /// The list as `[ip:port, ip:port]`, nearest first.
    pub fn display(&self) -> (text: String)
        ensures
            text@ == "["@ + joined_labels(self.listed()) + "]"@,
    {
        let nodes: Vec<Node> = self.iter();
        let mut text: String = "[".to_owned();
        let mut at: usize = 0;
        while at < nodes.len()
            invariant
                at <= nodes@.len(),
                text@ == "["@ + joined_labels(nodes@.take(at as int)),
            decreases nodes@.len() - at,
        {
            let label: String = nodes[at].display();
            assert(nodes@.take(at + 1).drop_last() =~= nodes@.take(at as int));
            if at > 0 {
                text.append(", ");
            }
            text.append(label.as_str());
            at = at + 1;
            assert(text@ =~= "["@ + joined_labels(nodes@.take(at as int)));
        }
        assert(nodes@.take(at as int) =~= nodes@);
        text.append("]");
        text
    }
}

impl Clone for NodeHeap {
    fn clone(&self) -> (copy: Self)
        ensures
            copy.node == self.node,
            copy.nodes() == self.nodes(),
            copy.contacted@ == self.contacted@,
            copy.maxsize == self.maxsize,
    {
        let heap: Vec<Node> = self.heap.clone();
        assert(heap@ =~= self.heap@);
        let contacted: Vec<[u8; ID_LEN]> = copy_ids(&self.contacted);
        Self { node: self.node.clone(), heap, contacted, maxsize: self.maxsize }
    }
}

fn copy_ids(ids: &Vec<[u8; ID_LEN]>) -> (copy: Vec<[u8; ID_LEN]>)
    ensures
        copy@ == ids@,
{
    let mut copy: Vec<[u8; ID_LEN]> = Vec::new();
    let mut at: usize = 0;
    while at < ids.len()
        invariant
            at <= ids@.len(),
            copy@ == ids@.take(at as int),
        decreases ids@.len() - at,
    {
        copy.push(ids[at]);
        at = at + 1;
        assert(copy@ =~= ids@.take(at as int));
    }
    assert(ids@.take(at as int) =~= ids@);
    copy
}

/// The labels of the peers, separated by `, `.
pub open spec fn joined_labels(nodes: Seq<Node>) -> Seq<char>
    decreases nodes.len(),
{
    if nodes.len() == 0 {
        Seq::empty()
    } else if nodes.len() == 1 {
        nodes[0].label()
    } else {
        joined_labels(nodes.drop_last()) + ", "@ + nodes.last().label()
    }
}

/// Leaving peers out of a ranked list without repeated IDs leaves it so.
pub proof fn filter_keeps_order(pivot: u128, nodes: Seq<Node>, stays: spec_fn(Node) -> bool)
    requires
        ranked(pivot, nodes),
        distinct_ids(nodes),
    ensures
        ranked(pivot, nodes.filter(stays)),
        distinct_ids(nodes.filter(stays)),
    decreases nodes.len(),
{
    reveal(Seq::filter);
    if nodes.len() > 0 {
        let front = nodes.drop_last();
        filter_keeps_order(pivot, front, stays);
        filter_members(front, stays);
        let kept = front.filter(stays);
        assert forall|i: int| 0 <= i < kept.len() implies precedes(
            pivot,
            #[trigger] kept[i],
            nodes.last(),
        ) && kept[i].id != nodes.last().id by {
            assert(kept.contains(kept[i]));
            let j = choose|j: int| 0 <= j < front.len() && front[j] == kept[i];
            assert(nodes[j] == kept[i]);
            assert(nodes[nodes.len() - 1] == nodes.last());
        }
    }
}

} // verus!
