//! The protocol: what a node makes of messages, and what it sends.
//!
//! [`KademliaProtocol`] holds a node's routing table, storage, judge and
//! half-received messages.  It turns datagrams into messages, requests into
//! replies and answers into results.  Sockets, timeouts and the encoding of
//! messages are the business of whoever drives it.

use vstd::prelude::*;
use vstd::std_specs::convert::FromSpecImpl;

use crate::auth_handler::IssuerKey;
use crate::auth_handler::IssuerModel;
use crate::auth_handler::SignatureVerifierHandler;
use crate::crawling::FindPayload;
use crate::crawling::PeerTuple;
use crate::crawling::RawResponse;
use crate::fragmentation::encode_fragments;
use crate::fragmentation::fragments;
use crate::fragmentation::message_received;
use crate::fragmentation::table_received;
use crate::fragmentation::ReassemblyMap;
use crate::fragmentation::ReassemblyModel;
use crate::fragmentation::MAX_MESSAGE_SIZE;
use crate::judge::accepts;
use crate::judge::digest_is_unique;
use crate::judge::is_status_list;
use crate::judge::names_status_list;
use crate::judge::Judge;
use crate::node::fold_id;
use crate::node::draw_id;
use crate::node::drawn_id;
use crate::node::xor_distance;
use crate::node::Node;
use crate::ranking_laws::arranging_sorts_by_distance;
use crate::routing::lonely_by;
use crate::bucket::BucketModel;
use crate::bucket::KBucket;
use crate::routing::RoutingTable;
use crate::routing::TableModel;
use crate::bucket::SPARES_PER_CONTACT;
use crate::routing_laws::a_lookup_touches_one_more;
use crate::routing_laws::touching_changes_no_answer;
use crate::storage::ForgetfulStorage;
use crate::storage::StorageModel;
use crate::utils::id_of;
use crate::utils::id_of_bytes;
use crate::utils::to_id;
use crate::utils::ID_LEN;

verus! {

/// The time of an event.
#[derive(Debug, Clone, Copy)]
pub struct Moment {
    /// Seconds since the Unix epoch.
    pub wall: u64,
    /// Nanoseconds on the storage's clock.
    pub run: u128,
}

/// A peer as it is sent.
#[derive(Debug)]
pub struct WireNode {
    pub id: [u8; ID_LEN],
    pub ip: Option<String>,
    pub port: Option<u16>,
}

impl From<&Node> for WireNode {
    fn from(n: &Node) -> (wire: Self) {
        Self { id: n.id, ip: n.ip.clone(), port: n.port }
    }
}

impl FromSpecImpl<&Node> for WireNode {
    open spec fn obeys_from_spec() -> bool {
        true
    }

    open spec fn from_spec(n: &Node) -> WireNode {
        WireNode { id: n.id, ip: n.ip, port: n.port }
    }
}

impl From<WireNode> for Node {
    fn from(w: WireNode) -> (node: Self) {
        Node::new(w.id, w.ip, w.port)
    }
}

impl FromSpecImpl<WireNode> for Node {
    open spec fn obeys_from_spec() -> bool {
        true
    }

    open spec fn from_spec(w: WireNode) -> Node {
        Node::at(w.id, w.ip, w.port)
    }
}

/// A peer that was sent arrives as it was.
pub proof fn a_sent_peer_arrives(node: Node)
    requires
        node.wf(),
    ensures
        Node::at(wire_of(node).id, wire_of(node).ip, wire_of(node).port) == node,
{
}

/// A peer as it is sent.
pub open spec fn wire_of(node: Node) -> WireNode {
    WireNode { id: node.id, ip: node.ip, port: node.port }
}

/// Peers as they are sent.
pub open spec fn wire_all(nodes: Seq<Node>) -> Seq<WireNode> {
    nodes.map_values(|n: Node| wire_of(n))
}

fn to_wire(nodes: &Vec<Node>) -> (wire: Vec<WireNode>)
    ensures
        wire@ == wire_all(nodes@),
{
    let mut wire: Vec<WireNode> = Vec::new();
    let mut at: usize = 0;
    while at < nodes.len()
        invariant
            at <= nodes@.len(),
            wire@ == wire_all(nodes@.take(at as int)),
        decreases nodes@.len() - at,
    {
        let sent: WireNode = WireNode::from(&nodes[at]);
        wire.push(sent);
        at = at + 1;
        assert(wire@ =~= wire_all(nodes@.take(at as int)));
    }
    assert(nodes@.take(at as int) =~= nodes@);
    wire
}

/// A message between nodes.
#[derive(Debug)]
pub enum RpcMessage {
    Ping { sender_id: [u8; ID_LEN] },
    Pong { sender_id: [u8; ID_LEN] },
    Store { sender_id: [u8; ID_LEN], key: [u8; ID_LEN], value: Vec<u8> },
    StoreResult { ok: bool },
    Update {
        sender_id: [u8; ID_LEN],
        key: [u8; ID_LEN],
        value: Vec<u8>,
        auth_signature: Vec<u8>,
    },
    UpdateResult { ok: bool },
    UpdateStatusList { sender_id: [u8; ID_LEN], key: [u8; ID_LEN], value: Vec<u8> },
    UpdateStatusListResult { ok: bool },
    Delete {
        sender_id: [u8; ID_LEN],
        key: [u8; ID_LEN],
        auth_signature: Vec<u8>,
        delete_msg: Vec<u8>,
    },
    DeleteResult { ok: bool },
    FindNode { sender_id: [u8; ID_LEN], key: [u8; ID_LEN] },
    FindNodeResult { nodes: Vec<WireNode> },
    FindValue { sender_id: [u8; ID_LEN], key: [u8; ID_LEN] },
    FindValueNodes { nodes: Vec<WireNode> },
    FindValueHit { value: Vec<u8> },
    Leave { sender_id: [u8; ID_LEN] },
}

/// A message with the number by which its answer is recognised.
#[derive(Debug)]
pub struct Frame {
    pub msg_id: u32,
    pub is_request: bool,
    pub message: RpcMessage,
}

/// The answer to a request for a value.
#[derive(Debug)]
pub enum FindValueResult {
    /// Peers nearer to the key.
    Nodes(Vec<Node>),
    /// The value.
    Value(Vec<u8>),
}

/// What is to be done about a new peer.
#[derive(Debug)]
pub struct Welcome {
    /// Records to store at the peer.
    pub stores: Vec<([u8; ID_LEN], Vec<u8>)>,
    /// A contact to ping, and to remove if it does not answer.
    pub ping: Option<Node>,
}

/// What is to be done about a frame.
#[derive(Debug)]
pub struct FrameOutcome {
    /// An answer, for whoever waits for the message with this number.
    pub deliver: Option<(u32, RpcMessage)>,
    /// A reply to send back.
    pub reply: Option<Frame>,
    /// A peer to welcome if it is new.
    pub welcome: Option<Node>,
}

/// What a node holds, apart from its judge.
pub struct ProtocolModel {
    pub router: TableModel,
    pub storage: StorageModel,
    pub source: Node,
    pub next_msg_id: u32,
    pub next_frag_id: u32,
    pub partials: ReassemblyModel,
}

/// The state of a node in the protocol.
pub struct KademliaProtocol<H: SignatureVerifierHandler> {
    pub router: RoutingTable,
    pub storage: ForgetfulStorage,
    pub source_node: Node,
    pub judge: Judge<H>,
    pub next_msg_id: u32,
    pub next_frag_id: u32,
    pub reassembly: ReassemblyMap,
}

impl<H: SignatureVerifierHandler> View for KademliaProtocol<H> {
    type V = ProtocolModel;

    open spec fn view(&self) -> ProtocolModel {
        ProtocolModel {
            router: self.router@,
            storage: self.storage@,
            source: self.source_node,
            next_msg_id: self.next_msg_id,
            next_frag_id: self.next_frag_id,
            partials: self.reassembly@,
        }
    }
}

/// The peer that a message came from.
pub open spec fn sender(id: [u8; ID_LEN], address: (String, u16)) -> Node {
    Node::at(id, Some(address.0), Some(address.1))
}

/// The number that follows.
pub open spec fn following(number: u32) -> u32 {
    if number == u32::MAX {
        0
    } else {
        (number + 1) as u32
    }
}

/// The number that comes `count` numbers later.
pub open spec fn later(number: u32, count: nat) -> u32
    decreases count,
{
    if count == 0 {
        number
    } else {
        following(later(number, (count - 1) as nat))
    }
}

/// A number does not come again before all others have: messages and fragments of
/// one node have different numbers unless four billion others lie between them.
pub proof fn numbers_are_unique(number: u32, count: nat)
    requires
        0 < count <= u32::MAX,
    ensures
        later(number, count) != number,
{
    later_counts(number, count);
}

proof fn later_counts(number: u32, count: nat)
    ensures
        later(number, count) as int == (number + count) % (u32::MAX + 1),
    decreases count,
{
    if count > 0 {
        later_counts(number, (count - 1) as nat);
    }
}

impl<H: SignatureVerifierHandler> KademliaProtocol<H> {
    /// The parts are in order, and the table is that of this node.
    pub open spec fn wf(&self) -> bool {
        &&& self.router.wf()
        &&& self.judge.wf()
        &&& self.reassembly.wf()
        &&& self.router@.local == self.source_node
    }

    /// A node without contacts, with the given storage and judge.
    pub fn new(
        source_node: Node,
        storage: ForgetfulStorage,
        ksize: usize,
        judge: Judge<H>,
        wall: u64,
    ) -> (protocol: Self)
        requires
            ksize * SPARES_PER_CONTACT <= usize::MAX,
            judge.wf(),
        ensures
            protocol.wf(),
            protocol.judge == judge,
            protocol.storage == storage,
            protocol@ == (ProtocolModel {
                router: TableModel {
                    local: source_node,
                    ksize: ksize as nat,
                    buckets: seq![
                        BucketModel::filled(0, u128::MAX, ksize as nat, wall, Seq::empty()),
                    ],
                },
                storage: storage@,
                source: source_node,
                next_msg_id: 0,
                next_frag_id: 0,
                partials: Map::empty(),
            }),
    {
        let router: RoutingTable = RoutingTable::new_at(source_node.clone(), ksize, wall);
        Self {
            router,
            storage,
            source_node,
            judge,
            next_msg_id: 0,
            next_frag_id: 0,
            reassembly: ReassemblyMap::new(),
        }
    }

    /// Takes the next message number.
    fn next_id(&mut self) -> (id: u32)
        requires
            old(self).wf(),
        ensures
            final(self).wf(),
            id == old(self).next_msg_id,
            final(self)@ == (ProtocolModel { next_msg_id: following(id), ..old(self)@ }),
            final(self).judge == old(self).judge,
            final(self).storage == old(self).storage,
    {
        let id: u32 = self.next_msg_id;
        self.next_msg_id = id.wrapping_add(1);
        id
    }

    /// Takes the next fragment number.
    fn next_frag_id(&mut self) -> (id: u32)
        requires
            old(self).wf(),
        ensures
            final(self).wf(),
            id == old(self).next_frag_id,
            final(self)@ == (ProtocolModel { next_frag_id: following(id), ..old(self)@ }),
            final(self).judge == old(self).judge,
            final(self).storage == old(self).storage,
    {
        let id: u32 = self.next_frag_id;
        self.next_frag_id = id.wrapping_add(1);
        id
    }

    /// A request with a fresh number.
    pub fn request(&mut self, message: RpcMessage) -> (frame: Frame)
        requires
            old(self).wf(),
        ensures
            final(self).wf(),
            frame == (Frame { msg_id: old(self).next_msg_id, is_request: true, message }),
            final(self)@ == (ProtocolModel {
                next_msg_id: following(old(self).next_msg_id),
                ..old(self)@
            }),
            final(self).judge == old(self).judge,
            final(self).storage == old(self).storage,
    {
        let msg_id: u32 = self.next_id();
        Frame { msg_id, is_request: true, message }
    }

    /// The datagrams to send for an encoded frame.  One that is too long is not
    /// sent at all.
    pub fn send_frame(&mut self, bytes: &[u8]) -> (datagrams: Option<Vec<Vec<u8>>>)
        requires
            old(self).wf(),
        ensures
            final(self).wf(),
            match datagrams {
                Some(list) => {
                    &&& bytes@.len() <= MAX_MESSAGE_SIZE
                    &&& list@.map_values(|d: Vec<u8>| d@) == fragments(
                        old(self).next_frag_id,
                        bytes@,
                    )
                    &&& final(self)@ == (ProtocolModel {
                        next_frag_id: following(old(self).next_frag_id),
                        ..old(self)@
                    })
                },
                None => bytes@.len() > MAX_MESSAGE_SIZE && final(self)@ == old(self)@,
            },
            datagrams is Some <==> bytes@.len() <= 256 * 1024,
            final(self).judge == old(self).judge,
            final(self).storage == old(self).storage,
    {
        if bytes.len() > MAX_MESSAGE_SIZE {
            return None;
        }
        let frag_id: u32 = self.next_frag_id();
        Some(encode_fragments(frag_id, bytes))
    }

    /// Takes in a datagram that arrived at `now_ms` milliseconds, and returns the
    /// encoded frame that it completes.
    pub fn handle_datagram(&mut self, data: &[u8], ip: &String, port: u16, now_ms: u64) -> (payload:
        Option<Vec<u8>>)
        requires
            old(self).wf(),
        ensures
            final(self).wf(),
            final(self)@ == (ProtocolModel {
                partials: table_received(old(self)@.partials, data@, ip@, port, now_ms),
                ..old(self)@
            }),
            match payload {
                Some(bytes) => message_received(old(self)@.partials, data@, ip@, port, now_ms)
                    == Some(bytes@),
                None => message_received(old(self)@.partials, data@, ip@, port, now_ms) is None,
            },
            final(self).judge == old(self).judge,
            final(self).storage == old(self).storage,
    {
        self.reassembly.receive(data, ip, port, now_ms)
    }

    /// The outcome of a request to store a record: it is stored if it is valid and
    /// the key is free.
    pub open spec fn stores(
        &self,
        after: &Self,
        key: [u8; ID_LEN],
        value: Seq<u8>,
        now: Moment,
        issuer: IssuerModel,
        ok: bool,
    ) -> bool {
        exists|valid: bool| #[trigger]
            self.judge.gives(after.judge, is_status_list(key), value, issuer, valid) && ok == (valid
                && !self@.storage.live(key@, now.run)) && after@ == (ProtocolModel {
                storage: if valid {
                    self@.storage.written_if_absent(key@, value, now.run)
                } else {
                    self@.storage
                },
                ..self@
            })
    }

    /// A record may be replaced: it is there, and the new one is authorised by it.
    pub open spec fn may_update(
        &self,
        key: [u8; ID_LEN],
        value: Seq<u8>,
        auth: Seq<u8>,
        now: Moment,
    ) -> bool {
        match self@.storage.read(key@, now.run) {
            Some(old_value) => accepts(
                self.judge.handler.update_verdict(value, old_value, auth),
            ),
            None => false,
        }
    }

    /// The status list may be replaced: it is there, and the new one is signed by
    /// the issuer.
    pub open spec fn may_update_list(
        &self,
        key: [u8; ID_LEN],
        value: Seq<u8>,
        now: Moment,
        issuer: IssuerModel,
    ) -> bool {
        self@.storage.live(key@, now.run) && accepts(
            self.judge.handler.issuer_verdict(value, issuer),
        )
    }

    /// A record may be deleted: it is there, and the request is signed with its
    /// key.
    pub open spec fn may_delete(
        &self,
        key: [u8; ID_LEN],
        auth: Seq<u8>,
        message: Seq<u8>,
        now: Moment,
    ) -> bool {
        match self@.storage.read(key@, now.run) {
            Some(value) => accepts(self.judge.handler.delete_verdict(value, auth, message)),
            None => false,
        }
    }

    /// The node after a record was written.
    pub open spec fn having_written(
        &self,
        key: [u8; ID_LEN],
        value: Seq<u8>,
        now: Moment,
    ) -> ProtocolModel {
        ProtocolModel { storage: self@.storage.written(key@, value, now.run), ..self@ }
    }

    /// The node after a lookup of the key.
    pub open spec fn having_looked_up(&self, key: [u8; ID_LEN], now: Moment) -> ProtocolModel {
        ProtocolModel { router: self@.router.looked_up(fold_id(key@), now.wall), ..self@ }
    }

    /// The peers to name to a sender that asks for those near the key.
    pub open spec fn named_to(&self, key: [u8; ID_LEN], source: Node) -> Seq<Node> {
        self@.router.neighbors(Node::key(key), Some(source))
    }

    /// A ping: the ID of this node, and the sender to welcome.
    pub fn rpc_ping(&self, sender_id: [u8; ID_LEN], sender_addr: (String, u16)) -> (reply: (
        [u8; ID_LEN],
        Node,
    ))
        ensures
            reply.0 == self.source_node.id,
            reply.1 == sender(sender_id, sender_addr),
    {
        (self.source_node.id, Node::new(sender_id, Some(sender_addr.0), Some(sender_addr.1)))
    }

    /// A request to store a record.  It is verified, and stored unless the key is
    /// taken.  The sender is to be welcomed if it was stored.
    pub fn rpc_store(
        &mut self,
        sender_id: [u8; ID_LEN],
        sender_addr: (String, u16),
        key: [u8; ID_LEN],
        value: Vec<u8>,
        now: Moment,
        issuer: &IssuerKey,
    ) -> (reply: (bool, Option<Node>))
        requires
            old(self).wf(),
        ensures
            final(self).wf(),
            old(self).stores(final(self), key, value@, now, issuer@, reply.0),
            reply.1 == if reply.0 {
                Some(sender(sender_id, sender_addr))
            } else {
                None
            },
            !is_status_list(key) && digest_is_unique(value@) ==> reply.0 == (accepts(
                old(self).judge.handler.record_verdict(value@),
            ) && !old(self)@.storage.live(key@, now.run)),
    {
        if !self.judge.verify_for_key(&key, value.as_slice(), issuer) {
            return (false, None);
        }
        let inserted: bool = self.storage.insert_if_absent_at(
            vstd::slice::slice_to_vec(key.as_slice()),
            value,
            now.run,
        );
        if !inserted {
            return (false, None);
        }
        (true, Some(Node::new(sender_id, Some(sender_addr.0), Some(sender_addr.1))))
    }

    /// A request to replace a record.
    pub fn rpc_update(
        &mut self,
        sender_id: [u8; ID_LEN],
        sender_addr: (String, u16),
        key: [u8; ID_LEN],
        value: Vec<u8>,
        auth_signature: Vec<u8>,
        now: Moment,
    ) -> (reply: (bool, Option<Node>))
        requires
            old(self).wf(),
        ensures
            final(self).wf(),
            final(self).judge == old(self).judge,
            reply.0 == old(self).may_update(key, value@, auth_signature@, now),
            final(self)@ == if reply.0 {
                old(self).having_written(key, value@, now)
            } else {
                old(self)@
            },
            reply.1 == if reply.0 {
                Some(sender(sender_id, sender_addr))
            } else {
                None
            },
    {
        let old_value: Vec<u8> = match self.storage.get_at(key.as_slice(), now.run) {
            Some(old_value) => old_value,
            None => {
                return (false, None);
            },
        };
        if !self.judge.permits_update(
            value.as_slice(),
            old_value.as_slice(),
            auth_signature.as_slice(),
        ) {
            return (false, None);
        }
        self.storage.set_at(vstd::slice::slice_to_vec(key.as_slice()), value, now.run);
        (true, Some(Node::new(sender_id, Some(sender_addr.0), Some(sender_addr.1))))
    }

    /// A request to replace the status list.
    pub fn rpc_update_status_list(
        &mut self,
        sender_id: [u8; ID_LEN],
        sender_addr: (String, u16),
        key: [u8; ID_LEN],
        value: Vec<u8>,
        now: Moment,
        issuer: &IssuerKey,
    ) -> (reply: (bool, Option<Node>))
        requires
            old(self).wf(),
        ensures
            final(self).wf(),
            final(self).judge == old(self).judge,
            reply.0 == old(self).may_update_list(key, value@, now, issuer@),
            final(self)@ == if reply.0 {
                old(self).having_written(key, value@, now)
            } else {
                old(self)@
            },
            reply.1 == if reply.0 {
                Some(sender(sender_id, sender_addr))
            } else {
                None
            },
    {
        if self.storage.get_at(key.as_slice(), now.run).is_none() {
            return (false, None);
        }
        if !self.judge.permits_status_list(value.as_slice(), issuer) {
            return (false, None);
        }
        self.storage.set_at(vstd::slice::slice_to_vec(key.as_slice()), value, now.run);
        (true, Some(Node::new(sender_id, Some(sender_addr.0), Some(sender_addr.1))))
    }

    /// A request to delete a record.
    pub fn rpc_delete(
        &mut self,
        sender_id: [u8; ID_LEN],
        sender_addr: (String, u16),
        key: [u8; ID_LEN],
        auth_signature: Vec<u8>,
        delete_msg: Vec<u8>,
        now: Moment,
    ) -> (reply: (bool, Option<Node>))
        requires
            old(self).wf(),
        ensures
            final(self).wf(),
            final(self).judge == old(self).judge,
            reply.0 == old(self).may_delete(key, auth_signature@, delete_msg@, now),
            final(self)@ == if reply.0 {
                ProtocolModel { storage: old(self)@.storage.deleted(key@), ..old(self)@ }
            } else {
                old(self)@
            },
            reply.1 == if reply.0 {
                Some(sender(sender_id, sender_addr))
            } else {
                None
            },
    {
        let value: Vec<u8> = match self.storage.get_at(key.as_slice(), now.run) {
            Some(value) => value,
            None => {
                return (false, None);
            },
        };
        if !self.judge.permits_delete(
            value.as_slice(),
            auth_signature.as_slice(),
            delete_msg.as_slice(),
        ) {
            return (false, None);
        }
        self.storage.remove(key.as_slice());
        (true, Some(Node::new(sender_id, Some(sender_addr.0), Some(sender_addr.1))))
    }

    /// A request for the peers near a key: those that this node knows, without the
    /// sender, and the sender to welcome.
    pub fn rpc_find_node(
        &mut self,
        sender_id: [u8; ID_LEN],
        sender_addr: (String, u16),
        key: [u8; ID_LEN],
        now: Moment,
    ) -> (reply: (Vec<Node>, Node))
        requires
            old(self).wf(),
        ensures
            final(self).wf(),
            final(self).judge == old(self).judge,
            reply.1 == sender(sender_id, sender_addr),
            reply.0@ == old(self).named_to(key, reply.1),
            final(self)@ == old(self).having_looked_up(key, now),
    {
        let source: Node = Node::new(sender_id, Some(sender_addr.0), Some(sender_addr.1));
        let target: Node = Node::from_id(key);
        let nodes: Vec<Node> = self.router.find_neighbors_at(&target, Some(&source), now.wall);
        (nodes, source)
    }

    /// A request for a value: the value or, failing that, the peers near its key;
    /// and the sender to welcome.
    pub fn rpc_find_value(
        &mut self,
        sender_id: [u8; ID_LEN],
        sender_addr: (String, u16),
        key: [u8; ID_LEN],
        now: Moment,
    ) -> (reply: (FindValueResult, Node))
        requires
            old(self).wf(),
        ensures
            final(self).wf(),
            final(self).judge == old(self).judge,
            reply.1 == sender(sender_id, sender_addr),
            match reply.0 {
                FindValueResult::Value(value) => old(self)@.storage.read(key@, now.run) == Some(
                    value@,
                ) && final(self)@ == old(self)@,
                FindValueResult::Nodes(nodes) => old(self)@.storage.read(key@, now.run) is None
                    && nodes@ == old(self).named_to(key, reply.1) && final(self)@ == old(
                    self,
                ).having_looked_up(key, now),
            },
    {
        match self.storage.get_at(key.as_slice(), now.run) {
            Some(value) => (
                FindValueResult::Value(value),
                Node::new(sender_id, Some(sender_addr.0), Some(sender_addr.1)),
            ),
            None => {
                let (nodes, source) = self.rpc_find_node(sender_id, sender_addr, key, now);
                (FindValueResult::Nodes(nodes), source)
            },
        }
    }

    /// The sender leaves: it is no longer a contact.
    pub fn rpc_leave(&mut self, sender_id: [u8; ID_LEN], sender_addr: (String, u16))
        requires
            old(self).wf(),
        ensures
            final(self).wf(),
            final(self).judge == old(self).judge,
            final(self).storage == old(self).storage,
            final(self)@ == (ProtocolModel {
                router: old(self)@.router.without_contact(sender(sender_id, sender_addr)),
                ..old(self)@
            }),
    {
        let source: Node = Node::new(sender_id, Some(sender_addr.0), Some(sender_addr.1));
        self.router.remove_contact(&source);
    }
}

/// Carrying out the message needs the issuer's key: a status list is to be
/// stored or replaced.
pub open spec fn involves_issuer(message: RpcMessage) -> bool {
    match message {
        RpcMessage::Store { key, .. } => is_status_list(key),
        RpcMessage::UpdateStatusList { .. } => true,
        _ => false,
    }
}

/// Whether carrying out the message needs the issuer's key.
pub fn needs_issuer(message: &RpcMessage) -> (needed: bool)
    ensures
        needed == involves_issuer(*message),
{
    match message {
        RpcMessage::Store { key, .. } => names_status_list(key),
        RpcMessage::UpdateStatusList { .. } => true,
        _ => false,
    }
}

impl<H: SignatureVerifierHandler> KademliaProtocol<H> {
    /// `reply` and `welcome` are what becomes of a request, and `after` is the node
    /// afterwards.
    pub open spec fn dispatches(
        &self,
        after: &Self,
        message: RpcMessage,
        address: (String, u16),
        now: Moment,
        issuer: IssuerModel,
        reply: Option<RpcMessage>,
        welcome: Option<Node>,
    ) -> bool {
        match message {
            RpcMessage::Ping { sender_id } => {
                &&& reply == Some(RpcMessage::Pong { sender_id: self.source_node.id })
                &&& welcome == Some(sender(sender_id, address))
                &&& after@ == self@
                &&& after.judge == self.judge
            },
            RpcMessage::Store { sender_id, key, value } => {
                &&& reply matches Some(RpcMessage::StoreResult { ok }) && self.stores(
                    after,
                    key,
                    value@,
                    now,
                    issuer,
                    ok,
                ) && welcome == if ok {
                    Some(sender(sender_id, address))
                } else {
                    None
                }
            },
            RpcMessage::Update { sender_id, key, value, auth_signature } => {
                let ok = self.may_update(key, value@, auth_signature@, now);
                &&& reply == Some(RpcMessage::UpdateResult { ok })
                &&& welcome == if ok {
                    Some(sender(sender_id, address))
                } else {
                    None
                }
                &&& after@ == if ok {
                    self.having_written(key, value@, now)
                } else {
                    self@
                }
                &&& after.judge == self.judge
            },
            RpcMessage::UpdateStatusList { sender_id, key, value } => {
                let ok = self.may_update_list(key, value@, now, issuer);
                &&& reply == Some(RpcMessage::UpdateStatusListResult { ok })
                &&& welcome == if ok {
                    Some(sender(sender_id, address))
                } else {
                    None
                }
                &&& after@ == if ok {
                    self.having_written(key, value@, now)
                } else {
                    self@
                }
                &&& after.judge == self.judge
            },
            RpcMessage::Delete { sender_id, key, auth_signature, delete_msg } => {
                let ok = self.may_delete(key, auth_signature@, delete_msg@, now);
                &&& reply == Some(RpcMessage::DeleteResult { ok })
                &&& welcome == if ok {
                    Some(sender(sender_id, address))
                } else {
                    None
                }
                &&& after@ == if ok {
                    ProtocolModel { storage: self@.storage.deleted(key@), ..self@ }
                } else {
                    self@
                }
                &&& after.judge == self.judge
            },
            RpcMessage::FindNode { sender_id, key } => {
                let source = sender(sender_id, address);
                &&& reply matches Some(RpcMessage::FindNodeResult { nodes }) && nodes@ == wire_all(
                    self.named_to(key, source),
                )
                &&& welcome == Some(source)
                &&& after@ == self.having_looked_up(key, now)
                &&& after.judge == self.judge
            },
            RpcMessage::FindValue { sender_id, key } => {
                let source = sender(sender_id, address);
                &&& welcome == Some(source)
                &&& after.judge == self.judge
                &&& match self@.storage.read(key@, now.run) {
                    Some(stored) => {
                        &&& reply matches Some(RpcMessage::FindValueHit { value }) && value@
                            == stored
                        &&& after@ == self@
                    },
                    None => {
                        &&& reply matches Some(RpcMessage::FindValueNodes { nodes }) && nodes@
                            == wire_all(self.named_to(key, source))
                        &&& after@ == self.having_looked_up(key, now)
                    },
                }
            },
            RpcMessage::Leave { sender_id } => {
                &&& reply is None
                &&& welcome is None
                &&& after@ == (ProtocolModel {
                    router: self@.router.without_contact(sender(sender_id, address)),
                    ..self@
                })
                &&& after.judge == self.judge
            },
            _ => {
                &&& reply is None
                &&& welcome is None
                &&& after@ == self@
                &&& after.judge == self.judge
            },
        }
    }

    /// Carries out a request that came from the given address: the reply, and the
    /// sender if it is to be welcomed.  A message that is no request is ignored.
    #[verifier::rlimit(40)]
    pub fn dispatch_request(
        &mut self,
        message: RpcMessage,
        sender_addr: (String, u16),
        now: Moment,
        issuer: &IssuerKey,
    ) -> (outcome: (Option<RpcMessage>, Option<Node>))
        requires
            old(self).wf(),
        ensures
            final(self).wf(),
            old(self).dispatches(
                final(self),
                message,
                sender_addr,
                now,
                issuer@,
                outcome.0,
                outcome.1,
            ),
    {
        match message {
            RpcMessage::Ping { sender_id } => {
                let (own_id, source) = self.rpc_ping(sender_id, sender_addr);
                (Some(RpcMessage::Pong { sender_id: own_id }), Some(source))
            },
            RpcMessage::Store { sender_id, key, value } => {
                let (ok, welcome) = self.rpc_store(
                    sender_id,
                    sender_addr,
                    key,
                    value,
                    now,
                    issuer,
                );
                (Some(RpcMessage::StoreResult { ok }), welcome)
            },
            RpcMessage::Update { sender_id, key, value, auth_signature } => {
                let (ok, welcome) = self.rpc_update(
                    sender_id,
                    sender_addr,
                    key,
                    value,
                    auth_signature,
                    now,
                );
                (Some(RpcMessage::UpdateResult { ok }), welcome)
            },
            RpcMessage::UpdateStatusList { sender_id, key, value } => {
                let (ok, welcome) = self.rpc_update_status_list(
                    sender_id,
                    sender_addr,
                    key,
                    value,
                    now,
                    issuer,
                );
                (Some(RpcMessage::UpdateStatusListResult { ok }), welcome)
            },
            RpcMessage::Delete { sender_id, key, auth_signature, delete_msg } => {
                let (ok, welcome) = self.rpc_delete(
                    sender_id,
                    sender_addr,
                    key,
                    auth_signature,
                    delete_msg,
                    now,
                );
                (Some(RpcMessage::DeleteResult { ok }), welcome)
            },
            RpcMessage::FindNode { sender_id, key } => {
                let (nodes, source) = self.rpc_find_node(sender_id, sender_addr, key, now);
                (Some(RpcMessage::FindNodeResult { nodes: to_wire(&nodes) }), Some(source))
            },
            RpcMessage::FindValue { sender_id, key } => {
                let (found, source) = self.rpc_find_value(sender_id, sender_addr, key, now);
                let reply: RpcMessage = match found {
                    FindValueResult::Value(value) => RpcMessage::FindValueHit { value },
                    FindValueResult::Nodes(nodes) => RpcMessage::FindValueNodes {
                        nodes: to_wire(&nodes),
                    },
                };
                (Some(reply), Some(source))
            },
            RpcMessage::Leave { sender_id } => {
                self.rpc_leave(sender_id, sender_addr);
                (None, None)
            },
            _ => (None, None),
        }
    }

    /// Takes in a frame that came from the given address.  An answer goes to whoever
    /// waits for it, and the sender of a pong is to be welcomed.  A request is
    /// carried out and replied to under its own number.
    pub fn handle_frame(
        &mut self,
        frame: Frame,
        sender_addr: (String, u16),
        now: Moment,
        issuer: &IssuerKey,
    ) -> (outcome: FrameOutcome)
        requires
            old(self).wf(),
        ensures
            final(self).wf(),
            !frame.is_request ==> {
                &&& outcome.deliver == Some((frame.msg_id, frame.message))
                &&& outcome.reply is None
                &&& outcome.welcome == match frame.message {
                    RpcMessage::Pong { sender_id } => Some(sender(sender_id, sender_addr)),
                    _ => None,
                }
                &&& final(self)@ == old(self)@
                &&& final(self).judge == old(self).judge
            },
            frame.is_request ==> {
                &&& outcome.deliver is None
                &&& old(self).dispatches(
                    final(self),
                    frame.message,
                    sender_addr,
                    now,
                    issuer@,
                    match outcome.reply {
                        Some(reply) => Some(reply.message),
                        None => None,
                    },
                    outcome.welcome,
                )
                &&& outcome.reply matches Some(reply) ==> reply.msg_id == frame.msg_id
                    && !reply.is_request
            },
    {
        if !frame.is_request {
            let welcome: Option<Node> = match &frame.message {
                RpcMessage::Pong { sender_id } => Some(
                    Node::new(*sender_id, Some(sender_addr.0), Some(sender_addr.1)),
                ),
                _ => None,
            };
            return FrameOutcome {
                deliver: Some((frame.msg_id, frame.message)),
                reply: None,
                welcome,
            };
        }
        let (message, welcome) = self.dispatch_request(frame.message, sender_addr, now, issuer);
        let reply: Option<Frame> = match message {
            Some(message) => Some(Frame { msg_id: frame.msg_id, is_request: false, message }),
            None => None,
        };
        FrameOutcome { deliver: None, reply, welcome }
    }
}

/// A record under the key is to be stored at the new peer: this node is nearer to
/// the key than the new peer, and the new peer is nearer than the farthest
/// neighbour that this node knows for the key, or there is none.
pub open spec fn replicates(router: TableModel, source: Node, peer: Node, key: [u8; ID_LEN]) -> bool {
    let target = fold_id(key@);
    let own = xor_distance(source.long_id, target);
    let new = xor_distance(peer.long_id, target);
    let neighbors = router.neighbors(Node::key(key), None);
    own < new && (neighbors.len() == 0 || new < xor_distance(
        neighbors.last().long_id,
        target,
    ))
}

/// The stored key has the length of an ID, and its record is to be stored at the
/// new peer.
pub open spec fn is_for_peer(router: TableModel, source: Node, peer: Node, key: Seq<u8>) -> bool {
    key.len() == ID_LEN && replicates(router, source, peer, id_of(key))
}

/// `stores` lists exactly the live records that are to be stored at the new peer,
/// each once.
pub open spec fn lists_for_peer(
    state: ProtocolModel,
    peer: Node,
    run: u128,
    stores: Seq<([u8; ID_LEN], Vec<u8>)>,
) -> bool {
    &&& forall|i: int|
        0 <= i < stores.len() ==> state.storage.read((#[trigger] stores[i]).0@, run) == Some(
            stores[i].1@,
        ) && is_for_peer(state.router, state.source, peer, stores[i].0@)
    &&& forall|i: int, j: int|
        0 <= i < j < stores.len() ==> (#[trigger] stores[i]).0 != (#[trigger] stores[j]).0
    &&& forall|key: Seq<u8>| #[trigger]
        state.storage.live(key, run) && is_for_peer(state.router, state.source, peer, key)
            ==> exists|i: int| 0 <= i < stores.len() && (#[trigger] stores[i]).0@ == key
}

/// Deciding what to store at a new peer looks up every live key.
pub open spec fn searched(state: ProtocolModel, run: u128) -> spec_fn(int) -> bool {
    |bucket: int|
        exists|key: Seq<u8>| #[trigger]
            state.storage.live(key, run) && key.len() == ID_LEN && state.router.home(fold_id(key))
                == bucket
}

impl<H: SignatureVerifierHandler> KademliaProtocol<H> {
    /// Takes in a peer that is new: it becomes a contact, and the records that it
    /// should hold are to be stored there.  `None` for a peer that is a contact
    /// already.
    pub fn welcome_if_new(&mut self, node: Node, now: Moment) -> (welcome: Option<Welcome>)
        requires
            old(self).wf(),
        ensures
            final(self).wf(),
            final(self).judge == old(self).judge,
            final(self).storage == old(self).storage,
            match welcome {
                None => old(self)@.router.knows(node) && final(self)@ == old(self)@,
                Some(welcome) => {
                    let looked = old(self)@.router.touched(
                        searched(old(self)@, now.run),
                        now.wall,
                    );
                    &&& !old(self)@.router.knows(node)
                    &&& lists_for_peer(old(self)@, node, now.run, welcome.stores@)
                    &&& welcome.ping == looked.to_ping(node, now.wall)
                    &&& final(self)@ == (ProtocolModel {
                        router: looked.with_contact(node, now.wall),
                        ..old(self)@
                    })
                },
            },
    {
        if !self.router.is_new_node(&node) {
            return None;
        }
        let stores: Vec<([u8; ID_LEN], Vec<u8>)> = self.records_for(&node, now);
        let ping: Option<Node> = self.router.add_contact_at(node, now.wall);
        Some(Welcome { stores, ping })
    }

    /// The live records that are to be stored at a new peer.
    #[verifier::rlimit(40)]
    fn records_for(&mut self, peer: &Node, now: Moment) -> (stores: Vec<([u8; ID_LEN], Vec<u8>)>)
        requires
            old(self).wf(),
        ensures
            final(self).wf(),
            final(self).judge == old(self).judge,
            final(self).storage == old(self).storage,
            lists_for_peer(old(self)@, *peer, now.run, stores@),
            final(self)@ == (ProtocolModel {
                router: old(self)@.router.touched(searched(old(self)@, now.run), now.wall),
                ..old(self)@
            }),
    {
        let ghost state = self@;
        let ghost table = self@.router;
        let entries: Vec<(Vec<u8>, Vec<u8>)> = self.storage.iter_all_at(now.run);
        let mut stores: Vec<([u8; ID_LEN], Vec<u8>)> = Vec::new();
        let mut at: usize = 0;
        proof {
            assert(table.touched(seen_upto(table, entries@, 0), now.wall).buckets
                =~= table.buckets);
        }
        while at < entries.len()
            invariant
                self.wf(),
                at <= entries@.len(),
                state == old(self)@,
                table == state.router,
                table.wf(),
                self.judge == old(self).judge,
                self.storage == old(self).storage,
                state.storage.lists(entries@, |key: Seq<u8>| state.storage.live(key, now.run)),
                self@ == (ProtocolModel {
                    router: table.touched(seen_upto(table, entries@, at as int), now.wall),
                    ..state
                }),
                forall|i: int|
                    0 <= i < stores@.len() ==> state.storage.read(
                        (#[trigger] stores@[i]).0@,
                        now.run,
                    ) == Some(stores@[i].1@) && is_for_peer(
                        table,
                        state.source,
                        *peer,
                        stores@[i].0@,
                    ) && exists|k: int|
                        0 <= k < at && (#[trigger] entries@[k]).0@ == stores@[i].0@,
                forall|i: int, j: int|
                    0 <= i < j < stores@.len() ==> (#[trigger] stores@[i]).0 != (
                    #[trigger] stores@[j]).0,
                forall|k: int|
                    0 <= k < at && is_for_peer(
                        table,
                        state.source,
                        *peer,
                        (#[trigger] entries@[k]).0@,
                    ) ==> exists|i: int|
                        0 <= i < stores@.len() && (#[trigger] stores@[i]).0@ == entries@[k].0@,
            decreases entries@.len() - at,
        {
            let ghost before = stores@;
            let ghost hit = seen_upto(table, entries@, at as int);
            let ghost next = seen_upto(table, entries@, at + 1);
            assert(state.storage.live(entries@[at as int].0@, now.run));
            match to_id(entries[at].0.as_slice()) {
                Some(key) => {
                    let target: Node = Node::from_id(key);
                    proof {
                        touching_changes_no_answer(table, hit, now.wall);
                        a_lookup_touches_one_more(table, hit, target.long_id, now.wall);
                        assert(next =~= (|i: int| hit(i) || i == table.home(target.long_id))) by {
                            seen_one_more(table, entries@, at as int);
                        }
                    }
                    let neighbors: Vec<Node> = self.router.find_neighbors_at(
                        &target,
                        None,
                        now.wall,
                    );
                    let own: u128 = self.source_node.distance_to(&target);
                    let new: u128 = peer.distance_to(&target);
                    let within: bool = if neighbors.len() == 0 {
                        true
                    } else {
                        new < neighbors[neighbors.len() - 1].distance_to(&target)
                    };
                    if own < new && within {
                        let value: Vec<u8> = vstd::slice::slice_to_vec(entries[at].1.as_slice());
                        stores.push((key, value));
                        proof {
                            assert forall|i: int| 0 <= i < before.len() implies (
                            #[trigger] before[i]).0 != key by {
                                let k = choose|k: int|
                                    0 <= k < at && (#[trigger] entries@[k]).0@ == before[i].0@;
                                assert(entries@[k].0@ != entries@[at as int].0@);
                            }
                            assert(stores@[before.len() as int].0@ == entries@[at as int].0@);
                        }
                    }
                },
                None => {
                    proof {
                        assert(next =~= hit) by {
                            seen_one_more(table, entries@, at as int);
                        }
                    }
                },
            }
            proof {
                assert forall|i: int| 0 <= i < stores@.len() implies exists|k: int|
                    0 <= k < at + 1 && (#[trigger] entries@[k]).0@ == (
                    #[trigger] stores@[i]).0@ by {
                    if i < before.len() {
                        assert(stores@[i] == before[i]);
                        let k = choose|k: int|
                            0 <= k < at && (#[trigger] entries@[k]).0@ == before[i].0@;
                        assert(entries@[k].0@ == stores@[i].0@);
                    } else {
                        assert(entries@[at as int].0@ == stores@[i].0@);
                    }
                }
                assert forall|k: int| 0 <= k < at + 1 && is_for_peer(
                    table,
                    state.source,
                    *peer,
                    (#[trigger] entries@[k]).0@,
                ) implies exists|i: int|
                    0 <= i < stores@.len() && (#[trigger] stores@[i]).0@ == entries@[k].0@ by {
                    if k < at {
                        let i = choose|i: int|
                            0 <= i < before.len() && (#[trigger] before[i]).0@ == entries@[k].0@;
                        assert(stores@[i] == before[i]);
                    } else {
                        assert(stores@[before.len() as int].0@ == entries@[k].0@);
                    }
                }
            }
            at = at + 1;
        }
        proof {
            let all = seen_upto(table, entries@, at as int);
            let wanted = searched(state, now.run);
            assert forall|bucket: int| #[trigger] all(bucket) == wanted(bucket) by {
                if all(bucket) {
                    let k = choose|k: int|
                        0 <= k < at && (#[trigger] entries@[k]).0@.len() == ID_LEN && table.home(
                            fold_id(entries@[k].0@),
                        ) == bucket;
                    assert(state.storage.live(entries@[k].0@, now.run));
                }
                if wanted(bucket) {
                    let key = choose|key: Seq<u8>| #[trigger]
                        state.storage.live(key, now.run) && key.len() == ID_LEN
                            && state.router.home(fold_id(key)) == bucket;
                    assert(state.storage.entries.contains_key(key));
                    let k = choose|k: int|
                        0 <= k < entries@.len() && (#[trigger] entries@[k]).0@ == key;
                    assert(entries@[k].0@.len() == ID_LEN);
                }
            }
            assert(table.touched(all, now.wall).buckets =~= table.touched(
                wanted,
                now.wall,
            ).buckets);
            assert forall|key: Seq<u8>| #[trigger]
                state.storage.live(key, now.run) && is_for_peer(
                    table,
                    state.source,
                    *peer,
                    key,
                ) implies exists|i: int|
                0 <= i < stores@.len() && (#[trigger] stores@[i]).0@ == key by {
                assert(state.storage.entries.contains_key(key));
                let k = choose|k: int| 0 <= k < entries@.len() && (#[trigger] entries@[k]).0@ == key;
                assert(entries@[k].0@ == key);
            }
        }
        stores
    }

    /// A random ID for every bucket that at the given time no lookup has touched
    /// for more than an hour.
    pub fn get_refresh_ids(&self, wall: u64) -> (ids: Vec<[u8; ID_LEN]>)
        ensures
            ids@.len() == self@.router.buckets.filter(lonely_by(wall)).len(),
            forall|i: int| 0 <= i < ids@.len() ==> drawn_id(#[trigger] ids@[i]),
    {
        let lonely: Vec<&KBucket> = self.router.lonely_buckets_at(wall);
        assert(lonely_by(wall) =~= (|b: BucketModel| b.lonely_at(wall)));
        assert(lonely@.map_values(|b: &KBucket| b@).len() == lonely@.len());
        let mut ids: Vec<[u8; ID_LEN]> = Vec::new();
        while ids.len() < lonely.len()
            invariant
                ids@.len() <= lonely@.len(),
                forall|i: int| 0 <= i < ids@.len() ==> drawn_id(#[trigger] ids@[i]),
            decreases lonely@.len() - ids@.len(),
        {
            ids.push(draw_id());
        }
        ids
    }
}

/// The buckets that the first entries belong to.
spec fn seen_upto(table: TableModel, entries: Seq<(Vec<u8>, Vec<u8>)>, upto: int) -> spec_fn(
    int,
) -> bool {
    |bucket: int|
        exists|k: int|
            0 <= k < upto && (#[trigger] entries[k]).0@.len() == ID_LEN && table.home(
                fold_id(entries[k].0@),
            ) == bucket
}

proof fn seen_one_more(table: TableModel, entries: Seq<(Vec<u8>, Vec<u8>)>, at: int)
    requires
        0 <= at < entries.len(),
    ensures
        forall|bucket: int| #[trigger]
            seen_upto(table, entries, at + 1)(bucket) == (seen_upto(table, entries, at)(bucket) || (
            entries[at].0@.len() == ID_LEN && table.home(fold_id(entries[at].0@)) == bucket)),
{
    assert forall|bucket: int| #[trigger]
        seen_upto(table, entries, at + 1)(bucket) == (seen_upto(table, entries, at)(bucket) || (
        entries[at].0@.len() == ID_LEN && table.home(fold_id(entries[at].0@)) == bucket)) by {
        if seen_upto(table, entries, at + 1)(bucket) {
            let k = choose|k: int|
                0 <= k < at + 1 && (#[trigger] entries[k]).0@.len() == ID_LEN && table.home(
                    fold_id(entries[k].0@),
                ) == bucket;
            if k < at {
                assert(entries[k].0@.len() == ID_LEN);
            }
        }
        if seen_upto(table, entries, at)(bucket) {
            let k = choose|k: int|
                0 <= k < at && (#[trigger] entries[k]).0@.len() == ID_LEN && table.home(
                    fold_id(entries[k].0@),
                ) == bucket;
            assert(0 <= k < at + 1 && entries[k].0@.len() == ID_LEN);
        }
    }
}

impl<H: SignatureVerifierHandler> KademliaProtocol<H> {
    /// The message that asks a peer whether it is there.
    pub fn ping_message(&self) -> (message: RpcMessage)
        ensures
            message == (RpcMessage::Ping { sender_id: self.source_node.id }),
    {
        RpcMessage::Ping { sender_id: self.source_node.id }
    }

    /// The message that asks a peer to store a record.
    pub fn store_message(&self, key: [u8; ID_LEN], value: Vec<u8>) -> (message: RpcMessage)
        ensures
            message == (RpcMessage::Store { sender_id: self.source_node.id, key, value }),
    {
        RpcMessage::Store { sender_id: self.source_node.id, key, value }
    }

    /// The message that asks a peer to replace a record.
    pub fn update_message(&self, key: [u8; ID_LEN], value: Vec<u8>, auth_signature: Vec<u8>) -> (message:
        RpcMessage)
        ensures
            message == (RpcMessage::Update {
                sender_id: self.source_node.id,
                key,
                value,
                auth_signature,
            }),
    {
        RpcMessage::Update { sender_id: self.source_node.id, key, value, auth_signature }
    }

    /// The message that asks a peer to replace the status list.
    pub fn status_list_message(&self, key: [u8; ID_LEN], value: Vec<u8>) -> (message: RpcMessage)
        ensures
            message == (RpcMessage::UpdateStatusList {
                sender_id: self.source_node.id,
                key,
                value,
            }),
    {
        RpcMessage::UpdateStatusList { sender_id: self.source_node.id, key, value }
    }

    /// The message that asks a peer to delete a record.
    pub fn delete_message(
        &self,
        key: [u8; ID_LEN],
        auth_signature: Vec<u8>,
        delete_msg: Vec<u8>,
    ) -> (message: RpcMessage)
        ensures
            message == (RpcMessage::Delete {
                sender_id: self.source_node.id,
                key,
                auth_signature,
                delete_msg,
            }),
    {
        RpcMessage::Delete { sender_id: self.source_node.id, key, auth_signature, delete_msg }
    }

    /// The message that tells a peer of this node's departure.
    pub fn leave_message(&self) -> (message: RpcMessage)
        ensures
            message == (RpcMessage::Leave { sender_id: self.source_node.id }),
    {
        RpcMessage::Leave { sender_id: self.source_node.id }
    }

    /// The message that asks a peer for the peers near the target.
    pub fn find_node_message(&self, target: &Node) -> (message: RpcMessage)
        ensures
            message == (RpcMessage::FindNode { sender_id: self.source_node.id, key: target.id }),
    {
        RpcMessage::FindNode { sender_id: self.source_node.id, key: target.id }
    }

    /// The message that asks a peer for the value under the target.
    pub fn find_value_message(&self, target: &Node) -> (message: RpcMessage)
        ensures
            message == (RpcMessage::FindValue { sender_id: self.source_node.id, key: target.id }),
    {
        RpcMessage::FindValue { sender_id: self.source_node.id, key: target.id }
    }
}

/// What an answer to a ping means: whether there was one, and the ID that it
/// gives.
pub fn ping_outcome(answer: Option<RpcMessage>) -> (outcome: (bool, Vec<u8>))
    ensures
        match answer {
            Some(RpcMessage::Pong { sender_id }) => outcome.0 && outcome.1@ == sender_id@,
            _ => !outcome.0 && outcome.1@.len() == 0,
        },
{
    match answer {
        Some(RpcMessage::Pong { sender_id }) => (
            true,
            vstd::slice::slice_to_vec(sender_id.as_slice()),
        ),
        _ => (false, Vec::new()),
    }
}

/// Whether the answer to a request to store a record says that it was.
pub fn store_outcome(answer: Option<RpcMessage>) -> (stored: bool)
    ensures
        stored == (answer matches Some(RpcMessage::StoreResult { ok }) && ok),
{
    match answer {
        Some(RpcMessage::StoreResult { ok }) => ok,
        _ => false,
    }
}

/// Whether the answer to a request to replace a record says that it was.
pub fn update_outcome(answer: Option<RpcMessage>) -> (updated: bool)
    ensures
        updated == (answer matches Some(RpcMessage::UpdateResult { ok }) && ok),
{
    match answer {
        Some(RpcMessage::UpdateResult { ok }) => ok,
        _ => false,
    }
}

/// Whether the answer to a request to replace the status list says that it was.
pub fn status_list_outcome(answer: Option<RpcMessage>) -> (updated: bool)
    ensures
        updated == (answer matches Some(RpcMessage::UpdateStatusListResult { ok }) && ok),
{
    match answer {
        Some(RpcMessage::UpdateStatusListResult { ok }) => ok,
        _ => false,
    }
}

/// Whether the answer to a request to delete a record says that it was.
pub fn delete_outcome(answer: Option<RpcMessage>) -> (deleted: bool)
    ensures
        deleted == (answer matches Some(RpcMessage::DeleteResult { ok }) && ok),
{
    match answer {
        Some(RpcMessage::DeleteResult { ok }) => ok,
        _ => false,
    }
}

/// The answer names the peers that were sent.
pub open spec fn names(tuples: Seq<PeerTuple>, nodes: Seq<WireNode>) -> bool {
    &&& tuples.len() == nodes.len()
    &&& forall|i: int|
        0 <= i < nodes.len() ==> (#[trigger] tuples[i]).0@ == nodes[i].id@ && tuples[i].1
            == nodes[i].ip && tuples[i].2 == nodes[i].port
}

fn to_tuples(nodes: &Vec<WireNode>) -> (tuples: Vec<PeerTuple>)
    ensures
        names(tuples@, nodes@),
{
    let mut tuples: Vec<PeerTuple> = Vec::new();
    let mut at: usize = 0;
    while at < nodes.len()
        invariant
            at <= nodes@.len(),
            tuples@.len() == at,
            forall|i: int|
                0 <= i < at ==> (#[trigger] tuples@[i]).0@ == nodes@[i].id@ && tuples@[i].1
                    == nodes@[i].ip && tuples@[i].2 == nodes@[i].port,
        decreases nodes@.len() - at,
    {
        let node: &WireNode = &nodes[at];
        tuples.push(
            (vstd::slice::slice_to_vec(node.id.as_slice()), node.ip.clone(), node.port),
        );
        at = at + 1;
    }
    tuples
}

/// What the answer to a request for peers means to a lookup.
pub fn find_node_outcome(answer: Option<RpcMessage>) -> (response: RawResponse)
    ensures
        match answer {
            Some(RpcMessage::FindNodeResult { nodes }) => response.0 && (
            response.1 matches FindPayload::Nodes(tuples) && names(tuples@, nodes@)),
            _ => !response.0 && response.1 is Empty,
        },
{
    match answer {
        Some(RpcMessage::FindNodeResult { nodes }) => RawResponse(
            true,
            FindPayload::Nodes(to_tuples(&nodes)),
        ),
        _ => RawResponse(false, FindPayload::Empty),
    }
}

/// What the answer to a request for a value means to a lookup.
pub fn find_value_outcome(answer: Option<RpcMessage>) -> (response: RawResponse)
    ensures
        match answer {
            Some(RpcMessage::FindValueHit { value }) => response.0 && response.1
                == FindPayload::Value(value),
            Some(RpcMessage::FindValueNodes { nodes }) => response.0 && (
            response.1 matches FindPayload::Nodes(tuples) && names(tuples@, nodes@)),
            _ => !response.0 && response.1 is Empty,
        },
{
    match answer {
        Some(RpcMessage::FindValueHit { value }) => RawResponse(true, FindPayload::Value(value)),
        Some(RpcMessage::FindValueNodes { nodes }) => RawResponse(
            true,
            FindPayload::Nodes(to_tuples(&nodes)),
        ),
        _ => RawResponse(false, FindPayload::Empty),
    }
}

/// A request to store a record is refused if the key is taken, and leaves the
/// record that is there as it is.
pub proof fn a_taken_key_is_refused<H: SignatureVerifierHandler>(
    before: KademliaProtocol<H>,
    after: KademliaProtocol<H>,
    key: [u8; ID_LEN],
    value: Seq<u8>,
    now: Moment,
    issuer: IssuerModel,
    ok: bool,
)
    requires
        before.stores(&after, key, value, now, issuer, ok),
        before@.storage.live(key@, now.run),
    ensures
        !ok,
        after@ == before@,
{
}

/// A record that is stored is valid, unless another record with the same digest
/// was judged before; and it is what a reader finds.
pub proof fn a_stored_record_is_valid_and_read_back<H: SignatureVerifierHandler>(
    before: KademliaProtocol<H>,
    after: KademliaProtocol<H>,
    key: [u8; ID_LEN],
    value: Seq<u8>,
    now: Moment,
    issuer: IssuerModel,
)
    requires
        before.wf(),
        before.stores(&after, key, value, now, issuer, true),
    ensures
        !is_status_list(key) && digest_is_unique(value) ==> accepts(
            before.judge.handler.record_verdict(value),
        ),
        after@.storage.read(key@, now.run) == Some(value),
{
    let valid = choose|valid: bool| #[trigger]
        before.judge.gives(after.judge, is_status_list(key), value, issuer, valid) && true == (valid
            && !before@.storage.live(key@, now.run)) && after@ == (ProtocolModel {
            storage: if valid {
                before@.storage.written_if_absent(key@, value, now.run)
            } else {
                before@.storage
            },
            ..before@
        });
    assert(valid);
}

/// Only requests change what is stored, and an unauthorised one changes nothing:
/// a record is only ever written where its key is free, or with the consent of
/// the record that is there or of the issuer, and only ever deleted with the
/// consent of the record that is there.
pub proof fn records_change_only_by_right<H: SignatureVerifierHandler>(
    before: KademliaProtocol<H>,
    after: KademliaProtocol<H>,
    message: RpcMessage,
    address: (String, u16),
    now: Moment,
    issuer: IssuerModel,
    reply: Option<RpcMessage>,
    welcome: Option<Node>,
    key: [u8; ID_LEN],
)
    requires
        before.dispatches(&after, message, address, now, issuer, reply, welcome),
        before@.storage.live(key@, now.run),
        after@.storage.read(key@, now.run) != before@.storage.read(key@, now.run),
    ensures
        match message {
            RpcMessage::Update { key: named, value, auth_signature, .. } => named == key
                && before.may_update(key, value@, auth_signature@, now),
            RpcMessage::UpdateStatusList { key: named, value, .. } => named == key
                && before.may_update_list(key, value@, now, issuer),
            RpcMessage::Delete { key: named, auth_signature, delete_msg, .. } => named == key
                && before.may_delete(key, auth_signature@, delete_msg@, now),
            _ => false,
        },
{
    match message {
        RpcMessage::Update { key: named, .. } => {
            if named@ == key@ {
                assert(named =~= key);
            }
        },
        RpcMessage::UpdateStatusList { key: named, .. } => {
            if named@ == key@ {
                assert(named =~= key);
            }
        },
        RpcMessage::Delete { key: named, .. } => {
            if named@ == key@ {
                assert(named =~= key);
            }
        },
        _ => {},
    }
}

/// A joining node gets the records that it should hold.  A live record is listed for
/// it exactly if this node is nearer to the key than the new peer, and the new peer is
/// nearer than some neighbour that this node knows for the key, or there is none.  A
/// record is listed with its value, and no key twice.
pub proof fn a_joining_node_gets_its_records(
    state: ProtocolModel,
    peer: Node,
    run: u128,
    stores: Seq<([u8; ID_LEN], Vec<u8>)>,
    key: [u8; ID_LEN],
)
    requires
        lists_for_peer(state, peer, run, stores),
    ensures
        ({
            let target = fold_id(key@);
            let neighbors = state.router.neighbors(Node::key(key), None);
            let own = state.source.long_id ^ target;
            let new = peer.long_id ^ target;
            (exists|i: int| 0 <= i < stores.len() && (#[trigger] stores[i]).0 == key) <==> (
            state.storage.read(key@, run) is Some && own < new && (neighbors.len() == 0 || exists|
                j: int,
            |
                0 <= j < neighbors.len() && new < ((#[trigger] neighbors[j]).long_id ^ target)))
        }),
        forall|i: int|
            0 <= i < stores.len() && (#[trigger] stores[i]).0 == key ==> state.storage.read(
                key@,
                run,
            ) == Some(stores[i].1@),
        forall|i: int, j: int|
            0 <= i < j < stores.len() ==> (#[trigger] stores[i]).0 != (#[trigger] stores[j]).0,
{
    let target = fold_id(key@);
    let neighbors = state.router.neighbors(Node::key(key), None);
    let own = state.source.long_id ^ target;
    let new = peer.long_id ^ target;
    let candidates = state.router.candidates(Node::key(key), None);
    arranging_sorts_by_distance(target, candidates);
    id_of_bytes(key);
    assert forall|x: u128, y: u128| #[trigger] (x ^ y) == y ^ x by {
        assert(x ^ y == y ^ x) by (bit_vector);
    }
    if neighbors.len() > 0 {
        assert(neighbors.last() == neighbors[neighbors.len() - 1]);
        assert forall|j: int| 0 <= j < neighbors.len() implies ((
        #[trigger] neighbors[j]).long_id ^ target) <= (neighbors.last().long_id ^ target) by {
            assert(target ^ neighbors[j].long_id == neighbors[j].long_id ^ target);
            assert(target ^ neighbors.last().long_id == neighbors.last().long_id ^ target);
        }
    }
    if exists|i: int| 0 <= i < stores.len() && (#[trigger] stores[i]).0 == key {
        let i = choose|i: int| 0 <= i < stores.len() && (#[trigger] stores[i]).0 == key;
        assert(is_for_peer(state.router, state.source, peer, stores[i].0@));
        if neighbors.len() > 0 {
            assert(new < (neighbors[neighbors.len() - 1].long_id ^ target));
        }
    }
    if state.storage.read(key@, run) is Some && own < new && (neighbors.len() == 0 || exists|
        j: int,
    | 0 <= j < neighbors.len() && new < ((#[trigger] neighbors[j]).long_id ^ target)) {
        assert(state.storage.live(key@, run) && is_for_peer(
            state.router,
            state.source,
            peer,
            key@,
        ));
        let i = choose|i: int| 0 <= i < stores.len() && (#[trigger] stores[i]).0@ == key@;
        assert(stores[i].0 =~= key);
    }
}

} // verus!
