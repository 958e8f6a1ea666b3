//! A node as its users see it: reading, publishing, replacing and deleting
//! records.
//!
//! Each operation is a series of steps.  A step says what to ask the network;
//! whoever drives the node asks, and hands the result to the next step.

use rand::RngCore;
use vstd::prelude::*;
use vstd::utf8::encode_utf8;

use crate::auth_handler::IssuerKey;
use crate::auth_handler::IssuerModel;
use crate::auth_handler::SignatureVerifierHandler;
use crate::crawling::NodeSpiderCrawl;
use crate::crawling::ValueSpiderCrawl;
use crate::fragmentation::EntryModel;
use crate::fragmentation::MessageKey;
use crate::judge::accepts;
use crate::judge::digest_is_unique;
use crate::judge::is_status_list;
use crate::judge::status_list_key;
use crate::judge::status_list_name;
use crate::judge::Judge;
use crate::node::fold_id;
use crate::node::xor_distance;
use crate::node::Node;
use crate::protocol::KademliaProtocol;
use crate::protocol::Moment;
use crate::protocol::ProtocolModel;
use crate::protocol::RpcMessage;
use crate::bucket::now_secs;
use crate::bucket::read_off_clock;
use crate::routing::TableModel;
use crate::bucket::SPARES_PER_CONTACT;
use crate::routing_laws::a_lookup_touches_one_more;
use crate::routing_laws::touching_changes_no_answer;
use crate::seqs::filter_step;
use crate::storage::no_entries;
use crate::table_laws::fresh_table;
use crate::storage::ForgetfulStorage;
use crate::storage::StorageModel;
use crate::text::same_text;
use crate::utils::digest;
use crate::utils::digest_bytes;
use crate::utils::id_of;
use crate::utils::id_of_bytes;
use crate::utils::sha1_of;
use crate::utils::to_id;
use crate::utils::ID_LEN;

verus! {

/// After how many seconds a record is published again.
pub const REPUBLISH_AFTER: u64 = 3600;

/// The key of a name: its SHA-1 digest.
pub open spec fn key_of(name: Seq<char>) -> [u8; ID_LEN] {
    id_of(sha1_of(encode_utf8(name)))
}

/// The key of a name: its SHA-1 digest.
pub fn key_for(name: &str) -> (key: [u8; ID_LEN])
    ensures
        key == key_of(name@),
        key@ == sha1_of(encode_utf8(name@)),
{
    let key: [u8; ID_LEN] = digest(name);
    proof {
        id_of_bytes(key);
    }
    key
}

/// Thirty-two bytes from `rand::thread_rng` by `fill_bytes`.  They are random, so
/// nothing is claimed of them.
#[verifier::external_body]
fn random_bytes() -> (bytes: [u8; 32]) {
    let mut bytes = [0u8; 32];
    rand::thread_rng().fill_bytes(&mut bytes);
    bytes
}

/// The bytes are those that a random draw gave.
pub closed spec fn drawn_bytes(bytes: Seq<u8>) -> bool {
    exists|drawn: [u8; 32]| drawn@ == bytes && #[trigger] call_ensures(random_bytes, (), drawn)
}

/// The character of a hexadecimal digit, in lower case.
pub open spec fn hex_char(digit: int) -> char {
    if digit < 10 {
        ('0' as u8 + digit) as u8 as char
    } else {
        ('a' as u8 + digit - 10) as u8 as char
    }
}

/// Two hexadecimal digits for each byte.
pub open spec fn hex_text(bytes: Seq<u8>) -> Seq<char> {
    Seq::new(
        2 * bytes.len(),
        |i: int|
            if i % 2 == 0 {
                hex_char(bytes[i / 2] as int / 16)
            } else {
                hex_char(bytes[i / 2] as int % 16)
            },
    )
}

/// `hex::encode`: two lower-case hexadecimal digits for each byte, the higher
/// half first.
#[verifier::external_body]
fn hex_encode(bytes: &[u8]) -> (text: String)
    ensures
        text@ == hex_text(bytes@),
{
    hex::encode(bytes)
}

/// What a node saves of itself.
#[derive(Debug)]
pub struct NodeState {
    pub ksize: usize,
    pub alpha: usize,
    /// The node's ID in hexadecimal digits.
    pub id: String,
    /// Addresses of neighbours to start from.
    pub neighbors: Vec<(String, u16)>,
}

/// How reading a record goes on.
pub enum GetStep {
    /// It is done.
    Done(Option<Vec<u8>>),
    /// The network is to be searched.
    Search(ValueSpiderCrawl),
}

/// Messages and the peers to send them to.
pub type Outbox = Vec<(Node, RpcMessage)>;

/// Picks the peers that are nearer to the key than this node.
pub open spec fn nearer_than(own: u128, key: [u8; ID_LEN]) -> spec_fn(Node) -> bool {
    |peer: Node| xor_distance(peer.long_id, fold_id(key@)) < xor_distance(own, fold_id(key@))
}

/// This node is among the `ksize` nodes nearest to the key: fewer than `ksize` of
/// the peers are nearer to it.
pub open spec fn is_among(own: u128, key: [u8; ID_LEN], nodes: Seq<Node>, ksize: usize) -> bool {
    nodes.filter(nearer_than(own, key)).len() < ksize
}

/// Every peer is sent a request to store the record.
pub open spec fn stores_everywhere(
    outbox: Seq<(Node, RpcMessage)>,
    sender_id: [u8; ID_LEN],
    nodes: Seq<Node>,
    key: [u8; ID_LEN],
    value: Seq<u8>,
) -> bool {
    &&& outbox.len() == nodes.len()
    &&& forall|i: int|
        0 <= i < nodes.len() ==> (#[trigger] outbox[i]).0 == nodes[i] && match outbox[i].1 {
            RpcMessage::Store { sender_id: id, key: at, value: bytes } => id == sender_id && at
                == key && bytes@ == value,
            _ => false,
        }
}

/// Every peer is sent a request to replace the record: as the status list, or
/// with the signature that authorises it.
pub open spec fn updates_everywhere(
    outbox: Seq<(Node, RpcMessage)>,
    sender_id: [u8; ID_LEN],
    nodes: Seq<Node>,
    is_list: bool,
    key: [u8; ID_LEN],
    value: Seq<u8>,
    auth: Seq<u8>,
) -> bool {
    &&& outbox.len() == nodes.len()
    &&& forall|i: int|
        0 <= i < nodes.len() ==> (#[trigger] outbox[i]).0 == nodes[i] && match outbox[i].1 {
            RpcMessage::UpdateStatusList { sender_id: id, key: at, value: bytes } => is_list && id
                == sender_id && at == key && bytes@ == value,
            RpcMessage::Update { sender_id: id, key: at, value: bytes, auth_signature } => !is_list
                && id == sender_id && at == key && bytes@ == value && auth_signature@ == auth,
            _ => false,
        }
}

/// Every peer is sent a request to delete the record.
pub open spec fn deletes_everywhere(
    outbox: Seq<(Node, RpcMessage)>,
    sender_id: [u8; ID_LEN],
    nodes: Seq<Node>,
    key: [u8; ID_LEN],
    auth: Seq<u8>,
    message: Seq<u8>,
) -> bool {
    &&& outbox.len() == nodes.len()
    &&& forall|i: int|
        0 <= i < nodes.len() ==> (#[trigger] outbox[i]).0 == nodes[i] && match outbox[i].1 {
            RpcMessage::Delete { sender_id: id, key: at, auth_signature, delete_msg } => id
                == sender_id && at == key && auth_signature@ == auth && delete_msg@ == message,
            _ => false,
        }
}

/// Whether any of the peers said yes.
pub fn any_ok(results: &Vec<bool>) -> (ok: bool)
    ensures
        ok == exists|i: int| 0 <= i < results@.len() && #[trigger] results@[i],
{
    let mut at: usize = 0;
    while at < results.len()
        invariant
            at <= results@.len(),
            forall|i: int| 0 <= i < at ==> !#[trigger] results@[i],
        decreases results@.len() - at,
    {
        if results[at] {
            return true;
        }
        at = at + 1;
    }
    false
}

/// The bytes of an optional signature; none count as no bytes.
pub open spec fn given(auth: Option<Vec<u8>>) -> Seq<u8> {
    match auth {
        Some(bytes) => bytes@,
        None => Seq::empty(),
    }
}

/// A node.
pub struct Server<H: SignatureVerifierHandler> {
    /// How many contacts a bucket and a lookup hold.
    pub ksize: usize,
    /// How many peers a lookup asks at once.
    pub alpha: usize,
    pub node: Node,
    pub protocol: KademliaProtocol<H>,
    /// Whether the node is listening.
    pub online: bool,
}

impl<H: SignatureVerifierHandler> Server<H> {
    /// The protocol is in order and is that of this node.
    pub open spec fn wf(&self) -> bool {
        &&& self.protocol.wf()
        &&& self.protocol.source_node == self.node
    }

    /// Only the protocol's state may differ.
    pub open spec fn same_settings(&self, other: &Self) -> bool {
        &&& self.ksize == other.ksize
        &&& self.alpha == other.alpha
        &&& self.node == other.node
        &&& self.online == other.online
    }

    /// A node that is not listening yet: with the given ID or a random one, and
    /// with the given storage or one that keeps records for good.
    pub fn new(
        signature_handler: H,
        ksize: usize,
        alpha: usize,
        node_id: Option<[u8; ID_LEN]>,
        storage: Option<ForgetfulStorage>,
        use_cache: bool,
    ) -> (server: Self)
        requires
            ksize * SPARES_PER_CONTACT <= usize::MAX,
        ensures
            server.wf(),
            server.ksize == ksize,
            server.alpha == alpha,
            !server.online,
            server.node == Node::key(server.node.id),
            match node_id {
                Some(id) => server.node.id == id,
                None => exists|bytes: Seq<u8>| #[trigger]
                    drawn_bytes(bytes) && server.node.id@ == sha1_of(bytes),
            },
            match storage {
                Some(storage) => server.protocol.storage == storage,
                None => server.protocol@.storage == (StorageModel {
                    entries: no_entries(),
                    ttl: (-1) as i64,
                    epoch: server.protocol.storage.epoch,
                }) && server.protocol.storage.begun(),
            },
            server.protocol.judge.handler == signature_handler,
            use_cache ==> (server.protocol.judge.caches matches Some(caches) && caches.fresh()),
            !use_cache ==> server.protocol.judge.caches is None,
            server.protocol@.next_msg_id == 0,
            server.protocol@.next_frag_id == 0,
            server.protocol@.partials == Map::<MessageKey, EntryModel>::empty(),
            exists|now: u64| #[trigger]
                read_off_clock(now) && server.protocol@.router == fresh_table(
                    server.node,
                    ksize as nat,
                    now,
                ),
    {
        let storage: ForgetfulStorage = match storage {
            Some(storage) => storage,
            None => ForgetfulStorage::new(-1),
        };
        let node: Node = match node_id {
            Some(id) => Node::from_id(id),
            None => {
                let bytes: [u8; 32] = random_bytes();
                assert(drawn_bytes(bytes@));
                Node::from_id(digest_bytes(bytes.as_slice()))
            },
        };
        let judge: Judge<H> = Judge::new(signature_handler, use_cache);
        let protocol: KademliaProtocol<H> = KademliaProtocol::new(
            node.clone(),
            storage,
            ksize,
            judge,
            now_secs(),
        );
        Self { ksize, alpha, node, protocol, online: false }
    }

    /// Notes that the node is listening, or no longer is.
    pub fn set_online(&mut self, online: bool)
        requires
            old(self).wf(),
        ensures
            final(self).wf(),
            final(self).online == online,
            final(self).protocol == old(self).protocol,
            final(self).ksize == old(self).ksize,
            final(self).alpha == old(self).alpha,
            final(self).node == old(self).node,
    {
        self.online = online;
    }

    /// The present time, by the system clock and by that of the storage.
    pub fn now(&self) -> (now: Moment)
        ensures
            read_off_clock(now.wall),
            self.protocol.storage.clocked(now.run),
    {
        Moment { wall: now_secs(), run: self.protocol.storage.now() }
    }

    /// The contacts from which a search for the key starts.
    pub open spec fn starting_points(&self, key: [u8; ID_LEN]) -> Seq<Node> {
        self.protocol@.router.neighbors(Node::key(key), None)
    }

    /// The name is judged as that of the status list.
    pub open spec fn lists(name: Seq<char>) -> bool {
        name == status_list_name()
    }

    /// Starts reading the record under a name.  A record that is stored here is
    /// verified and returned.  Failing that the network is to be searched, if the
    /// node is listening and knows anyone to ask.
    #[verifier::rlimit(40)]
    pub fn begin_get(&mut self, name: &str, now: Moment, issuer: &IssuerKey) -> (step: GetStep)
        requires
            old(self).wf(),
        ensures
            final(self).wf(),
            final(self).same_settings(old(self)),
            ({
                let key = key_of(name@);
                let stored = old(self).protocol@.storage.read(key@, now.run);
                let peers = old(self).starting_points(key);
                match stored {
                    Some(value) => {
                        &&& final(self).protocol@ == old(self).protocol@
                        &&& step matches GetStep::Done(found) && ({
                            ||| old(self).protocol.judge.gives(
                                final(self).protocol.judge,
                                Self::lists(name@),
                                value,
                                issuer@,
                                true,
                            ) && (found matches Some(bytes) && bytes@ == value)
                            ||| old(self).protocol.judge.gives(
                                final(self).protocol.judge,
                                Self::lists(name@),
                                value,
                                issuer@,
                                false,
                            ) && found is None
                        })
                    },
                    None => {
                        &&& final(self).protocol.judge == old(self).protocol.judge
                        &&& final(self).protocol@ == if old(self).online {
                            old(self).protocol.having_looked_up(key, now)
                        } else {
                            old(self).protocol@
                        }
                        &&& if !old(self).online || peers.len() == 0 {
                            step == GetStep::Done(None)
                        } else {
                            step matches GetStep::Search(crawl) && crawl.wf()
                                && crawl.base.starts(
                                Node::key(key),
                                peers,
                                old(self).ksize,
                                old(self).alpha,
                            ) && crawl.nearest_without_value.nodes() == Seq::<Node>::empty()
                        }
                    },
                }
            }),
            ({
                let stored = old(self).protocol@.storage.read(key_of(name@)@, now.run);
                stored matches Some(value) ==> !Self::lists(name@) && digest_is_unique(value)
                    ==> (step matches GetStep::Done(found) && (found is Some) == accepts(
                    old(self).protocol.judge.handler.record_verdict(value),
                ))
            }),
    {
        let key: [u8; ID_LEN] = key_for(name);
        if let Some(value) = self.protocol.storage.get_at(key.as_slice(), now.run) {
            return if self.protocol.judge.verify_value(name, value.as_slice(), issuer) {
                GetStep::Done(Some(value))
            } else {
                GetStep::Done(None)
            };
        }
        if !self.online {
            return GetStep::Done(None);
        }
        let target: Node = Node::from_id(key);
        let nearest: Vec<Node> = self.protocol.router.find_neighbors_at(&target, None, now.wall);
        if nearest.len() == 0 {
            return GetStep::Done(None);
        }
        GetStep::Search(ValueSpiderCrawl::new(target, nearest, self.ksize, self.alpha))
    }

    /// Ends reading a record with what the search found: a value is returned only
    /// if it is valid.
    pub fn finish_get(&mut self, name: &str, found: Option<Vec<u8>>, issuer: &IssuerKey) -> (value: Option<
        Vec<u8>,
    >)
        requires
            old(self).wf(),
        ensures
            final(self).wf(),
            final(self).same_settings(old(self)),
            final(self).protocol@ == old(self).protocol@,
            match found {
                None => value is None && final(self).protocol.judge == old(self).protocol.judge,
                Some(bytes) => {
                    ||| value == found && old(self).protocol.judge.gives(
                        final(self).protocol.judge,
                        Self::lists(name@),
                        bytes@,
                        issuer@,
                        true,
                    )
                    ||| value is None && old(self).protocol.judge.gives(
                        final(self).protocol.judge,
                        Self::lists(name@),
                        bytes@,
                        issuer@,
                        false,
                    )
                },
            },
            found matches Some(bytes) ==> !Self::lists(name@) && digest_is_unique(bytes@) ==> (
            value is Some == accepts(old(self).protocol.judge.handler.record_verdict(bytes@))),
    {
        match found {
            Some(bytes) => {
                if self.protocol.judge.verify_value(name, bytes.as_slice(), issuer) {
                    Some(bytes)
                } else {
                    None
                }
            },
            None => None,
        }
    }

    /// Whether a record may be published under a name: nothing was read under it,
    /// and the record is valid.
    pub fn permits_set(&mut self, name: &str, taken: bool, value: &[u8], issuer: &IssuerKey) -> (permitted:
        bool)
        requires
            old(self).wf(),
        ensures
            final(self).wf(),
            final(self).same_settings(old(self)),
            final(self).protocol@ == old(self).protocol@,
            taken ==> !permitted && final(self).protocol.judge == old(self).protocol.judge,
            !taken ==> old(self).protocol.judge.gives(
                final(self).protocol.judge,
                Self::lists(name@),
                value@,
                issuer@,
                permitted,
            ),
            !taken && !Self::lists(name@) && digest_is_unique(value@) ==> permitted == accepts(
                old(self).protocol.judge.handler.record_verdict(value@),
            ),
    {
        if taken {
            return false;
        }
        self.protocol.judge.verify_value(name, value, issuer)
    }

    /// The current record consents to its replacement, or the issuer does: to that
    /// of the status list, where no signature is given.
    pub open spec fn may_update(
        &self,
        name: Seq<char>,
        value: Seq<u8>,
        old_value: Seq<u8>,
        auth: Option<Vec<u8>>,
        issuer: IssuerModel,
    ) -> bool {
        if Self::lists(name) && auth is None {
            accepts(self.protocol.judge.handler.issuer_verdict(value, issuer))
        } else {
            accepts(self.protocol.judge.handler.update_verdict(value, old_value, given(auth)))
        }
    }

    /// Whether the record that was read under a name may be replaced.
    pub fn permits_update(
        &self,
        name: &str,
        value: &[u8],
        old_value: &[u8],
        auth_signature: &Option<Vec<u8>>,
        issuer: &IssuerKey,
    ) -> (permitted: bool)
        ensures
            permitted == self.may_update(name@, value@, old_value@, *auth_signature, issuer@),
    {
        match auth_signature {
            Some(auth) => self.protocol.judge.permits_update(value, old_value, auth.as_slice()),
            None => {
                if same_text(name, status_list_key()) {
                    self.protocol.judge.permits_status_list(value, issuer)
                } else {
                    let none: Vec<u8> = Vec::new();
                    self.protocol.judge.permits_update(value, old_value, none.as_slice())
                }
            },
        }
    }

    /// Whether the record that was read may be deleted.
    pub fn permits_delete(&self, value: &[u8], auth_signature: &[u8], delete_msg: &[u8]) -> (permitted:
        bool)
        ensures
            permitted == accepts(
                self.protocol.judge.handler.delete_verdict(value@, auth_signature@, delete_msg@),
            ),
    {
        self.protocol.judge.permits_delete(value, auth_signature, delete_msg)
    }

    /// Starts looking for the peers nearest to a key.  `None` if the node is not
    /// listening or knows no one to ask.
    pub fn begin_publish(&mut self, key: [u8; ID_LEN], now: Moment) -> (crawl: Option<
        NodeSpiderCrawl,
    >)
        requires
            old(self).wf(),
        ensures
            final(self).wf(),
            final(self).same_settings(old(self)),
            final(self).protocol.judge == old(self).protocol.judge,
            final(self).protocol@ == if old(self).online {
                old(self).protocol.having_looked_up(key, now)
            } else {
                old(self).protocol@
            },
            match crawl {
                Some(crawl) => old(self).online && old(self).starting_points(key).len() > 0
                    && crawl.base.starts(
                    Node::key(key),
                    old(self).starting_points(key),
                    old(self).ksize,
                    old(self).alpha,
                ),
                None => !old(self).online || old(self).starting_points(key).len() == 0,
            },
    {
        if !self.online {
            return None;
        }
        let target: Node = Node::from_id(key);
        let nearest: Vec<Node> = self.protocol.router.find_neighbors_at(&target, None, now.wall);
        if nearest.len() == 0 {
            return None;
        }
        Some(NodeSpiderCrawl::new(target, nearest, self.ksize, self.alpha))
    }

    /// Whether this node is among the nearest to the key, as far as the peers show.
    fn belongs_here(&self, key: [u8; ID_LEN], nodes: &Vec<Node>) -> (belongs: bool)
        ensures
            belongs == is_among(self.node.long_id, key, nodes@, self.ksize),
    {
        let ghost nearer = nearer_than(self.node.long_id, key);
        let target: Node = Node::from_id(key);
        let own: u128 = self.node.distance_to(&target);
        let mut count: usize = 0;
        let mut at: usize = 0;
        assert(nodes@.take(0).filter(nearer) =~= Seq::empty()) by {
            reveal(Seq::filter);
        }
        while at < nodes.len()
            invariant
                at <= nodes@.len(),
                count <= at,
                target.long_id == fold_id(key@),
                own == xor_distance(self.node.long_id, fold_id(key@)),
                nearer == nearer_than(self.node.long_id, key),
                count == nodes@.take(at as int).filter(nearer).len(),
            decreases nodes@.len() - at,
        {
            proof {
                filter_step(nodes@, at as int, nearer);
            }
            if nodes[at].distance_to(&target) < own {
                count = count + 1;
            }
            at = at + 1;
        }
        assert(nodes@.take(at as int) =~= nodes@);
        count < self.ksize
    }

    /// The state after a record was published to the peers: it is also stored here
    /// if this node is among the nearest to the key.
    pub open spec fn having_published(
        &self,
        key: [u8; ID_LEN],
        nodes: Seq<Node>,
        value: Seq<u8>,
        now: Moment,
    ) -> ProtocolModel {
        if is_among(self.node.long_id, key, nodes, self.ksize) {
            self.protocol.having_written(key, value, now)
        } else {
            self.protocol@
        }
    }

    /// Stores the record here, if this node is among the nearest to the key.
    fn keep(&mut self, key: [u8; ID_LEN], nodes: &Vec<Node>, value: &[u8], now: Moment)
        requires
            old(self).wf(),
        ensures
            final(self).wf(),
            final(self).same_settings(old(self)),
            final(self).protocol.judge == old(self).protocol.judge,
            final(self).protocol@ == old(self).having_published(key, nodes@, value@, now),
    {
        if self.belongs_here(key, nodes) {
            self.protocol.storage.set_at(
                vstd::slice::slice_to_vec(key.as_slice()),
                vstd::slice::slice_to_vec(value),
                now.run,
            );
        }
    }

    /// Requests to the peers to store the record.
    pub fn store_messages(&self, key: [u8; ID_LEN], nodes: &Vec<Node>, value: &[u8]) -> (outbox:
        Outbox)
        ensures
            stores_everywhere(outbox@, self.protocol.source_node.id, nodes@, key, value@),
    {
        let mut outbox: Vec<(Node, RpcMessage)> = Vec::new();
        let mut at: usize = 0;
        while at < nodes.len()
            invariant
                at <= nodes@.len(),
                stores_everywhere(
                    outbox@,
                    self.protocol.source_node.id,
                    nodes@.take(at as int),
                    key,
                    value@,
                ),
            decreases nodes@.len() - at,
        {
            outbox.push(
                (
                    nodes[at].clone(),
                    self.protocol.store_message(key, vstd::slice::slice_to_vec(value)),
                ),
            );
            at = at + 1;
        }
        assert(nodes@.take(at as int) =~= nodes@);
        outbox
    }

    /// Publishes a record to the peers nearest to its key.
    pub fn publish_set(&mut self, key: [u8; ID_LEN], nodes: &Vec<Node>, value: &[u8], now: Moment) -> (outbox:
        Outbox)
        requires
            old(self).wf(),
        ensures
            final(self).wf(),
            final(self).same_settings(old(self)),
            final(self).protocol.judge == old(self).protocol.judge,
            final(self).protocol@ == old(self).having_published(key, nodes@, value@, now),
            stores_everywhere(outbox@, old(self).node.id, nodes@, key, value@),
    {
        self.keep(key, nodes, value, now);
        self.store_messages(key, nodes, value)
    }

    /// Publishes the replacement of a record to the peers nearest to its key.
    pub fn publish_update(
        &mut self,
        name: &str,
        nodes: &Vec<Node>,
        value: &[u8],
        auth_signature: &Option<Vec<u8>>,
        now: Moment,
    ) -> (outbox: Outbox)
        requires
            old(self).wf(),
        ensures
            final(self).wf(),
            final(self).same_settings(old(self)),
            final(self).protocol.judge == old(self).protocol.judge,
            final(self).protocol@ == old(self).having_published(
                key_of(name@),
                nodes@,
                value@,
                now,
            ),
            updates_everywhere(
                outbox@,
                old(self).node.id,
                nodes@,
                Self::lists(name@),
                key_of(name@),
                value@,
                given(*auth_signature),
            ),
    {
        let key: [u8; ID_LEN] = key_for(name);
        self.keep(key, nodes, value, now);
        let is_list: bool = same_text(name, status_list_key());
        let auth: Vec<u8> = match auth_signature {
            Some(bytes) => vstd::slice::slice_to_vec(bytes.as_slice()),
            None => Vec::new(),
        };
        assert(auth@ =~= given(*auth_signature));
        let mut outbox: Vec<(Node, RpcMessage)> = Vec::new();
        let mut at: usize = 0;
        while at < nodes.len()
            invariant
                at <= nodes@.len(),
                updates_everywhere(
                    outbox@,
                    self.protocol.source_node.id,
                    nodes@.take(at as int),
                    is_list,
                    key,
                    value@,
                    auth@,
                ),
            decreases nodes@.len() - at,
        {
            let message: RpcMessage = if is_list {
                self.protocol.status_list_message(key, vstd::slice::slice_to_vec(value))
            } else {
                self.protocol.update_message(
                    key,
                    vstd::slice::slice_to_vec(value),
                    vstd::slice::slice_to_vec(auth.as_slice()),
                )
            };
            outbox.push((nodes[at].clone(), message));
            at = at + 1;
        }
        assert(nodes@.take(at as int) =~= nodes@);
        outbox
    }

    /// Deletes a record here, and publishes the deletion to the peers nearest to
    /// its key.
    pub fn publish_delete(
        &mut self,
        key: [u8; ID_LEN],
        nodes: &Vec<Node>,
        auth_signature: &[u8],
        delete_msg: &[u8],
    ) -> (outbox: Outbox)
        requires
            old(self).wf(),
        ensures
            final(self).wf(),
            final(self).same_settings(old(self)),
            final(self).protocol.judge == old(self).protocol.judge,
            final(self).protocol@ == (ProtocolModel {
                storage: old(self).protocol@.storage.deleted(key@),
                ..old(self).protocol@
            }),
            deletes_everywhere(
                outbox@,
                old(self).node.id,
                nodes@,
                key,
                auth_signature@,
                delete_msg@,
            ),
    {
        self.protocol.storage.remove(key.as_slice());
        let mut outbox: Vec<(Node, RpcMessage)> = Vec::new();
        let mut at: usize = 0;
        while at < nodes.len()
            invariant
                at <= nodes@.len(),
                deletes_everywhere(
                    outbox@,
                    self.protocol.source_node.id,
                    nodes@.take(at as int),
                    key,
                    auth_signature@,
                    delete_msg@,
                ),
            decreases nodes@.len() - at,
        {
            outbox.push(
                (
                    nodes[at].clone(),
                    self.protocol.delete_message(
                        key,
                        vstd::slice::slice_to_vec(auth_signature),
                        vstd::slice::slice_to_vec(delete_msg),
                    ),
                ),
            );
            at = at + 1;
        }
        assert(nodes@.take(at as int) =~= nodes@);
        outbox
    }
}

/// The peer at an address, from its answer to a ping: whether there was one, and
/// the ID that it gave.
pub fn bootstrap_node(addr: (String, u16), pong: (bool, Vec<u8>)) -> (peer: Option<Node>)
    ensures
        match peer {
            Some(node) => pong.0 && pong.1@.len() == ID_LEN && node == Node::at(
                id_of(pong.1@),
                Some(addr.0),
                Some(addr.1),
            ),
            None => !pong.0 || pong.1@.len() != ID_LEN,
        },
{
    if !pong.0 {
        return None;
    }
    match to_id(pong.1.as_slice()) {
        Some(id) => Some(Node::new(id, Some(addr.0), Some(addr.1))),
        None => None,
    }
}

/// The peer has both an IP and a port.
pub open spec fn has_address(node: Node) -> bool {
    node.ip is Some && node.port is Some
}

/// The addresses of those peers that have one.
pub open spec fn addresses(nodes: Seq<Node>) -> Seq<(String, u16)> {
    nodes.filter(|n: Node| has_address(n)).map_values(
        |n: Node| (n.ip->Some_0, n.port->Some_0),
    )
}

fn addresses_of(nodes: &Vec<Node>) -> (list: Vec<(String, u16)>)
    ensures
        list@ == addresses(nodes@),
{
    let ghost known = |n: Node| has_address(n);
    let ghost address = |n: Node| (n.ip->Some_0, n.port->Some_0);
    let mut list: Vec<(String, u16)> = Vec::new();
    let mut at: usize = 0;
    assert(nodes@.take(0).filter(known) =~= Seq::empty()) by {
        reveal(Seq::filter);
    }
    assert(list@ =~= nodes@.take(0).filter(known).map_values(address));
    while at < nodes.len()
        invariant
            at <= nodes@.len(),
            known == (|n: Node| has_address(n)),
            address == (|n: Node| (n.ip->Some_0, n.port->Some_0)),
            list@ == nodes@.take(at as int).filter(known).map_values(address),
        decreases nodes@.len() - at,
    {
        proof {
            filter_step(nodes@, at as int, known);
        }
        let ghost before = nodes@.take(at as int).filter(known);
        if let Some(found) = nodes[at].address() {
            list.push(found);
            assert(list@ =~= before.push(nodes@[at as int]).map_values(address));
        }
        at = at + 1;
    }
    assert(nodes@.take(at as int) =~= nodes@);
    list
}

/// The table after lookups of the IDs, one after the other.
pub open spec fn after_lookups(table: TableModel, ids: Seq<[u8; ID_LEN]>, wall: u64) -> TableModel
    decreases ids.len(),
{
    if ids.len() == 0 {
        table
    } else {
        after_lookups(table, ids.drop_last(), wall).looked_up(fold_id(ids.last()@), wall)
    }
}

/// Lookups change no answer of the table.
pub proof fn lookups_change_no_answer(table: TableModel, ids: Seq<[u8; ID_LEN]>, wall: u64)
    requires
        table.wf(),
    ensures
        after_lookups(table, ids, wall).wf(),
        forall|target: Node, exclude: Option<Node>| #[trigger]
            after_lookups(table, ids, wall).neighbors(target, exclude) == table.neighbors(
                target,
                exclude,
            ),
    decreases ids.len(),
{
    if ids.len() > 0 {
        let before = after_lookups(table, ids.drop_last(), wall);
        lookups_change_no_answer(table, ids.drop_last(), wall);
        let long_id = fold_id(ids.last()@);
        let none = |i: int| false;
        assert(before.touched(none, wall).buckets =~= before.buckets);
        a_lookup_touches_one_more(before, none, long_id, wall);
        touching_changes_no_answer(
            before,
            |i: int| none(i) || i == before.home(long_id),
            wall,
        );
    }
}

/// `records` lists exactly the live records under keys of the length of an ID that
/// are at least an hour old, each once.
pub open spec fn lists_due(
    storage: StorageModel,
    run: u128,
    records: Seq<([u8; ID_LEN], Vec<u8>)>,
) -> bool {
    &&& forall|i: int|
        0 <= i < records.len() ==> storage.aged((#[trigger] records[i]).0@, REPUBLISH_AFTER, run)
            && storage.entries[records[i].0@].0 == records[i].1@
    &&& forall|i: int, j: int|
        0 <= i < j < records.len() ==> (#[trigger] records[i]).0 != (#[trigger] records[j]).0
    &&& forall|key: Seq<u8>| #[trigger]
        storage.aged(key, REPUBLISH_AFTER, run) && key.len() == ID_LEN ==> exists|i: int|
            0 <= i < records.len() && (#[trigger] records[i]).0@ == key
}

impl<H: SignatureVerifierHandler> Server<H> {
    /// Starts looking for the peers nearest to this node, from the given peers.
    /// `None` if the node is not listening.
    pub fn begin_bootstrap(&self, nodes: Vec<Node>) -> (crawl: Option<NodeSpiderCrawl>)
        ensures
            match crawl {
                Some(crawl) => self.online && crawl.base.starts(
                    self.node,
                    nodes@,
                    self.ksize,
                    self.alpha,
                ),
                None => !self.online,
            },
    {
        if !self.online {
            return None;
        }
        Some(NodeSpiderCrawl::new(self.node.clone(), nodes, self.ksize, self.alpha))
    }

    /// The contacts nearest to this node.
    pub open spec fn own_neighbors(&self) -> Seq<Node> {
        if self.online {
            self.protocol@.router.neighbors(self.node, None)
        } else {
            Seq::empty()
        }
    }

    /// The state after a lookup of this node's own ID.
    pub open spec fn having_looked_around(&self, wall: u64) -> ProtocolModel {
        if self.online {
            ProtocolModel {
                router: self.protocol@.router.looked_up(self.node.long_id, wall),
                ..self.protocol@
            }
        } else {
            self.protocol@
        }
    }

    /// The contacts nearest to this node, such as are told of its departure.
    pub fn neighbors(&mut self, wall: u64) -> (nodes: Vec<Node>)
        requires
            old(self).wf(),
        ensures
            final(self).wf(),
            final(self).same_settings(old(self)),
            final(self).protocol.judge == old(self).protocol.judge,
            nodes@ == old(self).own_neighbors(),
            final(self).protocol@ == old(self).having_looked_around(wall),
    {
        if !self.online {
            return Vec::new();
        }
        self.protocol.router.find_neighbors_at(&self.node, None, wall)
    }

    /// The addresses of the contacts nearest to this node.
    pub fn bootstrappable_neighbors(&mut self, wall: u64) -> (list: Vec<(String, u16)>)
        requires
            old(self).wf(),
        ensures
            final(self).wf(),
            final(self).same_settings(old(self)),
            final(self).protocol.judge == old(self).protocol.judge,
            list@ == addresses(old(self).own_neighbors()),
            final(self).protocol@ == old(self).having_looked_around(wall),
    {
        let nodes: Vec<Node> = self.neighbors(wall);
        addresses_of(&nodes)
    }

    /// What the node saves of itself; nothing where it has no neighbours to start
    /// from.
    pub fn save_state(&mut self, wall: u64) -> (state: Option<NodeState>)
        requires
            old(self).wf(),
        ensures
            final(self).wf(),
            final(self).same_settings(old(self)),
            final(self).protocol.judge == old(self).protocol.judge,
            final(self).protocol@ == old(self).having_looked_around(wall),
            match state {
                Some(state) => {
                    &&& state.ksize == old(self).ksize
                    &&& state.alpha == old(self).alpha
                    &&& state.id@ == hex_text(old(self).node.id@)
                    &&& state.neighbors@ == addresses(old(self).own_neighbors())
                    &&& state.neighbors@.len() > 0
                },
                None => addresses(old(self).own_neighbors()).len() == 0,
            },
    {
        let neighbors: Vec<(String, u16)> = self.bootstrappable_neighbors(wall);
        if neighbors.len() == 0 {
            return None;
        }
        Some(
            NodeState {
                ksize: self.ksize,
                alpha: self.alpha,
                id: hex_encode(self.node.id.as_slice()),
                neighbors,
            },
        )
    }

    /// Lookups of the given IDs, to refresh the buckets that they fall into.
    pub fn refresh_lookups(&mut self, ids: &Vec<[u8; ID_LEN]>, wall: u64) -> (crawls: Vec<
        NodeSpiderCrawl,
    >)
        requires
            old(self).wf(),
        ensures
            final(self).wf(),
            final(self).same_settings(old(self)),
            final(self).protocol.judge == old(self).protocol.judge,
            final(self).protocol@ == (ProtocolModel {
                router: after_lookups(old(self).protocol@.router, ids@, wall),
                ..old(self).protocol@
            }),
            crawls@.len() == ids@.len(),
            forall|i: int|
                0 <= i < ids@.len() ==> (#[trigger] crawls@[i]).base.starts(
                    Node::key(ids@[i]),
                    old(self).starting_points(ids@[i]),
                    old(self).ksize,
                    old(self).alpha,
                ),
    {
        let ghost table = self.protocol@.router;
        let mut crawls: Vec<NodeSpiderCrawl> = Vec::new();
        let mut at: usize = 0;
        assert(ids@.take(0) =~= Seq::empty());
        while at < ids.len()
            invariant
                at <= ids@.len(),
                self.wf(),
                self.same_settings(old(self)),
                self.protocol.judge == old(self).protocol.judge,
                table == old(self).protocol@.router,
                table.wf(),
                self.protocol@ == (ProtocolModel {
                    router: after_lookups(table, ids@.take(at as int), wall),
                    ..old(self).protocol@
                }),
                crawls@.len() == at,
                forall|i: int|
                    0 <= i < at ==> (#[trigger] crawls@[i]).base.starts(
                        Node::key(ids@[i]),
                        old(self).starting_points(ids@[i]),
                        old(self).ksize,
                        old(self).alpha,
                    ),
            decreases ids@.len() - at,
        {
            proof {
                lookups_change_no_answer(table, ids@.take(at as int), wall);
                assert(ids@.take(at + 1).drop_last() =~= ids@.take(at as int));
                assert(ids@.take(at + 1).last() == ids@[at as int]);
            }
            let target: Node = Node::from_id(ids[at]);
            let peers: Vec<Node> = self.protocol.router.find_neighbors_at(&target, None, wall);
            crawls.push(NodeSpiderCrawl::new(target, peers, self.ksize, self.alpha));
            at = at + 1;
        }
        assert(ids@.take(at as int) =~= ids@);
        crawls
    }

    /// The records to publish again: those that are an hour old.
    pub fn records_due(&self, now: Moment) -> (records: Vec<([u8; ID_LEN], Vec<u8>)>)
        ensures
            lists_due(self.protocol@.storage, now.run, records@),
    {
        let ghost storage = self.protocol@.storage;
        let ghost wanted = |key: Seq<u8>| storage.aged(key, REPUBLISH_AFTER, now.run);
        let entries: Vec<(Vec<u8>, Vec<u8>)> = self.protocol.storage.iter_older_than_at(
            REPUBLISH_AFTER,
            now.run,
        );
        assert(storage.lists(entries@, wanted));
        let records: Vec<([u8; ID_LEN], Vec<u8>)> = under_ids(&entries);
        proof {
            assert forall|i: int| 0 <= i < records@.len() implies storage.aged(
                (#[trigger] records@[i]).0@,
                REPUBLISH_AFTER,
                now.run,
            ) && storage.entries[records@[i].0@].0 == records@[i].1@ by {
                assert(comes_from(entries@, records@[i]));
                let k = choose|k: int|
                    0 <= k < entries@.len() && (#[trigger] entries@[k]).0@ == records@[i].0@
                        && entries@[k].1@ == records@[i].1@;
                assert(wanted(entries@[k].0@));
            }
            assert forall|key: Seq<u8>| #[trigger]
                storage.aged(key, REPUBLISH_AFTER, now.run) && key.len() == ID_LEN implies exists|
                i: int,
            | 0 <= i < records@.len() && (#[trigger] records@[i]).0@ == key by {
                assert(storage.entries.contains_key(key) && wanted(key));
                let k = choose|k: int| 0 <= k < entries@.len() && (#[trigger] entries@[k]).0@ == key;
                assert(entries@[k].0@.len() == ID_LEN);
            }
        }
        records
    }
}

/// The record is one of the entries.
spec fn comes_from(entries: Seq<(Vec<u8>, Vec<u8>)>, record: ([u8; ID_LEN], Vec<u8>)) -> bool {
    exists|k: int|
        0 <= k < entries.len() && (#[trigger] entries[k]).0@ == record.0@ && entries[k].1@
            == record.1@
}

/// The entries whose keys have the length of an ID, in their order.
fn under_ids(entries: &Vec<(Vec<u8>, Vec<u8>)>) -> (records: Vec<([u8; ID_LEN], Vec<u8>)>)
    requires
        forall|i: int, j: int|
            0 <= i < j < entries@.len() ==> (#[trigger] entries@[i]).0@ != (
            #[trigger] entries@[j]).0@,
    ensures
        forall|i: int| 0 <= i < records@.len() ==> comes_from(entries@, #[trigger] records@[i]),
        forall|i: int, j: int|
            0 <= i < j < records@.len() ==> (#[trigger] records@[i]).0 != (
            #[trigger] records@[j]).0,
        forall|k: int|
            0 <= k < entries@.len() && (#[trigger] entries@[k]).0@.len() == ID_LEN ==> exists|
                i: int,
            | 0 <= i < records@.len() && (#[trigger] records@[i]).0@ == entries@[k].0@,
{
    let mut records: Vec<([u8; ID_LEN], Vec<u8>)> = Vec::new();
    let ghost mut origin: Seq<int> = Seq::empty();
    let ghost mut target: Seq<int> = Seq::empty();
    let mut at: usize = 0;
    while at < entries.len()
        invariant
            at <= entries@.len(),
            forall|i: int, j: int|
                0 <= i < j < entries@.len() ==> (#[trigger] entries@[i]).0@ != (
                #[trigger] entries@[j]).0@,
            origin.len() == records@.len(),
            target.len() == at,
            forall|i: int|
                0 <= i < records@.len() ==> 0 <= #[trigger] origin[i] < at
                    && entries@[origin[i]].0@ == records@[i].0@ && entries@[origin[i]].1@
                    == records@[i].1@,
            forall|i: int, j: int|
                0 <= i < j < records@.len() ==> #[trigger] origin[i] < #[trigger] origin[j],
            forall|k: int|
                0 <= k < at && (#[trigger] entries@[k]).0@.len() == ID_LEN ==> 0 <= target[k]
                    < records@.len() && records@[target[k]].0@ == entries@[k].0@,
        decreases entries@.len() - at,
    {
        let ghost before = records@;
        if let Some(key) = to_id(entries[at].0.as_slice()) {
            let value: Vec<u8> = vstd::slice::slice_to_vec(entries[at].1.as_slice());
            records.push((key, value));
            proof {
                origin = origin.push(at as int);
            }
        }
        proof {
            target = target.push(before.len() as int);
        }
        at = at + 1;
    }
    proof {
        assert forall|i: int| 0 <= i < records@.len() implies comes_from(
            entries@,
            #[trigger] records@[i],
        ) by {
            let k = origin[i];
            assert(entries@[k].0@ == records@[i].0@);
        }
        assert forall|i: int, j: int| 0 <= i < j < records@.len() implies (
        #[trigger] records@[i]).0 != (#[trigger] records@[j]).0 by {
            assert(origin[i] < origin[j]);
            assert(entries@[origin[i]].0@ != entries@[origin[j]].0@);
        }
        assert forall|k: int| 0 <= k < entries@.len() && (#[trigger] entries@[k]).0@.len()
            == ID_LEN implies exists|i: int|
            0 <= i < records@.len() && (#[trigger] records@[i]).0@ == entries@[k].0@ by {
            assert(records@[target[k]].0@ == entries@[k].0@);
        }
    }
    records
}

/// What a node publishes is accepted by any node that has no record under the key
/// and judges by the same handler, unless another record with the same digest was
/// judged there before; and a reader finds it there.
pub proof fn a_published_record_is_taken_and_found<H: SignatureVerifierHandler>(
    publisher: Judge<H>,
    before: KademliaProtocol<H>,
    after: KademliaProtocol<H>,
    key: [u8; ID_LEN],
    value: Seq<u8>,
    now: Moment,
    issuer: IssuerModel,
    ok: bool,
)
    requires
        before.wf(),
        publisher.handler == before.judge.handler,
        !is_status_list(key),
        digest_is_unique(value),
        publisher.verdict(false, value, issuer),
        !before@.storage.live(key@, now.run),
        before.stores(&after, key, value, now, issuer, ok),
    ensures
        ok,
        after@.storage.read(key@, now.run) == Some(value),
{
}

/// A record is published to all nodes that are among the nearest to its key: every
/// peer that was found is asked to store it, and this node has it from then on if
/// it is one of the nearest itself.
pub proof fn the_nearest_get_a_published_record<H: SignatureVerifierHandler>(
    before: Server<H>,
    after: Server<H>,
    key: [u8; ID_LEN],
    nodes: Seq<Node>,
    value: Seq<u8>,
    now: Moment,
    outbox: Seq<(Node, RpcMessage)>,
)
    requires
        after.protocol@ == before.having_published(key, nodes, value, now),
        stores_everywhere(outbox, before.node.id, nodes, key, value),
    ensures
        forall|i: int|
            0 <= i < nodes.len() ==> (#[trigger] outbox[i]).0 == nodes[i] && outbox[i].1 is Store
                && outbox[i].1->Store_key == key && outbox[i].1->Store_value@ == value,
        is_among(before.node.long_id, key, nodes, before.ksize)
            ==> after.protocol@.storage.read(key@, now.run) == Some(value),
        nodes.len() < before.ksize ==> after.protocol@.storage.read(key@, now.run) == Some(value),
{
    nodes.lemma_filter_len(nearer_than(before.node.long_id, key));
}

} // verus!
