//! Whole networks of nodes in one process: messages go straight from node to
//! node.

use auth_kademlia::auth_handler::DIDSignatureVerifierHandler;
use auth_kademlia::auth_handler::IssuerKey;
use auth_kademlia::crawling::Answer;
use auth_kademlia::crawling::FindPayload;
use auth_kademlia::crawling::NodeSpiderCrawl;
use auth_kademlia::crawling::NodeStep;
use auth_kademlia::crawling::RPCFindResponse;
use auth_kademlia::crawling::RawResponse;
use auth_kademlia::crawling::SpiderCrawl;
use auth_kademlia::crawling::ValueSpiderCrawl;
use auth_kademlia::crawling::ValueStep;
use auth_kademlia::fragmentation::MAX_MESSAGE_SIZE;
use auth_kademlia::network::any_ok;
use auth_kademlia::network::bootstrap_node;
use auth_kademlia::network::key_for;
use auth_kademlia::network::GetStep;
use auth_kademlia::network::Outbox;
use auth_kademlia::network::Server;
use auth_kademlia::node::Node;
use auth_kademlia::protocol::delete_outcome;
use auth_kademlia::protocol::find_node_outcome;
use auth_kademlia::protocol::find_value_outcome;
use auth_kademlia::protocol::needs_issuer;
use auth_kademlia::protocol::ping_outcome;
use auth_kademlia::protocol::status_list_outcome;
use auth_kademlia::protocol::store_outcome;
use auth_kademlia::protocol::update_outcome;
use auth_kademlia::protocol::Frame;
use auth_kademlia::protocol::Moment;
use auth_kademlia::protocol::RpcMessage;
use auth_kademlia::protocol::WireNode;
use auth_kademlia::record::build_signed_record;
use auth_kademlia::storage::ForgetfulStorage;
use auth_kademlia::storage::IStorage;
use auth_kademlia::utils::digest;

use base64::engine::general_purpose::URL_SAFE_NO_PAD;
use base64::Engine;
use pqcrypto_dilithium::dilithium2;
use pqcrypto_traits::sign::DetachedSignature;
use pqcrypto_traits::sign::PublicKey;
use pqcrypto_traits::sign::SecretKey;
use uuid::Uuid;

const IP: &str = "127.0.0.1";
const PORT: u16 = 15700;

type TestServer = Server<DIDSignatureVerifierHandler>;

struct Net {
    nodes: Vec<TestServer>,
    issuer: IssuerKey,
}

fn handler() -> DIDSignatureVerifierHandler {
    DIDSignatureVerifierHandler::new("issuer_pub_key.bin".to_string())
}

fn node_id(label: &str) -> [u8; 20] {
    digest(label)
}

impl Net {
    fn new(count: usize, use_cache: bool) -> Net {
        let mut nodes = Vec::new();
        for i in 0..count {
            let id = node_id(&format!("node {}", i));
            let mut server = Server::new(handler(), 20, 3, Some(id), None, use_cache);
            server.set_online(true);
            nodes.push(server);
        }
        Net { nodes, issuer: IssuerKey::Unreadable("none".to_string()) }
    }

    fn join(&mut self) -> usize {
        let id = node_id(&format!("node {}", self.nodes.len()));
        let mut server = Server::new(handler(), 20, 3, Some(id), None, false);
        server.set_online(true);
        self.nodes.push(server);
        self.nodes.len() - 1
    }

    fn address(&self, i: usize) -> (String, u16) {
        (IP.to_string(), PORT + i as u16)
    }

    fn reach(&self, addr: &(String, u16)) -> Option<usize> {
        let i = addr.1.checked_sub(PORT)? as usize;
        if addr.0 == IP && i < self.nodes.len() && self.nodes[i].online {
            Some(i)
        } else {
            None
        }
    }

    fn call(&mut self, from: usize, addr: &(String, u16), message: RpcMessage) -> Option<RpcMessage> {
        let frame = self.nodes[from].protocol.request(message);
        let expected = frame.msg_id;
        let to = self.reach(addr)?;
        let back = self.address(from);
        let now = self.nodes[to].now();
        let outcome = self.nodes[to].protocol.handle_frame(frame, back, now, &self.issuer);
        if let Some(peer) = outcome.welcome {
            self.welcome(to, peer);
        }
        let reply = outcome.reply?;
        assert!(!reply.is_request);
        let now = self.nodes[from].now();
        let outcome = self.nodes[from].protocol.handle_frame(reply, addr.clone(), now, &self.issuer);
        if let Some(peer) = outcome.welcome {
            self.welcome(from, peer);
        }
        let (msg_id, answer) = outcome.deliver?;
        assert_eq!(msg_id, expected);
        Some(answer)
    }

    fn welcome(&mut self, i: usize, peer: Node) {
        let now = self.nodes[i].now();
        if let Some(welcome) = self.nodes[i].protocol.welcome_if_new(peer.clone(), now) {
            for (key, value) in welcome.stores {
                let message = self.nodes[i].protocol.store_message(key, value);
                self.call(i, &peer.address().unwrap(), message);
            }
        }
    }

    fn find_nodes(&mut self, i: usize, mut crawl: NodeSpiderCrawl) -> Vec<Node> {
        loop {
            let mut answers: Vec<Answer> = Vec::new();
            for peer in crawl.base.find_round() {
                let message = self.nodes[i].protocol.find_node_message(&crawl.base.node);
                let answer = match peer.address() {
                    Some(addr) => self.call(i, &addr, message),
                    None => None,
                };
                answers.push((peer.id, find_node_outcome(answer)));
            }
            if let NodeStep::Done { nearest } = crawl.take_answers(&answers) {
                return nearest;
            }
        }
    }

    fn find_value(&mut self, i: usize, mut crawl: ValueSpiderCrawl) -> Option<Vec<u8>> {
        loop {
            let mut answers: Vec<Answer> = Vec::new();
            for peer in crawl.base.find_round() {
                let message = self.nodes[i].protocol.find_value_message(&crawl.base.node);
                let answer = match peer.address() {
                    Some(addr) => self.call(i, &addr, message),
                    None => None,
                };
                answers.push((peer.id, find_value_outcome(answer)));
            }
            match crawl.take_answers(&answers) {
                ValueStep::Continue => {}
                ValueStep::Missed { .. } => return None,
                ValueStep::Found { value, store_at } => {
                    if let Some(peer) = store_at {
                        let key = crawl.base.node.id;
                        let message = self.nodes[i].protocol.store_message(key, value.clone());
                        self.call(i, &peer.address().unwrap(), message);
                    }
                    return Some(value);
                }
            }
        }
    }

    fn bootstrap(&mut self, i: usize, addrs: Vec<(String, u16)>) -> Vec<Node> {
        let mut nodes = Vec::new();
        for addr in addrs {
            let message = self.nodes[i].protocol.ping_message();
            let answer = self.call(i, &addr, message);
            nodes.extend(bootstrap_node(addr, ping_outcome(answer)));
        }
        match self.nodes[i].begin_bootstrap(nodes) {
            Some(crawl) => self.find_nodes(i, crawl),
            None => Vec::new(),
        }
    }

    fn get(&mut self, i: usize, name: &str) -> Option<Vec<u8>> {
        let now = self.nodes[i].now();
        match self.nodes[i].begin_get(name, now, &self.issuer) {
            GetStep::Done(found) => found,
            GetStep::Search(crawl) => {
                let found = self.find_value(i, crawl);
                self.nodes[i].finish_get(name, found, &self.issuer)
            }
        }
    }

    fn nearest(&mut self, i: usize, name: &str) -> Option<Vec<Node>> {
        let now = self.nodes[i].now();
        let crawl = self.nodes[i].begin_publish(key_for(name), now)?;
        Some(self.find_nodes(i, crawl))
    }

    fn send(&mut self, i: usize, outbox: Outbox, outcome: fn(Option<RpcMessage>) -> bool) -> bool {
        let mut results = Vec::new();
        for (peer, message) in outbox {
            let answer = match peer.address() {
                Some(addr) => self.call(i, &addr, message),
                None => None,
            };
            results.push(outcome(answer));
        }
        any_ok(&results)
    }

    fn set(&mut self, i: usize, name: &str, value: Vec<u8>) -> Option<bool> {
        let taken = self.get(i, name).is_some();
        if !self.nodes[i].permits_set(name, taken, &value, &self.issuer) {
            return None;
        }
        let nodes = match self.nearest(i, name) {
            Some(nodes) => nodes,
            None => return Some(false),
        };
        let now = self.nodes[i].now();
        let outbox = self.nodes[i].publish_set(key_for(name), &nodes, &value, now);
        Some(self.send(i, outbox, store_outcome))
    }

    fn update(
        &mut self,
        i: usize,
        name: &str,
        value: Vec<u8>,
        auth: Option<Vec<u8>>,
    ) -> Option<bool> {
        let old_value = self.get(i, name)?;
        if !self.nodes[i].permits_update(name, &value, &old_value, &auth, &self.issuer) {
            return None;
        }
        let nodes = match self.nearest(i, name) {
            Some(nodes) => nodes,
            None => return Some(false),
        };
        let now = self.nodes[i].now();
        let outbox = self.nodes[i].publish_update(name, &nodes, &value, &auth, now);
        let outcome =
            if name == "did:iiot:status-list" { status_list_outcome } else { update_outcome };
        Some(self.send(i, outbox, outcome))
    }

    fn delete(&mut self, i: usize, name: &str, auth: Vec<u8>, message: Vec<u8>) -> Option<bool> {
        let value = self.get(i, name)?;
        if !self.nodes[i].permits_delete(&value, &auth, &message) {
            return None;
        }
        let nodes = match self.nearest(i, name) {
            Some(nodes) => nodes,
            None => return Some(false),
        };
        let outbox = self.nodes[i].publish_delete(key_for(name), &nodes, &auth, &message);
        Some(self.send(i, outbox, delete_outcome))
    }

    fn stop(&mut self, i: usize) {
        let wall = self.nodes[i].now().wall;
        for neighbor in self.nodes[i].neighbors(wall) {
            let message = self.nodes[i].protocol.leave_message();
            self.call(i, &neighbor.address().unwrap(), message);
        }
        self.nodes[i].set_online(false);
    }
}

fn generate_did_iiot() -> String {
    format!("did:iiot:{}", Uuid::new_v4())
}

fn name_of(did: &str) -> String {
    did.split(':').next_back().unwrap().to_string()
}

fn record_for(did: &str, public_key: &[u8], private_key: &[u8]) -> Vec<u8> {
    let document = format!(
        "{{\"id\":\"{did}\",\"verificationMethod\":[{{\"publicKeyJwk\":{{\"x\":\"{}\"}}}}]}}",
        URL_SAFE_NO_PAD.encode(public_key)
    );
    build_signed_record(document.as_bytes(), private_key, "Dilithium-2").unwrap()
}

fn make_record() -> (String, Vec<u8>) {
    let (pk, sk) = dilithium2::keypair();
    let did = generate_did_iiot();
    (name_of(&did), record_for(&did, pk.as_bytes(), sk.as_bytes()))
}

fn signature(message: &[u8], key: &dilithium2::SecretKey) -> Vec<u8> {
    dilithium2::detached_sign(message, key).as_bytes().to_vec()
}

#[test]
fn test_two_node_bootstrap_discover_each_other() {
    let mut net = Net::new(2, false);
    let seed = net.address(0);
    let discovered = net.bootstrap(1, vec![seed.clone()]);
    assert!(!discovered.is_empty(), "bootstrap should discover at least the seed node");
    let wall = net.nodes[1].now().wall;
    let neighbours = net.nodes[1].bootstrappable_neighbors(wall);
    assert_eq!(neighbours, vec![seed]);
    let back = net.nodes[0].bootstrappable_neighbors(wall);
    assert_eq!(back, vec![net.address(1)]);
}

#[test]
fn test_set_on_node_a_and_get_from_node_b() {
    let mut net = Net::new(2, false);
    let seed = net.address(0);
    net.bootstrap(1, vec![seed]);
    let (key, record) = make_record();
    assert!(net.set(0, &key, record.clone()).unwrap_or(false), "set should succeed");
    let retrieved = net.get(1, &key);
    assert!(retrieved.is_some(), "Node B should be able to retrieve the record of Node A");
    assert_eq!(retrieved.unwrap(), record);
    net.stop(0);
}

#[test]
fn test_set_duplicate_key_rejected() {
    let mut net = Net::new(2, true);
    let seed = net.address(0);
    net.bootstrap(1, vec![seed]);
    let (key, record) = make_record();
    assert!(net.set(0, &key, record.clone()).unwrap_or(false), "first set must succeed");
    let second = net.set(0, &key, record);
    assert!(second.is_none(), "duplicate set must return None");
}

#[test]
fn test_update_did_record_key_rotation() {
    let mut net = Net::new(3, false);
    let seed = net.address(0);
    net.bootstrap(1, vec![seed.clone()]);
    net.bootstrap(2, vec![seed]);
    let (old_pk, old_sk) = dilithium2::keypair();
    let did = generate_did_iiot();
    let key = name_of(&did);
    let old_record = record_for(&did, old_pk.as_bytes(), old_sk.as_bytes());
    assert!(net.set(1, &key, old_record).unwrap_or(false), "initial store must succeed");
    let (new_pk, new_sk) = dilithium2::keypair();
    let new_record = record_for(&did, new_pk.as_bytes(), new_sk.as_bytes());
    let auth = signature(&new_record, &old_sk);
    let updated = net.update(2, &key, new_record.clone(), Some(auth));
    assert!(updated.unwrap_or(false), "key-rotation update must succeed");
    let retrieved = net.get(0, &key);
    assert!(retrieved.is_some(), "get after update must return the new record");
    assert_eq!(retrieved.unwrap(), new_record);
}

#[test]
fn test_delete_did_record() {
    let mut net = Net::new(2, false);
    let seed = net.address(0);
    net.bootstrap(1, vec![seed]);
    let (pk, sk) = dilithium2::keypair();
    let did = generate_did_iiot();
    let key = name_of(&did);
    let record = record_for(&did, pk.as_bytes(), sk.as_bytes());
    assert!(net.set(0, &key, record).unwrap_or(false), "store must succeed before delete test");
    let delete_msg = b"DELETE THIS DID RECORD";
    let auth = signature(delete_msg, &sk);
    let deleted = net.delete(1, &key, auth, delete_msg.to_vec());
    assert!(deleted.unwrap_or(false), "authenticated delete must succeed");
    assert!(net.get(0, &key).is_none(), "get after authenticated delete must return None");
    assert!(net.get(1, &key).is_none());
}

#[test]
fn test_invalid_signature_record_rejected_on_set() {
    let mut net = Net::new(1, true);
    let (pk, _) = dilithium2::keypair();
    let (_, wrong_sk) = dilithium2::keypair();
    let did = generate_did_iiot();
    let invalid = record_for(&did, pk.as_bytes(), wrong_sk.as_bytes());
    assert!(net.set(0, &name_of(&did), invalid.clone()).is_none());
    assert!(net.set(0, &name_of(&did), invalid).is_none());
}

#[test]
fn test_bootstrap_unreachable_peer_returns_empty() {
    let mut net = Net::new(1, false);
    let discovered = net.bootstrap(0, vec![(IP.to_string(), 15799)]);
    assert!(discovered.is_empty(), "bootstrap against an unreachable peer must return nothing");
}

#[test]
fn test_dht_publish_and_retrieve_detailed() {
    let mut net = Net::new(3, true);
    let seed = net.address(0);
    net.bootstrap(1, vec![seed.clone()]);
    net.bootstrap(2, vec![seed]);
    let (key, record) = make_record();
    assert!(net.set(1, &key, record.clone()).unwrap_or(false));
    let retrieved = net.get(2, &key).expect("the record should be there");
    assert_eq!(&retrieved[..12], b"Dilithium-2\0");
    assert_eq!(retrieved[12..12 + dilithium2::signature_bytes()].len(), 2420);
    assert_eq!(retrieved, record);
}

#[test]
fn welcome_if_new_replicates_to_joining_node() {
    let mut net = Net::new(2, false);
    let seed = net.address(0);
    net.bootstrap(1, vec![seed.clone()]);
    let (key, record) = make_record();
    assert_eq!(net.set(0, &key, record.clone()), Some(true));
    assert!(net.get(1, &key).is_some(), "node B must hold the record before C joins");
    let c = net.join();
    net.bootstrap(c, vec![seed]);
    let result = net.get(c, &key);
    assert!(result.is_some(), "node C must receive the record");
    assert_eq!(result.unwrap(), record, "replicated bytes must be identical");
}

#[test]
fn record_survives_publisher_leaving_network() {
    let mut net = Net::new(3, false);
    let seed = net.address(0);
    net.bootstrap(1, vec![seed.clone()]);
    net.bootstrap(2, vec![seed.clone()]);
    let (key, record) = make_record();
    assert_eq!(net.set(1, &key, record.clone()), Some(true), "B must store the record");
    assert!(net.get(0, &key).is_some());
    net.stop(1);
    let d = net.join();
    net.bootstrap(d, vec![seed]);
    let result = net.get(d, &key);
    assert!(result.is_some(), "record must be retrievable by D after B left the network");
    assert_eq!(result.unwrap(), record);
}

#[test]
fn worker_pool_delivers_all_responses_under_burst() {
    let mut net = Net::new(41, false);
    let seed = net.address(0);
    let mut successful = 0;
    for client in 1..41 {
        if !net.bootstrap(client, vec![seed.clone()]).is_empty() {
            successful += 1;
        }
    }
    assert_eq!(successful, 40);
}

#[test]
fn tampered_payload_rejected() {
    let mut net = Net::new(1, false);
    let (key, mut record) = make_record();
    let tamper_pos = 12 + 2420 + 10;
    record[tamper_pos] ^= 0xFF;
    assert!(net.set(0, &key, record).is_none(), "set with tampered payload must return None");
    assert!(net.get(0, &key).is_none(), "tampered record must not be stored");
}

#[test]
fn algorithm_field_injection_rejected() {
    let mut net = Net::new(1, false);
    let (key, mut record) = make_record();
    let mut alg = [0u8; 12];
    alg[..7].copy_from_slice(b"Ed25519");
    record[..12].copy_from_slice(&alg);
    assert!(net.set(0, &key, record).is_none(), "algorithm field injection must be rejected");
}

#[test]
fn downgrade_attack_after_rotation_rejected() {
    let mut net = Net::new(2, false);
    let seed = net.address(0);
    net.bootstrap(1, vec![seed]);
    let (pk1, sk1) = dilithium2::keypair();
    let did = generate_did_iiot();
    let key = name_of(&did);
    let record_v1 = record_for(&did, pk1.as_bytes(), sk1.as_bytes());
    assert_eq!(net.set(0, &key, record_v1.clone()), Some(true), "v1 store must succeed");
    let (pk2, sk2) = dilithium2::keypair();
    let record_v2 = record_for(&did, pk2.as_bytes(), sk2.as_bytes());
    let auth = signature(&record_v2, &sk1);
    assert_eq!(
        net.update(0, &key, record_v2.clone(), Some(auth)),
        Some(true),
        "legitimate rotation must succeed"
    );
    let fake_auth = signature(&record_v1, &sk1);
    let downgrade = net.update(1, &key, record_v1, Some(fake_auth));
    assert!(downgrade.is_none(), "the old key must not authorise a step back");
    assert_eq!(net.get(0, &key), Some(record_v2), "v2 must remain");
}

#[test]
fn revoked_key_cannot_authorise_further_rotation() {
    let mut net = Net::new(2, false);
    let seed = net.address(0);
    net.bootstrap(1, vec![seed]);
    let (pk1, sk1) = dilithium2::keypair();
    let did = generate_did_iiot();
    let key = name_of(&did);
    let record_v1 = record_for(&did, pk1.as_bytes(), sk1.as_bytes());
    assert_eq!(net.set(0, &key, record_v1), Some(true), "v1 store must succeed");
    let (pk2, sk2) = dilithium2::keypair();
    let record_v2 = record_for(&did, pk2.as_bytes(), sk2.as_bytes());
    let auth = signature(&record_v2, &sk1);
    assert_eq!(net.update(0, &key, record_v2, Some(auth)), Some(true));
    let (pk3, sk3) = dilithium2::keypair();
    let record_v3 = record_for(&did, pk3.as_bytes(), sk3.as_bytes());
    let bad_auth = signature(&record_v3, &sk1);
    let rejected = net.update(0, &key, record_v3.clone(), Some(bad_auth));
    assert!(rejected.is_none(), "a revoked key must not authorise a rotation");
    let good_auth = signature(&record_v3, &sk2);
    let accepted = net.update(0, &key, record_v3.clone(), Some(good_auth));
    assert_eq!(accepted, Some(true), "the current key must authorise a rotation");
    assert_eq!(net.get(1, &key), Some(record_v3), "v3 must be the current record");
}

#[test]
fn the_status_list_is_kept_by_the_issuer() {
    let mut net = Net::new(2, true);
    let seed = net.address(0);
    net.bootstrap(1, vec![seed]);
    let (issuer_pk, issuer_sk) = dilithium2::keypair();
    net.issuer = IssuerKey::Loaded(issuer_pk.as_bytes().to_vec());
    let name = "did:iiot:status-list";
    let list = build_signed_record(b"list 1", issuer_sk.as_bytes(), "Dilithium-2").unwrap();
    assert_eq!(net.set(0, name, list.clone()), Some(true));
    assert_eq!(net.get(1, name), Some(list));
    let next = build_signed_record(b"list 2", issuer_sk.as_bytes(), "Dilithium-2").unwrap();
    assert_eq!(net.update(0, name, next.clone(), None), Some(true));
    assert_eq!(net.get(1, name), Some(next));
    let (_, other_sk) = dilithium2::keypair();
    let forged = build_signed_record(b"list 3", other_sk.as_bytes(), "Dilithium-2").unwrap();
    assert_eq!(net.update(0, name, forged.clone(), None), None);
    assert_eq!(net.set(0, "did:iiot:other", forged), None);
}

#[test]
fn a_stored_record_is_refused_a_second_time() {
    let mut net = Net::new(1, true);
    let (name, record) = make_record();
    let key = key_for(&name);
    let now = net.nodes[0].now();
    let issuer = IssuerKey::Unreadable("none".to_string());
    let from = (IP.to_string(), 9);
    let protocol = &mut net.nodes[0].protocol;
    let (ok, welcome) = protocol.rpc_store([1; 20], from.clone(), key, record.clone(), now, &issuer);
    assert!(ok);
    assert_eq!(welcome.map(|n| n.id), Some([1; 20]));
    let (again, welcome) = protocol.rpc_store([1; 20], from, key, record, now, &issuer);
    assert!(!again);
    assert!(welcome.is_none());
}

#[test]
fn requests_are_answered_by_their_kind() {
    let mut net = Net::new(1, false);
    let own = net.nodes[0].node.id;
    let now = net.nodes[0].now();
    let issuer = IssuerKey::Unreadable("none".to_string());
    let from = (IP.to_string(), 9);
    let server = &mut net.nodes[0];
    let ask = |server: &mut TestServer, message: RpcMessage| {
        let frame = Frame { msg_id: 77, is_request: true, message };
        server.protocol.handle_frame(frame, (IP.to_string(), 9), now, &issuer)
    };
    let pong = ask(server, RpcMessage::Ping { sender_id: [1; 20] });
    let reply = pong.reply.unwrap();
    assert_eq!(reply.msg_id, 77);
    assert!(matches!(reply.message, RpcMessage::Pong { sender_id } if sender_id == own));
    assert_eq!(pong.welcome.unwrap().address(), Some(from));

    let refused = ask(
        server,
        RpcMessage::Store { sender_id: [1; 20], key: [2; 20], value: b"junk".to_vec() },
    );
    assert!(matches!(refused.reply.unwrap().message, RpcMessage::StoreResult { ok: false }));
    assert!(refused.welcome.is_none());

    let absent = ask(
        server,
        RpcMessage::Update {
            sender_id: [1; 20],
            key: [2; 20],
            value: vec![],
            auth_signature: vec![],
        },
    );
    assert!(matches!(absent.reply.unwrap().message, RpcMessage::UpdateResult { ok: false }));
    let absent = ask(
        server,
        RpcMessage::UpdateStatusList { sender_id: [1; 20], key: [2; 20], value: vec![] },
    );
    assert!(matches!(
        absent.reply.unwrap().message,
        RpcMessage::UpdateStatusListResult { ok: false }
    ));
    let absent = ask(
        server,
        RpcMessage::Delete {
            sender_id: [1; 20],
            key: [2; 20],
            auth_signature: vec![],
            delete_msg: vec![],
        },
    );
    assert!(matches!(absent.reply.unwrap().message, RpcMessage::DeleteResult { ok: false }));

    server.protocol.router.add_contact(Node::new([3; 20], Some(IP.to_string()), Some(3)));
    let found = ask(server, RpcMessage::FindNode { sender_id: [1; 20], key: [2; 20] });
    match found.reply.unwrap().message {
        RpcMessage::FindNodeResult { nodes } => assert_eq!(nodes[0].id, [3; 20]),
        _ => panic!("peers expected"),
    }
    let found = ask(server, RpcMessage::FindValue { sender_id: [3; 20], key: [2; 20] });
    match found.reply.unwrap().message {
        RpcMessage::FindValueNodes { nodes } => assert!(nodes.is_empty()),
        _ => panic!("peers expected"),
    }
    server.protocol.storage.set(vec![2; 20], b"value".to_vec());
    let hit = ask(server, RpcMessage::FindValue { sender_id: [3; 20], key: [2; 20] });
    match hit.reply.unwrap().message {
        RpcMessage::FindValueHit { value } => assert_eq!(value, b"value"),
        _ => panic!("value expected"),
    }

    let gone = ask(server, RpcMessage::Leave { sender_id: [3; 20] });
    assert!(gone.reply.is_none() && gone.welcome.is_none() && gone.deliver.is_none());
    assert!(server.protocol.router.is_new_node(&Node::from_id([3; 20])));
    let nothing = ask(server, RpcMessage::StoreResult { ok: true });
    assert!(nothing.reply.is_none());
}

#[test]
fn only_the_status_list_needs_the_issuer() {
    let list = digest("did:iiot:status-list");
    let store = |key: [u8; 20]| RpcMessage::Store { sender_id: [0; 20], key, value: vec![] };
    assert!(needs_issuer(&store(list)));
    assert!(!needs_issuer(&store([0; 20])));
    assert!(needs_issuer(&RpcMessage::UpdateStatusList {
        sender_id: [0; 20],
        key: [0; 20],
        value: vec![],
    }));
    assert!(!needs_issuer(&RpcMessage::Ping { sender_id: [0; 20] }));
}

#[test]
fn answers_to_other_questions_count_as_none() {
    assert!(!store_outcome(Some(RpcMessage::UpdateResult { ok: true })));
    assert!(!update_outcome(Some(RpcMessage::StoreResult { ok: true })));
    assert!(!delete_outcome(None));
    assert!(delete_outcome(Some(RpcMessage::DeleteResult { ok: true })));
    assert!(!status_list_outcome(Some(RpcMessage::UpdateStatusListResult { ok: false })));
    assert_eq!(ping_outcome(None), (false, vec![]));
    assert_eq!(
        ping_outcome(Some(RpcMessage::Pong { sender_id: [4; 20] })),
        (true, vec![4; 20])
    );
    assert!(!find_node_outcome(Some(RpcMessage::FindValueNodes { nodes: vec![] })).0);
    assert!(find_value_outcome(Some(RpcMessage::FindValueNodes { nodes: vec![] })).0);
    assert!(!any_ok(&vec![]));
    assert!(any_ok(&vec![false, true]));
}

#[test]
fn message_numbers_wrap_around() {
    let mut net = Net::new(1, false);
    let protocol = &mut net.nodes[0].protocol;
    protocol.next_msg_id = u32::MAX;
    protocol.next_frag_id = u32::MAX;
    let message = protocol.ping_message();
    assert_eq!(protocol.request(message).msg_id, u32::MAX);
    let message = protocol.ping_message();
    assert_eq!(protocol.request(message).msg_id, 0);
    assert_eq!(&protocol.send_frame(b"x").unwrap()[0][4..8], &[255; 4]);
    assert_eq!(&protocol.send_frame(b"x").unwrap()[0][4..8], &[0; 4]);
    assert!(protocol.send_frame(&vec![0; MAX_MESSAGE_SIZE + 1]).is_none());
    assert_eq!(&protocol.send_frame(b"x").unwrap()[0][4..8], &[0, 0, 0, 1]);
}

#[test]
fn a_sent_frame_arrives_at_another_node() {
    let mut net = Net::new(2, false);
    let bytes: Vec<u8> = (0..5000).map(|i| (i % 256) as u8).collect();
    let datagrams = net.nodes[0].protocol.send_frame(&bytes).unwrap();
    assert_eq!(datagrams.len(), 4);
    let receiver = &mut net.nodes[1].protocol;
    let ip = IP.to_string();
    for datagram in &datagrams[..3] {
        assert!(receiver.handle_datagram(datagram, &ip, PORT, 0).is_none());
    }
    assert_eq!(receiver.handle_datagram(&datagrams[3], &ip, PORT, 1), Some(bytes));
    assert!(receiver.handle_datagram(b"junk", &ip, PORT, 2).is_none());
}

#[test]
fn a_peer_is_sent_as_it_is() {
    let node = Node::new([5; 20], Some("1.2.3.4".to_string()), Some(9));
    let wire = WireNode::from(&node);
    assert_eq!(Node::from(wire), node);
}

#[test]
fn a_newcomer_gets_the_records_it_should_hold() {
    let near = |last: u8| {
        let mut id = [0u8; 20];
        id[15] = last;
        id
    };
    let mut server = Server::new(handler(), 20, 3, Some(near(1)), None, false);
    server.set_online(true);
    server.protocol.storage.set(near(0).to_vec(), b"at 0".to_vec());
    server.protocol.storage.set(near(12).to_vec(), b"at 12".to_vec());
    server.protocol.storage.set(b"odd".to_vec(), b"odd key".to_vec());
    let now = server.now();
    let newcomer = Node::new(near(8), Some(IP.to_string()), Some(8));
    let welcome = server.protocol.welcome_if_new(newcomer.clone(), now).unwrap();
    assert_eq!(welcome.stores, vec![(near(0), b"at 0".to_vec())]);
    assert!(welcome.ping.is_none());
    assert!(server.protocol.welcome_if_new(newcomer, now).is_none());
    let nearer = Node::new(near(4), Some(IP.to_string()), Some(4));
    let welcome = server.protocol.welcome_if_new(nearer, now).unwrap();
    assert_eq!(welcome.stores, vec![(near(0), b"at 0".to_vec())]);
    let farther = Node::new(near(64), Some(IP.to_string()), Some(64));
    let welcome = server.protocol.welcome_if_new(farther, now).unwrap();
    assert!(welcome.stores.is_empty());
}

#[test]
fn a_lookup_asks_a_few_and_then_all() {
    let node = |last: u8| {
        let mut id = [0u8; 20];
        id[15] = last;
        Node::from_id(id)
    };
    let peers: Vec<Node> = (1..6).map(node).collect();
    let mut crawl = SpiderCrawl::new(node(0), peers, 10, 2);
    let lasts = |peers: Vec<Node>| peers.iter().map(|n| n.id[15]).collect::<Vec<u8>>();
    assert_eq!(lasts(crawl.find_round()), vec![1, 2]);
    assert_eq!(lasts(crawl.find_round()), vec![3, 4, 5]);
    assert!(crawl.find_round().is_empty());
}

#[test]
fn silent_peers_are_dropped_from_a_lookup() {
    let peer = Node::from_id([1; 20]);
    let mut crawl = NodeSpiderCrawl::new(Node::from_id([0; 20]), vec![peer.clone()], 3, 3);
    assert_eq!(crawl.base.find_round().len(), 1);
    match crawl.take_answers(&vec![(peer.id, RawResponse(false, FindPayload::Empty))]) {
        NodeStep::Done { nearest } => assert!(nearest.is_empty()),
        NodeStep::Continue => panic!("no one is left to ask"),
    }
}

#[test]
fn the_value_of_the_majority_is_found_and_stored_where_it_is_missing() {
    let node = |last: u8| {
        let mut id = [0u8; 20];
        id[15] = last;
        Node::from_id(id)
    };
    let peers: Vec<Node> = (1..6).map(node).collect();
    let mut crawl = ValueSpiderCrawl::new(node(0), peers, 10, 5);
    assert_eq!(crawl.base.find_round().len(), 5);
    let value = |bytes: &[u8]| RawResponse(true, FindPayload::Value(bytes.to_vec()));
    let answers = vec![
        (node(1).id, value(b"rare")),
        (node(2).id, RawResponse(true, FindPayload::Nodes(vec![]))),
        (node(3).id, value(b"common")),
        (node(4).id, RawResponse(true, FindPayload::Empty)),
        (node(5).id, value(b"common")),
    ];
    match crawl.take_answers(&answers) {
        ValueStep::Found { value, store_at } => {
            assert_eq!(value, b"common");
            assert_eq!(store_at.map(|n| n.id[15]), Some(2));
        }
        _ => panic!("a value was sent"),
    }
}

#[test]
fn a_missed_value_leaves_the_nearest_peers() {
    let peer = Node::from_id([1; 20]);
    let mut crawl = ValueSpiderCrawl::new(Node::from_id([0; 20]), vec![peer.clone()], 3, 3);
    crawl.base.find_round();
    let tuple = (vec![2; 20], Some(IP.to_string()), Some(2));
    let bad = (vec![2; 19], None, None);
    let answers =
        vec![(peer.id, RawResponse(true, FindPayload::Nodes(vec![tuple.clone(), bad])))];
    assert!(matches!(crawl.take_answers(&answers), ValueStep::Continue));
    assert_eq!(crawl.base.find_round()[0].address(), Some((IP.to_string(), 2)));
    let answers = vec![([2; 20], RawResponse(true, FindPayload::Nodes(vec![])))];
    match crawl.take_answers(&answers) {
        ValueStep::Missed { nearest } => assert_eq!(nearest.len(), 2),
        _ => panic!("every peer was asked"),
    }
    let response = RPCFindResponse::new(RawResponse(true, FindPayload::Value(b"v".to_vec())));
    assert!(response.happened() && response.has_value());
    assert_eq!(response.get_value(), Some(b"v".to_vec()));
    assert!(response.get_node_list().is_empty());
}

#[test]
fn a_node_saves_its_state_when_it_has_neighbours() {
    let mut net = Net::new(2, false);
    let wall = net.nodes[0].now().wall;
    assert!(net.nodes[0].save_state(wall).is_none());
    let seed = net.address(0);
    net.bootstrap(1, vec![seed]);
    net.nodes[0].node.id = net.nodes[0].protocol.source_node.id;
    let state = net.nodes[0].save_state(wall).unwrap();
    assert_eq!((state.ksize, state.alpha), (20, 3));
    assert_eq!(state.id, hex::encode(net.nodes[0].node.id));
    assert_eq!(state.neighbors, vec![net.address(1)]);
}

#[test]
fn lonely_buckets_are_refreshed_and_old_records_published_again() {
    let storage = ForgetfulStorage::new(-1);
    let mut server = Server::new(handler(), 20, 3, None, Some(storage), false);
    server.set_online(true);
    let hour: u128 = 3_600_000_000_000;
    server.protocol.storage.set_at(vec![1; 20], b"old".to_vec(), 0);
    server.protocol.storage.set_at(vec![2; 20], b"new".to_vec(), 1);
    server.protocol.storage.set_at(vec![3; 5], b"odd".to_vec(), 0);
    let now = Moment { wall: server.now().wall, run: hour };
    assert_eq!(server.records_due(now), vec![([1; 20], b"old".to_vec())]);
    assert!(server.protocol.get_refresh_ids(now.wall).is_empty());
    let later = now.wall + 3601;
    let ids = server.protocol.get_refresh_ids(later);
    assert_eq!(ids.len(), 1);
    let crawls = server.refresh_lookups(&ids, later);
    assert_eq!(crawls.len(), 1);
    assert_eq!(crawls[0].base.node.id, ids[0]);
    assert!(server.protocol.get_refresh_ids(later).is_empty());
}

#[test]
fn a_node_that_is_not_listening_only_reads_its_storage() {
    let mut server = Server::new(handler(), 20, 3, Some([7; 20]), None, false);
    assert_eq!(server.node.id, [7; 20]);
    let issuer = IssuerKey::Unreadable("none".to_string());
    let now = server.now();
    assert!(matches!(server.begin_get("x", now, &issuer), GetStep::Done(None)));
    assert!(server.begin_publish([1; 20], now).is_none());
    assert!(server.begin_bootstrap(vec![]).is_none());
    assert!(server.neighbors(now.wall).is_empty());
    let (name, record) = make_record();
    server.protocol.storage.set(key_for(&name).to_vec(), record.clone());
    match server.begin_get(&name, now, &issuer) {
        GetStep::Done(found) => assert_eq!(found, Some(record)),
        GetStep::Search(_) => panic!("the record is here"),
    }
    server.protocol.storage.set(key_for("bad").to_vec(), b"junk".to_vec());
    assert!(matches!(server.begin_get("bad", now, &issuer), GetStep::Done(None)));
}

#[test]
fn nodes_without_an_id_get_different_ones() {
    let a = Server::new(handler(), 20, 3, None, None, false);
    let b = Server::new(handler(), 20, 3, None, None, true);
    assert_ne!(a.node.id, b.node.id);
    assert!(a.protocol.judge.caches.is_none());
    assert!(b.protocol.judge.caches.is_some());
}

#[test]
fn a_record_is_kept_where_it_belongs_and_read_back() {
    let mut net = Net::new(3, true);
    let seed = net.address(0);
    net.bootstrap(1, vec![seed.clone()]);
    net.bootstrap(2, vec![seed]);
    for _ in 0..5 {
        let (name, record) = make_record();
        assert_eq!(net.set(0, &name, record.clone()), Some(true));
        for i in 0..3 {
            assert_eq!(net.get(i, &name), Some(record.clone()));
        }
        let target = Node::from_id(key_for(&name));
        let distances: Vec<u128> = net.nodes.iter().map(|s| s.node.distance_to(&target)).collect();
        let here = net.nodes[0].protocol.storage.get(&key_for(&name)).is_some();
        if distances[0] < distances[1].max(distances[2]) {
            assert!(here);
        }
    }
}

#[test]
fn a_publisher_keeps_a_copy_if_it_is_among_the_nearest() {
    let key = [0u8; 20];
    let id = |last: u8| {
        let mut id = [0u8; 20];
        id[15] = last;
        id
    };
    let peers: Vec<Node> = [1u8, 2, 3].iter().map(|last| Node::from_id(id(*last))).collect();
    let now = Moment { wall: 0, run: 0 };
    let keeps = |own: u8, ksize: usize| {
        let mut server = Server::new(handler(), ksize, 3, Some(id(own)), None, false);
        let outbox = server.publish_set(key, &peers, b"record", now);
        assert_eq!(outbox.len(), 3);
        let kept = server.protocol.storage.get_at(&key, 0);
        kept == Some(b"record".to_vec())
    };
    assert!(keeps(9, 20));
    assert!(keeps(9, 4));
    assert!(!keeps(9, 3));
    assert!(keeps(3, 3));
    assert!(!keeps(3, 2));
    assert!(keeps(0, 1));
    let mut server = Server::new(handler(), 4, 3, Some(id(9)), None, false);
    server.publish_update("name", &peers, b"newer", &None, now);
    assert_eq!(server.protocol.storage.get_at(&key_for("name"), 0), Some(b"newer".to_vec()));
}

#[test]
fn a_publisher_holds_its_record_whatever_the_name() {
    for _ in 0..8 {
        let mut net = Net::new(2, false);
        let seed = net.address(0);
        net.bootstrap(1, vec![seed]);
        let (key, record) = make_record();
        assert_eq!(net.set(0, &key, record.clone()), Some(true));
        for node in &net.nodes {
            assert_eq!(node.protocol.storage.get(&key_for(&key)), Some(record.clone()));
        }
    }
}
