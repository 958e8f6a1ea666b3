//! What a request brings about, in terms of what is stored before and after it.

use vstd::prelude::*;
use vstd::utf8::encode_utf8;

use crate::auth_handler::AuthFault;
use crate::auth_handler::IssuerModel;
use crate::auth_handler::SignatureVerifierHandler;
use crate::contact_laws::a_lookup_touches_its_bucket;
use crate::crawling::PeerTuple;
use crate::crawling::RawResponse;
use crate::crawling::peer_of;
use crate::crawling::peers_in;
use crate::judge::Judge;
use crate::node::Node;
use crate::node::fold_id;
use crate::protocol::KademliaProtocol;
use crate::protocol::Moment;
use crate::protocol::RpcMessage;
use crate::protocol::WireNode;
use crate::protocol::find_node_outcome;
use crate::protocol::involves_issuer;
use crate::protocol::later;
use crate::protocol::names;
use crate::protocol::sender;
use crate::routing_laws::neighbors_are_near_and_few;
use crate::seqs::filter_of_all;
use crate::signature_cache::sha256_of;
use crate::utils::ID_LEN;
use crate::utils::id_of_bytes;
use crate::utils::sha1_of;

verus! {

/// Numbers count up, and start over behind the highest.
pub proof fn numbers_count_up(number: u32, count: nat)
    ensures
        later(number, count) as int == (number + count) % 0x1_0000_0000,
    decreases count,
{
    if count > 0 {
        numbers_count_up(number, (count - 1) as nat);
    }
}

/// The peers that are named to a requester stand in order of their XOR distance
/// from the key, there are at most `k` of them, and neither the requester nor the
/// key is among them.
pub proof fn a_requester_is_named_the_nearest_others<H: SignatureVerifierHandler>(
    node: KademliaProtocol<H>,
    key: [u8; ID_LEN],
    source: Node,
)
    requires
        node.wf(),
    ensures
        ({
            let named = node.named_to(key, source);
            &&& named.len() <= node@.router.ksize
            &&& forall|i: int, j: int|
                0 <= i < j < named.len() ==> (fold_id(key@) ^ (#[trigger] named[i]).long_id) <= (
                fold_id(key@) ^ (#[trigger] named[j]).long_id)
            &&& forall|i: int|
                0 <= i < named.len() ==> (#[trigger] named[i]).id != source.id && named[i].id != key
        }),
{
    let table = node@.router;
    let named = node.named_to(key, source);
    neighbors_are_near_and_few(table, Node::key(key), Some(source));
    assert forall|i: int| 0 <= i < named.len() implies named.contains(#[trigger] named[i]) by {}
    crate::ranking_laws::arranging_sorts_by_distance(
        fold_id(key@),
        table.candidates(Node::key(key), Some(source)),
    );
}

/// A request for the peers near a key is answered with exactly the peers that are
/// named to its sender, as they are: their IDs, IPs and ports, in that order.
pub proof fn a_request_for_peers_is_answered<H: SignatureVerifierHandler>(
    before: KademliaProtocol<H>,
    after: KademliaProtocol<H>,
    sender_id: [u8; ID_LEN],
    key: [u8; ID_LEN],
    address: (String, u16),
    now: Moment,
    issuer: IssuerModel,
    reply: Option<RpcMessage>,
    welcome: Option<Node>,
)
    requires
        before.dispatches(
            &after,
            RpcMessage::FindNode { sender_id, key },
            address,
            now,
            issuer,
            reply,
            welcome,
        ),
    ensures
        ({
            let source = Node {
                id: sender_id,
                ip: Some(address.0),
                port: Some(address.1),
                long_id: fold_id(sender_id@),
            };
            let named = before.named_to(key, source);
            &&& welcome == Some(source)
            &&& reply matches Some(RpcMessage::FindNodeResult { nodes }) && nodes@.len()
                == named.len() && forall|i: int|
                0 <= i < named.len() ==> (#[trigger] nodes@[i]).id == named[i].id && nodes@[i].ip
                    == named[i].ip && nodes@[i].port == named[i].port
            &&& after@.storage == before@.storage
        }),
{
}

/// A request for a value is answered with the value that is stored and alive, and
/// otherwise with the peers near its key.
pub proof fn a_request_for_a_value_is_answered<H: SignatureVerifierHandler>(
    before: KademliaProtocol<H>,
    after: KademliaProtocol<H>,
    sender_id: [u8; ID_LEN],
    key: [u8; ID_LEN],
    address: (String, u16),
    now: Moment,
    issuer: IssuerModel,
    reply: Option<RpcMessage>,
    welcome: Option<Node>,
)
    requires
        before.dispatches(
            &after,
            RpcMessage::FindValue { sender_id, key },
            address,
            now,
            issuer,
            reply,
            welcome,
        ),
    ensures
        before@.storage.read(key@, now.run) matches Some(stored) ==> (
        reply matches Some(RpcMessage::FindValueHit { value }) && value@ == stored),
        before@.storage.read(key@, now.run) is None ==> ({
            let named = before.named_to(key, sender(sender_id, address));
            reply matches Some(RpcMessage::FindValueNodes { nodes }) && nodes@.len() == named.len()
                && forall|i: int|
                0 <= i < named.len() ==> (#[trigger] nodes@[i]).id == named[i].id && nodes@[i].ip
                    == named[i].ip && nodes@[i].port == named[i].port
        }),
        after@.storage == before@.storage,
{
}

/// A record is replaced exactly if there is one under the key and the handler
/// consents to the replacement, given the whole of both records and of the
/// authorisation.  A reader then finds the new one, and otherwise what was there
/// before.
pub proof fn a_record_is_replaced_with_consent<H: SignatureVerifierHandler>(
    before: KademliaProtocol<H>,
    after: KademliaProtocol<H>,
    sender_id: [u8; ID_LEN],
    key: [u8; ID_LEN],
    value: Vec<u8>,
    auth_signature: Vec<u8>,
    address: (String, u16),
    now: Moment,
    issuer: IssuerModel,
    reply: Option<RpcMessage>,
    welcome: Option<Node>,
    other: Seq<u8>,
)
    requires
        before.dispatches(
            &after,
            RpcMessage::Update { sender_id, key, value, auth_signature },
            address,
            now,
            issuer,
            reply,
            welcome,
        ),
    ensures
        ({
            let stored = before@.storage.read(key@, now.run);
            let ok = stored is Some && before.judge.handler.update_verdict(
                value@,
                stored->0,
                auth_signature@,
            ) == Ok::<bool, AuthFault>(true);
            &&& reply == Some(RpcMessage::UpdateResult { ok })
            &&& welcome is Some <==> ok
            &&& after@.storage.read(key@, now.run) == if ok {
                Some(value@)
            } else {
                stored
            }
            &&& other != key@ ==> after@.storage.read(other, now.run) == before@.storage.read(
                other,
                now.run,
            )
            &&& after@.router == before@.router
        }),
{
}

/// The status list is replaced exactly if there is one under the key and the handler
/// judges the new one to be the issuer's.
pub proof fn a_status_list_is_replaced_by_the_issuer<H: SignatureVerifierHandler>(
    before: KademliaProtocol<H>,
    after: KademliaProtocol<H>,
    sender_id: [u8; ID_LEN],
    key: [u8; ID_LEN],
    value: Vec<u8>,
    address: (String, u16),
    now: Moment,
    issuer: IssuerModel,
    reply: Option<RpcMessage>,
    welcome: Option<Node>,
    other: Seq<u8>,
)
    requires
        before.dispatches(
            &after,
            RpcMessage::UpdateStatusList { sender_id, key, value },
            address,
            now,
            issuer,
            reply,
            welcome,
        ),
    ensures
        ({
            let stored = before@.storage.read(key@, now.run);
            let ok = stored is Some && before.judge.handler.issuer_verdict(value@, issuer) == Ok::<
                bool,
                AuthFault,
            >(true);
            &&& reply == Some(RpcMessage::UpdateStatusListResult { ok })
            &&& welcome is Some <==> ok
            &&& after@.storage.read(key@, now.run) == if ok {
                Some(value@)
            } else {
                stored
            }
            &&& other != key@ ==> after@.storage.read(other, now.run) == before@.storage.read(
                other,
                now.run,
            )
        }),
{
}

/// A record is deleted exactly if there is one under the key and the handler
/// consents, given the whole of the record, of the authorisation and of the request.
/// Nothing is found under the key then, and other records stay.
pub proof fn a_record_is_deleted_with_consent<H: SignatureVerifierHandler>(
    before: KademliaProtocol<H>,
    after: KademliaProtocol<H>,
    sender_id: [u8; ID_LEN],
    key: [u8; ID_LEN],
    auth_signature: Vec<u8>,
    delete_msg: Vec<u8>,
    address: (String, u16),
    now: Moment,
    issuer: IssuerModel,
    reply: Option<RpcMessage>,
    welcome: Option<Node>,
    other: Seq<u8>,
)
    requires
        before.dispatches(
            &after,
            RpcMessage::Delete { sender_id, key, auth_signature, delete_msg },
            address,
            now,
            issuer,
            reply,
            welcome,
        ),
    ensures
        ({
            let stored = before@.storage.read(key@, now.run);
            let ok = stored is Some && before.judge.handler.delete_verdict(
                stored->0,
                auth_signature@,
                delete_msg@,
            ) == Ok::<bool, AuthFault>(true);
            &&& reply == Some(RpcMessage::DeleteResult { ok })
            &&& welcome is Some <==> ok
            &&& after@.storage.read(key@, now.run) == if ok {
                None
            } else {
                stored
            }
            &&& other != key@ ==> after@.storage.read(other, now.run) == before@.storage.read(
                other,
                now.run,
            )
        }),
{
}

/// A record is stored exactly if nothing is found under its key and it is valid:
/// under its own key or, as the status list, under the issuer's.  This is what is
/// judged by a node without caches.  A reader then finds it, and otherwise what was
/// there before.
pub proof fn a_valid_record_is_stored_at_a_free_key<H: SignatureVerifierHandler>(
    before: KademliaProtocol<H>,
    after: KademliaProtocol<H>,
    sender_id: [u8; ID_LEN],
    key: [u8; ID_LEN],
    value: Vec<u8>,
    address: (String, u16),
    now: Moment,
    issuer: IssuerModel,
    reply: Option<RpcMessage>,
    welcome: Option<Node>,
    other: Seq<u8>,
)
    requires
        before.judge.caches is None,
        before.dispatches(
            &after,
            RpcMessage::Store { sender_id, key, value },
            address,
            now,
            issuer,
            reply,
            welcome,
        ),
    ensures
        ({
            let stored = before@.storage.read(key@, now.run);
            let verdict = if key@ == sha1_of(encode_utf8("did:iiot:status-list"@)) {
                before.judge.handler.issuer_verdict(value@, issuer)
            } else {
                before.judge.handler.record_verdict(value@)
            };
            let ok = stored is None && verdict == Ok::<bool, AuthFault>(true);
            &&& reply == Some(RpcMessage::StoreResult { ok })
            &&& welcome is Some <==> ok
            &&& after@.storage.read(key@, now.run) == if ok {
                Some(value@)
            } else {
                stored
            }
            &&& other != key@ ==> after@.storage.read(other, now.run) == before@.storage.read(
                other,
                now.run,
            )
        }),
{
}

/// A ping is answered with the ID of this node, whose state stays as it is, and the
/// sender of a ping is to be welcomed at the address that the ping came from.
pub proof fn a_ping_is_answered<H: SignatureVerifierHandler>(
    before: KademliaProtocol<H>,
    after: KademliaProtocol<H>,
    sender_id: [u8; ID_LEN],
    address: (String, u16),
    now: Moment,
    issuer: IssuerModel,
    reply: Option<RpcMessage>,
    welcome: Option<Node>,
)
    requires
        before.dispatches(
            &after,
            RpcMessage::Ping { sender_id },
            address,
            now,
            issuer,
            reply,
            welcome,
        ),
    ensures
        reply == Some(RpcMessage::Pong { sender_id: before@.source.id }),
        welcome == Some(
            Node {
                id: sender_id,
                ip: Some(address.0),
                port: Some(address.1),
                long_id: fold_id(sender_id@),
            },
        ),
        after@ == before@,
{
}

/// A peer that leaves is no contact afterwards, nothing is replied, and what is
/// stored stays.
pub proof fn a_leaving_peer_is_forgotten<H: SignatureVerifierHandler>(
    before: KademliaProtocol<H>,
    after: KademliaProtocol<H>,
    sender_id: [u8; ID_LEN],
    address: (String, u16),
    now: Moment,
    issuer: IssuerModel,
    reply: Option<RpcMessage>,
    welcome: Option<Node>,
)
    requires
        before.wf(),
        before.dispatches(
            &after,
            RpcMessage::Leave { sender_id },
            address,
            now,
            issuer,
            reply,
            welcome,
        ),
    ensures
        reply is None,
        welcome is None,
        after@.storage == before@.storage,
        !after@.router.knows(sender(sender_id, address)),
{
    crate::routing_laws::a_removed_peer_is_unknown(
        before@.router,
        sender(sender_id, address),
    );
}

/// A judge without caches asks the issuer's key about the status list and the
/// record's own key about any other record, and takes no outcome but a yes for one.
pub proof fn a_judge_takes_only_a_yes<H: SignatureVerifierHandler>(
    before: Judge<H>,
    after: Judge<H>,
    is_list: bool,
    value: Seq<u8>,
    issuer: IssuerModel,
    valid: bool,
)
    requires
        before.caches is None,
        before.gives(after, is_list, value, issuer, valid),
    ensures
        is_list ==> valid == (before.handler.issuer_verdict(value, issuer) == Ok::<
            bool,
            AuthFault,
        >(true)),
        !is_list ==> valid == (before.handler.record_verdict(value) == Ok::<bool, AuthFault>(true)),
        after.caches is None,
        after.handler == before.handler,
{
}

/// A judge with caches asks the one for status lists about status lists and the
/// other about other records, under the digest of the whole record.  Fresh caches
/// hold up to 4096 verdicts for an hour each.
pub proof fn a_cache_answers_for_its_own_records<H: SignatureVerifierHandler>(
    before: Judge<H>,
    after: Judge<H>,
    is_list: bool,
    value: Seq<u8>,
    issuer: IssuerModel,
    valid: bool,
)
    requires
        before.caches is Some,
        before.gives(after, is_list, value, issuer, valid),
    ensures
        ({
            let old = before.caches->0;
            let new = after.caches->0;
            let (asked, then) = if is_list {
                (old.status_lists@, new.status_lists@)
            } else {
                (old.records@, new.records@)
            };
            let fresh = if is_list {
                before.handler.issuer_verdict(value, issuer)
            } else {
                before.handler.record_verdict(value)
            };
            &&& after.caches is Some
            &&& is_list ==> new.records@ == old.records@
            &&& !is_list ==> new.status_lists@ == old.status_lists@
            &&& valid == (fresh == Ok::<bool, AuthFault>(true)) || (asked.contains_key(
                sha256_of(value),
            ) && valid == asked[sha256_of(value)])
            &&& then.contains_key(sha256_of(value)) && then[sha256_of(value)] == valid
            &&& old.fresh() ==> valid == (fresh == Ok::<bool, AuthFault>(true))
        }),
        before.caches->0.fresh() ==> before.caches->0.records.limits() == (4096u64, 3600u64)
            && before.caches->0.status_lists.limits() == (4096u64, 3600u64),
{
    let old = before.caches->0;
    assert(old.of(true) == old.status_lists && old.of(false) == old.records);
    let new = after.caches->0;
    assert(new.of(true) == new.status_lists && new.of(false) == new.records);
    assert(old.fresh() ==> old.of(is_list)@ == crate::signature_cache::no_results());
}

/// Only storing the status list and replacing it need the issuer's key.
pub proof fn the_issuer_is_asked_about_the_status_list(
    sender_id: [u8; ID_LEN],
    key: [u8; ID_LEN],
    value: Vec<u8>,
    message: RpcMessage,
)
    ensures
        involves_issuer(RpcMessage::Store { sender_id, key, value }) <==> key@ == sha1_of(
            encode_utf8("did:iiot:status-list"@),
        ),
        involves_issuer(RpcMessage::UpdateStatusList { sender_id, key, value }),
        !(message is Store) && !(message is UpdateStatusList) ==> !involves_issuer(message),
{
}

/// The peers that are named to a requester are those that its lookup makes of the
/// answer: what is sent arrives, with ID, IP, port and folded ID, in order.
pub proof fn a_lookup_learns_the_named_peers<H: SignatureVerifierHandler>(
    before: KademliaProtocol<H>,
    after: KademliaProtocol<H>,
    sender_id: [u8; ID_LEN],
    key: [u8; ID_LEN],
    address: (String, u16),
    now: Moment,
    issuer: IssuerModel,
    nodes: Vec<WireNode>,
    welcome: Option<Node>,
    response: RawResponse,
)
    requires
        before.dispatches(
            &after,
            RpcMessage::FindNode { sender_id, key },
            address,
            now,
            issuer,
            Some(RpcMessage::FindNodeResult { nodes }),
            welcome,
        ),
        call_ensures(
            find_node_outcome,
            (Some(RpcMessage::FindNodeResult { nodes }),),
            response,
        ),
        forall|i: int|
            0 <= i < before.named_to(key, sender(sender_id, address)).len() ==> (
            #[trigger] before.named_to(key, sender(sender_id, address))[i]).wf(),
    ensures
        response.0,
        peers_in(response.1) == before.named_to(key, sender(sender_id, address)),
{
    let named = before.named_to(key, sender(sender_id, address));
    let tuples = response.1->Nodes_0@;
    assert(names(tuples, nodes@));
    let sized = |t: PeerTuple| t.0@.len() == ID_LEN;
    assert forall|i: int| 0 <= i < tuples.len() implies sized(#[trigger] tuples[i]) && peer_of(
        tuples[i],
    ) == named[i] by {
        assert(nodes@[i].id == named[i].id);
        assert(tuples[i].0@ == named[i].id@);
        id_of_bytes(named[i].id);
        assert(named[i].wf());
    }
    filter_of_all(tuples, sized);
    let learned = peers_in(response.1);
    assert(learned =~= tuples.map_values(|t: PeerTuple| peer_of(t)));
    assert(learned =~= named);
}

/// A lookup touches the time of its bucket alone: what is stored, and who is a
/// contact or a spare, stays.
pub proof fn a_lookup_changes_no_contact<H: SignatureVerifierHandler>(
    node: KademliaProtocol<H>,
    key: [u8; ID_LEN],
    now: Moment,
    bucket: int,
)
    requires
        node.wf(),
        0 <= bucket < node@.router.buckets.len(),
    ensures
        ({
            let after = node.having_looked_up(key, now);
            let before = node@.router.buckets[bucket];
            &&& after.storage == node@.storage && after.source == node@.source
            &&& after.router.buckets.len() == node@.router.buckets.len()
            &&& after.router.buckets[bucket].nodes == before.nodes
            &&& after.router.buckets[bucket].spares == before.spares
            &&& after.router.buckets[bucket].updated == if before.lo <= fold_id(key@)
                <= before.hi {
                now.wall
            } else {
                before.updated
            }
        }),
{
    a_lookup_touches_its_bucket(node@.router, fold_id(key@), now.wall, bucket);
}

} // verus!
