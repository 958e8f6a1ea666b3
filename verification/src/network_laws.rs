//! What a node keeps and publishes again, in terms of distances and times.

use vstd::prelude::*;

use crate::auth_handler::AuthFault;
use crate::auth_handler::IssuerModel;
use crate::auth_handler::SignatureVerifierHandler;
use crate::contact_laws::a_lookup_names_the_nearest_first;
use crate::contact_laws::a_lookup_touches_its_bucket;
use crate::document::did_text;
use crate::document::last_part;
use crate::network::Server;
use crate::network::addresses;
use crate::network::after_lookups;
use crate::network::deletes_everywhere;
use crate::network::hex_text;
use crate::network::lists_due;
use crate::network::lookups_change_no_answer;
use crate::network::nearer_than;
use crate::network::updates_everywhere;
use crate::node::Node;
use crate::node::fold_id;
use crate::protocol::Moment;
use crate::protocol::ProtocolModel;
use crate::protocol::RpcMessage;
use crate::protocol::searched;
use crate::roles::Reply;
use crate::roles::address_ip;
use crate::roles::address_port;
use crate::roles::next_step;
use crate::roles::replies_of;
use crate::routing::TableModel;
use crate::routing_laws::buckets_partition_the_keyspace;
use crate::routing_laws::local_node_is_no_contact;
use crate::seqs::filter_members;
use crate::storage::StorageModel;
use crate::text::decimal;
use crate::text::first_index_is;
use crate::text_laws::a_numeral_is_read_back;
use crate::utils::ID_LEN;

verus! {

/// A record that is published is also kept here exactly if fewer than `k` of the
/// peers that it goes to are nearer to its key than this node, by the XOR of the
/// folded IDs.  Otherwise nothing changes here.
pub proof fn a_near_node_keeps_what_it_publishes<H: SignatureVerifierHandler>(
    server: Server<H>,
    key: [u8; ID_LEN],
    nodes: Seq<Node>,
    value: Seq<u8>,
    now: Moment,
)
    ensures
        ({
            let target = fold_id(key@);
            let own = server.node.long_id ^ target;
            let nearer = nodes.filter(|peer: Node| (peer.long_id ^ target) < own);
            let after = server.having_published(key, nodes, value, now);
            &&& nearer.len() < server.ksize ==> after.storage.read(key@, now.run) == Some(value)
            &&& nearer.len() >= server.ksize ==> after == server.protocol@
            &&& after.router == server.protocol@.router
        }),
{
    let target = fold_id(key@);
    let own = server.node.long_id ^ target;
    assert((|peer: Node| (peer.long_id ^ target) < own) =~= nearer_than(server.node.long_id, key));
}

/// With fewer than `k` peers to publish to a node always keeps the record, and with
/// at least `k` peers that are all nearer it never does.
pub proof fn a_lone_node_keeps_and_a_far_one_does_not<H: SignatureVerifierHandler>(
    server: Server<H>,
    key: [u8; ID_LEN],
    nodes: Seq<Node>,
    value: Seq<u8>,
    now: Moment,
)
    ensures
        nodes.len() < server.ksize ==> server.having_published(
            key,
            nodes,
            value,
            now,
        ).storage.read(key@, now.run) == Some(value),
        nodes.len() >= server.ksize && (forall|i: int|
            0 <= i < nodes.len() ==> ((#[trigger] nodes[i]).long_id ^ fold_id(key@)) < (
            server.node.long_id ^ fold_id(key@))) ==> server.having_published(
            key,
            nodes,
            value,
            now,
        ) == server.protocol@,
        server.ksize > 0 && (forall|i: int|
            0 <= i < nodes.len() ==> ((#[trigger] nodes[i]).long_id ^ fold_id(key@)) >= (
            server.node.long_id ^ fold_id(key@))) ==> server.having_published(
            key,
            nodes,
            value,
            now,
        ).storage.read(key@, now.run) == Some(value),
{
    let nearer = nearer_than(server.node.long_id, key);
    nodes.lemma_filter_len(nearer);
    filter_members(nodes, nearer);
    if forall|i: int|
        0 <= i < nodes.len() ==> ((#[trigger] nodes[i]).long_id ^ fold_id(key@)) < (
        server.node.long_id ^ fold_id(key@)) {
        assert forall|i: int| 0 <= i < nodes.len() implies nearer(#[trigger] nodes[i]) by {}
        crate::seqs::filter_of_all(nodes, nearer);
    }
    if forall|i: int|
        0 <= i < nodes.len() ==> ((#[trigger] nodes[i]).long_id ^ fold_id(key@)) >= (
        server.node.long_id ^ fold_id(key@)) {
        assert forall|i: int| 0 <= i < nodes.len() implies !nearer(#[trigger] nodes[i]) by {}
    }
}

/// A record is published again exactly if it was written an hour ago or earlier and
/// is still alive.
pub proof fn records_are_published_again_after_an_hour(
    storage: StorageModel,
    run: u128,
    records: Seq<([u8; ID_LEN], Vec<u8>)>,
    key: [u8; ID_LEN],
)
    requires
        lists_due(storage, run, records),
        storage.ttl >= -1,
    ensures
        (exists|i: int| 0 <= i < records.len() && (#[trigger] records[i]).0 == key) <==> (
        storage.entries.contains_key(key@) && run >= storage.entries[key@].1 + 3_600_000_000_000
            && (storage.ttl == -1 || run <= storage.entries[key@].1 + storage.ttl
            * 1_000_000_000)),
        forall|i: int|
            0 <= i < records.len() && (#[trigger] records[i]).0 == key ==> records[i].1@
                == storage.entries[key@].0,
        forall|i: int, j: int|
            0 <= i < j < records.len() ==> (#[trigger] records[i]).0 != (#[trigger] records[j]).0,
{
    if storage.aged(key@, 3600, run) {
        let i = choose|i: int| 0 <= i < records.len() && (#[trigger] records[i]).0@ == key@;
        assert(records[i].0 =~= key);
    }
}

/// Lookups set the time of exactly those buckets whose range holds one of the IDs.
pub proof fn lookups_touch_the_buckets_of_their_ids(
    table: TableModel,
    ids: Seq<[u8; ID_LEN]>,
    wall: u64,
    bucket: int,
)
    requires
        table.wf(),
        0 <= bucket < table.buckets.len(),
    ensures
        ({
            let before = table.buckets[bucket];
            let after = after_lookups(table, ids, wall).buckets[bucket];
            let hit = exists|i: int|
                0 <= i < ids.len() && before.lo <= fold_id(#[trigger] ids[i]@) <= before.hi;
            &&& after_lookups(table, ids, wall).buckets.len() == table.buckets.len()
            &&& hit ==> after.updated == wall
            &&& !hit ==> after.updated == before.updated
            &&& after.lo == before.lo && after.hi == before.hi && after.nodes == before.nodes
                && after.spares == before.spares
        }),
    decreases ids.len(),
{
    if ids.len() > 0 {
        let rest = ids.drop_last();
        let before = table.buckets[bucket];
        lookups_touch_the_buckets_of_their_ids(table, rest, wall, bucket);
        lookups_change_no_answer(table, rest, wall);
        let middle = after_lookups(table, rest, wall);
        a_lookup_touches_its_bucket(middle, fold_id(ids.last()@), wall, bucket);
        assert(ids[ids.len() - 1] == ids.last());
        assert forall|i: int| 0 <= i < rest.len() implies #[trigger] rest[i] == ids[i] by {}
        if exists|i: int|
            0 <= i < ids.len() && before.lo <= fold_id(#[trigger] ids[i]@) <= before.hi {
            let i = choose|i: int|
                0 <= i < ids.len() && before.lo <= fold_id(#[trigger] ids[i]@) <= before.hi;
            if i < rest.len() {
                assert(rest[i] == ids[i]);
            }
        }
        if exists|i: int|
            0 <= i < rest.len() && before.lo <= fold_id(#[trigger] rest[i]@) <= before.hi {
            let i = choose|i: int|
                0 <= i < rest.len() && before.lo <= fold_id(#[trigger] rest[i]@) <= before.hi;
            assert(ids[i] == rest[i]);
        }
    }
}

/// Deciding what to store at a new peer touches exactly the buckets whose range
/// holds the key of a record that is alive.
pub proof fn welcoming_touches_the_buckets_of_live_keys(
    state: ProtocolModel,
    run: u128,
    wall: u64,
    bucket: int,
)
    requires
        state.router.wf(),
        0 <= bucket < state.router.buckets.len(),
    ensures
        ({
            let before = state.router.buckets[bucket];
            let after = state.router.touched(searched(state, run), wall).buckets[bucket];
            let hit = exists|key: Seq<u8>|
                key.len() == 20 && (#[trigger] state.storage.read(key, run)) is Some && before.lo
                    <= fold_id(key) <= before.hi;
            &&& hit ==> after.updated == wall
            &&& !hit ==> after.updated == before.updated
            &&& after.lo == before.lo && after.hi == before.hi && after.nodes == before.nodes
                && after.spares == before.spares
        }),
{
    let before = state.router.buckets[bucket];
    if exists|key: Seq<u8>|
        key.len() == 20 && (#[trigger] state.storage.read(key, run)) is Some && before.lo <= fold_id(
            key,
        ) <= before.hi {
        let key = choose|key: Seq<u8>|
            key.len() == 20 && (#[trigger] state.storage.read(key, run)) is Some && before.lo
                <= fold_id(key) <= before.hi;
        buckets_partition_the_keyspace(state.router, fold_id(key));
        assert(before.covers(fold_id(key)));
        assert(state.storage.live(key, run));
        assert(searched(state, run)(bucket));
    }
    if searched(state, run)(bucket) {
        let key = choose|key: Seq<u8>| #[trigger]
            state.storage.live(key, run) && key.len() == ID_LEN && state.router.home(fold_id(key))
                == bucket;
        buckets_partition_the_keyspace(state.router, fold_id(key));
        assert(before.covers(fold_id(key)));
        assert(state.storage.read(key, run) is Some);
    }
}

/// What a hexadecimal digit stands for.
pub open spec fn hex_value(c: char) -> int {
    if '0' <= c <= '9' {
        c as int - '0' as int
    } else {
        c as int - 'a' as int + 10
    }
}

/// Two hexadecimal digits show each byte: read as a numeral they give it back.
pub proof fn two_digits_show_a_byte(bytes: Seq<u8>, at: int)
    requires
        0 <= at < bytes.len(),
    ensures
        hex_text(bytes).len() == 2 * bytes.len(),
        ({
            let high = hex_text(bytes)[2 * at];
            let low = hex_text(bytes)[2 * at + 1];
            &&& '0' <= high <= '9' || 'a' <= high <= 'f'
            &&& '0' <= low <= '9' || 'a' <= low <= 'f'
            &&& 16 * hex_value(high) + hex_value(low) == bytes[at]
        }),
{
}

/// An address is saved for every peer that has both an IP and a port, and for no
/// other.
pub proof fn every_full_address_is_saved(nodes: Seq<Node>, at: int)
    requires
        0 <= at < nodes.len(),
    ensures
        nodes[at].ip is Some && nodes[at].port is Some ==> addresses(nodes).contains(
            (nodes[at].ip->0, nodes[at].port->0),
        ),
        forall|i: int|
            0 <= i < addresses(nodes).len() ==> exists|j: int|
                0 <= j < nodes.len() && (#[trigger] nodes[j]).ip == Some(
                    (#[trigger] addresses(nodes)[i]).0,
                ) && nodes[j].port == Some(addresses(nodes)[i].1),
{
    let known = |n: Node| crate::network::has_address(n);
    filter_members(nodes, known);
    let kept = nodes.filter(known);
    let list = addresses(nodes);
    assert(nodes.contains(nodes[at]));
    if nodes[at].ip is Some && nodes[at].port is Some {
        assert(kept.contains(nodes[at]));
        let i = choose|i: int| 0 <= i < kept.len() && kept[i] == nodes[at];
        assert(list[i] == (nodes[at].ip->0, nodes[at].port->0));
    }
    assert forall|i: int| 0 <= i < list.len() implies exists|j: int|
        0 <= j < nodes.len() && (#[trigger] nodes[j]).ip == Some((#[trigger] list[i]).0)
            && nodes[j].port == Some(list[i].1) by {
        assert(nodes.contains(kept[i]) && known(kept[i]));
        let j = choose|j: int| 0 <= j < nodes.len() && nodes[j] == kept[i];
        assert(nodes[j].ip == Some(list[i].0) && nodes[j].port == Some(list[i].1));
    }
}

/// The record of a DID is stored under what stands behind the last colon; the DID of
/// a UUID is the UUID behind `did:iiot:`.
pub proof fn a_name_is_what_follows_the_last_colon(front: Seq<char>, name: Seq<char>)
    requires
        !name.contains(':'),
    ensures
        last_part(front.push(':') + name) == name,
        last_part(name) == name,
        did_text(name) == seq!['d', 'i', 'd', ':', 'i', 'i', 'o', 't', ':'] + name,
        last_part(did_text(name)) == name,
{
    behind_a_colon(front, name);
    no_colon(name);
    reveal_strlit("did:iiot:");
    let prefix = seq!['d', 'i', 'd', ':', 'i', 'i', 'o', 't', ':'];
    assert("did:iiot:"@ =~= prefix);
    let start = seq!['d', 'i', 'd', ':', 'i', 'i', 'o', 't'];
    behind_a_colon(start, name);
    assert(start.push(':') =~= prefix);
}

proof fn behind_a_colon(front: Seq<char>, name: Seq<char>)
    requires
        !name.contains(':'),
    ensures
        last_part(front.push(':') + name) == name,
    decreases name.len(),
{
    let text = front.push(':') + name;
    if name.len() == 0 {
        assert(text =~= front.push(':'));
    } else {
        let rest = name.drop_last();
        assert(name.contains(name[name.len() - 1]));
        assert forall|i: int| 0 <= i < rest.len() implies rest[i] != ':' by {
            assert(name.contains(name[i]));
        }
        behind_a_colon(front, rest);
        assert(text.drop_last() =~= front.push(':') + rest);
        assert(text.last() == name.last());
        assert(rest.push(name.last()) =~= name);
    }
}

proof fn no_colon(name: Seq<char>)
    requires
        !name.contains(':'),
    ensures
        last_part(name) == name,
    decreases name.len(),
{
    if name.len() > 0 {
        let rest = name.drop_last();
        assert(name.contains(name[name.len() - 1]));
        assert forall|i: int| 0 <= i < rest.len() implies rest[i] != ':' by {
            assert(name.contains(name[i]));
        }
        no_colon(rest);
        assert(rest.push(name.last()) =~= name);
    } else {
        assert(last_part(name) =~= name);
    }
}

/// An address is read as it is written: the IP before the first colon and the port
/// behind it.
pub proof fn an_address_is_read_back(ip: Seq<char>, port: u16)
    requires
        !ip.contains(':'),
    ensures
        address_ip(ip.push(':') + decimal(port as nat)) == ip,
        address_port(ip.push(':') + decimal(port as nat)) == Some(port as nat),
        address_port(ip) is None,
{
    let text = ip.push(':') + decimal(port as nat);
    assert forall|i: int| 0 <= i < ip.len() implies text[i] != ':' by {
        assert(text[i] == ip[i]);
        assert(ip.contains(ip[i]));
    }
    assert(text[ip.len() as int] == ':');
    first_index_is(text, ':', ip.len() as int);
    assert(address_ip(text) =~= ip);
    assert(text.skip(ip.len() as int + 1) =~= decimal(port as nat));
    a_numeral_is_read_back(port as nat, 65535);
    without_the_character(ip, ':');
}

proof fn without_the_character(text: Seq<char>, c: char)
    requires
        !text.contains(c),
    ensures
        crate::text::first_index(text, c) == text.len(),
    decreases text.len(),
{
    if text.len() > 0 {
        let rest = text.drop_first();
        assert(text.contains(text[0]));
        assert forall|i: int| 0 <= i < rest.len() implies rest[i] != c by {
            assert(text.contains(text[i + 1]));
        }
        without_the_character(rest, c);
    }
}

/// An attempt that fails is followed by another until as many were made as are
/// allowed; one that succeeds is the last.
pub proof fn attempts_are_limited(succeeded: bool, attempt: u32, attempts: u32)
    ensures
        succeeded <==> next_step(succeeded, attempt, attempts) is Done,
        !succeeded && attempt < attempts <==> next_step(succeeded, attempt, attempts) is TryAgain,
        !succeeded && attempt >= attempts <==> next_step(succeeded, attempt, attempts) is GiveUp,
{
}

/// The count of a kind of reply is how often it is among the replies.
pub proof fn replies_are_counted(replies: Seq<Reply>, kind: Reply)
    ensures
        replies_of(replies, kind) == replies.to_multiset().count(kind),
    decreases replies.len(),
{
    broadcast use {vstd::seq_lib::to_multiset_build, vstd::seq_lib::to_multiset_len};

    if replies.len() > 0 {
        replies_are_counted(replies.drop_last(), kind);
        assert(replies =~= replies.drop_last().push(replies.last()));
    } else {
        assert(replies =~= Seq::empty());
        assert(Seq::<Reply>::empty().to_multiset().len() == 0);
    }
}

/// A search starts from the contacts nearest to the key, in order of their XOR
/// distance, at most `k` of them; from all other contacts where there are fewer.
pub proof fn a_search_starts_near_the_key<H: SignatureVerifierHandler>(
    server: Server<H>,
    key: [u8; ID_LEN],
    bucket: int,
    at: int,
)
    requires
        server.wf(),
        0 <= bucket < server.protocol@.router.buckets.len(),
        0 <= at < server.protocol@.router.buckets[bucket].nodes.len(),
    ensures
        ({
            let found = server.starting_points(key);
            let contact = server.protocol@.router.buckets[bucket].nodes[at];
            &&& found.len() <= server.protocol@.router.ksize
            &&& forall|i: int, j: int|
                0 <= i < j < found.len() ==> (fold_id(key@) ^ (#[trigger] found[i]).long_id) <= (
                fold_id(key@) ^ (#[trigger] found[j]).long_id)
            &&& forall|i: int| 0 <= i < found.len() ==> (#[trigger] found[i]).id != key
            &&& found.len() < server.protocol@.router.ksize && contact.id != key ==> found.contains(
                contact,
            )
        }),
{
    a_lookup_names_the_nearest_first(
        server.protocol@.router,
        Node::key(key),
        None,
        bucket,
        at,
    );
}

/// A node that is not listening has no neighbours to tell.  One that is has its
/// contacts in order of their XOR distance from it, at most `k` of them, and all of
/// them where there are fewer; its table is then touched where its own ID belongs.
pub proof fn neighbors_are_the_contacts_nearest_to_this_node<H: SignatureVerifierHandler>(
    server: Server<H>,
    wall: u64,
    bucket: int,
    at: int,
)
    requires
        server.wf(),
        0 <= bucket < server.protocol@.router.buckets.len(),
        0 <= at < server.protocol@.router.buckets[bucket].nodes.len(),
    ensures
        ({
            let found = server.own_neighbors();
            let contact = server.protocol@.router.buckets[bucket].nodes[at];
            let own = server.node.long_id;
            let after = server.having_looked_around(wall);
            &&& !server.online ==> found.len() == 0 && after == server.protocol@
            &&& forall|i: int, j: int|
                0 <= i < j < found.len() ==> (own ^ (#[trigger] found[i]).long_id) <= (own ^ (
                #[trigger] found[j]).long_id)
            &&& found.len() <= server.protocol@.router.ksize
            &&& server.online && found.len() < server.protocol@.router.ksize ==> found.contains(
                contact,
            )
            &&& after.storage == server.protocol@.storage
            &&& server.online ==> after.router.buckets[bucket].updated == if
                server.protocol@.router.buckets[bucket].lo <= own
                <= server.protocol@.router.buckets[bucket].hi {
                wall
            } else {
                server.protocol@.router.buckets[bucket].updated
            }
        }),
{
    let table = server.protocol@.router;
    let contact = table.buckets[bucket].nodes[at];
    a_lookup_names_the_nearest_first(table, server.node, None, bucket, at);
    local_node_is_no_contact(table, bucket);
    assert(contact.id != table.local.id);
    a_lookup_touches_its_bucket(table, server.node.long_id, wall, bucket);
}

/// Whoever has a record decides on its replacement, but for the status list where no
/// signature is given: there the issuer decides.  No signature counts as an empty one
/// otherwise.
pub proof fn a_replacement_is_permitted_by_its_owner<H: SignatureVerifierHandler>(
    server: Server<H>,
    name: Seq<char>,
    value: Seq<u8>,
    old_value: Seq<u8>,
    auth: Vec<u8>,
    issuer: IssuerModel,
)
    ensures
        server.may_update(name, value, old_value, Some(auth), issuer) <==> (
        server.protocol.judge.handler.update_verdict(value, old_value, auth@) == Ok::<
            bool,
            AuthFault,
        >(true)),
        name == "did:iiot:status-list"@ ==> (server.may_update(
            name,
            value,
            old_value,
            None,
            issuer,
        ) <==> server.protocol.judge.handler.issuer_verdict(value, issuer) == Ok::<
            bool,
            AuthFault,
        >(true)),
        name != "did:iiot:status-list"@ ==> (server.may_update(
            name,
            value,
            old_value,
            None,
            issuer,
        ) <==> server.protocol.judge.handler.update_verdict(value, old_value, Seq::empty()) == Ok::<
            bool,
            AuthFault,
        >(true)),
{
}

/// The replacement and the deletion of a record go to every peer that was found, in
/// order, with the key, the record and the signature as they are; a status list goes
/// as one.
pub proof fn every_peer_is_told_of_a_change(
    replacing: Seq<(Node, RpcMessage)>,
    deleting: Seq<(Node, RpcMessage)>,
    sender_id: [u8; ID_LEN],
    nodes: Seq<Node>,
    is_list: bool,
    key: [u8; ID_LEN],
    value: Seq<u8>,
    auth: Seq<u8>,
    message: Seq<u8>,
    at: int,
)
    requires
        updates_everywhere(replacing, sender_id, nodes, is_list, key, value, auth),
        deletes_everywhere(deleting, sender_id, nodes, key, auth, message),
        0 <= at < nodes.len(),
    ensures
        replacing.len() == nodes.len(),
        deleting.len() == nodes.len(),
        replacing[at].0 == nodes[at],
        deleting[at].0 == nodes[at],
        is_list ==> replacing[at].1 is UpdateStatusList && replacing[at].1->UpdateStatusList_sender_id
            == sender_id && replacing[at].1->UpdateStatusList_key == key
            && replacing[at].1->UpdateStatusList_value@ == value,
        !is_list ==> replacing[at].1 is Update && replacing[at].1->Update_sender_id == sender_id
            && replacing[at].1->Update_key == key && replacing[at].1->Update_value@ == value
            && replacing[at].1->Update_auth_signature@ == auth,
        deleting[at].1 is Delete,
        deleting[at].1->Delete_sender_id == sender_id,
        deleting[at].1->Delete_key == key,
        deleting[at].1->Delete_auth_signature@ == auth,
        deleting[at].1->delete_msg@ == message,
{
}

/// A peer is shown by its address: what is shown of a peer that has one is read back
/// as its IP and its port.
pub proof fn a_label_is_read_back(node: Node)
    requires
        node.ip is Some,
        node.port is Some,
        !node.ip->0@.contains(':'),
    ensures
        address_ip(node.label()) == node.ip->0@,
        address_port(node.label()) == Some(node.port->0 as nat),
{
    reveal_strlit(":");
    let ip = node.ip->0@;
    assert(node.label() =~= ip.push(':') + decimal(node.port->0 as nat));
    an_address_is_read_back(ip, node.port->0);
}

/// Peers have one home exactly if they are shown alike, as long as both have a full
/// address and no colon in their IPs.
pub proof fn one_home_is_one_label(a: Node, b: Node)
    requires
        a.ip is Some && a.port is Some && !a.ip->0@.contains(':'),
        b.ip is Some && b.port is Some && !b.ip->0@.contains(':'),
    ensures
        a.same_home(&b) <==> a.label() == b.label(),
{
    a_label_is_read_back(a);
    a_label_is_read_back(b);
}

} // verus!
