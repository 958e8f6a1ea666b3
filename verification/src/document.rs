//! DID documents and the records that carry them.
//!
//! A document of the method `did:iiot` has a Dilithium key for authentication
//! and a Kyber key for key agreement.  Its record is stored under the last part
//! of its DID.

use serde_json::Value;
use uuid::Uuid;
use vstd::prelude::*;
use vstd::string::StrSliceExecFns;
use vstd::utf8::encode_utf8;

use crate::auth_handler::document_key;
use crate::auth_handler::key_bytes;
use crate::auth_handler::key_text;
use crate::auth_handler::self_signed;
use crate::auth_handler::AuthFault;
use crate::crypto::base64url::b64url_encode;
use crate::crypto::base64url::b64url_encoded;
use crate::crypto::base64url::unpadded_stays;
use crate::crypto::dilithium::dilithium2_pair;
use crate::crypto::dilithium::dilithium_signature;
use crate::crypto::dilithium::keypair_d2;
use crate::crypto::factory::scheme_of;
use crate::crypto::factory::scheme_pair;
use crate::crypto::factory::Scheme;
use crate::crypto::key_manager::keypair_k512;
use crate::crypto::signature_verifier::family_of;
use crate::crypto::signature_verifier::level_of;
use crate::crypto::signature_verifier::resolved;
use crate::crypto::signature_verifier::VerifierError;
use crate::crypto::signature_verifier::VerifierFault;
use crate::json::array_value;
use crate::json::json_items;
use crate::json::json_members;
use crate::json::json_of;
use crate::json::json_pretty;
use crate::json::json_read;
use crate::json::json_written;
use crate::json::object_value;
use crate::json::parse_json;
use crate::json::plain;
use crate::json::pretty_json;
use crate::json::text_value;
use crate::json::write_json;
use crate::json::JsonModel;
use crate::record::build_signed_record;
use crate::record::names_an_algorithm;
use crate::record::record_of;
use crate::text::after_hyphen;
use crate::text::before_hyphen;
use crate::text::digits_value;
use crate::text::end_trimmed;
use crate::text::first_index_is;
use crate::text::leading_white;
use crate::text::trimmed;
use crate::text::unsigned_value;

verus! {

/// A hexadecimal digit in lower case.
pub open spec fn is_hex_digit(c: char) -> bool {
    '0' <= c <= '9' || 'a' <= c <= 'f'
}

/// The text of a UUID: 32 hexadecimal digits in groups of 8, 4, 4, 4 and 12, with
/// hyphens between the groups.
pub open spec fn is_uuid(text: Seq<char>) -> bool {
    &&& text.len() == 36
    &&& forall|i: int|
        0 <= i < 36 ==> if i == 8 || i == 13 || i == 18 || i == 23 {
            #[trigger] text[i] == '-'
        } else {
            is_hex_digit(text[i])
        }
}

/// `Uuid::new_v4` as text.  It is random, so no more is claimed of it than its
/// form.
#[verifier::external_body]
fn new_uuid() -> (uuid: String)
    ensures
        is_uuid(uuid@),
{
    Uuid::new_v4().to_string()
}

/// The UUID is one that was drawn at random.
pub closed spec fn drawn_uuid(text: Seq<char>) -> bool {
    exists|uuid: String| uuid@ == text && #[trigger] call_ensures(new_uuid, (), uuid)
}

/// The DID with the given UUID.
pub open spec fn did_text(uuid: Seq<char>) -> Seq<char> {
    "did:iiot:"@ + uuid
}

/// The DID with the given UUID.
pub fn did_for(uuid: &str) -> (did: String)
    ensures
        did@ == did_text(uuid@),
{
    let mut did: String = "did:iiot:".to_owned();
    did.append(uuid);
    did
}

/// A DID with a random UUID.
pub fn generate_did_iiot() -> (did: String)
    ensures
        exists|uuid: Seq<char>|
            did@ == #[trigger] did_text(uuid) && is_uuid(uuid) && drawn_uuid(uuid),
{
    let uuid: String = new_uuid();
    assert(drawn_uuid(uuid@));
    did_for(uuid.as_str())
}

/// The text behind the last colon; all of it where there is none.
pub open spec fn last_part(text: Seq<char>) -> Seq<char>
    decreases text.len(),
{
    if text.len() == 0 || text.last() == ':' {
        Seq::empty()
    } else {
        last_part(text.drop_last()).push(text.last())
    }
}

/// The name under which the record of a DID is stored: the text behind its last
/// colon.
pub fn dht_key(did: &str) -> (name: String)
    ensures
        name@ == last_part(did@),
{
    let len: usize = did.unicode_len();
    let mut from: usize = len;
    assert(did@.take(len as int) =~= did@);
    assert(did@.skip(len as int) =~= Seq::empty());
    while from > 0 && did.get_char(from - 1) != ':'
        invariant
            len == did@.len(),
            from <= len,
            last_part(did@) =~= last_part(did@.take(from as int)) + did@.skip(from as int),
        decreases from,
    {
        assert(did@.take(from as int).drop_last() =~= did@.take(from - 1));
        assert(did@.skip(from - 1) =~= seq![did@[from - 1]] + did@.skip(from as int));
        from = from - 1;
    }
    assert(last_part(did@.take(from as int)) =~= Seq::empty());
    let name: &str = did.substring_char(from, len);
    assert(name@ =~= did@.skip(from as int));
    name.to_owned()
}

/// A public key as a JWK.
pub open spec fn jwk(curve: Seq<char>, x: Seq<char>) -> JsonModel {
    JsonModel::Object(
        Map::empty().insert("kty"@, JsonModel::Text("OKP"@)).insert(
            "crv"@,
            JsonModel::Text(curve),
        ).insert("x"@, JsonModel::Text(x)),
    )
}

/// A verification method of a DID.
pub open spec fn method(
    did: Seq<char>,
    fragment: Seq<char>,
    curve: Seq<char>,
    x: Seq<char>,
) -> JsonModel {
    JsonModel::Object(
        Map::empty().insert("id"@, JsonModel::Text(did + fragment)).insert(
            "type"@,
            JsonModel::Text("JsonWebKey2020"@),
        ).insert("controller"@, JsonModel::Text(did)).insert("publicKeyJwk"@, jwk(curve, x)),
    )
}

/// The service of a DID.
pub open spec fn service(did: Seq<char>) -> JsonModel {
    JsonModel::Object(
        Map::empty().insert("id"@, JsonModel::Text(did + "#device"@)).insert(
            "type"@,
            JsonModel::Text("DeviceAgent"@),
        ).insert("serviceEndpoint"@, JsonModel::Text("http://example.com/device"@)),
    )
}

/// The document of a DID with a Dilithium and a Kyber key, both as base64url text.
pub open spec fn did_document(
    did: Seq<char>,
    dilithium_x: Seq<char>,
    kyber_x: Seq<char>,
) -> JsonModel {
    JsonModel::Object(
        Map::empty().insert(
            "@context"@,
            JsonModel::Array(seq![JsonModel::Text("https://www.w3.org/ns/did/v1"@)]),
        ).insert("id"@, JsonModel::Text(did)).insert(
            "authentication"@,
            JsonModel::Array(seq![JsonModel::Text(did + "#k0"@)]),
        ).insert("keyAgreement"@, JsonModel::Array(seq![JsonModel::Text(did + "#k1"@)])).insert(
            "service"@,
            JsonModel::Array(seq![service(did)]),
        ).insert(
            "verificationMethod"@,
            JsonModel::Array(
                seq![
                    method(did, "#k0"@, "Dilithium2"@, dilithium_x),
                    method(did, "#k1"@, "Kyber512"@, kyber_x),
                ],
            ),
        ),
    )
}

fn add_member(members: &mut Vec<(String, Value)>, key: &str, value: Value)
    ensures
        json_members(final(members)@) == json_members(old(members)@).insert(key@, json_of(value)),
{
    members.push((key.to_owned(), value));
    assert(members@.drop_last() =~= old(members)@);
}

fn add_text(members: &mut Vec<(String, Value)>, key: &str, text: &str)
    ensures
        json_members(final(members)@) == json_members(old(members)@).insert(
            key@,
            JsonModel::Text(text@),
        ),
{
    let value: Value = text_value(text.to_owned());
    add_member(members, key, value);
}

fn array_of_one(value: Value) -> (array: Value)
    ensures
        json_of(array) == JsonModel::Array(seq![json_of(value)]),
{
    let mut items: Vec<Value> = Vec::new();
    items.push(value);
    assert(json_items(items@) =~= seq![json_of(value)]);
    array_value(items)
}

fn joined(front: &str, back: &str) -> (text: String)
    ensures
        text@ == front@ + back@,
{
    let mut text: String = front.to_owned();
    text.append(back);
    text
}

fn build_jwk(curve: &str, x: &str) -> (value: Value)
    ensures
        json_of(value) == jwk(curve@, x@),
{
    let mut members: Vec<(String, Value)> = Vec::new();
    add_text(&mut members, "kty", "OKP");
    add_text(&mut members, "crv", curve);
    add_text(&mut members, "x", x);
    object_value(members)
}

fn build_method(did: &str, fragment: &str, curve: &str, x: &str) -> (value: Value)
    ensures
        json_of(value) == method(did@, fragment@, curve@, x@),
{
    let mut members: Vec<(String, Value)> = Vec::new();
    add_text(&mut members, "id", joined(did, fragment).as_str());
    add_text(&mut members, "type", "JsonWebKey2020");
    add_text(&mut members, "controller", did);
    let key: Value = build_jwk(curve, x);
    add_member(&mut members, "publicKeyJwk", key);
    object_value(members)
}

fn build_service(did: &str) -> (value: Value)
    ensures
        json_of(value) == service(did@),
{
    let mut members: Vec<(String, Value)> = Vec::new();
    add_text(&mut members, "id", joined(did, "#device").as_str());
    add_text(&mut members, "type", "DeviceAgent");
    add_text(&mut members, "serviceEndpoint", "http://example.com/device");
    object_value(members)
}

/// The document of a DID with a Dilithium and a Kyber public key.
pub fn build_did_document(did: &str, dilithium_pk: &[u8], kyber_pk: &[u8]) -> (document: Value)
    ensures
        json_of(document) == did_document(
            did@,
            b64url_encoded(dilithium_pk@),
            b64url_encoded(kyber_pk@),
        ),
{
    let dilithium_x: String = b64url_encode(dilithium_pk);
    let kyber_x: String = b64url_encode(kyber_pk);
    let mut methods: Vec<Value> = Vec::new();
    methods.push(build_method(did, "#k0", "Dilithium2", dilithium_x.as_str()));
    methods.push(build_method(did, "#k1", "Kyber512", kyber_x.as_str()));
    assert(json_items(methods@) =~= seq![
        method(did@, "#k0"@, "Dilithium2"@, dilithium_x@),
        method(did@, "#k1"@, "Kyber512"@, kyber_x@),
    ]);
    let mut members: Vec<(String, Value)> = Vec::new();
    let context: Value = array_of_one(text_value("https://www.w3.org/ns/did/v1".to_owned()));
    add_member(&mut members, "@context", context);
    add_text(&mut members, "id", did);
    let authentication: Value = array_of_one(text_value(joined(did, "#k0")));
    add_member(&mut members, "authentication", authentication);
    let agreement: Value = array_of_one(text_value(joined(did, "#k1")));
    add_member(&mut members, "keyAgreement", agreement);
    let services: Value = array_of_one(build_service(did));
    add_member(&mut members, "service", services);
    let methods: Value = array_value(methods);
    add_member(&mut members, "verificationMethod", methods);
    object_value(members)
}

/// The document in its canonical form: without white space, and with the members
/// of objects in the order of their keys.
pub fn encode_did_document(document: &Value) -> (data: Vec<u8>)
    ensures
        data@ == json_written(json_of(*document)),
        plain(json_of(*document), 100) ==> json_read(data@) == Ok::<_, Seq<char>>(
            json_of(*document),
        ),
{
    write_json(document)
}

proof fn plain_insert(
    members: Map<Seq<char>, JsonModel>,
    key: Seq<char>,
    value: JsonModel,
    depth: nat,
)
    requires
        plain(JsonModel::Object(members), depth),
        depth > 0,
        plain(value, (depth - 1) as nat),
    ensures
        plain(JsonModel::Object(members.insert(key, value)), depth),
{
    reveal_with_fuel(plain, 2);
    let grown = members.insert(key, value);
    assert forall|other: Seq<char>| #[trigger] grown.contains_key(other) implies plain(
        grown[other],
        (depth - 1) as nat,
    ) by {
        if other == key {
            assert(grown[other] == value);
        } else {
            let model = JsonModel::Object(members);
            assert(model->Object_0.contains_key(other));
            assert(plain(model->Object_0[other], (depth - 1) as nat));
            assert(grown[other] == members[other]);
        }
    }
}

proof fn plain_one(value: JsonModel, depth: nat)
    requires
        depth > 0,
        plain(value, (depth - 1) as nat),
    ensures
        plain(JsonModel::Array(seq![value]), depth),
{
}

proof fn jwk_is_plain(curve: Seq<char>, x: Seq<char>)
    ensures
        plain(jwk(curve, x), 97),
{
    let none = Map::<Seq<char>, JsonModel>::empty();
    assert(plain(JsonModel::Object(none), 97));
    let first = none.insert("kty"@, JsonModel::Text("OKP"@));
    plain_insert(none, "kty"@, JsonModel::Text("OKP"@), 97);
    let second = first.insert("crv"@, JsonModel::Text(curve));
    plain_insert(first, "crv"@, JsonModel::Text(curve), 97);
    plain_insert(second, "x"@, JsonModel::Text(x), 97);
}

proof fn method_is_plain(did: Seq<char>, fragment: Seq<char>, curve: Seq<char>, x: Seq<char>)
    ensures
        plain(method(did, fragment, curve, x), 98),
{
    let none = Map::<Seq<char>, JsonModel>::empty();
    assert(plain(JsonModel::Object(none), 98));
    let first = none.insert("id"@, JsonModel::Text(did + fragment));
    plain_insert(none, "id"@, JsonModel::Text(did + fragment), 98);
    let second = first.insert("type"@, JsonModel::Text("JsonWebKey2020"@));
    plain_insert(first, "type"@, JsonModel::Text("JsonWebKey2020"@), 98);
    let third = second.insert("controller"@, JsonModel::Text(did));
    plain_insert(second, "controller"@, JsonModel::Text(did), 98);
    jwk_is_plain(curve, x);
    plain_insert(third, "publicKeyJwk"@, jwk(curve, x), 98);
}

proof fn service_is_plain(did: Seq<char>)
    ensures
        plain(service(did), 98),
{
    let none = Map::<Seq<char>, JsonModel>::empty();
    assert(plain(JsonModel::Object(none), 98));
    let first = none.insert("id"@, JsonModel::Text(did + "#device"@));
    plain_insert(none, "id"@, JsonModel::Text(did + "#device"@), 98);
    let second = first.insert("type"@, JsonModel::Text("DeviceAgent"@));
    plain_insert(first, "type"@, JsonModel::Text("DeviceAgent"@), 98);
    plain_insert(
        second,
        "serviceEndpoint"@,
        JsonModel::Text("http://example.com/device"@),
        98,
    );
}

/// The document of a DID is shallow and has no numbers, and its authentication key
/// is where readers look for it.
pub proof fn a_document_shows_its_key(did: Seq<char>, dilithium_x: Seq<char>, kyber_x: Seq<char>)
    ensures
        plain(did_document(did, dilithium_x, kyber_x), 100),
        key_text(did_document(did, dilithium_x, kyber_x)) == Some(dilithium_x),
{
    let none = Map::<Seq<char>, JsonModel>::empty();
    let context = JsonModel::Array(seq![JsonModel::Text("https://www.w3.org/ns/did/v1"@)]);
    let authentication = JsonModel::Array(seq![JsonModel::Text(did + "#k0"@)]);
    let agreement = JsonModel::Array(seq![JsonModel::Text(did + "#k1"@)]);
    let services = JsonModel::Array(seq![service(did)]);
    let items = seq![
        method(did, "#k0"@, "Dilithium2"@, dilithium_x),
        method(did, "#k1"@, "Kyber512"@, kyber_x),
    ];
    let methods = JsonModel::Array(items);
    plain_one(JsonModel::Text("https://www.w3.org/ns/did/v1"@), 99);
    plain_one(JsonModel::Text(did + "#k0"@), 99);
    plain_one(JsonModel::Text(did + "#k1"@), 99);
    service_is_plain(did);
    plain_one(service(did), 99);
    method_is_plain(did, "#k0"@, "Dilithium2"@, dilithium_x);
    method_is_plain(did, "#k1"@, "Kyber512"@, kyber_x);
    assert(plain(methods, 99)) by {
        assert forall|i: int| 0 <= i < items.len() implies plain(#[trigger] items[i], 98) by {
            assert(items[i] == items[0] || items[i] == items[1]);
        }
    }
    assert(plain(JsonModel::Object(none), 100));
    let first = none.insert("@context"@, context);
    plain_insert(none, "@context"@, context, 100);
    let second = first.insert("id"@, JsonModel::Text(did));
    plain_insert(first, "id"@, JsonModel::Text(did), 100);
    let third = second.insert("authentication"@, authentication);
    plain_insert(second, "authentication"@, authentication, 100);
    let fourth = third.insert("keyAgreement"@, agreement);
    plain_insert(third, "keyAgreement"@, agreement, 100);
    let fifth = fourth.insert("service"@, services);
    plain_insert(fourth, "service"@, services, 100);
    plain_insert(fifth, "verificationMethod"@, methods, 100);
    assert(items[0] == method(did, "#k0"@, "Dilithium2"@, dilithium_x));
}

/// What the name `Dilithium-2` means to writers and readers of records.
pub proof fn dilithium2_is_resolved()
    ensures
        names_an_algorithm("Dilithium-2"@),
        scheme_of("Dilithium-2"@) == Ok::<_, VerifierFault>(Scheme::Dilithium),
        resolved("Dilithium-2"@) == Ok::<_, VerifierFault>(("Dilithium"@, 2420usize)),
{
    reveal_strlit("Dilithium-2");
    reveal_strlit("Dilithium");
    reveal_strlit("RSA");
    reveal_strlit("Ed25519");
    let name = "Dilithium-2"@;
    let family = "Dilithium"@;
    assert(vstd::utf8::is_ascii_chars(name));
    vstd::utf8::is_ascii_chars_encode_utf8(name);
    assert forall|i: int| 0 <= i < encode_utf8(name).len() implies encode_utf8(name)[i] != 0 by {
        assert(name[i] as u8 == encode_utf8(name)[i]);
    }
    first_index_is(name, '-', 9);
    assert(before_hyphen(name) =~= family);
    assert(leading_white(family) == 0);
    assert(family.skip(0) =~= family);
    assert(end_trimmed(family) == family);
    assert(family_of(name) == family);
    assert(family.len() != "RSA"@.len());
    assert(family.len() != "Ed25519"@.len());
    let rest = name.skip(10);
    assert(after_hyphen(name) == Some(rest));
    assert(rest =~= seq!['2']);
    assert(leading_white(rest) == 0);
    assert(rest.skip(0) =~= rest);
    assert(end_trimmed(rest) == rest);
    assert(trimmed(rest) == rest);
    assert(rest.drop_last() =~= Seq::<char>::empty());
    assert(digits_value(rest.drop_last()) == 0);
    assert(digits_value(rest) == 2);
    assert(unsigned_value(rest, 255) == Some(2nat));
    assert(level_of(name) == Some(2nat));
}

/// The record of a DID whose document holds the two public keys, signed with the
/// private Dilithium key.  It verifies if that was made together with the public
/// one.
pub fn record_for(did: &str, public_key: &[u8], private_key: &[u8], kyber_pk: &[u8]) -> (record: Result<
    Vec<u8>,
    VerifierError,
>)
    ensures
        record is Ok <==> (private_key@.len() == 2560 || private_key@.len() == 4032
            || private_key@.len() == 4896),
        record matches Ok(bytes) ==> ({
            let document = json_written(
                did_document(did@, b64url_encoded(public_key@), b64url_encoded(kyber_pk@)),
            );
            dilithium_signature(private_key@, document) matches Ok(signature) && bytes@
                == record_of("Dilithium-2"@, signature, document)
        }),
        public_key@.len() == 1312 && private_key@.len() == 2560 && dilithium2_pair(
            public_key@,
            private_key@,
        ) ==> (record matches Ok(bytes) && self_signed(bytes@) == Ok::<bool, AuthFault>(true)),
{
    let document: Value = build_did_document(did, public_key, kyber_pk);
    let data: Vec<u8> = encode_did_document(&document);
    let encoded: String = b64url_encode(public_key);
    proof {
        let model = did_document(did@, b64url_encoded(public_key@), b64url_encoded(kyber_pk@));
        dilithium2_is_resolved();
        a_document_shows_its_key(
            did@,
            b64url_encoded(public_key@),
            b64url_encoded(kyber_pk@),
        );
        assert(json_read(data@) == Ok::<_, Seq<char>>(model));
        unpadded_stays(encoded@);
        assert(key_bytes(encoded@) == Ok::<_, AuthFault>(public_key@));
        assert(document_key(data@) == Ok::<_, AuthFault>(public_key@));
        if public_key@.len() == 1312 && private_key@.len() == 2560 && dilithium2_pair(
            public_key@,
            private_key@,
        ) {
            assert(scheme_pair(Scheme::Dilithium, public_key@, private_key@));
        }
    }
    build_signed_record(data.as_slice(), private_key, "Dilithium-2")
}

/// The record is that of the DID with the UUID, whose document holds the two
/// public keys, and the name is the one to store it under.
pub open spec fn is_record_for(
    name: Seq<char>,
    record: Seq<u8>,
    uuid: Seq<char>,
    public_key: Seq<u8>,
    private_key: Seq<u8>,
    kyber_pk: Seq<u8>,
) -> bool {
    let document = json_written(
        did_document(did_text(uuid), b64url_encoded(public_key), b64url_encoded(kyber_pk)),
    );
    &&& name == last_part(did_text(uuid))
    &&& dilithium_signature(private_key, document) matches Ok(signature) && record == record_of(
        "Dilithium-2"@,
        signature,
        document,
    )
}

/// A fresh record and the name to store it under: the record of a DID with a
/// random UUID, signed with a fresh key.  It verifies.
pub fn make_record() -> (fresh: (String, Vec<u8>))
    ensures
        exists|
            uuid: Seq<char>,
            public_key: Seq<u8>,
            private_key: Seq<u8>,
            kyber_pk: Seq<u8>,
        | #[trigger]
            is_record_for(fresh.0@, fresh.1@, uuid, public_key, private_key, kyber_pk) && is_uuid(
                uuid,
            ) && drawn_uuid(uuid) && dilithium2_pair(public_key, private_key),
        self_signed(fresh.1@) == Ok::<bool, AuthFault>(true),
{
    let (public_key, private_key) = keypair_d2();
    let (kyber_pk, _) = keypair_k512();
    let did: String = generate_did_iiot();
    let name: String = dht_key(did.as_str());
    let record: Vec<u8> = match record_for(
        did.as_str(),
        public_key.as_slice(),
        private_key.as_slice(),
        kyber_pk.as_slice(),
    ) {
        Ok(record) => record,
        Err(_) => Vec::new(),
    };
    let ghost called = name@;
    let ghost bytes = record@;
    proof {
        let uuid = choose|uuid: Seq<char>|
            did@ == #[trigger] did_text(uuid) && is_uuid(uuid) && drawn_uuid(uuid);
        assert(is_record_for(called, bytes, uuid, public_key@, private_key@, kyber_pk@));
    }
    let fresh: (String, Vec<u8>) = (name, record);
    assert(fresh.0@ == called && fresh.1@ == bytes);
    fresh
}

/// Length of everything before the document in a record signed with Dilithium at
/// level 2.
pub const DILITHIUM2_DOCUMENT_AT: usize = 2432;

/// The document in a record signed with Dilithium at level 2, on indented lines.
/// There is none where the record is too short or the document is not JSON.
pub fn decode_record(record: &[u8]) -> (text: Option<String>)
    ensures
        match text {
            Some(text) => record@.len() >= DILITHIUM2_DOCUMENT_AT && (json_read(
                record@.skip(DILITHIUM2_DOCUMENT_AT as int),
            ) matches Ok(model) && text@ == json_pretty(model)),
            None => record@.len() < DILITHIUM2_DOCUMENT_AT || json_read(
                record@.skip(DILITHIUM2_DOCUMENT_AT as int),
            ) is Err,
        },
{
    if record.len() < DILITHIUM2_DOCUMENT_AT {
        return None;
    }
    let document: &[u8] = vstd::slice::slice_subrange(
        record,
        DILITHIUM2_DOCUMENT_AT,
        record.len(),
    );
    assert(document@ =~= record@.skip(DILITHIUM2_DOCUMENT_AT as int));
    match parse_json(document) {
        Ok(value) => Some(pretty_json(&value)),
        Err(_) => None,
    }
}

} // verus!
