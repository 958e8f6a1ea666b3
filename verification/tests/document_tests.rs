//! DID documents, their records, and what a node started as a program does.

use auth_kademlia::auth_handler::public_key_from_did_doc;
use auth_kademlia::auth_handler::DIDSignatureVerifierHandler;
use auth_kademlia::auth_handler::SignatureVerifierHandler;
use auth_kademlia::document::build_did_document;
use auth_kademlia::document::decode_record;
use auth_kademlia::document::dht_key;
use auth_kademlia::document::did_for;
use auth_kademlia::document::encode_did_document;
use auth_kademlia::document::generate_did_iiot;
use auth_kademlia::document::make_record;
use auth_kademlia::document::record_for;
use auth_kademlia::roles::after_bootstrap;
use auth_kademlia::roles::after_lookup;
use auth_kademlia::roles::after_publishing;
use auth_kademlia::roles::invalid_pool_size;
use auth_kademlia::roles::parse_address;
use auth_kademlia::roles::parse_address_or;
use auth_kademlia::roles::reply_of;
use auth_kademlia::roles::AddressError;
use auth_kademlia::roles::NextStep;
use auth_kademlia::roles::Reply;
use auth_kademlia::roles::Tally;

use pqcrypto_dilithium::dilithium2;
use pqcrypto_traits::sign::PublicKey;
use pqcrypto_traits::sign::SecretKey;
use serde_json::Value;

fn handler() -> DIDSignatureVerifierHandler {
    DIDSignatureVerifierHandler::new("irrelevant.bin".to_string())
}

fn canonical_json(doc: &Value) -> Vec<u8> {
    encode_did_document(doc)
}

#[test]
fn test_sort_json_keys_is_deterministic_and_canonical() {
    let doc: Value = serde_json::from_str(
        "{\"z_key\": \"last\", \"a_key\": \"first\", \"nested\": {\"z_nested\": 99, \
         \"a_nested\": [3, 1, 2], \"m_nested\": {\"b\": false, \"a\": true}}, \
         \"array\": [{\"z\": 1, \"a\": 0}, {\"y\": 2, \"b\": 1}]}",
    )
    .unwrap();
    let bytes_1 = canonical_json(&doc);
    let bytes_2 = canonical_json(&doc);
    assert_eq!(bytes_1, bytes_2, "canonical_json must be deterministic");

    let text = String::from_utf8(bytes_1).unwrap();
    let pos_a_key = text.find("\"a_key\"").expect("a_key not found");
    let pos_array = text.find("\"array\"").expect("array not found");
    let pos_nested = text.find("\"nested\"").expect("nested not found");
    let pos_z_key = text.find("\"z_key\"").expect("z_key not found");
    assert!(pos_a_key < pos_array, "a_key must precede array");
    assert!(pos_array < pos_nested, "array must precede nested");
    assert!(pos_nested < pos_z_key, "nested must precede z_key");
    let pos_a_nested = text.find("\"a\":true").expect("\"a\":true not found");
    let pos_b_nested = text.find("\"b\":false").expect("\"b\":false not found");
    assert!(pos_a_nested < pos_b_nested, "a must precede b in m_nested");
    let pos_z_elem = text.find("\"z\":1").expect("\"z\":1 not found");
    let pos_y_elem = text.find("\"y\":2").expect("\"y\":2 not found");
    assert!(pos_z_elem < pos_y_elem, "array element order must be preserved");
}

#[test]
fn a_document_has_its_members() {
    let document = build_did_document("did:iiot:7", &[1, 2, 3], &[4, 5, 6]);
    assert_eq!(
        String::from_utf8(encode_did_document(&document)).unwrap(),
        "{\"@context\":[\"https://www.w3.org/ns/did/v1\"],\"authentication\":[\"did:iiot:7#k0\"],\
         \"id\":\"did:iiot:7\",\"keyAgreement\":[\"did:iiot:7#k1\"],\"service\":[{\
         \"id\":\"did:iiot:7#device\",\"serviceEndpoint\":\"http://example.com/device\",\
         \"type\":\"DeviceAgent\"}],\"verificationMethod\":[{\"controller\":\"did:iiot:7\",\
         \"id\":\"did:iiot:7#k0\",\"publicKeyJwk\":{\"crv\":\"Dilithium2\",\"kty\":\"OKP\",\
         \"x\":\"AQID\"},\"type\":\"JsonWebKey2020\"},{\"controller\":\"did:iiot:7\",\
         \"id\":\"did:iiot:7#k1\",\"publicKeyJwk\":{\"crv\":\"Kyber512\",\"kty\":\"OKP\",\
         \"x\":\"BAUG\"},\"type\":\"JsonWebKey2020\"}]}"
    );
    assert_eq!(public_key_from_did_doc(&encode_did_document(&document)).unwrap(), vec![1, 2, 3]);
}

#[test]
fn a_made_record_verifies() {
    let (name, record) = make_record();
    assert_eq!(name.len(), 36);
    assert!(handler().handle_signature_verification(&record).unwrap());
    let text = decode_record(&record).unwrap();
    assert!(text.contains(&format!("\"id\": \"did:iiot:{}\"", name)));
    let (other, _) = make_record();
    assert_ne!(name, other);
}

#[test]
fn a_record_of_given_keys_verifies() {
    let (pk, sk) = dilithium2::keypair();
    let record = record_for("did:iiot:1", pk.as_bytes(), sk.as_bytes(), &[9]).unwrap();
    assert!(handler().handle_signature_verification(&record).unwrap());
    let (other, _) = dilithium2::keypair();
    let record = record_for("did:iiot:1", other.as_bytes(), sk.as_bytes(), &[9]).unwrap();
    assert!(!handler().handle_signature_verification(&record).unwrap());
    assert!(record_for("did:iiot:1", pk.as_bytes(), &[0; 5], &[9]).is_err());
}

#[test]
fn short_and_broken_records_are_not_decoded() {
    assert!(decode_record(&[0; 2431]).is_none());
    assert!(decode_record(&[0; 2432]).is_none());
    let mut record = vec![0; 2432];
    record.extend_from_slice(b"{\"a\":[1]}");
    assert_eq!(decode_record(&record).unwrap(), "{\n  \"a\": [\n    1\n  ]\n}");
}

#[test]
fn dids_end_in_their_name() {
    assert_eq!(did_for("x"), "did:iiot:x");
    assert_eq!(dht_key("did:iiot:x"), "x");
    assert_eq!(dht_key("x"), "x");
    assert_eq!(dht_key("did:iiot:"), "");
    assert!(generate_did_iiot().starts_with("did:iiot:"));
}

#[test]
fn addresses_are_read() {
    assert_eq!(parse_address("10.0.0.1:5678"), Ok(("10.0.0.1".to_string(), 5678)));
    assert_eq!(parse_address("10.0.0.1"), Err(AddressError::NoPort));
    assert_eq!(parse_address("10.0.0.1:x"), Err(AddressError::BadPort));
    assert_eq!(parse_address("a:1:2"), Err(AddressError::BadPort));
    assert_eq!(parse_address("a:65536"), Err(AddressError::BadPort));
    assert_eq!(parse_address(":65535"), Ok((String::new(), 65535)));
    assert_eq!(parse_address_or("a:7", 1), ("a".to_string(), 7));
    assert_eq!(parse_address_or("a", 1), ("a".to_string(), 1));
    assert_eq!(parse_address_or("a:b", 1), ("a".to_string(), 1));
}

#[test]
fn attempts_are_bounded() {
    assert_eq!(after_bootstrap(1, 8), NextStep::Done);
    assert_eq!(after_bootstrap(0, 7), NextStep::TryAgain);
    assert_eq!(after_bootstrap(0, 8), NextStep::GiveUp);
    assert_eq!(after_publishing(Some(true), 10), NextStep::Done);
    assert_eq!(after_publishing(Some(false), 9), NextStep::TryAgain);
    assert_eq!(after_publishing(None, 10), NextStep::GiveUp);
    assert_eq!(after_lookup(true, 1), NextStep::Done);
    assert_eq!(after_lookup(false, 9), NextStep::TryAgain);
    assert_eq!(after_lookup(false, 10), NextStep::GiveUp);
}

#[test]
fn replies_are_counted() {
    let replies = vec![
        reply_of(false, true),
        reply_of(false, false),
        reply_of(true, true),
        reply_of(false, true),
    ];
    assert_eq!(replies[2], Reply::TimedOut);
    let tally = Tally::of(&replies);
    assert_eq!((tally.accepted, tally.rejected, tally.timed_out), (2, 1, 1));
    assert!(!tally.is_intact());
    assert!(Tally::of(&vec![Reply::Rejected]).is_intact());
    assert_eq!(invalid_pool_size(300), 100);
}
