//! What makes a record, a replacement and a deletion authentic, down to the bytes
//! that are checked.

use vstd::prelude::*;
use vstd::utf8::encode_utf8;

use crate::auth_handler::AuthFault;
use crate::auth_handler::DIDSignatureVerifierHandler;
use crate::auth_handler::IssuerModel;
use crate::auth_handler::SignatureVerifierHandler;
use crate::auth_handler::document_key;
use crate::auth_handler::opened;
use crate::auth_handler::self_signed;
use crate::auth_handler::signed_by_holder;
use crate::crypto::base64url::b64url_decoded;
use crate::crypto::base64url::b64url_encoded;
use crate::crypto::dilithium::dilithium2_pair;
use crate::crypto::dilithium::dilithium2_signed;
use crate::crypto::dilithium::dilithium2_valid;
use crate::crypto::dilithium::dilithium3_pair;
use crate::crypto::dilithium::dilithium3_signed;
use crate::crypto::dilithium::dilithium3_valid;
use crate::crypto::dilithium::dilithium5_pair;
use crate::crypto::dilithium::dilithium5_signed;
use crate::crypto::dilithium::dilithium5_valid;
use crate::crypto::dilithium::dilithium_signature;
use crate::crypto::ed25519::ed25519_outcome;
use crate::crypto::ed25519::ed25519_signature;
use crate::crypto::ed25519::ed25519_signed;
use crate::crypto::factory::Scheme;
use crate::crypto::factory::scheme_of;
use crate::crypto::key_manager::DilithiumKeyManager;
use crate::crypto::key_manager::Ed25519KeyManager;
use crate::crypto::key_manager::KeyFault;
use crate::crypto::key_manager::KeyManager;
use crate::crypto::key_manager::KyberKeyManager;
use crate::crypto::rsa::rsa_is_private;
use crate::crypto::rsa::rsa_is_public;
use crate::crypto::rsa::rsa_own_key;
use crate::crypto::rsa::rsa_private_pem;
use crate::crypto::rsa::rsa_public_of;
use crate::crypto::rsa::rsa_public_pem;
use crate::crypto::rsa::rsa_valid;
use crate::crypto::rsa::rsa_verdict;
use crate::crypto::signature_verifier::VerifierFault;
use crate::crypto::signature_verifier::family_of;
use crate::crypto::signature_verifier::level_of;
use crate::document::did_document;
use crate::json::JsonModel;
use crate::json::item;
use crate::json::json_read;
use crate::json::member;
use crate::record::a_record_is_read_back;
use crate::record::names_an_algorithm;
use crate::record::record_of;
use crate::text::after_hyphen;
use crate::text::before_hyphen;
use crate::text::decimal;
use crate::text::end_trimmed;
use crate::text::first_index_is;
use crate::text::leading_white;
use crate::text::trimmed;
use crate::text_laws::a_numeral_is_read_back;
use crate::text_laws::padding_is_what_stands_at_the_end;

verus! {

/// The name of the algorithm stands at the start of a record, in twelve bytes of
/// which those behind the name are zero.
pub proof fn a_record_names_its_algorithm(
    algorithm: Seq<char>,
    signature: Seq<u8>,
    document: Seq<u8>,
    at: int,
)
    requires
        encode_utf8(algorithm).len() <= 12,
    ensures
        ({
            let record = record_of(algorithm, signature, document);
            let name = encode_utf8(algorithm);
            &&& record.len() == 12 + signature.len() + document.len()
            &&& 0 <= at < name.len() ==> record[at] == name[at]
            &&& name.len() <= at < 12 ==> record[at] == 0
            &&& record.subrange(12, 12 + signature.len() as int) == signature
            &&& record.skip(12 + signature.len() as int) == document
        }),
{
    let record = record_of(algorithm, signature, document);
    assert(record.subrange(12, 12 + signature.len() as int) =~= signature);
    assert(record.skip(12 + signature.len() as int) =~= document);
}

/// A record that can be opened consists of its field, its signature and its
/// document, one after the other.  The signature has the length that the name calls
/// for: 256 bytes for RSA, 64 for Ed25519, and 2420, 3293 or 4595 for Dilithium at
/// level 2, 3 or 5.
pub proof fn a_record_is_cut_where_its_signature_ends(value: Seq<u8>)
    requires
        opened(value) is Ok,
    ensures
        ({
            let (algorithm, signature, document) = opened(value)->Ok_0;
            &&& value.len() >= 12 + signature.len()
            &&& value == value.take(12) + signature + document
            &&& family_of(algorithm) == "RSA"@ ==> signature.len() == 256
            &&& family_of(algorithm) == "Ed25519"@ ==> signature.len() == 64
            &&& family_of(algorithm) == "Dilithium"@ && level_of(algorithm) == Some(2nat)
                ==> signature.len() == 2420
            &&& family_of(algorithm) == "Dilithium"@ && level_of(algorithm) == Some(3nat)
                ==> signature.len() == 3293
            &&& family_of(algorithm) == "Dilithium"@ && level_of(algorithm) == Some(5nat)
                ==> signature.len() == 4595
            &&& family_of(algorithm) == "RSA"@ || family_of(algorithm) == "Ed25519"@ || (family_of(
                algorithm,
            ) == "Dilithium"@ && (level_of(algorithm) == Some(2nat) || level_of(algorithm) == Some(
                3nat,
            ) || level_of(algorithm) == Some(5nat)))
        }),
{
    let (algorithm, signature, document) = opened(value)->Ok_0;
    assert(value =~= value.take(12) + signature + document);
    families_differ();
}

proof fn families_differ()
    ensures
        "RSA"@ != "Ed25519"@,
        "RSA"@ != "Dilithium"@,
        "Ed25519"@ != "Dilithium"@,
{
    reveal_strlit("RSA");
    reveal_strlit("Ed25519");
    reveal_strlit("Dilithium");
    assert("RSA"@.len() == 3 && "Ed25519"@.len() == 7 && "Dilithium"@.len() == 9);
}

/// The text starts and ends with something else than white space.
pub open spec fn is_word(text: Seq<char>) -> bool {
    &&& text.len() > 0
    &&& text[0] != ' ' && text[0] > '!'
    &&& text.last() > '!'
    &&& forall|i: int| 0 <= i < text.len() ==> '!' <= #[trigger] text[i] <= '~'
}

proof fn a_word_stays_trimmed(text: Seq<char>)
    requires
        is_word(text),
    ensures
        trimmed(text) == text,
{
    assert(leading_white(text) == 0);
    assert(text.skip(0) =~= text);
    assert(text[text.len() - 1] == text.last());
    assert(end_trimmed(text) == text);
}

/// A family with a level behind a hyphen is that family at that level, and a family
/// without a hyphen is the family at no level.
pub proof fn a_name_is_family_and_level(family: Seq<char>, level: nat)
    requires
        is_word(family),
        !family.contains('-'),
    ensures
        family_of(family) == family,
        level_of(family) is None,
        family_of(family.push('-') + decimal(level)) == family,
        level_of(family.push('-') + decimal(level)) == if level <= 255 {
            Some(level)
        } else {
            None
        },
{
    let name = family.push('-') + decimal(level);
    crate::text_laws::a_text_is_split_at_its_first_hyphen(family);
    a_word_stays_trimmed(family);
    assert forall|i: int| 0 <= i < family.len() implies name[i] != '-' by {
        assert(name[i] == family[i]);
        assert(family.contains(family[i]));
    }
    assert(name[family.len() as int] == '-');
    first_index_is(name, '-', family.len() as int);
    assert(before_hyphen(name) =~= family);
    assert(after_hyphen(name)->0 =~= decimal(level));
    a_numeral_is_read_back(level, 255);
    let digits = decimal(level);
    assert('0' <= digits[0] <= '9' && '0' <= digits[digits.len() - 1] <= '9');
    a_word_stays_trimmed(digits);
}

/// A record under Dilithium at level 2 is valid exactly if the key in its document
/// accepts the bytes from the twelfth to the 2432nd as a signature of all that
/// follow.
pub proof fn a_dilithium_record_is_checked_whole(value: Seq<u8>, public_key: Seq<u8>)
    requires
        opened(value) is Ok,
        family_of(opened(value)->Ok_0.0) == "Dilithium"@,
        level_of(opened(value)->Ok_0.0) == Some(2nat),
        document_key(value.skip(2432)) == Ok::<_, AuthFault>(public_key),
        public_key.len() == 1312,
    ensures
        self_signed(value) == Ok::<bool, AuthFault>(
            dilithium2_valid(public_key, value.subrange(12, 2432), value.skip(2432)),
        ),
{
    families_differ();
}

/// A record under Ed25519 is valid exactly if the key in its document accepts the
/// 64 bytes behind the field as a signature of all that follow.
pub proof fn an_ed25519_record_is_checked_whole(value: Seq<u8>, public_key: Seq<u8>)
    requires
        opened(value) is Ok,
        family_of(opened(value)->Ok_0.0) == "Ed25519"@,
        document_key(value.skip(76)) == Ok::<_, AuthFault>(public_key),
        public_key.len() == 32,
    ensures
        self_signed(value) == Ok::<bool, AuthFault>(true) <==> ed25519_outcome(
            public_key,
            value.subrange(12, 76),
            value.skip(76),
        ) == Ok::<bool, Seq<char>>(true),
{
    families_differ();
}

/// A record under RSA with a key in DER form is valid exactly if that key accepts
/// the 256 bytes behind the field as a signature of all that follow.
pub proof fn an_rsa_record_is_checked_whole(value: Seq<u8>, public_key: Seq<u8>)
    requires
        opened(value) is Ok,
        family_of(opened(value)->Ok_0.0) == "RSA"@,
        document_key(value.skip(268)) == Ok::<_, AuthFault>(public_key),
        rsa_is_public(public_key),
    ensures
        self_signed(value) == Ok::<bool, AuthFault>(
            rsa_valid(public_key, value.subrange(12, 268), value.skip(268)),
        ),
{
    families_differ();
}

/// What the holder of a record signed is judged under the key in the record, by the
/// scheme of the record, for the whole message and the whole signature.
pub proof fn the_holder_signs_the_whole_message(
    value: Seq<u8>,
    signature: Seq<u8>,
    message: Seq<u8>,
    public_key: Seq<u8>,
)
    requires
        opened(value) is Ok,
        document_key(opened(value)->Ok_0.2) == Ok::<_, AuthFault>(public_key),
    ensures
        ({
            let family = family_of(opened(value)->Ok_0.0);
            let accepted = signed_by_holder(value, signature, message) == Ok::<bool, AuthFault>(
                true,
            );
            &&& family == "Dilithium"@ && public_key.len() == 1312 && signature.len() <= 2420 ==> (
            accepted <==> dilithium2_valid(public_key, signature, message))
            &&& family == "Dilithium"@ && public_key.len() == 1952 && signature.len() <= 3309 ==> (
            accepted <==> dilithium3_valid(public_key, signature, message))
            &&& family == "Dilithium"@ && public_key.len() == 2592 && signature.len() <= 4627 ==> (
            accepted <==> dilithium5_valid(public_key, signature, message))
            &&& family == "Dilithium"@ && public_key.len() != 1312 && public_key.len() != 1952
                && public_key.len() != 2592 ==> !accepted
            &&& family == "Ed25519"@ && public_key.len() == 32 && signature.len() == 64 ==> (accepted
                <==> ed25519_outcome(public_key, signature, message) == Ok::<bool, Seq<char>>(true))
            &&& family == "Ed25519"@ && (public_key.len() != 32 || signature.len() != 64)
                ==> !accepted
            &&& family == "RSA"@ && rsa_is_public(public_key) ==> (accepted <==> rsa_valid(
                public_key,
                signature,
                message,
            ))
        }),
{
    families_differ();
}

/// Whether a deletion is permitted is what the holder of the stored record signed:
/// the whole request, with nothing but the stored record to judge it by.
pub proof fn a_deletion_is_signed_by_the_holder(
    handler: DIDSignatureVerifierHandler,
    value: Seq<u8>,
    auth: Seq<u8>,
    message: Seq<u8>,
    public_key: Seq<u8>,
)
    requires
        opened(value) is Ok,
        document_key(opened(value)->Ok_0.2) == Ok::<_, AuthFault>(public_key),
        family_of(opened(value)->Ok_0.0) == "Dilithium"@,
        public_key.len() == 1312,
        auth.len() <= 2420,
    ensures
        handler.delete_verdict(value, auth, message) == Ok::<bool, AuthFault>(
            dilithium2_valid(public_key, auth, message),
        ),
{
    families_differ();
}

/// A replacement under Dilithium at level 2 is permitted exactly if the key in the
/// stored record accepts the authorisation as a signature of the whole new record,
/// and the new record is valid under the key that it holds itself.
pub proof fn a_replacement_is_signed_twice(
    handler: DIDSignatureVerifierHandler,
    value: Seq<u8>,
    old_value: Seq<u8>,
    auth: Seq<u8>,
    old_key: Seq<u8>,
    new_key: Seq<u8>,
)
    requires
        opened(old_value) is Ok,
        family_of(opened(old_value)->Ok_0.0) == "Dilithium"@,
        document_key(opened(old_value)->Ok_0.2) == Ok::<_, AuthFault>(old_key),
        old_key.len() == 1312,
        auth.len() <= 2420,
        opened(value) is Ok,
        family_of(opened(value)->Ok_0.0) == "Dilithium"@,
        level_of(opened(value)->Ok_0.0) == Some(2nat),
        document_key(value.skip(2432)) == Ok::<_, AuthFault>(new_key),
        new_key.len() == 1312,
    ensures
        handler.update_verdict(value, old_value, auth) == Ok::<bool, AuthFault>(true) <==> (
        dilithium2_valid(old_key, auth, value) && dilithium2_valid(
            new_key,
            value.subrange(12, 2432),
            value.skip(2432),
        )),
{
    families_differ();
}

/// A status list under Dilithium at level 2 is judged under the issuer's key, not
/// under one that it holds; without that key there is no judgement.
pub proof fn a_status_list_is_signed_by_the_issuer(
    handler: DIDSignatureVerifierHandler,
    value: Seq<u8>,
    issuer: Seq<u8>,
    reason: Seq<char>,
)
    requires
        opened(value) is Ok,
        family_of(opened(value)->Ok_0.0) == "Dilithium"@,
        level_of(opened(value)->Ok_0.0) == Some(2nat),
        issuer.len() == 1312,
    ensures
        handler.issuer_verdict(value, Ok(issuer)) == Ok::<bool, AuthFault>(
            dilithium2_valid(issuer, value.subrange(12, 2432), value.skip(2432)),
        ),
        handler.issuer_verdict(value, Err(reason)) == Err::<bool, _>(AuthFault::Io(reason)),
{
    families_differ();
}

/// Nothing is accepted that cannot be read: neither a record that is too short for
/// its field or its signature, nor a key that its document does not hold.
pub proof fn what_cannot_be_read_is_not_accepted(
    handler: DIDSignatureVerifierHandler,
    value: Seq<u8>,
    old_value: Seq<u8>,
    auth: Seq<u8>,
    message: Seq<u8>,
    issuer: IssuerModel,
)
    ensures
        value.len() < 12 ==> handler.record_verdict(value) == Err::<bool, _>(
            AuthFault::InvalidFormat,
        ),
        opened(value) is Err ==> handler.record_verdict(value) is Err && handler.delete_verdict(
            value,
            auth,
            message,
        ) is Err && handler.issuer_verdict(value, issuer) is Err && handler.update_verdict(
            old_value,
            value,
            auth,
        ) is Err,
        opened(value) matches Ok((_, _, document)) ==> (document_key(document) is Err
            ==> handler.record_verdict(value) is Err && handler.delete_verdict(
            value,
            auth,
            message,
        ) is Err && handler.update_verdict(old_value, value, auth) is Err),
{
}

/// The key in a document is what stands at `verificationMethod[0].publicKeyJwk.x`,
/// read as base64url text without the equals signs at its end.
pub proof fn the_key_is_that_of_the_first_method(
    document: Seq<u8>,
    members: Map<Seq<char>, JsonModel>,
    methods: Seq<JsonModel>,
    first: Map<Seq<char>, JsonModel>,
    key: Map<Seq<char>, JsonModel>,
    text: Seq<char>,
)
    requires
        json_read(document) == Ok::<_, Seq<char>>(JsonModel::Object(members)),
        members.contains_key("verificationMethod"@),
        members["verificationMethod"@] == JsonModel::Array(methods),
        methods.len() > 0,
        methods[0] == JsonModel::Object(first),
        first.contains_key("publicKeyJwk"@),
        first["publicKeyJwk"@] == JsonModel::Object(key),
        key.contains_key("x"@),
        key["x"@] == JsonModel::Text(text),
    ensures
        !text.contains('=') ==> document_key(document) == match b64url_decoded(text) {
            Ok(bytes) => Ok::<Seq<u8>, AuthFault>(bytes),
            Err(error) => Err(AuthFault::Base64(error)),
        },
        document_key(document) == match b64url_decoded(
            text.take(crate::crypto::base64url::unpadded(text).len() as int),
        ) {
            Ok(bytes) => Ok::<Seq<u8>, AuthFault>(bytes),
            Err(error) => Err(AuthFault::Base64(error)),
        },
{
    padding_is_what_stands_at_the_end(text);
    if !text.contains('=') {
        crate::crypto::base64url::unpadded_stays(text);
    }
}

proof fn plain_names_fit(name: Seq<char>)
    requires
        name.len() <= 12,
        forall|i: int| 0 <= i < name.len() ==> '!' <= #[trigger] name[i] <= '~',
    ensures
        names_an_algorithm(name),
{
    assert(vstd::utf8::is_ascii_chars(name));
    vstd::utf8::is_ascii_chars_encode_utf8(name);
    assert forall|i: int| 0 <= i < encode_utf8(name).len() implies encode_utf8(name)[i] != 0 by {
        assert(name[i] as u8 == encode_utf8(name)[i]);
    }
}

/// A record under one of the five names, with a signature of the length that the
/// name calls for, can be opened, whatever its signature and its document are; and
/// it opens to what it was made of.
pub proof fn every_named_record_can_be_opened(
    name: Seq<char>,
    signature: Seq<u8>,
    document: Seq<u8>,
)
    requires
        ({
            ||| name == seq!['R', 'S', 'A'] && signature.len() == 256
            ||| name == seq!['E', 'd', '2', '5', '5', '1', '9'] && signature.len() == 64
            ||| name == seq!['D', 'i', 'l', 'i', 't', 'h', 'i', 'u', 'm', '-', '2']
                && signature.len() == 2420
            ||| name == seq!['D', 'i', 'l', 'i', 't', 'h', 'i', 'u', 'm', '-', '3']
                && signature.len() == 3293
            ||| name == seq!['D', 'i', 'l', 'i', 't', 'h', 'i', 'u', 'm', '-', '5']
                && signature.len() == 4595
        }),
    ensures
        opened(record_of(name, signature, document)) == Ok::<_, AuthFault>(
            (name, signature, document),
        ),
{
    reveal_strlit("RSA");
    reveal_strlit("Ed25519");
    reveal_strlit("Dilithium");
    families_differ();
    plain_names_fit(name);
    let rsa = seq!['R', 'S', 'A'];
    let ed25519 = seq!['E', 'd', '2', '5', '5', '1', '9'];
    let dilithium = seq!['D', 'i', 'l', 'i', 't', 'h', 'i', 'u', 'm'];
    assert("RSA"@ =~= rsa);
    assert("Ed25519"@ =~= ed25519);
    assert("Dilithium"@ =~= dilithium);
    let level: nat = if signature.len() == 2420 {
        2
    } else if signature.len() == 3293 {
        3
    } else {
        5
    };
    if name == rsa {
        a_name_is_family_and_level(rsa, 2);
    } else if name == ed25519 {
        a_name_is_family_and_level(ed25519, 2);
    } else {
        a_name_is_family_and_level(dilithium, level);
        assert(name =~= dilithium.push('-') + decimal(level));
    }
    a_record_is_read_back(name, signature, document);
}

/// A private Dilithium key signs at the level that its length tells: 2560 bytes for
/// level 2, 4032 for level 3 and 4896 for level 5.  Keys of other lengths sign
/// nothing.
pub proof fn a_private_key_signs_at_its_level(private_key: Seq<u8>, message: Seq<u8>)
    ensures
        private_key.len() == 2560 ==> dilithium_signature(private_key, message) == Ok::<
            _,
            VerifierFault,
        >(dilithium2_signed(private_key, message)),
        private_key.len() == 4032 ==> dilithium_signature(private_key, message) == Ok::<
            _,
            VerifierFault,
        >(dilithium3_signed(private_key, message)),
        private_key.len() == 4896 ==> dilithium_signature(private_key, message) == Ok::<
            _,
            VerifierFault,
        >(dilithium5_signed(private_key, message)),
        private_key.len() != 2560 && private_key.len() != 4032 && private_key.len() != 4896
            ==> dilithium_signature(private_key, message) is Err,
{
}

/// A manager of Dilithium keys makes pairs of its own level, for level 2, 3 and 5
/// alone.
pub proof fn a_manager_makes_keys_of_its_level(
    manager: DilithiumKeyManager,
    public_key: Seq<u8>,
    private_key: Seq<u8>,
)
    ensures
        manager.refusal() is None <==> (manager.security_level == 2 || manager.security_level == 3
            || manager.security_level == 5),
        manager.refusal() is Some ==> manager.refusal() == Some(
            KeyFault::InvalidSecurityLevel(manager.security_level as u32),
        ),
        manager.makes(public_key, private_key) && manager.security_level == 2 ==> public_key.len()
            == 1312 && private_key.len() == 2560 && dilithium2_pair(public_key, private_key),
        manager.makes(public_key, private_key) && manager.security_level == 3 ==> public_key.len()
            == 1952 && private_key.len() == 4032 && dilithium3_pair(public_key, private_key),
        manager.makes(public_key, private_key) && manager.security_level == 5 ==> public_key.len()
            == 2592 && private_key.len() == 4896 && dilithium5_pair(public_key, private_key),
{
}

/// An RSA key may be given as DER or as PEM text, and a check under the text is one
/// under the DER form that the text holds.
pub proof fn a_key_may_be_given_as_text(
    text: Seq<char>,
    der: Seq<u8>,
    signature: Seq<u8>,
    message: Seq<u8>,
)
    requires
        !rsa_is_public(encode_utf8(text)),
        rsa_public_pem(text) == Ok::<_, Seq<char>>(der),
    ensures
        rsa_verdict(encode_utf8(text), signature, message) == Ok::<bool, VerifierFault>(
            rsa_valid(der, signature, message),
        ),
{
    vstd::utf8::encode_utf8_valid_utf8(text);
    vstd::utf8::encode_utf8_decode_utf8(text);
}

/// Only the three families have a scheme, and each has its own.
pub proof fn a_family_has_one_scheme(algorithm: Seq<char>)
    ensures
        scheme_of(algorithm) == Ok::<_, VerifierFault>(Scheme::Rsa) <==> family_of(algorithm)
            == "RSA"@,
        scheme_of(algorithm) == Ok::<_, VerifierFault>(Scheme::Ed25519) <==> family_of(algorithm)
            == "Ed25519"@,
        scheme_of(algorithm) == Ok::<_, VerifierFault>(Scheme::Dilithium) <==> family_of(algorithm)
            == "Dilithium"@,
        scheme_of(algorithm) is Err <==> family_of(algorithm) != "RSA"@ && family_of(algorithm)
            != "Ed25519"@ && family_of(algorithm) != "Dilithium"@,
{
    families_differ();
}

/// An Ed25519 seed of 32 bytes signs any message, and a seed of another length none.
pub proof fn a_seed_signs_any_message(seed: Seq<u8>, message: Seq<u8>)
    ensures
        seed.len() == 32 ==> ed25519_signature(seed, message) == Ok::<_, VerifierFault>(
            ed25519_signed(seed, message),
        ),
        seed.len() != 32 ==> ed25519_signature(seed, message) is Err,
{
}

/// A private RSA key in DER form has the public key that belongs to it, if verifiers
/// take that; and one given as PEM text has that of the DER form that the text holds.
pub proof fn a_private_key_has_its_public_key(der: Seq<u8>, public_key: Seq<u8>, text: Seq<char>)
    requires
        rsa_is_private(der),
        rsa_public_of(der) == Ok::<_, Seq<char>>(public_key),
    ensures
        rsa_is_public(public_key) ==> rsa_own_key(der) == Ok::<_, VerifierFault>(public_key),
        !rsa_is_public(public_key) ==> rsa_own_key(der) is Err,
        !rsa_is_private(encode_utf8(text)) && rsa_private_pem(text) == Ok::<_, Seq<char>>(der)
            ==> rsa_own_key(encode_utf8(text)) == rsa_own_key(der),
{
    vstd::utf8::encode_utf8_valid_utf8(text);
    vstd::utf8::encode_utf8_decode_utf8(text);
}

/// A document holds its DID, the Dilithium key in the first verification method and
/// the Kyber key in the second, each method named after the DID and controlled by it,
/// and names the first for authentication and the second for key agreement.
pub proof fn a_document_holds_its_did_and_both_keys(
    did: Seq<char>,
    dilithium_x: Seq<char>,
    kyber_x: Seq<char>,
)
    ensures
        ({
            let document = did_document(did, dilithium_x, kyber_x);
            let first = item(member(document, "verificationMethod"@), 0);
            let second = item(member(document, "verificationMethod"@), 1);
            &&& member(document, "id"@) == JsonModel::Text(did)
            &&& member(first, "id"@) == JsonModel::Text(did + "#k0"@)
            &&& member(second, "id"@) == JsonModel::Text(did + "#k1"@)
            &&& member(first, "controller"@) == JsonModel::Text(did)
            &&& member(second, "controller"@) == JsonModel::Text(did)
            &&& member(member(first, "publicKeyJwk"@), "x"@) == JsonModel::Text(dilithium_x)
            &&& member(member(second, "publicKeyJwk"@), "x"@) == JsonModel::Text(kyber_x)
            &&& member(member(first, "publicKeyJwk"@), "crv"@) == JsonModel::Text("Dilithium2"@)
            &&& member(member(second, "publicKeyJwk"@), "crv"@) == JsonModel::Text("Kyber512"@)
            &&& item(member(document, "authentication"@), 0) == JsonModel::Text(did + "#k0"@)
            &&& item(member(document, "keyAgreement"@), 0) == JsonModel::Text(did + "#k1"@)
        }),
{
    reveal_strlit("@context");
    reveal_strlit("id");
    reveal_strlit("authentication");
    reveal_strlit("keyAgreement");
    reveal_strlit("service");
    reveal_strlit("verificationMethod");
    reveal_strlit("type");
    reveal_strlit("controller");
    reveal_strlit("publicKeyJwk");
    reveal_strlit("kty");
    reveal_strlit("crv");
    reveal_strlit("x");
    assert("id"@.len() == 2 && "authentication"@.len() == 14 && "keyAgreement"@.len() == 12);
    assert("service"@.len() == 7 && "verificationMethod"@.len() == 18 && "@context"@.len() == 8);
    assert("type"@.len() == 4 && "controller"@.len() == 10 && "publicKeyJwk"@.len() == 12);
    assert("keyAgreement"@[0] == 'k' && "publicKeyJwk"@[0] == 'p');
    assert("kty"@[0] == 'k' && "crv"@[0] == 'c' && "x"@.len() == 1 && "kty"@.len() == 3);
}

proof fn blanks_are_trimmed(word: Seq<char>)
    requires
        is_word(word),
    ensures
        trimmed(seq![' '] + word.push(' ')) == word,
{
    let text = seq![' '] + word.push(' ');
    assert(text.drop_first() =~= word.push(' '));
    assert(word.push(' ')[0] == word[0]);
    assert(leading_white(word.push(' ')) == 0);
    assert(leading_white(text) == 1);
    assert(text.skip(1) =~= word.push(' '));
    assert(word.push(' ').drop_last() =~= word);
    assert(word[word.len() - 1] == word.last());
    assert(end_trimmed(word) == word);
    assert(end_trimmed(word.push(' ')) == end_trimmed(word));
}

/// Blanks around the family and around the level in a name do not matter.
pub proof fn blanks_in_a_name_do_not_matter(family: Seq<char>, level: nat)
    requires
        is_word(family),
        !family.contains('-'),
        level <= 255,
    ensures
        ({
            let name = (seq![' '] + family.push(' ')).push('-') + (seq![' '] + decimal(level).push(
                ' ',
            ));
            family_of(name) == family && level_of(name) == Some(level)
        }),
{
    let front = seq![' '] + family.push(' ');
    let back = seq![' '] + decimal(level).push(' ');
    let name = front.push('-') + back;
    assert forall|i: int| 0 <= i < front.len() implies name[i] != '-' by {
        assert(name[i] == front[i]);
        if 0 < i <= family.len() {
            assert(front[i] == family[i - 1]);
            assert(family.contains(family[i - 1]));
        }
    }
    assert(name[front.len() as int] == '-');
    first_index_is(name, '-', front.len() as int);
    assert(before_hyphen(name) =~= front);
    assert(after_hyphen(name)->0 =~= back);
    blanks_are_trimmed(family);
    a_numeral_is_read_back(level, 255);
    let digits = decimal(level);
    assert('0' <= digits[0] <= '9' && '0' <= digits[digits.len() - 1] <= '9');
    blanks_are_trimmed(digits);
}

/// The text ends with the detail, and something stands before it.
pub open spec fn tells(text: Seq<char>, detail: Seq<char>) -> bool {
    &&& text.len() > detail.len()
    &&& text.skip(text.len() - detail.len()) == detail
}

proof fn a_label_and_a_detail(label: Seq<char>, detail: Seq<char>)
    requires
        label.len() > 0,
    ensures
        tells(label + detail, detail),
{
    let text = label + detail;
    assert(text.skip(text.len() - detail.len()) =~= detail);
}

/// An error is shown with the whole of its detail, and an error within an error with
/// all that is shown of that.
pub proof fn an_error_tells_its_detail(detail: Seq<char>, fault: VerifierFault)
    ensures
        tells(VerifierFault::UnsupportedAlgorithm(detail).text(), detail),
        tells(VerifierFault::VerificationFailed(detail).text(), detail),
        tells(AuthFault::Crypto(fault).text(), fault.text()),
        tells(AuthFault::Json(detail).text(), detail),
        tells(AuthFault::Base64(detail).text(), detail),
        tells(AuthFault::Io(detail).text(), detail),
        tells(AuthFault::MissingField(detail).text(), detail),
        tells(AuthFault::Utf8(detail).text(), detail),
        tells(KeyFault::NotFound(detail).text(), detail),
        tells(KeyFault::AlreadyExists(detail).text(), detail),
        tells(KeyFault::Crypto(fault).text(), fault.text()),
        tells(KeyFault::Io(detail).text(), detail),
{
    reveal_strlit("unsupported algorithm: ");
    reveal_strlit("verification failed: ");
    reveal_strlit("crypto error: ");
    reveal_strlit("JSON parse error: ");
    reveal_strlit("base64 decode error: ");
    reveal_strlit("I/O error: ");
    reveal_strlit("missing field: ");
    reveal_strlit("UTF-8 error: ");
    reveal_strlit("key not found: ");
    reveal_strlit("key already exists: ");
    a_label_and_a_detail("unsupported algorithm: "@, detail);
    a_label_and_a_detail("verification failed: "@, detail);
    a_label_and_a_detail("crypto error: "@, fault.text());
    a_label_and_a_detail("JSON parse error: "@, detail);
    a_label_and_a_detail("base64 decode error: "@, detail);
    a_label_and_a_detail("I/O error: "@, detail);
    a_label_and_a_detail("missing field: "@, detail);
    a_label_and_a_detail("UTF-8 error: "@, detail);
    a_label_and_a_detail("key not found: "@, detail);
    a_label_and_a_detail("key already exists: "@, detail);
}

/// A public key is shown whole, as base64url text under `x`, and with the level of
/// its manager behind the name of its algorithm.
pub proof fn a_key_is_shown_whole(
    dilithium: DilithiumKeyManager,
    kyber: KyberKeyManager,
    ed25519: Ed25519KeyManager,
    public_key: Seq<u8>,
)
    ensures
        dilithium.jose(public_key).len() == 3,
        dilithium.jose(public_key)[1].0 == "alg"@,
        tells(dilithium.jose(public_key)[1].1, decimal(dilithium.security_level as nat)),
        dilithium.jose(public_key)[2] == ("x"@, b64url_encoded(public_key)),
        kyber.jose(public_key).len() == 3,
        kyber.jose(public_key)[1].0 == "alg"@,
        tells(kyber.jose(public_key)[1].1, decimal(kyber.security_level as nat)),
        kyber.jose(public_key)[2] == ("x"@, b64url_encoded(public_key)),
        ed25519.jose(public_key).len() == 3,
        ed25519.jose(public_key)[1] == ("crv"@, "Ed25519"@),
        ed25519.jose(public_key)[2] == ("x"@, b64url_encoded(public_key)),
{
    reveal_strlit("CRYDI");
    reveal_strlit("KYBER");
    a_label_and_a_detail("CRYDI"@, decimal(dilithium.security_level as nat));
    a_label_and_a_detail("KYBER"@, decimal(kyber.security_level as nat));
}

/// The four judgements agree with each other.  A record is judged as a request that
/// its own signature signs its own document.  Under an issuer with the key that is in
/// the record it is judged the same.  A replacement is accepted exactly if the old
/// record's holder signs the new record as a whole and the new record is valid.
pub proof fn the_judgements_agree(
    handler: DIDSignatureVerifierHandler,
    value: Seq<u8>,
    old_value: Seq<u8>,
    auth: Seq<u8>,
    public_key: Seq<u8>,
)
    requires
        opened(value) is Ok,
    ensures
        handler.record_verdict(value) == handler.delete_verdict(
            value,
            opened(value)->Ok_0.1,
            opened(value)->Ok_0.2,
        ),
        document_key(opened(value)->Ok_0.2) == Ok::<_, AuthFault>(public_key)
            ==> handler.issuer_verdict(value, Ok(public_key)) == handler.record_verdict(value),
        handler.update_verdict(value, old_value, auth) == Ok::<bool, AuthFault>(true) <==> (
        handler.delete_verdict(old_value, auth, value) == Ok::<bool, AuthFault>(true)
            && handler.record_verdict(value) == Ok::<bool, AuthFault>(true)),
{
}

} // verus!
