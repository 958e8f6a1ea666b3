//! Which records, updates and deletions are authentic.
//!
//! [`SignatureVerifierHandler`] is what the protocol asks.
//! [`DIDSignatureVerifierHandler`] answers for records that hold a DID document,
//! whose first verification method carries the public key.

use serde_json::Value;
use vstd::prelude::*;
use vstd::utf8::decode_utf8;
use vstd::utf8::valid_utf8;

use crate::crypto::base64url::b64url_decode;
use crate::crypto::base64url::b64url_decoded;
use crate::crypto::base64url::strip_padding;
use crate::crypto::base64url::unpadded;
use crate::crypto::factory::scheme_of;
use crate::crypto::factory::scheme_verdict;
use crate::crypto::factory::Scheme;
use crate::crypto::factory::SignatureVerifierFactory;
use crate::crypto::signature_verifier::resolve_alg_and_length;
use crate::crypto::signature_verifier::resolved;
use crate::crypto::signature_verifier::SignatureVerifier;
use crate::crypto::signature_verifier::VerifierError;
use crate::crypto::signature_verifier::VerifierFault;
use crate::json::item;
use crate::json::json_item;
use crate::json::json_member;
use crate::json::json_of;
use crate::json::json_read;
use crate::json::json_text;
use crate::json::member;
use crate::json::parse_json;
use crate::json::text_of;
use crate::json::JsonModel;
use crate::record::before_zero_is;
use crate::record::name_bytes;
use crate::record::ALG_FIELD_LEN;
use crate::text::utf8_error;
use crate::text::utf8_text;

verus! {

/// Why a record could not be judged.
#[derive(Debug)]
pub enum AuthHandlerError {
    Crypto(VerifierError),
    Json(String),
    Base64(String),
    Io(String),
    MissingField(String),
    Utf8(String),
    InvalidFormat,
}

/// An [`AuthHandlerError`] with its texts as sequences of characters.
pub enum AuthFault {
    Crypto(VerifierFault),
    Json(Seq<char>),
    Base64(Seq<char>),
    Io(Seq<char>),
    MissingField(Seq<char>),
    Utf8(Seq<char>),
    InvalidFormat,
}

impl View for AuthHandlerError {
    type V = AuthFault;

    open spec fn view(&self) -> AuthFault {
        match *self {
            AuthHandlerError::Crypto(error) => AuthFault::Crypto(error@),
            AuthHandlerError::Json(text) => AuthFault::Json(text@),
            AuthHandlerError::Base64(text) => AuthFault::Base64(text@),
            AuthHandlerError::Io(text) => AuthFault::Io(text@),
            AuthHandlerError::MissingField(text) => AuthFault::MissingField(text@),
            AuthHandlerError::Utf8(text) => AuthFault::Utf8(text@),
            AuthHandlerError::InvalidFormat => AuthFault::InvalidFormat,
        }
    }
}

impl AuthFault {
    /// The error as it is shown to people.
    pub open spec fn text(&self) -> Seq<char> {
        match *self {
            AuthFault::Crypto(fault) => "crypto error: "@ + fault.text(),
            AuthFault::Json(text) => "JSON parse error: "@ + text,
            AuthFault::Base64(text) => "base64 decode error: "@ + text,
            AuthFault::Io(text) => "I/O error: "@ + text,
            AuthFault::MissingField(text) => "missing field: "@ + text,
            AuthFault::Utf8(text) => "UTF-8 error: "@ + text,
            AuthFault::InvalidFormat => "invalid record format"@,
        }
    }
}

fn labelled(label: &str, detail: &str) -> (text: String)
    ensures
        text@ == label@ + detail@,
{
    let mut text: String = label.to_owned();
    text.append(detail);
    text
}

impl AuthHandlerError {
    /// The error as it is shown to people.
    pub fn display(&self) -> (text: String)
        ensures
            text@ == self@.text(),
    {
        match self {
            AuthHandlerError::Crypto(error) => labelled("crypto error: ", error.display().as_str()),
            AuthHandlerError::Json(detail) => labelled("JSON parse error: ", detail.as_str()),
            AuthHandlerError::Base64(detail) => labelled("base64 decode error: ", detail.as_str()),
            AuthHandlerError::Io(detail) => labelled("I/O error: ", detail.as_str()),
            AuthHandlerError::MissingField(detail) => labelled("missing field: ", detail.as_str()),
            AuthHandlerError::Utf8(detail) => labelled("UTF-8 error: ", detail.as_str()),
            AuthHandlerError::InvalidFormat => "invalid record format".to_owned(),
        }
    }
}

/// The outcome of a judgement, with the texts of an error as sequences of
/// characters.
pub open spec fn judged(outcome: Result<bool, AuthHandlerError>) -> Result<bool, AuthFault> {
    match outcome {
        Ok(valid) => Ok(valid),
        Err(error) => Err(error@),
    }
}

/// What came of reading the issuer's public key.
#[derive(Debug)]
pub enum IssuerKey {
    /// The key.
    Loaded(Vec<u8>),
    /// It could not be read, for the given reason.
    Unreadable(String),
}

/// An [`IssuerKey`] as a sequence.
pub type IssuerModel = Result<Seq<u8>, Seq<char>>;

impl View for IssuerKey {
    type V = IssuerModel;

    open spec fn view(&self) -> IssuerModel {
        match *self {
            IssuerKey::Loaded(bytes) => Ok(bytes@),
            IssuerKey::Unreadable(text) => Err(text@),
        }
    }
}

/// Judges signatures for the protocol.
pub trait SignatureVerifierHandler {
    /// The judgement on a record that claims to be self-signed.
    spec fn record_verdict(&self, value: Seq<u8>) -> Result<bool, AuthFault>;

    /// The judgement on replacing a record by another.
    spec fn update_verdict(&self, value: Seq<u8>, old_value: Seq<u8>, auth: Seq<u8>) -> Result<
        bool,
        AuthFault,
    >;

    /// The judgement on deleting a record.
    spec fn delete_verdict(&self, value: Seq<u8>, auth: Seq<u8>, message: Seq<u8>) -> Result<
        bool,
        AuthFault,
    >;

    /// The judgement on a record that claims to be signed by the issuer.
    spec fn issuer_verdict(&self, value: Seq<u8>, issuer: IssuerModel) -> Result<bool, AuthFault>;

    /// Whether the record is signed with the key that it holds itself.
    fn handle_signature_verification(&self, value: &[u8]) -> (outcome: Result<
        bool,
        AuthHandlerError,
    >)
        ensures
            judged(outcome) == self.record_verdict(value@),
    ;

    /// Whether `value` may replace `old_value`: `auth_signature` has to sign
    /// `value` with the key of `old_value`.
    fn handle_update_verification(
        &self,
        value: &[u8],
        old_value: &[u8],
        auth_signature: &[u8],
    ) -> (outcome: Result<bool, AuthHandlerError>)
        ensures
            judged(outcome) == self.update_verdict(value@, old_value@, auth_signature@),
    ;

    /// Whether `value` may be deleted: `auth_signature` has to sign `delete_msg`
    /// with the key of `value`.
    fn handle_signature_delete_operation(
        &self,
        value: &[u8],
        auth_signature: &[u8],
        delete_msg: &[u8],
    ) -> (outcome: Result<bool, AuthHandlerError>)
        ensures
            judged(outcome) == self.delete_verdict(value@, auth_signature@, delete_msg@),
    ;

    /// Whether the record is signed with the issuer's key.
    fn handle_issuer_node_signature_verification(&self, value: &[u8], issuer: &IssuerKey) -> (outcome:
        Result<bool, AuthHandlerError>)
        ensures
            judged(outcome) == self.issuer_verdict(value@, issuer@),
    ;
}

/// The name of the algorithm in a record.
pub open spec fn alg_string(value: Seq<u8>) -> Result<Seq<char>, AuthFault> {
    if value.len() < ALG_FIELD_LEN {
        Err(AuthFault::InvalidFormat)
    } else if !valid_utf8(name_bytes(value)) {
        Err(AuthFault::Utf8(utf8_error(name_bytes(value))))
    } else {
        Ok(decode_utf8(name_bytes(value)))
    }
}

/// The algorithm, the signature and the document of a record.
pub open spec fn opened(value: Seq<u8>) -> Result<(Seq<char>, Seq<u8>, Seq<u8>), AuthFault> {
    match alg_string(value) {
        Err(fault) => Err(fault),
        Ok(algorithm) => match resolved(algorithm) {
            Err(fault) => Err(AuthFault::Crypto(fault)),
            Ok((_, len)) => if value.len() < 12 + len {
                Err(AuthFault::InvalidFormat)
            } else {
                Ok((algorithm, value.subrange(12, 12 + len), value.skip(12 + len)))
            },
        },
    }
}

/// The bytes that base64url text stands for, with or without padding.
pub open spec fn key_bytes(text: Seq<char>) -> Result<Seq<u8>, AuthFault> {
    match b64url_decoded(unpadded(text)) {
        Ok(bytes) => Ok(bytes),
        Err(error) => Err(AuthFault::Base64(error)),
    }
}

/// The text at `verificationMethod[0].publicKeyJwk.x`.
pub open spec fn key_text(model: JsonModel) -> Option<Seq<char>> {
    text_of(
        member(
            member(item(member(model, "verificationMethod"@), 0), "publicKeyJwk"@),
            "x"@,
        ),
    )
}

/// The public key that a JSON value holds as a DID document.
pub open spec fn model_key(model: JsonModel) -> Result<Seq<u8>, AuthFault> {
    match key_text(model) {
        None => Err(AuthFault::MissingField("verificationMethod[0].publicKeyJwk.x"@)),
        Some(text) => key_bytes(text),
    }
}

/// The public key in a DID document.
pub open spec fn document_key(document: Seq<u8>) -> Result<Seq<u8>, AuthFault> {
    match json_read(document) {
        Err(error) => Err(AuthFault::Json(error)),
        Ok(model) => model_key(model),
    }
}

/// The judgement on a signature of a message under a key, by the algorithm's
/// name.
pub open spec fn checked(
    algorithm: Seq<char>,
    public_key: Seq<u8>,
    signature: Seq<u8>,
    message: Seq<u8>,
) -> Result<bool, AuthFault> {
    match scheme_of(algorithm) {
        Err(fault) => Err(AuthFault::Crypto(fault)),
        Ok(scheme) => match scheme_verdict(scheme, public_key, signature, message) {
            Err(fault) => Err(AuthFault::Crypto(fault)),
            Ok(valid) => Ok(valid),
        },
    }
}

/// The judgement on a signature of a message under the key that a record holds.
pub open spec fn signed_by_holder(value: Seq<u8>, signature: Seq<u8>, message: Seq<u8>) -> Result<
    bool,
    AuthFault,
> {
    match opened(value) {
        Err(fault) => Err(fault),
        Ok((algorithm, _, document)) => match document_key(document) {
            Err(fault) => Err(fault),
            Ok(public_key) => checked(algorithm, public_key, signature, message),
        },
    }
}

/// The judgement on a record under the key that it holds itself.
pub open spec fn self_signed(value: Seq<u8>) -> Result<bool, AuthFault> {
    match opened(value) {
        Err(fault) => Err(fault),
        Ok((_, signature, document)) => signed_by_holder(value, signature, document),
    }
}

/// The judgement on replacing a record: the new one has to be signed with the
/// key of the old one, and with its own.
pub open spec fn rotated(value: Seq<u8>, old_value: Seq<u8>, auth: Seq<u8>) -> Result<
    bool,
    AuthFault,
> {
    match signed_by_holder(old_value, auth, value) {
        Err(fault) => Err(fault),
        Ok(false) => Ok(false),
        Ok(true) => self_signed(value),
    }
}

/// The judgement on a record under the issuer's key.
pub open spec fn issued(value: Seq<u8>, issuer: IssuerModel) -> Result<bool, AuthFault> {
    match opened(value) {
        Err(fault) => Err(fault),
        Ok((algorithm, signature, document)) => match issuer {
            Err(text) => Err(AuthFault::Io(text)),
            Ok(public_key) => checked(algorithm, public_key, signature, document),
        },
    }
}

/// A record is replaced only if the new one is signed with the key of the old
/// one, and with the key that it holds itself.
pub proof fn a_rotation_needs_both_keys(value: Seq<u8>, old_value: Seq<u8>, auth: Seq<u8>)
    ensures
        rotated(value, old_value, auth) == Ok::<bool, AuthFault>(true) <==> (signed_by_holder(
            old_value,
            auth,
            value,
        ) == Ok::<bool, AuthFault>(true) && self_signed(value) == Ok::<bool, AuthFault>(true)),
{
}

fn get_alg_string(value: &[u8]) -> (name: Result<String, AuthHandlerError>)
    ensures
        match name {
            Ok(text) => alg_string(value@) == Ok::<_, AuthFault>(text@),
            Err(error) => alg_string(value@) == Err::<Seq<char>, _>(error@),
        },
{
    if value.len() < ALG_FIELD_LEN {
        return Err(AuthHandlerError::InvalidFormat);
    }
    let mut len: usize = 0;
    while len < ALG_FIELD_LEN && value[len] != 0
        invariant
            len <= ALG_FIELD_LEN <= value@.len(),
            forall|i: int| 0 <= i < len ==> value@[i] != 0,
        decreases ALG_FIELD_LEN - len,
    {
        len = len + 1;
    }
    let raw: &[u8] = vstd::slice::slice_subrange(value, 0, len);
    proof {
        before_zero_is(value@.take(12), len as nat);
        assert(raw@ =~= name_bytes(value@));
    }
    match utf8_text(raw) {
        Ok(text) => {
            proof {
                vstd::utf8::encode_utf8_decode_utf8(text@);
            }
            Ok(text)
        },
        Err(error) => Err(AuthHandlerError::Utf8(error)),
    }
}

/// The signature and the document of a record, for a signature of the given
/// length.
fn extract_sig_and_data(value: &[u8], sig_length: usize) -> (parts: Result<
    (&[u8], &[u8]),
    AuthHandlerError,
>)
    requires
        sig_length <= usize::MAX - 12,
    ensures
        match parts {
            Ok((signature, document)) => value@.len() >= 12 + sig_length && signature@
                == value@.subrange(12, 12 + sig_length) && document@ == value@.skip(
                12 + sig_length,
            ),
            Err(error) => value@.len() < 12 + sig_length && error@ == AuthFault::InvalidFormat,
        },
{
    let end: usize = ALG_FIELD_LEN + sig_length;
    if value.len() < end {
        return Err(AuthHandlerError::InvalidFormat);
    }
    let signature: &[u8] = vstd::slice::slice_subrange(value, ALG_FIELD_LEN, end);
    let document: &[u8] = vstd::slice::slice_subrange(value, end, value.len());
    assert(document@ =~= value@.skip(12 + sig_length));
    Ok((signature, document))
}

/// The algorithm, the signature and the document of a record.
fn open_record(value: &[u8]) -> (parts: Result<(String, &[u8], &[u8]), AuthHandlerError>)
    ensures
        match parts {
            Ok((algorithm, signature, document)) => opened(value@) == Ok::<_, AuthFault>(
                (algorithm@, signature@, document@),
            ),
            Err(error) => opened(value@) == Err::<(Seq<char>, Seq<u8>, Seq<u8>), _>(error@),
        },
{
    let algorithm: String = match get_alg_string(value) {
        Ok(algorithm) => algorithm,
        Err(error) => {
            return Err(error);
        },
    };
    let len: usize = match resolve_alg_and_length(algorithm.as_str()) {
        Ok((_, len)) => len,
        Err(error) => {
            return Err(AuthHandlerError::Crypto(error));
        },
    };
    match extract_sig_and_data(value, len) {
        Ok((signature, document)) => Ok((algorithm, signature, document)),
        Err(error) => Err(error),
    }
}

/// The bytes that base64url text stands for, with or without padding.
pub fn decode_b64url(text: &str) -> (bytes: Result<Vec<u8>, AuthHandlerError>)
    ensures
        match bytes {
            Ok(bytes) => key_bytes(text@) == Ok::<_, AuthFault>(bytes@),
            Err(error) => key_bytes(text@) == Err::<Seq<u8>, _>(error@),
        },
{
    match b64url_decode(strip_padding(text)) {
        Ok(bytes) => Ok(bytes),
        Err(error) => Err(AuthHandlerError::Base64(error)),
    }
}

/// The public key that a JSON value holds as a DID document.
pub fn key_from_value(value: &Value) -> (key: Result<Vec<u8>, AuthHandlerError>)
    ensures
        match key {
            Ok(bytes) => model_key(json_of(*value)) == Ok::<_, AuthFault>(bytes@),
            Err(error) => model_key(json_of(*value)) == Err::<Seq<u8>, _>(error@),
        },
{
    let method: &Value = json_item(json_member(value, "verificationMethod"), 0);
    match json_text(json_member(json_member(method, "publicKeyJwk"), "x")) {
        Some(text) => decode_b64url(text.as_str()),
        None => Err(
            AuthHandlerError::MissingField("verificationMethod[0].publicKeyJwk.x".to_owned()),
        ),
    }
}

/// The public key in a DID document.
pub fn public_key_from_did_doc(document: &[u8]) -> (key: Result<Vec<u8>, AuthHandlerError>)
    ensures
        match key {
            Ok(bytes) => document_key(document@) == Ok::<_, AuthFault>(bytes@),
            Err(error) => document_key(document@) == Err::<Seq<u8>, _>(error@),
        },
{
    match parse_json(document) {
        Ok(value) => key_from_value(&value),
        Err(error) => Err(AuthHandlerError::Json(error)),
    }
}

/// The judgement on a signature of a message under a key, by the algorithm's
/// name.
fn check(algorithm: &str, public_key: &[u8], signature: &[u8], message: &[u8]) -> (outcome: Result<
    bool,
    AuthHandlerError,
>)
    ensures
        judged(outcome) == checked(algorithm@, public_key@, signature@, message@),
{
    let verifier: Scheme = match SignatureVerifierFactory::get_verifier(algorithm) {
        Ok(verifier) => verifier,
        Err(error) => {
            return Err(AuthHandlerError::Crypto(error));
        },
    };
    match verifier.verify(public_key, signature, message) {
        Ok(valid) => Ok(valid),
        Err(error) => Err(AuthHandlerError::Crypto(error)),
    }
}

/// Judges records that hold a DID document.
pub struct DIDSignatureVerifierHandler {
    /// Where the issuer's raw public key is kept.
    pub issuer_pub_key_path: String,
}

impl DIDSignatureVerifierHandler {
    /// A handler whose issuer's raw public key is kept in the given file.  The
    /// file is to be read anew for each judgement on the issuer's signature, so
    /// that the key may change while the node runs.
    pub fn new(issuer_pub_key_path: String) -> (handler: Self)
        ensures
            handler.issuer_pub_key_path == issuer_pub_key_path,
    {
        Self { issuer_pub_key_path }
    }

    fn verify_by_holder(&self, value: &[u8], signature: &[u8], message: &[u8]) -> (outcome: Result<
        bool,
        AuthHandlerError,
    >)
        ensures
            judged(outcome) == signed_by_holder(value@, signature@, message@),
    {
        let (algorithm, _, document) = match open_record(value) {
            Ok(parts) => parts,
            Err(error) => {
                return Err(error);
            },
        };
        match public_key_from_did_doc(document) {
            Ok(public_key) => check(algorithm.as_str(), public_key.as_slice(), signature, message),
            Err(error) => Err(error),
        }
    }

    fn verify_self_signed(&self, value: &[u8]) -> (outcome: Result<bool, AuthHandlerError>)
        ensures
            judged(outcome) == self_signed(value@),
    {
        let (algorithm, signature, document) = match open_record(value) {
            Ok(parts) => parts,
            Err(error) => {
                return Err(error);
            },
        };
        match public_key_from_did_doc(document) {
            Ok(public_key) => check(
                algorithm.as_str(),
                public_key.as_slice(),
                signature,
                document,
            ),
            Err(error) => Err(error),
        }
    }

    fn verify_key_rotation(&self, new_value: &[u8], old_value: &[u8], auth_signature: &[u8]) -> (outcome:
        Result<bool, AuthHandlerError>)
        ensures
            judged(outcome) == rotated(new_value@, old_value@, auth_signature@),
    {
        match self.verify_by_holder(old_value, auth_signature, new_value) {
            Ok(true) => self.verify_self_signed(new_value),
            Ok(false) => Ok(false),
            Err(error) => Err(error),
        }
    }
}

impl SignatureVerifierHandler for DIDSignatureVerifierHandler {
    open spec fn record_verdict(&self, value: Seq<u8>) -> Result<bool, AuthFault> {
        self_signed(value)
    }

    open spec fn update_verdict(&self, value: Seq<u8>, old_value: Seq<u8>, auth: Seq<u8>) -> Result<
        bool,
        AuthFault,
    > {
        rotated(value, old_value, auth)
    }

    open spec fn delete_verdict(&self, value: Seq<u8>, auth: Seq<u8>, message: Seq<u8>) -> Result<
        bool,
        AuthFault,
    > {
        signed_by_holder(value, auth, message)
    }

    open spec fn issuer_verdict(&self, value: Seq<u8>, issuer: IssuerModel) -> Result<
        bool,
        AuthFault,
    > {
        issued(value, issuer)
    }

    fn handle_signature_verification(&self, value: &[u8]) -> (outcome: Result<
        bool,
        AuthHandlerError,
    >) {
        self.verify_self_signed(value)
    }

    fn handle_update_verification(
        &self,
        value: &[u8],
        old_value: &[u8],
        auth_signature: &[u8],
    ) -> (outcome: Result<bool, AuthHandlerError>) {
        self.verify_key_rotation(value, old_value, auth_signature)
    }

    fn handle_signature_delete_operation(
        &self,
        value: &[u8],
        auth_signature: &[u8],
        delete_msg: &[u8],
    ) -> (outcome: Result<bool, AuthHandlerError>) {
        self.verify_by_holder(value, auth_signature, delete_msg)
    }

    fn handle_issuer_node_signature_verification(&self, value: &[u8], issuer: &IssuerKey) -> (outcome:
        Result<bool, AuthHandlerError>) {
        let (algorithm, signature, document) = match open_record(value) {
            Ok(parts) => parts,
            Err(error) => {
                return Err(error);
            },
        };
        match issuer {
            IssuerKey::Loaded(public_key) => check(
                algorithm.as_str(),
                public_key.as_slice(),
                signature,
                document,
            ),
            IssuerKey::Unreadable(text) => Err(AuthHandlerError::Io(text.clone())),
        }
    }
}

} // verus!
