//! Making key pairs, naming their files, and showing public keys as JWKs.
//!
//! A manager keeps its security level.  A public key is kept in
//! `<keys_dir>/<key_name>.public`, a private key in
//! `<keys_dir>/<key_name>.private`, as raw bytes.

use pqcrypto_kyber::kyber1024;
use pqcrypto_kyber::kyber512;
use pqcrypto_kyber::kyber768;
use pqcrypto_traits::kem::PublicKey;
use pqcrypto_traits::kem::SecretKey;
use rand::rngs::OsRng;
use rand::RngCore;
use vstd::prelude::*;

use crate::crypto::base64url::b64url_decode;
use crate::crypto::base64url::b64url_decoded;
use crate::crypto::base64url::b64url_encode;
use crate::crypto::base64url::b64url_encoded;
use crate::crypto::dilithium::dilithium_pair;
use crate::crypto::dilithium::dilithium_signature;
use crate::crypto::dilithium::dilithium_verdict;
use crate::crypto::dilithium::keypair_d2;
use crate::crypto::dilithium::keypair_d3;
use crate::crypto::dilithium::keypair_d5;
use crate::crypto::dilithium::DilithiumSignatureVerifier;
use crate::crypto::dilithium::DilithiumSigner;
use crate::crypto::ed25519::ed25519_public;
use crate::crypto::ed25519::ed25519_public_key;
use crate::crypto::ed25519::ed25519_signature;
use crate::crypto::ed25519::ed25519_verdict;
use crate::crypto::ed25519::Ed25519SignatureVerifier;
use crate::crypto::ed25519::Ed25519Signer;
use crate::crypto::signature_verifier::SignatureVerifier;
use crate::crypto::signature_verifier::Signer;
use crate::crypto::signature_verifier::VerifierError;
use crate::crypto::signature_verifier::VerifierFault;
use crate::text::append_decimal;
use crate::text::decimal;
use crate::text::same_text;

verus! {

/// Why a key could not be made, found or used.
#[derive(Debug)]
pub enum KeyManagerError {
    NotFound(String),
    AlreadyExists(String),
    InvalidSecurityLevel(u32),
    Crypto(VerifierError),
    Io(String),
}

/// A [`KeyManagerError`] with its texts as sequences of characters.
pub enum KeyFault {
    NotFound(Seq<char>),
    AlreadyExists(Seq<char>),
    InvalidSecurityLevel(u32),
    Crypto(VerifierFault),
    Io(Seq<char>),
}

impl View for KeyManagerError {
    type V = KeyFault;

    open spec fn view(&self) -> KeyFault {
        match *self {
            KeyManagerError::NotFound(name) => KeyFault::NotFound(name@),
            KeyManagerError::AlreadyExists(name) => KeyFault::AlreadyExists(name@),
            KeyManagerError::InvalidSecurityLevel(level) => KeyFault::InvalidSecurityLevel(level),
            KeyManagerError::Crypto(error) => KeyFault::Crypto(error@),
            KeyManagerError::Io(text) => KeyFault::Io(text@),
        }
    }
}

impl KeyFault {
    /// The error as it is shown to people.
    pub open spec fn text(&self) -> Seq<char> {
        match *self {
            KeyFault::NotFound(name) => "key not found: "@ + name,
            KeyFault::AlreadyExists(name) => "key already exists: "@ + name,
            KeyFault::InvalidSecurityLevel(level) => "invalid security level: "@ + decimal(
                level as nat,
            ),
            KeyFault::Crypto(fault) => "crypto error: "@ + fault.text(),
            KeyFault::Io(text) => "I/O error: "@ + text,
        }
    }
}

impl KeyManagerError {
    /// The error as it is shown to people.
    pub fn display(&self) -> (text: String)
        ensures
            text@ == self@.text(),
    {
        match self {
            KeyManagerError::NotFound(name) => joined("key not found: ", name.as_str()),
            KeyManagerError::AlreadyExists(name) => joined("key already exists: ", name.as_str()),
            KeyManagerError::InvalidSecurityLevel(level) => {
                let mut text: String = "invalid security level: ".to_owned();
                append_decimal(&mut text, *level as u64);
                text
            },
            KeyManagerError::Crypto(error) => joined("crypto error: ", error.display().as_str()),
            KeyManagerError::Io(detail) => joined("I/O error: ", detail.as_str()),
        }
    }
}

fn joined(front: &str, back: &str) -> (text: String)
    ensures
        text@ == front@ + back@,
{
    let mut text: String = front.to_owned();
    text.append(back);
    text
}

/// The key as base64url text without padding.  Decoding the text gives back the
/// key.
pub fn b64encode_key(key: &[u8]) -> (text: String)
    ensures
        text@ == b64url_encoded(key@),
        b64url_decoded(text@) == Ok::<Seq<u8>, Seq<char>>(key@),
{
    b64url_encode(key)
}

/// The key that the base64url text stands for, or the text of the error.
pub fn b64decode_key(text: &str) -> (key: Result<Vec<u8>, String>)
    ensures
        match key {
            Ok(bytes) => b64url_decoded(text@) == Ok::<_, Seq<char>>(bytes@),
            Err(error) => b64url_decoded(text@) == Err::<Seq<u8>, _>(error@),
        },
{
    b64url_decode(text)
}

/// `kyber512::keypair`: a random pair of a public key of 800 bytes and a private
/// key of 1632 bytes.
#[verifier::external_body]
pub(crate) fn keypair_k512() -> (pair: (Vec<u8>, Vec<u8>))
    ensures
        pair.0@.len() == 800,
        pair.1@.len() == 1632,
{
    let (public_key, private_key) = kyber512::keypair();
    (public_key.as_bytes().to_vec(), private_key.as_bytes().to_vec())
}

/// `kyber768::keypair`: a random pair of a public key of 1184 bytes and a private
/// key of 2400 bytes.
#[verifier::external_body]
fn keypair_k768() -> (pair: (Vec<u8>, Vec<u8>))
    ensures
        pair.0@.len() == 1184,
        pair.1@.len() == 2400,
{
    let (public_key, private_key) = kyber768::keypair();
    (public_key.as_bytes().to_vec(), private_key.as_bytes().to_vec())
}

/// `kyber1024::keypair`: a random pair of a public key of 1568 bytes and a
/// private key of 3168 bytes.
#[verifier::external_body]
fn keypair_k1024() -> (pair: (Vec<u8>, Vec<u8>))
    ensures
        pair.0@.len() == 1568,
        pair.1@.len() == 3168,
{
    let (public_key, private_key) = kyber1024::keypair();
    (public_key.as_bytes().to_vec(), private_key.as_bytes().to_vec())
}

/// 32 bytes from `OsRng` by `fill_bytes`.  They are random, so nothing is claimed
/// of them.
#[verifier::external_body]
fn random_seed() -> (seed: [u8; 32]) {
    let mut seed = [0u8; 32];
    OsRng.fill_bytes(&mut seed);
    seed
}

/// The keys are ones that `kyber512::keypair`, `kyber768::keypair` or
/// `kyber1024::keypair` made together.
pub closed spec fn kyber_pair(level: u16, public_key: Seq<u8>, private_key: Seq<u8>) -> bool {
    match level {
        512 => exists|pair: (Vec<u8>, Vec<u8>)|
            pair.0@ == public_key && pair.1@ == private_key && #[trigger] call_ensures(
                keypair_k512,
                (),
                pair,
            ),
        768 => exists|pair: (Vec<u8>, Vec<u8>)|
            pair.0@ == public_key && pair.1@ == private_key && #[trigger] call_ensures(
                keypair_k768,
                (),
                pair,
            ),
        _ => exists|pair: (Vec<u8>, Vec<u8>)|
            pair.0@ == public_key && pair.1@ == private_key && #[trigger] call_ensures(
                keypair_k1024,
                (),
                pair,
            ),
    }
}

/// The seed is one that was drawn at random.
pub closed spec fn drawn_seed(seed: Seq<u8>) -> bool {
    exists|drawn: [u8; 32]| drawn@ == seed && #[trigger] call_ensures(random_seed, (), drawn)
}

/// The fields of a JWK, in the order in which they are written.
pub type Jose = Vec<(String, String)>;

/// The fields of a JWK as pairs of texts.
pub open spec fn jose_fields(jose: Seq<(String, String)>) -> Seq<(Seq<char>, Seq<char>)> {
    jose.map_values(|field: (String, String)| (field.0@, field.1@))
}

/// The value of the first field with the given name.
pub fn jose_field(jose: &Jose, name: &str) -> (value: Option<String>)
    ensures
        match value {
            Some(text) => exists|i: int|
                0 <= i < jose@.len() && (#[trigger] jose@[i]).0@ == name@ && jose@[i].1 == text
                    && forall|j: int| 0 <= j < i ==> (#[trigger] jose@[j]).0@ != name@,
            None => forall|i: int| 0 <= i < jose@.len() ==> (#[trigger] jose@[i]).0@ != name@,
        },
{
    let mut at: usize = 0;
    while at < jose.len()
        invariant
            at <= jose@.len(),
            forall|i: int| 0 <= i < at ==> (#[trigger] jose@[i]).0@ != name@,
        decreases jose@.len() - at,
    {
        if same_text(jose[at].0.as_str(), name) {
            return Some(jose[at].1.clone());
        }
        at = at + 1;
    }
    None
}

fn three_fields(
    first: (&str, String),
    second: (&str, String),
    third: (&str, String),
) -> (jose: Jose)
    ensures
        jose_fields(jose@) == seq![
            (first.0@, first.1@),
            (second.0@, second.1@),
            (third.0@, third.1@),
        ],
{
    let mut jose: Vec<(String, String)> = Vec::new();
    jose.push((first.0.to_owned(), first.1));
    jose.push((second.0.to_owned(), second.1));
    jose.push((third.0.to_owned(), third.1));
    assert(jose_fields(jose@) =~= seq![
        (first.0@, first.1@),
        (second.0@, second.1@),
        (third.0@, third.1@),
    ]);
    jose
}

/// The name of the file that a public key is kept in.
pub fn public_key_file(key_name: &str) -> (file: String)
    ensures
        file@ == key_name@ + ".public"@,
{
    joined(key_name, ".public")
}

/// The name of the file that a private key is kept in.
pub fn private_key_file(key_name: &str) -> (file: String)
    ensures
        file@ == key_name@ + ".private"@,
{
    joined(key_name, ".private")
}

/// The key that was read from its file.  Where nothing could be read, the key is
/// reported as not found, whatever the reason.
pub fn found_key(read: Option<Vec<u8>>, key_name: &str) -> (key: Result<Vec<u8>, KeyManagerError>)
    ensures
        match read {
            Some(bytes) => key == Ok::<_, KeyManagerError>(bytes),
            None => key matches Err(error) && error@ == KeyFault::NotFound(key_name@),
        },
{
    match read {
        Some(bytes) => Ok(bytes),
        None => Err(KeyManagerError::NotFound(key_name.to_owned())),
    }
}

/// Makes key pairs and shows public keys.
pub trait KeyManager {
    /// The keys can have been made together by this manager.
    spec fn makes(&self, public_key: Seq<u8>, private_key: Seq<u8>) -> bool;

    /// Why the manager makes no keys, if it makes none.
    spec fn refusal(&self) -> Option<KeyFault>;

    /// The fields of the JWK for a public key.
    spec fn jose(&self, public_key: Seq<u8>) -> Seq<(Seq<char>, Seq<char>)>;

    /// A fresh public key and its private key.
    fn generate_keypair(&self) -> (pair: Result<(Vec<u8>, Vec<u8>), KeyManagerError>)
        ensures
            match pair {
                Ok((public_key, private_key)) => self.refusal() is None && self.makes(
                    public_key@,
                    private_key@,
                ),
                Err(error) => self.refusal() == Some(error@),
            },
    ;

    /// The JWK for a public key.
    fn get_jose_format(&self, public_key: &[u8]) -> (jose: Jose)
        ensures
            jose_fields(jose@) == self.jose(public_key@),
    ;
}

/// Keys for Dilithium signatures, at level 2, 3 or 5.
pub struct DilithiumKeyManager {
    pub keys_dir: String,
    pub security_level: u8,
}

impl DilithiumKeyManager {
    /// A manager for keys in the given directory.
    pub fn new(keys_dir: String, security_level: u8) -> (manager: Self)
        ensures
            manager.keys_dir == keys_dir,
            manager.security_level == security_level,
    {
        Self { keys_dir, security_level }
    }

    /// Signs the message with the private key, whose length says its level.  What
    /// is signed with a key made together with a public key is valid under that.
    pub fn sign(&self, private_key: &[u8], message: &[u8]) -> (signed: Result<
        Vec<u8>,
        KeyManagerError,
    >)
        ensures
            match signed {
                Ok(bytes) => dilithium_signature(private_key@, message@) == Ok::<
                    Seq<u8>,
                    VerifierFault,
                >(bytes@) && forall|public_key: Seq<u8>|
                    dilithium_pair(public_key, private_key@) ==> #[trigger] dilithium_verdict(
                        public_key,
                        bytes@,
                        message@,
                    ) == Ok::<bool, VerifierFault>(true),
                Err(error) => error@ is Crypto && dilithium_signature(private_key@, message@)
                    == Err::<Seq<u8>, VerifierFault>(error@->Crypto_0),
            },
    {
        match DilithiumSigner.sign(private_key, message) {
            Ok(bytes) => Ok(bytes),
            Err(error) => Err(KeyManagerError::Crypto(error)),
        }
    }

    /// Whether the signature of the message is valid under the public key.
    pub fn verify_signature(&self, public_key: &[u8], message: &[u8], signature: &[u8]) -> (outcome:
        Result<bool, KeyManagerError>)
        ensures
            match outcome {
                Ok(valid) => dilithium_verdict(public_key@, signature@, message@) == Ok::<
                    bool,
                    VerifierFault,
                >(valid),
                Err(error) => error@ is Crypto && dilithium_verdict(
                    public_key@,
                    signature@,
                    message@,
                ) == Err::<bool, VerifierFault>(error@->Crypto_0),
            },
    {
        match DilithiumSignatureVerifier.verify(public_key, signature, message) {
            Ok(valid) => Ok(valid),
            Err(error) => Err(KeyManagerError::Crypto(error)),
        }
    }
}

impl KeyManager for DilithiumKeyManager {
    open spec fn makes(&self, public_key: Seq<u8>, private_key: Seq<u8>) -> bool {
        &&& dilithium_pair(public_key, private_key)
        &&& private_key.len() == match self.security_level {
            2 => 2560nat,
            3 => 4032nat,
            _ => 4896nat,
        }
    }

    open spec fn refusal(&self) -> Option<KeyFault> {
        if self.security_level == 2 || self.security_level == 3 || self.security_level == 5 {
            None
        } else {
            Some(KeyFault::InvalidSecurityLevel(self.security_level as u32))
        }
    }

    open spec fn jose(&self, public_key: Seq<u8>) -> Seq<(Seq<char>, Seq<char>)> {
        seq![
            ("kty"@, "MLWE"@),
            ("alg"@, "CRYDI"@ + decimal(self.security_level as nat)),
            ("x"@, b64url_encoded(public_key)),
        ]
    }

    fn generate_keypair(&self) -> (pair: Result<(Vec<u8>, Vec<u8>), KeyManagerError>) {
        match self.security_level {
            2 => Ok(keypair_d2()),
            3 => Ok(keypair_d3()),
            5 => Ok(keypair_d5()),
            _ => Err(KeyManagerError::InvalidSecurityLevel(self.security_level as u32)),
        }
    }

    fn get_jose_format(&self, public_key: &[u8]) -> (jose: Jose) {
        let mut algorithm: String = "CRYDI".to_owned();
        append_decimal(&mut algorithm, self.security_level as u64);
        three_fields(
            ("kty", "MLWE".to_owned()),
            ("alg", algorithm),
            ("x", b64encode_key(public_key)),
        )
    }
}

/// Keys for Kyber key encapsulation, at level 512, 768 or 1024.
pub struct KyberKeyManager {
    pub keys_dir: String,
    pub security_level: u16,
}

impl KyberKeyManager {
    /// A manager for keys in the given directory.
    pub fn new(keys_dir: String, security_level: u16) -> (manager: Self)
        ensures
            manager.keys_dir == keys_dir,
            manager.security_level == security_level,
    {
        Self { keys_dir, security_level }
    }
}

impl KeyManager for KyberKeyManager {
    open spec fn makes(&self, public_key: Seq<u8>, private_key: Seq<u8>) -> bool {
        &&& kyber_pair(self.security_level, public_key, private_key)
        &&& match self.security_level {
            512 => public_key.len() == 800 && private_key.len() == 1632,
            768 => public_key.len() == 1184 && private_key.len() == 2400,
            1024 => public_key.len() == 1568 && private_key.len() == 3168,
            _ => false,
        }
    }

    open spec fn refusal(&self) -> Option<KeyFault> {
        if self.security_level == 512 || self.security_level == 768 || self.security_level
            == 1024 {
            None
        } else {
            Some(KeyFault::InvalidSecurityLevel(self.security_level as u32))
        }
    }

    open spec fn jose(&self, public_key: Seq<u8>) -> Seq<(Seq<char>, Seq<char>)> {
        seq![
            ("kty"@, "KEM"@),
            ("alg"@, "KYBER"@ + decimal(self.security_level as nat)),
            ("x"@, b64url_encoded(public_key)),
        ]
    }

    fn generate_keypair(&self) -> (pair: Result<(Vec<u8>, Vec<u8>), KeyManagerError>) {
        match self.security_level {
            512 => Ok(keypair_k512()),
            768 => Ok(keypair_k768()),
            1024 => Ok(keypair_k1024()),
            _ => Err(KeyManagerError::InvalidSecurityLevel(self.security_level as u32)),
        }
    }

    fn get_jose_format(&self, public_key: &[u8]) -> (jose: Jose) {
        let mut algorithm: String = "KYBER".to_owned();
        append_decimal(&mut algorithm, self.security_level as u64);
        three_fields(
            ("kty", "KEM".to_owned()),
            ("alg", algorithm),
            ("x", b64encode_key(public_key)),
        )
    }
}

/// Keys for Ed25519 signatures.
pub struct Ed25519KeyManager {
    pub keys_dir: String,
}

impl Ed25519KeyManager {
    /// A manager for keys in the given directory.
    pub fn new(keys_dir: String) -> (manager: Self)
        ensures
            manager.keys_dir == keys_dir,
    {
        Self { keys_dir }
    }

    /// Signs the message with the seed.  The signature is valid under the public
    /// key of the seed.
    pub fn sign(&self, private_key: &[u8], message: &[u8]) -> (signed: Result<
        Vec<u8>,
        KeyManagerError,
    >)
        ensures
            match signed {
                Ok(bytes) => ed25519_signature(private_key@, message@) == Ok::<
                    Seq<u8>,
                    VerifierFault,
                >(bytes@) && forall|public_key: Seq<u8>|
                    public_key.len() == 32 && public_key == ed25519_public(private_key@)
                        ==> #[trigger] ed25519_verdict(public_key, bytes@, message@) == Ok::<
                        bool,
                        VerifierFault,
                    >(true),
                Err(error) => error@ is Crypto && ed25519_signature(private_key@, message@)
                    == Err::<Seq<u8>, VerifierFault>(error@->Crypto_0),
            },
    {
        match Ed25519Signer.sign(private_key, message) {
            Ok(bytes) => Ok(bytes),
            Err(error) => Err(KeyManagerError::Crypto(error)),
        }
    }

    /// Whether the signature of the message is valid under the public key.
    pub fn verify_signature(&self, public_key: &[u8], message: &[u8], signature: &[u8]) -> (outcome:
        Result<bool, KeyManagerError>)
        ensures
            match outcome {
                Ok(valid) => ed25519_verdict(public_key@, signature@, message@) == Ok::<
                    bool,
                    VerifierFault,
                >(valid),
                Err(error) => error@ is Crypto && ed25519_verdict(
                    public_key@,
                    signature@,
                    message@,
                ) == Err::<bool, VerifierFault>(error@->Crypto_0),
            },
    {
        match Ed25519SignatureVerifier.verify(public_key, signature, message) {
            Ok(valid) => Ok(valid),
            Err(error) => Err(KeyManagerError::Crypto(error)),
        }
    }
}

impl KeyManager for Ed25519KeyManager {
    open spec fn makes(&self, public_key: Seq<u8>, private_key: Seq<u8>) -> bool {
        &&& drawn_seed(private_key)
        &&& private_key.len() == 32
        &&& public_key.len() == 32
        &&& public_key == ed25519_public(private_key)
    }

    open spec fn refusal(&self) -> Option<KeyFault> {
        None
    }

    open spec fn jose(&self, public_key: Seq<u8>) -> Seq<(Seq<char>, Seq<char>)> {
        seq![("kty"@, "OKP"@), ("crv"@, "Ed25519"@), ("x"@, b64url_encoded(public_key))]
    }

    fn generate_keypair(&self) -> (pair: Result<(Vec<u8>, Vec<u8>), KeyManagerError>) {
        let seed: [u8; 32] = random_seed();
        assert(drawn_seed(seed@));
        let public_key: [u8; 32] = ed25519_public_key(&seed);
        Ok(
            (
                vstd::slice::slice_to_vec(public_key.as_slice()),
                vstd::slice::slice_to_vec(seed.as_slice()),
            ),
        )
    }

    fn get_jose_format(&self, public_key: &[u8]) -> (jose: Jose) {
        three_fields(
            ("kty", "OKP".to_owned()),
            ("crv", "Ed25519".to_owned()),
            ("x", b64encode_key(public_key)),
        )
    }
}

} // verus!
