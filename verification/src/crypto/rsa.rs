//! RSA signatures: PKCS #1 v1.5 padding over SHA-256.
//!
//! Keys are read from DER (PKCS #8) or, failing that, from PEM.

use ::rsa::pkcs1v15::Signature;
use ::rsa::pkcs1v15::SigningKey;
use ::rsa::pkcs1v15::VerifyingKey;
use ::rsa::pkcs8::DecodePrivateKey;
use ::rsa::pkcs8::DecodePublicKey;
use ::rsa::pkcs8::EncodePublicKey;
use ::rsa::pkcs8::SecretDocument;
use ::rsa::signature::RandomizedSigner;
use ::rsa::signature::SignatureEncoding;
use ::rsa::signature::Verifier;
use ::rsa::RsaPrivateKey;
use ::rsa::RsaPublicKey;
use sha2::Sha256;
use vstd::prelude::*;
use vstd::utf8::decode_utf8;
use vstd::utf8::valid_utf8;

use crate::crypto::signature_verifier::SignatureVerifier;
use crate::crypto::signature_verifier::Signer;
use crate::crypto::signature_verifier::VerifierError;
use crate::crypto::signature_verifier::VerifierFault;
use crate::text::utf8_error;
use crate::text::utf8_text;

verus! {

/// The bytes are the DER form of an RSA public key.
pub uninterp spec fn rsa_is_public(key: Seq<u8>) -> bool;

/// The DER form of the RSA public key that the PEM text holds, or the text of the
/// error where it holds none.
pub uninterp spec fn rsa_public_pem(text: Seq<char>) -> Result<Seq<u8>, Seq<char>>;

/// The signature of the message is valid under the public key in DER form.
pub uninterp spec fn rsa_valid(key: Seq<u8>, signature: Seq<u8>, message: Seq<u8>) -> bool;

/// The bytes are the DER form of an RSA private key.
pub uninterp spec fn rsa_is_private(key: Seq<u8>) -> bool;

/// The DER form of the RSA private key that the PEM text holds, or the text of
/// the error where it holds none.
pub uninterp spec fn rsa_private_pem(text: Seq<char>) -> Result<Seq<u8>, Seq<char>>;

/// The DER form of the public key that belongs to the private key in DER form, or
/// the text of the error where it has none.
pub uninterp spec fn rsa_public_of(key: Seq<u8>) -> Result<Seq<u8>, Seq<char>>;

/// `RsaPublicKey::from_public_key_der`: whether it reads a key from the bytes.
#[verifier::external_body]
fn public_from_der(key: &[u8]) -> (is_key: bool)
    ensures
        is_key == rsa_is_public(key@),
{
    RsaPublicKey::from_public_key_der(key).is_ok()
}

/// `RsaPublicKey::from_public_key_pem`: the key that it reads from the text, put
/// into DER form.
#[verifier::external_body]
fn public_from_pem(text: &str) -> (key: Result<Vec<u8>, String>)
    ensures
        match key {
            Ok(der) => rsa_public_pem(text@) == Ok::<_, Seq<char>>(der@) && rsa_is_public(der@),
            Err(error) => rsa_public_pem(text@) == Err::<Seq<u8>, _>(error@),
        },
{
    let key = RsaPublicKey::from_public_key_pem(text).map_err(|error| error.to_string())?;
    let der = key.to_public_key_der().map_err(|error| error.to_string())?;
    Ok(der.as_bytes().to_vec())
}

/// `VerifyingKey::verify` with SHA-256: whether it accepts the signature, which
/// depends on the arguments alone.
#[verifier::external_body]
fn check_with_der(key: &[u8], signature: &[u8], message: &[u8]) -> (valid: bool)
    requires
        rsa_is_public(key@),
    ensures
        valid == rsa_valid(key@, signature@, message@),
{
    match (RsaPublicKey::from_public_key_der(key), Signature::try_from(signature)) {
        (Ok(key), Ok(signature)) => VerifyingKey::<Sha256>::new(key).verify(message, &signature).is_ok(),
        _ => false,
    }
}

/// `RsaPrivateKey::from_pkcs8_der`: whether it reads a key from the bytes.
#[verifier::external_body]
fn private_from_der(key: &[u8]) -> (is_key: bool)
    ensures
        is_key == rsa_is_private(key@),
{
    RsaPrivateKey::from_pkcs8_der(key).is_ok()
}

/// `RsaPrivateKey::from_pkcs8_pem`: whether it reads a key from the text.  The DER
/// form of the key is what `SecretDocument::from_pem` takes out of the text, which
/// is where the key is read from.
#[verifier::external_body]
fn private_from_pem(text: &str) -> (key: Result<Vec<u8>, String>)
    ensures
        match key {
            Ok(der) => rsa_private_pem(text@) == Ok::<_, Seq<char>>(der@) && rsa_is_private(der@),
            Err(error) => rsa_private_pem(text@) == Err::<Seq<u8>, _>(error@),
        },
{
    RsaPrivateKey::from_pkcs8_pem(text).map_err(|error| error.to_string())?;
    let (_, der) = SecretDocument::from_pem(text).map_err(|error| error.to_string())?;
    Ok(der.as_bytes().to_vec())
}

/// `RsaPrivateKey::to_public_key`, put into DER form.
#[verifier::external_body]
fn public_of_private(key: &[u8]) -> (public_key: Result<Vec<u8>, String>)
    requires
        rsa_is_private(key@),
    ensures
        match public_key {
            Ok(der) => rsa_public_of(key@) == Ok::<_, Seq<char>>(der@),
            Err(error) => rsa_public_of(key@) == Err::<Seq<u8>, _>(error@),
        },
{
    let key = RsaPrivateKey::from_pkcs8_der(key).map_err(|error| error.to_string())?;
    let der = key.to_public_key().to_public_key_der().map_err(|error| error.to_string())?;
    Ok(der.as_bytes().to_vec())
}

/// The signature is valid under the public key that belongs to the private key in
/// DER form, if verifiers take that key.
pub open spec fn fits_own_key(key: Seq<u8>, signature: Seq<u8>, message: Seq<u8>) -> bool {
    rsa_public_of(key) matches Ok(public_key) ==> (rsa_is_public(public_key) ==> rsa_valid(
        public_key,
        signature,
        message,
    ))
}

/// `SigningKey::try_sign_with_rng` with SHA-256.  A signature that it gives was
/// checked against the public key that belongs to the private one.  Whether it
/// gives one, and which, is left to chance where the factors in the key are not
/// prime, which is tested nowhere: nothing is claimed of that.  The precomputed
/// values are cleared because the computation with them does not come to an end
/// where the first factor is far smaller than the second.
#[verifier::external_body]
fn sign_with_der(key: &[u8], message: &[u8]) -> (signed: Result<Vec<u8>, String>)
    requires
        rsa_is_private(key@),
    ensures
        signed matches Ok(bytes) ==> fits_own_key(key@, bytes@, message@),
{
    let mut key = RsaPrivateKey::from_pkcs8_der(key).map_err(|error| error.to_string())?;
    key.clear_precomputed();
    match SigningKey::<Sha256>::new(key).try_sign_with_rng(&mut rand::thread_rng(), message) {
        Ok(signature) => Ok(signature.to_vec()),
        Err(error) => Err(error.to_string()),
    }
}

/// The DER form of the public key in the bytes, which are DER or PEM.
pub open spec fn rsa_public_key(key: Seq<u8>) -> Result<Seq<u8>, VerifierFault> {
    if rsa_is_public(key) {
        Ok(key)
    } else if !valid_utf8(key) {
        Err(VerifierFault::VerificationFailed(utf8_error(key)))
    } else {
        match rsa_public_pem(decode_utf8(key)) {
            Ok(der) => Ok(der),
            Err(text) => Err(VerifierFault::VerificationFailed(text)),
        }
    }
}

/// The DER form of the private key in the bytes, which are DER or PEM.
pub open spec fn rsa_private_key(key: Seq<u8>) -> Result<Seq<u8>, VerifierFault> {
    if rsa_is_private(key) {
        Ok(key)
    } else if !valid_utf8(key) {
        Err(VerifierFault::VerificationFailed(utf8_error(key)))
    } else {
        match rsa_private_pem(decode_utf8(key)) {
            Ok(der) => Ok(der),
            Err(text) => Err(VerifierFault::VerificationFailed(text)),
        }
    }
}

fn load_public_key(key: &[u8]) -> (der: Result<Vec<u8>, VerifierError>)
    ensures
        match der {
            Ok(bytes) => rsa_public_key(key@) == Ok::<_, VerifierFault>(bytes@) && rsa_is_public(
                bytes@,
            ),
            Err(error) => rsa_public_key(key@) == Err::<Seq<u8>, _>(error@),
        },
{
    if public_from_der(key) {
        return Ok(vstd::slice::slice_to_vec(key));
    }
    match utf8_text(key) {
        Ok(text) => {
            proof {
                vstd::utf8::encode_utf8_decode_utf8(text@);
            }
            match public_from_pem(text.as_str()) {
                Ok(der) => Ok(der),
                Err(error) => Err(VerifierError::VerificationFailed(error)),
            }
        },
        Err(error) => Err(VerifierError::VerificationFailed(error)),
    }
}

fn load_private_key(key: &[u8]) -> (der: Result<Vec<u8>, VerifierError>)
    ensures
        match der {
            Ok(bytes) => rsa_private_key(key@) == Ok::<_, VerifierFault>(bytes@) && rsa_is_private(
                bytes@,
            ),
            Err(error) => rsa_private_key(key@) == Err::<Seq<u8>, _>(error@),
        },
{
    if private_from_der(key) {
        return Ok(vstd::slice::slice_to_vec(key));
    }
    match utf8_text(key) {
        Ok(text) => {
            proof {
                vstd::utf8::encode_utf8_decode_utf8(text@);
            }
            match private_from_pem(text.as_str()) {
                Ok(der) => Ok(der),
                Err(error) => Err(VerifierError::VerificationFailed(error)),
            }
        },
        Err(error) => Err(VerifierError::VerificationFailed(error)),
    }
}

/// The outcome of a check of an RSA signature.
pub open spec fn rsa_verdict(public_key: Seq<u8>, signature: Seq<u8>, message: Seq<u8>) -> Result<
    bool,
    VerifierFault,
> {
    match rsa_public_key(public_key) {
        Ok(der) => Ok(rsa_valid(der, signature, message)),
        Err(fault) => Err(fault),
    }
}

/// Checks RSA signatures.
pub struct RSASignatureVerifier;

impl SignatureVerifier for RSASignatureVerifier {
    open spec fn verdict(
        &self,
        public_key: Seq<u8>,
        signature: Seq<u8>,
        message: Seq<u8>,
    ) -> Result<bool, VerifierFault> {
        rsa_verdict(public_key, signature, message)
    }

    fn verify(&self, public_key: &[u8], signature: &[u8], message: &[u8]) -> (outcome: Result<
        bool,
        VerifierError,
    >) {
        match load_public_key(public_key) {
            Ok(der) => Ok(check_with_der(der.as_slice(), signature, message)),
            Err(error) => Err(error),
        }
    }
}

/// Asked to sign the message with the private key in DER form, the `rsa` crate
/// gave the outcome.
pub closed spec fn rsa_gave(
    key: Seq<u8>,
    message: Seq<u8>,
    outcome: Result<Seq<u8>, Seq<char>>,
) -> bool {
    exists|der: &[u8], bytes: &[u8], signed: Result<Vec<u8>, String>|
        der@ == key && bytes@ == message && #[trigger] call_ensures(
            sign_with_der,
            (der, bytes),
            signed,
        ) && outcome == match signed {
            Ok(signature) => Ok::<Seq<u8>, Seq<char>>(signature@),
            Err(error) => Err(error@),
        }
}

/// Signing the message with the private key can give the outcome: what the `rsa`
/// crate gave for the key, or why there is no key.
pub open spec fn rsa_can_give(
    private_key: Seq<u8>,
    message: Seq<u8>,
    outcome: Result<Seq<u8>, VerifierFault>,
) -> bool {
    match rsa_private_key(private_key) {
        Ok(der) => match outcome {
            Ok(signature) => rsa_gave(der, message, Ok(signature)),
            Err(VerifierFault::VerificationFailed(text)) => rsa_gave(der, message, Err(text)),
            Err(_) => false,
        },
        Err(fault) => outcome == Err::<Seq<u8>, _>(fault),
    }
}

/// The DER form of the public key that belongs to the private key, which is DER or
/// PEM.  Verifiers do not take every such key: some are too long.
pub open spec fn rsa_own_key(private_key: Seq<u8>) -> Result<Seq<u8>, VerifierFault> {
    match rsa_private_key(private_key) {
        Ok(der) => match rsa_public_of(der) {
            Ok(public_key) => if rsa_is_public(public_key) {
                Ok(public_key)
            } else {
                Err(VerifierFault::VerificationFailed("public key not accepted"@))
            },
            Err(text) => Err(VerifierFault::VerificationFailed(text)),
        },
        Err(fault) => Err(fault),
    }
}

/// Makes RSA signatures.
pub struct RSASigner;

impl RSASigner {
    /// The public key that belongs to the private key.
    pub fn public_key(private_key: &[u8]) -> (public_key: Result<Vec<u8>, VerifierError>)
        ensures
            match public_key {
                Ok(bytes) => rsa_own_key(private_key@) == Ok::<_, VerifierFault>(bytes@),
                Err(error) => rsa_own_key(private_key@) == Err::<Seq<u8>, _>(error@),
            },
    {
        let der: Vec<u8> = match load_private_key(private_key) {
            Ok(der) => der,
            Err(error) => {
                return Err(error);
            },
        };
        match public_of_private(der.as_slice()) {
            Ok(public_key) => if public_from_der(public_key.as_slice()) {
                Ok(public_key)
            } else {
                Err(VerifierError::VerificationFailed("public key not accepted".to_owned()))
            },
            Err(error) => Err(VerifierError::VerificationFailed(error)),
        }
    }
}

impl Signer for RSASigner {
    open spec fn can_give(
        &self,
        private_key: Seq<u8>,
        message: Seq<u8>,
        outcome: Result<Seq<u8>, VerifierFault>,
    ) -> bool {
        rsa_can_give(private_key, message, outcome)
    }

    fn sign(&self, private_key: &[u8], message: &[u8]) -> (signed: Result<Vec<u8>, VerifierError>)
    {
        let der: Vec<u8> = match load_private_key(private_key) {
            Ok(der) => der,
            Err(error) => {
                return Err(error);
            },
        };
        match sign_with_der(der.as_slice(), message) {
            Ok(bytes) => Ok(bytes),
            Err(error) => Err(VerifierError::VerificationFailed(error)),
        }
    }
}

/// What the private key signs is valid under the public key that belongs to it.
pub proof fn an_rsa_signature_verifies(
    public_key: Seq<u8>,
    private_key: Seq<u8>,
    message: Seq<u8>,
    signature: Seq<u8>,
)
    requires
        rsa_own_key(private_key) == Ok::<_, VerifierFault>(public_key),
        rsa_can_give(private_key, message, Ok(signature)),
    ensures
        rsa_verdict(public_key, signature, message) == Ok::<bool, VerifierFault>(true),
{
    let key = rsa_private_key(private_key)->Ok_0;
    let (der, bytes, signed) = choose|der: &[u8], bytes: &[u8], signed: Result<Vec<u8>, String>|
        der@ == key && bytes@ == message && #[trigger] call_ensures(
            sign_with_der,
            (der, bytes),
            signed,
        ) && Ok::<Seq<u8>, Seq<char>>(signature) == match signed {
            Ok(signature) => Ok::<Seq<u8>, Seq<char>>(signature@),
            Err(error) => Err(error@),
        };
    assert(fits_own_key(key, signature, message));
}

} // verus!
