//! Ed25519 signatures.
//!
//! Public keys and private seeds are 32 bytes long, signatures 64 bytes.

use ed25519_dalek::Signature;
use ed25519_dalek::Signer as DalekSigner;
use ed25519_dalek::SigningKey;
use ed25519_dalek::Verifier as DalekVerifier;
use ed25519_dalek::VerifyingKey;
use vstd::prelude::*;

use crate::crypto::signature_verifier::SignatureVerifier;
use crate::crypto::signature_verifier::Signer;
use crate::crypto::signature_verifier::VerifierError;
use crate::crypto::signature_verifier::VerifierFault;
use crate::text::append_decimal;
use crate::text::decimal;

verus! {

/// Whether `ed25519_dalek` accepts the signature of the message under the public
/// key, or the text of its error where the key is not one.
pub uninterp spec fn ed25519_outcome(
    public_key: Seq<u8>,
    signature: Seq<u8>,
    message: Seq<u8>,
) -> Result<bool, Seq<char>>;

/// The signature that `ed25519_dalek` makes of the message with the seed.
pub uninterp spec fn ed25519_signed(seed: Seq<u8>, message: Seq<u8>) -> Seq<u8>;

/// The public key that belongs to the seed.
pub uninterp spec fn ed25519_public(seed: Seq<u8>) -> Seq<u8>;

/// The outcome says that the signature is valid.
pub open spec fn accepted(outcome: Result<bool, Seq<char>>) -> bool {
    outcome matches Ok(valid) && valid
}

/// `VerifyingKey::from_bytes` and then `VerifyingKey::verify`, which depend on
/// their arguments alone.
#[verifier::external_body]
fn dalek_verify(public_key: &[u8; 32], signature: &[u8; 64], message: &[u8]) -> (outcome: Result<
    bool,
    String,
>)
    ensures
        match outcome {
            Ok(valid) => ed25519_outcome(public_key@, signature@, message@) == Ok::<_, Seq<char>>(
                valid,
            ),
            Err(error) => ed25519_outcome(public_key@, signature@, message@) == Err::<bool, _>(
                error@,
            ),
        },
{
    match VerifyingKey::from_bytes(public_key) {
        Ok(key) => Ok(key.verify(message, &Signature::from_bytes(signature)).is_ok()),
        Err(error) => Err(error.to_string()),
    }
}

/// `SigningKey::sign`, which is deterministic.  What it makes is valid under the
/// public key of the seed.
#[verifier::external_body]
fn dalek_sign(seed: &[u8; 32], message: &[u8]) -> (signature: [u8; 64])
    ensures
        signature@ == ed25519_signed(seed@, message@),
        accepted(ed25519_outcome(ed25519_public(seed@), signature@, message@)),
{
    SigningKey::from_bytes(seed).sign(message).to_bytes()
}

/// `SigningKey::verifying_key`, which is a function of the seed.
#[verifier::external_body]
fn dalek_public_key(seed: &[u8; 32]) -> (public_key: [u8; 32])
    ensures
        public_key@ == ed25519_public(seed@),
{
    SigningKey::from_bytes(seed).verifying_key().to_bytes()
}

/// The public key that belongs to the seed.
pub fn ed25519_public_key(seed: &[u8; 32]) -> (public_key: [u8; 32])
    ensures
        public_key@ == ed25519_public(seed@),
{
    dalek_public_key(seed)
}

/// The bytes as an array of 32.
fn as_32(bytes: &[u8]) -> (array: [u8; 32])
    requires
        bytes@.len() == 32,
    ensures
        array@ == bytes@,
{
    let mut array: [u8; 32] = [0; 32];
    let mut at: usize = 0;
    while at < 32
        invariant
            at <= 32,
            bytes@.len() == 32,
            forall|i: int| 0 <= i < at ==> array@[i] == bytes@[i],
        decreases 32 - at,
    {
        array[at] = bytes[at];
        at = at + 1;
    }
    assert(array@ =~= bytes@);
    array
}

/// The bytes as an array of 64.
fn as_64(bytes: &[u8]) -> (array: [u8; 64])
    requires
        bytes@.len() == 64,
    ensures
        array@ == bytes@,
{
    let mut array: [u8; 64] = [0; 64];
    let mut at: usize = 0;
    while at < 64
        invariant
            at <= 64,
            bytes@.len() == 64,
            forall|i: int| 0 <= i < at ==> array@[i] == bytes@[i],
        decreases 64 - at,
    {
        array[at] = bytes[at];
        at = at + 1;
    }
    assert(array@ =~= bytes@);
    array
}

/// Checks Ed25519 signatures.
pub struct Ed25519SignatureVerifier;

/// The outcome of a check of an Ed25519 signature.
pub open spec fn ed25519_verdict(
    public_key: Seq<u8>,
    signature: Seq<u8>,
    message: Seq<u8>,
) -> Result<bool, VerifierFault> {
    if public_key.len() != 32 {
        Err(VerifierFault::InvalidKeyLength(public_key.len() as usize))
    } else if signature.len() != 64 {
        Err(
            VerifierFault::VerificationFailed(
                "Ed25519 signature must be 64 bytes, got "@ + decimal(signature.len()),
            ),
        )
    } else {
        match ed25519_outcome(public_key, signature, message) {
            Ok(valid) => Ok(valid),
            Err(text) => Err(VerifierFault::VerificationFailed(text)),
        }
    }
}

impl SignatureVerifier for Ed25519SignatureVerifier {
    open spec fn verdict(
        &self,
        public_key: Seq<u8>,
        signature: Seq<u8>,
        message: Seq<u8>,
    ) -> Result<bool, VerifierFault> {
        ed25519_verdict(public_key, signature, message)
    }

    fn verify(&self, public_key: &[u8], signature: &[u8], message: &[u8]) -> (outcome: Result<
        bool,
        VerifierError,
    >) {
        if public_key.len() != 32 {
            return Err(VerifierError::InvalidKeyLength(public_key.len()));
        }
        if signature.len() != 64 {
            let mut text: String = "Ed25519 signature must be 64 bytes, got ".to_owned();
            append_decimal(&mut text, signature.len() as u64);
            return Err(VerifierError::VerificationFailed(text));
        }
        match dalek_verify(&as_32(public_key), &as_64(signature), message) {
            Ok(valid) => Ok(valid),
            Err(error) => Err(VerifierError::VerificationFailed(error)),
        }
    }
}

/// Makes Ed25519 signatures.
pub struct Ed25519Signer;

/// The Ed25519 signature of the message, for a seed of the right length.
pub open spec fn ed25519_signature(private_key: Seq<u8>, message: Seq<u8>) -> Result<
    Seq<u8>,
    VerifierFault,
> {
    if private_key.len() != 32 {
        Err(VerifierFault::InvalidKeyLength(private_key.len() as usize))
    } else {
        Ok(ed25519_signed(private_key, message))
    }
}

impl Signer for Ed25519Signer {
    open spec fn can_give(
        &self,
        private_key: Seq<u8>,
        message: Seq<u8>,
        outcome: Result<Seq<u8>, VerifierFault>,
    ) -> bool {
        outcome == ed25519_signature(private_key, message)
    }

    fn sign(&self, private_key: &[u8], message: &[u8]) -> (signed: Result<Vec<u8>, VerifierError>)
        ensures
            signed matches Ok(bytes) ==> forall|public_key: Seq<u8>|
                public_key.len() == 32 && public_key == ed25519_public(private_key@)
                    ==> #[trigger] ed25519_verdict(public_key, bytes@, message@) == Ok::<
                    bool,
                    VerifierFault,
                >(true),
            signed matches Ok(bytes) ==> bytes@.len() == 64,
    {
        if private_key.len() != 32 {
            return Err(VerifierError::InvalidKeyLength(private_key.len()));
        }
        let seed: [u8; 32] = as_32(private_key);
        let signature: [u8; 64] = dalek_sign(&seed, message);
        Ok(vstd::slice::slice_to_vec(signature.as_slice()))
    }
}

} // verus!
