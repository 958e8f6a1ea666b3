//! Dilithium signatures.
//!
//! The security level follows from the length of the key:
//!
//! | level | public key | private key | signature |
//! |-------|------------|-------------|-----------|
//! | 2     | 1312       | 2560        | 2420      |
//! | 3     | 1952       | 4032        | 3309      |
//! | 5     | 2592       | 4896        | 4627      |

use pqcrypto_dilithium::dilithium2;
use pqcrypto_dilithium::dilithium3;
use pqcrypto_dilithium::dilithium5;
use pqcrypto_traits::sign::DetachedSignature;
use pqcrypto_traits::sign::PublicKey;
use pqcrypto_traits::sign::SecretKey;
use vstd::prelude::*;

use crate::crypto::signature_verifier::dilithium_level_from_privkey_len;
use crate::crypto::signature_verifier::dilithium_level_from_pubkey_len;
use crate::crypto::signature_verifier::level_of_private;
use crate::crypto::signature_verifier::level_of_public;
use crate::crypto::signature_verifier::SignatureVerifier;
use crate::crypto::signature_verifier::Signer;
use crate::crypto::signature_verifier::VerifierError;
use crate::crypto::signature_verifier::VerifierFault;

verus! {

/// Which argument of a check has a length that it cannot have.
pub enum BadLength {
    PublicKey,
    Signature,
}

/// Whether `dilithium2` accepts the signature of the message under the public
/// key.
pub uninterp spec fn dilithium2_valid(
    public_key: Seq<u8>,
    signature: Seq<u8>,
    message: Seq<u8>,
) -> bool;

/// The signature that `dilithium2` makes of the message with the private key.
pub uninterp spec fn dilithium2_signed(private_key: Seq<u8>, message: Seq<u8>) -> Seq<u8>;

/// The keys were made together by `dilithium2::keypair`.
pub uninterp spec fn dilithium2_pair(public_key: Seq<u8>, private_key: Seq<u8>) -> bool;

/// `dilithium2::verify_detached_signature`, which depends on its arguments
/// alone.  `PublicKey::from_bytes` refuses every length but 1312, and
/// `DetachedSignature::from_bytes` every length above 2420.
#[verifier::external_body]
fn verify_d2(public_key: &[u8], signature: &[u8], message: &[u8]) -> (outcome: Result<
    bool,
    BadLength,
>)
    ensures
        match outcome {
            Ok(valid) => public_key@.len() == 1312 && signature@.len() <= 2420 && valid
                == dilithium2_valid(public_key@, signature@, message@),
            Err(BadLength::PublicKey) => public_key@.len() != 1312,
            Err(BadLength::Signature) => public_key@.len() == 1312 && signature@.len() > 2420,
        },
{
    let key = dilithium2::PublicKey::from_bytes(public_key).map_err(|_| BadLength::PublicKey)?;
    let detached = dilithium2::DetachedSignature::from_bytes(signature).map_err(
        |_| BadLength::Signature,
    )?;
    Ok(dilithium2::verify_detached_signature(&detached, message, &key).is_ok())
}

/// `dilithium2::detached_sign`, which is deterministic: a signature of 2420
/// bytes that is valid under the public key made together with the private one.
/// `SecretKey::from_bytes` refuses every length but 2560.
#[verifier::external_body]
fn sign_d2(private_key: &[u8], message: &[u8]) -> (signed: Option<Vec<u8>>)
    ensures
        match signed {
            Some(bytes) => private_key@.len() == 2560 && bytes@.len() == 2420 && bytes@
                == dilithium2_signed(private_key@, message@) && forall|public_key: Seq<u8>|
                dilithium2_pair(public_key, private_key@) ==> #[trigger] dilithium2_valid(
                    public_key,
                    bytes@,
                    message@,
                ),
            None => private_key@.len() != 2560,
        },
{
    match dilithium2::SecretKey::from_bytes(private_key) {
        Ok(key) => Some(dilithium2::detached_sign(message, &key).as_bytes().to_vec()),
        Err(_) => None,
    }
}

/// `dilithium2::keypair`: a random pair of a public key of 1312 bytes and a
/// private key of 2560 bytes.
#[verifier::external_body]
pub(crate) fn keypair_d2() -> (pair: (Vec<u8>, Vec<u8>))
    ensures
        pair.0@.len() == 1312,
        pair.1@.len() == 2560,
        dilithium2_pair(pair.0@, pair.1@),
{
    let (public_key, private_key) = dilithium2::keypair();
    (public_key.as_bytes().to_vec(), private_key.as_bytes().to_vec())
}

/// Whether `dilithium3` accepts the signature of the message under the public
/// key.
pub uninterp spec fn dilithium3_valid(
    public_key: Seq<u8>,
    signature: Seq<u8>,
    message: Seq<u8>,
) -> bool;

/// The signature that `dilithium3` makes of the message with the private key.
pub uninterp spec fn dilithium3_signed(private_key: Seq<u8>, message: Seq<u8>) -> Seq<u8>;

/// The keys were made together by `dilithium3::keypair`.
pub uninterp spec fn dilithium3_pair(public_key: Seq<u8>, private_key: Seq<u8>) -> bool;

/// `dilithium3::verify_detached_signature`, which depends on its arguments
/// alone.  `PublicKey::from_bytes` refuses every length but 1952, and
/// `DetachedSignature::from_bytes` every length above 3309.
#[verifier::external_body]
fn verify_d3(public_key: &[u8], signature: &[u8], message: &[u8]) -> (outcome: Result<
    bool,
    BadLength,
>)
    ensures
        match outcome {
            Ok(valid) => public_key@.len() == 1952 && signature@.len() <= 3309 && valid
                == dilithium3_valid(public_key@, signature@, message@),
            Err(BadLength::PublicKey) => public_key@.len() != 1952,
            Err(BadLength::Signature) => public_key@.len() == 1952 && signature@.len() > 3309,
        },
{
    let key = dilithium3::PublicKey::from_bytes(public_key).map_err(|_| BadLength::PublicKey)?;
    let detached = dilithium3::DetachedSignature::from_bytes(signature).map_err(
        |_| BadLength::Signature,
    )?;
    Ok(dilithium3::verify_detached_signature(&detached, message, &key).is_ok())
}

/// `dilithium3::detached_sign`, which is deterministic: a signature of 3309
/// bytes that is valid under the public key made together with the private one.
/// `SecretKey::from_bytes` refuses every length but 4032.
#[verifier::external_body]
fn sign_d3(private_key: &[u8], message: &[u8]) -> (signed: Option<Vec<u8>>)
    ensures
        match signed {
            Some(bytes) => private_key@.len() == 4032 && bytes@.len() == 3309 && bytes@
                == dilithium3_signed(private_key@, message@) && forall|public_key: Seq<u8>|
                dilithium3_pair(public_key, private_key@) ==> #[trigger] dilithium3_valid(
                    public_key,
                    bytes@,
                    message@,
                ),
            None => private_key@.len() != 4032,
        },
{
    match dilithium3::SecretKey::from_bytes(private_key) {
        Ok(key) => Some(dilithium3::detached_sign(message, &key).as_bytes().to_vec()),
        Err(_) => None,
    }
}

/// `dilithium3::keypair`: a random pair of a public key of 1952 bytes and a
/// private key of 4032 bytes.
#[verifier::external_body]
pub(crate) fn keypair_d3() -> (pair: (Vec<u8>, Vec<u8>))
    ensures
        pair.0@.len() == 1952,
        pair.1@.len() == 4032,
        dilithium3_pair(pair.0@, pair.1@),
{
    let (public_key, private_key) = dilithium3::keypair();
    (public_key.as_bytes().to_vec(), private_key.as_bytes().to_vec())
}

/// Whether `dilithium5` accepts the signature of the message under the public
/// key.
pub uninterp spec fn dilithium5_valid(
    public_key: Seq<u8>,
    signature: Seq<u8>,
    message: Seq<u8>,
) -> bool;

/// The signature that `dilithium5` makes of the message with the private key.
pub uninterp spec fn dilithium5_signed(private_key: Seq<u8>, message: Seq<u8>) -> Seq<u8>;

/// The keys were made together by `dilithium5::keypair`.
pub uninterp spec fn dilithium5_pair(public_key: Seq<u8>, private_key: Seq<u8>) -> bool;

/// `dilithium5::verify_detached_signature`, which depends on its arguments
/// alone.  `PublicKey::from_bytes` refuses every length but 2592, and
/// `DetachedSignature::from_bytes` every length above 4627.
#[verifier::external_body]
fn verify_d5(public_key: &[u8], signature: &[u8], message: &[u8]) -> (outcome: Result<
    bool,
    BadLength,
>)
    ensures
        match outcome {
            Ok(valid) => public_key@.len() == 2592 && signature@.len() <= 4627 && valid
                == dilithium5_valid(public_key@, signature@, message@),
            Err(BadLength::PublicKey) => public_key@.len() != 2592,
            Err(BadLength::Signature) => public_key@.len() == 2592 && signature@.len() > 4627,
        },
{
    let key = dilithium5::PublicKey::from_bytes(public_key).map_err(|_| BadLength::PublicKey)?;
    let detached = dilithium5::DetachedSignature::from_bytes(signature).map_err(
        |_| BadLength::Signature,
    )?;
    Ok(dilithium5::verify_detached_signature(&detached, message, &key).is_ok())
}

/// `dilithium5::detached_sign`, which is deterministic: a signature of 4627
/// bytes that is valid under the public key made together with the private one.
/// `SecretKey::from_bytes` refuses every length but 4896.
#[verifier::external_body]
fn sign_d5(private_key: &[u8], message: &[u8]) -> (signed: Option<Vec<u8>>)
    ensures
        match signed {
            Some(bytes) => private_key@.len() == 4896 && bytes@.len() == 4627 && bytes@
                == dilithium5_signed(private_key@, message@) && forall|public_key: Seq<u8>|
                dilithium5_pair(public_key, private_key@) ==> #[trigger] dilithium5_valid(
                    public_key,
                    bytes@,
                    message@,
                ),
            None => private_key@.len() != 4896,
        },
{
    match dilithium5::SecretKey::from_bytes(private_key) {
        Ok(key) => Some(dilithium5::detached_sign(message, &key).as_bytes().to_vec()),
        Err(_) => None,
    }
}

/// `dilithium5::keypair`: a random pair of a public key of 2592 bytes and a
/// private key of 4896 bytes.
#[verifier::external_body]
pub(crate) fn keypair_d5() -> (pair: (Vec<u8>, Vec<u8>))
    ensures
        pair.0@.len() == 2592,
        pair.1@.len() == 4896,
        dilithium5_pair(pair.0@, pair.1@),
{
    let (public_key, private_key) = dilithium5::keypair();
    (public_key.as_bytes().to_vec(), private_key.as_bytes().to_vec())
}

/// The keys were made together, at whichever level.
pub open spec fn dilithium_pair(public_key: Seq<u8>, private_key: Seq<u8>) -> bool {
    match level_of_private(private_key.len()) {
        Some(2) => public_key.len() == 1312 && dilithium2_pair(public_key, private_key),
        Some(3) => public_key.len() == 1952 && dilithium3_pair(public_key, private_key),
        Some(5) => public_key.len() == 2592 && dilithium5_pair(public_key, private_key),
        _ => false,
    }
}

/// The error for a signature that is too long.
pub open spec fn bad_signature() -> VerifierFault {
    VerifierFault::VerificationFailed("invalid signature bytes"@)
}

/// The outcome of a check of a Dilithium signature.
pub open spec fn dilithium_verdict(
    public_key: Seq<u8>,
    signature: Seq<u8>,
    message: Seq<u8>,
) -> Result<bool, VerifierFault> {
    match level_of_public(public_key.len()) {
        Some(2) => if signature.len() > 2420 {
            Err(bad_signature())
        } else {
            Ok(dilithium2_valid(public_key, signature, message))
        },
        Some(3) => if signature.len() > 3309 {
            Err(bad_signature())
        } else {
            Ok(dilithium3_valid(public_key, signature, message))
        },
        Some(5) => if signature.len() > 4627 {
            Err(bad_signature())
        } else {
            Ok(dilithium5_valid(public_key, signature, message))
        },
        _ => Err(VerifierFault::InvalidKeyLength(public_key.len() as usize)),
    }
}

/// Checks Dilithium signatures.
pub struct DilithiumSignatureVerifier;

impl SignatureVerifier for DilithiumSignatureVerifier {
    open spec fn verdict(
        &self,
        public_key: Seq<u8>,
        signature: Seq<u8>,
        message: Seq<u8>,
    ) -> Result<bool, VerifierFault> {
        dilithium_verdict(public_key, signature, message)
    }

    fn verify(&self, public_key: &[u8], signature: &[u8], message: &[u8]) -> (outcome: Result<
        bool,
        VerifierError,
    >) {
        let checked: Result<bool, BadLength> = match dilithium_level_from_pubkey_len(
            public_key.len(),
        ) {
            Some(2) => verify_d2(public_key, signature, message),
            Some(3) => verify_d3(public_key, signature, message),
            Some(5) => verify_d5(public_key, signature, message),
            _ => Err(BadLength::PublicKey),
        };
        match checked {
            Ok(valid) => Ok(valid),
            Err(BadLength::PublicKey) => Err(VerifierError::InvalidKeyLength(public_key.len())),
            Err(BadLength::Signature) => Err(
                VerifierError::VerificationFailed("invalid signature bytes".to_owned()),
            ),
        }
    }
}

/// The Dilithium signature of the message, for a key of a known length.
pub open spec fn dilithium_signature(private_key: Seq<u8>, message: Seq<u8>) -> Result<
    Seq<u8>,
    VerifierFault,
> {
    match level_of_private(private_key.len()) {
        Some(2) => Ok(dilithium2_signed(private_key, message)),
        Some(3) => Ok(dilithium3_signed(private_key, message)),
        Some(5) => Ok(dilithium5_signed(private_key, message)),
        _ => Err(VerifierFault::InvalidKeyLength(private_key.len() as usize)),
    }
}

/// Makes Dilithium signatures.
pub struct DilithiumSigner;

impl Signer for DilithiumSigner {
    open spec fn can_give(
        &self,
        private_key: Seq<u8>,
        message: Seq<u8>,
        outcome: Result<Seq<u8>, VerifierFault>,
    ) -> bool {
        outcome == dilithium_signature(private_key, message)
    }

    fn sign(&self, private_key: &[u8], message: &[u8]) -> (signed: Result<Vec<u8>, VerifierError>)
        ensures
            signed matches Ok(bytes) ==> forall|public_key: Seq<u8>|
                dilithium_pair(public_key, private_key@) ==> #[trigger] dilithium_verdict(
                    public_key,
                    bytes@,
                    message@,
                ) == Ok::<bool, VerifierFault>(true),
            signed matches Ok(bytes) ==> bytes@.len() == match level_of_private(
                private_key@.len(),
            ) {
                Some(2) => 2420nat,
                Some(3) => 3309nat,
                _ => 4627nat,
            },
    {
        let signed: Option<Vec<u8>> = match dilithium_level_from_privkey_len(private_key.len()) {
            Some(2) => sign_d2(private_key, message),
            Some(3) => sign_d3(private_key, message),
            Some(5) => sign_d5(private_key, message),
            _ => None,
        };
        match signed {
            Some(bytes) => Ok(bytes),
            None => Err(VerifierError::InvalidKeyLength(private_key.len())),
        }
    }
}

} // verus!
