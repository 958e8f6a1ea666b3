//! Selection of a signature scheme by the name of its algorithm.
//!
//! Only what stands before the first hyphen selects the scheme: `"Dilithium-2"`
//! and `"Dilithium-3"` lead to the same one.  The level behind the hyphen says
//! how long the signature in a record is.

use vstd::prelude::*;

use crate::crypto::dilithium::dilithium_pair;
use crate::crypto::dilithium::dilithium_signature;
use crate::crypto::dilithium::dilithium_verdict;
use crate::crypto::dilithium::DilithiumSignatureVerifier;
use crate::crypto::dilithium::DilithiumSigner;
use crate::crypto::ed25519::ed25519_public;
use crate::crypto::ed25519::ed25519_signature;
use crate::crypto::ed25519::ed25519_verdict;
use crate::crypto::ed25519::Ed25519SignatureVerifier;
use crate::crypto::ed25519::Ed25519Signer;
use crate::crypto::rsa::an_rsa_signature_verifies;
use crate::crypto::rsa::rsa_can_give;
use crate::crypto::rsa::rsa_own_key;
use crate::crypto::rsa::rsa_verdict;
use crate::crypto::rsa::RSASignatureVerifier;
use crate::crypto::rsa::RSASigner;
use crate::crypto::signature_verifier::family_of;
use crate::crypto::signature_verifier::level_of_private;
use crate::crypto::signature_verifier::verdict_of;
use crate::crypto::signature_verifier::SignatureVerifier;
use crate::crypto::signature_verifier::Signer;
use crate::crypto::signature_verifier::VerifierError;
use crate::crypto::signature_verifier::VerifierFault;
use crate::text::same_text;
use crate::text::split_at_hyphen;
use crate::text::trim;

verus! {

/// The signature schemes that can be selected by name.
#[derive(Debug, Clone, Copy, PartialEq, Eq, Structural)]
pub enum Scheme {
    Rsa,
    Ed25519,
    Dilithium,
}

/// The scheme of a named algorithm.
pub open spec fn scheme_of(algorithm: Seq<char>) -> Result<Scheme, VerifierFault> {
    let family = family_of(algorithm);
    if family == "RSA"@ {
        Ok(Scheme::Rsa)
    } else if family == "Ed25519"@ {
        Ok(Scheme::Ed25519)
    } else if family == "Dilithium"@ {
        Ok(Scheme::Dilithium)
    } else {
        Err(VerifierFault::UnsupportedAlgorithm(family))
    }
}

/// The outcome of a check under the scheme.
pub open spec fn scheme_verdict(
    scheme: Scheme,
    public_key: Seq<u8>,
    signature: Seq<u8>,
    message: Seq<u8>,
) -> Result<bool, VerifierFault> {
    match scheme {
        Scheme::Rsa => rsa_verdict(public_key, signature, message),
        Scheme::Ed25519 => ed25519_verdict(public_key, signature, message),
        Scheme::Dilithium => dilithium_verdict(public_key, signature, message),
    }
}

/// Signing under the scheme can give the outcome.
pub open spec fn scheme_can_give(
    scheme: Scheme,
    private_key: Seq<u8>,
    message: Seq<u8>,
    outcome: Result<Seq<u8>, VerifierFault>,
) -> bool {
    match scheme {
        Scheme::Rsa => rsa_can_give(private_key, message, outcome),
        Scheme::Ed25519 => outcome == ed25519_signature(private_key, message),
        Scheme::Dilithium => outcome == dilithium_signature(private_key, message),
    }
}

/// The length of the signatures that the private key makes, where it follows from
/// that of the key.
pub open spec fn signature_len(scheme: Scheme, private_key: Seq<u8>) -> Option<nat> {
    match scheme {
        Scheme::Rsa => None,
        Scheme::Ed25519 => Some(64),
        Scheme::Dilithium => match level_of_private(private_key.len()) {
            Some(2) => Some(2420),
            Some(3) => Some(3309),
            Some(5) => Some(4627),
            _ => None,
        },
    }
}

/// What the private key signs is valid under the public key.
pub open spec fn scheme_pair(scheme: Scheme, public_key: Seq<u8>, private_key: Seq<u8>) -> bool {
    match scheme {
        Scheme::Rsa => rsa_own_key(private_key) == Ok::<_, VerifierFault>(public_key),
        Scheme::Ed25519 => private_key.len() == 32 && public_key.len() == 32 && public_key
            == ed25519_public(private_key),
        Scheme::Dilithium => dilithium_pair(public_key, private_key),
    }
}

impl SignatureVerifier for Scheme {
    open spec fn verdict(
        &self,
        public_key: Seq<u8>,
        signature: Seq<u8>,
        message: Seq<u8>,
    ) -> Result<bool, VerifierFault> {
        scheme_verdict(*self, public_key, signature, message)
    }

    fn verify(&self, public_key: &[u8], signature: &[u8], message: &[u8]) -> (outcome: Result<
        bool,
        VerifierError,
    >) {
        match self {
            Scheme::Rsa => RSASignatureVerifier.verify(public_key, signature, message),
            Scheme::Ed25519 => Ed25519SignatureVerifier.verify(public_key, signature, message),
            Scheme::Dilithium => DilithiumSignatureVerifier.verify(public_key, signature, message),
        }
    }
}

impl Signer for Scheme {
    open spec fn can_give(
        &self,
        private_key: Seq<u8>,
        message: Seq<u8>,
        outcome: Result<Seq<u8>, VerifierFault>,
    ) -> bool {
        scheme_can_give(*self, private_key, message, outcome)
    }

    fn sign(&self, private_key: &[u8], message: &[u8]) -> (signed: Result<Vec<u8>, VerifierError>)
        ensures
            signed matches Ok(bytes) ==> forall|public_key: Seq<u8>|
                scheme_pair(*self, public_key, private_key@) ==> #[trigger] scheme_verdict(
                    *self,
                    public_key,
                    bytes@,
                    message@,
                ) == Ok::<bool, VerifierFault>(true),
            signed matches Ok(bytes) ==> (signature_len(*self, private_key@) matches Some(len)
                ==> bytes@.len() == len),
    {
        let signed: Result<Vec<u8>, VerifierError> = match self {
            Scheme::Rsa => RSASigner.sign(private_key, message),
            Scheme::Ed25519 => Ed25519Signer.sign(private_key, message),
            Scheme::Dilithium => DilithiumSigner.sign(private_key, message),
        };
        proof {
            if signed is Ok {
                let bytes = signed->Ok_0;
                assert forall|public_key: Seq<u8>|
                    scheme_pair(*self, public_key, private_key@) implies #[trigger] scheme_verdict(
                    *self,
                    public_key,
                    bytes@,
                    message@,
                ) == Ok::<bool, VerifierFault>(true) by {
                    if *self is Rsa {
                        an_rsa_signature_verifies(public_key, private_key@, message@, bytes@);
                    }
                }
            }
        }
        signed
    }
}

fn select(algorithm: &str) -> (scheme: Result<Scheme, VerifierError>)
    ensures
        match scheme {
            Ok(scheme) => scheme_of(algorithm@) == Ok::<_, VerifierFault>(scheme),
            Err(error) => scheme_of(algorithm@) == Err::<Scheme, _>(error@),
        },
{
    let (front, _) = split_at_hyphen(algorithm);
    let family: &str = trim(front);
    if same_text(family, "RSA") {
        Ok(Scheme::Rsa)
    } else if same_text(family, "Ed25519") {
        Ok(Scheme::Ed25519)
    } else if same_text(family, "Dilithium") {
        Ok(Scheme::Dilithium)
    } else {
        Err(VerifierError::UnsupportedAlgorithm(family.to_owned()))
    }
}

/// Finds the verifier of an algorithm.
pub struct SignatureVerifierFactory;

/// Finds the signer of an algorithm.
pub struct SignerFactory;

impl SignatureVerifierFactory {
    /// The verifier for an algorithm such as `"Dilithium-2"`, `"Ed25519"` or
    /// `"RSA"`.
    pub fn get_verifier(algorithm: &str) -> (verifier: Result<Scheme, VerifierError>)
        ensures
            match verifier {
                Ok(scheme) => scheme_of(algorithm@) == Ok::<_, VerifierFault>(scheme),
                Err(error) => scheme_of(algorithm@) == Err::<Scheme, _>(error@),
            },
    {
        select(algorithm)
    }
}

impl SignerFactory {
    /// The signer for an algorithm such as `"Dilithium-2"`, `"Ed25519"` or
    /// `"RSA"`.
    pub fn get_signer(algorithm: &str) -> (signer: Result<Scheme, VerifierError>)
        ensures
            match signer {
                Ok(scheme) => scheme_of(algorithm@) == Ok::<_, VerifierFault>(scheme),
                Err(error) => scheme_of(algorithm@) == Err::<Scheme, _>(error@),
            },
    {
        select(algorithm)
    }
}

/// Signer and verifier are found for the same algorithms.  What the signer makes
/// with the private key of a pair, the verifier accepts under its public key.  A
/// pair of Dilithium or Ed25519 keys always signs.
pub proof fn what_a_pair_signs_verifies(
    algorithm: &str,
    public_key: &[u8],
    private_key: &[u8],
    message: &[u8],
    signer: Result<Scheme, VerifierError>,
    verifier: Result<Scheme, VerifierError>,
    signed: Result<Vec<u8>, VerifierError>,
    signature: &[u8],
    outcome: Result<bool, VerifierError>,
)
    requires
        call_ensures(SignerFactory::get_signer, (algorithm,), signer),
        call_ensures(SignatureVerifierFactory::get_verifier, (algorithm,), verifier),
        signer is Ok ==> scheme_pair(signer->Ok_0, public_key@, private_key@),
        signer is Ok ==> call_ensures(
            Scheme::sign,
            (&signer->Ok_0, private_key, message),
            signed,
        ),
        signed matches Ok(bytes) ==> signature@ == bytes@,
        verifier is Ok ==> call_ensures(
            Scheme::verify,
            (&verifier->Ok_0, public_key, signature, message),
            outcome,
        ),
    ensures
        signer is Ok <==> verifier is Ok,
        signer is Ok && signer->Ok_0 !is Rsa ==> signed is Ok,
        signer is Ok && signed is Ok ==> outcome == Ok::<bool, VerifierError>(true),
{
    if signer is Ok && signed is Ok {
        let scheme = signer->Ok_0;
        assert(scheme_verdict(scheme, public_key@, signature@, message@) == Ok::<
            bool,
            VerifierFault,
        >(true));
        assert(verdict_of(outcome) == Ok::<bool, VerifierFault>(true));
    }
}

} // verus!
