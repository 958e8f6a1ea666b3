//! What signature schemes have in common: their interfaces, their errors, and
//! the names under which records refer to them.

use vstd::prelude::*;

use crate::text::after_hyphen;
use crate::text::append_decimal;
use crate::text::before_hyphen;
use crate::text::decimal;
use crate::text::parse_unsigned;
use crate::text::same_text;
use crate::text::split_at_hyphen;
use crate::text::trim;
use crate::text::trimmed;
use crate::text::unsigned_value;

verus! {

/// Why a signature could not be made or checked.
#[derive(Debug)]
pub enum VerifierError {
    /// The algorithm has no implementation.
    UnsupportedAlgorithm(String),
    /// The key has a length that the algorithm does not know.
    InvalidKeyLength(usize),
    /// The check could not be carried out.
    VerificationFailed(String),
}

/// A [`VerifierError`] with its texts as sequences of characters.
pub enum VerifierFault {
    UnsupportedAlgorithm(Seq<char>),
    InvalidKeyLength(usize),
    VerificationFailed(Seq<char>),
}

impl View for VerifierError {
    type V = VerifierFault;

    open spec fn view(&self) -> VerifierFault {
        match *self {
            VerifierError::UnsupportedAlgorithm(text) => VerifierFault::UnsupportedAlgorithm(
                text@,
            ),
            VerifierError::InvalidKeyLength(len) => VerifierFault::InvalidKeyLength(len),
            VerifierError::VerificationFailed(text) => VerifierFault::VerificationFailed(text@),
        }
    }
}

impl VerifierFault {
    /// The error as it is shown to people.
    pub open spec fn text(&self) -> Seq<char> {
        match *self {
            VerifierFault::UnsupportedAlgorithm(text) => "unsupported algorithm: "@ + text,
            VerifierFault::InvalidKeyLength(len) => "invalid key length: "@ + decimal(len as nat)
                + " bytes"@,
            VerifierFault::VerificationFailed(text) => "verification failed: "@ + text,
        }
    }
}

impl VerifierError {
    /// The error as it is shown to people.
    pub fn display(&self) -> (text: String)
        ensures
            text@ == self@.text(),
    {
        match self {
            VerifierError::UnsupportedAlgorithm(detail) => {
                let mut text: String = "unsupported algorithm: ".to_owned();
                text.append(detail.as_str());
                text
            },
            VerifierError::InvalidKeyLength(len) => {
                let mut text: String = "invalid key length: ".to_owned();
                append_decimal(&mut text, *len as u64);
                text.append(" bytes");
                text
            },
            VerifierError::VerificationFailed(detail) => {
                let mut text: String = "verification failed: ".to_owned();
                text.append(detail.as_str());
                text
            },
        }
    }
}

/// The outcome of a check, with the texts of an error as sequences of
/// characters.
pub open spec fn verdict_of(outcome: Result<bool, VerifierError>) -> Result<bool, VerifierFault> {
    match outcome {
        Ok(valid) => Ok(valid),
        Err(error) => Err(error@),
    }
}

/// A way to check signatures.
pub trait SignatureVerifier {
    /// Whether the signature of the message is valid under the public key, or
    /// why that could not be told.
    spec fn verdict(&self, public_key: Seq<u8>, signature: Seq<u8>, message: Seq<u8>) -> Result<
        bool,
        VerifierFault,
    >;

    /// Whether the signature of the message is valid under the public key.
    fn verify(&self, public_key: &[u8], signature: &[u8], message: &[u8]) -> (outcome: Result<
        bool,
        VerifierError,
    >)
        ensures
            verdict_of(outcome) == self.verdict(public_key@, signature@, message@),
    ;
}

/// The outcome of signing, with the bytes and texts as sequences.
pub open spec fn signature_of(signed: Result<Vec<u8>, VerifierError>) -> Result<
    Seq<u8>,
    VerifierFault,
> {
    match signed {
        Ok(bytes) => Ok(bytes@),
        Err(error) => Err(error@),
    }
}

/// A way to make signatures.
pub trait Signer {
    /// Signing the message with the private key can give the outcome: a
    /// signature, or why there is none.
    spec fn can_give(
        &self,
        private_key: Seq<u8>,
        message: Seq<u8>,
        outcome: Result<Seq<u8>, VerifierFault>,
    ) -> bool;

    /// The signature of the message under the private key.
    fn sign(&self, private_key: &[u8], message: &[u8]) -> (signed: Result<Vec<u8>, VerifierError>)
        ensures
            self.can_give(private_key@, message@, signature_of(signed)),
    ;
}

/// The security level in the name of an algorithm: the number behind the first
/// hyphen.
pub open spec fn level_of(algorithm: Seq<char>) -> Option<nat> {
    match after_hyphen(algorithm) {
        Some(rest) => unsigned_value(trimmed(rest), 255),
        None => None,
    }
}

/// The family in the name of an algorithm: what stands before the first hyphen.
pub open spec fn family_of(algorithm: Seq<char>) -> Seq<char> {
    trimmed(before_hyphen(algorithm))
}

/// The family of a named algorithm and the length of its signatures in records.
pub open spec fn resolved(algorithm: Seq<char>) -> Result<(Seq<char>, usize), VerifierFault> {
    let family = family_of(algorithm);
    if family == "RSA"@ {
        Ok((family, 256))
    } else if family == "Ed25519"@ {
        Ok((family, 64))
    } else if family == "Dilithium"@ {
        match level_of(algorithm) {
            None => Err(
                VerifierFault::UnsupportedAlgorithm(
                    "Dilithium requires a security level suffix, e.g. 'Dilithium-2'. Got: '"@
                        + algorithm + "'"@,
                ),
            ),
            Some(level) => if level == 2 {
                Ok((family, 2420))
            } else if level == 3 {
                Ok((family, 3293))
            } else if level == 5 {
                Ok((family, 4595))
            } else {
                Err(
                    VerifierFault::UnsupportedAlgorithm(
                        "Unknown Dilithium security level: "@ + decimal(level),
                    ),
                )
            },
        }
    } else {
        Err(VerifierFault::UnsupportedAlgorithm(family))
    }
}

/// The family of an algorithm such as `"Dilithium-3"`, and the length of its
/// signatures in records.
pub fn resolve_alg_and_length(algorithm_str: &str) -> (resolution: Result<
    (String, usize),
    VerifierError,
>)
    ensures
        match resolution {
            Ok((family, len)) => resolved(algorithm_str@) == Ok::<_, VerifierFault>((family@, len)),
            Err(error) => resolved(algorithm_str@) == Err::<(Seq<char>, usize), _>(error@),
        },
{
    let (front, rest) = split_at_hyphen(algorithm_str);
    let family: &str = trim(front);
    if same_text(family, "RSA") {
        return Ok((family.to_owned(), 256));
    }
    if same_text(family, "Ed25519") {
        return Ok((family.to_owned(), 64));
    }
    if same_text(family, "Dilithium") {
        let level: Option<u32> = match rest {
            Some(rest) => parse_unsigned(trim(rest), 255),
            None => None,
        };
        return match level {
            None => {
                let mut text: String =
                    "Dilithium requires a security level suffix, e.g. 'Dilithium-2'. Got: '".to_owned();
                text.append(algorithm_str);
                text.append("'");
                Err(VerifierError::UnsupportedAlgorithm(text))
            },
            Some(2) => Ok((family.to_owned(), 2420)),
            Some(3) => Ok((family.to_owned(), 3293)),
            Some(5) => Ok((family.to_owned(), 4595)),
            Some(level) => {
                let mut text: String = "Unknown Dilithium security level: ".to_owned();
                append_decimal(&mut text, level as u64);
                Err(VerifierError::UnsupportedAlgorithm(text))
            },
        };
    }
    Err(VerifierError::UnsupportedAlgorithm(family.to_owned()))
}

/// The security level of Dilithium public keys of the given length.
pub open spec fn level_of_public(len: nat) -> Option<u8> {
    if len == 1312 {
        Some(2)
    } else if len == 1952 {
        Some(3)
    } else if len == 2592 {
        Some(5)
    } else {
        None
    }
}

/// The security level of Dilithium private keys of the given length.
pub open spec fn level_of_private(len: nat) -> Option<u8> {
    if len == 2560 {
        Some(2)
    } else if len == 4032 {
        Some(3)
    } else if len == 4896 {
        Some(5)
    } else {
        None
    }
}

/// The security level of Dilithium public keys of the given length.
pub fn dilithium_level_from_pubkey_len(len: usize) -> (level: Option<u8>)
    ensures
        level == level_of_public(len as nat),
{
    match len {
        1312 => Some(2),
        1952 => Some(3),
        2592 => Some(5),
        _ => None,
    }
}

/// The security level of Dilithium private keys of the given length.
pub fn dilithium_level_from_privkey_len(len: usize) -> (level: Option<u8>)
    ensures
        level == level_of_private(len as nat),
{
    match len {
        2560 => Some(2),
        4032 => Some(3),
        4896 => Some(5),
        _ => None,
    }
}

} // verus!
