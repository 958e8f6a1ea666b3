//! Signature schemes, their selection by name, and key management.

pub mod base64url;
pub mod dilithium;
pub mod ed25519;
pub mod factory;
pub mod key_manager;
pub mod rsa;
pub mod signature_verifier;
