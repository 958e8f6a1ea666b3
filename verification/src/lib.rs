//! A Kademlia distributed hash table for signed records.
//!
//! Peers are identified by 20-byte SHA-1 IDs and kept in a routing table of
//! k-buckets.  Records carry their own signature and are accepted, replaced or
//! deleted only when that signature holds.

pub mod auth_handler;
pub mod bucket;
pub mod contact_laws;
pub mod crawling;
pub mod crypto;
pub mod datagram_laws;
pub mod document;
pub mod fragmentation;
pub mod json;
pub mod judge;
pub mod lookup_laws;
pub mod network;
pub mod network_laws;
pub mod node;
pub mod node_laws;
pub mod protocol;
pub mod ranking;
pub mod ranking_laws;
pub mod record;
pub mod record_laws;
pub mod request_laws;
pub mod roles;
pub mod routing;
pub mod routing_laws;
pub mod seqs;
pub mod server;
pub mod signature_cache;
pub mod storage;
pub mod table_laws;
pub mod text;
pub mod text_laws;
pub mod utils;
pub mod walk_laws;
