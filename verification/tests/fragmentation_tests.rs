//! Datagrams and messages.

use auth_kademlia::fragmentation::encode_fragments;
use auth_kademlia::fragmentation::parse_fragment;
use auth_kademlia::fragmentation::ReassemblyEntry;
use auth_kademlia::fragmentation::ReassemblyMap;
use auth_kademlia::fragmentation::FRAG_CHUNK_SIZE;
use auth_kademlia::fragmentation::MAX_MESSAGE_SIZE;
use auth_kademlia::fragmentation::REASSEMBLY_TTL;

fn message(len: usize) -> Vec<u8> {
    (0..len).map(|i| (i % 251) as u8).collect()
}

fn peer() -> String {
    "10.0.0.1".to_string()
}

#[test]
fn a_short_message_is_one_datagram() {
    let datagrams = encode_fragments(0x01020304, b"hello");
    assert_eq!(datagrams, vec![b"KADF\x01\x02\x03\x04\x00\x00\x00\x01hello".to_vec()]);
    let (header, chunk) = parse_fragment(&datagrams[0]).unwrap();
    assert_eq!((header.frag_id, header.index, header.total), (0x01020304, 0, 1));
    assert_eq!(chunk, b"hello");
}

#[test]
fn an_empty_message_is_one_datagram() {
    let datagrams = encode_fragments(9, b"");
    assert_eq!(datagrams.len(), 1);
    assert_eq!(datagrams[0].len(), 12);
}

#[test]
fn chunks_are_1400_bytes_long() {
    assert_eq!(encode_fragments(1, &message(1400)).len(), 1);
    let datagrams = encode_fragments(1, &message(1401));
    assert_eq!(datagrams.len(), 2);
    assert_eq!(datagrams[0].len(), 1412);
    assert_eq!(datagrams[1].len(), 13);
    assert_eq!(&datagrams[1][8..12], &[0, 1, 0, 2]);
    assert_eq!(encode_fragments(1, &message(6000)).len(), 5);
}

#[test]
fn bad_datagrams_are_not_parsed() {
    assert!(parse_fragment(b"KADF\0\0\0\0\0\0\0").is_none());
    assert!(parse_fragment(b"KADX\0\0\0\0\0\0\0\x01").is_none());
    assert!(parse_fragment(b"KADF\0\0\0\0\0\0\0\0").is_none());
    assert!(parse_fragment(b"KADF\0\0\0\0\0\x01\0\x01").is_none());
    assert!(parse_fragment(b"KADF\0\0\0\0\0\0\0\x01").is_some());
}

#[test]
fn datagrams_may_arrive_in_any_order_and_repeatedly() {
    let sent = message(4 * FRAG_CHUNK_SIZE + 17);
    let datagrams = encode_fragments(7, &sent);
    let mut map = ReassemblyMap::new();
    for (time, index) in [3usize, 0, 3, 4, 0, 1].iter().enumerate() {
        assert!(map.receive(&datagrams[*index], &peer(), 5, time as u64).is_none());
    }
    assert_eq!(map.receive(&datagrams[2], &peer(), 5, 9), Some(sent));
    assert!(map.partials.is_empty());
}

#[test]
fn messages_of_several_senders_do_not_mix() {
    let a = message(2000);
    let b: Vec<u8> = message(2000).iter().map(|x| x ^ 0xFF).collect();
    let from_a = encode_fragments(7, &a);
    let from_b = encode_fragments(7, &b);
    let mut map = ReassemblyMap::new();
    assert!(map.receive(&from_a[0], &peer(), 1, 0).is_none());
    assert!(map.receive(&from_b[1], &peer(), 2, 0).is_none());
    assert_eq!(map.receive(&from_b[0], &peer(), 2, 0), Some(b));
    assert_eq!(map.receive(&from_a[1], &peer(), 1, 0), Some(a));
}

#[test]
fn stale_messages_are_dropped() {
    let datagrams = encode_fragments(7, &message(2000));
    let others = encode_fragments(8, &message(2000));
    let mut map = ReassemblyMap::new();
    assert!(map.receive(&datagrams[0], &peer(), 1, 0).is_none());
    assert!(map.receive(&others[0], &peer(), 1, REASSEMBLY_TTL - 1).is_none());
    assert_eq!(map.partials.len(), 2);
    assert!(map.receive(&others[0], &peer(), 1, REASSEMBLY_TTL).is_none());
    assert_eq!(map.partials.len(), 1);
    assert!(map.receive(&datagrams[1], &peer(), 1, REASSEMBLY_TTL).is_none());
}

#[test]
fn oversized_and_inconsistent_messages_are_refused() {
    let mut map = ReassemblyMap::new();
    let mut too_many = b"KADF\0\0\0\x01\0\0\0\xBC".to_vec();
    too_many.push(1);
    assert!(MAX_MESSAGE_SIZE < 188 * FRAG_CHUNK_SIZE);
    assert!(map.receive(&too_many, &peer(), 1, 0).is_none());
    assert!(map.partials.is_empty());
    assert!(map.receive(b"KADF\0\0\0\x01\0\0\0\x03x", &peer(), 1, 0).is_none());
    assert!(map.receive(b"KADF\0\0\0\x01\0\x01\0\x02x", &peer(), 1, 0).is_none());
    assert_eq!(map.partials.len(), 1);
    assert_eq!(map.partials[0].entry.received, 1);
}

#[test]
fn the_longest_message_gets_through() {
    assert_eq!(MAX_MESSAGE_SIZE / FRAG_CHUNK_SIZE, 187);
    let sent = message(187 * FRAG_CHUNK_SIZE);
    let datagrams = encode_fragments(1, &sent);
    let mut map = ReassemblyMap::new();
    let mut got = None;
    for datagram in datagrams.iter().rev() {
        got = map.receive(datagram, &peer(), 1, 0);
    }
    assert_eq!(got, Some(sent));
}

#[test]
fn an_entry_is_assembled_when_complete() {
    let mut entry = ReassemblyEntry::new(2, 0);
    assert!(!entry.insert(1, b"b".to_vec()));
    assert!(!entry.insert(1, b"x".to_vec()));
    assert!(!entry.insert(5, b"x".to_vec()));
    assert!(entry.insert(0, b"a".to_vec()));
    assert_eq!(entry.assemble(), Some(b"ab".to_vec()));
    assert_eq!(ReassemblyEntry::new(1, 0).assemble(), None);
}
