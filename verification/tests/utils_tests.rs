//! Digests, prefixes, bit strings and plain text.

use auth_kademlia::server::check_dht_value_type;
use auth_kademlia::text::append_decimal;
use auth_kademlia::text::parse_unsigned;
use auth_kademlia::text::split_at_hyphen;
use auth_kademlia::text::trim;
use auth_kademlia::utils::bytes_to_bit_string;
use auth_kademlia::utils::digest;
use auth_kademlia::utils::digest_bytes;
use auth_kademlia::utils::shared_prefix;
use auth_kademlia::utils::to_id;
use auth_kademlia::utils::ID_LEN;

#[test]
fn test_digest_is_20_bytes() {
    assert_eq!(digest("hello").len(), ID_LEN);
}

#[test]
fn test_shared_prefix_empty() {
    assert!(shared_prefix(&[]).is_empty());
}

#[test]
fn test_shared_prefix_common() {
    let a = b"hello world";
    let b = b"hello rust";
    assert_eq!(shared_prefix(&[a, b]), b"hello ");
}

#[test]
fn test_bytes_to_bit_string() {
    assert_eq!(bytes_to_bit_string(&[0b10110001]), "10110001");
}

#[test]
fn a_digest_is_the_sha1_of_the_bytes() {
    let expected: [u8; 20] = [
        0x2a, 0xae, 0x6c, 0x35, 0xc9, 0x4f, 0xcf, 0xb4, 0x15, 0xdb, 0xe9, 0x5f, 0x40, 0x8b, 0x9c,
        0xe9, 0x1e, 0xe8, 0x46, 0xed,
    ];
    assert_eq!(digest_bytes(b"hello world"), expected);
    assert_eq!(digest("hello world"), expected);
}

#[test]
fn a_prefix_of_one_slice_is_the_slice() {
    assert_eq!(shared_prefix(&[b"abc"]), b"abc");
    assert_eq!(shared_prefix(&[b"abc", b"ab"]), b"ab");
    assert!(shared_prefix(&[b"abc", b"xbc"]).is_empty());
    assert!(shared_prefix(&[b"", b"x"]).is_empty());
}

#[test]
fn bit_strings_keep_leading_zeros() {
    assert_eq!(bytes_to_bit_string(&[]), "");
    assert_eq!(bytes_to_bit_string(&[0x4d, 0x01]), "0100110100000001");
}

#[test]
fn only_twenty_bytes_make_an_id() {
    assert_eq!(to_id(&[7; 20]), Some([7; 20]));
    assert_eq!(to_id(&[7; 19]), None);
    assert_eq!(to_id(&[7; 21]), None);
}

#[test]
fn empty_values_are_not_stored() {
    assert!(check_dht_value_type(b"x"));
    assert!(!check_dht_value_type(b""));
}

#[test]
fn decimals_have_no_leading_zeros() {
    let mut text = String::new();
    append_decimal(&mut text, 0);
    append_decimal(&mut text, 1_234_567_890);
    append_decimal(&mut text, u64::MAX);
    assert_eq!(text, "0123456789018446744073709551615");
}

#[test]
fn white_space_is_trimmed_on_both_sides() {
    assert_eq!(trim(" \t\u{a0}a b\u{3000}\n"), "a b");
    assert_eq!(trim("  "), "");
    assert_eq!(trim("ab"), "ab");
}

#[test]
fn text_is_split_at_the_first_hyphen() {
    assert_eq!(split_at_hyphen("a-b-c"), ("a", Some("b-c")));
    assert_eq!(split_at_hyphen("abc"), ("abc", None));
    assert_eq!(split_at_hyphen("abc-"), ("abc", Some("")));
}

#[test]
fn numerals_are_read_within_their_bound() {
    assert_eq!(parse_unsigned("255", 255), Some(255));
    assert_eq!(parse_unsigned("256", 255), None);
    assert_eq!(parse_unsigned("+5", 255), Some(5));
    assert_eq!(parse_unsigned("007", 255), Some(7));
    assert_eq!(parse_unsigned("", 255), None);
    assert_eq!(parse_unsigned("+", 255), None);
    assert_eq!(parse_unsigned("-1", 255), None);
    assert_eq!(parse_unsigned("2x", 255), None);
    assert_eq!(parse_unsigned("99999999999999999999", 255), None);
}
