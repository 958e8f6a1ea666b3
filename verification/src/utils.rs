//! SHA-1 digests, byte-wise prefixes and binary rendering of IDs.

use sha1::Digest;
use sha1::Sha1;
use vstd::prelude::*;
use vstd::utf8::encode_utf8;

verus! {

/// Byte length of a node ID: a SHA-1 digest.
pub const ID_LEN: usize = 20;

/// The SHA-1 digest of `data`, as the `sha1` crate computes it.
pub uninterp spec fn sha1_of(data: Seq<u8>) -> Seq<u8>;

/// The digest of `data` by `sha1::Sha1::digest`, which is a function of the
/// bytes alone.  Nothing is claimed of its value beyond its length, which the
/// result type carries.
#[verifier::external_body]
pub fn digest_bytes(data: &[u8]) -> (id: [u8; ID_LEN])
    ensures
        id@ == sha1_of(data@),
{
    Sha1::digest(data).into()
}

/// The SHA-1 digest of the UTF-8 bytes of `s`.
pub fn digest(s: &str) -> (id: [u8; ID_LEN])
    ensures
        id@ == sha1_of(encode_utf8(s@)),
{
    digest_bytes(s.as_bytes())
}

/// `prefix` starts every one of `items`.
pub open spec fn starts_all(prefix: Seq<u8>, items: Seq<&[u8]>) -> bool {
    forall|i: int| 0 <= i < items.len() ==> prefix.is_prefix_of((#[trigger] items[i])@)
}

/// The longest byte prefix shared by all slices of `args`; empty for no slices.
pub fn shared_prefix(args: &[&[u8]]) -> (prefix: Vec<u8>)
    ensures
        args@.len() == 0 ==> prefix@.len() == 0,
        starts_all(prefix@, args@),
        args@.len() > 0 ==> forall|other: Seq<u8>|
            starts_all(other, args@) ==> other.is_prefix_of(prefix@),
{
    let mut prefix: Vec<u8> = Vec::new();
    if args.len() == 0 {
        return prefix;
    }
    let first: &[u8] = args[0];
    let mut at: usize = 0;
    while at < first.len()
        invariant
            args@.len() > 0,
            first@ == args@[0]@,
            at <= first@.len(),
            prefix@ == first@.take(at as int),
            starts_all(prefix@, args@),
        decreases first@.len() - at,
    {
        let byte: u8 = first[at];
        let mut which: usize = 0;
        while which < args.len()
            invariant
                args@.len() > 0,
                first@ == args@[0]@,
                at < first@.len(),
                byte == first@[at as int],
                which <= args@.len(),
                prefix@ == first@.take(at as int),
                starts_all(prefix@, args@),
                forall|i: int|
                    0 <= i < which ==> at < (#[trigger] args@[i])@.len() && args@[i]@[at as int]
                        == byte,
            decreases args@.len() - which,
        {
            let item: &[u8] = args[which];
            if at >= item.len() || item[at] != byte {
                assert forall|other: Seq<u8>| starts_all(other, args@) implies other.is_prefix_of(
                    prefix@,
                ) by {
                    assert(other.is_prefix_of(args@[0]@));
                    assert(other.is_prefix_of(args@[which as int]@));
                    if other.len() > at {
                        assert(other[at as int] == args@[0]@[at as int]);
                        assert(other[at as int] == args@[which as int]@[at as int]);
                    }
                }
                return prefix;
            }
            which = which + 1;
        }
        assert forall|i: int| 0 <= i < args@.len() implies prefix@.push(byte).is_prefix_of(
            (#[trigger] args@[i])@,
        ) by {
            assert(prefix@.is_prefix_of(args@[i]@));
            assert(args@[i]@.take(at + 1) =~= prefix@.push(byte));
        }
        prefix.push(byte);
        at = at + 1;
        assert(prefix@ =~= first@.take(at as int));
    }
    assert(first@.take(at as int) =~= args@[0]@);
    prefix
}

/// The character that shows bit `bit` of `byte`, where bit 0 is the most
/// significant one.
pub open spec fn bit_char(byte: u8, bit: int) -> char {
    if (byte >> ((7 - bit) as u8)) & 1u8 == 1u8 {
        '1'
    } else {
        '0'
    }
}

/// Eight characters for each byte, most significant bit first.
pub open spec fn bit_text(bytes: Seq<u8>) -> Seq<char> {
    Seq::new(8 * bytes.len(), |i: int| bit_char(bytes[i / 8], i % 8))
}

/// The bytes as a binary numeral, such as `"01001101"` for `[0x4d]`.
pub fn bytes_to_bit_string(bytes: &[u8]) -> (text: String)
    ensures
        text@ == bit_text(bytes@),
{
    let mut text: String = String::new();
    let mut at: usize = 0;
    while at < bytes.len()
        invariant
            at <= bytes@.len(),
            text@ == bit_text(bytes@.take(at as int)),
        decreases bytes@.len() - at,
    {
        let byte: u8 = bytes[at];
        let mut bit: u8 = 0;
        while bit < 8
            invariant
                at < bytes@.len(),
                byte == bytes@[at as int],
                bit <= 8,
                text@ == bit_text(bytes@.take(at as int)) + Seq::new(
                    bit as nat,
                    |i: int| bit_char(byte, i),
                ),
            decreases 8 - bit,
        {
            if (byte >> (7 - bit)) & 1 == 1 {
                proof {
                    reveal_strlit("1");
                }
                text.append("1");
            } else {
                proof {
                    reveal_strlit("0");
                }
                text.append("0");
            }
            assert(text@ =~= bit_text(bytes@.take(at as int)) + Seq::new(
                (bit + 1) as nat,
                |i: int| bit_char(byte, i),
            ));
            bit = bit + 1;
        }
        assert(text@ =~= bit_text(bytes@.take(at + 1)));
        at = at + 1;
    }
    assert(bytes@.take(at as int) =~= bytes@);
    text
}

/// Whether the two byte strings are the same.
pub fn same_bytes(a: &[u8], b: &[u8]) -> (same: bool)
    ensures
        same == (a@ == b@),
{
    if a.len() != b.len() {
        return false;
    }
    let mut at: usize = 0;
    while at < a.len()
        invariant
            a@.len() == b@.len(),
            at <= a@.len(),
            forall|i: int| 0 <= i < at ==> a@[i] == b@[i],
        decreases a@.len() - at,
    {
        if a[at] != b[at] {
            return false;
        }
        at = at + 1;
    }
    assert(a@ =~= b@);
    true
}

/// The ID with the given bytes.
pub open spec fn id_of(bytes: Seq<u8>) -> [u8; ID_LEN] {
    choose|id: [u8; ID_LEN]| id@ == bytes
}

/// An ID is determined by its bytes.
pub proof fn id_of_bytes(id: [u8; ID_LEN])
    ensures
        id_of(id@) == id,
{
    let chosen = id_of(id@);
    assert(chosen@ == id@);
    assert(chosen =~= id);
}

/// As many bytes as an ID has are those of an ID.
pub proof fn id_of_has_bytes(bytes: Seq<u8>)
    requires
        bytes.len() == ID_LEN,
    ensures
        id_of(bytes)@ == bytes,
{
    let id: [u8; ID_LEN] = [
        bytes[0],
        bytes[1],
        bytes[2],
        bytes[3],
        bytes[4],
        bytes[5],
        bytes[6],
        bytes[7],
        bytes[8],
        bytes[9],
        bytes[10],
        bytes[11],
        bytes[12],
        bytes[13],
        bytes[14],
        bytes[15],
        bytes[16],
        bytes[17],
        bytes[18],
        bytes[19],
    ];
    assert(id@ =~= bytes);
    id_of_bytes(id);
}

/// The bytes as an ID, if there are as many as an ID has.
pub fn to_id(bytes: &[u8]) -> (id: Option<[u8; ID_LEN]>)
    ensures
        match id {
            Some(id) => bytes@.len() == ID_LEN && id@ == bytes@ && id == id_of(bytes@),
            None => bytes@.len() != ID_LEN,
        },
{
    if bytes.len() != ID_LEN {
        return None;
    }
    let mut id: [u8; ID_LEN] = [0; ID_LEN];
    let mut at: usize = 0;
    while at < ID_LEN
        invariant
            at <= ID_LEN,
            bytes@.len() == ID_LEN,
            forall|i: int| 0 <= i < at ==> id@[i] == bytes@[i],
        decreases ID_LEN - at,
    {
        id[at] = bytes[at];
        at = at + 1;
    }
    assert(id@ =~= bytes@);
    proof {
        id_of_bytes(id);
    }
    Some(id)
}

} // verus!
