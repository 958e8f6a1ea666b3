//! What a folded ID is made of, and what a bounded list of peers shows.

use vstd::prelude::*;

use crate::node::Node;
use crate::node::NodeHeap;
use crate::node::big_endian;
use crate::node::fold_id;
use crate::node::joined_labels;
use crate::node::xor_distance;
use crate::ranking_laws::ranked_lists_are_by_distance;
use crate::seqs::filter_members;
use crate::utils::ID_LEN;

verus! {

/// The number that four bytes from `from` on write.
spec fn word(bytes: Seq<u8>, from: int) -> int {
    bytes[from] * 0x100_0000 + bytes[from + 1] * 0x1_0000 + bytes[from + 2] * 0x100 + bytes[from
        + 3]
}

proof fn one_word_more(bytes: Seq<u8>, from: int)
    requires
        0 <= from,
        from + 4 <= bytes.len(),
    ensures
        big_endian(bytes.take(from + 4)) == big_endian(bytes.take(from)) * 0x1_0000_0000 + word(
            bytes,
            from,
        ),
{
    one_byte_more(bytes, from + 4);
    one_byte_more(bytes, from + 3);
    one_byte_more(bytes, from + 2);
    one_byte_more(bytes, from + 1);
}

proof fn one_byte_more(bytes: Seq<u8>, count: int)
    requires
        0 < count <= bytes.len(),
    ensures
        big_endian(bytes.take(count)) == big_endian(bytes.take(count - 1)) * 256 + bytes[count - 1],
{
    assert(bytes.take(count).drop_last() =~= bytes.take(count - 1));
}

/// The four bytes of a word that stands at the end of a shifted number.
proof fn bytes_of_a_word(number: u128, shift: u128, a: u8, b: u8, c: u8, d: u8)
    requires
        shift <= 96,
        (number >> shift) & 0xffff_ffffu128 == (a * 0x100_0000 + b * 0x1_0000 + c * 0x100
            + d) as u128,
    ensures
        (number >> ((shift + 24) as u128)) & 0xffu128 == a as u128,
        (number >> ((shift + 16) as u128)) & 0xffu128 == b as u128,
        (number >> ((shift + 8) as u128)) & 0xffu128 == c as u128,
        (number >> shift) & 0xffu128 == d as u128,
{
    assert((number >> ((shift + 24) as u128)) & 0xffu128 == a as u128 && (number >> ((shift + 16) as u128))
        & 0xffu128 == b as u128 && (number >> ((shift + 8) as u128)) & 0xffu128 == c as u128 && (number
        >> shift) & 0xffu128 == d as u128) by (bit_vector)
        requires
            shift <= 96,
            (number >> shift) & 0xffff_ffffu128 == (a * 0x100_0000 + b * 0x1_0000 + c * 0x100
                + d) as u128,
    ;
}

/// A folded ID has, byte for byte and most significant first, the first sixteen
/// bytes of the ID, with the last four XOR-ed into the first four.
pub proof fn folding_mixes_in_the_last_four_bytes(id: [u8; ID_LEN])
    ensures
        ({
            let folded = fold_id(id@);
            &&& (folded >> 120u128) & 0xffu128 == (id@[0] ^ id@[16]) as u128
            &&& (folded >> 112u128) & 0xffu128 == (id@[1] ^ id@[17]) as u128
            &&& (folded >> 104u128) & 0xffu128 == (id@[2] ^ id@[18]) as u128
            &&& (folded >> 96u128) & 0xffu128 == (id@[3] ^ id@[19]) as u128
            &&& (folded >> 88u128) & 0xffu128 == id@[4] as u128
            &&& (folded >> 80u128) & 0xffu128 == id@[5] as u128
            &&& (folded >> 72u128) & 0xffu128 == id@[6] as u128
            &&& (folded >> 64u128) & 0xffu128 == id@[7] as u128
            &&& (folded >> 56u128) & 0xffu128 == id@[8] as u128
            &&& (folded >> 48u128) & 0xffu128 == id@[9] as u128
            &&& (folded >> 40u128) & 0xffu128 == id@[10] as u128
            &&& (folded >> 32u128) & 0xffu128 == id@[11] as u128
            &&& (folded >> 24u128) & 0xffu128 == id@[12] as u128
            &&& (folded >> 16u128) & 0xffu128 == id@[13] as u128
            &&& (folded >> 8u128) & 0xffu128 == id@[14] as u128
            &&& folded & 0xffu128 == id@[15] as u128
        }),
{
    let head = id@.subrange(0, 16);
    let tail = id@.subrange(16, 20);
    one_word_more(head, 0);
    one_word_more(head, 4);
    one_word_more(head, 8);
    one_word_more(head, 12);
    one_word_more(tail, 0);
    assert(head.take(16) =~= head);
    assert(tail.take(4) =~= tail);
    assert(big_endian(head.take(0)) == 0 && big_endian(tail.take(0)) == 0);
    let folded = fold_id(id@);
    let w0: u32 = word(head, 0) as u32;
    let w1: u32 = word(head, 4) as u32;
    let w2: u32 = word(head, 8) as u32;
    let w3: u32 = word(head, 12) as u32;
    let t: u32 = word(tail, 0) as u32;
    let base: u128 = big_endian(head) as u128;
    let low: u128 = big_endian(tail) as u128;
    assert(base == ((w0 * 0x1_0000_0000 + w1) * 0x1_0000_0000 + w2) * 0x1_0000_0000 + w3);
    assert(low == t);
    assert((folded >> 96u128) & 0xffff_ffffu128 == (w0 ^ t) as u128 && (folded >> 64u128)
        & 0xffff_ffffu128 == w1 as u128 && (folded >> 32u128) & 0xffff_ffffu128 == w2 as u128 && (
    folded >> 0u128) & 0xffff_ffffu128 == w3 as u128) by (bit_vector)
        requires
            base == ((w0 * 0x1_0000_0000 + w1) * 0x1_0000_0000 + w2) * 0x1_0000_0000 + w3,
            low == t,
            folded == base ^ (low << 96u128),
    ;
    let (a, b, c, d) = (id@[0], id@[1], id@[2], id@[3]);
    let (e, f, g, h) = (id@[16], id@[17], id@[18], id@[19]);
    assert(w0 ^ t == (a ^ e) * 0x100_0000 + (b ^ f) * 0x1_0000 + (c ^ g) * 0x100 + (d ^ h))
        by (bit_vector)
        requires
            w0 == a * 0x100_0000 + b * 0x1_0000 + c * 0x100 + d,
            t == e * 0x100_0000 + f * 0x1_0000 + g * 0x100 + h,
    ;
    bytes_of_a_word(folded, 96, a ^ e, b ^ f, c ^ g, d ^ h);
    bytes_of_a_word(folded, 64, id@[4], id@[5], id@[6], id@[7]);
    bytes_of_a_word(folded, 32, id@[8], id@[9], id@[10], id@[11]);
    bytes_of_a_word(folded, 0, id@[12], id@[13], id@[14], id@[15]);
    assert(folded >> 0u128 == folded) by (bit_vector);
}

/// The distance has a bit exactly where the two folded IDs have different ones.
pub proof fn a_distance_is_the_bits_that_differ(a: u128, b: u128, bit: u128)
    requires
        bit < 128,
    ensures
        (xor_distance(a, b) >> bit) & 1 == if (a >> bit) & 1 == (b >> bit) & 1 {
            0u128
        } else {
            1u128
        },
{
    assert(((a ^ b) >> bit) & 1 == if (a >> bit) & 1 == (b >> bit) & 1 {
        0u128
    } else {
        1u128
    }) by (bit_vector)
        requires
            bit < 128,
    ;
}

/// A bounded list shows its nearest peers, as many as the bound allows, in order of
/// their XOR distance from the pivot; and a shown peer waits exactly if its ID was
/// not contacted.
pub proof fn a_bounded_list_shows_the_nearest(heap: NodeHeap, node: Node)
    requires
        heap.wf(),
    ensures
        ({
            let shown = heap.listed();
            &&& shown.len() == if heap.heap@.len() <= heap.maxsize {
                heap.heap@.len()
            } else {
                heap.maxsize as nat
            }
            &&& forall|i: int| 0 <= i < shown.len() ==> #[trigger] shown[i] == heap.heap@[i]
            &&& forall|i: int, j: int|
                0 <= i < shown.len() && i < j < heap.heap@.len() ==> (heap.node.long_id ^ (
                #[trigger] shown[i]).long_id) <= (heap.node.long_id ^ (
                #[trigger] heap.heap@[j]).long_id)
            &&& heap.waiting().contains(node) <==> (exists|i: int|
                0 <= i < heap.heap@.len() && i < heap.maxsize && #[trigger] heap.heap@[i] == node)
                && !heap.contacted@.contains(node.id)
        }),
{
    ranked_lists_are_by_distance(heap.node.long_id, heap.nodes());
    filter_members(heap.listed(), |n: Node| !heap.contacted@.contains(n.id));
    let shown = heap.listed();
    if exists|i: int|
        0 <= i < heap.heap@.len() && i < heap.maxsize && #[trigger] heap.heap@[i] == node {
        let i = choose|i: int|
            0 <= i < heap.heap@.len() && i < heap.maxsize && #[trigger] heap.heap@[i] == node;
        assert(shown[i] == node);
    }
    if shown.contains(node) {
        let i = choose|i: int| 0 <= i < shown.len() && shown[i] == node;
        assert(heap.heap@[i] == node);
    }
}

/// A shown list is its parts one after the other, with a comma and a blank between
/// them, and a list of one peer is the peer.
pub proof fn a_shown_list_is_its_parts(front: Seq<Node>, back: Seq<Node>)
    requires
        front.len() > 0,
        back.len() > 0,
    ensures
        joined_labels(front + back) == joined_labels(front) + seq![',', ' '] + joined_labels(back),
        front.len() == 1 ==> joined_labels(front) == front[0].label(),
    decreases back.len(),
{
    reveal_strlit(", ");
    assert(", "@ =~= seq![',', ' ']);
    let both = front + back;
    assert(both.drop_last() =~= front + back.drop_last());
    assert(both.last() == back.last());
    if back.len() == 1 {
        assert(back.drop_last() =~= Seq::empty());
        assert(front + back.drop_last() =~= front);
        assert(joined_labels(back) == back.last().label());
    } else {
        a_shown_list_is_its_parts(front, back.drop_last());
        assert(joined_labels(both) =~= joined_labels(front) + seq![',', ' '] + joined_labels(back));
    }
}

} // verus!
