//! The layout of datagrams byte by byte, and what becomes of arriving ones.

use vstd::prelude::*;

use crate::fragmentation::big_endian_round_trip;
use crate::fragmentation::chunk_of;
use crate::fragmentation::datagram;
use crate::fragmentation::entry_after;
use crate::fragmentation::fragment_count;
use crate::fragmentation::fragments;
use crate::fragmentation::header_of;
use crate::fragmentation::joined;
use crate::fragmentation::message_received;
use crate::fragmentation::parsed;
use crate::fragmentation::table_received;
use crate::fragmentation::to_big_endian;
use crate::fragmentation::FragmentHeader;
use crate::fragmentation::MessageKey;
use crate::fragmentation::ReassemblyModel;
use crate::node::big_endian;
use crate::node::pow256;

verus! {

/// Two bytes as a number.
proof fn two_bytes(data: Seq<u8>, at: int)
    requires
        0 <= at,
        at + 2 <= data.len(),
    ensures
        big_endian(data.subrange(at, at + 2)) == data[at] * 256 + data[at + 1],
{
    reveal_with_fuel(big_endian, 3);
    let bytes = data.subrange(at, at + 2);
    assert(bytes.last() == data[at + 1]);
    assert(bytes.drop_last().last() == data[at]);
    assert(bytes.drop_last().drop_last().len() == 0);
}

/// Four bytes as a number.
proof fn four_bytes(data: Seq<u8>, at: int)
    requires
        0 <= at,
        at + 4 <= data.len(),
    ensures
        big_endian(data.subrange(at, at + 4)) == data[at] * 0x100_0000 + data[at + 1] * 0x1_0000
            + data[at + 2] * 0x100 + data[at + 3],
{
    reveal_with_fuel(big_endian, 5);
    let bytes = data.subrange(at, at + 4);
    assert(bytes.last() == data[at + 3]);
    assert(bytes.drop_last().last() == data[at + 2]);
    assert(bytes.drop_last().drop_last().last() == data[at + 1]);
    assert(bytes.drop_last().drop_last().drop_last().last() == data[at]);
    assert(bytes.drop_last().drop_last().drop_last().drop_last().len() == 0);
}

/// A message of up to 1400 bytes takes one datagram, a longer one as many as are
/// needed to carry 1400 bytes each.  A datagram starts with `KADF`, four bytes of
/// number, two of position and two of count, most significant byte first; behind
/// that stand the bytes of the message from 1400 times the position on.
pub proof fn a_datagram_is_laid_out(frag_id: u32, message: Seq<u8>, index: int)
    requires
        message.len() <= 1400 * 65_535,
        0 <= index < fragments(frag_id, message).len(),
    ensures
        ({
            let datagrams = fragments(frag_id, message);
            let data = datagrams[index];
            &&& message.len() <= 1400 ==> datagrams.len() == 1
            &&& message.len() > 1400 ==> 1400 * (datagrams.len() - 1) < message.len() <= 1400
                * datagrams.len()
            &&& 12 <= data.len() <= 1412
            &&& data[0] == 0x4b && data[1] == 0x41 && data[2] == 0x44 && data[3] == 0x46
            &&& data[4] * 0x100_0000 + data[5] * 0x1_0000 + data[6] * 0x100 + data[7] == frag_id
            &&& data[8] * 256 + data[9] == index
            &&& data[10] * 256 + data[11] == datagrams.len()
            &&& index < datagrams.len() - 1 ==> data.skip(12) == message.subrange(
                1400 * index,
                1400 * index + 1400,
            )
            &&& index == datagrams.len() - 1 ==> data.skip(12) == message.skip(1400 * index)
        }),
{
    reveal_with_fuel(pow256, 5);
    let datagrams = fragments(frag_id, message);
    let data = datagrams[index];
    let header = header_of(frag_id, message, index);
    let chunk = chunk_of(message, index);
    let count = fragment_count(message.len());
    assert(1 <= count <= 65_535);
    assert(data == datagram(header, chunk));
    big_endian_round_trip(header.frag_id as nat, 4);
    big_endian_round_trip(header.index as nat, 2);
    big_endian_round_trip(header.total as nat, 2);
    assert(data.subrange(4, 8) =~= to_big_endian(header.frag_id as nat, 4));
    assert(data.subrange(8, 10) =~= to_big_endian(header.index as nat, 2));
    assert(data.subrange(10, 12) =~= to_big_endian(header.total as nat, 2));
    four_bytes(data, 4);
    two_bytes(data, 8);
    two_bytes(data, 10);
    assert(data.skip(12) =~= chunk);
    if index == count - 1 {
        assert(chunk =~= message.skip(1400 * index));
    }
}

/// A datagram is read exactly if it has twelve bytes, starts with `KADF` and
/// numbers its chunk below the count.  Its number, position and count are those of
/// bytes 4 to 7, 8 and 9, and 10 and 11, and its chunk is what follows.
pub proof fn a_datagram_is_read_by_its_bytes(data: Seq<u8>)
    ensures
        parsed(data) is Some <==> data.len() >= 12 && data[0] == 0x4b && data[1] == 0x41 && data[2]
            == 0x44 && data[3] == 0x46 && data[8] * 256 + data[9] < data[10] * 256 + data[11],
        parsed(data) matches Some((header, chunk)) ==> header.frag_id == data[4] * 0x100_0000
            + data[5] * 0x1_0000 + data[6] * 0x100 + data[7] && header.index == data[8] * 256
            + data[9] && header.total == data[10] * 256 + data[11] && chunk == data.skip(12),
{
    if data.len() >= 12 {
        four_bytes(data, 4);
        two_bytes(data, 8);
        two_bytes(data, 10);
        if data[0] == 0x4b && data[1] == 0x41 && data[2] == 0x44 && data[3] == 0x46 {
            assert(data.take(4) =~= seq![75u8, 65u8, 68u8, 70u8]);
        }
        assert(data.take(4)[0] == data[0] && data.take(4)[1] == data[1] && data.take(4)[2]
            == data[2] && data.take(4)[3] == data[3]);
        let first = seq![75u8, 65u8, 68u8, 70u8];
        assert(first[0] == 75 && first[1] == 65 && first[2] == 68 && first[3] == 70);
    }
}

/// A datagram that carries a whole message gives it at once, and nothing is kept.
pub proof fn a_single_datagram_is_the_message(
    table: ReassemblyModel,
    data: Seq<u8>,
    ip: Seq<char>,
    port: u16,
    now: u64,
)
    requires
        parsed(data) matches Some((header, chunk)) && header.total == 1,
    ensures
        message_received(table, data, ip, port, now) == Some(data.skip(12)),
        table_received(table, data, ip, port, now) == table,
{
}

/// A datagram that cannot be read, that belongs to a message of more than 187
/// datagrams, or that names another count than those of its message before it, is
/// dropped.
pub proof fn a_bad_datagram_is_dropped(
    table: ReassemblyModel,
    data: Seq<u8>,
    ip: Seq<char>,
    port: u16,
    now: u64,
)
    requires
        parsed(data) matches Some((header, chunk)) ==> header.total > 187 || (header.total > 1
            && table.contains_key((ip, port, header.frag_id)) && table[(
            ip,
            port,
            header.frag_id,
        )].slots.len() != header.total),
    ensures
        message_received(table, data, ip, port, now) is None,
        table_received(table, data, ip, port, now) == table,
{
}

/// What an arriving chunk of a longer message does to the places of the message:
/// its own place is filled with it unless it was filled before, and the other
/// places stay as they were.  A message that is new gets a place for each chunk and
/// the time of arrival.
pub proof fn a_chunk_fills_its_place(
    table: ReassemblyModel,
    key: MessageKey,
    header: FragmentHeader,
    chunk: Seq<u8>,
    now: u64,
    place: int,
)
    requires
        header.index < header.total,
        table.contains_key(key) ==> table[key].slots.len() == header.total,
        0 <= place < header.total,
    ensures
        ({
            let after = entry_after(table, key, header, chunk, now);
            &&& after.slots.len() == header.total
            &&& table.contains_key(key) ==> after.created_at == table[key].created_at
            &&& !table.contains_key(key) ==> after.created_at == now
            &&& after.slots[place] == if table.contains_key(key) && table[key].slots[place] is Some {
                table[key].slots[place]
            } else if place == header.index {
                Some(chunk)
            } else {
                None
            }
        }),
{
}

/// A chunk that leaves its message incomplete gives nothing.  The message is kept,
/// and of all incomplete messages exactly those whose first chunk arrived less than
/// ten seconds before.
pub proof fn incomplete_messages_are_kept_for_ten_seconds(
    table: ReassemblyModel,
    data: Seq<u8>,
    ip: Seq<char>,
    port: u16,
    now: u64,
    other: MessageKey,
    missing: int,
)
    requires
        parsed(data) is Some,
        ({
            let (header, chunk) = parsed(data)->0;
            let key = (ip, port, header.frag_id);
            &&& 1 < header.total <= 187
            &&& table.contains_key(key) ==> table[key].slots.len() == header.total
            &&& 0 <= missing < header.total
            &&& missing != header.index
            &&& table.contains_key(key) ==> table[key].slots[missing] is None
        }),
    ensures
        ({
            let (header, chunk) = parsed(data)->0;
            let key = (ip, port, header.frag_id);
            let after = table_received(table, data, ip, port, now);
            &&& message_received(table, data, ip, port, now) is None
            &&& other != key ==> (after.contains_key(other) <==> table.contains_key(other) && now
                < table[other].created_at + 10_000)
            &&& other != key && after.contains_key(other) ==> after[other] == table[other]
            &&& !table.contains_key(key) ==> after.contains_key(key)
            &&& table.contains_key(key) ==> (after.contains_key(key) <==> now
                < table[key].created_at + 10_000)
            &&& after.contains_key(key) ==> after[key] == entry_after(
                table,
                key,
                header,
                chunk,
                now,
            )
        }),
{
    let (header, chunk) = parsed(data)->0;
    let key = (ip, port, header.frag_id);
    let entry = entry_after(table, key, header, chunk, now);
    a_datagram_is_read_by_its_bytes(data);
    a_chunk_fills_its_place(table, key, header, chunk, now, missing);
    assert(entry.slots[missing] is None);
    assert(!entry.is_complete());
}

/// A message is complete with the last missing chunk.  It then consists of its
/// chunks, one after the other, and is forgotten; the other messages stay.
pub proof fn the_last_chunk_completes_the_message(
    table: ReassemblyModel,
    data: Seq<u8>,
    ip: Seq<char>,
    port: u16,
    now: u64,
    chunks: Seq<Seq<u8>>,
    other: MessageKey,
)
    requires
        parsed(data) is Some,
        ({
            let (header, chunk) = parsed(data)->0;
            let key = (ip, port, header.frag_id);
            &&& 1 < header.total <= 187
            &&& table.contains_key(key)
            &&& table[key].slots.len() == header.total
            &&& chunks.len() == header.total
            &&& chunks[header.index as int] == chunk
            &&& table[key].slots[header.index as int] is None
            &&& forall|i: int|
                0 <= i < header.total && i != header.index ==> #[trigger] table[key].slots[i]
                    == Some(chunks[i])
        }),
    ensures
        ({
            let (header, chunk) = parsed(data)->0;
            let key = (ip, port, header.frag_id);
            let after = table_received(table, data, ip, port, now);
            &&& message_received(table, data, ip, port, now) == Some(chunks.flatten())
            &&& !after.contains_key(key)
            &&& other != key ==> (after.contains_key(other) <==> table.contains_key(other))
            &&& other != key && after.contains_key(other) ==> after[other] == table[other]
        }),
{
    let (header, chunk) = parsed(data)->0;
    let key = (ip, port, header.frag_id);
    let entry = entry_after(table, key, header, chunk, now);
    a_datagram_is_read_by_its_bytes(data);
    assert forall|i: int| 0 <= i < chunks.len() implies #[trigger] entry.slots[i] == Some(
        chunks[i],
    ) by {
        a_chunk_fills_its_place(table, key, header, chunk, now, i);
        if i != header.index {
            assert(table[key].slots[i] == Some(chunks[i]));
        }
    }
    assert(entry.is_complete());
    joining_is_flattening(entry.slots, chunks);
}

proof fn joining_is_flattening(slots: Seq<Option<Seq<u8>>>, chunks: Seq<Seq<u8>>)
    requires
        slots.len() == chunks.len(),
        forall|i: int| 0 <= i < chunks.len() ==> #[trigger] slots[i] == Some(chunks[i]),
    ensures
        joined(slots) == chunks.flatten(),
    decreases slots.len(),
{
    chunks.lemma_flatten_and_flatten_alt_are_equivalent();
    if slots.len() > 0 {
        let front = slots.drop_last();
        let rest = chunks.drop_last();
        assert forall|i: int| 0 <= i < rest.len() implies #[trigger] front[i] == Some(rest[i]) by {
            assert(slots[i] == Some(chunks[i]));
        }
        joining_is_flattening(front, rest);
        rest.lemma_flatten_and_flatten_alt_are_equivalent();
        assert(slots[slots.len() - 1] == Some(chunks[chunks.len() - 1]));
    }
}

} // verus!
