//! Splitting messages over UDP datagrams and putting them together again.
//!
//! A datagram is laid out as follows, with integers in big-endian order:
//!
//! ```text
//! [magic: 4 B "KADF"][frag_id: 4 B u32][index: 2 B u16][total: 2 B u16][chunk]
//! ```
//!
//! Every message is sent this way, also one that fits into a single datagram.

use vstd::prelude::*;

use crate::node::big_endian;
use crate::node::pow256;

verus! {

/// Bytes of message that one datagram carries at most.
pub const FRAG_CHUNK_SIZE: usize = 1400;

/// Bytes in front of the chunk.
pub const FRAG_HEADER_SIZE: usize = 12;

/// The longest message that is sent: 256 KB.  Datagrams that could carry more than
/// that between them are refused, so at most 187 of them make up a message.
pub const MAX_MESSAGE_SIZE: usize = 262_144;

/// Milliseconds for which an incomplete message is kept.
pub const REASSEMBLY_TTL: u64 = 10_000;

/// The first bytes of every datagram: `KADF`.
pub open spec fn magic() -> Seq<u8> {
    seq![75u8, 65u8, 68u8, 70u8]
}

/// The number `value` in `len` bytes, most significant first.
pub open spec fn to_big_endian(value: nat, len: nat) -> Seq<u8>
    decreases len,
{
    if len == 0 {
        Seq::empty()
    } else {
        to_big_endian(value / 256, (len - 1) as nat).push((value % 256) as u8)
    }
}

/// Reading back a number that fits into its bytes.
pub proof fn big_endian_round_trip(value: nat, len: nat)
    requires
        value < pow256(len),
    ensures
        to_big_endian(value, len).len() == len,
        big_endian(to_big_endian(value, len)) == value,
    decreases len,
{
    if len > 0 {
        let high = to_big_endian(value / 256, (len - 1) as nat);
        big_endian_round_trip(value / 256, (len - 1) as nat);
        assert(to_big_endian(value, len).drop_last() =~= high);
    }
}

/// What stands in front of a chunk.
#[derive(Debug, Clone, Copy, PartialEq, Eq, Structural)]
pub struct FragmentHeader {
    /// The message that the chunk belongs to, unique to its sender.
    pub frag_id: u32,
    /// Position of the chunk in the message, from 0.
    pub index: u16,
    /// Number of chunks of the message, at least 1.
    pub total: u16,
}

/// The bytes in front of a chunk.
pub open spec fn header_bytes(header: FragmentHeader) -> Seq<u8> {
    magic() + to_big_endian(header.frag_id as nat, 4) + to_big_endian(header.index as nat, 2)
        + to_big_endian(header.total as nat, 2)
}

/// The datagram that carries a chunk.
pub open spec fn datagram(header: FragmentHeader, chunk: Seq<u8>) -> Seq<u8> {
    header_bytes(header) + chunk
}

/// How many datagrams a message of the given length takes.
pub open spec fn fragment_count(len: nat) -> nat {
    if len <= FRAG_CHUNK_SIZE {
        1
    } else {
        ((len + FRAG_CHUNK_SIZE - 1) / FRAG_CHUNK_SIZE as int) as nat
    }
}

/// The smaller of two lengths.
pub open spec fn smaller(a: int, b: int) -> int {
    if a <= b {
        a
    } else {
        b
    }
}

/// The part of the message that its datagram number `index` carries.
pub open spec fn chunk_of(message: Seq<u8>, index: int) -> Seq<u8> {
    message.subrange(
        smaller(index * FRAG_CHUNK_SIZE, message.len() as int),
        smaller((index + 1) * FRAG_CHUNK_SIZE, message.len() as int),
    )
}

/// The header of datagram number `index` of the message.
pub open spec fn header_of(frag_id: u32, message: Seq<u8>, index: int) -> FragmentHeader {
    FragmentHeader { frag_id, index: index as u16, total: fragment_count(message.len()) as u16 }
}

/// The datagrams that carry the message.
pub open spec fn fragments(frag_id: u32, message: Seq<u8>) -> Seq<Seq<u8>> {
    Seq::new(
        fragment_count(message.len()),
        |i: int| datagram(header_of(frag_id, message, i), chunk_of(message, i)),
    )
}

/// The header and chunk of a datagram.  There are none where the datagram is
/// shorter than a header, does not start with the magic bytes, or numbers its
/// chunk beyond the total.
pub open spec fn parsed(data: Seq<u8>) -> Option<(FragmentHeader, Seq<u8>)> {
    let index = big_endian(data.subrange(8, 10));
    let total = big_endian(data.subrange(10, 12));
    if data.len() < FRAG_HEADER_SIZE || data.take(4) != magic() || index >= total {
        None
    } else {
        Some(
            (
                FragmentHeader {
                    frag_id: big_endian(data.subrange(4, 8)) as u32,
                    index: index as u16,
                    total: total as u16,
                },
                data.skip(12),
            ),
        )
    }
}

/// A datagram gives back the header and the chunk that it was made of.
pub proof fn datagram_round_trip(header: FragmentHeader, chunk: Seq<u8>)
    requires
        header.index < header.total,
    ensures
        parsed(datagram(header, chunk)) == Some((header, chunk)),
{
    reveal_with_fuel(pow256, 5);
    let data = datagram(header, chunk);
    big_endian_round_trip(header.frag_id as nat, 4);
    big_endian_round_trip(header.index as nat, 2);
    big_endian_round_trip(header.total as nat, 2);
    assert(data.take(4) =~= magic());
    assert(data.subrange(4, 8) =~= to_big_endian(header.frag_id as nat, 4));
    assert(data.subrange(8, 10) =~= to_big_endian(header.index as nat, 2));
    assert(data.subrange(10, 12) =~= to_big_endian(header.total as nat, 2));
    assert(data.skip(12) =~= chunk);
}

fn push_byte(out: &mut Vec<u8>, value: u32)
    requires
        value < 256,
    ensures
        final(out)@ == old(out)@.push(value as u8),
{
    out.push(value as u8);
}

fn push_u16(out: &mut Vec<u8>, value: u16)
    ensures
        final(out)@ == old(out)@ + to_big_endian(value as nat, 2),
{
    proof {
        reveal_with_fuel(to_big_endian, 3);
    }
    push_byte(out, (value / 256) as u32);
    push_byte(out, (value % 256) as u32);
    assert(out@ =~= old(out)@ + to_big_endian(value as nat, 2));
}

fn push_u32(out: &mut Vec<u8>, value: u32)
    ensures
        final(out)@ == old(out)@ + to_big_endian(value as nat, 4),
{
    proof {
        reveal_with_fuel(to_big_endian, 5);
    }
    push_byte(out, value / 16_777_216);
    push_byte(out, value / 65_536 % 256);
    push_byte(out, value / 256 % 256);
    push_byte(out, value % 256);
    assert(value as nat / 256 / 256 / 256 == value as nat / 16_777_216);
    assert(value as nat / 256 / 256 == value as nat / 65_536);
    assert(out@ =~= old(out)@ + to_big_endian(value as nat, 4));
}

fn read_u16(data: &[u8], at: usize) -> (value: u16)
    requires
        at + 2 <= data@.len(),
    ensures
        value == big_endian(data@.subrange(at as int, at + 2)),
{
    proof {
        reveal_with_fuel(big_endian, 3);
        let bytes = data@.subrange(at as int, at + 2);
        assert(bytes.drop_last().last() == data@[at as int]);
    }
    data[at] as u16 * 256 + data[at + 1] as u16
}

fn read_u32(data: &[u8], at: usize) -> (value: u32)
    requires
        at + 4 <= data@.len(),
    ensures
        value == big_endian(data@.subrange(at as int, at + 4)),
{
    proof {
        reveal_with_fuel(big_endian, 5);
        let bytes = data@.subrange(at as int, at + 4);
        assert(bytes.last() == data@[at + 3]);
        assert(bytes.drop_last().last() == data@[at + 2]);
        assert(bytes.drop_last().drop_last().last() == data@[at + 1]);
        assert(bytes.drop_last().drop_last().drop_last().last() == data@[at as int]);
    }
    ((data[at] as u32 * 256 + data[at + 1] as u32) * 256 + data[at + 2] as u32) * 256 + data[at
        + 3] as u32
}

/// The datagrams that carry `message`, in order.
pub fn encode_fragments(frag_id: u32, message: &[u8]) -> (datagrams: Vec<Vec<u8>>)
    requires
        message@.len() <= FRAG_CHUNK_SIZE * u16::MAX,
    ensures
        datagrams@.len() == fragment_count(message@.len()),
        datagrams@.map_values(|d: Vec<u8>| d@) == fragments(frag_id, message@),
{
    let total: usize = if message.len() <= FRAG_CHUNK_SIZE {
        1
    } else {
        (message.len() - 1) / FRAG_CHUNK_SIZE + 1
    };
    assert(total == fragment_count(message@.len()));
    let mut datagrams: Vec<Vec<u8>> = Vec::new();
    let mut index: usize = 0;
    while index < total
        invariant
            message@.len() <= FRAG_CHUNK_SIZE * u16::MAX,
            total == fragment_count(message@.len()),
            total <= u16::MAX,
            index <= total,
            datagrams@.len() == index,
            forall|i: int|
                0 <= i < index ==> (#[trigger] datagrams@[i])@ == fragments(frag_id, message@)[i],
        decreases total - index,
    {
        let from: usize = index * FRAG_CHUNK_SIZE;
        let to: usize = if message.len() - from <= FRAG_CHUNK_SIZE {
            message.len()
        } else {
            from + FRAG_CHUNK_SIZE
        };
        let mut data: Vec<u8> = Vec::new();
        data.push(75);
        data.push(65);
        data.push(68);
        data.push(70);
        assert(data@ =~= magic());
        push_u32(&mut data, frag_id);
        push_u16(&mut data, index as u16);
        push_u16(&mut data, total as u16);
        let mut at: usize = from;
        while at < to
            invariant
                from <= at <= to <= message@.len(),
                data@ == header_bytes(header_of(frag_id, message@, index as int))
                    + message@.subrange(from as int, at as int),
            decreases to - at,
        {
            data.push(message[at]);
            at = at + 1;
            assert(data@ =~= header_bytes(header_of(frag_id, message@, index as int))
                + message@.subrange(from as int, at as int));
        }
        datagrams.push(data);
        index = index + 1;
    }
    assert(datagrams@.map_values(|d: Vec<u8>| d@) =~= fragments(frag_id, message@));
    datagrams
}

/// The header and the chunk of a datagram, or `None` where it has no valid
/// header.
pub fn parse_fragment(data: &[u8]) -> (parts: Option<(FragmentHeader, &[u8])>)
    ensures
        match parts {
            Some((header, chunk)) => parsed(data@) == Some((header, chunk@)),
            None => parsed(data@) is None,
        },
{
    if data.len() < FRAG_HEADER_SIZE {
        return None;
    }
    if data[0] != 75 || data[1] != 65 || data[2] != 68 || data[3] != 70 {
        assert(data@.take(4)[0] == data@[0]);
        assert(data@.take(4)[1] == data@[1]);
        assert(data@.take(4)[2] == data@[2]);
        assert(data@.take(4)[3] == data@[3]);
        assert(magic()[0] == 75 && magic()[1] == 65 && magic()[2] == 68 && magic()[3] == 70);
        return None;
    }
    assert(data@.take(4) =~= magic());
    let frag_id: u32 = read_u32(data, 4);
    let index: u16 = read_u16(data, 8);
    let total: u16 = read_u16(data, 10);
    if index >= total {
        return None;
    }
    let chunk: &[u8] = vstd::slice::slice_subrange(data, FRAG_HEADER_SIZE, data.len());
    assert(chunk@ =~= data@.skip(12));
    Some((FragmentHeader { frag_id, index, total }, chunk))
}

/// The chunks of a message that have arrived, in their places.
pub struct EntryModel {
    /// One place for each chunk.
    pub slots: Seq<Option<Seq<u8>>>,
    /// When the first chunk arrived.
    pub created_at: u64,
}

/// How many places are filled.
pub open spec fn filled(slots: Seq<Option<Seq<u8>>>) -> nat
    decreases slots.len(),
{
    if slots.len() == 0 {
        0
    } else {
        filled(slots.drop_last()) + if slots.last() is Some {
            1nat
        } else {
            0nat
        }
    }
}

/// The chunks one after the other.
pub open spec fn joined(slots: Seq<Option<Seq<u8>>>) -> Seq<u8>
    decreases slots.len(),
{
    if slots.len() == 0 {
        Seq::empty()
    } else {
        joined(slots.drop_last()) + slots.last().unwrap_or(Seq::empty())
    }
}

/// Every place is filled.
pub open spec fn complete(slots: Seq<Option<Seq<u8>>>) -> bool {
    forall|i: int| 0 <= i < slots.len() ==> (#[trigger] slots[i]) is Some
}

proof fn filled_counts(slots: Seq<Option<Seq<u8>>>)
    ensures
        filled(slots) <= slots.len(),
        filled(slots) == slots.len() <==> complete(slots),
    decreases slots.len(),
{
    if slots.len() > 0 {
        let front = slots.drop_last();
        filled_counts(front);
        assert(slots[slots.len() - 1] == slots.last());
        if complete(slots) {
            assert forall|i: int| 0 <= i < front.len() implies (#[trigger] front[i]) is Some by {
                assert(front[i] == slots[i]);
            }
        }
        if complete(front) && slots.last() is Some {
            assert forall|i: int| 0 <= i < slots.len() implies (#[trigger] slots[i]) is Some by {
                if i < front.len() {
                    assert(front[i] == slots[i]);
                }
            }
        }
    }
}

proof fn filled_one_more(slots: Seq<Option<Seq<u8>>>, at: int, chunk: Seq<u8>)
    requires
        0 <= at < slots.len(),
        slots[at] is None,
    ensures
        filled(slots.update(at, Some(chunk))) == filled(slots) + 1,
    decreases slots.len(),
{
    let after = slots.update(at, Some(chunk));
    if at == slots.len() - 1 {
        assert(after.drop_last() =~= slots.drop_last());
    } else {
        assert(after.drop_last() =~= slots.drop_last().update(at, Some(chunk)));
        filled_one_more(slots.drop_last(), at, chunk);
    }
}

proof fn none_filled(slots: Seq<Option<Seq<u8>>>)
    requires
        forall|i: int| 0 <= i < slots.len() ==> (#[trigger] slots[i]) is None,
    ensures
        filled(slots) == 0,
    decreases slots.len(),
{
    if slots.len() > 0 {
        assert forall|i: int| 0 <= i < slots.drop_last().len() implies (
        #[trigger] slots.drop_last()[i]) is None by {
            assert(slots.drop_last()[i] == slots[i]);
        }
        none_filled(slots.drop_last());
        assert(slots[slots.len() - 1] is None);
    }
}

impl EntryModel {
    /// A message of `total` chunks of which none has arrived.
    pub open spec fn fresh(total: u16, now: u64) -> EntryModel {
        EntryModel { slots: Seq::new(total as nat, |i: int| None), created_at: now }
    }

    /// The message after a chunk arrived.  A chunk that was there already stays
    /// as it is.
    pub open spec fn with_chunk(self, index: u16, chunk: Seq<u8>) -> EntryModel {
        if index < self.slots.len() && self.slots[index as int] is None {
            EntryModel { slots: self.slots.update(index as int, Some(chunk)), ..self }
        } else {
            self
        }
    }

    /// Every chunk has arrived.
    pub open spec fn is_complete(&self) -> bool {
        complete(self.slots)
    }

    /// The message is kept at `now`.
    pub open spec fn is_kept(&self, now: u64) -> bool {
        now - self.created_at < REASSEMBLY_TTL
    }
}

/// The places as the model has them.
pub open spec fn slot_models(chunks: Seq<Option<Vec<u8>>>) -> Seq<Option<Seq<u8>>> {
    chunks.map_values(
        |c: Option<Vec<u8>>|
            match c {
                Some(bytes) => Some(bytes@),
                None => None,
            },
    )
}

/// A message that is being put together.
pub struct ReassemblyEntry {
    /// Number of chunks of the message.
    pub total: u16,
    /// The chunks that have arrived.
    pub chunks: Vec<Option<Vec<u8>>>,
    /// How many have arrived.
    pub received: usize,
    /// When the first arrived, in milliseconds.
    pub created_at: u64,
}

impl View for ReassemblyEntry {
    type V = EntryModel;

    open spec fn view(&self) -> EntryModel {
        EntryModel { slots: slot_models(self.chunks@), created_at: self.created_at }
    }
}

impl ReassemblyEntry {
    /// There is a place for each chunk, and the count is that of the filled
    /// ones.
    pub open spec fn wf(&self) -> bool {
        &&& self.chunks@.len() == self.total
        &&& self.received == filled(self@.slots)
    }

    /// A message of `total` chunks of which none has arrived.
    pub fn new(total: u16, now: u64) -> (entry: Self)
        ensures
            entry.wf(),
            entry.total == total,
            entry@ == EntryModel::fresh(total, now),
    {
        let mut chunks: Vec<Option<Vec<u8>>> = Vec::new();
        while chunks.len() < total as usize
            invariant
                chunks@.len() <= total,
                forall|i: int| 0 <= i < chunks@.len() ==> (#[trigger] chunks@[i]) is None,
            decreases total - chunks@.len(),
        {
            chunks.push(None);
        }
        let entry: ReassemblyEntry = Self { total, chunks, received: 0, created_at: now };
        proof {
            assert(entry@.slots =~= EntryModel::fresh(total, now).slots);
            none_filled(entry@.slots);
        }
        entry
    }

    /// Takes in a chunk.  The first chunk for a place stays.  Tells whether the
    /// message is complete.
    pub fn insert(&mut self, index: u16, chunk: Vec<u8>) -> (is_complete: bool)
        requires
            old(self).wf(),
        ensures
            final(self).wf(),
            final(self).total == old(self).total,
            final(self)@ == old(self)@.with_chunk(index, chunk@),
            is_complete == final(self)@.is_complete(),
    {
        let at: usize = index as usize;
        proof {
            filled_counts(self@.slots);
        }
        if at < self.chunks.len() && self.chunks[at].is_none() {
            proof {
                filled_one_more(self@.slots, at as int, chunk@);
                filled_counts(self@.slots.update(at as int, Some(chunk@)));
            }
            let ghost bytes = chunk@;
            self.chunks.set(at, Some(chunk));
            assert(slot_models(self.chunks@) =~= old(self)@.slots.update(at as int, Some(bytes)));
            self.received = self.received + 1;
        }
        self.received == self.total as usize
    }

    /// The message, once every chunk has arrived.
    pub fn assemble(self) -> (message: Option<Vec<u8>>)
        ensures
            match message {
                Some(bytes) => self@.is_complete() && bytes@ == joined(self@.slots),
                None => !self@.is_complete(),
            },
    {
        let mut message: Vec<u8> = Vec::new();
        let mut at: usize = 0;
        assert(self@.slots.take(0) =~= Seq::empty());
        while at < self.chunks.len()
            invariant
                at <= self.chunks@.len(),
                message@ == joined(self@.slots.take(at as int)),
                complete(self@.slots.take(at as int)),
            decreases self.chunks@.len() - at,
        {
            assert(self@.slots.take(at + 1).drop_last() =~= self@.slots.take(at as int));
            assert(self@.slots.take(at + 1).last() == self@.slots[at as int]);
            match &self.chunks[at] {
                Some(chunk) => {
                    message.extend_from_slice(chunk.as_slice());
                    assert forall|i: int| 0 <= i < at + 1 implies (#[trigger] self@.slots.take(
                        at + 1,
                    )[i]) is Some by {
                        if i < at {
                            assert(self@.slots.take(at + 1)[i] == self@.slots.take(at as int)[i]);
                        }
                    }
                },
                None => {
                    assert(self@.slots[at as int] is None);
                    return None;
                },
            }
            at = at + 1;
        }
        assert(self@.slots.take(at as int) =~= self@.slots);
        Some(message)
    }
}

/// A message is named by its sender's IP and port and by the sender's number
/// for it.
pub type MessageKey = (Seq<char>, u16, u32);

/// What is kept of incomplete messages.
pub type ReassemblyModel = Map<MessageKey, EntryModel>;

/// Incomplete messages that are not too old at `now`.
pub open spec fn without_stale(table: ReassemblyModel, now: u64) -> ReassemblyModel {
    table.restrict(Set::new(|key: MessageKey| table.contains_key(key) && table[key].is_kept(now)))
}

/// The message after a chunk of it arrived.
pub open spec fn entry_after(
    table: ReassemblyModel,
    key: MessageKey,
    header: FragmentHeader,
    chunk: Seq<u8>,
    now: u64,
) -> EntryModel {
    let entry = if table.contains_key(key) {
        table[key]
    } else {
        EntryModel::fresh(header.total, now)
    };
    entry.with_chunk(header.index, chunk)
}

/// The chunk is dropped: it would make the message too long, or it disagrees
/// with the chunks before it about their number.
pub open spec fn is_refused(
    table: ReassemblyModel,
    key: MessageKey,
    header: FragmentHeader,
) -> bool {
    ||| header.total * FRAG_CHUNK_SIZE > MAX_MESSAGE_SIZE
    ||| table.contains_key(key) && table[key].slots.len() != header.total
}

/// The incomplete messages after a chunk arrived.
pub open spec fn table_after(
    table: ReassemblyModel,
    key: MessageKey,
    header: FragmentHeader,
    chunk: Seq<u8>,
    now: u64,
) -> ReassemblyModel {
    let entry = entry_after(table, key, header, chunk, now);
    if header.total == 1 || is_refused(table, key, header) {
        table
    } else if entry.is_complete() {
        table.remove(key)
    } else {
        without_stale(table.insert(key, entry), now)
    }
}

/// The message that the arrival of a chunk completes.
pub open spec fn message_after(
    table: ReassemblyModel,
    key: MessageKey,
    header: FragmentHeader,
    chunk: Seq<u8>,
    now: u64,
) -> Option<Seq<u8>> {
    let entry = entry_after(table, key, header, chunk, now);
    if header.total == 1 {
        Some(chunk)
    } else if !is_refused(table, key, header) && entry.is_complete() {
        Some(joined(entry.slots))
    } else {
        None
    }
}

/// An incomplete message and its name.
pub struct Partial {
    pub ip: String,
    pub port: u16,
    pub frag_id: u32,
    pub entry: ReassemblyEntry,
}

impl Partial {
    /// The name of the message.
    pub open spec fn key(&self) -> MessageKey {
        (self.ip@, self.port, self.frag_id)
    }
}

/// The incomplete messages, by sender and number.
pub struct ReassemblyMap {
    pub partials: Vec<Partial>,
}

/// The position of the message with the given name.
pub open spec fn partial_at(partials: Seq<Partial>, key: MessageKey) -> int {
    choose|i: int| 0 <= i < partials.len() && (#[trigger] partials[i]).key() == key
}

/// There is a message with the given name.
pub open spec fn has_partial(partials: Seq<Partial>, key: MessageKey) -> bool {
    exists|i: int| 0 <= i < partials.len() && (#[trigger] partials[i]).key() == key
}

/// The messages by their names.
pub open spec fn partial_map(partials: Seq<Partial>) -> ReassemblyModel {
    Map::new(
        |key: MessageKey| has_partial(partials, key),
        |key: MessageKey| partials[partial_at(partials, key)].entry@,
    )
}

/// No two messages have one name, and each is in order.
pub open spec fn partials_wf(partials: Seq<Partial>) -> bool {
    &&& forall|i: int, j: int|
        0 <= i < j < partials.len() ==> (#[trigger] partials[i]).key() != (
        #[trigger] partials[j]).key()
    &&& forall|i: int| 0 <= i < partials.len() ==> (#[trigger] partials[i]).entry.wf()
}

impl View for ReassemblyMap {
    type V = ReassemblyModel;

    open spec fn view(&self) -> ReassemblyModel {
        partial_map(self.partials@)
    }
}

proof fn found_at(partials: Seq<Partial>, at: int)
    requires
        partials_wf(partials),
        0 <= at < partials.len(),
    ensures
        partial_map(partials).contains_key(partials[at].key()),
        partial_map(partials)[partials[at].key()] == partials[at].entry@,
{
    let key = partials[at].key();
    assert(has_partial(partials, key));
    let i = partial_at(partials, key);
    assert(partials[i].key() == key);
    if i < at {
        assert(partials[i].key() != partials[at].key());
    } else if at < i {
        assert(partials[at].key() != partials[i].key());
    }
}

impl ReassemblyMap {
    /// No two messages have one name, and each is in order.
    pub open spec fn wf(&self) -> bool {
        partials_wf(self.partials@)
    }

    /// No messages.
    pub fn new() -> (map: Self)
        ensures
            map.wf(),
            map@ == Map::<MessageKey, EntryModel>::empty(),
    {
        let map: ReassemblyMap = Self { partials: Vec::new() };
        assert(map@ =~= Map::<MessageKey, EntryModel>::empty());
        map
    }

    fn position(&self, ip: &String, port: u16, frag_id: u32) -> (at: Option<usize>)
        ensures
            match at {
                Some(at) => at < self.partials@.len() && self.partials@[at as int].key() == (
                    ip@,
                    port,
                    frag_id,
                ),
                None => !has_partial(self.partials@, (ip@, port, frag_id)),
            },
    {
        let mut at: usize = 0;
        while at < self.partials.len()
            invariant
                at <= self.partials@.len(),
                forall|i: int|
                    0 <= i < at ==> (#[trigger] self.partials@[i]).key() != (ip@, port, frag_id),
            decreases self.partials@.len() - at,
        {
            let partial: &Partial = &self.partials[at];
            if partial.frag_id == frag_id && partial.port == port && partial.ip == *ip {
                return Some(at);
            }
            at = at + 1;
        }
        None
    }

    /// Drops the messages that are too old at `now`.
    #[verifier::rlimit(40)]
    pub fn gc(&mut self, now: u64)
        requires
            old(self).wf(),
        ensures
            final(self).wf(),
            final(self)@ == without_stale(old(self)@, now),
    {
        let ghost before = self.partials@;
        let ghost table = self@;
        let mut at: usize = 0;
        let ghost mut seen: int = 0;
        while at < self.partials.len()
            invariant
                self.wf(),
                partials_wf(before),
                table == partial_map(before),
                0 <= at <= self.partials@.len(),
                0 <= seen,
                seen + (self.partials@.len() - at) == before.len(),
                forall|i: int|
                    at <= i < self.partials@.len() ==> #[trigger] self.partials@[i] == before[seen
                        + i - at],
                forall|i: int|
                    0 <= i < at ==> (#[trigger] self.partials@[i]).entry@.is_kept(now)
                        && has_partial(before, self.partials@[i].key())
                        && table[self.partials@[i].key()] == self.partials@[i].entry@,
                forall|k: int|
                    0 <= k < seen && (#[trigger] before[k]).entry@.is_kept(now) ==> has_partial(
                        self.partials@.take(at as int),
                        before[k].key(),
                    ),
            decreases self.partials@.len() - at,
        {
            let ghost current = self.partials@;
            assert(current[at as int] == before[seen]);
            proof {
                found_at(before, seen);
            }
            let age: u64 = now.saturating_sub(self.partials[at].entry.created_at);
            if age < REASSEMBLY_TTL {
                proof {
                    assert(current.take(at + 1)[at as int] == before[seen]);
                    assert forall|k: int| 0 <= k < seen + 1 && (
                    #[trigger] before[k]).entry@.is_kept(now) implies has_partial(
                        current.take(at + 1),
                        before[k].key(),
                    ) by {
                        if k < seen {
                            let i = choose|i: int|
                                0 <= i < at && (#[trigger] current.take(at as int)[i]).key()
                                    == before[k].key();
                            assert(current.take(at + 1)[i] == current.take(at as int)[i]);
                        }
                    }
                    seen = seen + 1;
                }
                at = at + 1;
            } else {
                let _ = self.partials.remove(at);
                proof {
                    assert(self.partials@.take(at as int) =~= current.take(at as int));
                    seen = seen + 1;
                    assert forall|i: int| at <= i < self.partials@.len() implies
                        #[trigger] self.partials@[i] == before[seen + i - at] by {
                        assert(self.partials@[i] == current[i + 1]);
                    }
                    assert forall|i: int, j: int| 0 <= i < j < self.partials@.len() implies (
                    #[trigger] self.partials@[i]).key() != (#[trigger] self.partials@[j]).key() by {
                        assert(self.partials@[i] == current[if i < at { i } else { i + 1 }]);
                        assert(self.partials@[j] == current[if j < at { j } else { j + 1 }]);
                    }
                    assert forall|i: int| 0 <= i < self.partials@.len() implies (
                    #[trigger] self.partials@[i]).entry.wf() by {
                        assert(self.partials@[i] == current[if i < at { i } else { i + 1 }]);
                    }
                    assert forall|i: int| 0 <= i < at implies (
                    #[trigger] self.partials@[i]).entry@.is_kept(now) && has_partial(
                        before,
                        self.partials@[i].key(),
                    ) && table[self.partials@[i].key()] == self.partials@[i].entry@ by {
                        assert(self.partials@[i] == current[i]);
                    }
                }
            }
        }
        proof {
            let after = self.partials@;
            assert(after.take(at as int) =~= after);
            let kept = without_stale(table, now);
            assert forall|key: MessageKey| self@.contains_key(key) <==> kept.contains_key(key) by {
                if has_partial(after, key) {
                    let i = choose|i: int| 0 <= i < after.len() && (#[trigger] after[i]).key()
                        == key;
                    assert(after[i].entry@.is_kept(now));
                    assert(table.contains_key(key));
                }
                if kept.contains_key(key) {
                    let k = choose|k: int| 0 <= k < before.len() && (#[trigger] before[k]).key()
                        == key;
                    found_at(before, k);
                }
            }
            assert forall|key: MessageKey| self@.contains_key(key) implies self@[key]
                == kept[key] by {
                let i = choose|i: int| 0 <= i < after.len() && (#[trigger] after[i]).key() == key;
                found_at(after, i);
            }
            assert(self@ =~= kept);
        }
    }
}

/// The incomplete messages after a datagram arrived.
pub open spec fn table_received(
    table: ReassemblyModel,
    data: Seq<u8>,
    ip: Seq<char>,
    port: u16,
    now: u64,
) -> ReassemblyModel {
    match parsed(data) {
        None => table,
        Some((header, chunk)) => table_after(
            table,
            (ip, port, header.frag_id),
            header,
            chunk,
            now,
        ),
    }
}

/// The message that the arrival of a datagram completes.
pub open spec fn message_received(
    table: ReassemblyModel,
    data: Seq<u8>,
    ip: Seq<char>,
    port: u16,
    now: u64,
) -> Option<Seq<u8>> {
    match parsed(data) {
        None => None,
        Some((header, chunk)) => message_after(
            table,
            (ip, port, header.frag_id),
            header,
            chunk,
            now,
        ),
    }
}

proof fn pushed_partial(partials: Seq<Partial>, partial: Partial)
    requires
        partials_wf(partials),
        partial.entry.wf(),
        !has_partial(partials, partial.key()),
    ensures
        partials_wf(partials.push(partial)),
        partial_map(partials.push(partial)) == partial_map(partials).insert(
            partial.key(),
            partial.entry@,
        ),
{
    let after = partials.push(partial);
    assert forall|i: int, j: int| 0 <= i < j < after.len() implies (#[trigger] after[i]).key() != (
    #[trigger] after[j]).key() by {
        assert(after[i] == partials[i]);
        if j < partials.len() {
            assert(after[j] == partials[j]);
        }
    }
    assert forall|i: int| 0 <= i < after.len() implies (#[trigger] after[i]).entry.wf() by {
        if i < partials.len() {
            assert(after[i] == partials[i]);
        }
    }
    let target = partial_map(partials).insert(partial.key(), partial.entry@);
    assert forall|key: MessageKey| partial_map(after).contains_key(key) <==> target.contains_key(
        key,
    ) by {
        if has_partial(after, key) {
            let i = choose|i: int| 0 <= i < after.len() && (#[trigger] after[i]).key() == key;
            if i < partials.len() {
                assert(partials[i].key() == key);
            }
        }
        if has_partial(partials, key) {
            let i = choose|i: int| 0 <= i < partials.len() && (#[trigger] partials[i]).key() == key;
            assert(after[i].key() == key);
        }
        assert(after[partials.len() as int] == partial);
    }
    assert forall|key: MessageKey| partial_map(after).contains_key(key) implies partial_map(
        after,
    )[key] == target[key] by {
        let i = choose|i: int| 0 <= i < after.len() && (#[trigger] after[i]).key() == key;
        found_at(after, i);
        if i < partials.len() {
            assert(partials[i].key() == key);
            found_at(partials, i);
        }
    }
    assert(partial_map(after) =~= target);
}

proof fn removed_partial(partials: Seq<Partial>, at: int)
    requires
        partials_wf(partials),
        0 <= at < partials.len(),
    ensures
        partials_wf(partials.remove(at)),
        !has_partial(partials.remove(at), partials[at].key()),
        partial_map(partials.remove(at)) == partial_map(partials).remove(partials[at].key()),
{
    let after = partials.remove(at);
    let gone = partials[at].key();
    assert forall|i: int| 0 <= i < after.len() implies #[trigger] after[i] == partials[if i < at {
        i
    } else {
        i + 1
    }] by {}
    assert forall|i: int, j: int| 0 <= i < j < after.len() implies (#[trigger] after[i]).key() != (
    #[trigger] after[j]).key() by {
        assert(after[i] == partials[if i < at { i } else { i + 1 }]);
        assert(after[j] == partials[if j < at { j } else { j + 1 }]);
    }
    assert forall|i: int| 0 <= i < after.len() implies (#[trigger] after[i]).entry.wf() by {
        assert(after[i] == partials[if i < at { i } else { i + 1 }]);
    }
    assert forall|i: int| 0 <= i < after.len() implies (#[trigger] after[i]).key() != gone by {
        assert(after[i] == partials[if i < at { i } else { i + 1 }]);
        assert(partials[at].key() == gone);
    }
    let target = partial_map(partials).remove(gone);
    assert forall|key: MessageKey| partial_map(after).contains_key(key) <==> target.contains_key(
        key,
    ) by {
        if has_partial(after, key) {
            let i = choose|i: int| 0 <= i < after.len() && (#[trigger] after[i]).key() == key;
            assert(partials[if i < at { i } else { i + 1 }].key() == key);
        }
        if has_partial(partials, key) && key != gone {
            let i = choose|i: int| 0 <= i < partials.len() && (#[trigger] partials[i]).key() == key;
            assert(after[if i < at { i } else { i - 1 }].key() == key);
        }
    }
    assert forall|key: MessageKey| partial_map(after).contains_key(key) implies partial_map(
        after,
    )[key] == target[key] by {
        let i = choose|i: int| 0 <= i < after.len() && (#[trigger] after[i]).key() == key;
        found_at(after, i);
        found_at(partials, if i < at { i } else { i + 1 });
    }
    assert(partial_map(after) =~= target);
}

impl ReassemblyMap {
    /// Takes in a datagram that arrived from `ip` and `port` at `now`, and
    /// returns the message that it completes.
    #[verifier::rlimit(40)]
    pub fn receive(&mut self, data: &[u8], ip: &String, port: u16, now: u64) -> (message: Option<
        Vec<u8>,
    >)
        requires
            old(self).wf(),
        ensures
            final(self).wf(),
            final(self)@ == table_received(old(self)@, data@, ip@, port, now),
            match message {
                Some(bytes) => message_received(old(self)@, data@, ip@, port, now) == Some(bytes@),
                None => message_received(old(self)@, data@, ip@, port, now) is None,
            },
    {
        let (header, chunk) = match parse_fragment(data) {
            Some(parts) => parts,
            None => {
                return None;
            },
        };
        if header.total == 1 {
            return Some(vstd::slice::slice_to_vec(chunk));
        }
        if header.total as usize * FRAG_CHUNK_SIZE > MAX_MESSAGE_SIZE {
            return None;
        }
        let ghost table = self@;
        let ghost key = (ip@, port, header.frag_id);
        let mut entry: ReassemblyEntry = match self.position(ip, port, header.frag_id) {
            Some(at) => {
                proof {
                    found_at(self.partials@, at as int);
                }
                if self.partials[at].entry.total != header.total {
                    return None;
                }
                proof {
                    removed_partial(self.partials@, at as int);
                }
                let partial: Partial = self.partials.remove(at);
                partial.entry
            },
            None => {
                assert(table.remove(key) =~= table);
                ReassemblyEntry::new(header.total, now)
            },
        };
        assert(self@ == table.remove(key));
        let is_complete: bool = entry.insert(header.index, vstd::slice::slice_to_vec(chunk));
        assert(entry@ == entry_after(table, key, header, chunk@, now));
        if is_complete {
            return entry.assemble();
        }
        let partial: Partial = Partial {
            ip: ip.clone(),
            port,
            frag_id: header.frag_id,
            entry,
        };
        proof {
            assert(!self@.contains_key(key));
            pushed_partial(self.partials@, partial);
            assert(table.remove(key).insert(key, entry@) =~= table.insert(key, entry@));
        }
        self.partials.push(partial);
        self.gc(now);
        None
    }
}

/// The incomplete messages after datagrams of a message arrived: the one with
/// number `order[i]` at `times[i]`.
pub open spec fn delivered(
    table: ReassemblyModel,
    datagrams: Seq<Seq<u8>>,
    ip: Seq<char>,
    port: u16,
    order: Seq<int>,
    times: Seq<u64>,
) -> ReassemblyModel
    decreases order.len(),
{
    if order.len() == 0 {
        table
    } else {
        table_received(
            delivered(table, datagrams, ip, port, order.drop_last(), times),
            datagrams[order.last()],
            ip,
            port,
            times[order.len() - 1],
        )
    }
}

/// Every number below `count` is in `order`.
pub open spec fn covers(order: Seq<int>, count: nat) -> bool {
    forall|i: int| 0 <= i < count ==> order.contains(i)
}

proof fn chunks_join(message: Seq<u8>, upto: nat)
    requires
        upto <= fragment_count(message.len()),
    ensures
        joined(Seq::new(upto, |i: int| Some(chunk_of(message, i)))) == message.take(
            smaller(upto * FRAG_CHUNK_SIZE, message.len() as int),
        ),
    decreases upto,
{
    let slots = Seq::new(upto, |i: int| Some(chunk_of(message, i)));
    if upto > 0 {
        let before = Seq::new((upto - 1) as nat, |i: int| Some(chunk_of(message, i)));
        assert(slots.drop_last() =~= before);
        chunks_join(message, (upto - 1) as nat);
        assert(joined(slots) =~= message.take(
            smaller(upto * FRAG_CHUNK_SIZE, message.len() as int),
        ));
    } else {
        assert(joined(slots) =~= message.take(0));
    }
}

/// The chunks that have arrived of a message.
spec fn arrived(message: Seq<u8>, order: Seq<int>, created_at: u64) -> EntryModel {
    EntryModel {
        slots: Seq::new(
            fragment_count(message.len()),
            |i: int|
                if order.contains(i) {
                    Some(chunk_of(message, i))
                } else {
                    None
                },
        ),
        created_at,
    }
}

proof fn fragments_parse(frag_id: u32, message: Seq<u8>, index: int)
    requires
        fragment_count(message.len()) * FRAG_CHUNK_SIZE <= MAX_MESSAGE_SIZE,
        0 <= index < fragment_count(message.len()),
    ensures
        fragment_count(message.len()) <= 187,
        parsed(fragments(frag_id, message)[index]) == Some(
            (header_of(frag_id, message, index), chunk_of(message, index)),
        ),
{
    datagram_round_trip(header_of(frag_id, message, index), chunk_of(message, index));
}

proof fn incomplete_delivery(
    table: ReassemblyModel,
    frag_id: u32,
    message: Seq<u8>,
    ip: Seq<char>,
    port: u16,
    order: Seq<int>,
    times: Seq<u64>,
)
    requires
        fragment_count(message.len()) * FRAG_CHUNK_SIZE <= MAX_MESSAGE_SIZE,
        fragment_count(message.len()) > 1,
        !table.contains_key((ip, port, frag_id)),
        order.len() > 0,
        times.len() >= order.len(),
        forall|i: int|
            0 <= i < order.len() ==> 0 <= (#[trigger] order[i]) < fragment_count(message.len()),
        forall|i: int|
            0 <= i < order.len() ==> (#[trigger] times[i]) - times[0] < REASSEMBLY_TTL,
        forall|j: int|
            0 <= j <= order.len() ==> !covers(
                #[trigger] order.take(j),
                fragment_count(message.len()),
            ),
    ensures
        ({
            let after = delivered(table, fragments(frag_id, message), ip, port, order, times);
            &&& after.contains_key((ip, port, frag_id))
            &&& after[(ip, port, frag_id)] == arrived(message, order, times[0])
        }),
    decreases order.len(),
{
    let datagrams = fragments(frag_id, message);
    let key = (ip, port, frag_id);
    let before_order = order.drop_last();
    let before = delivered(table, datagrams, ip, port, before_order, times);
    let index = order.last();
    let now = times[order.len() - 1];
    assert(order[order.len() - 1] == index);
    fragments_parse(frag_id, message, index);
    let header = header_of(frag_id, message, index);
    let chunk = chunk_of(message, index);
    let entry = entry_after(before, key, header, chunk, now);
    if before_order.len() > 0 {
        assert forall|i: int| 0 <= i < before_order.len() implies 0 <= (
        #[trigger] before_order[i]) < fragment_count(message.len()) by {
            assert(before_order[i] == order[i]);
        }
        assert forall|j: int| 0 <= j <= before_order.len() implies !covers(
            #[trigger] before_order.take(j),
            fragment_count(message.len()),
        ) by {
            assert(before_order.take(j) =~= order.take(j));
        }
        incomplete_delivery(table, frag_id, message, ip, port, before_order, times);
    }
    assert forall|i: int| order.contains(i) <==> before_order.contains(i) || i == index by {
        if order.contains(i) {
            let k = choose|k: int| 0 <= k < order.len() && order[k] == i;
            if k < before_order.len() {
                assert(before_order[k] == i);
            }
        }
        if before_order.contains(i) {
            let k = choose|k: int| 0 <= k < before_order.len() && before_order[k] == i;
            assert(order[k] == i);
        }
    }
    assert(entry.slots =~= arrived(message, order, times[0]).slots);
    assert(!entry.is_complete()) by {
        assert(order.take(order.len() as int) =~= order);
        let missing = choose|i: int|
            0 <= i < fragment_count(message.len()) && !order.contains(i);
        assert(entry.slots[missing] is None);
    }
}

/// A message gets through in whatever order its datagrams arrive, and however
/// often some of them do: nothing comes out before every datagram has arrived,
/// and the one that arrives last brings out the message as it was sent.  Nothing
/// is kept of the message then.
///
/// `order` lists the datagrams as they arrive up to the first moment at which
/// each has, within the time for which incomplete messages are kept.  A message
/// that takes more datagrams than are accepted does not get through.
pub proof fn any_order_of_arrival_restores_the_message(
    table: ReassemblyModel,
    frag_id: u32,
    message: Seq<u8>,
    ip: Seq<char>,
    port: u16,
    order: Seq<int>,
    times: Seq<u64>,
    upto: int,
)
    requires
        fragment_count(message.len()) * FRAG_CHUNK_SIZE <= MAX_MESSAGE_SIZE,
        !table.contains_key((ip, port, frag_id)),
        times.len() >= order.len(),
        forall|i: int|
            0 <= i < order.len() ==> 0 <= (#[trigger] order[i]) < fragment_count(message.len()),
        forall|i: int|
            0 <= i < order.len() ==> (#[trigger] times[i]) - times[0] < REASSEMBLY_TTL,
        covers(order, fragment_count(message.len())),
        forall|j: int|
            0 <= j < order.len() ==> !covers(
                #[trigger] order.take(j),
                fragment_count(message.len()),
            ),
        0 <= upto < order.len(),
    ensures
        ({
            let datagrams = fragments(frag_id, message);
            let before = delivered(table, datagrams, ip, port, order.take(upto), times);
            let now = times[upto];
            &&& message_received(before, datagrams[order[upto]], ip, port, now) == if upto
                == order.len() - 1 {
                Some(message)
            } else {
                None
            }
            &&& upto == order.len() - 1 ==> !table_received(
                before,
                datagrams[order[upto]],
                ip,
                port,
                now,
            ).contains_key((ip, port, frag_id))
        }),
{
    let datagrams = fragments(frag_id, message);
    let count = fragment_count(message.len());
    let key = (ip, port, frag_id);
    let before_order = order.take(upto);
    let before = delivered(table, datagrams, ip, port, before_order, times);
    let index = order[upto];
    let now = times[upto];
    let header = header_of(frag_id, message, index);
    let chunk = chunk_of(message, index);
    fragments_parse(frag_id, message, index);
    let entry = entry_after(before, key, header, chunk, now);
    let up_to_here = order.take(upto + 1);
    assert(up_to_here.drop_last() =~= before_order);
    assert(up_to_here.last() == index);
    if count == 1 {
        assert(index == 0);
        assert(chunk =~= message);
        if upto > 0 {
            assert(!covers(order.take(1), count));
            assert(order.take(1)[0] == 0);
        }
        if upto < order.len() - 1 {
            assert(!covers(order.take(1), count));
            assert(order.take(1)[0] == 0);
        }
    } else {
        if upto > 0 {
            assert forall|j: int| 0 <= j <= before_order.len() implies !covers(
                #[trigger] before_order.take(j),
                count,
            ) by {
                assert(before_order.take(j) =~= order.take(j));
            }
            assert forall|i: int| 0 <= i < before_order.len() implies 0 <= (
            #[trigger] before_order[i]) < count by {
                assert(before_order[i] == order[i]);
            }
            incomplete_delivery(table, frag_id, message, ip, port, before_order, times);
        } else {
            assert(before_order =~= Seq::<int>::empty());
        }
        assert forall|i: int| up_to_here.contains(i) <==> before_order.contains(i) || i == index by {
            if up_to_here.contains(i) {
                let k = choose|k: int| 0 <= k < up_to_here.len() && up_to_here[k] == i;
                if k < before_order.len() {
                    assert(before_order[k] == i);
                }
            }
            if before_order.contains(i) {
                let k = choose|k: int| 0 <= k < before_order.len() && before_order[k] == i;
                assert(up_to_here[k] == i);
            }
            assert(up_to_here[upto] == index);
        }
        assert(entry.slots =~= arrived(message, up_to_here, times[0]).slots);
        if upto == order.len() - 1 {
            assert(up_to_here =~= order);
            assert(entry.is_complete());
            assert(entry.slots =~= Seq::new(count, |i: int| Some(chunk_of(message, i))));
            chunks_join(message, count);
            assert(message.take(message.len() as int) =~= message);
        } else {
            assert(!covers(up_to_here, count));
            let missing = choose|i: int| 0 <= i < count && !up_to_here.contains(i);
            assert(entry.slots[missing] is None);
        }
    }
}

/// A datagram without a valid header, or one of more datagrams than may make up a
/// message, brings out nothing and leaves what is kept as it is.
pub proof fn a_refused_datagram_changes_nothing(
    table: ReassemblyModel,
    data: Seq<u8>,
    ip: Seq<char>,
    port: u16,
    now: u64,
)
    requires
        parsed(data) matches Some((header, _)) ==> header.total > 1 && header.total
            * FRAG_CHUNK_SIZE > MAX_MESSAGE_SIZE,
    ensures
        message_received(table, data, ip, port, now) is None,
        table_received(table, data, ip, port, now) == table,
{
}

} // verus!
