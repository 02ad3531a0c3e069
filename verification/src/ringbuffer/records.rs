//! Records in a ring: a header with the length of what follows it, then the bytes.
//!
//! A packet record holds an address and the bytes of the packet. A dummy record holds nothing of
//! interest; readers step over it.
use vstd::prelude::*;
use crate::bytes;
use crate::types::{DivertAddress, DivertAddressData};

verus! {

broadcast use crate::bytes::lemma_u32_le_len;

pub const RECORD_HEADER_SIZE: usize = 8;

pub const ADDRESS_SIZE: usize = 80;

/// What the second word of a dummy record's header holds.
pub const DUMMY_MARKER: u32 = 0xDEADBEEF;

#[derive(Clone, Copy, Debug)]
pub struct RecordHeader {
    pub len: u32,
    pub ty: u32,
}

#[derive(Clone, Copy, Debug, PartialEq, Eq, Structural)]
pub enum RecordType {
    Invalid,
    PacketData,
    Address,
}

impl RecordType {
    /// The number that stands for the type in a header.
    pub fn code(&self) -> (c: u32)
        ensures
            c == match self {
                RecordType::Invalid => 0u32,
                RecordType::PacketData => 1,
                RecordType::Address => 2,
            },
    {
        match self {
            RecordType::Invalid => 0,
            RecordType::PacketData => 1,
            RecordType::Address => 2,
        }
    }
}

/// The bytes of a record header.
pub open spec fn header_bytes(h: RecordHeader) -> Seq<u8> {
    bytes::u32_le(h.len) + bytes::u32_le(h.ty)
}

/// The bytes of an address.
pub open spec fn address_bytes(a: DivertAddress) -> Seq<u8> {
    bytes::u64_le(bytes::i64_bits(a.timestamp)) + bytes::u32_le(a.flags) + bytes::u32_le(
        a.reserved2,
    ) + a.data.bytes()
}

/// `a` is the address whose bytes are `s`.
pub open spec fn is_address(a: DivertAddress, s: Seq<u8>) -> bool {
    &&& a.timestamp == bytes::bits_i64(bytes::le64(s, 0))
    &&& a.flags == bytes::le32(s, 8)
    &&& a.reserved2 == bytes::le32(s, 12)
    &&& a.data.bytes() == s.subrange(16, 80)
}

/// The bytes of a record with the packet `payload` that came with `a`.
pub open spec fn packet_record(a: DivertAddress, payload: Seq<u8>) -> Seq<u8> {
    header_bytes(
        RecordHeader { len: ((80 + payload.len()) % 0x1_0000_0000) as u32, ty: 0 },
    ) + address_bytes(a) + payload
}

/// Header of a dummy record that takes up `total` bytes in all.
pub open spec fn dummy_header(total: int) -> RecordHeader {
    RecordHeader { len: ((total - 8) % 0x1_0000_0000) as u32, ty: DUMMY_MARKER }
}

/// Reading an address from its bytes gives the address.
pub proof fn law_address_round_trip(a: DivertAddress)
    ensures
        address_bytes(a).len() == 80,
        forall|b: DivertAddress| #[trigger] is_address(b, address_bytes(a)) ==> b == a,
        is_address(a, address_bytes(a)),
{
    let s = address_bytes(a);
    let bits = bytes::i64_bits(a.timestamp);
    assert(s.subrange(0, 8) =~= bytes::u64_le(bits));
    assert(s.subrange(8, 12) =~= bytes::u32_le(a.flags));
    assert(s.subrange(12, 16) =~= bytes::u32_le(a.reserved2));
    assert(s.subrange(16, 80) =~= a.data.bytes());
    bytes::lemma_le64_round_trip(s, 0, bits);
    bytes::lemma_le32_round_trip(s, 8, a.flags);
    bytes::lemma_le32_round_trip(s, 12, a.reserved2);
    assert forall|b: DivertAddress| #[trigger] is_address(b, s) implies b == a by {
        assert(b.data.reserved3 =~= a.data.reserved3) by {
            assert forall|i: int| 0 <= i < 64 implies b.data.reserved3[i]
                == a.data.reserved3[i] by {
                assert(b.data.bytes()[i] == a.data.bytes()[i]);
            }
        }
    }
}

/// Reading a header from its bytes gives the header.
pub proof fn lemma_header_round_trip(h: RecordHeader, rest: Seq<u8>)
    ensures
        header_bytes(h).len() == 8,
        bytes::le32(header_bytes(h) + rest, 0) == h.len,
        bytes::le32(header_bytes(h) + rest, 4) == h.ty,
{
    let s = header_bytes(h) + rest;
    assert(s.subrange(0, 4) =~= bytes::u32_le(h.len));
    assert(s.subrange(4, 8) =~= bytes::u32_le(h.ty));
    bytes::lemma_le32_round_trip(s, 0, h.len);
    bytes::lemma_le32_round_trip(s, 4, h.ty);
}

/// The bytes of a record header.
pub fn encode_header(h: &RecordHeader) -> (out: Vec<u8>)
    ensures
        out@ == header_bytes(*h),
{
    let mut out: Vec<u8> = Vec::new();
    bytes::push_u32_le(&mut out, h.len);
    bytes::push_u32_le(&mut out, h.ty);
    assert(out@ =~= header_bytes(*h));
    out
}

/// The bytes of an address.
pub fn encode_address(a: &DivertAddress) -> (out: Vec<u8>)
    ensures
        out@ == address_bytes(*a),
{
    let mut out: Vec<u8> = Vec::new();
    bytes::push_u64_le(&mut out, bytes::i64_to_bits(a.timestamp));
    bytes::push_u32_le(&mut out, a.flags);
    bytes::push_u32_le(&mut out, a.reserved2);
    bytes::push_bytes(&mut out, &a.data.reserved3);
    assert(out@ =~= address_bytes(*a));
    out
}

/// The address whose bytes `s` starts with.
pub fn decode_address(s: &[u8]) -> (a: DivertAddress)
    requires
        s@.len() >= 80,
    ensures
        is_address(a, s@),
{
    let mut data = DivertAddressData { reserved3: [0u8; 64] };
    let mut i: usize = 0;
    while i < 64
        invariant
            i <= 64,
            s@.len() >= 80,
            forall|j: int| 0 <= j < i ==> data.reserved3[j] == s@[16 + j],
        decreases 64 - i,
    {
        data.reserved3[i] = s[16 + i];
        i += 1;
    }
    assert(data.bytes() =~= s@.subrange(16, 80));
    DivertAddress {
        timestamp: bytes::bits_to_i64(bytes::read_le64(s, 0)),
        flags: bytes::read_le32(s, 8),
        reserved2: bytes::read_le32(s, 12),
        data,
    }
}

/// A packet that was found among unread bytes.
pub ghost struct FoundPacket {
    /// Bytes of dummy records in front of it.
    pub skipped: nat,
    /// Its length with header.
    pub total: nat,
    /// The bytes of its address.
    pub address: Seq<u8>,
    pub payload: Seq<u8>,
}

/// Number of bytes of complete dummy records that the unread bytes `w` start with.
pub open spec fn dummies(w: Seq<u8>) -> nat
    decreases w.len(),
{
    if w.len() >= 8 && bytes::le32(w, 4) == DUMMY_MARKER && w.len() >= 8 + bytes::le32(w, 0) {
        let total = (8 + bytes::le32(w, 0)) as nat;
        total + dummies(w.skip(total as int))
    } else {
        0
    }
}

/// The packet that the unread bytes `w`, free of dummy records in front, start with, if they hold
/// all of one.
pub open spec fn packet_at(w: Seq<u8>) -> Option<(Seq<u8>, Seq<u8>)> {
    let len = bytes::le32(w, 0);
    if w.len() < 88 || bytes::le32(w, 4) == DUMMY_MARKER || len < 80 || w.len() < 8 + len {
        None
    } else {
        Some((w.subrange(8, 88), w.subrange(88, 8 + len)))
    }
}

/// The first packet among the unread bytes `w`.
pub open spec fn next_packet(w: Seq<u8>) -> Option<FoundPacket> {
    let skipped = dummies(w);
    match packet_at(w.skip(skipped as int)) {
        Some((address, payload)) => Some(
            FoundPacket { skipped, total: 88 + payload.len(), address, payload },
        ),
        None => None,
    }
}

/// A packet record in front of other bytes is found, with the address and payload that went into
/// it, and takes up its own length.
pub proof fn law_packet_record_is_found(a: DivertAddress, payload: Seq<u8>, rest: Seq<u8>)
    requires
        80 + payload.len() <= u32::MAX,
    ensures
        packet_record(a, payload).len() == 88 + payload.len(),
        next_packet(packet_record(a, payload) + rest) == Some(
            FoundPacket {
                skipped: 0,
                total: 88 + payload.len(),
                address: address_bytes(a),
                payload,
            },
        ),
{
    let h = RecordHeader { len: (80 + payload.len()) as u32, ty: 0 };
    law_address_round_trip(a);
    lemma_header_round_trip(h, address_bytes(a) + payload + rest);
    lemma_packet_in_front(header_bytes(h), address_bytes(a), payload, rest);
}

proof fn lemma_packet_in_front(head: Seq<u8>, address: Seq<u8>, payload: Seq<u8>, rest: Seq<u8>)
    requires
        head.len() == 8,
        address.len() == 80,
        bytes::le32(head + (address + payload + rest), 0) == 80 + payload.len(),
        bytes::le32(head + (address + payload + rest), 4) == 0,
    ensures
        (head + address + payload).len() == 88 + payload.len(),
        next_packet(head + address + payload + rest) == Some(
            FoundPacket { skipped: 0, total: 88 + payload.len(), address, payload },
        ),
{
    let w = head + address + payload + rest;
    assert(w =~= head + (address + payload + rest));
    assert(dummies(w) == 0);
    assert(w.skip(0) =~= w);
    assert(w.subrange(8, 88) =~= address);
    assert(w.subrange(88, (88 + payload.len()) as int) =~= payload);
}

/// A dummy record is stepped over: what is found behind it is what would be found without it.
pub proof fn law_dummy_record_is_skipped(total: nat, filler: Seq<u8>, rest: Seq<u8>)
    requires
        8 <= total <= u32::MAX,
        filler.len() == total - 8,
    ensures
        ({
            let w = header_bytes(dummy_header(total as int)) + filler + rest;
            next_packet(w) == match next_packet(rest) {
                Some(p) => Some(FoundPacket { skipped: total + p.skipped, ..p }),
                None => None,
            }
        }),
{
    let h = dummy_header(total as int);
    let w = header_bytes(h) + filler + rest;
    lemma_header_round_trip(h, filler + rest);
    lemma_three_parts(header_bytes(h), filler, rest);
    lemma_dummy_in_front(w, total, rest);
}

pub proof fn lemma_three_parts(a: Seq<u8>, b: Seq<u8>, c: Seq<u8>)
    ensures
        a + b + c == a + (b + c),
        (a + b + c).len() == a.len() + b.len() + c.len(),
        (a + b + c).skip((a.len() + b.len()) as int) == c,
{
    assert(a + b + c =~= a + (b + c));
    assert((a + b + c).skip((a.len() + b.len()) as int) =~= c);
}

proof fn lemma_dummy_in_front(w: Seq<u8>, total: nat, rest: Seq<u8>)
    requires
        w.len() == total + rest.len(),
        bytes::le32(w, 0) == total - 8,
        bytes::le32(w, 4) == DUMMY_MARKER,
        w.skip(total as int) == rest,
    ensures
        next_packet(w) == match next_packet(rest) {
            Some(p) => Some(FoundPacket { skipped: total + p.skipped, ..p }),
            None => None,
        },
{
    lemma_dummies_bound(rest);
    assert(dummies(w) == total + dummies(rest));
    assert(w.skip((total + dummies(rest)) as int) =~= rest.skip(dummies(rest) as int));
}

pub proof fn lemma_dummies_bound(w: Seq<u8>)
    ensures
        dummies(w) <= w.len(),
    decreases w.len(),
{
    if w.len() >= 8 && bytes::le32(w, 4) == DUMMY_MARKER && w.len() >= 8 + bytes::le32(w, 0) {
        lemma_dummies_bound(w.skip(8 + bytes::le32(w, 0)));
    }
}

/// Behind the dummy records in front there is no other.
pub proof fn lemma_dummies_all_skipped(w: Seq<u8>)
    ensures
        dummies(w) <= w.len(),
        dummies(w.skip(dummies(w) as int)) == 0,
    decreases w.len(),
{
    if w.len() >= 8 && bytes::le32(w, 4) == DUMMY_MARKER && w.len() >= 8 + bytes::le32(w, 0) {
        let total = 8 + bytes::le32(w, 0);
        let rest = w.skip(total);
        lemma_dummies_all_skipped(rest);
        assert(w.skip(dummies(w) as int) =~= rest.skip(dummies(rest) as int));
    } else {
        assert(w.skip(0) =~= w);
    }
}

/// The records of packets, one behind the other.
pub open spec fn packet_stream(packets: Seq<(DivertAddress, Seq<u8>)>) -> Seq<u8>
    decreases packets.len(),
{
    if packets.len() == 0 {
        Seq::empty()
    } else {
        packet_record(packets[0].0, packets[0].1) + packet_stream(packets.drop_first())
    }
}

/// The addresses and payloads that a reader takes out of `w`, releasing each packet before it
/// looks for the next.
pub open spec fn packets_read(w: Seq<u8>) -> Seq<(Seq<u8>, Seq<u8>)>
    decreases w.len(),
{
    match next_packet(w) {
        Some(p) => if 0 < p.skipped + p.total <= w.len() {
            seq![(p.address, p.payload)] + packets_read(w.skip((p.skipped + p.total) as int))
        } else {
            Seq::empty()
        },
        None => Seq::empty(),
    }
}

/// Packets are read in the order in which they were written, none is lost and none changed.
pub proof fn law_packets_are_read_in_order(packets: Seq<(DivertAddress, Seq<u8>)>)
    requires
        forall|i: int| 0 <= i < packets.len() ==> 80 + (#[trigger] packets[i]).1.len() <= u32::MAX,
    ensures
        packets_read(packet_stream(packets)) == packets.map_values(
            |p: (DivertAddress, Seq<u8>)| (address_bytes(p.0), p.1),
        ),
    decreases packets.len(),
{
    let as_read = |p: (DivertAddress, Seq<u8>)| (address_bytes(p.0), p.1);
    let w = packet_stream(packets);
    if packets.len() == 0 {
        assert(next_packet(w) is None) by {
            assert(w.skip(0) =~= w);
        }
        assert(packets_read(w) =~= packets.map_values(as_read));
    } else {
        let (a, payload) = packets[0];
        let rest = packets.drop_first();
        assert forall|i: int| 0 <= i < rest.len() implies 80 + (#[trigger] rest[i]).1.len()
            <= u32::MAX by {
            assert(rest[i] == packets[i + 1]);
        }
        law_packets_are_read_in_order(rest);
        law_packet_record_is_found(a, payload, packet_stream(rest));
        assert(w.skip((88 + payload.len()) as int) =~= packet_stream(rest));
        assert(packets.map_values(as_read) =~= seq![(address_bytes(a), payload)]
            + rest.map_values(as_read));
    }
}

} // verus!
