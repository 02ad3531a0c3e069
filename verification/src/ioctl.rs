//! The bytes of requests and answers.
use vstd::prelude::*;
use crate::bytes;
use crate::file_types::FileDecision;
use crate::ioctl_code::{
    DivertIoctlInitialize, DivertIoctlMMapRequest, DivertIoctlMMapResponse, DivertIoctlStartup,
    IoctlMMapResponse,
};

verus! {

broadcast use crate::bytes::lemma_u32_le_len;

pub open spec fn initialize_bytes(r: DivertIoctlInitialize) -> Seq<u8> {
    bytes::u32_le(r.layer) + bytes::u32_le(r.priority) + bytes::u64_le(r.flags)
}

/// The request that some bytes start with.
pub open spec fn initialize_at(s: Seq<u8>) -> DivertIoctlInitialize {
    DivertIoctlInitialize {
        layer: bytes::le32(s, 0),
        priority: bytes::le32(s, 4),
        flags: bytes::le64(s, 8),
    }
}

/// The bytes of a request to choose the layer of a handle.
pub fn initialize(layer: u32, priority: u32, flags: u64) -> (out: Vec<u8>)
    ensures
        out@ == initialize_bytes(DivertIoctlInitialize { layer, priority, flags }),
        out@.len() == 16,
{
    let mut out: Vec<u8> = Vec::new();
    bytes::push_u32_le(&mut out, layer);
    bytes::push_u32_le(&mut out, priority);
    bytes::push_u64_le(&mut out, flags);
    assert(out@ =~= initialize_bytes(DivertIoctlInitialize { layer, priority, flags }));
    out
}

pub fn read_initialize(s: &[u8]) -> (r: DivertIoctlInitialize)
    requires
        s@.len() >= 16,
    ensures
        r == initialize_at(s@),
{
    DivertIoctlInitialize {
        layer: bytes::read_le32(s, 0),
        priority: bytes::read_le32(s, 4),
        flags: bytes::read_le64(s, 8),
    }
}

/// The driver reads the layer, priority and flags that the client chose.
pub proof fn law_initialize_reads_back(r: DivertIoctlInitialize)
    ensures
        initialize_at(initialize_bytes(r)) == r,
{
    let s = initialize_bytes(r);
    assert(s.subrange(0, 4) =~= bytes::u32_le(r.layer));
    assert(s.subrange(4, 8) =~= bytes::u32_le(r.priority));
    assert(s.subrange(8, 16) =~= bytes::u64_le(r.flags));
    bytes::lemma_le32_round_trip(s, 0, r.layer);
    bytes::lemma_le32_round_trip(s, 4, r.priority);
    bytes::lemma_le64_round_trip(s, 8, r.flags);
}

/// The bytes of a request to start a handle.
pub fn startup(r: &DivertIoctlStartup) -> (out: Vec<u8>)
    ensures
        out@ == bytes::u64_le(r.flags),
{
    let mut out: Vec<u8> = Vec::new();
    bytes::push_u64_le(&mut out, r.flags);
    assert(out@ =~= bytes::u64_le(r.flags));
    out
}

/// The flags that a request to start a handle begins with.
pub fn read_startup(s: &[u8]) -> (r: DivertIoctlStartup)
    requires
        s@.len() >= 8,
    ensures
        r.flags == bytes::le64(s@, 0),
{
    DivertIoctlStartup { flags: bytes::read_le64(s, 0) }
}

/// The bytes of a request for the rings.
pub fn map_rb(r: &DivertIoctlMMapRequest) -> (out: Vec<u8>)
    ensures
        out@ == bytes::u32_le(r.max_cores),
{
    let mut out: Vec<u8> = Vec::new();
    bytes::push_u32_le(&mut out, r.max_cores);
    assert(out@ =~= bytes::u32_le(r.max_cores));
    out
}

/// The bytes of the answer to a request for the rings.
#[verifier::opaque]
pub open spec fn map_response_bytes(r: IoctlMMapResponse) -> Seq<u8> {
    bytes::u32_le(r.max_cores) + bytes::u32_le(r.size) + bytes::u64_le(r.ring_buffer_header)
        + bytes::u64_le(r.ring_buffer_data) + bytes::u64_le(r.send_ring_buffer_header)
        + bytes::u64_le(r.send_ring_buffer_data)
}

/// The answer that some bytes start with.
pub open spec fn map_response_at(s: Seq<u8>) -> DivertIoctlMMapResponse {
    DivertIoctlMMapResponse {
        max_cores: bytes::le32(s, 0),
        rb_size: bytes::le32(s, 4),
        ring_buffer_header: bytes::le64(s, 8),
        ring_buffer_data: bytes::le64(s, 16),
        send_ring_buffer_header: bytes::le64(s, 24),
        send_ring_buffer_data: bytes::le64(s, 32),
    }
}

pub fn write_map_response(r: &IoctlMMapResponse) -> (out: Vec<u8>)
    ensures
        out@ == map_response_bytes(*r),
        out@.len() == 40,
{
    let mut out: Vec<u8> = Vec::new();
    bytes::push_u32_le(&mut out, r.max_cores);
    assert(out@ =~= bytes::u32_le(r.max_cores));
    bytes::push_u32_le(&mut out, r.size);
    bytes::push_u64_le(&mut out, r.ring_buffer_header);
    bytes::push_u64_le(&mut out, r.ring_buffer_data);
    bytes::push_u64_le(&mut out, r.send_ring_buffer_header);
    bytes::push_u64_le(&mut out, r.send_ring_buffer_data);
    proof {
        reveal(map_response_bytes);
    }
    out
}

pub fn read_map_response(s: &[u8]) -> (r: DivertIoctlMMapResponse)
    requires
        s@.len() >= 40,
    ensures
        r == map_response_at(s@),
{
    DivertIoctlMMapResponse {
        max_cores: bytes::read_le32(s, 0),
        rb_size: bytes::read_le32(s, 4),
        ring_buffer_header: bytes::read_le64(s, 8),
        ring_buffer_data: bytes::read_le64(s, 16),
        send_ring_buffer_header: bytes::read_le64(s, 24),
        send_ring_buffer_data: bytes::read_le64(s, 32),
    }
}

/// The client reads where the driver mapped the rings.
pub proof fn law_map_response_reads_back(r: IoctlMMapResponse)
    ensures
        map_response_bytes(r).len() == 40,
        map_response_at(map_response_bytes(r)) == (DivertIoctlMMapResponse {
            max_cores: r.max_cores,
            rb_size: r.size,
            ring_buffer_header: r.ring_buffer_header,
            ring_buffer_data: r.ring_buffer_data,
            send_ring_buffer_header: r.send_ring_buffer_header,
            send_ring_buffer_data: r.send_ring_buffer_data,
        }),
{
    reveal(map_response_bytes);
    let s = map_response_bytes(r);
    assert(s.subrange(0, 4) =~= bytes::u32_le(r.max_cores));
    assert(s.subrange(4, 8) =~= bytes::u32_le(r.size));
    assert(s.subrange(8, 16) =~= bytes::u64_le(r.ring_buffer_header));
    assert(s.subrange(16, 24) =~= bytes::u64_le(r.ring_buffer_data));
    assert(s.subrange(24, 32) =~= bytes::u64_le(r.send_ring_buffer_header));
    assert(s.subrange(32, 40) =~= bytes::u64_le(r.send_ring_buffer_data));
    bytes::lemma_le32_round_trip(s, 0, r.max_cores);
    bytes::lemma_le32_round_trip(s, 4, r.size);
    bytes::lemma_le64_round_trip(s, 8, r.ring_buffer_header);
    bytes::lemma_le64_round_trip(s, 16, r.ring_buffer_data);
    bytes::lemma_le64_round_trip(s, 24, r.send_ring_buffer_header);
    bytes::lemma_le64_round_trip(s, 32, r.send_ring_buffer_data);
}

/// The bytes that tell the driver of a decision.
pub fn file_decision(d: &FileDecision) -> (out: Vec<u8>)
    ensures
        out@ == bytes::u64_le(d.transaction_id),
        bytes::le64(out@, 0) == d.transaction_id,
{
    let mut out: Vec<u8> = Vec::new();
    bytes::push_u64_le(&mut out, d.transaction_id);
    proof {
        assert(out@ =~= bytes::u64_le(d.transaction_id));
        assert(out@.subrange(0, 8) =~= bytes::u64_le(d.transaction_id));
        bytes::lemma_le64_round_trip(out@, 0, d.transaction_id);
    }
    out
}

} // verus!
