//! Where each value stands in what the driver, its client and the platform hand to each other.
use vstd::prelude::*;
use crate::bytes;
use crate::file_config;
use crate::file_types;
use crate::file_types::{FileEvent, FileFilterRule, FileModuleConfig};
use crate::ioctl;
use crate::ioctl_code::{DivertIoctlInitialize, IoctlMMapResponse};
use crate::network::bpf::BpfInsn;
use crate::network::bpf_wire;
use crate::ringbuffer::records;
use crate::ringbuffer::records::RecordHeader;
use crate::ringbuffer::scan;
use crate::types::DivertAddress;

verus! {

broadcast use crate::bytes::lemma_u32_le_len;

/// The value of two bytes, least significant first.
pub open spec fn two(s: Seq<u8>, at: int) -> int {
    s[at] + 0x100 * s[at + 1]
}

/// The value of four bytes, least significant first.
pub open spec fn four(s: Seq<u8>, at: int) -> int {
    s[at] + 0x100 * s[at + 1] + 0x1_0000 * s[at + 2] + 0x100_0000 * s[at + 3]
}

/// The value of eight bytes, least significant first.
pub open spec fn eight(s: Seq<u8>, at: int) -> int {
    four(s, at) + 0x1_0000_0000 * four(s, at + 4)
}

/// The orders of bytes: least significant first for what the driver and its client share, most
/// significant first for what is in packets.
pub proof fn law_orders_of_bytes(s: Seq<u8>, i: int)
    ensures
        bytes::le16(s, i) == two(s, i),
        bytes::le32(s, i) == four(s, i),
        bytes::le64(s, i) == eight(s, i),
        bytes::be16(s, i) == 0x100 * s[i] + s[i + 1],
        bytes::be32(s, i) == 0x1_0000 * (0x100 * s[i] + s[i + 1]) + 0x100 * s[i + 2] + s[i + 3],
{
    reveal(bytes::le32);
}

proof fn lemma_four(s: Seq<u8>, at: int, v: u32)
    requires
        0 <= at,
        at + 4 <= s.len(),
        s.subrange(at, at + 4) == bytes::u32_le(v),
    ensures
        four(s, at) == v,
{
    bytes::lemma_le32_round_trip(s, at, v);
    law_orders_of_bytes(s, at);
}

proof fn lemma_eight(s: Seq<u8>, at: int, v: u64)
    requires
        0 <= at,
        at + 8 <= s.len(),
        s.subrange(at, at + 8) == bytes::u64_le(v),
    ensures
        eight(s, at) == v,
{
    bytes::lemma_le64_round_trip(s, at, v);
    law_orders_of_bytes(s, at);
}

/// An instruction takes eight bytes: its code, its two distances and its constant.
pub proof fn law_instruction_layout(i: BpfInsn)
    ensures
        ({
            let s = bpf_wire::insn_bytes(i);
            &&& s.len() == 8
            &&& two(s, 0) == i.code
            &&& s[2] == i.jt
            &&& s[3] == i.jf
            &&& four(s, 4) == i.k
        }),
{
    let s = bpf_wire::insn_bytes(i);
    assert(s.subrange(4, 8) =~= bytes::u32_le(i.k));
    lemma_four(s, 4, i.k);
}

/// The instructions of a program stand one behind the other.
pub proof fn law_program_layout(p: Seq<BpfInsn>, i: BpfInsn)
    ensures
        bpf_wire::program_bytes(p.push(i)) == bpf_wire::program_bytes(p) + bpf_wire::insn_bytes(i),
        bpf_wire::program_bytes(Seq::empty()).len() == 0,
{
    assert(p.push(i).drop_last() =~= p);
}

/// A record starts with its length, without the eight bytes that say so, and its kind. That of a
/// packet holds the address and then the packet.
pub proof fn law_record_layout(h: RecordHeader, a: DivertAddress, payload: Seq<u8>)
    requires
        payload.len() + 80 <= u32::MAX,
    ensures
        ({
            let s = records::header_bytes(h);
            let r = records::packet_record(a, payload);
            &&& s.len() == 8
            &&& four(s, 0) == h.len
            &&& four(s, 4) == h.ty
            &&& r.len() == 88 + payload.len()
            &&& four(r, 0) == 80 + payload.len()
            &&& four(r, 4) == 0
            &&& r.subrange(8, 88) == records::address_bytes(a)
            &&& r.skip(88) == payload
        }),
{
    let s = records::header_bytes(h);
    assert(s.subrange(0, 4) =~= bytes::u32_le(h.len));
    assert(s.subrange(4, 8) =~= bytes::u32_le(h.ty));
    lemma_four(s, 0, h.len);
    lemma_four(s, 4, h.ty);
    let n = (80 + payload.len()) as u32;
    let r = records::packet_record(a, payload);
    records::law_address_round_trip(a);
    assert(r.subrange(0, 4) =~= bytes::u32_le(n));
    assert(r.subrange(4, 8) =~= bytes::u32_le(0));
    lemma_four(r, 0, n);
    lemma_four(r, 4, 0);
    assert(r.subrange(8, 88) =~= records::address_bytes(a));
    assert(r.skip(88) =~= payload);
}

/// An address takes eighty bytes: the time, the flags, four bytes more, and the data of its layer.
pub proof fn law_address_layout(a: DivertAddress)
    ensures
        ({
            let s = records::address_bytes(a);
            &&& s.len() == 80
            &&& a.timestamp >= 0 ==> eight(s, 0) == a.timestamp
            &&& a.timestamp < 0 ==> eight(s, 0) == a.timestamp + 0x1_0000_0000_0000_0000
            &&& four(s, 8) == a.flags
            &&& four(s, 12) == a.reserved2
            &&& s.skip(16) == a.data.bytes()
        }),
{
    let s = records::address_bytes(a);
    records::law_address_round_trip(a);
    assert(s.subrange(0, 8) =~= bytes::u64_le(bytes::i64_bits(a.timestamp)));
    assert(s.subrange(8, 12) =~= bytes::u32_le(a.flags));
    assert(s.subrange(12, 16) =~= bytes::u32_le(a.reserved2));
    lemma_eight(s, 0, bytes::i64_bits(a.timestamp));
    lemma_four(s, 8, a.flags);
    lemma_four(s, 12, a.reserved2);
    assert(s.skip(16) =~= a.data.bytes());
}

/// A request for a layer holds the layer, the priority and the flags.
pub proof fn law_initialize_layout(r: DivertIoctlInitialize)
    ensures
        ({
            let s = ioctl::initialize_bytes(r);
            &&& s.len() == 16
            &&& four(s, 0) == r.layer
            &&& four(s, 4) == r.priority
            &&& eight(s, 8) == r.flags
        }),
{
    let s = ioctl::initialize_bytes(r);
    assert(s.subrange(0, 4) =~= bytes::u32_le(r.layer));
    assert(s.subrange(4, 8) =~= bytes::u32_le(r.priority));
    assert(s.subrange(8, 16) =~= bytes::u64_le(r.flags));
    lemma_four(s, 0, r.layer);
    lemma_four(s, 4, r.priority);
    lemma_eight(s, 8, r.flags);
}

/// The answer to a request for the rings holds their number and their size, and where they are.
pub proof fn law_map_response_layout(r: IoctlMMapResponse)
    ensures
        ({
            let s = ioctl::map_response_bytes(r);
            &&& s.len() == 40
            &&& four(s, 0) == r.max_cores
            &&& four(s, 4) == r.size
            &&& eight(s, 8) == r.ring_buffer_header
            &&& eight(s, 16) == r.ring_buffer_data
            &&& eight(s, 24) == r.send_ring_buffer_header
            &&& eight(s, 32) == r.send_ring_buffer_data
        }),
{
    reveal(ioctl::map_response_bytes);
    let s = ioctl::map_response_bytes(r);
    assert(s.subrange(0, 4) =~= bytes::u32_le(r.max_cores));
    assert(s.subrange(4, 8) =~= bytes::u32_le(r.size));
    assert(s.subrange(8, 16) =~= bytes::u64_le(r.ring_buffer_header));
    assert(s.subrange(16, 24) =~= bytes::u64_le(r.ring_buffer_data));
    assert(s.subrange(24, 32) =~= bytes::u64_le(r.send_ring_buffer_header));
    assert(s.subrange(32, 40) =~= bytes::u64_le(r.send_ring_buffer_data));
    lemma_four(s, 0, r.max_cores);
    lemma_four(s, 4, r.size);
    lemma_eight(s, 8, r.ring_buffer_header);
    lemma_eight(s, 16, r.ring_buffer_data);
    lemma_eight(s, 24, r.send_ring_buffer_header);
    lemma_eight(s, 32, r.send_ring_buffer_data);
}

/// A rule takes 540 bytes.
pub proof fn law_rule_layout(r: FileFilterRule)
    ensures
        ({
            let s = file_config::rule_bytes(r);
            &&& s.len() == 540
            &&& four(s, 0) == r.operation_mask
            &&& four(s, 4) == r.match_type
            &&& four(s, 8) == r.path_len
            &&& forall|i: int| 0 <= i < 260 ==> two(s, 12 + 2 * i) == #[trigger] r.path@[i]
            &&& four(s, 532) == r.process_id
            &&& four(s, 536) == r.is_exclude_process
        }),
{
    reveal(file_config::rule_bytes);
    reveal(file_types::unit_bytes);
    let s = file_config::rule_bytes(r);
    let path = file_types::unit_bytes(r.path@);
    assert(s.subrange(0, 4) =~= bytes::u32_le(r.operation_mask));
    assert(s.subrange(4, 8) =~= bytes::u32_le(r.match_type));
    assert(s.subrange(8, 12) =~= bytes::u32_le(r.path_len));
    assert(s.subrange(12, 532) =~= path);
    assert(s.subrange(532, 536) =~= bytes::u32_le(r.process_id));
    assert(s.subrange(536, 540) =~= bytes::u32_le(r.is_exclude_process));
    lemma_four(s, 0, r.operation_mask);
    lemma_four(s, 4, r.match_type);
    lemma_four(s, 8, r.path_len);
    lemma_four(s, 532, r.process_id);
    lemma_four(s, 536, r.is_exclude_process);
    assert forall|i: int| 0 <= i < 260 implies two(s, 12 + 2 * i) == #[trigger] r.path@[i] by {
        assert(s[12 + 2 * i] == path[2 * i]);
        assert(s[13 + 2 * i] == path[2 * i + 1]);
    }
}

/// A configuration holds the timeout, the default action and the number of the rules, and then the
/// rules.
pub proof fn law_config_layout(c: FileModuleConfig)
    ensures
        ({
            let s = file_config::config_bytes(c);
            &&& s.len() == 8652
            &&& four(s, 0) == c.timeout_ms
            &&& four(s, 4) == c.default_action
            &&& four(s, 8) == c.rule_count
            &&& forall|i: int|
                0 <= i < 16 ==> s.subrange(12 + 540 * i, 552 + 540 * i) == file_config::rule_bytes(
                    #[trigger] c.rules@[i],
                )
        }),
{
    let s = file_config::config_bytes(c);
    file_config::law_config_round_trip(c);
    assert(s.subrange(0, 4) =~= bytes::u32_le(c.timeout_ms));
    assert(s.subrange(4, 8) =~= bytes::u32_le(c.default_action));
    assert(s.subrange(8, 12) =~= bytes::u32_le(c.rule_count));
    lemma_four(s, 0, c.timeout_ms);
    lemma_four(s, 4, c.default_action);
    lemma_four(s, 8, c.rule_count);
    let rest = file_config::rules_bytes(c.rules@);
    file_config::lemma_rules_bytes(c.rules@);
    assert forall|i: int| 0 <= i < 16 implies s.subrange(12 + 540 * i, 552 + 540 * i)
        == file_config::rule_bytes(#[trigger] c.rules@[i]) by {
        assert(s.subrange(12 + 540 * i, 552 + 540 * i) =~= rest.subrange(
            540 * i,
            540 * i + 540,
        ));
    }
}

/// An event takes 552 bytes: its transaction, its process, the operation, the length of its path,
/// the decision, and the path to redirect to with its length.
pub proof fn law_event_layout(e: FileEvent)
    ensures
        ({
            let s = file_types::event_bytes(e);
            &&& s.len() == 552
            &&& eight(s, 0) == e.transaction_id
            &&& four(s, 8) == e.process_id
            &&& four(s, 12) == e.op_code
            &&& four(s, 16) == e.path_len
            &&& four(s, 20) == e.decision
            &&& four(s, 24) == e.redirect_path_len
            &&& forall|i: int| 0 <= i < 260 ==> two(s, 28 + 2 * i) == #[trigger] e.redirect_path@[i]
        }),
{
    reveal(file_types::event_bytes);
    reveal(file_types::unit_bytes);
    let s = file_types::event_bytes(e);
    let path = file_types::unit_bytes(e.redirect_path@);
    assert(s.subrange(0, 8) =~= bytes::u64_le(e.transaction_id));
    assert(s.subrange(8, 12) =~= bytes::u32_le(e.process_id));
    assert(s.subrange(12, 16) =~= bytes::u32_le(e.op_code));
    assert(s.subrange(16, 20) =~= bytes::u32_le(e.path_len));
    assert(s.subrange(20, 24) =~= bytes::u32_le(e.decision));
    assert(s.subrange(24, 28) =~= bytes::u32_le(e.redirect_path_len));
    assert(s.subrange(28, 548) =~= path);
    lemma_eight(s, 0, e.transaction_id);
    lemma_four(s, 8, e.process_id);
    lemma_four(s, 12, e.op_code);
    lemma_four(s, 16, e.path_len);
    lemma_four(s, 20, e.decision);
    lemma_four(s, 24, e.redirect_path_len);
    assert forall|i: int| 0 <= i < 260 implies two(s, 28 + 2 * i)
        == #[trigger] e.redirect_path@[i] by {
        assert(s[28 + 2 * i] == path[2 * i]);
        assert(s[29 + 2 * i] == path[2 * i + 1]);
    }
}

/// A dummy record says how long it is and carries a mark in place of its kind.
pub proof fn law_dummy_layout(total: int)
    requires
        8 <= total <= u32::MAX,
    ensures
        ({
            let s = records::header_bytes(records::dummy_header(total));
            &&& four(s, 0) == total - 8
            &&& four(s, 4) == 0xDEAD_BEEF
        }),
{
    let h = records::dummy_header(total);
    let s = records::header_bytes(h);
    assert(s.subrange(0, 4) =~= bytes::u32_le(h.len));
    assert(s.subrange(4, 8) =~= bytes::u32_le(h.ty));
    lemma_four(s, 0, h.len);
    lemma_four(s, 4, h.ty);
}

/// The record of a file event holds the event and then the path, two bytes for each code unit.
pub proof fn law_event_record_layout(e: FileEvent, path: Seq<u16>)
    requires
        552 + 2 * path.len() <= u32::MAX,
    ensures
        ({
            let s = scan::event_record(e, path);
            &&& s.len() == 560 + 2 * path.len()
            &&& four(s, 0) == 552 + 2 * path.len()
            &&& four(s, 4) == 0
            &&& s.subrange(8, 560) == file_types::event_bytes(e)
            &&& forall|i: int| 0 <= i < path.len() ==> two(s, 560 + 2 * i) == #[trigger] path[i]
        }),
{
    let s = scan::event_record(e, path);
    let header = scan::event_header(path.len());
    let units = file_types::unit_bytes(path);
    law_event_layout(e);
    scan::lemma_event_header(path.len(), file_types::event_bytes(e) + units);
    assert(s =~= header + (file_types::event_bytes(e) + units));
    law_orders_of_bytes(s, 0);
    law_orders_of_bytes(s, 4);
    assert(s.subrange(8, 560) =~= file_types::event_bytes(e));
    assert forall|i: int| 0 <= i < path.len() implies two(s, 560 + 2 * i) == #[trigger] path[i] by {
        assert(s[560 + 2 * i] == units[2 * i]);
        assert(s[561 + 2 * i] == units[2 * i + 1]);
    }
}

} // verus!
