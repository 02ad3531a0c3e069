//! The addresses that the driver puts in front of packets and events.
use vstd::prelude::*;
use crate::bytes;
use crate::types;
use crate::types::{
    DivertAddress, DivertAddressData, DivertDataFlow, DivertDataNetwork, DivertDataSocket,
};

verus! {

broadcast use crate::bytes::lemma_u32_le_len;

/// The flags word of an address.
pub open spec fn address_flags(layer: u8, event: u8, outbound: bool, ipv6: bool) -> u32 {
    (layer + 0x100 * event + (if outbound {
        0x2_0000int
    } else {
        0
    }) + (if ipv6 {
        0x10_0000int
    } else {
        0
    })) as u32
}

/// `a` is an address with this flags word and these data, and nothing else.
pub open spec fn is_address_of(a: DivertAddress, flags: u32, data: Seq<u8>) -> bool {
    &&& a.timestamp == 0
    &&& a.flags == flags
    &&& a.reserved2 == 0
    &&& a.data.bytes() == data
}

/// `a` is the address of a packet that came in or went out through an interface.
pub open spec fn is_packet_address(
    a: DivertAddress,
    if_idx: u32,
    sub_if_idx: u32,
    outbound: bool,
    ipv6: bool,
) -> bool {
    is_address_of(
        a,
        address_flags(0, 0, outbound, ipv6),
        bytes::u32_le(if_idx) + bytes::u32_le(sub_if_idx) + Seq::new(56, |i: int| 0u8),
    )
}

/// The data of an event of a process at a layer.
pub open spec fn event_data(process_id: u32, layer: u8, flags: u8) -> Seq<u8> {
    types::flow_bytes(0, process_id, 0, layer, flags, Seq::new(6, |i: int| 0u8))
}

/// There is only one address with a flags word and data.
pub proof fn lemma_address_unique(a: DivertAddress, b: DivertAddress)
    requires
        is_address_of(a, b.flags, b.data.bytes()),
        b.timestamp == 0,
        b.reserved2 == 0,
    ensures
        a == b,
{
    assert forall|i: int| 0 <= i < 64 implies a.data.reserved3[i] == b.data.reserved3[i] by {
        assert(a.data.bytes()[i] == b.data.bytes()[i]);
    }
    assert(a.data.reserved3 =~= b.data.reserved3);
}

fn address_with(layer: u8, event: u8, outbound: bool, ipv6: bool, data: DivertAddressData) -> (a:
    DivertAddress)
    ensures
        is_address_of(a, address_flags(layer, event, outbound, ipv6), data.bytes()),
{
    let mut a = DivertAddress { timestamp: 0, flags: 0, reserved2: 0, data };
    a.set_layer(layer);
    a.set_event(event);
    let ghost low = a.flags;
    assert(low == layer + 0x100 * event);
    a.set_outbound(outbound);
    let ghost mid = a.flags;
    a.set_ipv6(ipv6);
    proof {
        assert((low | (1u32 << 17)) == low + 0x2_0000 && (low & !(1u32 << 17)) == low)
            by (bit_vector)
            requires
                low < 0x1_0000,
        ;
        assert((mid | (1u32 << 20)) == mid + 0x10_0000 && (mid & !(1u32 << 20)) == mid)
            by (bit_vector)
            requires
                mid < 0x10_0000,
        ;
    }
    a
}

/// The address of a packet.
pub fn packet_address(if_idx: u32, sub_if_idx: u32, outbound: bool, ipv6: bool) -> (a:
    DivertAddress)
    ensures
        is_packet_address(a, if_idx, sub_if_idx, outbound, ipv6),
{
    address_with(
        0,
        0,
        outbound,
        ipv6,
        DivertAddressData::from_network(DivertDataNetwork { if_idx, sub_if_idx }),
    )
}

/// The address of stream data or of a flow: `layer` stands in the flags word only if
/// `named` says so.
pub fn flow_address(
    process_id: u32,
    layer: u8,
    named: bool,
    event: u8,
    outbound: bool,
    ipv6: bool,
) -> (a: DivertAddress)
    ensures
        is_address_of(
            a,
            address_flags(
                if named {
                    layer
                } else {
                    0
                },
                event,
                outbound,
                ipv6,
            ),
            event_data(process_id, layer, 0),
        ),
{
    let reserved: [u8; 6] = [0u8; 6];
    assert(reserved@ =~= Seq::new(6, |i: int| 0u8));
    let data = DivertAddressData::from_flow(
        DivertDataFlow { endpoint_id: 0, process_id, filter_id: 0, layer, flags: 0, reserved },
    );
    address_with(
        if named {
            layer
        } else {
            0
        },
        event,
        outbound,
        ipv6,
        data,
    )
}

/// The address of a socket event.
pub fn socket_address(
    process_id: u32,
    layer: u8,
    blocked: bool,
    event: u8,
    outbound: bool,
    ipv6: bool,
) -> (a: DivertAddress)
    ensures
        is_address_of(
            a,
            address_flags(layer, event, outbound, ipv6),
            event_data(
                process_id,
                layer,
                if blocked {
                    1
                } else {
                    0
                },
            ),
        ),
{
    let reserved: [u8; 6] = [0u8; 6];
    assert(reserved@ =~= Seq::new(6, |i: int| 0u8));
    let flags: u8 = if blocked {
        1
    } else {
        0
    };
    let data = DivertAddressData::from_socket(
        DivertDataSocket { endpoint_id: 0, process_id, filter_id: 0, layer, flags, reserved },
    );
    address_with(layer, event, outbound, ipv6, data)
}

/// What stands in a flags word is read from it: the layer in its lowest byte, the event in the
/// next one, and one bit each for the direction and the version of IP. The bits between them and
/// above them are clear.
pub proof fn law_flags_read_back(layer: u8, event: u8, outbound: bool, ipv6: bool)
    ensures
        ({
            let flags = address_flags(layer, event, outbound, ipv6);
            &&& flags % 0x100 == layer
            &&& flags / 0x100 % 0x100 == event
            &&& flags / 0x1_0000 % 2 == 0
            &&& (flags / 0x2_0000 % 2 == 1) == outbound
            &&& flags / 0x4_0000 % 4 == 0
            &&& (flags / 0x10_0000 == 1) == ipv6
            &&& flags / 0x10_0000 <= 1
        }),
{
}

/// The address of a packet names its interfaces, its direction and its version of IP: the four
/// bytes of each interface stand at the front of its data, least significant first.
pub proof fn law_packet_address_reads_back(
    a: DivertAddress,
    if_idx: u32,
    sub_if_idx: u32,
    outbound: bool,
    ipv6: bool,
)
    requires
        is_packet_address(a, if_idx, sub_if_idx, outbound, ipv6),
    ensures
        ({
            let b = a.data.bytes();
            &&& b.len() == 64
            &&& b[0] + 0x100 * b[1] + 0x1_0000 * b[2] + 0x100_0000 * b[3] == if_idx
            &&& b[4] + 0x100 * b[5] + 0x1_0000 * b[6] + 0x100_0000 * b[7] == sub_if_idx
            &&& (a.flags / 0x2_0000 % 2 == 1) == outbound
            &&& (a.flags / 0x10_0000 % 2 == 1) == ipv6
            &&& a.flags % 0x1_0000 == 0
        }),
{
    reveal(bytes::u32_le);
    law_flags_read_back(0, 0, outbound, ipv6);
    let front = bytes::u32_le(if_idx) + bytes::u32_le(sub_if_idx);
    let b = a.data.bytes();
    assert forall|i: int| 0 <= i < 8 implies b[i] == front[i] by {}
    assert(forall|i: int| 0 <= i < 4 ==> front[i] == bytes::u32_le(if_idx)[i]);
    assert(forall|i: int| 4 <= i < 8 ==> front[i] == bytes::u32_le(sub_if_idx)[i - 4]);
}

/// The data of an event name its process behind eight zeros, then, behind four more, the layer and
/// what became of the connection.
pub proof fn law_event_data_reads_back(process_id: u32, layer: u8, flags: u8)
    ensures
        ({
            let b = event_data(process_id, layer, flags);
            &&& b.len() == 64
            &&& b[8] + 0x100 * b[9] + 0x1_0000 * b[10] + 0x100_0000 * b[11] == process_id
            &&& b[16] == layer
            &&& b[17] == flags
            &&& forall|i: int| 0 <= i < 64 && !(8 <= i < 12) && i != 16 && i != 17 ==> b[i] == 0
        }),
{
    reveal(bytes::u32_le);
    let reserved = Seq::new(6, |i: int| 0u8);
    let tail = Seq::new(40, |i: int| 0u8);
    let p = bytes::u32_le(process_id);
    let z = bytes::u32_le(0);
    let b = event_data(process_id, layer, flags);
    assert(z =~= Seq::new(4, |i: int| 0u8));
    assert(bytes::u64_le(0) =~= Seq::new(8, |i: int| 0u8));
    assert(b =~= Seq::new(8, |i: int| 0u8) + p + Seq::new(4, |i: int| 0u8) + seq![layer, flags]
        + Seq::new(46, |i: int| 0u8));
}

} // verus!
