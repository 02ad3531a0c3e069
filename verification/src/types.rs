//! Types that the driver and its user-space client exchange.
use vstd::prelude::*;
use crate::bytes;

verus! {

broadcast use crate::bytes::lemma_u32_le_len;

pub const LAYER_NETWORK: u32 = 0;

pub const LAYER_NETWORK_FORWARD: u32 = 1;

pub const LAYER_FLOW: u32 = 2;

pub const LAYER_SOCKET: u32 = 3;

pub const LAYER_REFLECT: u32 = 4;

pub const LAYER_TRANSPORT: u32 = 5;

pub const LAYER_STREAM: u32 = 6;

pub const LAYER_FILE: u32 = 7;

/// Where in the network or file stack a handle diverts.
#[derive(Debug, Copy, Clone, PartialEq, Eq, Structural)]
pub enum Layer {
    Network,
    NetworkForward,
    Flow,
    Socket,
    Reflect,
    Transport,
    Stream,
    File,
}

impl Layer {
    pub open spec fn spec_code(&self) -> u32 {
        match self {
            Layer::Network => LAYER_NETWORK,
            Layer::NetworkForward => LAYER_NETWORK_FORWARD,
            Layer::Flow => LAYER_FLOW,
            Layer::Socket => LAYER_SOCKET,
            Layer::Reflect => LAYER_REFLECT,
            Layer::Transport => LAYER_TRANSPORT,
            Layer::Stream => LAYER_STREAM,
            Layer::File => LAYER_FILE,
        }
    }

    /// The number that stands for the layer in requests.
    pub fn code(&self) -> (c: u32)
        ensures
            c == self.spec_code(),
    {
        match self {
            Layer::Network => LAYER_NETWORK,
            Layer::NetworkForward => LAYER_NETWORK_FORWARD,
            Layer::Flow => LAYER_FLOW,
            Layer::Socket => LAYER_SOCKET,
            Layer::Reflect => LAYER_REFLECT,
            Layer::Transport => LAYER_TRANSPORT,
            Layer::Stream => LAYER_STREAM,
            Layer::File => LAYER_FILE,
        }
    }

    /// The layer that a number in a request stands for.
    pub fn from_code(code: u32) -> (l: Option<Layer>)
        ensures
            match l {
                Some(layer) => layer.spec_code() == code,
                None => code > LAYER_FILE,
            },
    {
        if code == LAYER_NETWORK {
            Some(Layer::Network)
        } else if code == LAYER_NETWORK_FORWARD {
            Some(Layer::NetworkForward)
        } else if code == LAYER_FLOW {
            Some(Layer::Flow)
        } else if code == LAYER_SOCKET {
            Some(Layer::Socket)
        } else if code == LAYER_REFLECT {
            Some(Layer::Reflect)
        } else if code == LAYER_TRANSPORT {
            Some(Layer::Transport)
        } else if code == LAYER_STREAM {
            Some(Layer::Stream)
        } else if code == LAYER_FILE {
            Some(Layer::File)
        } else {
            None
        }
    }
}

/// How a handle treats what it diverts.
#[derive(Debug, Copy, Clone, PartialEq, Eq, Structural)]
pub enum Flags {
    Divert,
    RecvOnly,
}

impl Flags {
    pub open spec fn spec_code(&self) -> u64 {
        match self {
            Flags::Divert => 0,
            Flags::RecvOnly => 4,
        }
    }

    /// The number that stands for the flag in requests.
    pub fn code(&self) -> (c: u64)
        ensures
            c == self.spec_code(),
    {
        match self {
            Flags::Divert => 0,
            Flags::RecvOnly => 4,
        }
    }
}

/// What the driver reports about a packet or event besides its bytes.
#[derive(Copy, Clone)]
pub struct DivertAddress {
    pub timestamp: i64,
    pub flags: u32,
    pub reserved2: u32,
    pub data: DivertAddressData,
}

#[derive(Debug, Copy, Clone)]
pub struct DivertDataNetwork {
    pub if_idx: u32,
    pub sub_if_idx: u32,
}

#[derive(Debug, Copy, Clone)]
pub struct DivertDataFlow {
    pub endpoint_id: u64,
    pub process_id: u32,
    pub filter_id: u32,
    pub layer: u8,
    pub flags: u8,
    pub reserved: [u8; 6],
}

#[derive(Debug, Copy, Clone)]
pub struct DivertDataSocket {
    pub endpoint_id: u64,
    pub process_id: u32,
    pub filter_id: u32,
    pub layer: u8,
    pub flags: u8,
    pub reserved: [u8; 6],
}

impl Default for DivertDataFlow {
    fn default() -> (d: DivertDataFlow)
        ensures
            d.endpoint_id == 0 && d.process_id == 0 && d.filter_id == 0 && d.layer == 0 && d.flags
                == 0,
            d.reserved@ == Seq::new(6, |i: int| 0u8),
    {
        let reserved: [u8; 6] = [0u8; 6];
        assert(reserved@ =~= Seq::new(6, |i: int| 0u8));
        DivertDataFlow { endpoint_id: 0, process_id: 0, filter_id: 0, layer: 0, flags: 0, reserved }
    }
}

impl Default for DivertDataSocket {
    fn default() -> (d: DivertDataSocket)
        ensures
            d.endpoint_id == 0 && d.process_id == 0 && d.filter_id == 0 && d.layer == 0 && d.flags
                == 0,
            d.reserved@ == Seq::new(6, |i: int| 0u8),
    {
        let reserved: [u8; 6] = [0u8; 6];
        assert(reserved@ =~= Seq::new(6, |i: int| 0u8));
        DivertDataSocket {
            endpoint_id: 0,
            process_id: 0,
            filter_id: 0,
            layer: 0,
            flags: 0,
            reserved,
        }
    }
}

#[derive(Debug, Copy, Clone)]
pub struct DivertDataReflect {
    pub timestamp: i64,
    pub process_id: u32,
    pub filter_id: u32,
    pub layer: u8,
    pub flags: u8,
    pub reserved: [u8; 6],
}

/// The per-layer part of an address: 64 bytes that each layer reads in its own way.
///
/// All integers in it are stored least significant byte first.
#[derive(Copy, Clone)]
pub struct DivertAddressData {
    pub reserved3: [u8; 64],
}

/// `s` with `t` written over it from index `i` on.
pub open spec fn overwrite<T>(s: Seq<T>, i: int, t: Seq<T>) -> Seq<T> {
    Seq::new(
        s.len(),
        |j: int|
            if i <= j < i + t.len() {
                t[j - i]
            } else {
                s[j]
            },
    )
}

/// Bit `pos` of a flags word.
pub open spec fn flag_bit(flags: u32, pos: u32) -> bool {
    (flags >> pos) & 1u32 == 1u32
}

impl DivertAddressData {
    pub open spec fn bytes(&self) -> Seq<u8> {
        self.reserved3@
    }

    /// All 64 bytes zero.
    pub fn zeroed() -> (data: DivertAddressData)
        ensures
            data.bytes() == Seq::new(64, |i: int| 0u8),
    {
        let data = DivertAddressData { reserved3: [0u8; 64] };
        assert(data.bytes() =~= Seq::new(64, |i: int| 0u8));
        data
    }

    fn put_u32(&mut self, i: usize, v: u32)
        requires
            i + 4 <= 64,
        ensures
            final(self).bytes() == overwrite(old(self).bytes(), i as int, bytes::u32_le(v)),
    {
        self.reserved3[i] = (v % 0x100) as u8;
        self.reserved3[i + 1] = (v / 0x100 % 0x100) as u8;
        self.reserved3[i + 2] = (v / 0x1_0000 % 0x100) as u8;
        self.reserved3[i + 3] = (v / 0x100_0000) as u8;
        proof {
            reveal(bytes::u32_le);
        }
        assert(self.bytes() =~= overwrite(old(self).bytes(), i as int, bytes::u32_le(v)));
    }

    fn put_u64(&mut self, i: usize, v: u64)
        requires
            i + 8 <= 64,
        ensures
            final(self).bytes() == overwrite(old(self).bytes(), i as int, bytes::u64_le(v)),
    {
        self.put_u32(i, (v % 0x1_0000_0000) as u32);
        self.put_u32(i + 4, (v / 0x1_0000_0000) as u32);
        assert(self.bytes() =~= overwrite(old(self).bytes(), i as int, bytes::u64_le(v)));
    }

    /// The first eight bytes read as interface indexes.
    pub fn network(&self) -> (d: DivertDataNetwork)
        ensures
            d.if_idx == bytes::le32(self.bytes(), 0),
            d.sub_if_idx == bytes::le32(self.bytes(), 4),
    {
        DivertDataNetwork {
            if_idx: bytes::read_le32(&self.reserved3, 0),
            sub_if_idx: bytes::read_le32(&self.reserved3, 4),
        }
    }

    /// The data of a network-layer address; the bytes that the layer does not use are zero.
    pub fn from_network(d: DivertDataNetwork) -> (data: DivertAddressData)
        ensures
            data.bytes() == bytes::u32_le(d.if_idx) + bytes::u32_le(d.sub_if_idx) + Seq::new(
                56,
                |i: int| 0u8,
            ),
            bytes::le32(data.bytes(), 0) == d.if_idx,
            bytes::le32(data.bytes(), 4) == d.sub_if_idx,
    {
        let mut data = DivertAddressData::zeroed();
        data.put_u32(0, d.if_idx);
        data.put_u32(4, d.sub_if_idx);
        proof {
            let s = data.bytes();
            assert(s =~= bytes::u32_le(d.if_idx) + bytes::u32_le(d.sub_if_idx) + Seq::new(
                56,
                |i: int| 0u8,
            ));
            assert(s.subrange(0, 4) =~= bytes::u32_le(d.if_idx));
            assert(s.subrange(4, 8) =~= bytes::u32_le(d.sub_if_idx));
            bytes::lemma_le32_round_trip(s, 0, d.if_idx);
            bytes::lemma_le32_round_trip(s, 4, d.sub_if_idx);
        }
        data
    }

    /// The first 24 bytes read as the data of the flow layer.
    pub fn flow(&self) -> (d: DivertDataFlow)
        ensures
            d.endpoint_id == bytes::le64(self.bytes(), 0),
            d.process_id == bytes::le32(self.bytes(), 8),
            d.filter_id == bytes::le32(self.bytes(), 12),
            d.layer == self.bytes()[16],
            d.flags == self.bytes()[17],
            d.reserved@ == self.bytes().subrange(18, 24),
    {
        let r = &self.reserved3;
        let d = DivertDataFlow {
            endpoint_id: bytes::read_le64(r, 0),
            process_id: bytes::read_le32(r, 8),
            filter_id: bytes::read_le32(r, 12),
            layer: r[16],
            flags: r[17],
            reserved: [r[18], r[19], r[20], r[21], r[22], r[23]],
        };
        assert(d.reserved@ =~= self.bytes().subrange(18, 24));
        d
    }

    /// The first 24 bytes read as the data of the socket layer.
    pub fn socket(&self) -> (d: DivertDataSocket)
        ensures
            d.endpoint_id == bytes::le64(self.bytes(), 0),
            d.process_id == bytes::le32(self.bytes(), 8),
            d.filter_id == bytes::le32(self.bytes(), 12),
            d.layer == self.bytes()[16],
            d.flags == self.bytes()[17],
            d.reserved@ == self.bytes().subrange(18, 24),
    {
        let f = self.flow();
        DivertDataSocket {
            endpoint_id: f.endpoint_id,
            process_id: f.process_id,
            filter_id: f.filter_id,
            layer: f.layer,
            flags: f.flags,
            reserved: f.reserved,
        }
    }

    /// The first 24 bytes read as the data of the reflect layer.
    pub fn reflect(&self) -> (d: DivertDataReflect)
        ensures
            d.timestamp == bytes::bits_i64(bytes::le64(self.bytes(), 0)),
            d.process_id == bytes::le32(self.bytes(), 8),
            d.filter_id == bytes::le32(self.bytes(), 12),
            d.layer == self.bytes()[16],
            d.flags == self.bytes()[17],
            d.reserved@ == self.bytes().subrange(18, 24),
    {
        let f = self.flow();
        DivertDataReflect {
            timestamp: bytes::bits_to_i64(f.endpoint_id),
            process_id: f.process_id,
            filter_id: f.filter_id,
            layer: f.layer,
            flags: f.flags,
            reserved: f.reserved,
        }
    }

    /// The data of a flow-layer address; the bytes that the layer does not use are zero.
    pub fn from_flow(d: DivertDataFlow) -> (data: DivertAddressData)
        ensures
            data.bytes() == flow_bytes(
                d.endpoint_id,
                d.process_id,
                d.filter_id,
                d.layer,
                d.flags,
                d.reserved@,
            ),
    {
        let mut data = DivertAddressData::zeroed();
        data.put_u64(0, d.endpoint_id);
        data.put_u32(8, d.process_id);
        data.put_u32(12, d.filter_id);
        data.reserved3[16] = d.layer;
        data.reserved3[17] = d.flags;
        data.reserved3[18] = d.reserved[0];
        data.reserved3[19] = d.reserved[1];
        data.reserved3[20] = d.reserved[2];
        data.reserved3[21] = d.reserved[3];
        data.reserved3[22] = d.reserved[4];
        data.reserved3[23] = d.reserved[5];
        assert(data.bytes() =~= flow_bytes(
            d.endpoint_id,
            d.process_id,
            d.filter_id,
            d.layer,
            d.flags,
            d.reserved@,
        ));
        data
    }

    /// The data of a socket-layer address; the bytes that the layer does not use are zero.
    pub fn from_socket(d: DivertDataSocket) -> (data: DivertAddressData)
        ensures
            data.bytes() == flow_bytes(
                d.endpoint_id,
                d.process_id,
                d.filter_id,
                d.layer,
                d.flags,
                d.reserved@,
            ),
    {
        DivertAddressData::from_flow(
            DivertDataFlow {
                endpoint_id: d.endpoint_id,
                process_id: d.process_id,
                filter_id: d.filter_id,
                layer: d.layer,
                flags: d.flags,
                reserved: d.reserved,
            },
        )
    }

    /// The data of a reflect-layer address; the bytes that the layer does not use are zero.
    pub fn from_reflect(d: DivertDataReflect) -> (data: DivertAddressData)
        ensures
            data.bytes() == flow_bytes(
                bytes::i64_bits(d.timestamp),
                d.process_id,
                d.filter_id,
                d.layer,
                d.flags,
                d.reserved@,
            ),
    {
        DivertAddressData::from_flow(
            DivertDataFlow {
                endpoint_id: bytes::i64_to_bits(d.timestamp),
                process_id: d.process_id,
                filter_id: d.filter_id,
                layer: d.layer,
                flags: d.flags,
                reserved: d.reserved,
            },
        )
    }
}

/// The 64 bytes in which the flow, socket and reflect layers store their data.
pub open spec fn flow_bytes(
    id: u64,
    process_id: u32,
    filter_id: u32,
    layer: u8,
    flags: u8,
    reserved: Seq<u8>,
) -> Seq<u8> {
    bytes::u64_le(id) + bytes::u32_le(process_id) + bytes::u32_le(filter_id) + seq![layer, flags]
        + reserved + Seq::new(40, |i: int| 0u8)
}

/// What a flow, socket or reflect layer stored is what it reads back.
pub proof fn law_flow_data_round_trip(
    id: u64,
    process_id: u32,
    filter_id: u32,
    layer: u8,
    flags: u8,
    reserved: Seq<u8>,
)
    requires
        reserved.len() == 6,
    ensures
        ({
            let s = flow_bytes(id, process_id, filter_id, layer, flags, reserved);
            &&& s.len() == 64
            &&& bytes::le64(s, 0) == id
            &&& bytes::le32(s, 8) == process_id
            &&& bytes::le32(s, 12) == filter_id
            &&& s[16] == layer
            &&& s[17] == flags
            &&& s.subrange(18, 24) == reserved
        }),
{
    let s = flow_bytes(id, process_id, filter_id, layer, flags, reserved);
    assert(s.subrange(0, 8) =~= bytes::u64_le(id));
    assert(s.subrange(8, 12) =~= bytes::u32_le(process_id));
    assert(s.subrange(12, 16) =~= bytes::u32_le(filter_id));
    assert(s.subrange(18, 24) =~= reserved);
    bytes::lemma_le64_round_trip(s, 0, id);
    bytes::lemma_le32_round_trip(s, 8, process_id);
    bytes::lemma_le32_round_trip(s, 12, filter_id);
}

/// What one bit of the flags of an address says.
pub ghost enum AddressFlag {
    Sniffed,
    Outbound,
    Loopback,
    Impostor,
    Ipv6,
    IpChecksum,
    TcpChecksum,
    UdpChecksum,
}

impl AddressFlag {
    /// Which bit it is.
    pub open spec fn position(self) -> u32 {
        match self {
            AddressFlag::Sniffed => 16,
            AddressFlag::Outbound => 17,
            AddressFlag::Loopback => 18,
            AddressFlag::Impostor => 19,
            AddressFlag::Ipv6 => 20,
            AddressFlag::IpChecksum => 21,
            AddressFlag::TcpChecksum => 22,
            AddressFlag::UdpChecksum => 23,
        }
    }
}

impl DivertAddress {
    /// Whether the flags of the address say something.
    pub open spec fn says(&self, f: AddressFlag) -> bool {
        flag_bit(self.flags, f.position())
    }

    pub fn layer(&self) -> (v: u8)
        ensures
            v == self.flags % 0x100,
    {
        let flags: u32 = self.flags;
        assert((flags & 0xFF) as u8 == flags % 0x100) by (bit_vector);
        (flags & 0xFF) as u8
    }

    pub fn event(&self) -> (v: u8)
        ensures
            v == self.flags / 0x100 % 0x100,
    {
        let flags: u32 = self.flags;
        assert(((flags >> 8) & 0xFF) as u8 == flags / 0x100 % 0x100) by (bit_vector);
        ((flags >> 8) & 0xFF) as u8
    }

    fn bit(&self, pos: u32) -> (b: bool)
        requires
            pos < 32,
        ensures
            b == flag_bit(self.flags, pos),
    {
        let flags: u32 = self.flags;
        assert(((flags >> pos) & 1u32 != 0) == ((flags >> pos) & 1u32 == 1u32)) by (bit_vector);
        ((flags >> pos) & 1) != 0
    }

    pub fn sniffed(&self) -> (b: bool)
        ensures
            b == self.says(AddressFlag::Sniffed),
    {
        self.bit(16)
    }

    pub fn outbound(&self) -> (b: bool)
        ensures
            b == self.says(AddressFlag::Outbound),
    {
        self.bit(17)
    }

    pub fn loopback(&self) -> (b: bool)
        ensures
            b == self.says(AddressFlag::Loopback),
    {
        self.bit(18)
    }

    pub fn impostor(&self) -> (b: bool)
        ensures
            b == self.says(AddressFlag::Impostor),
    {
        self.bit(19)
    }

    pub fn ipv6(&self) -> (b: bool)
        ensures
            b == self.says(AddressFlag::Ipv6),
    {
        self.bit(20)
    }

    pub fn ip_checksum(&self) -> (b: bool)
        ensures
            b == self.says(AddressFlag::IpChecksum),
    {
        self.bit(21)
    }

    pub fn tcp_checksum(&self) -> (b: bool)
        ensures
            b == self.says(AddressFlag::TcpChecksum),
    {
        self.bit(22)
    }

    pub fn udp_checksum(&self) -> (b: bool)
        ensures
            b == self.says(AddressFlag::UdpChecksum),
    {
        self.bit(23)
    }

    pub fn reserved1(&self) -> (v: u8)
        ensures
            v == self.flags / 0x100_0000,
    {
        let flags: u32 = self.flags;
        assert(((flags >> 24) & 0xFF) as u8 == flags / 0x100_0000) by (bit_vector);
        ((flags >> 24) & 0xFF) as u8
    }

    pub fn set_layer(&mut self, value: u8)
        ensures
            *final(self) == (DivertAddress { flags: final(self).flags, ..*old(self) }),
            final(self).flags % 0x100 == value,
            final(self).flags / 0x100 == old(self).flags / 0x100,
    {
        let flags: u32 = self.flags;
        let new: u32 = (flags & !0xFFu32) | (value as u32 & 0xFF);
        assert(new % 0x100 == value && new / 0x100 == flags / 0x100) by (bit_vector)
            requires
                new == (flags & !0xFFu32) | (value as u32 & 0xFF),
        ;
        self.flags = new;
    }

    pub fn set_event(&mut self, value: u8)
        ensures
            *final(self) == (DivertAddress { flags: final(self).flags, ..*old(self) }),
            final(self).flags / 0x100 % 0x100 == value,
            final(self).flags % 0x100 == old(self).flags % 0x100,
            final(self).flags / 0x1_0000 == old(self).flags / 0x1_0000,
    {
        let flags: u32 = self.flags;
        let new: u32 = (flags & !0xFF00u32) | ((value as u32 & 0xFF) << 8);
        assert(new / 0x100 % 0x100 == value && new % 0x100 == flags % 0x100 && new / 0x1_0000
            == flags / 0x1_0000) by (bit_vector)
            requires
                new == (flags & !0xFF00u32) | ((value as u32 & 0xFF) << 8),
        ;
        self.flags = new;
    }

    pub fn set_sniffed(&mut self, value: bool)
        ensures
            final(self).differs_in_bit(old(self), 16, value),
    {
        self.set_bit(16, value);
    }

    pub fn set_outbound(&mut self, value: bool)
        ensures
            final(self).differs_in_bit(old(self), 17, value),
    {
        self.set_bit(17, value);
    }

    pub fn set_ipv6(&mut self, value: bool)
        ensures
            final(self).differs_in_bit(old(self), 20, value),
    {
        self.set_bit(20, value);
    }

    /// `self` is `before` with flag bit `pos` set to `value` and nothing else changed.
    pub open spec fn differs_in_bit(&self, before: &DivertAddress, pos: u32, value: bool) -> bool {
        &&& *self == (DivertAddress { flags: self.flags, ..*before })
        &&& self.flags == (if value {
            before.flags | (1u32 << pos)
        } else {
            before.flags & !(1u32 << pos)
        })
        &&& flag_bit(self.flags, pos) == value
        &&& forall|q: u32|
            q < 32 && q != pos ==> #[trigger] flag_bit(self.flags, q) == flag_bit(before.flags, q)
    }

    fn set_bit(&mut self, pos: u32, value: bool)
        requires
            pos < 32,
        ensures
            final(self).differs_in_bit(old(self), pos, value),
    {
        let flags: u32 = self.flags;
        let new: u32 = if value {
            flags | (1u32 << pos)
        } else {
            flags & !(1u32 << pos)
        };
        proof {
            assert(((new >> pos) & 1u32 == 1u32) == value) by (bit_vector)
                requires
                    pos < 32,
                    new == (if value { flags | (1u32 << pos) } else { flags & !(1u32 << pos) }),
            ;
            assert forall|q: u32| q < 32 && q != pos implies #[trigger] flag_bit(new, q)
                == flag_bit(flags, q) by {
                assert(((new >> q) & 1u32 == 1u32) == ((flags >> q) & 1u32 == 1u32)) by (bit_vector)
                    requires
                        q < 32,
                        pos < 32,
                        q != pos,
                        new == (if value { flags | (1u32 << pos) } else { flags & !(1u32 << pos) }),
                ;
            }
        }
        self.flags = new;
    }
}

/// The flags of an address, by the values of their bits: eight of them stand above the layer and
/// the event, in this order.
pub proof fn law_flags_by_value(a: DivertAddress)
    ensures
        a.says(AddressFlag::Sniffed) == (a.flags / 0x1_0000 % 2 == 1),
        a.says(AddressFlag::Outbound) == (a.flags / 0x2_0000 % 2 == 1),
        a.says(AddressFlag::Loopback) == (a.flags / 0x4_0000 % 2 == 1),
        a.says(AddressFlag::Impostor) == (a.flags / 0x8_0000 % 2 == 1),
        a.says(AddressFlag::Ipv6) == (a.flags / 0x10_0000 % 2 == 1),
        a.says(AddressFlag::IpChecksum) == (a.flags / 0x20_0000 % 2 == 1),
        a.says(AddressFlag::TcpChecksum) == (a.flags / 0x40_0000 % 2 == 1),
        a.says(AddressFlag::UdpChecksum) == (a.flags / 0x80_0000 % 2 == 1),
{
    let f = a.flags;
    assert(((f >> 16) & 1 == 1) == (f / 0x1_0000 % 2 == 1) && ((f >> 17) & 1 == 1) == (f / 0x2_0000
        % 2 == 1) && ((f >> 18) & 1 == 1) == (f / 0x4_0000 % 2 == 1) && ((f >> 19) & 1 == 1) == (f
        / 0x8_0000 % 2 == 1) && ((f >> 20) & 1 == 1) == (f / 0x10_0000 % 2 == 1) && ((f >> 21) & 1
        == 1) == (f / 0x20_0000 % 2 == 1) && ((f >> 22) & 1 == 1) == (f / 0x40_0000 % 2 == 1) && ((f
        >> 23) & 1 == 1) == (f / 0x80_0000 % 2 == 1)) by (bit_vector);
}

/// Setting one flag of an address changes what it says to what was asked for, and nothing else.
pub proof fn law_flag_is_set(
    a: DivertAddress,
    b: DivertAddress,
    f: AddressFlag,
    g: AddressFlag,
    value: bool,
)
    requires
        b.differs_in_bit(&a, f.position(), value),
    ensures
        b.says(f) == value,
        f != g ==> b.says(g) == a.says(g),
        b.timestamp == a.timestamp && b.reserved2 == a.reserved2 && b.data == a.data,
{
}

/// The numbers of the layers, and of the two ways to open a handle.
pub proof fn law_numbers_of_layers()
    ensures
        Layer::Network.spec_code() == 0,
        Layer::NetworkForward.spec_code() == 1,
        Layer::Flow.spec_code() == 2,
        Layer::Socket.spec_code() == 3,
        Layer::Reflect.spec_code() == 4,
        Layer::Transport.spec_code() == 5,
        Layer::Stream.spec_code() == 6,
        Layer::File.spec_code() == 7,
        Flags::Divert.spec_code() == 0,
        Flags::RecvOnly.spec_code() == 4,
{
}

} // verus!
