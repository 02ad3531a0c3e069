//! Who talks to whom, as the headers of a packet say.
use vstd::prelude::*;
use crate::bytes;
use crate::ringbuffer::scan::PacketData;
use crate::text;

verus! {

/// An address of either version of IP, most significant byte first.
#[derive(Debug, Clone, Copy, PartialEq, Eq)]
pub enum IpAddr {
    V4([u8; 4]),
    V6([u8; 16]),
}

impl IpAddr {
    pub open spec fn octets(&self) -> Seq<u8> {
        match self {
            IpAddr::V4(a) => a@,
            IpAddr::V6(a) => a@,
        }
    }
}

/// Source and destination of a packet, with ports where the protocol has them and the packet holds
/// them.
#[derive(Debug, PartialEq, Eq)]
pub struct FiveTuple {
    pub src_ip: IpAddr,
    pub dst_ip: IpAddr,
    pub src_port: Option<u16>,
    pub dst_port: Option<u16>,
    pub protocol: String,
}

impl Clone for FiveTuple {
    fn clone(&self) -> (t: Self)
        ensures
            t.src_ip == self.src_ip,
            t.dst_ip == self.dst_ip,
            t.src_port == self.src_port,
            t.dst_port == self.dst_port,
            t.protocol@ == self.protocol@,
    {
        FiveTuple {
            src_ip: self.src_ip,
            dst_ip: self.dst_ip,
            src_port: self.src_port,
            dst_port: self.dst_port,
            protocol: self.protocol.clone(),
        }
    }
}

/// Length of an IPv4 header, as its first byte says.
pub open spec fn header_len(b: Seq<u8>) -> int {
    b[0] % 16 * 4
}

/// A packet has the headers that its source and destination are read from.
pub open spec fn has_headers(b: Seq<u8>) -> bool {
    b.len() > 0 && (if b[0] / 16 == 4 {
        b.len() >= 20 && b.len() >= header_len(b)
    } else {
        b[0] / 16 == 6 && b.len() >= 40
    })
}

/// The port at `at` of a packet of TCP or UDP, if the packet holds both ports.
pub open spec fn port_at(b: Seq<u8>, start: int, protocol: u8, at: int) -> Option<u16> {
    if (protocol == 6 || protocol == 17) && b.len() >= start + 4 {
        Some(bytes::be16(b, at))
    } else {
        None
    }
}

/// How a protocol is named; ICMP with its type and code where the packet, from `start` on, holds
/// them.
pub open spec fn protocol_text(b: Seq<u8>, start: int, protocol: u8, v6: bool) -> Seq<char> {
    let control: int = if v6 {
        58
    } else {
        1
    };
    let name = if v6 {
        "ICMPv6"@
    } else {
        "ICMP"@
    };
    if protocol == 6 {
        "TCP"@
    } else if protocol == 17 {
        "UDP"@
    } else if protocol == control {
        if b.len() >= start + 2 {
            name + " (type="@ + text::decimal_text(b[start] as nat) + ", code="@
                + text::decimal_text(b[start + 1] as nat) + ")"@
        } else {
            name
        }
    } else {
        "PROTO-"@ + text::decimal_text(protocol as nat)
    }
}

/// `t` is what the headers of a packet say.
pub open spec fn is_five_tuple(t: FiveTuple, b: Seq<u8>) -> bool {
    if b[0] / 16 == 4 {
        let start = header_len(b);
        &&& t.src_ip is V4
        &&& t.dst_ip is V4
        &&& t.src_ip.octets() == b.subrange(12, 16)
        &&& t.dst_ip.octets() == b.subrange(16, 20)
        &&& t.src_port == port_at(b, start, b[9], start)
        &&& t.dst_port == port_at(b, start, b[9], start + 2)
        &&& t.protocol@ == protocol_text(b, start, b[9], false)
    } else {
        &&& t.src_ip is V6
        &&& t.dst_ip is V6
        &&& t.src_ip.octets() == b.subrange(8, 24)
        &&& t.dst_ip.octets() == b.subrange(24, 40)
        &&& t.src_port == port_at(b, 40, b[6], 40)
        &&& t.dst_port == port_at(b, 40, b[6], 42)
        &&& t.protocol@ == protocol_text(b, 40, b[6], true)
    }
}

pub struct PacketParser;

impl PacketParser {
    /// A byte of a packet, if it has that many.
    pub fn get_byte(data: &PacketData, idx: usize) -> (r: Option<u8>)
        ensures
            r == (if idx < data.bytes().len() {
                Some(data.bytes()[idx as int])
            } else {
                None
            }),
    {
        match data {
            PacketData::Contiguous(s) => {
                if idx < s.len() {
                    Some(s[idx])
                } else {
                    None
                }
            },
            PacketData::Wrapped { part1, part2 } => {
                if idx < part1.len() {
                    Some(part1[idx])
                } else if idx - part1.len() < part2.len() {
                    Some(part2[idx - part1.len()])
                } else {
                    None
                }
            },
        }
    }

    /// Two bytes of a packet, most significant first, if it has them.
    pub fn get_u16(data: &PacketData, idx: usize) -> (r: Option<u16>)
        requires
            idx < usize::MAX,
        ensures
            r == (if idx + 2 <= data.bytes().len() {
                Some(bytes::be16(data.bytes(), idx as int))
            } else {
                None
            }),
    {
        match (PacketParser::get_byte(data, idx), PacketParser::get_byte(data, idx + 1)) {
            (Some(b1), Some(b2)) => Some(b1 as u16 * 0x100 + b2 as u16),
            _ => None,
        }
    }

    /// Four bytes of a packet, most significant first, if it has them.
    pub fn get_u32(data: &PacketData, idx: usize) -> (r: Option<u32>)
        requires
            idx <= usize::MAX - 3,
        ensures
            r == (if idx + 4 <= data.bytes().len() {
                Some(bytes::be32(data.bytes(), idx as int))
            } else {
                None
            }),
    {
        match (PacketParser::get_u16(data, idx), PacketParser::get_u16(data, idx + 2)) {
            (Some(high), Some(low)) => Some(high as u32 * 0x1_0000 + low as u32),
            _ => None,
        }
    }

    /// Who talks to whom; none if the packet is too short or of no known version of IP.
    pub fn extract_5tuple(data: &PacketData) -> (r: Option<FiveTuple>)
        requires
            data.bytes().len() <= usize::MAX,
        ensures
            match r {
                Some(t) => has_headers(data.bytes()) && is_five_tuple(t, data.bytes()),
                None => !has_headers(data.bytes()),
            },
    {
        let len: usize = data.len();
        if len == 0 {
            return None;
        }
        let vhl: u8 = byte_at(data, 0);
        if vhl / 16 == 4 {
            if len < 20 {
                return None;
            }
            let ihl: usize = (vhl % 16) as usize * 4;
            if len < ihl {
                return None;
            }
            let proto: u8 = byte_at(data, 9);
            let src: [u8; 4] = [
                byte_at(data, 12),
                byte_at(data, 13),
                byte_at(data, 14),
                byte_at(data, 15),
            ];
            let dst: [u8; 4] = [
                byte_at(data, 16),
                byte_at(data, 17),
                byte_at(data, 18),
                byte_at(data, 19),
            ];
            assert(src@ =~= data.bytes().subrange(12, 16));
            assert(dst@ =~= data.bytes().subrange(16, 20));
            let (src_port, dst_port) = ports(data, len, ihl, proto);
            Some(
                FiveTuple {
                    src_ip: IpAddr::V4(src),
                    dst_ip: IpAddr::V4(dst),
                    src_port,
                    dst_port,
                    protocol: protocol_name(data, len, ihl, proto, false),
                },
            )
        } else if vhl / 16 == 6 {
            if len < 40 {
                return None;
            }
            let next_header: u8 = byte_at(data, 6);
            let src: [u8; 16] = sixteen(data, 8);
            let dst: [u8; 16] = sixteen(data, 24);
            let (src_port, dst_port) = ports(data, len, 40, next_header);
            Some(
                FiveTuple {
                    src_ip: IpAddr::V6(src),
                    dst_ip: IpAddr::V6(dst),
                    src_port,
                    dst_port,
                    protocol: protocol_name(data, len, 40, next_header, true),
                },
            )
        } else {
            None
        }
    }
}

fn byte_at(data: &PacketData, idx: usize) -> (b: u8)
    requires
        idx < data.bytes().len(),
    ensures
        b == data.bytes()[idx as int],
{
    match PacketParser::get_byte(data, idx) {
        Some(b) => b,
        None => 0,
    }
}

fn sixteen(data: &PacketData, at: usize) -> (r: [u8; 16])
    requires
        at + 16 <= data.bytes().len(),
        at <= 64,
    ensures
        r@ == data.bytes().subrange(at as int, at + 16),
{
    let mut r: [u8; 16] = [0u8; 16];
    let mut i: usize = 0;
    while i < 16
        invariant
            i <= 16,
            at <= 64,
            at + 16 <= data.bytes().len(),
            forall|j: int| 0 <= j < i ==> #[trigger] r@[j] == data.bytes()[at + j],
        decreases 16 - i,
    {
        r[i] = byte_at(data, at + i);
        i += 1;
    }
    assert(r@ =~= data.bytes().subrange(at as int, at + 16));
    r
}

fn ports(data: &PacketData, len: usize, start: usize, protocol: u8) -> (r: (Option<u16>, Option<u16>))
    requires
        len == data.bytes().len(),
        start <= 64,
    ensures
        r.0 == port_at(data.bytes(), start as int, protocol, start as int),
        r.1 == port_at(data.bytes(), start as int, protocol, start + 2),
{
    if (protocol == 6 || protocol == 17) && len >= start + 4 {
        (PacketParser::get_u16(data, start), PacketParser::get_u16(data, start + 2))
    } else {
        (None, None)
    }
}

fn protocol_name(data: &PacketData, len: usize, start: usize, protocol: u8, v6: bool) -> (s: String)
    requires
        len == data.bytes().len(),
        start <= 64,
    ensures
        s@ == protocol_text(data.bytes(), start as int, protocol, v6),
{
    let mut s = String::new();
    assert(s@ =~= Seq::empty());
    let control: u8 = if v6 {
        58
    } else {
        1
    };
    if protocol == 6 {
        text::push_text(&mut s, "TCP");
    } else if protocol == 17 {
        text::push_text(&mut s, "UDP");
    } else if protocol == control {
        text::push_text(
            &mut s,
            if v6 {
                "ICMPv6"
            } else {
                "ICMP"
            },
        );
        if len >= start + 2 {
            text::push_text(&mut s, " (type=");
            text::push_decimal(&mut s, number_at(data, start));
            text::push_text(&mut s, ", code=");
            text::push_decimal(&mut s, number_at(data, start + 1));
            text::push_text(&mut s, ")");
        }
    } else {
        text::push_text(&mut s, "PROTO-");
        text::push_decimal(&mut s, widened(protocol));
    }
    assert(s@ =~= protocol_text(data.bytes(), start as int, protocol, v6));
    s
}

fn number_at(data: &PacketData, idx: usize) -> (v: u64)
    requires
        idx < data.bytes().len(),
    ensures
        v == data.bytes()[idx as int],
{
    widened(byte_at(data, idx))
}

fn widened(b: u8) -> (v: u64)
    ensures
        v == b,
{
    b as u64
}

/// A packet of IPv4: what the header holds before its protocol, between it and the addresses, and
/// behind them.
pub open spec fn packet_v4(
    words: u8,
    before: Seq<u8>,
    protocol: u8,
    between: Seq<u8>,
    source: Seq<u8>,
    destination: Seq<u8>,
    options: Seq<u8>,
    payload: Seq<u8>,
) -> Seq<u8> {
    seq![(0x40 + words) as u8] + before + seq![protocol] + between + source + destination + options
        + payload
}

/// Of every packet of IPv4 the headers name the source and the destination, however long the
/// options are; and the ports stand at the front of what TCP and UDP carry.
pub proof fn law_v4_packet_is_read(
    t: FiveTuple,
    words: u8,
    before: Seq<u8>,
    protocol: u8,
    between: Seq<u8>,
    source: Seq<u8>,
    destination: Seq<u8>,
    options: Seq<u8>,
    payload: Seq<u8>,
)
    requires
        5 <= words < 16,
        before.len() == 8,
        between.len() == 2,
        source.len() == 4,
        destination.len() == 4,
        options.len() == 4 * (words - 5),
    ensures
        ({
            let b = packet_v4(
                words,
                before,
                protocol,
                between,
                source,
                destination,
                options,
                payload,
            );
            &&& has_headers(b)
            &&& is_five_tuple(t, b) ==> {
                &&& t.src_ip is V4
                &&& t.dst_ip is V4
                &&& t.src_ip.octets() == source
                &&& t.dst_ip.octets() == destination
                &&& (protocol == 6 || protocol == 17) && payload.len() >= 4 ==> {
                    &&& t.src_port == Some((0x100 * payload[0] + payload[1]) as u16)
                    &&& t.dst_port == Some((0x100 * payload[2] + payload[3]) as u16)
                }
                &&& (protocol != 6 && protocol != 17) || payload.len() < 4 ==> t.src_port is None
                    && t.dst_port is None
                &&& protocol == 6 ==> t.protocol@ == "TCP"@
                &&& protocol == 17 ==> t.protocol@ == "UDP"@
                &&& protocol == 1 && payload.len() < 2 ==> t.protocol@ == "ICMP"@
                &&& protocol == 1 && payload.len() >= 2 ==> t.protocol@ == "ICMP"@ + " (type="@
                    + text::decimal_text(payload[0] as nat) + ", code="@ + text::decimal_text(
                    payload[1] as nat,
                ) + ")"@
                &&& protocol != 1 && protocol != 6 && protocol != 17 ==> t.protocol@ == "PROTO-"@
                    + text::decimal_text(protocol as nat)
            }
        }),
{
    let b = packet_v4(words, before, protocol, between, source, destination, options, payload);
    let n = 4 * words;
    assert(b[0] == 0x40 + words);
    assert(b[9] == protocol);
    assert(b.subrange(12, 16) =~= source);
    assert(b.subrange(16, 20) =~= destination);
    assert(b.len() == n + payload.len());
    assert(forall|i: int| 0 <= i < payload.len() ==> b[n + i] == payload[i]);
    assert(header_len(b) == n);
    if payload.len() >= 1 {
        assert(b[n + 0] == payload[0]);
    }
    if payload.len() >= 2 {
        assert(b[n + 1] == payload[1]);
    }
    if payload.len() >= 4 {
        assert(b[n + 2] == payload[2] && b[n + 3] == payload[3]);
    }
}

/// A packet of IPv6.
pub open spec fn packet_v6(
    first: u8,
    before: Seq<u8>,
    protocol: u8,
    limit: u8,
    source: Seq<u8>,
    destination: Seq<u8>,
    payload: Seq<u8>,
) -> Seq<u8> {
    seq![first] + before + seq![protocol, limit] + source + destination + payload
}

/// Of every packet of IPv6 the header names the source and the destination; and the ports stand at
/// the front of what TCP and UDP carry.
pub proof fn law_v6_packet_is_read(
    t: FiveTuple,
    first: u8,
    before: Seq<u8>,
    protocol: u8,
    limit: u8,
    source: Seq<u8>,
    destination: Seq<u8>,
    payload: Seq<u8>,
)
    requires
        0x60 <= first < 0x70,
        before.len() == 5,
        source.len() == 16,
        destination.len() == 16,
    ensures
        ({
            let b = packet_v6(first, before, protocol, limit, source, destination, payload);
            &&& has_headers(b)
            &&& is_five_tuple(t, b) ==> {
                &&& t.src_ip is V6
                &&& t.dst_ip is V6
                &&& t.src_ip.octets() == source
                &&& t.dst_ip.octets() == destination
                &&& (protocol == 6 || protocol == 17) && payload.len() >= 4 ==> {
                    &&& t.src_port == Some((0x100 * payload[0] + payload[1]) as u16)
                    &&& t.dst_port == Some((0x100 * payload[2] + payload[3]) as u16)
                }
                &&& (protocol != 6 && protocol != 17) || payload.len() < 4 ==> t.src_port is None
                    && t.dst_port is None
                &&& protocol == 6 ==> t.protocol@ == "TCP"@
                &&& protocol == 17 ==> t.protocol@ == "UDP"@
                &&& protocol == 58 && payload.len() < 2 ==> t.protocol@ == "ICMPv6"@
                &&& protocol == 58 && payload.len() >= 2 ==> t.protocol@ == "ICMPv6"@ + " (type="@
                    + text::decimal_text(payload[0] as nat) + ", code="@ + text::decimal_text(
                    payload[1] as nat,
                ) + ")"@
                &&& protocol != 6 && protocol != 17 && protocol != 58 ==> t.protocol@ == "PROTO-"@
                    + text::decimal_text(protocol as nat)
            }
        }),
{
    let b = packet_v6(first, before, protocol, limit, source, destination, payload);
    assert(b[0] == first);
    assert(b[6] == protocol);
    assert(b.subrange(8, 24) =~= source);
    assert(b.subrange(24, 40) =~= destination);
    assert(forall|i: int| 0 <= i < payload.len() ==> b[40 + i] == payload[i]);
    if payload.len() >= 1 {
        assert(b[40] == payload[0]);
    }
    if payload.len() >= 2 {
        assert(b[41] == payload[1]);
    }
    if payload.len() >= 4 {
        assert(b[42] == payload[2] && b[43] == payload[3]);
    }
}

/// Bytes that are no packet of either version, or too short for a header, name nobody.
pub proof fn law_others_name_nobody(b: Seq<u8>)
    requires
        b.len() == 0 || (b[0] / 16 != 4 && b[0] / 16 != 6) || b.len() < 20 || (b[0] / 16 == 6
            && b.len() < 40),
    ensures
        !has_headers(b),
{
}

} // verus!
