//! What a listing of packets shows.
use vstd::prelude::*;
use crate::bytes;
use crate::packet_parser;
use crate::packet_parser::PacketParser;
use crate::ringbuffer::scan::PacketData;
use crate::text;
use crate::utils;
use crate::utils::DumpStyle;

verus! {

/// How many bytes of a packet are listed.
pub const MAX_DUMP: usize = 64;

/// An IPv4 address in dotted decimal.
pub open spec fn dotted(b: Seq<u8>, at: int) -> Seq<char> {
    text::decimal_text(b[at] as nat) + (seq!['.'] + (text::decimal_text(b[at + 1] as nat) + (
    seq!['.'] + (text::decimal_text(b[at + 2] as nat) + (seq!['.'] + text::decimal_text(
        b[at + 3] as nat,
    ))))))
}

/// The header of a packet that can be listed: IPv4, with both ports where the protocol has them.
pub open spec fn listable(b: Seq<u8>) -> bool {
    &&& b.len() >= 20
    &&& b[0] / 16 == 4
    &&& b.len() >= packet_parser::header_len(b)
    &&& (b[9] == 6 || b[9] == 17) ==> b.len() >= packet_parser::header_len(b) + 4
}

/// How a listing names a protocol.
pub open spec fn protocol_name(protocol: u8) -> Seq<char> {
    if protocol == 6 {
        "TCP"@
    } else if protocol == 17 {
        "UDP"@
    } else if protocol == 1 {
        "ICMP"@
    } else {
        "UNKNOWN"@
    }
}

/// A port of a packet of TCP or UDP; 0 for others.
pub open spec fn port(b: Seq<u8>, at: int) -> u16 {
    if b[9] == 6 || b[9] == 17 {
        bytes::be16(b, at)
    } else {
        0
    }
}

fn get(data: &PacketData, idx: usize) -> (b: u8)
    requires
        idx < data.bytes().len(),
    ensures
        b == data.bytes()[idx as int],
{
    match PacketParser::get_byte(data, idx) {
        Some(b) => b,
        None => 0,
    }
}

proof fn lemma_join(o: Seq<char>, a: Seq<char>, b: Seq<char>)
    ensures
        (o + a) + b == o + (a + b),
{
    assert((o + a) + b =~= o + (a + b));
}

fn push_dot(out: &mut String)
    ensures
        final(out)@ == old(out)@ + seq!['.'],
{
    out.push('.');
    assert(out@ =~= old(out)@ + seq!['.']);
}

fn dotted_text(data: &PacketData, at: usize) -> (s: String)
    requires
        at + 4 <= data.bytes().len(),
        at <= 64,
    ensures
        s@ == dotted(data.bytes(), at as int),
{
    let mut s = String::new();
    text::push_decimal(&mut s, get(data, at) as u64);
    let ghost o1 = s@;
    push_dot(&mut s);
    let ghost o2 = s@;
    text::push_decimal(&mut s, get(data, at + 1) as u64);
    let ghost o3 = s@;
    push_dot(&mut s);
    let ghost o4 = s@;
    text::push_decimal(&mut s, get(data, at + 2) as u64);
    let ghost o5 = s@;
    push_dot(&mut s);
    text::push_decimal(&mut s, get(data, at + 3) as u64);
    proof {
        let b = data.bytes();
        let dot = seq!['.'];
        let d0 = text::decimal_text(b[at as int] as nat);
        let d1 = text::decimal_text(b[at + 1] as nat);
        let d2 = text::decimal_text(b[at + 2] as nat);
        let d3 = text::decimal_text(b[at + 3] as nat);
        assert(o1 =~= d0);
        lemma_join(o5, dot, d3);
        lemma_join(o4, d2, dot + d3);
        lemma_join(o3, dot, d2 + (dot + d3));
        lemma_join(o2, d1, dot + (d2 + (dot + d3)));
        lemma_join(o1, dot, d1 + (dot + (d2 + (dot + d3))));
    }
    s
}

/// What is listed of a packet.
pub open spec fn listed(b: Seq<u8>) -> (Seq<char>, u16, Seq<char>, u16, Seq<char>) {
    let start = packet_parser::header_len(b);
    (
        dotted(b, 12),
        port(b, start),
        dotted(b, 16),
        port(b, start + 2),
        protocol_name(b[9]),
    )
}

/// Source and destination of a packet with their ports, and the name of the protocol; none for
/// packets that are not listed this way.
pub fn extract_5tuple(data: &PacketData) -> (r: Option<(String, u16, String, u16, &'static str)>)
    requires
        data.bytes().len() <= usize::MAX,
    ensures
        match r {
            None => !listable(data.bytes()),
            Some((src_ip, src_port, dst_ip, dst_port, protocol)) => {
                &&& listable(data.bytes())
                &&& (src_ip@, src_port, dst_ip@, dst_port, protocol@) == listed(data.bytes())
            },
        },
{
    let len: usize = data.len();
    if len < 20 {
        return None;
    }
    let vhl: u8 = get(data, 0);
    if vhl / 16 != 4 {
        return None;
    }
    let ihl: usize = (vhl % 16) as usize * 4;
    if len < ihl {
        return None;
    }
    let protocol: u8 = get(data, 9);
    let src_ip: String = dotted_text(data, 12);
    let dst_ip: String = dotted_text(data, 16);
    if protocol == 6 || protocol == 17 {
        if len < ihl + 4 {
            return None;
        }
        let name: &'static str = if protocol == 6 {
            "TCP"
        } else {
            "UDP"
        };
        match (PacketParser::get_u16(data, ihl), PacketParser::get_u16(data, ihl + 2)) {
            (Some(src_port), Some(dst_port)) => Some((src_ip, src_port, dst_ip, dst_port, name)),
            _ => None,
        }
    } else if protocol == 1 {
        Some((src_ip, 0, dst_ip, 0, "ICMP"))
    } else {
        Some((src_ip, 0, dst_ip, 0, "UNKNOWN"))
    }
}

/// A plain dump of the start of a packet.
pub fn print_hexdump(data: &PacketData) -> (out: String)
    requires
        data.bytes().len() <= usize::MAX,
    ensures
        out@ == utils::dump_text(DumpStyle::Plain, data, 64),
{
    utils::dump(DumpStyle::Plain, data, MAX_DUMP)
}

/// Of a packet of TCP or UDP the source and the destination are listed with their ports; of another
/// one, without.
pub proof fn law_listing_names_both_ends(
    words: u8,
    before: Seq<u8>,
    protocol: u8,
    between: Seq<u8>,
    source: Seq<u8>,
    destination: Seq<u8>,
    options: Seq<u8>,
    payload: Seq<u8>,
)
    requires
        5 <= words < 16,
        before.len() == 8,
        between.len() == 2,
        source.len() == 4,
        destination.len() == 4,
        options.len() == 4 * (words - 5),
        payload.len() >= 4,
    ensures
        ({
            let b = packet_parser::packet_v4(
                words,
                before,
                protocol,
                between,
                source,
                destination,
                options,
                payload,
            );
            let (src, sport, dst, dport, name) = listed(b);
            &&& listable(b)
            &&& src == text::dotted(
                source[0],
                source[1],
                source[2],
                source[3],
            )
            &&& dst == text::dotted(
                destination[0],
                destination[1],
                destination[2],
                destination[3],
            )
            &&& protocol == 6 || protocol == 17 ==> sport == 0x100 * payload[0] + payload[1]
                && dport == 0x100 * payload[2] + payload[3]
            &&& protocol != 6 && protocol != 17 ==> sport == 0 && dport == 0
            &&& protocol == 6 ==> name == "TCP"@
            &&& protocol == 17 ==> name == "UDP"@
            &&& protocol == 1 ==> name == "ICMP"@
        }),
{
    let b = packet_parser::packet_v4(
        words,
        before,
        protocol,
        between,
        source,
        destination,
        options,
        payload,
    );
    let n = 4 * words;
    assert(b[0] == 0x40 + words);
    assert(b[9] == protocol);
    assert(b.subrange(12, 16) =~= source);
    assert(b.subrange(16, 20) =~= destination);
    assert forall|i: int| 0 <= i < 4 implies b[12 + i] == source[i] && b[16 + i]
        == destination[i] by {
        assert(b.subrange(12, 16)[i] == source[i]);
        assert(b.subrange(16, 20)[i] == destination[i]);
    }
    assert(packet_parser::header_len(b) == n);
    assert(b[n + 0] == payload[0] && b[n + 1] == payload[1] && b[n + 2] == payload[2] && b[n + 3]
        == payload[3]);
    assert(b[12] == source[0] && b[13] == source[1] && b[14] == source[2] && b[15] == source[3]);
    assert(b[16] == destination[0] && b[17] == destination[1] && b[18] == destination[2] && b[19]
        == destination[3]);
    let (src, sport, dst, dport, name) = listed(b);
    assert(src =~= text::dotted(
        source[0],
        source[1],
        source[2],
        source[3],
    ));
    assert(dst =~= text::dotted(
        destination[0],
        destination[1],
        destination[2],
        destination[3],
    ));
}

} // verus!
