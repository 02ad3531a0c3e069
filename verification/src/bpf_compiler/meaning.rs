//! What filters accept, said of their characters and of the bytes of packets.
use vstd::prelude::*;
use crate::bpf_compiler::codegen;
use crate::bpf_compiler::compiled;
use crate::bpf_compiler::expression;
use crate::bpf_compiler::is_trivial;
use crate::bpf_compiler::parser;
use crate::bpf_compiler::parser::{Dir, Expr};
use crate::bpf_compiler::reach;
use crate::bpf_compiler::semantics;
use crate::bpf_compiler::spelling;
use crate::bpf_compiler::token;
use crate::bpf_compiler::token::Tok;
use crate::bytes;
use crate::network::bpf;
use crate::text;
use crate::types;
use crate::types::DivertAddress;

verus! {

/// The filter compiles, and its program returns all ones on a packet where `yes`, and zero where
/// not.
pub open spec fn answers(
    filter: Seq<char>,
    packet: Seq<u8>,
    address: DivertAddress,
    yes: bool,
) -> bool {
    compiled(filter) matches Ok(p) && bpf::verdict(p, bpf::Input { packet, address }) == (if yes {
        u32::MAX
    } else {
        0
    })
}

/// A filter that stands for an expression answers it.
proof fn lemma_answers(filter: Seq<char>, e: Expr, packet: Seq<u8>, address: DivertAddress)
    requires
        expression(filter) == Ok::<Expr, Seq<char>>(e),
        filter.len() <= 84,
    ensures
        answers(
            filter,
            packet,
            address,
            semantics::holds(e, bpf::Input { packet, address }) == Some(true),
        ),
{
    reach::law_short_filters_compile(filter);
    reach::lemma_labels_of_text(filter);
    if is_trivial(filter) {
        spelling::lemma_trivial(filter);
    }
    let p = compiled(filter)->Ok_0;
    semantics::law_compiled_filter_decides(e, p, bpf::Input { packet, address });
}

/// Tokens that are one test are that test.
proof fn lemma_one_test(t: Seq<Tok>, e: Expr)
    requires
        t.len() > 0,
        t[0] != Tok::Not,
        t[0] != Tok::LParen,
        parser::primitive_at(t, 0) == Ok::<(Expr, int), Seq<char>>((e, t.len() as int)),
    ensures
        parser::parsed(t) == Ok::<Expr, Seq<char>>(e),
{
    let n = t.len() as int;
    assert(parser::factor_at(t, 0) == Ok::<(Expr, int), Seq<char>>((e, n)));
    assert(parser::term_tail(t, n, e) == Ok::<(Expr, int), Seq<char>>((e, n)));
    assert(parser::term_at(t, 0) == Ok::<(Expr, int), Seq<char>>((e, n)));
    assert(parser::expr_tail(t, n, e) == Ok::<(Expr, int), Seq<char>>((e, n)));
    assert(parser::expr_at(t, 0) == Ok::<(Expr, int), Seq<char>>((e, n)));
}

proof fn lemma_word_tcp()
    ensures
        token::tokens_of("tcp"@) == Ok::<Seq<Tok>, Seq<char>>(seq![Tok::Tcp]),
        "tcp"@.len() == 3,
{
    reveal_strlit("tcp");
    spelling::lemma_one_word("tcp"@);
    assert(text::lowercase("tcp"@) =~= "tcp"@);
    reveal_strlit("and");
    assert("and"@[0] != "tcp"@[0]);
    reveal_strlit("or");
    reveal_strlit("not");
    assert("not"@[0] != "tcp"@[0]);
}

proof fn lemma_word_udp()
    ensures
        token::tokens_of("udp"@) == Ok::<Seq<Tok>, Seq<char>>(seq![Tok::Udp]),
        "udp"@.len() == 3,
{
    reveal_strlit("udp");
    spelling::lemma_one_word("udp"@);
    assert(text::lowercase("udp"@) =~= "udp"@);
    reveal_strlit("and");
    assert("and"@[0] != "udp"@[0]);
    reveal_strlit("or");
    reveal_strlit("not");
    assert("not"@[0] != "udp"@[0]);
    reveal_strlit("tcp");
    assert("tcp"@[0] != "udp"@[0]);
}

proof fn lemma_word_icmp()
    ensures
        token::tokens_of("icmp"@) == Ok::<Seq<Tok>, Seq<char>>(seq![Tok::Icmp]),
        "icmp"@.len() == 4,
{
    reveal_strlit("icmp");
    spelling::lemma_one_word("icmp"@);
    assert(text::lowercase("icmp"@) =~= "icmp"@);
    reveal_strlit("and");
    reveal_strlit("or");
    reveal_strlit("not");
    reveal_strlit("tcp");
    reveal_strlit("udp");
}

proof fn lemma_word_ip()
    ensures
        token::tokens_of("ip"@) == Ok::<Seq<Tok>, Seq<char>>(seq![Tok::Ip]),
        "ip"@.len() == 2,
{
    reveal_strlit("ip");
    spelling::lemma_one_word("ip"@);
    assert(text::lowercase("ip"@) =~= "ip"@);
    reveal_strlit("and");
    reveal_strlit("or");
    assert("or"@[0] != "ip"@[0]);
    reveal_strlit("not");
    reveal_strlit("tcp");
    reveal_strlit("udp");
    reveal_strlit("icmp");
}

proof fn lemma_word_port()
    ensures
        token::tokens_of("port"@) == Ok::<Seq<Tok>, Seq<char>>(seq![Tok::Port]),
        "port"@.len() == 4,
{
    reveal_strlit("port");
    spelling::lemma_one_word("port"@);
    assert(text::lowercase("port"@) =~= "port"@);
    reveal_strlit("and");
    reveal_strlit("or");
    reveal_strlit("not");
    reveal_strlit("tcp");
    reveal_strlit("udp");
    reveal_strlit("icmp");
    assert("icmp"@[0] != "port"@[0]);
    reveal_strlit("ip");
}

proof fn lemma_word_host()
    ensures
        token::tokens_of("host"@) == Ok::<Seq<Tok>, Seq<char>>(seq![Tok::Host]),
        "host"@.len() == 4,
{
    reveal_strlit("host");
    spelling::lemma_one_word("host"@);
    assert(text::lowercase("host"@) =~= "host"@);
    reveal_strlit("and");
    reveal_strlit("or");
    reveal_strlit("not");
    reveal_strlit("tcp");
    reveal_strlit("udp");
    reveal_strlit("icmp");
    assert("icmp"@[0] != "host"@[0]);
    reveal_strlit("ip");
    reveal_strlit("port");
    assert("port"@[0] != "host"@[0]);
}

proof fn lemma_word_src()
    ensures
        token::tokens_of("src"@) == Ok::<Seq<Tok>, Seq<char>>(seq![Tok::Src]),
        "src"@.len() == 3,
{
    reveal_strlit("src");
    spelling::lemma_one_word("src"@);
    assert(text::lowercase("src"@) =~= "src"@);
    reveal_strlit("and");
    assert("and"@[0] != "src"@[0]);
    reveal_strlit("or");
    reveal_strlit("not");
    assert("not"@[0] != "src"@[0]);
    reveal_strlit("tcp");
    assert("tcp"@[0] != "src"@[0]);
    reveal_strlit("udp");
    assert("udp"@[0] != "src"@[0]);
    reveal_strlit("icmp");
    reveal_strlit("ip");
    reveal_strlit("port");
    reveal_strlit("host");
}

proof fn lemma_word_dst()
    ensures
        token::tokens_of("dst"@) == Ok::<Seq<Tok>, Seq<char>>(seq![Tok::Dst]),
        "dst"@.len() == 3,
{
    reveal_strlit("dst");
    spelling::lemma_one_word("dst"@);
    assert(text::lowercase("dst"@) =~= "dst"@);
    reveal_strlit("and");
    assert("and"@[0] != "dst"@[0]);
    reveal_strlit("or");
    reveal_strlit("not");
    assert("not"@[0] != "dst"@[0]);
    reveal_strlit("tcp");
    assert("tcp"@[0] != "dst"@[0]);
    reveal_strlit("udp");
    assert("udp"@[0] != "dst"@[0]);
    reveal_strlit("icmp");
    reveal_strlit("ip");
    reveal_strlit("port");
    reveal_strlit("host");
    reveal_strlit("src");
    assert("src"@[0] != "dst"@[0]);
}

proof fn lemma_word_outbound()
    ensures
        token::tokens_of("outbound"@) == Ok::<Seq<Tok>, Seq<char>>(seq![Tok::Outbound]),
        "outbound"@.len() == 8,
{
    reveal_strlit("outbound");
    spelling::lemma_one_word("outbound"@);
    assert(text::lowercase("outbound"@) =~= "outbound"@);
    reveal_strlit("and");
    reveal_strlit("or");
    reveal_strlit("not");
    reveal_strlit("tcp");
    reveal_strlit("udp");
    reveal_strlit("icmp");
    reveal_strlit("ip");
    reveal_strlit("port");
    reveal_strlit("host");
    reveal_strlit("src");
    reveal_strlit("dst");
}

proof fn lemma_word_inbound()
    ensures
        token::tokens_of("inbound"@) == Ok::<Seq<Tok>, Seq<char>>(seq![Tok::Inbound]),
        "inbound"@.len() == 7,
{
    reveal_strlit("inbound");
    spelling::lemma_one_word("inbound"@);
    assert(text::lowercase("inbound"@) =~= "inbound"@);
    reveal_strlit("and");
    reveal_strlit("or");
    reveal_strlit("not");
    reveal_strlit("tcp");
    reveal_strlit("udp");
    reveal_strlit("icmp");
    reveal_strlit("ip");
    reveal_strlit("port");
    reveal_strlit("host");
    reveal_strlit("src");
    reveal_strlit("dst");
    reveal_strlit("outbound");
}

proof fn lemma_word_loopback()
    ensures
        token::tokens_of("loopback"@) == Ok::<Seq<Tok>, Seq<char>>(seq![Tok::Loopback]),
        "loopback"@.len() == 8,
{
    reveal_strlit("loopback");
    spelling::lemma_one_word("loopback"@);
    assert(text::lowercase("loopback"@) =~= "loopback"@);
    reveal_strlit("and");
    reveal_strlit("or");
    reveal_strlit("not");
    reveal_strlit("tcp");
    reveal_strlit("udp");
    reveal_strlit("icmp");
    reveal_strlit("ip");
    reveal_strlit("port");
    reveal_strlit("host");
    reveal_strlit("src");
    reveal_strlit("dst");
    reveal_strlit("outbound");
    assert("outbound"@[0] != "loopback"@[0]);
    reveal_strlit("inbound");
}

proof fn lemma_word_impostor()
    ensures
        token::tokens_of("impostor"@) == Ok::<Seq<Tok>, Seq<char>>(seq![Tok::Impostor]),
        "impostor"@.len() == 8,
{
    reveal_strlit("impostor");
    spelling::lemma_one_word("impostor"@);
    assert(text::lowercase("impostor"@) =~= "impostor"@);
    reveal_strlit("and");
    reveal_strlit("or");
    reveal_strlit("not");
    reveal_strlit("tcp");
    reveal_strlit("udp");
    reveal_strlit("icmp");
    reveal_strlit("ip");
    reveal_strlit("port");
    reveal_strlit("host");
    reveal_strlit("src");
    reveal_strlit("dst");
    reveal_strlit("outbound");
    assert("outbound"@[0] != "impostor"@[0]);
    reveal_strlit("inbound");
    reveal_strlit("loopback");
    assert("loopback"@[0] != "impostor"@[0]);
}

proof fn lemma_word_ifindex()
    ensures
        token::tokens_of("ifindex"@) == Ok::<Seq<Tok>, Seq<char>>(seq![Tok::IfIndex]),
        "ifindex"@.len() == 7,
{
    reveal_strlit("ifindex");
    spelling::lemma_one_word("ifindex"@);
    assert(text::lowercase("ifindex"@) =~= "ifindex"@);
    reveal_strlit("and");
    reveal_strlit("or");
    reveal_strlit("not");
    reveal_strlit("tcp");
    reveal_strlit("udp");
    reveal_strlit("icmp");
    reveal_strlit("ip");
    reveal_strlit("port");
    reveal_strlit("host");
    reveal_strlit("src");
    reveal_strlit("dst");
    reveal_strlit("outbound");
    reveal_strlit("inbound");
    assert("inbound"@[1] != "ifindex"@[1]);
    reveal_strlit("loopback");
    reveal_strlit("impostor");
}

proof fn lemma_word_sub_ifindex()
    ensures
        token::tokens_of("sub_ifindex"@) == Ok::<Seq<Tok>, Seq<char>>(seq![Tok::SubIfIndex]),
        "sub_ifindex"@.len() == 11,
{
    reveal_strlit("sub_ifindex");
    spelling::lemma_one_word("sub_ifindex"@);
    assert(text::lowercase("sub_ifindex"@) =~= "sub_ifindex"@);
    reveal_strlit("and");
    reveal_strlit("or");
    reveal_strlit("not");
    reveal_strlit("tcp");
    reveal_strlit("udp");
    reveal_strlit("icmp");
    reveal_strlit("ip");
    reveal_strlit("port");
    reveal_strlit("host");
    reveal_strlit("src");
    reveal_strlit("dst");
    reveal_strlit("outbound");
    reveal_strlit("inbound");
    reveal_strlit("loopback");
    reveal_strlit("impostor");
    reveal_strlit("ifindex");
}

/// The filter `tcp` accepts the packets whose tenth byte, the protocol of the IP header, is 6.
pub proof fn law_tcp(packet: Seq<u8>, address: DivertAddress)
    ensures
        answers("tcp"@, packet, address, packet.len() > 9 && packet[9] == 6),
{
    lemma_word_tcp();
    lemma_one_test(seq![Tok::Tcp], Expr::Tcp);
    lemma_answers("tcp"@, Expr::Tcp, packet, address);
}

/// The filter `udp` accepts the packets whose tenth byte is 17.
pub proof fn law_udp(packet: Seq<u8>, address: DivertAddress)
    ensures
        answers("udp"@, packet, address, packet.len() > 9 && packet[9] == 17),
{
    lemma_word_udp();
    lemma_one_test(seq![Tok::Udp], Expr::Udp);
    lemma_answers("udp"@, Expr::Udp, packet, address);
}

/// The filter `icmp` accepts the packets whose tenth byte is 1.
pub proof fn law_icmp(packet: Seq<u8>, address: DivertAddress)
    ensures
        answers("icmp"@, packet, address, packet.len() > 9 && packet[9] == 1),
{
    lemma_word_icmp();
    lemma_one_test(seq![Tok::Icmp], Expr::Icmp);
    lemma_answers("icmp"@, Expr::Icmp, packet, address);
}

/// The filter `ip` accepts the packets whose first four bits, the version of IP, are a four.
pub proof fn law_ip(packet: Seq<u8>, address: DivertAddress)
    ensures
        answers("ip"@, packet, address, packet.len() > 0 && packet[0] / 16 == 4),
{
    lemma_word_ip();
    lemma_one_test(seq![Tok::Ip], Expr::Ip);
    lemma_answers("ip"@, Expr::Ip, packet, address);
}

/// The filter `outbound` accepts what carries bit 17 in the flags of its address.
pub proof fn law_outbound(packet: Seq<u8>, address: DivertAddress)
    ensures
        answers("outbound"@, packet, address, address.flags & 0x0002_0000 != 0),
{
    lemma_word_outbound();
    lemma_one_test(seq![Tok::Outbound], Expr::Outbound);
    lemma_answers("outbound"@, Expr::Outbound, packet, address);
    lemma_flags(address.flags);
}

/// The filter `inbound` accepts what does not carry bit 17 in the flags of its address.
pub proof fn law_inbound(packet: Seq<u8>, address: DivertAddress)
    ensures
        answers("inbound"@, packet, address, address.flags & 0x0002_0000 == 0),
{
    lemma_word_inbound();
    lemma_one_test(seq![Tok::Inbound], Expr::Inbound);
    lemma_answers("inbound"@, Expr::Inbound, packet, address);
    lemma_flags(address.flags);
}

/// The filter `loopback` accepts what carries bit 18 in the flags of its address.
pub proof fn law_loopback(packet: Seq<u8>, address: DivertAddress)
    ensures
        answers("loopback"@, packet, address, address.flags & 0x0004_0000 != 0),
{
    lemma_word_loopback();
    lemma_one_test(seq![Tok::Loopback], Expr::Loopback);
    lemma_answers("loopback"@, Expr::Loopback, packet, address);
    lemma_flags(address.flags);
}

/// The filter `impostor` accepts what carries bit 19 in the flags of its address.
pub proof fn law_impostor(packet: Seq<u8>, address: DivertAddress)
    ensures
        answers("impostor"@, packet, address, address.flags & 0x0008_0000 != 0),
{
    lemma_word_impostor();
    lemma_one_test(seq![Tok::Impostor], Expr::Impostor);
    lemma_answers("impostor"@, Expr::Impostor, packet, address);
    lemma_flags(address.flags);
}

proof fn lemma_flags(flags: u32)
    ensures
        types::flag_bit(flags, 17) == (flags & 0x0002_0000 != 0),
        types::flag_bit(flags, 18) == (flags & 0x0004_0000 != 0),
        types::flag_bit(flags, 19) == (flags & 0x0008_0000 != 0),
{
    assert(((flags >> 17) & 1 == 1) == (flags & 0x0002_0000 != 0) && ((flags >> 18) & 1 == 1) == (
    flags & 0x0004_0000 != 0) && ((flags >> 19) & 1 == 1) == (flags & 0x0008_0000 != 0))
        by (bit_vector);
}

/// A word of digits and dots is no keyword.
proof fn lemma_number_word(w: Seq<char>)
    requires
        w.len() > 0,
        forall|i: int| 0 <= i < w.len() ==> text::is_digit(#[trigger] w[i]) || w[i] == '.',
    ensures
        token::tokens_of(w) == Ok::<Seq<Tok>, Seq<char>>(seq![Tok::Ident(w)]),
{
    spelling::lemma_one_word(w);
    assert(text::all_ascii(w));
    assert(text::lowercase(w) =~= w);
    assert(text::is_digit(w[0]) || w[0] == '.');
    reveal_strlit("and");
    reveal_strlit("or");
    reveal_strlit("not");
    reveal_strlit("tcp");
    reveal_strlit("udp");
    reveal_strlit("icmp");
    reveal_strlit("ip");
    reveal_strlit("port");
    reveal_strlit("host");
    reveal_strlit("src");
    reveal_strlit("dst");
    reveal_strlit("outbound");
    reveal_strlit("inbound");
    reveal_strlit("loopback");
    reveal_strlit("impostor");
    reveal_strlit("ifindex");
    reveal_strlit("sub_ifindex");
}

/// A keyword, a space and a word.
proof fn lemma_two_words(k: Seq<char>, t: Tok, w: Seq<char>, u: Seq<Tok>)
    requires
        token::tokens_of(k) == Ok::<Seq<Tok>, Seq<char>>(seq![t]),
        token::tokens_of(w) == Ok::<Seq<Tok>, Seq<char>>(u),
    ensures
        token::tokens_of(k + (seq![' '] + w)) == Ok::<Seq<Tok>, Seq<char>>(seq![t] + u),
{
    spelling::lemma_tokens_joined(k, seq![' '] + w);
    spelling::lemma_space_in_front(' ', w);
}

/// The two bytes at `i`, the first one the more significant.
pub open spec fn number_at(packet: Seq<u8>, i: int) -> int {
    256 * packet[i] + packet[i + 1]
}

/// Where the IP header of a packet ends: its length is the lower half of the first byte, in words
/// of four bytes.
pub open spec fn header_end(packet: Seq<u8>) -> int {
    4 * (packet[0] % 16)
}

/// The packet holds the number `n` at `i`.
pub open spec fn has_number(packet: Seq<u8>, i: int, n: u16) -> bool {
    i + 2 <= packet.len() && number_at(packet, i) == n
}

/// The filter `src port n` accepts the packets whose first two bytes behind the IP header are `n`.
pub proof fn law_src_port(n: u16, packet: Seq<u8>, address: DivertAddress)
    ensures
        answers(
            "src port "@ + text::decimal_text(n as nat),
            packet,
            address,
            packet.len() > 0 && has_number(packet, header_end(packet), n),
        ),
{
    let w = text::decimal_text(n as nat);
    text::lemma_decimal_text(n as nat);
    text::law_decimal_reads_back(n as nat, 0xffff);
    lemma_number_word(w);
    lemma_word_src();
    lemma_word_port();
    lemma_two_words("port"@, Tok::Port, w, seq![Tok::Ident(w)]);
    lemma_two_words(
        "src"@,
        Tok::Src,
        "port"@ + (seq![' '] + w),
        seq![Tok::Port] + seq![Tok::Ident(w)],
    );
    reveal_strlit("src port ");
    reveal_strlit("src");
    reveal_strlit("port");
    let filter = "src port "@ + w;
    assert(filter =~= "src"@ + (seq![' '] + ("port"@ + (seq![' '] + w))));
    let t = seq![Tok::Src, Tok::Port, Tok::Ident(w)];
    assert(seq![Tok::Src] + (seq![Tok::Port] + seq![Tok::Ident(w)]) =~= t);
    lemma_one_test(t, Expr::Port(Dir::Src, n));
    lemma_answers(filter, Expr::Port(Dir::Src, n), packet, address);
    lemma_index(address);
}

/// The filter `dst port n` accepts the packets whose third and fourth byte behind the IP header are
/// `n`.
pub proof fn law_dst_port(n: u16, packet: Seq<u8>, address: DivertAddress)
    ensures
        answers(
            "dst port "@ + text::decimal_text(n as nat),
            packet,
            address,
            packet.len() > 0 && has_number(packet, header_end(packet) + 2, n),
        ),
{
    let w = text::decimal_text(n as nat);
    text::lemma_decimal_text(n as nat);
    text::law_decimal_reads_back(n as nat, 0xffff);
    lemma_number_word(w);
    lemma_word_dst();
    lemma_word_port();
    lemma_two_words("port"@, Tok::Port, w, seq![Tok::Ident(w)]);
    lemma_two_words(
        "dst"@,
        Tok::Dst,
        "port"@ + (seq![' '] + w),
        seq![Tok::Port] + seq![Tok::Ident(w)],
    );
    reveal_strlit("dst port ");
    reveal_strlit("dst");
    reveal_strlit("port");
    let filter = "dst port "@ + w;
    assert(filter =~= "dst"@ + (seq![' '] + ("port"@ + (seq![' '] + w))));
    let t = seq![Tok::Dst, Tok::Port, Tok::Ident(w)];
    assert(seq![Tok::Dst] + (seq![Tok::Port] + seq![Tok::Ident(w)]) =~= t);
    lemma_one_test(t, Expr::Port(Dir::Dst, n));
    lemma_answers(filter, Expr::Port(Dir::Dst, n), packet, address);
    lemma_index(address);
}

/// The filter `port n` accepts the packets one of whose ports is `n`.
pub proof fn law_port(n: u16, packet: Seq<u8>, address: DivertAddress)
    ensures
        answers(
            "port "@ + text::decimal_text(n as nat),
            packet,
            address,
            packet.len() > 0 && (has_number(packet, header_end(packet), n) || has_number(
                packet,
                header_end(packet) + 2,
                n,
            )),
        ),
{
    let w = text::decimal_text(n as nat);
    text::lemma_decimal_text(n as nat);
    text::law_decimal_reads_back(n as nat, 0xffff);
    lemma_number_word(w);
    lemma_word_port();
    lemma_two_words("port"@, Tok::Port, w, seq![Tok::Ident(w)]);
    reveal_strlit("port ");
    reveal_strlit("port");
    let filter = "port "@ + w;
    assert(filter =~= "port"@ + (seq![' '] + w));
    let t = seq![Tok::Port, Tok::Ident(w)];
    assert(seq![Tok::Port] + seq![Tok::Ident(w)] =~= t);
    lemma_one_test(t, Expr::Port(Dir::SrcOrDst, n));
    lemma_answers(filter, Expr::Port(Dir::SrcOrDst, n), packet, address);
    lemma_index(address);
}

/// The filter `ifindex n` accepts what carries the interface `n` in its address.
pub proof fn law_ifindex(n: u32, packet: Seq<u8>, address: DivertAddress)
    ensures
        answers(
            "ifindex "@ + text::decimal_text(n as nat),
            packet,
            address,
            address.data.bytes()[0] + 0x100 * address.data.bytes()[1] + 0x1_0000
                * address.data.bytes()[2] + 0x100_0000 * address.data.bytes()[3] == n,
        ),
{
    let w = text::decimal_text(n as nat);
    text::lemma_decimal_text(n as nat);
    text::law_decimal_reads_back(n as nat, u32::MAX as nat);
    lemma_number_word(w);
    lemma_word_ifindex();
    lemma_two_words("ifindex"@, Tok::IfIndex, w, seq![Tok::Ident(w)]);
    reveal_strlit("ifindex ");
    reveal_strlit("ifindex");
    let filter = "ifindex "@ + w;
    assert(filter =~= "ifindex"@ + (seq![' '] + w));
    let t = seq![Tok::IfIndex, Tok::Ident(w)];
    assert(seq![Tok::IfIndex] + seq![Tok::Ident(w)] =~= t);
    lemma_one_test(t, Expr::IfIndex(n));
    lemma_answers(filter, Expr::IfIndex(n), packet, address);
    lemma_index(address);
}

/// The filter `sub_ifindex n` accepts what carries the interface `n` behind the first one in its
/// address.
pub proof fn law_sub_ifindex(n: u32, packet: Seq<u8>, address: DivertAddress)
    ensures
        answers(
            "sub_ifindex "@ + text::decimal_text(n as nat),
            packet,
            address,
            address.data.bytes()[4] + 0x100 * address.data.bytes()[5] + 0x1_0000
                * address.data.bytes()[6] + 0x100_0000 * address.data.bytes()[7] == n,
        ),
{
    let w = text::decimal_text(n as nat);
    text::lemma_decimal_text(n as nat);
    text::law_decimal_reads_back(n as nat, u32::MAX as nat);
    lemma_number_word(w);
    lemma_word_sub_ifindex();
    lemma_two_words("sub_ifindex"@, Tok::SubIfIndex, w, seq![Tok::Ident(w)]);
    reveal_strlit("sub_ifindex ");
    reveal_strlit("sub_ifindex");
    let filter = "sub_ifindex "@ + w;
    assert(filter =~= "sub_ifindex"@ + (seq![' '] + w));
    let t = seq![Tok::SubIfIndex, Tok::Ident(w)];
    assert(seq![Tok::SubIfIndex] + seq![Tok::Ident(w)] =~= t);
    lemma_one_test(t, Expr::SubIfIndex(n));
    lemma_answers(filter, Expr::SubIfIndex(n), packet, address);
    lemma_index(address);
}

proof fn lemma_index(address: DivertAddress)
    ensures
        address.data.bytes().len() == 64,
        bytes::le32(address.data.bytes(), 0) == address.data.bytes()[0] + 0x100
            * address.data.bytes()[1] + 0x1_0000 * address.data.bytes()[2] + 0x100_0000
            * address.data.bytes()[3],
        bytes::le32(address.data.bytes(), 4) == address.data.bytes()[4] + 0x100
            * address.data.bytes()[5] + 0x1_0000 * address.data.bytes()[6] + 0x100_0000
            * address.data.bytes()[7],
{
    reveal(bytes::le32);
}

/// The packet holds these four bytes at `i`.
pub open spec fn has_address(packet: Seq<u8>, i: int, a: u8, b: u8, c: u8, d: u8) -> bool {
    i + 4 <= packet.len() && packet[i] == a && packet[i + 1] == b && packet[i + 2] == c && packet[i
        + 3] == d
}

proof fn lemma_host_text(w: Seq<char>)
    requires
        w.len() > 0,
        w.len() <= 20,
        forall|i: int| 0 <= i < w.len() ==> text::is_digit(#[trigger] w[i]) || w[i] == '.',
    ensures
        token::tokens_of("host "@ + w) == Ok::<Seq<Tok>, Seq<char>>(seq![Tok::Host, Tok::Ident(w)]),
        token::tokens_of("src host "@ + w) == Ok::<Seq<Tok>, Seq<char>>(
            seq![Tok::Src, Tok::Host, Tok::Ident(w)],
        ),
        token::tokens_of("dst host "@ + w) == Ok::<Seq<Tok>, Seq<char>>(
            seq![Tok::Dst, Tok::Host, Tok::Ident(w)],
        ),
        ("host "@ + w).len() <= 84,
        ("src host "@ + w).len() <= 84,
        ("dst host "@ + w).len() <= 84,
{
    lemma_number_word(w);
    lemma_word_host();
    lemma_word_src();
    lemma_word_dst();
    let u = seq![Tok::Host] + seq![Tok::Ident(w)];
    let inner = "host"@ + (seq![' '] + w);
    lemma_two_words("host"@, Tok::Host, w, seq![Tok::Ident(w)]);
    lemma_two_words("src"@, Tok::Src, inner, u);
    lemma_two_words("dst"@, Tok::Dst, inner, u);
    reveal_strlit("host");
    reveal_strlit("src");
    reveal_strlit("dst");
    reveal_strlit("host ");
    reveal_strlit("src host ");
    reveal_strlit("dst host ");
    assert("host "@ + w =~= inner);
    assert("src host "@ + w =~= "src"@ + (seq![' '] + inner));
    assert("dst host "@ + w =~= "dst"@ + (seq![' '] + inner));
    assert(u =~= seq![Tok::Host, Tok::Ident(w)]);
    assert(seq![Tok::Src] + u =~= seq![Tok::Src, Tok::Host, Tok::Ident(w)]);
    assert(seq![Tok::Dst] + u =~= seq![Tok::Dst, Tok::Host, Tok::Ident(w)]);
}

proof fn lemma_dotted(a: u8, b: u8, c: u8, d: u8)
    ensures
        0 < text::dotted(a, b, c, d).len() <= 20,
        forall|i: int|
            0 <= i < text::dotted(a, b, c, d).len() ==> text::is_digit(
                #[trigger] text::dotted(a, b, c, d)[i],
            ) || text::dotted(a, b, c, d)[i] == '.',
{
    let s = text::dotted(a, b, c, d);
    let w = text::decimal_text(a as nat);
    let x = text::decimal_text(b as nat);
    let y = text::decimal_text(c as nat);
    let z = text::decimal_text(d as nat);
    text::lemma_decimal_text(a as nat);
    text::lemma_decimal_text(b as nat);
    text::lemma_decimal_text(c as nat);
    text::lemma_decimal_text(d as nat);
    let i = w.len() as int;
    let j = i + 1 + x.len();
    let k = j + 1 + y.len();
    assert forall|m: int| 0 <= m < s.len() implies text::is_digit(#[trigger] s[m]) || s[m]
        == '.' by {
        if m < i {
            assert(s[m] == w[m]);
        } else if i < m < j {
            assert(s[m] == x[m - i - 1]);
        } else if j < m < k {
            assert(s[m] == y[m - j - 1]);
        } else if k < m {
            assert(s[m] == z[m - k - 1]);
        }
    }
}

proof fn lemma_word_of(packet: Seq<u8>, i: int, a: u8, b: u8, c: u8, d: u8)
    requires
        0 <= i,
        i + 4 <= packet.len(),
    ensures
        (bytes::be32(packet, i) == (a * 0x100_0000 + b * 0x1_0000 + c * 0x100 + d) as u32)
            == has_address(packet, i, a, b, c, d),
{
}

/// The filters `src host` and `dst host` accept the packets whose source, at the thirteenth byte,
/// or destination, behind it, are the four bytes that the filter writes; `host` accepts both.
#[verifier::rlimit(40)]
pub proof fn law_host(a: u8, b: u8, c: u8, d: u8, packet: Seq<u8>, address: DivertAddress)
    ensures
        answers(
            "src host "@ + text::dotted(a, b, c, d),
            packet,
            address,
            has_address(packet, 12, a, b, c, d),
        ),
        answers(
            "dst host "@ + text::dotted(a, b, c, d),
            packet,
            address,
            has_address(packet, 16, a, b, c, d),
        ),
        answers(
            "host "@ + text::dotted(a, b, c, d),
            packet,
            address,
            has_address(packet, 12, a, b, c, d) || has_address(packet, 16, a, b, c, d),
        ),
{
    let w = text::dotted(a, b, c, d);
    let ip = (a * 0x100_0000 + b * 0x1_0000 + c * 0x100 + d) as u32;
    lemma_dotted(a, b, c, d);
    lemma_host_text(w);
    text::law_address_reads_back(a, b, c, d);
    lemma_one_test(seq![Tok::Host, Tok::Ident(w)], Expr::Host(Dir::SrcOrDst, ip));
    lemma_one_test(seq![Tok::Src, Tok::Host, Tok::Ident(w)], Expr::Host(Dir::Src, ip));
    lemma_one_test(seq![Tok::Dst, Tok::Host, Tok::Ident(w)], Expr::Host(Dir::Dst, ip));
    lemma_answers("host "@ + w, Expr::Host(Dir::SrcOrDst, ip), packet, address);
    lemma_answers("src host "@ + w, Expr::Host(Dir::Src, ip), packet, address);
    lemma_answers("dst host "@ + w, Expr::Host(Dir::Dst, ip), packet, address);
    if packet.len() >= 16 {
        lemma_word_of(packet, 12, a, b, c, d);
    }
    if packet.len() >= 20 {
        lemma_word_of(packet, 16, a, b, c, d);
    }
}

/// Tokens in parentheses.
spec fn group(t: Seq<Tok>) -> Seq<Tok> {
    seq![Tok::LParen] + t + seq![Tok::RParen]
}

/// A text in parentheses, and what follows.
proof fn lemma_group_text(a: Seq<char>, ta: Seq<Tok>, rest: Seq<char>, tr: Seq<Tok>)
    requires
        token::tokens_of(a) == Ok::<Seq<Tok>, Seq<char>>(ta),
        token::tokens_of(rest) == Ok::<Seq<Tok>, Seq<char>>(tr),
    ensures
        token::tokens_of("("@ + a + ")"@ + rest) == Ok::<Seq<Tok>, Seq<char>>(group(ta) + tr),
{
    reveal_strlit("(");
    reveal_strlit(")");
    let close = ")"@ + rest;
    let inner = a + close;
    let all = "("@ + inner;
    assert("("@ + a + ")"@ + rest =~= all);
    spelling::lemma_tokens_moved(")"@, rest, 0);
    assert(close[0] == ')');
    spelling::lemma_tokens_joined(a, close);
    spelling::lemma_tokens_moved("("@, inner, 0);
    assert(all[0] == '(');
    assert(seq![Tok::LParen] + (ta + (seq![Tok::RParen] + tr)) =~= group(ta) + tr);
}

/// An expression in parentheses is one factor wherever it stands.
proof fn lemma_group_factor(x: Seq<Tok>, ta: Seq<Tok>, e: Expr, rest: Seq<Tok>)
    requires
        parser::parsed(ta) == Ok::<Expr, Seq<char>>(e),
    ensures
        parser::factor_at(x + group(ta) + rest, x.len() as int) == Ok::<(Expr, int), Seq<char>>(
            (e, (x.len() + ta.len() + 2) as int),
        ),
{
    let n = ta.len() as int;
    let u = ta + seq![Tok::RParen] + rest;
    let front = x + seq![Tok::LParen];
    let t = x + group(ta) + rest;
    assert(t =~= front + u);
    assert forall|i: int| 0 <= i < ta.len() implies spelling::alike(#[trigger] ta[i], u[i]) by {}
    assert(u[n] == Tok::RParen);
    assert forall|i: int| 0 <= i < ta.len() implies spelling::alike(#[trigger] ta[i], ta[i]) by {}
    spelling::lemma_expr_alike(ta, ta, 0);
    spelling::lemma_expr_alike(ta, u, 0);
    spelling::lemma_expr_moved(front, u, 0);
    assert(t[x.len() as int] == Tok::LParen);
    assert(t[x.len() + 1 + n] == Tok::RParen);
}

/// Whether a program accepts a packet.
pub open spec fn accepts(p: Seq<bpf::BpfInsn>, packet: Seq<u8>, address: DivertAddress) -> bool {
    bpf::verdict(p, bpf::Input { packet, address }) == u32::MAX
}

/// A text that stands for an expression compiles if it is short, and its program decides the
/// expression.
proof fn lemma_decides(
    filter: Seq<char>,
    t: Seq<Tok>,
    e: Expr,
    packet: Seq<u8>,
    address: DivertAddress,
)
    requires
        token::tokens_of(filter) == Ok::<Seq<Tok>, Seq<char>>(t),
        parser::parsed(t) == Ok::<Expr, Seq<char>>(e),
        filter.len() <= usize::MAX,
    ensures
        filter.len() <= 84 ==> compiled(filter) is Ok,
        compiled(filter) matches Ok(p) ==> accepts(p, packet, address) == (semantics::holds(
            e,
            bpf::Input { packet, address },
        ) == Some(true)),
{
    if filter.len() <= 84 {
        reach::law_short_filters_compile(filter);
    }
    reach::lemma_labels_of_text(filter);
    if is_trivial(filter) {
        spelling::lemma_trivial(filter);
    }
    match compiled(filter) {
        Ok(p) => {
            semantics::law_compiled_filter_decides(e, p, bpf::Input { packet, address });
        },
        Err(_) => {},
    }
}

/// In a packet of at least 64 bytes every test finds the bytes it looks at.
proof fn lemma_long_packet(e: Expr, input: bpf::Input)
    requires
        input.packet.len() >= 64,
    ensures
        semantics::holds(e, input) is Some,
    decreases e,
{
    match e {
        Expr::And(l, r) => {
            lemma_long_packet(*l, input);
            lemma_long_packet(*r, input);
        },
        Expr::Or(l, r) => {
            lemma_long_packet(*l, input);
            lemma_long_packet(*r, input);
        },
        Expr::Not(i) => {
            lemma_long_packet(*i, input);
        },
        _ => {},
    }
}

/// A filter that compiles and is not one of those that accept everything.
pub open spec fn is_filter(a: Seq<char>) -> bool {
    compiled(a) is Ok && !is_trivial(a) && a.len() <= 1000000
}

/// `not` turns a filter around, on packets that hold the bytes that it looks at.
pub proof fn law_not(a: Seq<char>, packet: Seq<u8>, address: DivertAddress)
    requires
        is_filter(a),
        packet.len() >= 64,
    ensures
        ({
            let filter = "not ("@ + a + ")"@;
            &&& filter.len() <= 84 ==> compiled(filter) is Ok
            &&& compiled(filter) matches Ok(p) ==> accepts(p, packet, address) == !accepts(
                compiled(a)->Ok_0,
                packet,
                address,
            )
        }),
{
    let filter = "not ("@ + a + ")"@;
    let ta = token::tokens_of(a)->Ok_0;
    let e = parser::parsed(ta)->Ok_0;
    lemma_group_text(a, ta, Seq::empty(), Seq::empty());
    let inner = "("@ + a + ")"@ + Seq::empty();
    spelling::lemma_not_in_front(inner);
    reveal_strlit("not ");
    reveal_strlit("not (");
    reveal_strlit("(");
    reveal_strlit(")");
    assert(filter =~= "not "@ + inner);
    let t = seq![Tok::Not] + (group(ta) + Seq::empty());
    lemma_group_factor(seq![Tok::Not], ta, e, Seq::empty());
    assert(t =~= seq![Tok::Not] + group(ta) + Seq::empty());
    let n = t.len() as int;
    let whole = Expr::Not(Box::new(e));
    assert(t[0] == Tok::Not);
    assert(parser::factor_at(t, 0) == Ok::<(Expr, int), Seq<char>>((whole, n)));
    assert(parser::term_tail(t, n, whole) == Ok::<(Expr, int), Seq<char>>((whole, n)));
    assert(parser::expr_tail(t, n, whole) == Ok::<(Expr, int), Seq<char>>((whole, n)));
    lemma_decides(filter, t, whole, packet, address);
    lemma_decides(a, ta, e, packet, address);
    lemma_long_packet(e, bpf::Input { packet, address });
}

/// A text between two others in parentheses.
proof fn lemma_two_groups(
    a: Seq<char>,
    ta: Seq<Tok>,
    sep: Seq<char>,
    w: Seq<char>,
    o: Tok,
    rest: Seq<char>,
    tr: Seq<Tok>,
)
    requires
        token::tokens_of(a) == Ok::<Seq<Tok>, Seq<char>>(ta),
        token::tokens_of(rest) == Ok::<Seq<Tok>, Seq<char>>(tr),
        sep == seq![' '] + w + seq![' '],
        token::tokens_of(w) == Ok::<Seq<Tok>, Seq<char>>(seq![o]),
    ensures
        token::tokens_of("("@ + a + ")"@ + (sep + rest)) == Ok::<Seq<Tok>, Seq<char>>(
            group(ta) + (seq![o] + tr),
        ),
{
    let none = Seq::<char>::empty();
    spelling::lemma_between(none, sep, w, rest, o);
    assert(none + sep + rest =~= sep + rest);
    assert(token::tokens_of(none) == Ok::<Seq<Tok>, Seq<char>>(Seq::empty()));
    assert(Seq::<Tok>::empty() + (seq![o] + tr) =~= seq![o] + tr);
    lemma_group_text(a, ta, sep + rest, seq![o] + tr);
}

proof fn lemma_separators()
    ensures
        " and "@ == seq![' '] + "and"@ + seq![' '],
        " or "@ == seq![' '] + "or"@ + seq![' '],
        token::tokens_of("and"@) == Ok::<Seq<Tok>, Seq<char>>(seq![Tok::And]),
        token::tokens_of("or"@) == Ok::<Seq<Tok>, Seq<char>>(seq![Tok::Or]),
        " and "@.len() == 5,
        " or "@.len() == 4,
        "("@.len() == 1,
        ")"@.len() == 1,
{
    spelling::lemma_operator_words();
    reveal_strlit("and");
    reveal_strlit("or");
    reveal_strlit(" and ");
    reveal_strlit(" or ");
    reveal_strlit("(");
    reveal_strlit(")");
    assert(" and "@ =~= seq![' '] + "and"@ + seq![' ']);
    assert(" or "@ =~= seq![' '] + "or"@ + seq![' ']);
}

/// A filter in parentheses.
pub open spec fn in_parentheses(a: Seq<char>) -> Seq<char> {
    "("@ + a + ")"@
}

/// `and` accepts what both filters accept.
pub proof fn law_and(a: Seq<char>, b: Seq<char>, packet: Seq<u8>, address: DivertAddress)
    requires
        is_filter(a),
        is_filter(b),
    ensures
        ({
            let filter = in_parentheses(a) + " and "@ + in_parentheses(b);
            &&& filter.len() <= 84 ==> compiled(filter) is Ok
            &&& compiled(filter) matches Ok(p) ==> accepts(p, packet, address) == (accepts(
                compiled(a)->Ok_0,
                packet,
                address,
            ) && accepts(compiled(b)->Ok_0, packet, address))
        }),
{
    let filter = in_parentheses(a) + " and "@ + in_parentheses(b);
    let ta = token::tokens_of(a)->Ok_0;
    let tb = token::tokens_of(b)->Ok_0;
    let x = parser::parsed(ta)->Ok_0;
    let y = parser::parsed(tb)->Ok_0;
    let none = Seq::<char>::empty();
    lemma_separators();
    lemma_group_text(b, tb, none, Seq::empty());
    let rest = "("@ + b + ")"@ + none;
    let tr = group(tb) + Seq::<Tok>::empty();
    lemma_two_groups(a, ta, " and "@, "and"@, Tok::And, rest, tr);
    assert(filter =~= "("@ + a + ")"@ + (" and "@ + rest));
    let t = group(ta) + (seq![Tok::And] + tr);
    lemma_joined_groups(ta, x, Tok::And, tb, y);
    assert(t =~= group(ta) + seq![Tok::And] + group(tb));
    lemma_decides(filter, t, Expr::And(Box::new(x), Box::new(y)), packet, address);
    lemma_decides(a, ta, x, packet, address);
    lemma_decides(b, tb, y, packet, address);
}

/// Two expressions in parentheses with an operator between them.
proof fn lemma_joined_groups(ta: Seq<Tok>, x: Expr, o: Tok, tb: Seq<Tok>, y: Expr)
    requires
        parser::parsed(ta) == Ok::<Expr, Seq<char>>(x),
        parser::parsed(tb) == Ok::<Expr, Seq<char>>(y),
        o == Tok::And || o == Tok::Or,
    ensures
        parser::parsed(group(ta) + seq![o] + group(tb)) == Ok::<Expr, Seq<char>>(
            if o == Tok::And {
                Expr::And(Box::new(x), Box::new(y))
            } else {
                Expr::Or(Box::new(x), Box::new(y))
            },
        ),
{
    let t = group(ta) + seq![o] + group(tb);
    let none = Seq::<Tok>::empty();
    let m = (ta.len() + 2) as int;
    let n = t.len() as int;
    lemma_group_factor(none, ta, x, seq![o] + group(tb));
    assert(t =~= none + group(ta) + (seq![o] + group(tb)));
    lemma_group_factor(group(ta) + seq![o], tb, y, none);
    assert(t =~= group(ta) + seq![o] + group(tb) + none);
    assert(t[m] == o);
    assert(parser::factor_at(t, 0) == Ok::<(Expr, int), Seq<char>>((x, m)));
    assert(parser::factor_at(t, m + 1) == Ok::<(Expr, int), Seq<char>>((y, n)));
    if o == Tok::And {
        let e = Expr::And(Box::new(x), Box::new(y));
        assert(parser::term_tail(t, n, e) == Ok::<(Expr, int), Seq<char>>((e, n)));
        assert(parser::term_tail(t, m, x) == Ok::<(Expr, int), Seq<char>>((e, n)));
        assert(parser::expr_tail(t, n, e) == Ok::<(Expr, int), Seq<char>>((e, n)));
    } else {
        let e = Expr::Or(Box::new(x), Box::new(y));
        assert(parser::term_tail(t, m, x) == Ok::<(Expr, int), Seq<char>>((x, m)));
        assert(parser::term_tail(t, n, y) == Ok::<(Expr, int), Seq<char>>((y, n)));
        assert(parser::term_at(t, m + 1) == Ok::<(Expr, int), Seq<char>>((y, n)));
        assert(parser::expr_tail(t, n, e) == Ok::<(Expr, int), Seq<char>>((e, n)));
        assert(parser::expr_tail(t, m, x) == Ok::<(Expr, int), Seq<char>>((e, n)));
    }
}

proof fn lemma_or_holds(x: Expr, y: Expr, input: bpf::Input)
    requires
        input.packet.len() >= 64,
    ensures
        (semantics::holds(Expr::Or(Box::new(x), Box::new(y)), input) == Some(true)) == (
        semantics::holds(x, input) == Some(true) || semantics::holds(y, input) == Some(true)),
{
    lemma_long_packet(x, input);
    lemma_long_packet(y, input);
    let e = Expr::Or(Box::new(x), Box::new(y));
    assert(semantics::holds(e, input) == semantics::either(
        semantics::holds(x, input),
        semantics::holds(y, input),
    ));
    if semantics::holds(x, input)->0 {
        assert(semantics::holds(x, input) == Some(true));
    } else {
        assert(semantics::holds(x, input) == Some(false));
    }
}

/// `or` accepts what one of the filters accepts, on packets that hold the bytes that they look at.
pub proof fn law_or(a: Seq<char>, b: Seq<char>, packet: Seq<u8>, address: DivertAddress)
    requires
        is_filter(a),
        is_filter(b),
        packet.len() >= 64,
    ensures
        ({
            let filter = in_parentheses(a) + " or "@ + in_parentheses(b);
            &&& filter.len() <= 84 ==> compiled(filter) is Ok
            &&& compiled(filter) matches Ok(p) ==> accepts(p, packet, address) == (accepts(
                compiled(a)->Ok_0,
                packet,
                address,
            ) || accepts(compiled(b)->Ok_0, packet, address))
        }),
{
    let filter = in_parentheses(a) + " or "@ + in_parentheses(b);
    let ta = token::tokens_of(a)->Ok_0;
    let tb = token::tokens_of(b)->Ok_0;
    let x = parser::parsed(ta)->Ok_0;
    let y = parser::parsed(tb)->Ok_0;
    let none = Seq::<char>::empty();
    lemma_separators();
    lemma_group_text(b, tb, none, Seq::empty());
    let rest = "("@ + b + ")"@ + none;
    let tr = group(tb) + Seq::<Tok>::empty();
    lemma_two_groups(a, ta, " or "@, "or"@, Tok::Or, rest, tr);
    assert(filter =~= "("@ + a + ")"@ + (" or "@ + rest));
    let t = group(ta) + (seq![Tok::Or] + tr);
    lemma_joined_groups(ta, x, Tok::Or, tb, y);
    assert(t =~= group(ta) + seq![Tok::Or] + group(tb));
    lemma_decides(filter, t, Expr::Or(Box::new(x), Box::new(y)), packet, address);
    lemma_decides(a, ta, x, packet, address);
    lemma_decides(b, tb, y, packet, address);
    lemma_or_holds(x, y, bpf::Input { packet, address });
}

/// `or` before `and`: `and` binds its operands first.
proof fn lemma_or_and(ta: Seq<Tok>, x: Expr, tb: Seq<Tok>, y: Expr, tc: Seq<Tok>, z: Expr)
    requires
        parser::parsed(ta) == Ok::<Expr, Seq<char>>(x),
        parser::parsed(tb) == Ok::<Expr, Seq<char>>(y),
        parser::parsed(tc) == Ok::<Expr, Seq<char>>(z),
    ensures
        parser::parsed(
            group(ta) + seq![Tok::Or] + group(tb) + seq![Tok::And] + group(tc),
        ) == Ok::<Expr, Seq<char>>(
            Expr::Or(Box::new(x), Box::new(Expr::And(Box::new(y), Box::new(z)))),
        ),
{
    let t = group(ta) + seq![Tok::Or] + group(tb) + seq![Tok::And] + group(tc);
    let none = Seq::<Tok>::empty();
    let m = (ta.len() + 2) as int;
    let k = m + 1 + tb.len() + 2;
    let n = t.len() as int;
    let r1 = seq![Tok::Or] + group(tb) + seq![Tok::And] + group(tc);
    let r2 = seq![Tok::And] + group(tc);
    lemma_group_factor(none, ta, x, r1);
    assert(t =~= none + group(ta) + r1);
    lemma_group_factor(group(ta) + seq![Tok::Or], tb, y, r2);
    assert(t =~= group(ta) + seq![Tok::Or] + group(tb) + r2);
    let front = group(ta) + seq![Tok::Or] + group(tb) + seq![Tok::And];
    lemma_group_factor(front, tc, z, none);
    assert(t =~= front + group(tc) + none);
    assert(t[m] == Tok::Or);
    assert(t[k] == Tok::And);
    let right = Expr::And(Box::new(y), Box::new(z));
    let e = Expr::Or(Box::new(x), Box::new(right));
    assert(parser::term_tail(t, m, x) == Ok::<(Expr, int), Seq<char>>((x, m)));
    assert(parser::term_tail(t, n, right) == Ok::<(Expr, int), Seq<char>>((right, n)));
    assert(parser::term_tail(t, k, y) == Ok::<(Expr, int), Seq<char>>((right, n)));
    assert(parser::term_at(t, m + 1) == Ok::<(Expr, int), Seq<char>>((right, n)));
    assert(parser::expr_tail(t, n, e) == Ok::<(Expr, int), Seq<char>>((e, n)));
    assert(parser::expr_tail(t, m, x) == Ok::<(Expr, int), Seq<char>>((e, n)));
}

/// `and` binds stronger than `or`.
pub proof fn law_and_binds_first(
    a: Seq<char>,
    b: Seq<char>,
    c: Seq<char>,
    packet: Seq<u8>,
    address: DivertAddress,
)
    requires
        is_filter(a),
        is_filter(b),
        is_filter(c),
        packet.len() >= 64,
    ensures
        ({
            let filter = in_parentheses(a) + " or "@ + in_parentheses(b) + " and "@
                + in_parentheses(c);
            &&& filter.len() <= 84 ==> compiled(filter) is Ok
            &&& compiled(filter) matches Ok(p) ==> accepts(p, packet, address) == (accepts(
                compiled(a)->Ok_0,
                packet,
                address,
            ) || (accepts(compiled(b)->Ok_0, packet, address) && accepts(
                compiled(c)->Ok_0,
                packet,
                address,
            )))
        }),
{
    let filter = in_parentheses(a) + " or "@ + in_parentheses(b) + " and "@ + in_parentheses(c);
    let ta = token::tokens_of(a)->Ok_0;
    let tb = token::tokens_of(b)->Ok_0;
    let tc = token::tokens_of(c)->Ok_0;
    let x = parser::parsed(ta)->Ok_0;
    let y = parser::parsed(tb)->Ok_0;
    let z = parser::parsed(tc)->Ok_0;
    let t = group(ta) + seq![Tok::Or] + group(tb) + seq![Tok::And] + group(tc);
    lemma_three_groups(a, ta, b, tb, c, tc);
    lemma_or_and(ta, x, tb, y, tc, z);
    let input = bpf::Input { packet, address };
    let right = Expr::And(Box::new(y), Box::new(z));
    lemma_decides(filter, t, Expr::Or(Box::new(x), Box::new(right)), packet, address);
    lemma_decides(a, ta, x, packet, address);
    lemma_decides(b, tb, y, packet, address);
    lemma_decides(c, tc, z, packet, address);
    lemma_or_holds(x, right, input);
    assert(semantics::holds(right, input) == semantics::both(
        semantics::holds(y, input),
        semantics::holds(z, input),
    ));
}

/// The tokens of three texts in parentheses.
proof fn lemma_three_groups(
    a: Seq<char>,
    ta: Seq<Tok>,
    b: Seq<char>,
    tb: Seq<Tok>,
    c: Seq<char>,
    tc: Seq<Tok>,
)
    requires
        token::tokens_of(a) == Ok::<Seq<Tok>, Seq<char>>(ta),
        token::tokens_of(b) == Ok::<Seq<Tok>, Seq<char>>(tb),
        token::tokens_of(c) == Ok::<Seq<Tok>, Seq<char>>(tc),
    ensures
        ({
            let filter = in_parentheses(a) + " or "@ + in_parentheses(b) + " and "@
                + in_parentheses(c);
            &&& token::tokens_of(filter) == Ok::<Seq<Tok>, Seq<char>>(
                group(ta) + seq![Tok::Or] + group(tb) + seq![Tok::And] + group(tc),
            )
            &&& filter.len() == a.len() + b.len() + c.len() + 15
        }),
{
    let filter = in_parentheses(a) + " or "@ + in_parentheses(b) + " and "@ + in_parentheses(c);
    let none = Seq::<char>::empty();
    lemma_separators();
    lemma_group_text(c, tc, none, Seq::empty());
    let rest1 = "("@ + c + ")"@ + none;
    let tr1 = group(tc) + Seq::<Tok>::empty();
    lemma_two_groups(b, tb, " and "@, "and"@, Tok::And, rest1, tr1);
    let rest2 = "("@ + b + ")"@ + (" and "@ + rest1);
    let tr2 = group(tb) + (seq![Tok::And] + tr1);
    lemma_two_groups(a, ta, " or "@, "or"@, Tok::Or, rest2, tr2);
    assert(filter =~= "("@ + a + ")"@ + (" or "@ + rest2));
    assert(group(ta) + (seq![Tok::Or] + tr2) =~= group(ta) + seq![Tok::Or] + group(tb)
        + seq![Tok::And] + group(tc));
}

/// `not` binds stronger than `and`.
pub proof fn law_not_binds_first(
    a: Seq<char>,
    b: Seq<char>,
    packet: Seq<u8>,
    address: DivertAddress,
)
    requires
        is_filter(a),
        is_filter(b),
        packet.len() >= 64,
    ensures
        ({
            let filter = "not "@ + (in_parentheses(a) + " and "@ + in_parentheses(b));
            &&& filter.len() <= 84 ==> compiled(filter) is Ok
            &&& compiled(filter) matches Ok(p) ==> accepts(p, packet, address) == (!accepts(
                compiled(a)->Ok_0,
                packet,
                address,
            ) && accepts(compiled(b)->Ok_0, packet, address))
        }),
{
    let filter = "not "@ + (in_parentheses(a) + " and "@ + in_parentheses(b));
    let ta = token::tokens_of(a)->Ok_0;
    let tb = token::tokens_of(b)->Ok_0;
    let x = parser::parsed(ta)->Ok_0;
    let y = parser::parsed(tb)->Ok_0;
    let t = seq![Tok::Not] + group(ta) + seq![Tok::And] + group(tb);
    lemma_not_and_text(a, ta, b, tb);
    lemma_not_and(ta, x, tb, y);
    let input = bpf::Input { packet, address };
    let left = Expr::Not(Box::new(x));
    let e = Expr::And(Box::new(left), Box::new(y));
    lemma_decides(filter, t, e, packet, address);
    lemma_decides(a, ta, x, packet, address);
    lemma_decides(b, tb, y, packet, address);
    lemma_long_packet(x, input);
    assert(semantics::holds(left, input) == Some(!semantics::holds(x, input)->0));
    assert(semantics::holds(e, input) == semantics::both(
        semantics::holds(left, input),
        semantics::holds(y, input),
    ));
}

proof fn lemma_not_and_text(a: Seq<char>, ta: Seq<Tok>, b: Seq<char>, tb: Seq<Tok>)
    requires
        token::tokens_of(a) == Ok::<Seq<Tok>, Seq<char>>(ta),
        token::tokens_of(b) == Ok::<Seq<Tok>, Seq<char>>(tb),
    ensures
        ({
            let filter = "not "@ + (in_parentheses(a) + " and "@ + in_parentheses(b));
            &&& token::tokens_of(filter) == Ok::<Seq<Tok>, Seq<char>>(
                seq![Tok::Not] + group(ta) + seq![Tok::And] + group(tb),
            )
            &&& filter.len() == a.len() + b.len() + 13
        }),
{
    let inner = in_parentheses(a) + " and "@ + in_parentheses(b);
    let none = Seq::<char>::empty();
    lemma_separators();
    lemma_group_text(b, tb, none, Seq::empty());
    let rest = "("@ + b + ")"@ + none;
    let tr = group(tb) + Seq::<Tok>::empty();
    lemma_two_groups(a, ta, " and "@, "and"@, Tok::And, rest, tr);
    assert(inner =~= "("@ + a + ")"@ + (" and "@ + rest));
    spelling::lemma_not_in_front(inner);
    reveal_strlit("not ");
    assert(seq![Tok::Not] + (group(ta) + (seq![Tok::And] + tr)) =~= seq![Tok::Not] + group(ta)
        + seq![Tok::And] + group(tb));
}

proof fn lemma_not_and(ta: Seq<Tok>, x: Expr, tb: Seq<Tok>, y: Expr)
    requires
        parser::parsed(ta) == Ok::<Expr, Seq<char>>(x),
        parser::parsed(tb) == Ok::<Expr, Seq<char>>(y),
    ensures
        parser::parsed(seq![Tok::Not] + group(ta) + seq![Tok::And] + group(tb)) == Ok::<
            Expr,
            Seq<char>,
        >(Expr::And(Box::new(Expr::Not(Box::new(x))), Box::new(y))),
{
    let t = seq![Tok::Not] + group(ta) + seq![Tok::And] + group(tb);
    let none = Seq::<Tok>::empty();
    let m = (ta.len() + 3) as int;
    let n = t.len() as int;
    let rest = seq![Tok::And] + group(tb);
    lemma_group_factor(seq![Tok::Not], ta, x, rest);
    assert(t =~= seq![Tok::Not] + group(ta) + rest);
    let front = seq![Tok::Not] + group(ta) + seq![Tok::And];
    lemma_group_factor(front, tb, y, none);
    assert(t =~= front + group(tb) + none);
    assert(t[0] == Tok::Not);
    assert(t[m] == Tok::And);
    let left = Expr::Not(Box::new(x));
    let e = Expr::And(Box::new(left), Box::new(y));
    assert(parser::factor_at(t, 0) == Ok::<(Expr, int), Seq<char>>((left, m)));
    assert(parser::term_tail(t, n, e) == Ok::<(Expr, int), Seq<char>>((e, n)));
    assert(parser::term_tail(t, m, left) == Ok::<(Expr, int), Seq<char>>((e, n)));
    assert(parser::expr_tail(t, n, e) == Ok::<(Expr, int), Seq<char>>((e, n)));
}

/// The blank filter and the filter `true` accept everything.
pub proof fn law_everything(packet: Seq<u8>, address: DivertAddress)
    ensures
        answers(""@, packet, address, true),
        answers("true"@, packet, address, true),
{
    reveal_strlit("");
    reveal_strlit("true");
    reveal_with_fuel(text::trim_start, 2);
    reveal_with_fuel(text::trim_end, 2);
    assert(is_trivial("true"@));
    assert(is_trivial(""@));
    let p = compiled("true"@)->Ok_0;
    semantics::lemma_return_program(p);
}

/// Space around a filter changes nothing.
pub proof fn law_space_around(c: char, a: Seq<char>)
    requires
        c == ' ' || c == '\t' || c == '\n',
    ensures
        compiled(seq![c] + a) == compiled(a),
        compiled(a.push(c)) == compiled(a),
{
    spelling::lemma_space_in_front(c, a);
    assert((seq![c] + a).drop_first() =~= a);
    assert(text::trim_start(seq![c] + a) == text::trim_start(a));
    lemma_space_behind(a, c);
    spelling::lemma_tokens_joined(a, seq![c]);
    spelling::lemma_space_in_front(c, Seq::empty());
    assert(seq![c] + Seq::<char>::empty() =~= seq![c]);
    assert(a + seq![c] =~= a.push(c));
    match token::tokens_of(a) {
        Ok(x) => {
            assert(x + Seq::<Tok>::empty() =~= x);
        },
        Err(_) => {},
    }
}

proof fn lemma_space_behind(a: Seq<char>, c: char)
    requires
        text::char_whitespace(c),
    ensures
        text::trimmed(a.push(c)) == text::trimmed(a),
    decreases a.len(),
{
    if a.len() > 0 && text::char_whitespace(a[0]) {
        lemma_space_behind(a.drop_first(), c);
        assert(a.push(c).drop_first() =~= a.drop_first().push(c));
    } else if a.len() == 0 {
        assert(a.push(c).drop_first() =~= a);
    } else {
        assert(a.push(c).drop_last() =~= a);
    }
}

/// A filter whose tokens are no expression is refused.
proof fn lemma_refused(filter: Seq<char>, t: Seq<Tok>)
    requires
        token::tokens_of(filter) == Ok::<Seq<Tok>, Seq<char>>(t),
        parser::parsed(t) is Err,
        t.len() > 0,
        t != seq![Tok::Ident("true"@)],
    ensures
        compiled(filter) is Err,
{
    if is_trivial(filter) {
        spelling::lemma_trivial(filter);
    }
}

/// A character that no token starts with makes a filter wrong, wherever it stands behind or in
/// front of others.
pub proof fn law_strange_character_is_refused(a: Seq<char>, c: char, b: Seq<char>)
    requires
        !text::alphanumeric(c),
        !text::char_whitespace(c),
        c != '.' && c != '_' && c != '(' && c != ')' && c != '&' && c != '|' && c != '!',
    ensures
        compiled(a + (seq![c] + b)) is Err,
{
    let rest = seq![c] + b;
    assert(rest[0] == c);
    spelling::lemma_tokens_joined(a, rest);
    assert(token::tokens_of(rest) is Err);
    if is_trivial(a + rest) {
        spelling::lemma_trivial(a + rest);
    }
}

/// A parenthesis that was not opened, or one that is not closed, makes a filter wrong.
pub proof fn law_single_parenthesis_is_refused(a: Seq<char>)
    requires
        expression(a) is Ok,
    ensures
        compiled(a + ")"@) is Err,
        compiled("("@ + a) is Err,
{
    reveal_strlit("(");
    reveal_strlit(")");
    let t = token::tokens_of(a)->Ok_0;
    let n = t.len() as int;
    let e = parser::parsed(t)->Ok_0;
    let one = seq![Tok::RParen];
    assert(token::tokens_of(")"@) == Ok::<Seq<Tok>, Seq<char>>(one)) by {
        assert(token::tokens_from(")"@, 1) == Ok::<Seq<Tok>, Seq<char>>(Seq::empty()));
        assert(one + Seq::<Tok>::empty() =~= one);
    }
    spelling::lemma_tokens_joined(a, ")"@);
    let u = t + one;
    assert(parser::expr_at(t, 0) == Ok::<(Expr, int), Seq<char>>((e, n))) by {
        spelling::lemma_expr_alike(t, t, 0);
    }
    assert(u[n] == Tok::RParen);
    spelling::lemma_expr_alike(t, u, 0);
    lemma_refused(a + ")"@, u);
    spelling::lemma_tokens_moved("("@, a, 0);
    assert(("("@ + a)[0] == '(');
    let open = seq![Tok::LParen];
    let v = open + t;
    assert(token::tokens_of("("@ + a) == Ok::<Seq<Tok>, Seq<char>>(v));
    spelling::lemma_expr_moved(open, t, 0);
    assert(v[0] == Tok::LParen);
    assert(parser::expr_at(v, 1) == Ok::<(Expr, int), Seq<char>>((e, n + 1)));
    assert(parser::factor_at(v, 0) is Err);
    assert(parser::term_at(v, 0) is Err);
    assert(parser::expr_at(v, 0) is Err);
    lemma_refused("("@ + a, v);
}

/// The words that mean something in filters.
pub open spec fn is_keyword(w: Seq<char>) -> bool {
    w == "and"@ || w == "or"@ || w == "not"@ || w == "tcp"@ || w == "udp"@ || w == "icmp"@ || w
        == "ip"@ || w == "port"@ || w == "host"@ || w == "src"@ || w == "dst"@ || w == "outbound"@
        || w == "inbound"@ || w == "loopback"@ || w == "impostor"@ || w == "ifindex"@ || w
        == "sub_ifindex"@
}

/// A word that means nothing is no filter, but for the one that accepts everything.
pub proof fn law_unknown_word_is_refused(w: Seq<char>)
    requires
        w.len() > 0,
        forall|i: int|
            0 <= i < w.len() ==> text::alphanumeric(#[trigger] w[i]) || w[i] == '.' || w[i] == '_',
        !is_keyword(text::lowercase(w)),
        w != "true"@,
    ensures
        compiled(w) is Err,
{
    spelling::lemma_one_word(w);
    let t = seq![Tok::Ident(w)];
    assert(token::word_token(w) == Tok::Ident(w));
    assert(parser::factor_at(t, 0) is Err);
    assert(parser::term_at(t, 0) is Err);
    assert(parser::expr_at(t, 0) is Err);
    assert(t != seq![Tok::Ident("true"@)]) by {
        assert(t[0] != seq![Tok::Ident("true"@)][0]);
    }
    lemma_refused(w, t);
}

/// There are no ports above 65535 and no interfaces above 2^32 - 1.
pub proof fn law_large_number_is_refused(n: nat)
    ensures
        n > 0xffff ==> compiled("port "@ + text::decimal_text(n)) is Err,
        n > 0xffff_ffff ==> compiled("ifindex "@ + text::decimal_text(n)) is Err,
{
    let w = text::decimal_text(n);
    text::lemma_decimal_text(n);
    text::law_decimal_is_refused(n, 0xffff, w, 0);
    text::law_decimal_is_refused(n, 0xffff_ffff, w, 0);
    lemma_number_word(w);
    lemma_word_port();
    lemma_word_ifindex();
    reveal_strlit("port ");
    reveal_strlit("port");
    reveal_strlit("ifindex ");
    reveal_strlit("ifindex");
    let u = seq![Tok::Ident(w)];
    lemma_two_words("port"@, Tok::Port, w, u);
    lemma_two_words("ifindex"@, Tok::IfIndex, w, u);
    assert("port "@ + w =~= "port"@ + (seq![' '] + w));
    assert("ifindex "@ + w =~= "ifindex"@ + (seq![' '] + w));
    if n > 0xffff {
        lemma_bad_number("port "@ + w, Tok::Port, w);
    }
    if n > 0xffff_ffff {
        lemma_bad_number("ifindex "@ + w, Tok::IfIndex, w);
    }
}

proof fn lemma_bad_number(filter: Seq<char>, o: Tok, w: Seq<char>)
    requires
        token::tokens_of(filter) == Ok::<Seq<Tok>, Seq<char>>(seq![o] + seq![Tok::Ident(w)]),
        (o is Port && text::decimal(w, 0xffff) is None) || (o is IfIndex && text::decimal(
            w,
            0xffff_ffff,
        ) is None),
    ensures
        compiled(filter) is Err,
{
    let t = seq![o] + seq![Tok::Ident(w)];
    assert(t[0] == o && t[1] == Tok::Ident(w));
    assert(parser::word_at(t, 1) == Some(w));
    assert(parser::test_at(t, 0, Dir::SrcOrDst) is Err);
    assert(parser::factor_at(t, 0) is Err);
    assert(parser::term_at(t, 0) is Err);
    assert(parser::expr_at(t, 0) is Err);
    lemma_refused(filter, t);
}

/// An operator that stands alone or in front of nothing, and a test without what it asks for, are
/// no filters.
pub proof fn law_missing_operand_is_refused()
    ensures
        compiled("and"@) is Err,
        compiled("or"@) is Err,
        compiled("port"@) is Err,
        compiled("host"@) is Err,
        compiled("src"@) is Err,
        compiled("ifindex"@) is Err,
{
    lemma_separators();
    lemma_word_port();
    lemma_word_host();
    lemma_word_src();
    lemma_word_ifindex();
    lemma_lone_token("and"@, Tok::And);
    lemma_lone_token("or"@, Tok::Or);
    lemma_lone_token("port"@, Tok::Port);
    lemma_lone_token("host"@, Tok::Host);
    lemma_lone_token("src"@, Tok::Src);
    lemma_lone_token("ifindex"@, Tok::IfIndex);
}

proof fn lemma_lone_token(filter: Seq<char>, o: Tok)
    requires
        token::tokens_of(filter) == Ok::<Seq<Tok>, Seq<char>>(seq![o]),
        o is And || o is Or || o is Port || o is Host || o is Src || o is IfIndex,
    ensures
        compiled(filter) is Err,
{
    let t = seq![o];
    assert(t[0] == o);
    assert(parser::factor_at(t, 0) is Err);
    assert(parser::term_at(t, 0) is Err);
    assert(parser::expr_at(t, 0) is Err);
    lemma_refused(filter, t);
}

} // verus!
