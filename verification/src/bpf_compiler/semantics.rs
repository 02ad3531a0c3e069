//! What a filter expression means, and why compiled programs decide it.
use vstd::prelude::*;
use crate::bpf_compiler::codegen;
use crate::bpf_compiler::codegen::IrInsn;
use crate::bpf_compiler::parser::{Dir, Expr};
use crate::bytes;
use crate::network::bpf;
use crate::network::bpf::BpfInsn;
use crate::types;

verus! {

/// Whether a value that may be missing is `v`.
pub open spec fn is<T>(found: Option<T>, v: T) -> Option<bool> {
    match found {
        Some(x) => Some(x == v),
        None => None,
    }
}

/// The second answer counts where the first one is yes.
pub open spec fn both(a: Option<bool>, b: Option<bool>) -> Option<bool> {
    if a == Some(true) {
        b
    } else {
        a
    }
}

/// The second answer counts where the first one is no.
pub open spec fn either(a: Option<bool>, b: Option<bool>) -> Option<bool> {
    if a == Some(false) {
        b
    } else {
        a
    }
}

/// Whether the source or destination value, as the direction asks, is the wanted one.
pub open spec fn toward(dir: Dir, src: Option<bool>, dst: Option<bool>) -> Option<bool> {
    match dir {
        Dir::Src => src,
        Dir::Dst => dst,
        Dir::SrcOrDst => either(src, dst),
        Dir::SrcAndDst => both(src, dst),
    }
}

/// Whether the IP header names the transport protocol `proto`.
pub open spec fn protocol_is(input: bpf::Input, proto: u8) -> Option<bool> {
    is(input.byte(9), proto)
}

/// Whether the IP header says version 4.
pub open spec fn version_is_4(input: bpf::Input) -> Option<bool> {
    match input.byte(0) {
        Some(b) => Some(b / 16 == 4),
        None => None,
    }
}

/// Whether the port as the direction asks is `port`; ports come right after the IP header.
pub open spec fn port_is(input: bpf::Input, dir: Dir, port: u16) -> Option<bool> {
    match input.byte(0) {
        Some(b) => {
            let header = 4 * (b % 16);
            toward(dir, is(input.half(header), port), is(input.half(header + 2), port))
        },
        None => None,
    }
}

/// Whether the filter `e` holds of `input`; no answer where it looks at bytes that the packet
/// does not have. Operands are looked at from left to right, as far as they matter.
pub open spec fn holds(e: Expr, input: bpf::Input) -> Option<bool>
    decreases e,
{
    match e {
        Expr::And(l, r) => both(holds(*l, input), holds(*r, input)),
        Expr::Or(l, r) => either(holds(*l, input), holds(*r, input)),
        Expr::Not(i) => match holds(*i, input) {
            Some(b) => Some(!b),
            None => None,
        },
        Expr::Tcp => protocol_is(input, 6),
        Expr::Udp => protocol_is(input, 17),
        Expr::Icmp => protocol_is(input, 1),
        Expr::Ip => version_is_4(input),
        Expr::Host(dir, ip) => toward(dir, is(input.word(12), ip), is(input.word(16), ip)),
        Expr::Port(dir, port) => port_is(input, dir, port),
        Expr::Outbound => Some(types::flag_bit(input.address.flags, 17)),
        Expr::Inbound => Some(!types::flag_bit(input.address.flags, 17)),
        Expr::Loopback => Some(types::flag_bit(input.address.flags, 18)),
        Expr::Impostor => Some(types::flag_bit(input.address.flags, 19)),
        Expr::IfIndex(i) => Some(bytes::le32(input.address.data.bytes(), 0) == i),
        Expr::SubIfIndex(i) => Some(bytes::le32(input.address.data.bytes(), 4) == i),
    }
}

/// The verdict of a filter: all ones where it holds; zero where it does not or has no answer.
pub open spec fn filter_verdict(e: Expr, input: bpf::Input) -> u32 {
    if holds(e, input) == Some(true) {
        u32::MAX
    } else {
        0
    }
}

/// Every run of `p` that comes to `pc` ends in `v`, whatever the registers hold.
pub open spec fn ends_in(p: Seq<BpfInsn>, pc: int, input: bpf::Input, v: u32) -> bool {
    forall|s: bpf::Machine| s.pc == pc ==> #[trigger] bpf::run(p, s, input) == v
}

/// The verdict for an answer where yes leads to `vt` and no to `vf`.
pub open spec fn pick(answer: Option<bool>, vt: u32, vf: u32) -> u32 {
    match answer {
        Some(true) => vt,
        Some(false) => vf,
        None => 0,
    }
}

/// Index in the program of the instruction at index `b` of `ir`.
pub open spec fn at(ir: Seq<IrInsn>, b: int) -> int {
    codegen::real_count(ir.take(b)) as int
}

/// `p` is what `ir` resolves to, and no label stands in `ir` twice.
pub open spec fn assembled(ir: Seq<IrInsn>, p: Seq<BpfInsn>) -> bool {
    &&& codegen::resolved(ir, codegen::label_offsets(ir)) == Ok::<Seq<BpfInsn>, Seq<char>>(p)
    &&& labels_distinct(ir)
}

/// No label stands in `ir` twice.
pub open spec fn labels_distinct(ir: Seq<IrInsn>) -> bool {
    forall|i: int, j: int|
        0 <= i < j < ir.len() && (#[trigger] ir[i]) is Label && (#[trigger] ir[j]) is Label
            ==> ir[i] != ir[j]
}

/// Where a jump to `l` arrives.
pub open spec fn target(ir: Seq<IrInsn>, l: u128) -> int {
    codegen::label_offsets(ir)[l] as int
}

proof fn lemma_opcodes()
    by (bit_vector)
    ensures
        (bpf::BPF_LD | bpf::BPF_B | bpf::BPF_ABS) & bpf::BPF_CLASS_MASK == bpf::BPF_LD,
        (bpf::BPF_LD | bpf::BPF_B | bpf::BPF_ABS) & bpf::BPF_MODE_MASK == bpf::BPF_ABS,
        (bpf::BPF_LD | bpf::BPF_B | bpf::BPF_ABS) & bpf::BPF_SIZE_MASK == bpf::BPF_B,
        (bpf::BPF_LD | bpf::BPF_W | bpf::BPF_ABS) & bpf::BPF_CLASS_MASK == bpf::BPF_LD,
        (bpf::BPF_LD | bpf::BPF_W | bpf::BPF_ABS) & bpf::BPF_MODE_MASK == bpf::BPF_ABS,
        (bpf::BPF_LD | bpf::BPF_W | bpf::BPF_ABS) & bpf::BPF_SIZE_MASK == bpf::BPF_W,
        (bpf::BPF_LD | bpf::BPF_H | bpf::BPF_IND) & bpf::BPF_CLASS_MASK == bpf::BPF_LD,
        (bpf::BPF_LD | bpf::BPF_H | bpf::BPF_IND) & bpf::BPF_MODE_MASK == bpf::BPF_IND,
        (bpf::BPF_LD | bpf::BPF_H | bpf::BPF_IND) & bpf::BPF_SIZE_MASK == bpf::BPF_H,
        (bpf::BPF_LDX | bpf::BPF_B | bpf::BPF_MSH) & bpf::BPF_CLASS_MASK == bpf::BPF_LDX,
        (bpf::BPF_LDX | bpf::BPF_B | bpf::BPF_MSH) & bpf::BPF_MODE_MASK == bpf::BPF_MSH,
        (bpf::BPF_ALU | bpf::BPF_RSH | bpf::BPF_K) & bpf::BPF_CLASS_MASK == bpf::BPF_ALU,
        (bpf::BPF_ALU | bpf::BPF_RSH | bpf::BPF_K) & bpf::BPF_OP_MASK == bpf::BPF_RSH,
        (bpf::BPF_ALU | bpf::BPF_RSH | bpf::BPF_K) & bpf::BPF_SRC_MASK == 0,
        (bpf::BPF_JMP | bpf::BPF_JEQ | bpf::BPF_K) & bpf::BPF_CLASS_MASK == bpf::BPF_JMP,
        (bpf::BPF_JMP | bpf::BPF_JEQ | bpf::BPF_K) & bpf::BPF_OP_MASK == bpf::BPF_JEQ,
        (bpf::BPF_JMP | bpf::BPF_JEQ | bpf::BPF_K) & bpf::BPF_SRC_MASK == 0,
        (bpf::BPF_JMP | bpf::BPF_JSET | bpf::BPF_K) & bpf::BPF_CLASS_MASK == bpf::BPF_JMP,
        (bpf::BPF_JMP | bpf::BPF_JSET | bpf::BPF_K) & bpf::BPF_OP_MASK == bpf::BPF_JSET,
        (bpf::BPF_JMP | bpf::BPF_JSET | bpf::BPF_K) & bpf::BPF_SRC_MASK == 0,
        (bpf::BPF_RET | bpf::BPF_K) & bpf::BPF_CLASS_MASK == bpf::BPF_RET,
        (bpf::BPF_RET | bpf::BPF_K) & bpf::BPF_SRC_MASK == 0,
{
}

proof fn lemma_flag_tests(flags: u32)
    ensures
        (flags & codegen::FLAG_OUTBOUND != 0) == types::flag_bit(flags, 17),
        (flags & codegen::FLAG_LOOPBACK != 0) == types::flag_bit(flags, 18),
        (flags & codegen::FLAG_IMPOSTOR != 0) == types::flag_bit(flags, 19),
{
    assert((flags & 0x0002_0000 != 0) == ((flags >> 17) & 1 == 1) && (flags & 0x0004_0000 != 0)
        == ((flags >> 18) & 1 == 1) && (flags & 0x0008_0000 != 0) == ((flags >> 19) & 1 == 1))
        by (bit_vector);
}

proof fn lemma_high_nibble(b: u8)
    ensures
        (b as u32) >> 4u32 == b / 16,
{
    assert((b as u32) >> 4u32 == b / 16) by (bit_vector);
}

/// Each instruction of `ir` stands in `p`, after those in front of it.
proof fn lemma_resolved_at(ir: Seq<IrInsn>, m: Map<u128, nat>, p: Seq<BpfInsn>, i: int)
    requires
        codegen::resolved(ir, m) == Ok::<Seq<BpfInsn>, Seq<char>>(p),
        0 <= i < ir.len(),
        !(ir[i] is Label),
    ensures
        p.len() == codegen::real_count(ir),
        0 <= at(ir, i) < p.len(),
        codegen::lowered(ir[i], at(ir, i), m) == Ok::<BpfInsn, Seq<char>>(p[at(ir, i)]),
    decreases ir.len(),
{
    codegen::lemma_resolved_len(ir, m);
    codegen::lemma_resolved_len(ir.drop_last(), m);
    if i == ir.len() - 1 {
        assert(ir.take(i) =~= ir.drop_last());
    } else {
        let q = codegen::resolved(ir.drop_last(), m)->Ok_0;
        lemma_resolved_at(ir.drop_last(), m, q, i);
        assert(ir.drop_last().take(i) =~= ir.take(i));
    }
}

/// A label that stands once stands for the number of instructions in front of it.
pub proof fn lemma_label_target(ir: Seq<IrInsn>, i: int, l: u128)
    requires
        0 <= i < ir.len(),
        ir[i] == IrInsn::Label(l),
        forall|j: int| i < j < ir.len() ==> #[trigger] ir[j] != IrInsn::Label(l),
    ensures
        codegen::label_offsets(ir).contains_key(l),
        target(ir, l) == at(ir, i),
    decreases ir.len(),
{
    if i == ir.len() - 1 {
        assert(ir.take(i) =~= ir.drop_last());
    } else {
        lemma_label_target(ir.drop_last(), i, l);
        assert(ir.drop_last().take(i) =~= ir.take(i));
    }
}

proof fn lemma_at_next(ir: Seq<IrInsn>, b: int)
    requires
        0 <= b < ir.len(),
    ensures
        at(ir, b + 1) == at(ir, b) + (if ir[b] is Label {
            0int
        } else {
            1int
        }),
{
    assert(ir.take(b + 1).drop_last() =~= ir.take(b));
}

/// A run at an instruction that does not jump goes on with the next one.
proof fn lemma_plain(
    ir: Seq<IrInsn>,
    p: Seq<BpfInsn>,
    b: int,
    insn: BpfInsn,
    s: bpf::Machine,
    input: bpf::Input,
)
    requires
        assembled(ir, p),
        0 <= b < ir.len(),
        ir[b] == IrInsn::Insn(insn),
        s.pc == at(ir, b),
    ensures
        at(ir, b + 1) == at(ir, b) + 1,
        bpf::run(p, s, input) == (match bpf::step(insn, p.len(), s, input) {
            bpf::Step::Done(v) => v,
            bpf::Step::Next(t) => if t.pc > s.pc {
                bpf::run(p, t, input)
            } else {
                0
            },
        }),
{
    lemma_resolved_at(ir, codegen::label_offsets(ir), p, b);
    lemma_at_next(ir, b);
}

/// The state `s` moved to `pc`.
spec fn moved(s: bpf::Machine, pc: int) -> bpf::Machine {
    bpf::Machine { pc, ..s }
}

/// Whether the test `op` with `k` succeeds on `a`.
spec fn passes(op: u16, a: u32, k: u32) -> bool {
    if op == bpf::BPF_JEQ {
        a == k
    } else {
        a & k != 0
    }
}

/// A run at a conditional jump goes on at one of its two labels.
proof fn lemma_jump(
    ir: Seq<IrInsn>,
    p: Seq<BpfInsn>,
    b: int,
    op: u16,
    k: u32,
    lt: u128,
    lf: u128,
    s: bpf::Machine,
    input: bpf::Input,
)
    requires
        assembled(ir, p),
        0 <= b < ir.len(),
        ir[b] == IrInsn::JmpCond(op, k, lt, lf),
        op == bpf::BPF_JEQ || op == bpf::BPF_JSET,
        s.pc == at(ir, b),
    ensures
        at(ir, b + 1) == at(ir, b) + 1,
        passes(op, s.a, k) ==> bpf::run(p, s, input) == bpf::run(
            p,
            moved(s, target(ir, lt)),
            input,
        ),
        !passes(op, s.a, k) ==> bpf::run(p, s, input) == bpf::run(
            p,
            moved(s, target(ir, lf)),
            input,
        ),
{
    lemma_resolved_at(ir, codegen::label_offsets(ir), p, b);
    lemma_at_next(ir, b);
    lemma_opcodes();
}

/// A run at a load and its test goes on at one of the two labels, or ends in zero where the load
/// finds nothing.
proof fn lemma_probe(
    ir: Seq<IrInsn>,
    p: Seq<BpfInsn>,
    b: int,
    code: u16,
    k: u32,
    op: u16,
    v: u32,
    lt: u128,
    lf: u128,
    s: bpf::Machine,
    input: bpf::Input,
)
    requires
        assembled(ir, p),
        0 <= b,
        b + 2 <= ir.len(),
        ir.subrange(b, b + 2) == codegen::probe(code, k, op, v, lt, lf),
        code & bpf::BPF_CLASS_MASK == bpf::BPF_LD,
        op == bpf::BPF_JEQ || op == bpf::BPF_JSET,
        s.pc == at(ir, b),
    ensures
        at(ir, b + 2) == at(ir, b) + 2,
        ({
            let insn = BpfInsn { code, jt: 0, jf: 0, k };
            match bpf::loaded_a(insn, s.x, s.m, input) {
                Some(a) => {
                    let to = if passes(op, a, v) {
                        target(ir, lt)
                    } else {
                        target(ir, lf)
                    };
                    bpf::run(p, s, input) == bpf::run(p, bpf::Machine { pc: to, a, ..s }, input)
                },
                None => bpf::run(p, s, input) == 0,
            }
        }),
{
    let insn = BpfInsn { code, jt: 0, jf: 0, k };
    assert(ir[b] == ir.subrange(b, b + 2)[0]);
    assert(ir[b + 1] == ir.subrange(b, b + 2)[1]);
    lemma_plain(ir, p, b, insn, s, input);
    match bpf::loaded_a(insn, s.x, s.m, input) {
        Some(a) => {
            let t = bpf::Machine { pc: s.pc + 1, a, ..s };
            lemma_jump(ir, p, b + 1, op, v, lt, lf, t, input);
            assert(moved(t, target(ir, lt)) == (bpf::Machine { pc: target(ir, lt), a, ..s }));
            assert(moved(t, target(ir, lf)) == (bpf::Machine { pc: target(ir, lf), a, ..s }));
        },
        None => {
            lemma_resolved_at(ir, codegen::label_offsets(ir), p, b + 1);
            lemma_at_next(ir, b + 1);
        },
    }
}

/// What the two loads of a directed test find.
spec fn found(code: u16, k: u32, v: u32, s: bpf::Machine, input: bpf::Input) -> Option<bool> {
    is(bpf::loaded_a(BpfInsn { code, jt: 0, jf: 0, k }, s.x, s.m, input), v)
}

/// A run at a directed test ends as the answer to the test says.
proof fn lemma_directed(
    ir: Seq<IrInsn>,
    p: Seq<BpfInsn>,
    b: int,
    code: u16,
    k0: u32,
    k1: u32,
    dir: Dir,
    v: u32,
    lt: u128,
    lf: u128,
    n: u128,
    vt: u32,
    vf: u32,
    s: bpf::Machine,
    input: bpf::Input,
)
    requires
        assembled(ir, p),
        0 <= b,
        ({
            let c = codegen::directed(code, k0, k1, dir, v, lt, lf, n).0;
            b + c.len() <= ir.len() && ir.subrange(b, b + c.len()) == c
        }),
        code & bpf::BPF_CLASS_MASK == bpf::BPF_LD,
        ends_in(p, target(ir, lt), input, vt),
        ends_in(p, target(ir, lf), input, vf),
        s.pc == at(ir, b),
    ensures
        bpf::run(p, s, input) == pick(
            toward(dir, found(code, k0, v, s, input), found(code, k1, v, s, input)),
            vt,
            vf,
        ),
{
    let c = codegen::directed(code, k0, k1, dir, v, lt, lf, n).0;
    let j = bpf::BPF_JEQ;
    match dir {
        Dir::Src => {
            lemma_probe(ir, p, b, code, k0, j, v, lt, lf, s, input);
        },
        Dir::Dst => {
            lemma_probe(ir, p, b, code, k1, j, v, lt, lf, s, input);
        },
        Dir::SrcOrDst | Dir::SrcAndDst => {
            let (t0, f0) = if dir == Dir::SrcOrDst {
                (lt, n)
            } else {
                (n, lf)
            };
            assert(ir.subrange(b, b + 2) =~= c.subrange(0, 2));
            assert(c.subrange(0, 2) =~= codegen::probe(code, k0, j, v, t0, f0));
            assert(ir[b + 2] == c[2]);
            assert(ir.subrange(b + 3, b + 5) =~= c.subrange(3, 5));
            assert(c.subrange(3, 5) =~= codegen::probe(code, k1, j, v, lt, lf));
            lemma_probe(ir, p, b, code, k0, j, v, t0, f0, s, input);
            lemma_label_target(ir, b + 2, n);
            lemma_at_next(ir, b + 2);
            match bpf::loaded_a(BpfInsn { code, jt: 0, jf: 0, k: k0 }, s.x, s.m, input) {
                Some(a) => {
                    let t = bpf::Machine { pc: at(ir, b + 3), a, ..s };
                    lemma_probe(ir, p, b + 3, code, k1, j, v, lt, lf, t, input);
                },
                None => {},
            }
        },
    }
}

/// A run at the code of an expression that is a single test ends as the answer to it says.
proof fn lemma_leaf(
    ir: Seq<IrInsn>,
    p: Seq<BpfInsn>,
    b: int,
    e: Expr,
    lt: u128,
    lf: u128,
    n: u128,
    vt: u32,
    vf: u32,
    s: bpf::Machine,
    input: bpf::Input,
)
    requires
        assembled(ir, p),
        0 <= b,
        ({
            let c = codegen::code_of(e, lt, lf, n).0;
            b + c.len() <= ir.len() && ir.subrange(b, b + c.len()) == c
        }),
        !(e is And) && !(e is Or) && !(e is Not),
        ends_in(p, target(ir, lt), input, vt),
        ends_in(p, target(ir, lf), input, vf),
        s.pc == at(ir, b),
    ensures
        bpf::run(p, s, input) == pick(holds(e, input), vt, vf),
{
    lemma_opcodes();
    lemma_flag_tests(input.address.flags);
    let byte_at = bpf::BPF_LD | bpf::BPF_B | bpf::BPF_ABS;
    let word_at = bpf::BPF_LD | bpf::BPF_W | bpf::BPF_ABS;
    let half_at = bpf::BPF_LD | bpf::BPF_H | bpf::BPF_IND;
    let flags = bpf::BPF_ADDR_FLAGS_OFFSET;
    let c = codegen::code_of(e, lt, lf, n).0;
    match e {
        Expr::Tcp => {
            lemma_probe(ir, p, b, byte_at, 9, bpf::BPF_JEQ, 6, lt, lf, s, input);
        },
        Expr::Udp => {
            lemma_probe(ir, p, b, byte_at, 9, bpf::BPF_JEQ, 17, lt, lf, s, input);
        },
        Expr::Icmp => {
            lemma_probe(ir, p, b, byte_at, 9, bpf::BPF_JEQ, 1, lt, lf, s, input);
        },
        Expr::Outbound => {
            lemma_probe(
                ir,
                p,
                b,
                word_at,
                flags,
                bpf::BPF_JSET,
                codegen::FLAG_OUTBOUND,
                lt,
                lf,
                s,
                input,
            );
        },
        Expr::Inbound => {
            lemma_probe(
                ir,
                p,
                b,
                word_at,
                flags,
                bpf::BPF_JSET,
                codegen::FLAG_OUTBOUND,
                lf,
                lt,
                s,
                input,
            );
        },
        Expr::Loopback => {
            lemma_probe(
                ir,
                p,
                b,
                word_at,
                flags,
                bpf::BPF_JSET,
                codegen::FLAG_LOOPBACK,
                lt,
                lf,
                s,
                input,
            );
        },
        Expr::Impostor => {
            lemma_probe(
                ir,
                p,
                b,
                word_at,
                flags,
                bpf::BPF_JSET,
                codegen::FLAG_IMPOSTOR,
                lt,
                lf,
                s,
                input,
            );
        },
        Expr::IfIndex(i) => {
            lemma_probe(
                ir,
                p,
                b,
                word_at,
                bpf::BPF_ADDR_IF_IDX_OFFSET,
                bpf::BPF_JEQ,
                i,
                lt,
                lf,
                s,
                input,
            );
        },
        Expr::SubIfIndex(i) => {
            lemma_probe(
                ir,
                p,
                b,
                word_at,
                bpf::BPF_ADDR_SUB_IF_IDX_OFFSET,
                bpf::BPF_JEQ,
                i,
                lt,
                lf,
                s,
                input,
            );
        },
        Expr::Ip => {
            lemma_ip(ir, p, b, lt, lf, vt, vf, s, input);
        },
        Expr::Host(dir, ip) => {
            lemma_directed(ir, p, b, word_at, 12, 16, dir, ip, lt, lf, n, vt, vf, s, input);
        },
        Expr::Port(dir, port) => {
            lemma_port(ir, p, b, dir, port, lt, lf, n, vt, vf, s, input);
        },
        _ => {},
    }
}

proof fn lemma_ip(
    ir: Seq<IrInsn>,
    p: Seq<BpfInsn>,
    b: int,
    lt: u128,
    lf: u128,
    vt: u32,
    vf: u32,
    s: bpf::Machine,
    input: bpf::Input,
)
    requires
        assembled(ir, p),
        0 <= b,
        b + 3 <= ir.len(),
        ir.subrange(b, b + 3) == codegen::code_of(Expr::Ip, lt, lf, 0).0,
        ends_in(p, target(ir, lt), input, vt),
        ends_in(p, target(ir, lf), input, vf),
        s.pc == at(ir, b),
    ensures
        bpf::run(p, s, input) == pick(version_is_4(input), vt, vf),
{
    lemma_opcodes();
    let c = codegen::code_of(Expr::Ip, lt, lf, 0).0;
    assert(ir[b] == c[0] && ir[b + 1] == c[1] && ir[b + 2] == c[2]);
    let load = BpfInsn { code: bpf::BPF_LD | bpf::BPF_B | bpf::BPF_ABS, jt: 0, jf: 0, k: 0 };
    let shift = BpfInsn { code: bpf::BPF_ALU | bpf::BPF_RSH | bpf::BPF_K, jt: 0, jf: 0, k: 4 };
    lemma_plain(ir, p, b, load, s, input);
    match input.byte(0) {
        Some(v) => {
            let s1 = bpf::Machine { pc: s.pc + 1, a: v as u32, ..s };
            lemma_plain(ir, p, b + 1, shift, s1, input);
            let s2 = bpf::Machine { pc: s.pc + 2, a: (v as u32) >> 4u32, ..s };
            lemma_high_nibble(v);
            lemma_jump(ir, p, b + 2, bpf::BPF_JEQ, 4, lt, lf, s2, input);
        },
        None => {},
    }
}

#[verifier::spinoff_prover]
#[verifier::rlimit(40)]
proof fn lemma_port(
    ir: Seq<IrInsn>,
    p: Seq<BpfInsn>,
    b: int,
    dir: Dir,
    port: u16,
    lt: u128,
    lf: u128,
    n: u128,
    vt: u32,
    vf: u32,
    s: bpf::Machine,
    input: bpf::Input,
)
    requires
        assembled(ir, p),
        0 <= b,
        ({
            let c = codegen::code_of(Expr::Port(dir, port), lt, lf, n).0;
            b + c.len() <= ir.len() && ir.subrange(b, b + c.len()) == c
        }),
        ends_in(p, target(ir, lt), input, vt),
        ends_in(p, target(ir, lf), input, vf),
        s.pc == at(ir, b),
    ensures
        bpf::run(p, s, input) == pick(port_is(input, dir, port), vt, vf),
{
    lemma_opcodes();
    let code = bpf::BPF_LD | bpf::BPF_H | bpf::BPF_IND;
    let c = codegen::code_of(Expr::Port(dir, port), lt, lf, n).0;
    let d = codegen::directed(code, 0, 2, dir, codegen::widen(port), lt, lf, n).0;
    assert(ir[b] == c[0]);
    assert(ir.subrange(b + 1, b + 1 + d.len()) =~= ir.subrange(b, b + c.len()).subrange(
        1,
        c.len() as int,
    ));
    assert(c.subrange(1, c.len() as int) =~= d);
    let load = BpfInsn { code: bpf::BPF_LDX | bpf::BPF_B | bpf::BPF_MSH, jt: 0, jf: 0, k: 0 };
    lemma_plain(ir, p, b, load, s, input);
    match input.byte(0) {
        Some(v) => {
            let x = (4 * (v % 16)) as u32;
            let s1 = bpf::Machine { pc: s.pc + 1, x, ..s };
            lemma_directed(
                ir,
                p,
                b + 1,
                code,
                0,
                2,
                dir,
                codegen::widen(port),
                lt,
                lf,
                n,
                vt,
                vf,
                s1,
                input,
            );
        },
        None => {},
    }
}

/// A run at the code of an expression ends as the answer to the expression says.
proof fn lemma_expr(
    ir: Seq<IrInsn>,
    p: Seq<BpfInsn>,
    b: int,
    e: Expr,
    lt: u128,
    lf: u128,
    n: u128,
    vt: u32,
    vf: u32,
    input: bpf::Input,
)
    requires
        assembled(ir, p),
        0 <= b,
        ({
            let c = codegen::code_of(e, lt, lf, n).0;
            b + c.len() <= ir.len() && ir.subrange(b, b + c.len()) == c
        }),
        ends_in(p, target(ir, lt), input, vt),
        ends_in(p, target(ir, lf), input, vf),
    ensures
        ends_in(p, at(ir, b), input, pick(holds(e, input), vt, vf)),
    decreases e,
{
    let c = codegen::code_of(e, lt, lf, n).0;
    match e {
        Expr::And(l, r) => {
            let (cl, n1) = codegen::code_of(*l, n, lf, codegen::succ(n));
            let (cr, _) = codegen::code_of(*r, lt, lf, n1);
            let m = b + cl.len();
            lemma_parts(ir, b, cl, n, cr);
            lemma_expr(ir, p, m + 1, *r, lt, lf, n1, vt, vf, input);
            lemma_label_target(ir, m, n);
            lemma_at_next(ir, m);
            let vr = pick(holds(*r, input), vt, vf);
            lemma_expr(ir, p, b, *l, n, lf, codegen::succ(n), vr, vf, input);
        },
        Expr::Or(l, r) => {
            let (cl, n1) = codegen::code_of(*l, lt, n, codegen::succ(n));
            let (cr, _) = codegen::code_of(*r, lt, lf, n1);
            let m = b + cl.len();
            lemma_parts(ir, b, cl, n, cr);
            lemma_expr(ir, p, m + 1, *r, lt, lf, n1, vt, vf, input);
            lemma_label_target(ir, m, n);
            lemma_at_next(ir, m);
            let vr = pick(holds(*r, input), vt, vf);
            lemma_expr(ir, p, b, *l, lt, n, codegen::succ(n), vt, vr, input);
        },
        Expr::Not(i) => {
            lemma_expr(ir, p, b, *i, lf, lt, n, vf, vt, input);
        },
        _ => {
            assert forall|s: bpf::Machine| s.pc == at(ir, b) implies #[trigger] bpf::run(
                p,
                s,
                input,
            ) == pick(holds(e, input), vt, vf) by {
                lemma_leaf(ir, p, b, e, lt, lf, n, vt, vf, s, input);
            }
        },
    }
}

/// Where two pieces of code with a label between them stand.
proof fn lemma_parts(ir: Seq<IrInsn>, b: int, cl: Seq<IrInsn>, n: u128, cr: Seq<IrInsn>)
    requires
        0 <= b,
        b + cl.len() + 1 + cr.len() <= ir.len(),
        ir.subrange(b, b + cl.len() + 1 + cr.len()) == cl + seq![IrInsn::Label(n)] + cr,
    ensures
        ir.subrange(b, b + cl.len()) == cl,
        ir[b + cl.len()] == IrInsn::Label(n),
        ir.subrange(b + cl.len() + 1, b + cl.len() + 1 + cr.len()) == cr,
{
    let whole = cl + seq![IrInsn::Label(n)] + cr;
    let sub = ir.subrange(b, b + cl.len() + 1 + cr.len());
    assert forall|i: int| 0 <= i < whole.len() implies ir[b + i] == #[trigger] whole[i] by {
        assert(sub[i] == ir[b + i]);
    }
    assert forall|i: int| 0 <= i < cl.len() implies ir[b + i] == #[trigger] cl[i] by {
        assert(whole[i] == cl[i]);
    }
    assert(ir.subrange(b, b + cl.len()) =~= cl);
    assert(whole[cl.len() as int] == IrInsn::Label(n));
    assert forall|i: int| 0 <= i < cr.len() implies ir[b + cl.len() + 1 + i] == #[trigger] cr[i] by {
        assert(whole[cl.len() + 1 + i] == cr[i]);
    }
    assert(ir.subrange(b + cl.len() + 1, b + cl.len() + 1 + cr.len()) =~= cr);
}

/// The code of a filter holds no label twice, and its jumps go to labels that it holds.
pub proof fn lemma_filter_code(e: Expr)
    requires
        labels_fit(e),
    ensures
        codegen::jumps_closed(codegen::filter_code(e)),
        labels_distinct(codegen::filter_code(e)),
{
    let n1 = 2 + codegen::labels(e);
    let c = codegen::code_of(e, 0, 1, 2).0;
    let ir = codegen::filter_code(e);
    codegen::lemma_code_owns_labels(e, 0, 1, 2);
    let m = c.len() as int;
    assert(ir[m] == IrInsn::Label(0));
    assert(ir[m + 2] == IrInsn::Label(1));
    assert forall|i: int| 0 <= i < m implies #[trigger] ir[i] == c[i] by {}
    assert(labels_distinct(ir)) by {
        assert forall|i: int, j: int|
            0 <= i < j < ir.len() && (#[trigger] ir[i]) is Label && (#[trigger] ir[j]) is Label
            implies ir[i] != ir[j] by {
            if j < m {
                assert(c[i] != c[j]);
            }
        }
    }
    assert forall|l: u128| 0 <= l < n1 implies codegen::label_offsets(ir).contains_key(l) by {
        let i = if l == 0 {
            m
        } else if l == 1 {
            m + 2
        } else {
            assert(codegen::holds_label(c, l));
            choose|i: int| 0 <= i < c.len() && #[trigger] c[i] == IrInsn::Label(l)
        };
        assert(ir[i] == IrInsn::Label(l));
        assert forall|j: int| i < j < ir.len() implies #[trigger] ir[j] != IrInsn::Label(l) by {
            if ir[j] is Label {
                assert(ir[i] != ir[j]);
            }
        }
        lemma_label_target(ir, i, l);
    }
    assert forall|i: int| 0 <= i < ir.len() implies match #[trigger] ir[i] {
        IrInsn::Jmp(l) => codegen::label_offsets(ir).contains_key(l),
        IrInsn::JmpCond(_, _, t, f) => codegen::label_offsets(ir).contains_key(t)
            && codegen::label_offsets(ir).contains_key(f),
        _ => true,
    } by {
        if i < m {
            assert(ir[i] == c[i]);
        }
    }
}

/// The labels that the code of `e` needs can be numbered.
pub open spec fn labels_fit(e: Expr) -> bool {
    codegen::labels(e) + 2 <= u128::MAX
}

/// A compiled filter decides its expression: on every packet and address its program returns all
/// ones where the expression holds, and zero where the expression does not hold or looks at bytes
/// that the packet does not have.
pub proof fn law_compiled_filter_decides(e: Expr, p: Seq<BpfInsn>, input: bpf::Input)
    requires
        labels_fit(e),
        codegen::resolved(
            codegen::filter_code(e),
            codegen::label_offsets(codegen::filter_code(e)),
        ) == Ok::<Seq<BpfInsn>, Seq<char>>(p),
    ensures
        bpf::verdict(p, input) == filter_verdict(e, input),
{
    let ir = codegen::filter_code(e);
    let c = codegen::code_of(e, 0, 1, 2).0;
    let m = c.len() as int;
    lemma_filter_code(e);
    lemma_opcodes();
    assert(ir[m] == IrInsn::Label(0));
    assert(ir[m + 2] == IrInsn::Label(1));
    lemma_label_target(ir, m, 0);
    lemma_label_target(ir, m + 2, 1);
    lemma_at_next(ir, m);
    lemma_at_next(ir, m + 2);
    let accept = BpfInsn { code: bpf::BPF_RET | bpf::BPF_K, jt: 0, jf: 0, k: u32::MAX };
    let reject = BpfInsn { code: bpf::BPF_RET | bpf::BPF_K, jt: 0, jf: 0, k: 0 };
    assert(ir[m + 1] == IrInsn::Insn(accept));
    assert(ir[m + 3] == IrInsn::Insn(reject));
    assert(ends_in(p, target(ir, 0), input, u32::MAX)) by {
        assert forall|s: bpf::Machine| s.pc == target(ir, 0) implies #[trigger] bpf::run(
            p,
            s,
            input,
        ) == u32::MAX by {
            lemma_plain(ir, p, m + 1, accept, s, input);
        }
    }
    assert(ends_in(p, target(ir, 1), input, 0)) by {
        assert forall|s: bpf::Machine| s.pc == target(ir, 1) implies #[trigger] bpf::run(
            p,
            s,
            input,
        ) == 0 by {
            lemma_plain(ir, p, m + 3, reject, s, input);
        }
    }
    assert(ir.subrange(0, m) =~= c);
    lemma_expr(ir, p, 0, e, 0, 1, 2, u32::MAX, 0, input);
    assert(at(ir, 0) == 0);
    lemma_resolved_at(ir, codegen::label_offsets(ir), p, m + 1);
    assert(bpf::run(p, bpf::initial(), input) == pick(holds(e, input), u32::MAX, 0));
}

/// A program of one return returns what it says.
pub proof fn lemma_return_program(p: Seq<BpfInsn>)
    requires
        p.len() == 1,
        p[0].code == bpf::BPF_RET | bpf::BPF_K,
    ensures
        forall|input: bpf::Input| #[trigger] bpf::verdict(p, input) == p[0].k,
{
    lemma_opcodes();
}

} // verus!
