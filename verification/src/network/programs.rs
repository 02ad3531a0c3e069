//! What small filter programs give: one law for each kind of instruction.
use vstd::prelude::*;
use crate::network::bpf;
use crate::network::bpf::{BpfInsn, Input, Machine, Step};

verus! {

/// An instruction that does not jump.
pub open spec fn plain(code: u16, k: u32) -> BpfInsn {
    BpfInsn { code, jt: 0, jf: 0, k }
}

/// Returns the accumulator: a program returns its index register or a constant, so that the value
/// goes through a scratch cell.
pub open spec fn return_a() -> Seq<BpfInsn> {
    seq![plain(0x02, 0), plain(0x61, 0), plain(0x0e, 0)]
}

/// What a program gives that loads the accumulator and returns it.
pub open spec fn loaded(load: BpfInsn, input: Input) -> u32 {
    bpf::verdict(seq![load] + return_a(), input)
}

/// A program that loads the accumulator gets behind the load.
pub open spec fn gets_by(load: BpfInsn, input: Input) -> bool {
    bpf::verdict(seq![load, plain(0x06, 1)], input) == 1
}

/// What a program gives that computes with `a` in the accumulator and `b` in the instruction.
pub open spec fn computed(code: u16, a: u32, b: u32, input: Input) -> u32 {
    bpf::verdict(seq![plain(0x00, a), plain(code, b)] + return_a(), input)
}

/// What a program gives that computes with `a` in the accumulator and `b` in the index register.
pub open spec fn computed_with_x(code: u16, a: u32, b: u32, input: Input) -> u32 {
    bpf::verdict(
        seq![plain(0x01, b), plain(0x00, a), plain((code + 8) as u16, 0)] + return_a(),
        input,
    )
}

/// How many instructions a conditional jump leaves out, with `a` in the accumulator and `b` in the
/// instruction.
pub open spec fn left_out(code: u16, a: u32, b: u32, jt: u8, jf: u8, input: Input) -> u32 {
    bpf::verdict(
        seq![plain(0x00, a), (BpfInsn { code, jt, jf, k: b })] + Seq::new(
            256,
            |i: int| plain(0x06, i as u32),
        ),
        input,
    )
}

proof fn lemma_code(code: u16)
    requires
        code < 0x100,
    ensures
        code & 0x07 == code % 8,
        code & 0x08 == 8 * (code / 8 % 2),
        code & 0x18 == 8 * (code / 8 % 4),
        code & 0xe0 == 32 * (code / 32),
        code & 0xf0 == 16 * (code / 16),
{
    assert(code & 0x07 == code % 8 && code & 0x08 == 8 * (code / 8 % 2) && code & 0x18 == 8 * (code
        / 8 % 4) && code & 0xe0 == 32 * (code / 32) && code & 0xf0 == 16 * (code / 16))
        by (bit_vector)
        requires
            code < 0x100,
    ;
}

/// The instruction at which a program stands is the next one that it takes.
proof fn lemma_takes(program: Seq<BpfInsn>, s: Machine, input: Input)
    requires
        0 <= s.pc < program.len(),
    ensures
        bpf::step(program[s.pc], program.len(), s, input) matches Step::Done(v) ==> bpf::run(
            program,
            s,
            input,
        ) == v,
        bpf::step(program[s.pc], program.len(), s, input) matches Step::Next(t) ==> (t.pc > s.pc
            ==> bpf::run(program, s, input) == bpf::run(program, t, input)),
{
}

/// A constant is put into the accumulator or into the index register.
proof fn lemma_constant(program: Seq<BpfInsn>, s: Machine, input: Input)
    requires
        0 <= s.pc < program.len(),
        program[s.pc].code == 0x00 || program[s.pc].code == 0x01,
    ensures
        program[s.pc].code == 0x00 ==> bpf::run(program, s, input) == bpf::run(
            program,
            (Machine { pc: s.pc + 1, a: program[s.pc].k, ..s }),
            input,
        ),
        program[s.pc].code == 0x01 ==> bpf::run(program, s, input) == bpf::run(
            program,
            (Machine { pc: s.pc + 1, x: program[s.pc].k, ..s }),
            input,
        ),
{
    lemma_code(program[s.pc].code);
    lemma_takes(program, s, input);
}

proof fn lemma_returns_a(front: Seq<BpfInsn>, s: Machine, input: Input)
    requires
        s.pc == front.len(),
        s.m.len() == 16,
    ensures
        bpf::run(front + return_a(), s, input) == s.a,
{
    let p = front + return_a();
    let n = front.len() as int;
    assert(p[n] == plain(0x02, 0) && p[n + 1] == plain(0x61, 0) && p[n + 2] == plain(0x0e, 0));
    lemma_code(0x02);
    lemma_code(0x61);
    lemma_code(0x0e);
    let stored = Machine { pc: n + 1, m: s.m.update(0, s.a), ..s };
    lemma_takes(p, s, input);
    let moved = Machine { pc: n + 2, x: s.a, ..stored };
    lemma_takes(p, stored, input);
    lemma_takes(p, moved, input);
}

proof fn lemma_loaded(load: BpfInsn, input: Input)
    requires
        load.code < 0x100,
        load.code % 8 == 0,
    ensures
        match bpf::loaded_a(load, 0, bpf::initial().m, input) {
            Some(v) => gets_by(load, input) && loaded(load, input) == v,
            None => !gets_by(load, input) && loaded(load, input) == 0,
        },
{
    let s = bpf::initial();
    lemma_code(load.code);
    lemma_code(0x06);
    let p = seq![load] + return_a();
    let q = seq![load, plain(0x06, 1)];
    assert(p[0] == load);
    lemma_takes(p, s, input);
    lemma_takes(q, s, input);
    match bpf::loaded_a(load, 0, s.m, input) {
        Some(v) => {
            let t = Machine { pc: 1, a: v, ..s };
            lemma_returns_a(seq![load], t, input);
            lemma_takes(q, t, input);
        },
        None => {},
    }
}

proof fn lemma_computes(program: Seq<BpfInsn>, s: Machine, b: u32, input: Input)
    requires
        0 <= s.pc < program.len(),
        program[s.pc].code < 0x100,
        program[s.pc].code % 8 == 4,
        b == (if program[s.pc].code / 8 % 2 == 1 {
            s.x
        } else {
            program[s.pc].k
        }),
    ensures
        match bpf::arithmetic(program[s.pc].code, s.a, b) {
            Some(v) => bpf::run(program, s, input) == bpf::run(
                program,
                (Machine { pc: s.pc + 1, a: v, ..s }),
                input,
            ),
            None => bpf::run(program, s, input) == 0,
        },
{
    let insn = program[s.pc];
    lemma_code(insn.code);
    assert(bpf::operand(insn, s.x) == b);
    lemma_takes(program, s, input);
}

proof fn lemma_same_operation(code: u16, a: u32, b: u32)
    requires
        code < 0x100,
        code % 16 == 4,
    ensures
        bpf::arithmetic((code + 8) as u16, a, b) == bpf::arithmetic(code, a, b),
{
    lemma_code(code);
    lemma_code((code + 8) as u16);
    assert((code + 8) as u16 & 0xf0 == code & 0xf0);
}

proof fn lemma_computed(code: u16, a: u32, b: u32, input: Input)
    requires
        code < 0x100,
        code % 16 == 4,
    ensures
        match bpf::arithmetic(code, a, b) {
            Some(v) => computed(code, a, b, input) == v && computed_with_x(code, a, b, input) == v,
            None => computed(code, a, b, input) == 0 && computed_with_x(code, a, b, input) == 0,
        },
{
    let s = bpf::initial();
    let with_x = (code + 8) as u16;
    let front = seq![plain(0x00, a), plain(code, b)];
    let p = front + return_a();
    assert(p[0] == plain(0x00, a) && p[1] == plain(code, b));
    let t = Machine { pc: 1, a, ..s };
    lemma_constant(p, s, input);
    lemma_computes(p, t, b, input);
    let front_x = seq![plain(0x01, b), plain(0x00, a), plain(with_x, 0)];
    let q = front_x + return_a();
    assert(q[0] == plain(0x01, b) && q[1] == plain(0x00, a) && q[2] == plain(with_x, 0));
    let sx = Machine { pc: 1, x: b, ..s };
    let tx = Machine { pc: 2, a, ..sx };
    lemma_constant(q, s, input);
    lemma_constant(q, sx, input);
    lemma_same_operation(code, a, b);
    lemma_computes(q, tx, b, input);
    let found = bpf::arithmetic(code, a, b);
    if found is Some {
        lemma_returns_a(front, Machine { pc: 2, a: found->0, ..t }, input);
        lemma_returns_a(front_x, Machine { pc: 3, a: found->0, ..tx }, input);
    }
}

/// Arithmetic is that of 32-bit words, with the second operand in the instruction or in the index
/// register. A division by zero ends the program with 0.
pub proof fn law_arithmetic(a: u32, b: u32, input: Input)
    ensures
        computed(0x04, a, b, input) == (a + b) % 0x1_0000_0000,
        computed(0x14, a, b, input) == (a - b) % 0x1_0000_0000,
        computed(0x24, a, b, input) == (a * b) % 0x1_0000_0000,
        b != 0 ==> computed(0x34, a, b, input) == a / b,
        b == 0 ==> computed(0x34, a, b, input) == 0,
        computed(0x44, a, b, input) == a | b,
        computed(0x54, a, b, input) == a & b,
        computed(0x64, a, b, input) == a << (b % 32),
        computed(0x74, a, b, input) == a >> (b % 32),
        computed(0x84, a, b, input) == (0x1_0000_0000 - a) % 0x1_0000_0000,
        forall|code: u16|
            code < 0x100 && code % 16 == 4 ==> #[trigger] computed_with_x(code, a, b, input)
                == computed(code, a, b, input),
{
    lemma_computed(0x04, a, b, input);
    lemma_computed(0x14, a, b, input);
    lemma_computed(0x24, a, b, input);
    lemma_computed(0x34, a, b, input);
    lemma_computed(0x44, a, b, input);
    lemma_computed(0x54, a, b, input);
    lemma_computed(0x64, a, b, input);
    lemma_computed(0x74, a, b, input);
    lemma_computed(0x84, a, b, input);
    lemma_code(0x04);
    lemma_code(0x14);
    lemma_code(0x24);
    lemma_code(0x34);
    lemma_code(0x44);
    lemma_code(0x54);
    lemma_code(0x64);
    lemma_code(0x74);
    lemma_code(0x84);
    assert forall|code: u16|
        code < 0x100 && code % 16 == 4 implies #[trigger] computed_with_x(code, a, b, input)
        == computed(code, a, b, input) by {
        lemma_computed(code, a, b, input);
    }
}

proof fn lemma_jumps(program: Seq<BpfInsn>, s: Machine, input: Input)
    requires
        0 <= s.pc,
        s.pc + 256 < program.len(),
        0x10 <= program[s.pc].code < 0x100,
        program[s.pc].code % 16 == 5,
    ensures
        match bpf::condition(program[s.pc].code, s.a, program[s.pc].k) {
            Some(taken) => bpf::run(program, s, input) == bpf::run(
                program,
                (Machine {
                    pc: s.pc + 1 + (if taken {
                        program[s.pc].jt
                    } else {
                        program[s.pc].jf
                    }),
                    ..s
                }),
                input,
            ),
            None => bpf::run(program, s, input) == 0,
        },
{
    let insn = program[s.pc];
    lemma_code(insn.code);
    assert(bpf::operand(insn, s.x) == insn.k);
    lemma_takes(program, s, input);
}

proof fn lemma_returns(program: Seq<BpfInsn>, s: Machine, input: Input)
    requires
        0 <= s.pc < program.len(),
        program[s.pc].code == 0x06,
    ensures
        bpf::run(program, s, input) == program[s.pc].k,
{
    lemma_code(0x06);
    lemma_takes(program, s, input);
}

proof fn lemma_left_out(code: u16, a: u32, b: u32, jt: u8, jf: u8, input: Input)
    requires
        0x10 <= code < 0x100,
        code % 16 == 5,
    ensures
        match bpf::condition(code, a, b) {
            Some(true) => left_out(code, a, b, jt, jf, input) == jt,
            Some(false) => left_out(code, a, b, jt, jf, input) == jf,
            None => left_out(code, a, b, jt, jf, input) == 0,
        },
{
    let s = bpf::initial();
    let rets = Seq::new(256, |i: int| plain(0x06, i as u32));
    let jump = BpfInsn { code, jt, jf, k: b };
    let p = seq![plain(0x00, a), jump] + rets;
    assert(p[0] == plain(0x00, a) && p[1] == jump);
    let t = Machine { pc: 1, a, ..s };
    lemma_constant(p, s, input);
    lemma_jumps(p, t, input);
    assert(p[2 + jt] == plain(0x06, jt as u32));
    assert(p[2 + jf] == plain(0x06, jf as u32));
    lemma_returns(p, Machine { pc: 2 + jt, ..t }, input);
    lemma_returns(p, Machine { pc: 2 + jf, ..t }, input);
}

/// A conditional jump leaves out as many instructions as its first distance says where the
/// condition holds, and as its second one says where it does not.
pub proof fn law_conditional_jumps(a: u32, b: u32, jt: u8, jf: u8, input: Input)
    ensures
        a == b ==> left_out(0x15, a, b, jt, jf, input) == jt,
        a != b ==> left_out(0x15, a, b, jt, jf, input) == jf,
        a > b ==> left_out(0x25, a, b, jt, jf, input) == jt,
        a <= b ==> left_out(0x25, a, b, jt, jf, input) == jf,
        a >= b ==> left_out(0x35, a, b, jt, jf, input) == jt,
        a < b ==> left_out(0x35, a, b, jt, jf, input) == jf,
        a & b != 0 ==> left_out(0x45, a, b, jt, jf, input) == jt,
        a & b == 0 ==> left_out(0x45, a, b, jt, jf, input) == jf,
{
    lemma_left_out(0x15, a, b, jt, jf, input);
    lemma_left_out(0x25, a, b, jt, jf, input);
    lemma_left_out(0x35, a, b, jt, jf, input);
    lemma_left_out(0x45, a, b, jt, jf, input);
    lemma_code(0x15);
    lemma_code(0x25);
    lemma_code(0x35);
    lemma_code(0x45);
}

/// An unconditional jump leaves out as many instructions as it says, whatever its other distances
/// are. A jump out of the program ends it with 0.
pub proof fn law_unconditional_jump(
    k: u32,
    jt: u8,
    jf: u8,
    rest: Seq<BpfInsn>,
    v: u32,
    input: Input,
)
    ensures
        k < rest.len() && rest[k as int] == plain(0x06, v) ==> bpf::verdict(
            seq![(BpfInsn { code: 0x05, jt, jf, k })] + rest,
            input,
        ) == v,
        k >= rest.len() ==> bpf::verdict(
            seq![(BpfInsn { code: 0x05, jt, jf, k })] + rest,
            input,
        ) == 0,
{
    let s = bpf::initial();
    let jump = BpfInsn { code: 0x05, jt, jf, k };
    let p = seq![jump] + rest;
    assert(p[0] == jump);
    lemma_code(0x05);
    lemma_code(0x06);
    lemma_takes(p, s, input);
    if k < rest.len() && rest[k as int] == plain(0x06, v) {
        assert(p[1 + k] == rest[k as int]);
        lemma_takes(p, Machine { pc: 1 + k, ..s }, input);
    }
}

/// A program that is empty takes every packet. A return gives its constant, or the index register.
/// A program without a return at its end, or with an unknown instruction, gives 0.
pub proof fn law_returns(k: u32, x: u32, rest: Seq<BpfInsn>, unknown: BpfInsn, input: Input)
    requires
        unknown.code < 0x100,
        unknown.code % 8 == 7,
    ensures
        bpf::verdict(Seq::empty(), input) == u32::MAX,
        bpf::verdict(seq![plain(0x06, k)] + rest, input) == k,
        bpf::verdict(seq![plain(0x01, x), plain(0x0e, k)] + rest, input) == x,
        bpf::verdict(seq![plain(0x00, k)], input) == 0,
        bpf::verdict(seq![unknown] + rest, input) == 0,
{
    let s = bpf::initial();
    lemma_code(0x06);
    lemma_code(0x0e);
    lemma_code(unknown.code);
    let p = seq![plain(0x06, k)] + rest;
    assert(p[0] == plain(0x06, k));
    lemma_takes(p, s, input);
    let q = seq![plain(0x01, x), plain(0x0e, k)] + rest;
    assert(q[0] == plain(0x01, x) && q[1] == plain(0x0e, k));
    lemma_constant(q, s, input);
    lemma_takes(q, Machine { pc: 1, x, ..s }, input);
    let one = seq![plain(0x00, k)];
    lemma_constant(one, s, input);
    let u = seq![unknown] + rest;
    assert(u[0] == unknown);
    lemma_takes(u, s, input);
}

/// A load from the packet takes the bytes at its place, most significant first; it needs all of
/// them, and ends the program with 0 where one is missing.
pub proof fn law_loads_from_packet(k: u32, input: Input)
    requires
        k < 0xffff_f000,
    ensures
        ({
            let p = input.packet;
            let n = p.len();
            let b = |i: int| p[k + i] as int;
            &&& gets_by(plain(0x20, k), input) == (k + 3 < n)
            &&& k + 3 < n ==> loaded(plain(0x20, k), input) == 0x100_0000 * b(0) + 0x1_0000 * b(1)
                + 0x100 * b(2) + b(3)
            &&& gets_by(plain(0x28, k), input) == (k + 1 < n)
            &&& k + 1 < n ==> loaded(plain(0x28, k), input) == 0x100 * b(0) + b(1)
            &&& gets_by(plain(0x30, k), input) == (k < n)
            &&& k < n ==> loaded(plain(0x30, k), input) == b(0)
        }),
{
    lemma_code(0x20);
    lemma_code(0x28);
    lemma_code(0x30);
    lemma_loaded(plain(0x20, k), input);
    lemma_loaded(plain(0x28, k), input);
    lemma_loaded(plain(0x30, k), input);
}

/// Constants, and the length of the packet.
pub proof fn law_other_loads(k: u32, input: Input)
    ensures
        loaded(plain(0x00, k), input) == k,
        input.packet.len() <= u32::MAX ==> loaded(plain(0x80, k), input) == input.packet.len(),
{
    lemma_code(0x00);
    lemma_code(0x80);
    lemma_loaded(plain(0x00, k), input);
    lemma_loaded(plain(0x80, k), input);
}

/// The value of four bytes, least significant first.
pub open spec fn four(b: Seq<u8>, i: int) -> int {
    b[i] + 0x100 * b[i + 1] + 0x1_0000 * b[i + 2] + 0x100_0000 * b[i + 3]
}

/// Five places behind the end of all packets hold the address: its flags, the two interfaces, the
/// process where it is that of a socket or a flow, and the layer. The others hold nothing.
pub proof fn law_loads_from_address(k: u32, input: Input)
    ensures
        ({
            let a = input.address;
            let d = a.data.bytes();
            let layer = a.flags % 0x100;
            &&& loaded(plain(0x20, 0xffff_f000), input) == a.flags
            &&& loaded(plain(0x20, 0xffff_f004), input) == four(d, 0)
            &&& loaded(plain(0x20, 0xffff_f008), input) == four(d, 4)
            &&& layer == 2 || layer == 3 ==> loaded(plain(0x20, 0xffff_f00c), input) == four(d, 8)
            &&& layer != 2 && layer != 3 ==> loaded(plain(0x20, 0xffff_f00c), input) == 0
            &&& loaded(plain(0x20, 0xffff_f010), input) == layer
            &&& k >= 0xffff_f000 ==> gets_by(plain(0x20, k), input) == (k % 4 == 0 && k
                <= 0xffff_f010)
        }),
{
    lemma_code(0x20);
    lemma_loaded(plain(0x20, 0xffff_f000), input);
    lemma_loaded(plain(0x20, 0xffff_f004), input);
    lemma_loaded(plain(0x20, 0xffff_f008), input);
    lemma_loaded(plain(0x20, 0xffff_f00c), input);
    lemma_loaded(plain(0x20, 0xffff_f010), input);
    lemma_loaded(plain(0x20, k), input);
    reveal(crate::bytes::le32);
}

/// A load at an index finds what a load at the sum of the index and the constant finds; sums
/// wrap around.
pub proof fn law_indexed_loads(code: u16, x: u32, k: u32, input: Input)
    requires
        code == 0x20 || code == 0x28 || code == 0x30,
        (x + k) % 0x1_0000_0000 < 0xffff_f000,
    ensures
        bpf::verdict(
            seq![plain(0x01, x), plain((code + 0x20) as u16, k)] + return_a(),
            input,
        ) == loaded(plain(code, ((x + k) % 0x1_0000_0000) as u32), input),
{
    let s = bpf::initial();
    let at = ((x + k) % 0x1_0000_0000) as u32;
    let indexed = plain((code + 0x20) as u16, k);
    let front = seq![plain(0x01, x), indexed];
    let p = front + return_a();
    assert(p[0] == plain(0x01, x) && p[1] == indexed);
    let t = Machine { pc: 1, x, ..s };
    lemma_code(code);
    lemma_code(indexed.code);
    lemma_constant(p, s, input);
    lemma_takes(p, t, input);
    lemma_loaded(plain(code, at), input);
    match bpf::loaded_a(indexed, x, s.m, input) {
        Some(v) => {
            lemma_returns_a(front, Machine { pc: 2, a: v, ..t }, input);
        },
        None => {},
    }
}

/// The length of the header of an IPv4 packet, which the index register gets from the packet: four
/// times the lower half of a byte.
pub proof fn law_header_length(k: u32, input: Input)
    ensures
        k < input.packet.len() ==> bpf::verdict(seq![plain(0xa1, k), plain(0x0e, 0)], input) == 4
            * (input.packet[k as int] % 16),
        k >= input.packet.len() ==> bpf::verdict(
            seq![plain(0xa1, k), plain(0x06, u32::MAX)],
            input,
        ) == 0,
        input.packet.len() <= u32::MAX ==> bpf::verdict(
            seq![plain(0x81, k), plain(0x0e, 0)],
            input,
        ) == input.packet.len(),
{
    let s = bpf::initial();
    lemma_code(0xa1);
    lemma_code(0x81);
    lemma_code(0x0e);
    let p = seq![plain(0xa1, k), plain(0x0e, 0)];
    let q = seq![plain(0xa1, k), plain(0x06, u32::MAX)];
    let r = seq![plain(0x81, k), plain(0x0e, 0)];
    lemma_takes(p, s, input);
    lemma_takes(q, s, input);
    lemma_takes(r, s, input);
    lemma_takes(r, Machine { pc: 1, x: input.length(), ..s }, input);
    if k < input.packet.len() {
        let v = (4 * (input.packet[k as int] % 16)) as u32;
        lemma_takes(p, Machine { pc: 1, x: v, ..s }, input);
    }
}

/// There are sixteen scratch cells, which hold 0 at first. A cell keeps what the accumulator or the
/// index register put there, and no other cell changes.
pub proof fn law_scratch_cells(v: u32, i: u32, j: u32, input: Input)
    ensures
        ({
            let found = if i % 16 == j % 16 {
                v
            } else {
                0
            };
            &&& bpf::verdict(
                seq![plain(0x00, v), plain(0x02, i), plain(0x61, j), plain(0x0e, 0)],
                input,
            ) == found
            &&& bpf::verdict(
                seq![plain(0x01, v), plain(0x03, i), plain(0x60, j)] + return_a(),
                input,
            ) == found
        }),
{
    let s = bpf::initial();
    let found = if i % 16 == j % 16 {
        v
    } else {
        0
    };
    lemma_code(0x02);
    lemma_code(0x03);
    lemma_code(0x60);
    lemma_code(0x61);
    lemma_code(0x0e);
    let m = s.m.update((i % 16) as int, v);
    let p = seq![plain(0x00, v), plain(0x02, i), plain(0x61, j), plain(0x0e, 0)];
    let p1 = Machine { pc: 1, a: v, ..s };
    let p2 = Machine { pc: 2, m, ..p1 };
    lemma_constant(p, s, input);
    lemma_takes(p, p1, input);
    lemma_takes(p, p2, input);
    lemma_takes(p, Machine { pc: 3, x: found, ..p2 }, input);
    let front = seq![plain(0x01, v), plain(0x03, i), plain(0x60, j)];
    let q = front + return_a();
    assert(q[0] == front[0] && q[1] == front[1] && q[2] == front[2]);
    let q1 = Machine { pc: 1, x: v, ..s };
    let q2 = Machine { pc: 2, m, ..q1 };
    lemma_constant(q, s, input);
    lemma_takes(q, q1, input);
    lemma_takes(q, q2, input);
    lemma_returns_a(front, Machine { pc: 3, a: found, ..q2 }, input);
}

} // verus!
