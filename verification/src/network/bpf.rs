//! Interpreter for classic BPF programs over a packet and its address.
//!
//! A program runs on an accumulator `a`, an index register `x` and sixteen scratch cells. Loads
//! outside the packet, unknown opcodes, divisions by zero and jumps out of the program all end
//! the run with the verdict 0.
use vstd::prelude::*;
use crate::bytes;
use crate::types::{DivertAddress, LAYER_FLOW, LAYER_SOCKET};

verus! {

#[derive(Clone, Copy, Debug, PartialEq, Eq, Structural)]
pub struct BpfInsn {
    pub code: u16,
    pub jt: u8,
    pub jf: u8,
    pub k: u32,
}

// Instruction classes
pub const BPF_CLASS_MASK: u16 = 0x07;

pub const BPF_LD: u16 = 0x00;

pub const BPF_LDX: u16 = 0x01;

pub const BPF_ST: u16 = 0x02;

pub const BPF_STX: u16 = 0x03;

pub const BPF_ALU: u16 = 0x04;

pub const BPF_JMP: u16 = 0x05;

pub const BPF_RET: u16 = 0x06;

// Load widths
pub const BPF_SIZE_MASK: u16 = 0x18;

pub const BPF_W: u16 = 0x00;

pub const BPF_H: u16 = 0x08;

pub const BPF_B: u16 = 0x10;

// Addressing modes
pub const BPF_MODE_MASK: u16 = 0xe0;

pub const BPF_IMM: u16 = 0x00;

pub const BPF_ABS: u16 = 0x20;

pub const BPF_IND: u16 = 0x40;

pub const BPF_MEM: u16 = 0x60;

pub const BPF_LEN: u16 = 0x80;

pub const BPF_MSH: u16 = 0xa0;

// Arithmetic and jump operations
pub const BPF_OP_MASK: u16 = 0xf0;

pub const BPF_ADD: u16 = 0x00;

pub const BPF_SUB: u16 = 0x10;

pub const BPF_MUL: u16 = 0x20;

pub const BPF_DIV: u16 = 0x30;

pub const BPF_OR: u16 = 0x40;

pub const BPF_AND: u16 = 0x50;

pub const BPF_LSH: u16 = 0x60;

pub const BPF_RSH: u16 = 0x70;

pub const BPF_NEG: u16 = 0x80;

pub const BPF_JA: u16 = 0x00;

pub const BPF_JEQ: u16 = 0x10;

pub const BPF_JGT: u16 = 0x20;

pub const BPF_JGE: u16 = 0x30;

pub const BPF_JSET: u16 = 0x40;

pub const BPF_SRC_MASK: u16 = 0x08;

pub const BPF_K: u16 = 0x00;

pub const BPF_X: u16 = 0x08;

// Virtual offsets at which an absolute load reads the address in place of the packet
pub const BPF_ADDR_BASE: u32 = 0xfffff000;

pub const BPF_ADDR_FLAGS_OFFSET: u32 = 0xfffff000;

pub const BPF_ADDR_IF_IDX_OFFSET: u32 = 0xfffff004;

pub const BPF_ADDR_SUB_IF_IDX_OFFSET: u32 = 0xfffff008;

pub const BPF_ADDR_PROCESS_ID_OFFSET: u32 = 0xfffff00c;

pub const BPF_ADDR_LAYER_OFFSET: u32 = 0xfffff010;

/// What a program runs on: the bytes of a packet and the address it came with.
pub struct BpfContext<'a> {
    pub packet: &'a [u8],
    pub address: &'a DivertAddress,
}

/// Mathematical model of a [`BpfContext`].
pub ghost struct Input {
    pub packet: Seq<u8>,
    pub address: DivertAddress,
}

impl<'a> View for BpfContext<'a> {
    type V = Input;

    open spec fn view(&self) -> Input {
        Input { packet: self.packet@, address: *self.address }
    }
}

impl Input {
    /// The big-endian 32-bit word at `offset`, if the packet holds all of it.
    pub open spec fn word(&self, offset: int) -> Option<u32> {
        if offset + 4 <= self.packet.len() {
            Some(bytes::be32(self.packet, offset))
        } else {
            None
        }
    }

    /// The big-endian 16-bit value at `offset`, if the packet holds all of it.
    pub open spec fn half(&self, offset: int) -> Option<u16> {
        if offset + 2 <= self.packet.len() {
            Some(bytes::be16(self.packet, offset))
        } else {
            None
        }
    }

    /// The byte at `offset`, if the packet holds it.
    pub open spec fn byte(&self, offset: int) -> Option<u8> {
        if offset < self.packet.len() {
            Some(self.packet[offset])
        } else {
            None
        }
    }

    /// What a load of the width encoded in `code` finds at `offset` of the packet.
    pub open spec fn sized(&self, code: u16, offset: int) -> Option<u32> {
        let size = code & BPF_SIZE_MASK;
        if size == BPF_W {
            self.word(offset)
        } else if size == BPF_H {
            match self.half(offset) {
                Some(v) => Some(v as u32),
                None => None,
            }
        } else if size == BPF_B {
            match self.byte(offset) {
                Some(v) => Some(v as u32),
                None => None,
            }
        } else {
            None
        }
    }

    /// What an absolute load finds at a virtual offset.
    pub open spec fn field(&self, offset: u32) -> Option<u32> {
        if offset == BPF_ADDR_FLAGS_OFFSET {
            Some(self.address.flags)
        } else if offset == BPF_ADDR_IF_IDX_OFFSET {
            Some(bytes::le32(self.address.data.bytes(), 0))
        } else if offset == BPF_ADDR_SUB_IF_IDX_OFFSET {
            Some(bytes::le32(self.address.data.bytes(), 4))
        } else if offset == BPF_ADDR_PROCESS_ID_OFFSET {
            let layer = self.address.flags % 0x100;
            if layer == LAYER_SOCKET || layer == LAYER_FLOW {
                Some(bytes::le32(self.address.data.bytes(), 8))
            } else {
                Some(0u32)
            }
        } else if offset == BPF_ADDR_LAYER_OFFSET {
            Some(self.address.flags % 0x100)
        } else {
            None
        }
    }

    /// Length of the packet as a 32-bit register holds it.
    pub open spec fn length(&self) -> u32 {
        (self.packet.len() % 0x1_0000_0000) as u32
    }
}

/// State of a running program.
#[verifier::ext_equal]
pub ghost struct Machine {
    pub pc: int,
    pub a: u32,
    pub x: u32,
    pub m: Seq<u32>,
}

/// What one instruction does: it ends the run, or it hands on a state.
pub ghost enum Step {
    Done(u32),
    Next(Machine),
}

/// Index of the scratch cell that `k` names.
pub open spec fn cell(k: u32) -> int {
    (k % 16) as int
}

/// The operand of an arithmetic or jump instruction, and the value of a return.
pub open spec fn operand(insn: BpfInsn, x: u32) -> u32 {
    if insn.code & BPF_SRC_MASK == BPF_X {
        x
    } else {
        insn.k
    }
}

/// What a load into the accumulator finds.
pub open spec fn loaded_a(insn: BpfInsn, x: u32, m: Seq<u32>, input: Input) -> Option<u32> {
    let mode = insn.code & BPF_MODE_MASK;
    if mode == BPF_IMM {
        Some(insn.k)
    } else if mode == BPF_ABS {
        if insn.k >= BPF_ADDR_BASE {
            input.field(insn.k)
        } else {
            input.sized(insn.code, insn.k as int)
        }
    } else if mode == BPF_IND {
        input.sized(insn.code, (x + insn.k) % 0x1_0000_0000)
    } else if mode == BPF_MEM {
        Some(m[cell(insn.k)])
    } else if mode == BPF_LEN {
        Some(input.length())
    } else {
        None
    }
}

/// What a load into the index register finds.
pub open spec fn loaded_x(insn: BpfInsn, m: Seq<u32>, input: Input) -> Option<u32> {
    let mode = insn.code & BPF_MODE_MASK;
    if mode == BPF_IMM {
        Some(insn.k)
    } else if mode == BPF_MEM {
        Some(m[cell(insn.k)])
    } else if mode == BPF_LEN {
        Some(input.length())
    } else if mode == BPF_MSH {
        match input.byte(insn.k as int) {
            Some(v) => Some((4 * (v % 16)) as u32),
            None => None,
        }
    } else {
        None
    }
}

/// Result of an arithmetic instruction on accumulator `a` and operand `src`.
pub open spec fn arithmetic(code: u16, a: u32, src: u32) -> Option<u32> {
    let op = code & BPF_OP_MASK;
    if op == BPF_ADD {
        Some(((a + src) % 0x1_0000_0000) as u32)
    } else if op == BPF_SUB {
        Some(((a - src) % 0x1_0000_0000) as u32)
    } else if op == BPF_MUL {
        Some(((a * src) % 0x1_0000_0000) as u32)
    } else if op == BPF_DIV {
        if src == 0 {
            None
        } else {
            Some(a / src)
        }
    } else if op == BPF_OR {
        Some(a | src)
    } else if op == BPF_AND {
        Some(a & src)
    } else if op == BPF_LSH {
        Some(a << (src % 32))
    } else if op == BPF_RSH {
        Some(a >> (src % 32))
    } else if op == BPF_NEG {
        Some(((0 - a) % 0x1_0000_0000) as u32)
    } else {
        None
    }
}

/// Whether a conditional jump on accumulator `a` and operand `src` is taken.
pub open spec fn condition(code: u16, a: u32, src: u32) -> Option<bool> {
    let op = code & BPF_OP_MASK;
    if op == BPF_JEQ {
        Some(a == src)
    } else if op == BPF_JGT {
        Some(a > src)
    } else if op == BPF_JGE {
        Some(a >= src)
    } else if op == BPF_JSET {
        Some(a & src != 0)
    } else {
        None
    }
}

/// A jump to `target` in a program of `len` instructions.
pub open spec fn goto(len: nat, s: Machine, target: int) -> Step {
    if target < len {
        Step::Next(Machine { pc: target, ..s })
    } else {
        Step::Done(0)
    }
}

/// What the instruction `insn` does in state `s`, in a program of `len` instructions.
pub open spec fn step(insn: BpfInsn, len: nat, s: Machine, input: Input) -> Step {
    let class = insn.code & BPF_CLASS_MASK;
    let next = Machine { pc: s.pc + 1, ..s };
    if class == BPF_LD {
        match loaded_a(insn, s.x, s.m, input) {
            Some(v) => Step::Next(Machine { a: v, ..next }),
            None => Step::Done(0),
        }
    } else if class == BPF_LDX {
        match loaded_x(insn, s.m, input) {
            Some(v) => Step::Next(Machine { x: v, ..next }),
            None => Step::Done(0),
        }
    } else if class == BPF_ST {
        Step::Next(Machine { m: s.m.update(cell(insn.k), s.a), ..next })
    } else if class == BPF_STX {
        Step::Next(Machine { m: s.m.update(cell(insn.k), s.x), ..next })
    } else if class == BPF_ALU {
        match arithmetic(insn.code, s.a, operand(insn, s.x)) {
            Some(v) => Step::Next(Machine { a: v, ..next }),
            None => Step::Done(0),
        }
    } else if class == BPF_JMP {
        if insn.code & BPF_OP_MASK == BPF_JA {
            goto(len, s, s.pc + 1 + insn.k)
        } else {
            match condition(insn.code, s.a, operand(insn, s.x)) {
                Some(taken) => goto(
                    len,
                    s,
                    s.pc + 1 + (if taken {
                        insn.jt
                    } else {
                        insn.jf
                    }),
                ),
                None => Step::Done(0),
            }
        }
    } else if class == BPF_RET {
        Step::Done(operand(insn, s.x))
    } else {
        Step::Done(0)
    }
}

/// Verdict of a program that is in state `s`.
pub open spec fn run(insns: Seq<BpfInsn>, s: Machine, input: Input) -> u32
    decreases insns.len() - s.pc,
{
    if 0 <= s.pc < insns.len() {
        match step(insns[s.pc], insns.len(), s, input) {
            Step::Done(v) => v,
            Step::Next(t) => if t.pc > s.pc {
                run(insns, t, input)
            } else {
                0
            },
        }
    } else {
        0
    }
}

/// State in which every program starts.
pub open spec fn initial() -> Machine {
    Machine { pc: 0, a: 0, x: 0, m: Seq::new(16, |i: int| 0u32) }
}

/// Verdict of a whole program; the empty program accepts everything.
pub open spec fn verdict(insns: Seq<BpfInsn>, input: Input) -> u32 {
    if insns.len() == 0 {
        u32::MAX
    } else {
        run(insns, initial(), input)
    }
}

impl<'a> BpfContext<'a> {
    pub fn load_word(&self, offset: usize) -> (v: Option<u32>)
        ensures
            v == self@.word(offset as int),
    {
        let len: usize = self.packet.len();
        if offset <= len && len - offset >= 4 {
            Some(bytes::read_be32(self.packet, offset))
        } else {
            None
        }
    }

    pub fn load_half(&self, offset: usize) -> (v: Option<u16>)
        ensures
            v == self@.half(offset as int),
    {
        let len: usize = self.packet.len();
        if offset <= len && len - offset >= 2 {
            Some(bytes::read_be16(self.packet, offset))
        } else {
            None
        }
    }

    pub fn load_byte(&self, offset: usize) -> (v: Option<u8>)
        ensures
            v == self@.byte(offset as int),
    {
        if offset < self.packet.len() {
            Some(self.packet[offset])
        } else {
            None
        }
    }

    fn load_sized(&self, code: u16, offset: usize) -> (v: Option<u32>)
        ensures
            v == self@.sized(code, offset as int),
    {
        let size: u16 = code & BPF_SIZE_MASK;
        if size == BPF_W {
            self.load_word(offset)
        } else if size == BPF_H {
            match self.load_half(offset) {
                Some(v) => Some(v as u32),
                None => None,
            }
        } else if size == BPF_B {
            match self.load_byte(offset) {
                Some(v) => Some(v as u32),
                None => None,
            }
        } else {
            None
        }
    }

    fn load_field(&self, offset: u32) -> (v: Option<u32>)
        ensures
            v == self@.field(offset),
    {
        if offset == BPF_ADDR_FLAGS_OFFSET {
            Some(self.address.flags)
        } else if offset == BPF_ADDR_IF_IDX_OFFSET {
            Some(self.address.data.network().if_idx)
        } else if offset == BPF_ADDR_SUB_IF_IDX_OFFSET {
            Some(self.address.data.network().sub_if_idx)
        } else if offset == BPF_ADDR_PROCESS_ID_OFFSET {
            let layer: u32 = self.address.layer() as u32;
            if layer == LAYER_SOCKET {
                Some(self.address.data.socket().process_id)
            } else if layer == LAYER_FLOW {
                Some(self.address.data.flow().process_id)
            } else {
                Some(0)
            }
        } else if offset == BPF_ADDR_LAYER_OFFSET {
            Some(self.address.layer() as u32)
        } else {
            None
        }
    }

    fn load_length(&self) -> (v: u32)
        ensures
            v == self@.length(),
    {
        (self.packet.len() as u64 % 0x1_0000_0000u64) as u32
    }
}

/// Index of the scratch cell that `k` names.
fn cell_index(k: u32) -> (i: usize)
    ensures
        i == cell(k),
        i < 16,
{
    assert(k & 0xf == k % 16) by (bit_vector);
    (k & 0xf) as usize
}

/// Value that a load into the accumulator finds, if there is one.
fn load_a(insn: BpfInsn, x: u32, m: &[u32; 16], ctx: &BpfContext) -> (v: Option<u32>)
    ensures
        v == loaded_a(insn, x, m@, ctx@),
{
    let mode: u16 = insn.code & BPF_MODE_MASK;
    if mode == BPF_IMM {
        Some(insn.k)
    } else if mode == BPF_ABS {
        if insn.k >= BPF_ADDR_BASE {
            ctx.load_field(insn.k)
        } else {
            ctx.load_sized(insn.code, insn.k as usize)
        }
    } else if mode == BPF_IND {
        ctx.load_sized(insn.code, x.wrapping_add(insn.k) as usize)
    } else if mode == BPF_MEM {
        Some(m[cell_index(insn.k)])
    } else if mode == BPF_LEN {
        Some(ctx.load_length())
    } else {
        None
    }
}

/// Value that a load into the index register finds, if there is one.
fn load_x(insn: BpfInsn, m: &[u32; 16], ctx: &BpfContext) -> (v: Option<u32>)
    ensures
        v == loaded_x(insn, m@, ctx@),
{
    let mode: u16 = insn.code & BPF_MODE_MASK;
    if mode == BPF_IMM {
        Some(insn.k)
    } else if mode == BPF_MEM {
        Some(m[cell_index(insn.k)])
    } else if mode == BPF_LEN {
        Some(ctx.load_length())
    } else if mode == BPF_MSH {
        match ctx.load_byte(insn.k as usize) {
            Some(v) => {
                assert(((v & 0xf) << 2) as u32 == 4 * (v % 16)) by (bit_vector);
                Some(((v & 0xf) << 2) as u32)
            },
            None => None,
        }
    } else {
        None
    }
}

/// Result of an arithmetic instruction, if it has one.
fn compute(code: u16, a: u32, src: u32) -> (v: Option<u32>)
    ensures
        v == arithmetic(code, a, src),
{
    let op: u16 = code & BPF_OP_MASK;
    if op == BPF_ADD {
        Some(a.wrapping_add(src))
    } else if op == BPF_SUB {
        Some(a.wrapping_sub(src))
    } else if op == BPF_MUL {
        Some(a.wrapping_mul(src))
    } else if op == BPF_DIV {
        if src == 0 {
            None
        } else {
            Some(a / src)
        }
    } else if op == BPF_OR {
        Some(a | src)
    } else if op == BPF_AND {
        Some(a & src)
    } else if op == BPF_LSH {
        Some(a << (src % 32))
    } else if op == BPF_RSH {
        Some(a >> (src % 32))
    } else if op == BPF_NEG {
        Some(0u32.wrapping_sub(a))
    } else {
        None
    }
}

/// Whether a conditional jump is taken, if the jump is a known one.
fn is_taken(code: u16, a: u32, src: u32) -> (v: Option<bool>)
    ensures
        v == condition(code, a, src),
{
    let op: u16 = code & BPF_OP_MASK;
    if op == BPF_JEQ {
        Some(a == src)
    } else if op == BPF_JGT {
        Some(a > src)
    } else if op == BPF_JGE {
        Some(a >= src)
    } else if op == BPF_JSET {
        Some((a & src) != 0)
    } else {
        None
    }
}

/// Runs `insns` on a packet and its address; 0 means that the packet does not match.
pub fn bpf_run_filter(insns: &[BpfInsn], ctx: &BpfContext) -> (v: u32)
    ensures
        v == verdict(insns@, ctx@),
{
    let len: usize = insns.len();
    if len == 0 {
        return u32::MAX;
    }
    let mut a: u32 = 0;
    let mut x: u32 = 0;
    let mut m: [u32; 16] = [0; 16];
    let mut pc: usize = 0;
    assert(m@ =~= initial().m);
    while pc < len
        invariant
            len == insns@.len(),
            len > 0,
            verdict(insns@, ctx@) == run(insns@, Machine { pc: pc as int, a, x, m: m@ }, ctx@),
        decreases len - pc,
    {
        let insn: BpfInsn = insns[pc];
        let class: u16 = insn.code & BPF_CLASS_MASK;
        let src: u32 = if insn.code & BPF_SRC_MASK == BPF_X {
            x
        } else {
            insn.k
        };
        if class == BPF_LD {
            match load_a(insn, x, &m, ctx) {
                Some(v) => {
                    a = v;
                },
                None => {
                    return 0;
                },
            }
            pc += 1;
        } else if class == BPF_LDX {
            match load_x(insn, &m, ctx) {
                Some(v) => {
                    x = v;
                },
                None => {
                    return 0;
                },
            }
            pc += 1;
        } else if class == BPF_ST {
            m[cell_index(insn.k)] = a;
            pc += 1;
        } else if class == BPF_STX {
            m[cell_index(insn.k)] = x;
            pc += 1;
        } else if class == BPF_ALU {
            match compute(insn.code, a, src) {
                Some(v) => {
                    a = v;
                },
                None => {
                    return 0;
                },
            }
            pc += 1;
        } else if class == BPF_JMP {
            let offset: u32 = if insn.code & BPF_OP_MASK == BPF_JA {
                insn.k
            } else {
                match is_taken(insn.code, a, src) {
                    Some(true) => insn.jt as u32,
                    Some(false) => insn.jf as u32,
                    None => {
                        return 0;
                    },
                }
            };
            if (offset as usize) < len - pc - 1 {
                pc = pc + 1 + offset as usize;
            } else {
                return 0;
            }
        } else if class == BPF_RET {
            return src;
        } else {
            return 0;
        }
    }
    0
}

} // verus!
