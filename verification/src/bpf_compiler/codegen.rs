//! Code for filter expressions: instructions with symbolic labels, and their resolution to
//! relative jumps.
use std::collections::HashMap;
use vstd::prelude::*;
use crate::bpf_compiler::parser::{Dir, Expr};
use crate::network::bpf::{
    BpfInsn, BPF_ABS, BPF_ADDR_FLAGS_OFFSET, BPF_ADDR_IF_IDX_OFFSET, BPF_ADDR_SUB_IF_IDX_OFFSET,
    BPF_ALU, BPF_B, BPF_H, BPF_IND, BPF_JA, BPF_JEQ, BPF_JMP, BPF_JSET, BPF_K, BPF_LD, BPF_LDX,
    BPF_MSH, BPF_RET, BPF_RSH, BPF_W,
};

verus! {

pub const FLAG_OUTBOUND: u32 = 0x0002_0000;

pub const FLAG_LOOPBACK: u32 = 0x0004_0000;

pub const FLAG_IMPOSTOR: u32 = 0x0008_0000;

/// An instruction whose jumps go to labels.
#[derive(Clone, Copy)]
pub enum IrInsn {
    Insn(BpfInsn),
    Jmp(u128),
    JmpCond(u16, u32, u128, u128),
    Label(u128),
}

/// An instruction that does not jump.
pub open spec fn plain(code: u16, k: u32) -> IrInsn {
    IrInsn::Insn(BpfInsn { code, jt: 0, jf: 0, k })
}

pub open spec fn widen(v: u16) -> u32 {
    v as u32
}

/// The label after `n`.
pub open spec fn succ(n: u128) -> u128 {
    (n + 1) as u128
}

/// A load with `code` at `k`, then a test of the loaded value.
pub open spec fn probe(code: u16, k: u32, op: u16, v: u32, lt: u128, lf: u128) -> Seq<IrInsn> {
    seq![plain(code, k), IrInsn::JmpCond(op, v, lt, lf)]
}

/// Code that tests the values at `k0` and `k1` for `v`, as the direction asks.
///
/// The label `n` is fresh.
pub open spec fn directed(
    code: u16,
    k0: u32,
    k1: u32,
    dir: Dir,
    v: u32,
    lt: u128,
    lf: u128,
    n: u128,
) -> (Seq<IrInsn>, u128) {
    match dir {
        Dir::Src => (probe(code, k0, BPF_JEQ, v, lt, lf), n),
        Dir::Dst => (probe(code, k1, BPF_JEQ, v, lt, lf), n),
        Dir::SrcOrDst => (
            probe(code, k0, BPF_JEQ, v, lt, n) + seq![IrInsn::Label(n)] + probe(
                code,
                k1,
                BPF_JEQ,
                v,
                lt,
                lf,
            ),
            succ(n),
        ),
        Dir::SrcAndDst => (
            probe(code, k0, BPF_JEQ, v, n, lf) + seq![IrInsn::Label(n)] + probe(
                code,
                k1,
                BPF_JEQ,
                v,
                lt,
                lf,
            ),
            succ(n),
        ),
    }
}

/// Code that goes to `lt` where `e` holds and to `lf` where it does not, with labels from `n` on
/// for its own use, and the first label that it leaves unused.
pub open spec fn code_of(e: Expr, lt: u128, lf: u128, n: u128) -> (Seq<IrInsn>, u128)
    decreases e,
{
    match e {
        Expr::And(l, r) => {
            let (cl, n1) = code_of(*l, n, lf, succ(n));
            let (cr, n2) = code_of(*r, lt, lf, n1);
            (cl + seq![IrInsn::Label(n)] + cr, n2)
        },
        Expr::Or(l, r) => {
            let (cl, n1) = code_of(*l, lt, n, succ(n));
            let (cr, n2) = code_of(*r, lt, lf, n1);
            (cl + seq![IrInsn::Label(n)] + cr, n2)
        },
        Expr::Not(i) => code_of(*i, lf, lt, n),
        Expr::Tcp => (probe(BPF_LD | BPF_B | BPF_ABS, 9, BPF_JEQ, 6, lt, lf), n),
        Expr::Udp => (probe(BPF_LD | BPF_B | BPF_ABS, 9, BPF_JEQ, 17, lt, lf), n),
        Expr::Icmp => (probe(BPF_LD | BPF_B | BPF_ABS, 9, BPF_JEQ, 1, lt, lf), n),
        Expr::Ip => (
            seq![
                plain(BPF_LD | BPF_B | BPF_ABS, 0),
                plain(BPF_ALU | BPF_RSH | BPF_K, 4),
                IrInsn::JmpCond(BPF_JEQ, 4, lt, lf),
            ],
            n,
        ),
        Expr::Host(dir, ip) => directed(BPF_LD | BPF_W | BPF_ABS, 12, 16, dir, ip, lt, lf, n),
        Expr::Port(dir, port) => {
            let (c, n1) = directed(BPF_LD | BPF_H | BPF_IND, 0, 2, dir, widen(port), lt, lf, n);
            (seq![plain(BPF_LDX | BPF_B | BPF_MSH, 0)] + c, n1)
        },
        Expr::Outbound => (
            probe(
                BPF_LD | BPF_W | BPF_ABS,
                BPF_ADDR_FLAGS_OFFSET,
                BPF_JSET,
                FLAG_OUTBOUND,
                lt,
                lf,
            ),
            n,
        ),
        Expr::Inbound => (
            probe(
                BPF_LD | BPF_W | BPF_ABS,
                BPF_ADDR_FLAGS_OFFSET,
                BPF_JSET,
                FLAG_OUTBOUND,
                lf,
                lt,
            ),
            n,
        ),
        Expr::Loopback => (
            probe(
                BPF_LD | BPF_W | BPF_ABS,
                BPF_ADDR_FLAGS_OFFSET,
                BPF_JSET,
                FLAG_LOOPBACK,
                lt,
                lf,
            ),
            n,
        ),
        Expr::Impostor => (
            probe(
                BPF_LD | BPF_W | BPF_ABS,
                BPF_ADDR_FLAGS_OFFSET,
                BPF_JSET,
                FLAG_IMPOSTOR,
                lt,
                lf,
            ),
            n,
        ),
        Expr::IfIndex(i) => (
            probe(BPF_LD | BPF_W | BPF_ABS, BPF_ADDR_IF_IDX_OFFSET, BPF_JEQ, i, lt, lf),
            n,
        ),
        Expr::SubIfIndex(i) => (
            probe(BPF_LD | BPF_W | BPF_ABS, BPF_ADDR_SUB_IF_IDX_OFFSET, BPF_JEQ, i, lt, lf),
            n,
        ),
    }
}

/// Number of labels that a directed test uses.
pub open spec fn dir_labels(dir: Dir) -> nat {
    match dir {
        Dir::Src | Dir::Dst => 0,
        Dir::SrcOrDst | Dir::SrcAndDst => 1,
    }
}

/// Number of labels that the code of `e` uses.
pub open spec fn labels(e: Expr) -> nat
    decreases e,
{
    match e {
        Expr::And(l, r) => labels(*l) + labels(*r) + 1,
        Expr::Or(l, r) => labels(*l) + labels(*r) + 1,
        Expr::Not(i) => labels(*i),
        Expr::Host(dir, _) => dir_labels(dir),
        Expr::Port(dir, _) => dir_labels(dir),
        _ => 0,
    }
}

/// Code of a whole filter: it returns all ones where `e` holds and zero where it does not.
pub open spec fn filter_code(e: Expr) -> Seq<IrInsn> {
    code_of(e, 0, 1, 2).0 + seq![
        IrInsn::Label(0),
        plain(BPF_RET | BPF_K, u32::MAX),
        IrInsn::Label(1),
        plain(BPF_RET | BPF_K, 0),
    ]
}

/// Number of instructions in `ir`, labels not counted.
pub open spec fn real_count(ir: Seq<IrInsn>) -> nat
    decreases ir.len(),
{
    if ir.len() == 0 {
        0
    } else if ir.last() is Label {
        real_count(ir.drop_last())
    } else {
        real_count(ir.drop_last()) + 1
    }
}

/// For each label in `ir`, the number of instructions in front of its last occurrence.
pub open spec fn label_offsets(ir: Seq<IrInsn>) -> Map<u128, nat>
    decreases ir.len(),
{
    if ir.len() == 0 {
        Map::empty()
    } else {
        match ir.last() {
            IrInsn::Label(l) => label_offsets(ir.drop_last()).insert(l, real_count(ir.drop_last())),
            _ => label_offsets(ir.drop_last()),
        }
    }
}

/// The instruction that `i` becomes at index `at`, if its jumps reach their labels.
pub open spec fn lowered(i: IrInsn, at: int, m: Map<u128, nat>) -> Result<BpfInsn, Seq<char>> {
    match i {
        IrInsn::Insn(insn) => Ok(insn),
        IrInsn::Jmp(l) => {
            let off = m[l] - at - 1;
            if off < 0 {
                Err("Negative jump offset not supported"@)
            } else {
                Ok(
                    BpfInsn {
                        code: BPF_JMP | BPF_JA,
                        jt: 0,
                        jf: 0,
                        k: (off % 0x1_0000_0000) as u32,
                    },
                )
            }
        },
        IrInsn::JmpCond(op, k, t, f) => {
            let off_t = m[t] - at - 1;
            let off_f = m[f] - at - 1;
            if off_t < 0 || off_t > 255 || off_f < 0 || off_f > 255 {
                Err("Conditional jump offset out of bounds"@)
            } else {
                Ok(BpfInsn { code: BPF_JMP | op | BPF_K, jt: off_t as u8, jf: off_f as u8, k })
            }
        },
        IrInsn::Label(_) => Err(Seq::empty()),
    }
}

/// The instructions that `ir` becomes where label `l` stands for `m[l]`, or the complaint about
/// the first jump that cannot be written.
pub open spec fn resolved(ir: Seq<IrInsn>, m: Map<u128, nat>) -> Result<Seq<BpfInsn>, Seq<char>>
    decreases ir.len(),
{
    if ir.len() == 0 {
        Ok(Seq::empty())
    } else {
        match resolved(ir.drop_last(), m) {
            Ok(out) => if ir.last() is Label {
                Ok(out)
            } else {
                match lowered(ir.last(), out.len() as int, m) {
                    Ok(insn) => Ok(out.push(insn)),
                    Err(e) => Err(e),
                }
            },
            Err(e) => Err(e),
        }
    }
}

/// Every jump in `ir` goes to a label that `ir` holds.
pub open spec fn jumps_closed(ir: Seq<IrInsn>) -> bool {
    forall|i: int|
        0 <= i < ir.len() ==> match #[trigger] ir[i] {
            IrInsn::Jmp(l) => label_offsets(ir).contains_key(l),
            IrInsn::JmpCond(_, _, t, f) => label_offsets(ir).contains_key(t) && label_offsets(
                ir,
            ).contains_key(f),
            _ => true,
        }
}

pub proof fn lemma_real_count_bound(ir: Seq<IrInsn>)
    ensures
        real_count(ir) <= ir.len(),
    decreases ir.len(),
{
    if ir.len() > 0 {
        lemma_real_count_bound(ir.drop_last());
    }
}

/// Number of instructions of a resolved program.
pub proof fn lemma_resolved_len(ir: Seq<IrInsn>, m: Map<u128, nat>)
    ensures
        match resolved(ir, m) {
            Ok(p) => p.len() == real_count(ir),
            Err(_) => true,
        },
    decreases ir.len(),
{
    if ir.len() > 0 {
        lemma_resolved_len(ir.drop_last(), m);
    }
}

/// An error in a first part stays the error of the whole.
proof fn lemma_resolved_err(ir: Seq<IrInsn>, n: int, m: Map<u128, nat>)
    requires
        0 <= n <= ir.len(),
        resolved(ir.take(n), m) is Err,
    ensures
        resolved(ir, m) == resolved(ir.take(n), m),
    decreases ir.len() - n,
{
    if n == ir.len() {
        assert(ir.take(n) =~= ir);
    } else {
        assert(ir.take(n + 1).drop_last() =~= ir.take(n));
        lemma_resolved_err(ir, n + 1, m);
    }
}

/// `h` holds the same labels as `m`, with the same offsets.
spec fn stands_for(h: Map<u128, usize>, m: Map<u128, nat>) -> bool {
    &&& h.dom() =~= m.dom()
    &&& forall|l: u128| #[trigger] h.contains_key(l) ==> h[l] == m[l]
}

/// Replaces labels by relative jumps.
pub fn resolve_insns(ir: Vec<IrInsn>) -> (r: Result<Vec<BpfInsn>, String>)
    requires
        jumps_closed(ir@),
    ensures
        match r {
            Ok(p) => resolved(ir@, label_offsets(ir@)) == Ok::<Seq<BpfInsn>, Seq<char>>(p@),
            Err(e) => resolved(ir@, label_offsets(ir@)) == Err::<Seq<BpfInsn>, Seq<char>>(e@),
        },
{
    broadcast use vstd::std_specs::hash::group_hash_axioms;

    let mut offsets: HashMap<u128, usize> = HashMap::new();
    let mut count: usize = 0;
    let mut i: usize = 0;
    assert(stands_for(offsets@, label_offsets(ir@.take(0))));
    while i < ir.len()
        invariant
            i <= ir@.len(),
            count <= i,
            count == real_count(ir@.take(i as int)),
            stands_for(offsets@, label_offsets(ir@.take(i as int))),
        decreases ir@.len() - i,
    {
        proof {
            assert(ir@.take(i + 1).drop_last() =~= ir@.take(i as int));
            assert(ir@.take(i + 1).last() == ir@[i as int]);
        }
        if let IrInsn::Label(l) = ir[i] {
            offsets.insert(l, count);
        } else {
            count += 1;
        }
        i += 1;
    }
    assert(ir@.take(i as int) =~= ir@);
    let ghost m = label_offsets(ir@);
    let mut out: Vec<BpfInsn> = Vec::new();
    let mut j: usize = 0;
    while j < ir.len()
        invariant
            jumps_closed(ir@),
            j <= ir@.len(),
            out@.len() <= j,
            m == label_offsets(ir@),
            stands_for(offsets@, m),
            resolved(ir@.take(j as int), m) == Ok::<Seq<BpfInsn>, Seq<char>>(out@),
        decreases ir@.len() - j,
    {
        let at: usize = out.len();
        let insn: IrInsn = ir[j];
        proof {
            assert(ir@.take(j + 1).drop_last() =~= ir@.take(j as int));
            assert(ir@.take(j + 1).last() == ir@[j as int]);
            if resolved(ir@.take(j + 1), m) is Err {
                lemma_resolved_err(ir@, j + 1, m);
            }
        }
        match insn {
            IrInsn::Label(_) => {},
            IrInsn::Insn(b) => {
                out.push(b);
            },
            IrInsn::Jmp(l) => {
                let target: usize = *offsets.get(&l).unwrap();
                if target <= at {
                    return Err(String::from_str("Negative jump offset not supported"));
                }
                let off: usize = target - at - 1;
                out.push(
                    BpfInsn {
                        code: BPF_JMP | BPF_JA,
                        jt: 0,
                        jf: 0,
                        k: (off as u64 % 0x1_0000_0000u64) as u32,
                    },
                );
            },
            IrInsn::JmpCond(op, k, t, f) => {
                let target_t: usize = *offsets.get(&t).unwrap();
                let target_f: usize = *offsets.get(&f).unwrap();
                if target_t <= at || target_t - at - 1 > 255 || target_f <= at || target_f - at - 1
                    > 255 {
                    return Err(String::from_str("Conditional jump offset out of bounds"));
                }
                out.push(
                    BpfInsn {
                        code: BPF_JMP | op | BPF_K,
                        jt: (target_t - at - 1) as u8,
                        jf: (target_f - at - 1) as u8,
                        k,
                    },
                );
            },
        }
        j += 1;
    }
    assert(ir@.take(j as int) =~= ir@);
    Ok(out)
}

/// Instructions written so far, and the next label to hand out.
pub struct Compiler {
    pub insns: Vec<IrInsn>,
    pub next_label: u128,
}

impl Compiler {
    /// Hands out a fresh label.
    pub fn new_label(&mut self) -> (l: u128)
        requires
            old(self).next_label < u128::MAX,
        ensures
            l == old(self).next_label,
            final(self).next_label == succ(l),
            final(self).next_label == l + 1,
            final(self).insns == old(self).insns,
    {
        let l: u128 = self.next_label;
        self.next_label = l + 1;
        l
    }

    pub fn emit_label(&mut self, label: u128)
        ensures
            final(self).next_label == old(self).next_label,
            final(self).insns@ == old(self).insns@.push(IrInsn::Label(label)),
    {
        self.insns.push(IrInsn::Label(label));
    }

    /// Writes an instruction that does not jump.
    pub fn emit(&mut self, code: u16, k: u32)
        ensures
            final(self).next_label == old(self).next_label,
            final(self).insns@ == old(self).insns@.push(plain(code, k)),
    {
        self.insns.push(IrInsn::Insn(BpfInsn { code, jt: 0, jf: 0, k }));
    }

    /// Writes a load and a test of what it loaded.
    fn emit_probe(&mut self, code: u16, k: u32, op: u16, v: u32, lt: u128, lf: u128)
        ensures
            final(self).next_label == old(self).next_label,
            final(self).insns@ == old(self).insns@ + probe(code, k, op, v, lt, lf),
    {
        self.emit(code, k);
        self.insns.push(IrInsn::JmpCond(op, v, lt, lf));
        assert(self.insns@ =~= old(self).insns@ + probe(code, k, op, v, lt, lf));
    }

    /// Writes the tests that a direction asks for.
    fn emit_directed(
        &mut self,
        code: u16,
        k0: u32,
        k1: u32,
        dir: &Dir,
        v: u32,
        lt: u128,
        lf: u128,
    )
        requires
            old(self).next_label + dir_labels(*dir) <= u128::MAX,
        ensures
            ({
                let (c, n) = directed(code, k0, k1, *dir, v, lt, lf, old(self).next_label);
                &&& final(self).insns@ == old(self).insns@ + c
                &&& final(self).next_label == n
                &&& n == old(self).next_label + dir_labels(*dir)
            }),
    {
        match dir {
            Dir::Src => {
                self.emit_probe(code, k0, BPF_JEQ, v, lt, lf);
            },
            Dir::Dst => {
                self.emit_probe(code, k1, BPF_JEQ, v, lt, lf);
            },
            Dir::SrcOrDst => {
                let next: u128 = self.new_label();
                self.emit_probe(code, k0, BPF_JEQ, v, lt, next);
                self.emit_label(next);
                self.emit_probe(code, k1, BPF_JEQ, v, lt, lf);
            },
            Dir::SrcAndDst => {
                let next: u128 = self.new_label();
                self.emit_probe(code, k0, BPF_JEQ, v, next, lf);
                self.emit_label(next);
                self.emit_probe(code, k1, BPF_JEQ, v, lt, lf);
            },
        }
        assert(self.insns@ =~= old(self).insns@ + directed(
            code,
            k0,
            k1,
            *dir,
            v,
            lt,
            lf,
            old(self).next_label,
        ).0);
    }

    /// Writes the test for a port.
    fn emit_port(&mut self, dir: &Dir, port: u16, lt: u128, lf: u128)
        requires
            old(self).next_label + dir_labels(*dir) <= u128::MAX,
        ensures
            ({
                let (c, n) = code_of(Expr::Port(*dir, port), lt, lf, old(self).next_label);
                &&& final(self).insns@ == old(self).insns@ + c
                &&& final(self).next_label == n
                &&& n == old(self).next_label + dir_labels(*dir)
            }),
    {
        self.emit(BPF_LDX | BPF_B | BPF_MSH, 0);
        self.emit_directed(BPF_LD | BPF_H | BPF_IND, 0, 2, dir, port as u32, lt, lf);
        assert(self.insns@ =~= old(self).insns@ + code_of(
            Expr::Port(*dir, port),
            lt,
            lf,
            old(self).next_label,
        ).0);
    }

    /// Writes code that goes to `lt` where `expr` holds and to `lf` where it does not.
    pub fn compile_expr(&mut self, expr: &Expr, lt: u128, lf: u128)
        requires
            old(self).next_label + labels(*expr) <= u128::MAX,
        ensures
            final(self).insns@ == old(self).insns@ + code_of(
                *expr,
                lt,
                lf,
                old(self).next_label,
            ).0,
            final(self).next_label == code_of(*expr, lt, lf, old(self).next_label).1,
            final(self).next_label == old(self).next_label + labels(*expr),
        decreases expr,
    {
        match expr {
            Expr::And(left, right) => {
                let next: u128 = self.new_label();
                self.compile_expr(&**left, next, lf);
                self.emit_label(next);
                self.compile_expr(&**right, lt, lf);
            },
            Expr::Or(left, right) => {
                let next: u128 = self.new_label();
                self.compile_expr(&**left, lt, next);
                self.emit_label(next);
                self.compile_expr(&**right, lt, lf);
            },
            Expr::Not(inner) => {
                self.compile_expr(&**inner, lf, lt);
            },
            Expr::Tcp => {
                self.emit_probe(BPF_LD | BPF_B | BPF_ABS, 9, BPF_JEQ, 6, lt, lf);
            },
            Expr::Udp => {
                self.emit_probe(BPF_LD | BPF_B | BPF_ABS, 9, BPF_JEQ, 17, lt, lf);
            },
            Expr::Icmp => {
                self.emit_probe(BPF_LD | BPF_B | BPF_ABS, 9, BPF_JEQ, 1, lt, lf);
            },
            Expr::Ip => {
                self.emit(BPF_LD | BPF_B | BPF_ABS, 0);
                self.emit(BPF_ALU | BPF_RSH | BPF_K, 4);
                self.insns.push(IrInsn::JmpCond(BPF_JEQ, 4, lt, lf));
            },
            Expr::Host(dir, ip) => {
                self.emit_directed(BPF_LD | BPF_W | BPF_ABS, 12, 16, dir, *ip, lt, lf);
            },
            Expr::Port(dir, port) => {
                self.emit_port(dir, *port, lt, lf);
            },
            Expr::Outbound => {
                self.emit_probe(
                    BPF_LD | BPF_W | BPF_ABS,
                    BPF_ADDR_FLAGS_OFFSET,
                    BPF_JSET,
                    FLAG_OUTBOUND,
                    lt,
                    lf,
                );
            },
            Expr::Inbound => {
                self.emit_probe(
                    BPF_LD | BPF_W | BPF_ABS,
                    BPF_ADDR_FLAGS_OFFSET,
                    BPF_JSET,
                    FLAG_OUTBOUND,
                    lf,
                    lt,
                );
            },
            Expr::Loopback => {
                self.emit_probe(
                    BPF_LD | BPF_W | BPF_ABS,
                    BPF_ADDR_FLAGS_OFFSET,
                    BPF_JSET,
                    FLAG_LOOPBACK,
                    lt,
                    lf,
                );
            },
            Expr::Impostor => {
                self.emit_probe(
                    BPF_LD | BPF_W | BPF_ABS,
                    BPF_ADDR_FLAGS_OFFSET,
                    BPF_JSET,
                    FLAG_IMPOSTOR,
                    lt,
                    lf,
                );
            },
            Expr::IfIndex(i) => {
                self.emit_probe(
                    BPF_LD | BPF_W | BPF_ABS,
                    BPF_ADDR_IF_IDX_OFFSET,
                    BPF_JEQ,
                    *i,
                    lt,
                    lf,
                );
            },
            Expr::SubIfIndex(i) => {
                self.emit_probe(
                    BPF_LD | BPF_W | BPF_ABS,
                    BPF_ADDR_SUB_IF_IDX_OFFSET,
                    BPF_JEQ,
                    *i,
                    lt,
                    lf,
                );
            },
        }
        assert(self.insns@ =~= old(self).insns@ + code_of(*expr, lt, lf, old(self).next_label).0);
    }
}

/// The labels from `n` up to `n1` all stand in `c`, each once and no other with them, and every
/// jump in `c` goes to one of them, to `lt` or to `lf`.
pub open spec fn owns_labels(c: Seq<IrInsn>, lt: u128, lf: u128, n: int, n1: int) -> bool {
    &&& forall|i: int|
        0 <= i < c.len() ==> match #[trigger] c[i] {
            IrInsn::Label(l) => n <= l < n1,
            IrInsn::Jmp(_) => false,
            IrInsn::JmpCond(_, _, t, f) => (t == lt || t == lf || n <= t < n1) && (f == lt || f
                == lf || n <= f < n1),
            IrInsn::Insn(_) => true,
        }
    &&& forall|i: int, j: int|
        0 <= i < j < c.len() && (#[trigger] c[i]) is Label && (#[trigger] c[j]) is Label ==> c[i]
            != c[j]
    &&& forall|l: u128| n <= l < n1 ==> holds_label(c, l)
}

pub open spec fn holds_label(c: Seq<IrInsn>, l: u128) -> bool {
    exists|i: int| 0 <= i < c.len() && #[trigger] c[i] == IrInsn::Label(l)
}

proof fn lemma_owns_join(
    a: Seq<IrInsn>,
    b: Seq<IrInsn>,
    n: u128,
    n1: int,
    n2: int,
    ta: u128,
    fa: u128,
    lt: u128,
    lf: u128,
)
    requires
        n + 1 <= n1 <= n2,
        owns_labels(a, ta, fa, n + 1, n1),
        owns_labels(b, lt, lf, n1, n2),
        ta == n || ta == lt || ta == lf,
        fa == n || fa == lt || fa == lf,
    ensures
        owns_labels(a + seq![IrInsn::Label(n)] + b, lt, lf, n as int, n2),
{
    let c = a + seq![IrInsn::Label(n)] + b;
    assert forall|l: u128| n <= l < n2 implies holds_label(c, l) by {
        if l == n {
            assert(c[a.len() as int] == IrInsn::Label(l));
        } else if l < n1 {
            assert(holds_label(a, l));
            let i = choose|i: int| 0 <= i < a.len() && #[trigger] a[i] == IrInsn::Label(l);
            assert(c[i] == IrInsn::Label(l));
        } else {
            assert(holds_label(b, l));
            let i = choose|i: int| 0 <= i < b.len() && #[trigger] b[i] == IrInsn::Label(l);
            assert(c[a.len() + 1 + i] == IrInsn::Label(l));
        }
    }
    assert forall|i: int, j: int|
        0 <= i < j < c.len() && (#[trigger] c[i]) is Label && (#[trigger] c[j]) is Label implies c[i]
        != c[j] by {
        let m = a.len() as int;
        if j < m {
            assert(c[i] == a[i] && c[j] == a[j]);
        } else if i > m {
            assert(c[i] == b[i - m - 1] && c[j] == b[j - m - 1]);
        } else {
            if i < m {
                assert(c[i] == a[i]);
            }
            if j > m {
                assert(c[j] == b[j - m - 1]);
            }
        }
    }
    assert forall|i: int| 0 <= i < c.len() implies match #[trigger] c[i] {
        IrInsn::Label(l) => n <= l < n2,
        IrInsn::Jmp(_) => false,
        IrInsn::JmpCond(_, _, t, f) => (t == lt || t == lf || n <= t < n2) && (f == lt || f == lf
            || n <= f < n2),
        IrInsn::Insn(_) => true,
    } by {
        let m = a.len() as int;
        if i < m {
            assert(c[i] == a[i]);
        } else if i > m {
            assert(c[i] == b[i - m - 1]);
        }
    }
}

proof fn lemma_owns_probe(code: u16, k: u32, op: u16, v: u32, lt: u128, lf: u128, n: int)
    ensures
        owns_labels(probe(code, k, op, v, lt, lf), lt, lf, n, n),
{
}

proof fn lemma_owns_directed(
    code: u16,
    k0: u32,
    k1: u32,
    dir: Dir,
    v: u32,
    lt: u128,
    lf: u128,
    n: u128,
)
    requires
        n + dir_labels(dir) <= u128::MAX,
    ensures
        directed(code, k0, k1, dir, v, lt, lf, n).1 == n + dir_labels(dir),
        owns_labels(
            directed(code, k0, k1, dir, v, lt, lf, n).0,
            lt,
            lf,
            n as int,
            n + dir_labels(dir),
        ),
{
    match dir {
        Dir::Src => {
            lemma_owns_probe(code, k0, BPF_JEQ, v, lt, lf, n as int);
        },
        Dir::Dst => {
            lemma_owns_probe(code, k1, BPF_JEQ, v, lt, lf, n as int);
        },
        Dir::SrcOrDst => {
            lemma_owns_probe(code, k0, BPF_JEQ, v, lt, n, n + 1);
            lemma_owns_probe(code, k1, BPF_JEQ, v, lt, lf, n + 1);
            lemma_owns_join(
                probe(code, k0, BPF_JEQ, v, lt, n),
                probe(code, k1, BPF_JEQ, v, lt, lf),
                n,
                n + 1,
                n + 1,
                lt,
                n,
                lt,
                lf,
            );
        },
        Dir::SrcAndDst => {
            lemma_owns_probe(code, k0, BPF_JEQ, v, n, lf, n + 1);
            lemma_owns_probe(code, k1, BPF_JEQ, v, lt, lf, n + 1);
            lemma_owns_join(
                probe(code, k0, BPF_JEQ, v, n, lf),
                probe(code, k1, BPF_JEQ, v, lt, lf),
                n,
                n + 1,
                n + 1,
                n,
                lf,
                lt,
                lf,
            );
        },
    }
}

/// The code of an expression holds exactly the labels that it asked for, each once.
pub proof fn lemma_code_owns_labels(e: Expr, lt: u128, lf: u128, n: u128)
    requires
        n + labels(e) <= u128::MAX,
    ensures
        code_of(e, lt, lf, n).1 == n + labels(e),
        owns_labels(code_of(e, lt, lf, n).0, lt, lf, n as int, n + labels(e)),
    decreases e,
{
    match e {
        Expr::And(l, r) => {
            lemma_code_owns_labels(*l, n, lf, succ(n));
            let (cl, n1) = code_of(*l, n, lf, succ(n));
            lemma_code_owns_labels(*r, lt, lf, n1);
            let (cr, n2) = code_of(*r, lt, lf, n1);
            lemma_owns_join(cl, cr, n, n1 + 0, n2 + 0, n, lf, lt, lf);
        },
        Expr::Or(l, r) => {
            lemma_code_owns_labels(*l, lt, n, succ(n));
            let (cl, n1) = code_of(*l, lt, n, succ(n));
            lemma_code_owns_labels(*r, lt, lf, n1);
            let (cr, n2) = code_of(*r, lt, lf, n1);
            lemma_owns_join(cl, cr, n, n1 + 0, n2 + 0, lt, n, lt, lf);
        },
        Expr::Not(i) => {
            lemma_code_owns_labels(*i, lf, lt, n);
        },
        Expr::Host(dir, ip) => {
            lemma_owns_directed(BPF_LD | BPF_W | BPF_ABS, 12, 16, dir, ip, lt, lf, n);
        },
        Expr::Port(dir, port) => {
            lemma_owns_directed(BPF_LD | BPF_H | BPF_IND, 0, 2, dir, widen(port), lt, lf, n);
            let c = directed(BPF_LD | BPF_H | BPF_IND, 0, 2, dir, widen(port), lt, lf, n).0;
            let d = code_of(e, lt, lf, n).0;
            assert forall|l: u128| n <= l < n + labels(e) implies holds_label(d, l) by {
                assert(holds_label(c, l));
                let i = choose|i: int| 0 <= i < c.len() && #[trigger] c[i] == IrInsn::Label(l);
                assert(d[i + 1] == IrInsn::Label(l));
            }
            assert forall|i: int| 0 <= i < c.len() implies d[i + 1] == #[trigger] c[i] by {}
            assert forall|i: int| 1 <= i < d.len() implies #[trigger] d[i] == c[i - 1] by {}
        },
        _ => {},
    }
}

} // verus!
