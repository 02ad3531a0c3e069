//! How filter programs travel from the client to the driver.
use vstd::prelude::*;
use crate::bytes;
use crate::network::bpf::BpfInsn;

verus! {

broadcast use crate::bytes::lemma_u32_le_len;

/// Size of an instruction in a request.
pub const BPF_INSN_SIZE: usize = 8;

/// The bytes of an instruction.
pub open spec fn insn_bytes(i: BpfInsn) -> Seq<u8> {
    bytes::u16_le(i.code) + seq![i.jt, i.jf] + bytes::u32_le(i.k)
}

/// The bytes of a program.
pub open spec fn program_bytes(p: Seq<BpfInsn>) -> Seq<u8>
    decreases p.len(),
{
    if p.len() == 0 {
        Seq::empty()
    } else {
        program_bytes(p.drop_last()) + insn_bytes(p.last())
    }
}

/// The instruction at `at` of some bytes.
pub open spec fn insn_at(s: Seq<u8>, at: int) -> BpfInsn {
    BpfInsn {
        code: bytes::le16(s, at),
        jt: s[at + 2],
        jf: s[at + 3],
        k: bytes::le32(s, at + 4),
    }
}

/// The program that some bytes hold.
pub open spec fn program_of(s: Seq<u8>) -> Seq<BpfInsn> {
    Seq::new(s.len() / 8, |i: int| insn_at(s, 8 * i))
}

proof fn lemma_program_bytes(p: Seq<BpfInsn>)
    ensures
        program_bytes(p).len() == 8 * p.len(),
        forall|i: int|
            0 <= i < p.len() ==> program_bytes(p).subrange(8 * i, 8 * i + 8) == insn_bytes(
                #[trigger] p[i],
            ),
    decreases p.len(),
{
    if p.len() > 0 {
        let init = p.drop_last();
        lemma_program_bytes(init);
        assert forall|i: int| 0 <= i < p.len() implies program_bytes(p).subrange(8 * i, 8 * i + 8)
            == insn_bytes(#[trigger] p[i]) by {
            if i < init.len() {
                assert(init[i] == p[i]);
                assert(program_bytes(p).subrange(8 * i, 8 * i + 8) =~= program_bytes(
                    init,
                ).subrange(8 * i, 8 * i + 8));
            } else {
                assert(program_bytes(p).subrange(8 * i, 8 * i + 8) =~= insn_bytes(p.last()));
            }
        }
    }
}

/// Reading a program from its bytes gives the program.
pub proof fn law_program_round_trip(p: Seq<BpfInsn>)
    ensures
        program_bytes(p).len() == 8 * p.len(),
        program_of(program_bytes(p)) == p,
{
    let s = program_bytes(p);
    lemma_program_bytes(p);
    assert forall|i: int| 0 <= i < p.len() implies program_of(s)[i] == p[i] by {
        let t = s.subrange(8 * i, 8 * i + 8);
        assert(t == insn_bytes(p[i]));
        assert(s.subrange(8 * i + 4, 8 * i + 8) =~= t.subrange(4, 8));
        assert(t.subrange(4, 8) =~= bytes::u32_le(p[i].k));
        bytes::lemma_le32_round_trip(s, 8 * i + 4, p[i].k);
        assert(t[0] == s[8 * i] && t[1] == s[8 * i + 1] && t[2] == s[8 * i + 2] && t[3] == s[8 * i
            + 3]);
        assert(t[2] == p[i].jt && t[3] == p[i].jf);
    }
    assert(program_of(s) =~= p);
}

/// The bytes of a program.
pub fn encode_program(p: &[BpfInsn]) -> (out: Vec<u8>)
    ensures
        out@ == program_bytes(p@),
{
    let mut out: Vec<u8> = Vec::new();
    let mut i: usize = 0;
    assert(program_bytes(p@.take(0)) =~= Seq::empty());
    while i < p.len()
        invariant
            i <= p@.len(),
            out@ =~= program_bytes(p@.take(i as int)),
        decreases p@.len() - i,
    {
        let insn: BpfInsn = p[i];
        bytes::push_u16_le(&mut out, insn.code);
        out.push(insn.jt);
        out.push(insn.jf);
        bytes::push_u32_le(&mut out, insn.k);
        proof {
            assert(p@.take(i + 1).drop_last() =~= p@.take(i as int));
            assert(p@.take(i + 1).last() == insn);
        }
        i += 1;
    }
    assert(p@.take(i as int) =~= p@);
    out
}

/// The program that some bytes hold.
pub fn decode_program(s: &[u8]) -> (p: Vec<BpfInsn>)
    ensures
        p@ == program_of(s@),
{
    let n: usize = s.len() / BPF_INSN_SIZE;
    let mut p: Vec<BpfInsn> = Vec::new();
    let mut i: usize = 0;
    while i < n
        invariant
            i <= n,
            n == s@.len() / 8,
            s@.len() <= usize::MAX,
            p@.len() == i,
            forall|j: int| 0 <= j < i ==> #[trigger] p@[j] == insn_at(s@, 8 * j),
        decreases n - i,
    {
        let at: usize = BPF_INSN_SIZE * i;
        p.push(
            BpfInsn {
                code: bytes::read_le16(s, at),
                jt: s[at + 2],
                jf: s[at + 3],
                k: bytes::read_le32(s, at + 4),
            },
        );
        i += 1;
    }
    assert(p@ =~= program_of(s@));
    p
}

} // verus!
