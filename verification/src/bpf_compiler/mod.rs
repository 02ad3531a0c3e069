//! Compiler from tcpdump-like filter expressions to BPF programs.
//!
//! The language has the tests `tcp`, `udp`, `icmp`, `ip`, `outbound`, `inbound`, `loopback`,
//! `impostor`, `ifindex n`, `sub_ifindex n`, and `port n` and `host a.b.c.d` with an optional
//! `src` or `dst` in front. They are combined with `and` (`&`, `&&`), `or` (`|`, `||`), `not`
//! (`!`) and parentheses. The empty filter and the filter `true` accept everything.
pub mod codegen;
pub mod parser;
pub mod meaning;
pub mod reach;
pub mod semantics;
pub mod spelling;
pub mod token;

use vstd::prelude::*;
use crate::bpf_compiler::codegen::Compiler;
use crate::network::bpf;
use crate::network::bpf::{BpfInsn, BPF_K, BPF_RET};
use crate::text;

verus! {

/// Whether a filter is one that accepts everything.
pub open spec fn is_trivial(filter: Seq<char>) -> bool {
    text::trimmed(filter).len() == 0 || text::trimmed(filter) == "true"@
}

/// The expression that a filter stands for, if it stands for one.
pub open spec fn expression(filter: Seq<char>) -> Result<parser::Expr, Seq<char>> {
    match token::tokens_of(filter) {
        Ok(tokens) => parser::parsed(tokens),
        Err(e) => Err(e),
    }
}

/// The program for an expression, if its jumps are short enough to be written.
pub open spec fn program(e: parser::Expr) -> Result<Seq<BpfInsn>, Seq<char>> {
    let ir = codegen::filter_code(e);
    codegen::resolved(ir, codegen::label_offsets(ir))
}

/// The program for a filter, or what is wrong with the filter.
pub open spec fn compiled(filter: Seq<char>) -> Result<Seq<BpfInsn>, Seq<char>> {
    if is_trivial(filter) {
        Ok(seq![BpfInsn { code: BPF_RET | BPF_K, jt: 0, jf: 0, k: u32::MAX }])
    } else {
        match expression(filter) {
            Ok(e) => program(e),
            Err(e) => Err(e),
        }
    }
}

/// Whether a filter holds of a packet and its address.
pub open spec fn accepts(filter: Seq<char>, input: bpf::Input) -> bool {
    is_trivial(filter) || match expression(filter) {
        Ok(e) => semantics::holds(e, input) == Some(true),
        Err(_) => false,
    }
}

/// Compiles a filter to a program that returns all ones on what the filter accepts and zero on
/// everything else.
pub fn compile_bpf(filter: &str) -> (r: Result<Vec<BpfInsn>, String>)
    ensures
        match r {
            Ok(p) => compiled(filter@) == Ok::<Seq<BpfInsn>, Seq<char>>(p@),
            Err(e) => compiled(filter@) == Err::<Seq<BpfInsn>, Seq<char>>(e@),
        },
        r matches Ok(p) ==> forall|input: bpf::Input| #[trigger]
            bpf::verdict(p@, input) == (if accepts(filter@, input) {
                u32::MAX
            } else {
                0
            }),
{
    let chars: Vec<char> = text::chars_of(filter);
    let (from, to) = text::trim_bounds(&chars);
    let trimmed = text::text_of(&chars, from, to);
    if from == to || text::same_text(trimmed.as_str(), "true") {
        let mut p: Vec<BpfInsn> = Vec::new();
        p.push(BpfInsn { code: BPF_RET | BPF_K, jt: 0, jf: 0, k: u32::MAX });
        proof {
            assert(p@ =~= seq![BpfInsn { code: BPF_RET | BPF_K, jt: 0, jf: 0, k: u32::MAX }]);
            semantics::lemma_return_program(p@);
        }
        return Ok(p);
    }
    let tokens = match token::tokenize(filter) {
        Ok(tokens) => tokens,
        Err(e) => {
            return Err(e);
        },
    };
    assert(tokens.len() == tokens@.len());
    let expr = match parser::parse(tokens) {
        Ok(expr) => expr,
        Err(e) => {
            return Err(e);
        },
    };
    match compile_filter(&expr) {
        Ok(p) => {
            assert forall|input: bpf::Input| #[trigger] bpf::verdict(p@, input) == (if accepts(
                filter@,
                input,
            ) {
                u32::MAX
            } else {
                0
            }) by {
                semantics::law_compiled_filter_decides(expr, p@, input);
            }
            Ok(p)
        },
        Err(e) => Err(e),
    }
}

/// Compiles an expression.
pub fn compile_filter(expr: &parser::Expr) -> (r: Result<Vec<BpfInsn>, String>)
    requires
        semantics::labels_fit(*expr),
    ensures
        match r {
            Ok(p) => program(*expr) == Ok::<Seq<BpfInsn>, Seq<char>>(p@),
            Err(e) => program(*expr) == Err::<Seq<BpfInsn>, Seq<char>>(e@),
        },
{
    let mut compiler = Compiler { insns: Vec::new(), next_label: 2 };
    let label_true: u128 = 0;
    let label_false: u128 = 1;
    compiler.compile_expr(expr, label_true, label_false);
    compiler.emit_label(label_true);
    compiler.emit(BPF_RET | BPF_K, u32::MAX);
    compiler.emit_label(label_false);
    compiler.emit(BPF_RET | BPF_K, 0);
    proof {
        assert(compiler.insns@ =~= codegen::filter_code(*expr));
        semantics::lemma_filter_code(*expr);
    }
    codegen::resolve_insns(compiler.insns)
}

} // verus!
