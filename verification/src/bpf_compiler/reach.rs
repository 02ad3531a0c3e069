//! Which filters are short enough for their jumps.
use vstd::prelude::*;
use crate::bpf_compiler::codegen;
use crate::bpf_compiler::codegen::IrInsn;
use crate::bpf_compiler::compiled;
use crate::bpf_compiler::expression;
use crate::bpf_compiler::parser;
use crate::bpf_compiler::parser::{Dir, Expr};
use crate::bpf_compiler::program;
use crate::bpf_compiler::semantics;
use crate::bpf_compiler::token;
use crate::bpf_compiler::token::Tok;

verus! {

/// A label stands behind index `i`.
spec fn comes(c: Seq<IrInsn>, i: int, l: u128) -> bool {
    exists|j: int| i < j < c.len() && #[trigger] c[j] == IrInsn::Label(l)
}

/// Every jump goes to a label that comes later, or to `lt` or `lf`.
spec fn forward(c: Seq<IrInsn>, lt: u128, lf: u128) -> bool {
    forall|i: int|
        0 <= i < c.len() ==> match #[trigger] c[i] {
            IrInsn::Jmp(_) => false,
            IrInsn::JmpCond(_, _, t, f) => (t == lt || t == lf || comes(c, i, t)) && (f == lt || f
                == lf || comes(c, i, f)),
            _ => true,
        }
}

proof fn lemma_forward_join(
    a: Seq<IrInsn>,
    b: Seq<IrInsn>,
    n: u128,
    ta: u128,
    fa: u128,
    lt: u128,
    lf: u128,
)
    requires
        forward(a, ta, fa),
        forward(b, lt, lf),
        ta == n || ta == lt || ta == lf,
        fa == n || fa == lt || fa == lf,
    ensures
        forward(a + seq![IrInsn::Label(n)] + b, lt, lf),
{
    let c = a + seq![IrInsn::Label(n)] + b;
    let m = a.len() as int;
    assert(c[m] == IrInsn::Label(n));
    assert forall|i: int, l: u128| 0 <= i < m && comes(a, i, l) implies comes(c, i, l) by {
        let j = choose|j: int| i < j < a.len() && #[trigger] a[j] == IrInsn::Label(l);
        assert(c[j] == IrInsn::Label(l));
    }
    assert forall|i: int, l: u128| 0 <= i < b.len() && comes(b, i, l) implies comes(
        c,
        m + 1 + i,
        l,
    ) by {
        let j = choose|j: int| i < j < b.len() && #[trigger] b[j] == IrInsn::Label(l);
        assert(c[m + 1 + j] == IrInsn::Label(l));
    }
    assert forall|i: int| 0 <= i < c.len() implies match #[trigger] c[i] {
        IrInsn::Jmp(_) => false,
        IrInsn::JmpCond(_, _, t, f) => (t == lt || t == lf || comes(c, i, t)) && (f == lt || f == lf
            || comes(c, i, f)),
        _ => true,
    } by {
        if i < m {
            assert(c[i] == a[i]);
            assert(comes(c, i, n));
        } else if i > m {
            assert(c[i] == b[i - m - 1]);
        }
    }
}

proof fn lemma_forward_directed(
    code: u16,
    k0: u32,
    k1: u32,
    dir: Dir,
    v: u32,
    lt: u128,
    lf: u128,
    n: u128,
)
    ensures
        forward(codegen::directed(code, k0, k1, dir, v, lt, lf, n).0, lt, lf),
{
    let op = crate::network::bpf::BPF_JEQ;
    match dir {
        Dir::SrcOrDst => {
            let a = codegen::probe(code, k0, op, v, lt, n);
            lemma_forward_join(a, codegen::probe(code, k1, op, v, lt, lf), n, lt, n, lt, lf);
        },
        Dir::SrcAndDst => {
            let a = codegen::probe(code, k0, op, v, n, lf);
            lemma_forward_join(a, codegen::probe(code, k1, op, v, lt, lf), n, n, lf, lt, lf);
        },
        _ => {},
    }
}

/// The code of an expression jumps forward only.
proof fn lemma_forward(e: Expr, lt: u128, lf: u128, n: u128)
    ensures
        forward(codegen::code_of(e, lt, lf, n).0, lt, lf),
    decreases e,
{
    match e {
        Expr::And(l, r) => {
            let (cl, n1) = codegen::code_of(*l, n, lf, codegen::succ(n));
            lemma_forward(*l, n, lf, codegen::succ(n));
            lemma_forward(*r, lt, lf, n1);
            lemma_forward_join(cl, codegen::code_of(*r, lt, lf, n1).0, n, n, lf, lt, lf);
        },
        Expr::Or(l, r) => {
            let (cl, n1) = codegen::code_of(*l, lt, n, codegen::succ(n));
            lemma_forward(*l, lt, n, codegen::succ(n));
            lemma_forward(*r, lt, lf, n1);
            lemma_forward_join(cl, codegen::code_of(*r, lt, lf, n1).0, n, lt, n, lt, lf);
        },
        Expr::Not(i) => {
            lemma_forward(*i, lf, lt, n);
        },
        Expr::Host(dir, ip) => {
            let code = crate::network::bpf::BPF_LD | crate::network::bpf::BPF_W
                | crate::network::bpf::BPF_ABS;
            lemma_forward_directed(code, 12, 16, dir, ip, lt, lf, n);
        },
        Expr::Port(dir, port) => {
            let code = crate::network::bpf::BPF_LD | crate::network::bpf::BPF_H
                | crate::network::bpf::BPF_IND;
            lemma_forward_directed(code, 0, 2, dir, codegen::widen(port), lt, lf, n);
            let c = codegen::directed(code, 0, 2, dir, codegen::widen(port), lt, lf, n).0;
            let d = codegen::code_of(e, lt, lf, n).0;
            assert forall|i: int, l: u128| 0 <= i < c.len() && comes(c, i, l) implies comes(
                d,
                i + 1,
                l,
            ) by {
                let j = choose|j: int| i < j < c.len() && #[trigger] c[j] == IrInsn::Label(l);
                assert(d[j + 1] == IrInsn::Label(l));
            }
            assert forall|i: int| 1 <= i < d.len() implies #[trigger] d[i] == c[i - 1] by {}
        },
        _ => {},
    }
}

/// Number of instructions that an expression takes.
spec fn size(e: Expr) -> nat
    decreases e,
{
    match e {
        Expr::And(l, r) => size(*l) + size(*r),
        Expr::Or(l, r) => size(*l) + size(*r),
        Expr::Not(i) => size(*i),
        Expr::Ip => 3,
        Expr::Host(dir, _) => 2 + 2 * codegen::dir_labels(dir),
        Expr::Port(dir, _) => 3 + 2 * codegen::dir_labels(dir),
        _ => 2,
    }
}

proof fn lemma_count_joined(a: Seq<IrInsn>, b: Seq<IrInsn>)
    ensures
        codegen::real_count(a + b) == codegen::real_count(a) + codegen::real_count(b),
    decreases b.len(),
{
    if b.len() == 0 {
        assert(a + b =~= a);
    } else {
        assert((a + b).drop_last() =~= a + b.drop_last());
        lemma_count_joined(a, b.drop_last());
    }
}

proof fn lemma_count_one(i: IrInsn)
    ensures
        codegen::real_count(seq![i]) == (if i is Label {
            0nat
        } else {
            1nat
        }),
{
    assert(seq![i].drop_last() =~= Seq::empty());
    assert(codegen::real_count(Seq::<IrInsn>::empty()) == 0);
}

proof fn lemma_count_two(i: IrInsn, j: IrInsn)
    requires
        !(i is Label),
        !(j is Label),
    ensures
        codegen::real_count(seq![i, j]) == 2,
{
    lemma_count_one(i);
    lemma_count_one(j);
    lemma_count_joined(seq![i], seq![j]);
    assert(seq![i] + seq![j] =~= seq![i, j]);
}

proof fn lemma_count_directed(
    code: u16,
    k0: u32,
    k1: u32,
    dir: Dir,
    v: u32,
    lt: u128,
    lf: u128,
    n: u128,
)
    ensures
        codegen::real_count(codegen::directed(code, k0, k1, dir, v, lt, lf, n).0) == 2 + 2
            * codegen::dir_labels(dir),
{
    let op = crate::network::bpf::BPF_JEQ;
    let label = IrInsn::Label(n);
    lemma_count_one(label);
    let b = codegen::probe(code, k1, op, v, lt, lf);
    lemma_count_two(codegen::plain(code, k1), IrInsn::JmpCond(op, v, lt, lf));
    lemma_count_two(codegen::plain(code, k0), IrInsn::JmpCond(op, v, lt, lf));
    lemma_count_two(codegen::plain(code, k0), IrInsn::JmpCond(op, v, lt, n));
    lemma_count_two(codegen::plain(code, k0), IrInsn::JmpCond(op, v, n, lf));
    let a1 = codegen::probe(code, k0, op, v, lt, n);
    let a2 = codegen::probe(code, k0, op, v, n, lf);
    lemma_count_joined(a1, seq![label]);
    lemma_count_joined(a1 + seq![label], b);
    lemma_count_joined(a2, seq![label]);
    lemma_count_joined(a2 + seq![label], b);
}

proof fn lemma_count(e: Expr, lt: u128, lf: u128, n: u128)
    ensures
        codegen::real_count(codegen::code_of(e, lt, lf, n).0) == size(e),
    decreases e,
{
    match e {
        Expr::And(l, r) => {
            let (cl, n1) = codegen::code_of(*l, n, lf, codegen::succ(n));
            lemma_count(*l, n, lf, codegen::succ(n));
            lemma_count(*r, lt, lf, n1);
            lemma_count_one(IrInsn::Label(n));
            lemma_count_joined(cl, seq![IrInsn::Label(n)]);
            lemma_count_joined(
                cl + seq![IrInsn::Label(n)],
                codegen::code_of(*r, lt, lf, n1).0,
            );
        },
        Expr::Or(l, r) => {
            let (cl, n1) = codegen::code_of(*l, lt, n, codegen::succ(n));
            lemma_count(*l, lt, n, codegen::succ(n));
            lemma_count(*r, lt, lf, n1);
            lemma_count_one(IrInsn::Label(n));
            lemma_count_joined(cl, seq![IrInsn::Label(n)]);
            lemma_count_joined(
                cl + seq![IrInsn::Label(n)],
                codegen::code_of(*r, lt, lf, n1).0,
            );
        },
        Expr::Not(i) => {
            lemma_count(*i, lf, lt, n);
        },
        Expr::Ip => {
            let c = codegen::code_of(e, lt, lf, n).0;
            lemma_count_two(c[0], c[1]);
            lemma_count_one(c[2]);
            lemma_count_joined(seq![c[0], c[1]], seq![c[2]]);
            assert(seq![c[0], c[1]] + seq![c[2]] =~= c);
        },
        Expr::Host(dir, ip) => {
            let code = crate::network::bpf::BPF_LD | crate::network::bpf::BPF_W
                | crate::network::bpf::BPF_ABS;
            lemma_count_directed(code, 12, 16, dir, ip, lt, lf, n);
        },
        Expr::Port(dir, port) => {
            let code = crate::network::bpf::BPF_LD | crate::network::bpf::BPF_H
                | crate::network::bpf::BPF_IND;
            lemma_count_directed(code, 0, 2, dir, codegen::widen(port), lt, lf, n);
            let c = codegen::directed(code, 0, 2, dir, codegen::widen(port), lt, lf, n).0;
            let d = codegen::code_of(e, lt, lf, n).0;
            lemma_count_one(d[0]);
            lemma_count_joined(seq![d[0]], c);
            assert(seq![d[0]] + c =~= d);
        },
        _ => {
            let c = codegen::code_of(e, lt, lf, n).0;
            lemma_count_two(c[0], c[1]);
            assert(seq![c[0], c[1]] =~= c);
        },
    }
}

/// Instructions are counted from the front.
proof fn lemma_at_grows(ir: Seq<IrInsn>, i: int, j: int)
    requires
        0 <= i <= j <= ir.len(),
    ensures
        semantics::at(ir, i) <= semantics::at(ir, j),
        i < j && !(ir[i] is Label) ==> semantics::at(ir, i) < semantics::at(ir, j),
    decreases j - i,
{
    if i < j {
        lemma_at_grows(ir, i + 1, j);
        assert(ir.take(i + 1).drop_last() =~= ir.take(i));
    }
}

/// Jumps that go forward in a program of at most 256 instructions can be written.
proof fn lemma_resolves(ir: Seq<IrInsn>, m: Map<u128, nat>, k: int)
    requires
        0 <= k <= ir.len(),
        m == codegen::label_offsets(ir),
        semantics::labels_distinct(ir),
        codegen::real_count(ir) <= 256,
        forall|i: int|
            0 <= i < ir.len() ==> match #[trigger] ir[i] {
                IrInsn::Jmp(_) => false,
                IrInsn::JmpCond(_, _, t, f) => comes(ir, i, t) && comes(ir, i, f),
                _ => true,
            },
    ensures
        codegen::resolved(ir.take(k), m) is Ok,
    decreases k,
{
    if k > 0 {
        let i = k - 1;
        lemma_resolves(ir, m, i);
        assert(ir.take(k).drop_last() =~= ir.take(i));
        assert(ir.take(k).last() == ir[i]);
        codegen::lemma_resolved_len(ir.take(i), m);
        match ir[i] {
            IrInsn::JmpCond(_, _, t, f) => {
                lemma_target(ir, i, t);
                lemma_target(ir, i, f);
            },
            _ => {},
        }
    }
}

proof fn lemma_target(ir: Seq<IrInsn>, i: int, l: u128)
    requires
        0 <= i < ir.len(),
        semantics::labels_distinct(ir),
        comes(ir, i, l),
        !(ir[i] is Label),
    ensures
        semantics::at(ir, i) < codegen::label_offsets(ir)[l] <= codegen::real_count(ir),
{
    let j = choose|j: int| i < j < ir.len() && #[trigger] ir[j] == IrInsn::Label(l);
    assert forall|x: int| j < x < ir.len() implies #[trigger] ir[x] != IrInsn::Label(l) by {
        if ir[x] is Label {
            assert(ir[j] != ir[x]);
        }
    }
    semantics::lemma_label_target(ir, j, l);
    lemma_at_grows(ir, i, j);
    lemma_at_grows(ir, j, ir.len() as int);
    assert(ir.take(ir.len() as int) =~= ir);
}

/// An expression that takes at most 254 instructions has a program.
proof fn lemma_small_expression(e: Expr)
    requires
        size(e) <= 254,
        semantics::labels_fit(e),
    ensures
        program(e) is Ok,
{
    let ir = codegen::filter_code(e);
    let c = codegen::code_of(e, 0, 1, 2).0;
    let m = c.len() as int;
    semantics::lemma_filter_code(e);
    lemma_forward(e, 0, 1, 2);
    lemma_count(e, 0, 1, 2);
    let x = seq![ir[m], ir[m + 1]];
    let y = seq![ir[m + 2], ir[m + 3]];
    assert(ir =~= c + x + y);
    assert(ir[m] == IrInsn::Label(0));
    assert(ir[m + 2] == IrInsn::Label(1));
    lemma_count_one(ir[m]);
    lemma_count_one(ir[m + 1]);
    lemma_count_one(ir[m + 2]);
    lemma_count_one(ir[m + 3]);
    lemma_count_joined(seq![ir[m]], seq![ir[m + 1]]);
    lemma_count_joined(seq![ir[m + 2]], seq![ir[m + 3]]);
    assert(seq![ir[m]] + seq![ir[m + 1]] =~= x);
    assert(seq![ir[m + 2]] + seq![ir[m + 3]] =~= y);
    lemma_count_joined(c, x);
    lemma_count_joined(c + x, y);
    assert forall|i: int| 0 <= i < ir.len() implies match #[trigger] ir[i] {
        IrInsn::Jmp(_) => false,
        IrInsn::JmpCond(_, _, t, f) => comes(ir, i, t) && comes(ir, i, f),
        _ => true,
    } by {
        if i < m {
            assert(ir[i] == c[i]);
            assert(comes(ir, i, 0));
            assert(comes(ir, i, 1));
            assert forall|l: u128| comes(c, i, l) implies comes(ir, i, l) by {
                let j = choose|j: int| i < j < c.len() && #[trigger] c[j] == IrInsn::Label(l);
                assert(ir[j] == IrInsn::Label(l));
            }
        }
    }
    lemma_resolves(ir, codegen::label_offsets(ir), ir.len() as int);
    assert(ir.take(ir.len() as int) =~= ir);
}

/// What is read takes no more than three instructions for each of its tokens.
spec fn modest(r: parser::Parsed<Expr>, p: int, n: nat) -> bool {
    match r {
        Ok((e, q)) => p < q <= n && size(e) <= 3 * (q - p) && codegen::labels(e) < q - p,
        Err(_) => true,
    }
}

proof fn lemma_modest_factor(t: Seq<Tok>, p: int)
    requires
        0 <= p,
    ensures
        modest(parser::factor_at(t, p), p, t.len()),
    decreases t.len() - p, 0int,
{
    if p < t.len() {
        if t[p] == Tok::Not {
            lemma_modest_factor(t, p + 1);
        } else if t[p] == Tok::LParen {
            lemma_modest_expr(t, p + 1);
        }
    }
}

proof fn lemma_modest_term_tail(t: Seq<Tok>, s: int, p: int, left: Expr)
    requires
        0 <= s,
        modest(Ok((left, p)), s, t.len()),
    ensures
        modest(parser::term_tail(t, p, left), s, t.len()),
    decreases t.len() - p, 1int,
{
    if !(p >= t.len() || t[p] == Tok::Or || t[p] == Tok::RParen) {
        let from = if t[p] == Tok::And {
            p + 1
        } else {
            p
        };
        lemma_modest_factor(t, from);
        match parser::factor_at(t, from) {
            Ok((right, q)) => {
                lemma_modest_term_tail(t, s, q, Expr::And(Box::new(left), Box::new(right)));
            },
            Err(_) => {},
        }
    }
}

proof fn lemma_modest_term(t: Seq<Tok>, p: int)
    requires
        0 <= p,
    ensures
        modest(parser::term_at(t, p), p, t.len()),
    decreases t.len() - p, 2int,
{
    lemma_modest_factor(t, p);
    match parser::factor_at(t, p) {
        Ok((e, q)) => {
            lemma_modest_term_tail(t, p, q, e);
        },
        Err(_) => {},
    }
}

proof fn lemma_modest_expr_tail(t: Seq<Tok>, s: int, p: int, left: Expr)
    requires
        0 <= s,
        modest(Ok((left, p)), s, t.len()),
    ensures
        modest(parser::expr_tail(t, p, left), s, t.len()),
    decreases t.len() - p, 3int,
{
    if p < t.len() && t[p] == Tok::Or {
        lemma_modest_term(t, p + 1);
        match parser::term_at(t, p + 1) {
            Ok((right, q)) => {
                lemma_modest_expr_tail(t, s, q, Expr::Or(Box::new(left), Box::new(right)));
            },
            Err(_) => {},
        }
    }
}

proof fn lemma_modest_expr(t: Seq<Tok>, p: int)
    requires
        0 <= p,
    ensures
        modest(parser::expr_at(t, p), p, t.len()),
    decreases t.len() - p, 4int,
{
    lemma_modest_term(t, p);
    match parser::term_at(t, p) {
        Ok((e, q)) => {
            lemma_modest_expr_tail(t, p, q, e);
        },
        Err(_) => {},
    }
}

/// A text has no more tokens than characters.
proof fn lemma_token_count(s: Seq<char>, i: int)
    requires
        0 <= i <= s.len(),
    ensures
        token::tokens_from(s, i) matches Ok(t) ==> t.len() <= s.len() - i,
    decreases s.len() - i,
{
    if i < s.len() {
        lemma_token_count(s, i + 1);
        if i + 1 < s.len() {
            lemma_token_count(s, i + 2);
        }
        crate::bpf_compiler::spelling::lemma_word_end(s, i + 1);
        lemma_token_count(s, token::word_end(s, i + 1));
    }
}

/// The labels of a filter that fits in memory can be numbered.
pub proof fn lemma_labels_of_text(filter: Seq<char>)
    requires
        expression(filter) is Ok,
        filter.len() <= usize::MAX,
    ensures
        semantics::labels_fit(expression(filter)->Ok_0),
{
    lemma_token_count(filter, 0);
    lemma_modest_expr(token::tokens_of(filter)->Ok_0, 0);
}

/// Every filter of at most 84 characters that follows the grammar compiles.
pub proof fn law_short_filters_compile(filter: Seq<char>)
    requires
        expression(filter) is Ok,
        filter.len() <= 84,
    ensures
        compiled(filter) is Ok,
{
    lemma_token_count(filter, 0);
    let t = token::tokens_of(filter)->Ok_0;
    lemma_modest_expr(t, 0);
    lemma_small_expression(expression(filter)->Ok_0);
}

} // verus!
