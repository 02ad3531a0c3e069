//! Different spellings of the same filter.
use vstd::prelude::*;
use crate::bpf_compiler::codegen;
use crate::bpf_compiler::compiled;
use crate::bpf_compiler::expression;
use crate::bpf_compiler::is_trivial;
use crate::bpf_compiler::parser;
use crate::bpf_compiler::parser::{Dir, Expr};
use crate::bpf_compiler::program;
use crate::bpf_compiler::token;
use crate::bpf_compiler::token::Tok;
use crate::text;

verus! {

/// `b` is `a` with some ASCII letters in the other case.
pub open spec fn recased(a: Seq<char>, b: Seq<char>) -> bool {
    &&& a.len() == b.len()
    &&& forall|i: int|
        0 <= i < a.len() ==> text::ascii_lower(a[i]) == text::ascii_lower(#[trigger] b[i])
}

/// The same token, or the same word in another case.
pub open spec fn alike(a: Tok, b: Tok) -> bool {
    a == b || match (a, b) {
        (Tok::Ident(x), Tok::Ident(y)) => recased(x, y),
        _ => false,
    }
}

/// The tokens `u` start like `t`.
pub open spec fn starts_like(t: Seq<Tok>, u: Seq<Tok>) -> bool {
    &&& t.len() <= u.len()
    &&& forall|i: int| 0 <= i < t.len() ==> alike(#[trigger] t[i], u[i])
}

/// What an expression at the end of `t` cannot go on with comes next in `u`.
pub open spec fn closes(t: Seq<Tok>, u: Seq<Tok>) -> bool {
    u.len() == t.len() || u[t.len() as int] == Tok::RParen
}

proof fn lemma_same_char(x: char, y: char)
    requires
        text::ascii_lower(x) == text::ascii_lower(y),
    ensures
        x == y || {
            &&& text::is_ascii_upper(x) || text::is_ascii_lower(x)
            &&& text::is_ascii_upper(y) || text::is_ascii_lower(y)
        },
{
}

/// A word without letters has only one spelling.
proof fn lemma_recased_without_letters(x: Seq<char>, y: Seq<char>)
    requires
        recased(x, y),
        forall|i: int|
            0 <= i < x.len() ==> !text::is_ascii_upper(#[trigger] x[i]) && !text::is_ascii_lower(
                x[i],
            ),
    ensures
        x == y,
{
    assert forall|i: int| 0 <= i < x.len() implies x[i] == #[trigger] y[i] by {
        lemma_same_char(x[i], y[i]);
    }
    assert(x =~= y);
}

proof fn lemma_recased_decimal(x: Seq<char>, y: Seq<char>, max: nat)
    requires
        recased(x, y),
        text::decimal(x, max) is Some,
    ensures
        x == y,
{
    let d = text::unsigned_digits(x);
    assert forall|i: int| 0 <= i < x.len() implies !text::is_ascii_upper(#[trigger] x[i])
        && !text::is_ascii_lower(x[i]) by {
        if x[0] == '+' {
            if i > 0 {
                assert(text::is_digit(d[i - 1]));
            }
        } else {
            assert(text::is_digit(d[i]));
        }
    }
    lemma_recased_without_letters(x, y);
}

proof fn lemma_recased_ipv4(x: Seq<char>, y: Seq<char>)
    requires
        recased(x, y),
        text::ipv4(x) is Some,
    ensures
        x == y,
{
    let n = x.len() as int;
    let i = text::next_dot(x, 0);
    let j = text::next_dot(x, i + 1);
    let k = text::next_dot(x, j + 1);
    text::lemma_next_dot(x, 0);
    text::lemma_next_dot(x, i + 1);
    text::lemma_next_dot(x, j + 1);
    assert forall|m: int| 0 <= m < n implies !text::is_ascii_upper(#[trigger] x[m])
        && !text::is_ascii_lower(x[m]) by {
        if m < i {
            assert(text::is_digit(x.subrange(0, i)[m]));
        } else if i < m < j {
            assert(text::is_digit(x.subrange(i + 1, j)[m - i - 1]));
        } else if j < m < k {
            assert(text::is_digit(x.subrange(j + 1, k)[m - j - 1]));
        } else if k < m {
            assert(text::is_digit(x.subrange(k + 1, n)[m - k - 1]));
        }
    }
    lemma_recased_without_letters(x, y);
}

/// A test that is read in `t` is read in `u` too.
proof fn lemma_test_alike(t: Seq<Tok>, u: Seq<Tok>, p: int, dir: Dir)
    requires
        0 <= p,
        starts_like(t, u),
    ensures
        match parser::test_at(t, p, dir) {
            Ok((e, q)) => p < q <= t.len() && parser::test_at(u, p, dir) == Ok::<
                (Expr, int),
                Seq<char>,
            >((e, q)),
            Err(_) => true,
        },
{
    if p < t.len() {
        assert(alike(t[p], u[p]));
        if p + 1 < t.len() {
            assert(alike(t[p + 1], u[p + 1]));
            match (t[p + 1], u[p + 1]) {
                (Tok::Ident(x), Tok::Ident(y)) => {
                    assert(recased(x, y));
                    if text::decimal(x, u32::MAX as nat) is Some {
                        lemma_recased_decimal(x, y, u32::MAX as nat);
                    }
                    if text::decimal(x, 0xffff) is Some {
                        lemma_recased_decimal(x, y, 0xffff);
                    }
                    if text::ipv4(x) is Some {
                        lemma_recased_ipv4(x, y);
                    }
                },
                _ => {},
            }
        }
    }
}

/// A factor that is read in `t` is read in `u` too.
proof fn lemma_factor_alike(t: Seq<Tok>, u: Seq<Tok>, p: int)
    requires
        0 <= p,
        starts_like(t, u),
    ensures
        match parser::factor_at(t, p) {
            Ok((e, q)) => p < q <= t.len() && parser::factor_at(u, p) == Ok::<
                (Expr, int),
                Seq<char>,
            >((e, q)),
            Err(_) => true,
        },
    decreases t.len() - p, 0int,
{
    if p < t.len() {
        assert(alike(t[p], u[p]));
        if t[p] == Tok::Not {
            lemma_factor_alike(t, u, p + 1);
        } else if t[p] == Tok::LParen {
            lemma_expr_alike(t, u, p + 1);
            match parser::expr_at(t, p + 1) {
                Ok((e, q)) => {
                    if q < t.len() {
                        assert(alike(t[q], u[q]));
                    }
                },
                Err(_) => {},
            }
        } else {
            lemma_test_alike(t, u, p, Dir::SrcOrDst);
            lemma_test_alike(t, u, p + 1, Dir::Src);
            lemma_test_alike(t, u, p + 1, Dir::Dst);
        }
    }
}

/// Operands of a conjunction that are read in `t` are read in `u` too; where those of `t` go up to
/// its end, `u` may go on with more.
proof fn lemma_term_tail_alike(t: Seq<Tok>, u: Seq<Tok>, p: int, left: Expr)
    requires
        0 <= p <= t.len(),
        starts_like(t, u),
    ensures
        match parser::term_tail(t, p, left) {
            Ok((e, q)) => {
                &&& p <= q <= t.len()
                &&& q < t.len() || closes(t, u) ==> parser::term_tail(u, p, left) == Ok::<
                    (Expr, int),
                    Seq<char>,
                >((e, q))
                &&& q == t.len() ==> parser::term_tail(u, p, left) == parser::term_tail(u, q, e)
            },
            Err(_) => true,
        },
    decreases t.len() - p, 1int,
{
    if p < t.len() {
        assert(alike(t[p], u[p]));
        if t[p] != Tok::Or && t[p] != Tok::RParen {
            let from = if t[p] == Tok::And {
                p + 1
            } else {
                p
            };
            lemma_factor_alike(t, u, from);
            match parser::factor_at(t, from) {
                Ok((right, q)) => {
                    lemma_term_tail_alike(t, u, q, Expr::And(Box::new(left), Box::new(right)));
                },
                Err(_) => {},
            }
        }
    }
}

/// A conjunction that is read in `t` is read in `u` too; one that goes up to the end of `t` may go
/// on in `u`.
proof fn lemma_term_alike(t: Seq<Tok>, u: Seq<Tok>, p: int)
    requires
        0 <= p,
        starts_like(t, u),
    ensures
        match parser::term_at(t, p) {
            Ok((e, q)) => {
                &&& p < q <= t.len()
                &&& q < t.len() || closes(t, u) ==> parser::term_at(u, p) == Ok::<
                    (Expr, int),
                    Seq<char>,
                >((e, q))
                &&& q == t.len() ==> parser::term_at(u, p) == parser::term_tail(u, q, e)
            },
            Err(_) => true,
        },
    decreases t.len() - p, 2int,
{
    lemma_factor_alike(t, u, p);
    match parser::factor_at(t, p) {
        Ok((e, q)) => {
            lemma_term_tail_alike(t, u, q, e);
        },
        Err(_) => {},
    }
}

/// Operands of a disjunction that are read in `t` are read in `u` too.
proof fn lemma_expr_tail_alike(t: Seq<Tok>, u: Seq<Tok>, p: int, left: Expr)
    requires
        0 <= p <= t.len(),
        starts_like(t, u),
    ensures
        match parser::expr_tail(t, p, left) {
            Ok((e, q)) => {
                &&& p <= q <= t.len()
                &&& q < t.len() || closes(t, u) ==> parser::expr_tail(u, p, left) == Ok::<
                    (Expr, int),
                    Seq<char>,
                >((e, q))
            },
            Err(_) => true,
        },
    decreases t.len() - p, 3int,
{
    if p < t.len() {
        assert(alike(t[p], u[p]));
        if t[p] == Tok::Or {
            lemma_term_alike(t, u, p + 1);
            match parser::term_at(t, p + 1) {
                Ok((right, q)) => {
                    lemma_expr_tail_alike(t, u, q, Expr::Or(Box::new(left), Box::new(right)));
                },
                Err(_) => {},
            }
        }
    }
}

/// A disjunction that is read in `t` is read in `u` too.
pub proof fn lemma_expr_alike(t: Seq<Tok>, u: Seq<Tok>, p: int)
    requires
        0 <= p,
        starts_like(t, u),
    ensures
        match parser::expr_at(t, p) {
            Ok((e, q)) => {
                &&& p < q <= t.len()
                &&& q < t.len() || closes(t, u) ==> parser::expr_at(u, p) == Ok::<
                    (Expr, int),
                    Seq<char>,
                >((e, q))
            },
            Err(_) => true,
        },
    decreases t.len() - p, 4int,
{
    lemma_term_alike(t, u, p);
    match parser::term_at(t, p) {
        Ok((e, q)) => {
            lemma_expr_tail_alike(t, u, q, e);
        },
        Err(_) => {},
    }
}

/// What was read, with `k` more tokens in front.
pub open spec fn moved(r: parser::Parsed<Expr>, k: int) -> parser::Parsed<Expr> {
    match r {
        Ok((e, q)) => Ok((e, q + k)),
        Err(e) => Err(e),
    }
}

proof fn lemma_test_moved(x: Seq<Tok>, t: Seq<Tok>, p: int, dir: Dir)
    requires
        0 <= p,
    ensures
        parser::test_at(x + t, x.len() + p, dir) == moved(
            parser::test_at(t, p, dir),
            x.len() as int,
        ),
{
}

/// Tokens in front do not change which factor is read.
proof fn lemma_factor_moved(x: Seq<Tok>, t: Seq<Tok>, p: int)
    requires
        0 <= p,
    ensures
        parser::factor_at(x + t, x.len() + p) == moved(parser::factor_at(t, p), x.len() as int),
    decreases t.len() - p, 0int,
{
    if p < t.len() {
        assert((x + t)[x.len() + p] == t[p]);
        if t[p] == Tok::Not {
            lemma_factor_moved(x, t, p + 1);
        } else if t[p] == Tok::LParen {
            lemma_expr_moved(x, t, p + 1);
            lemma_expr_alike(t, t, p + 1);
        } else {
            lemma_test_moved(x, t, p, Dir::SrcOrDst);
            lemma_test_moved(x, t, p + 1, Dir::Src);
            lemma_test_moved(x, t, p + 1, Dir::Dst);
        }
    }
}

/// Tokens in front do not change how a conjunction goes on.
proof fn lemma_term_tail_moved(x: Seq<Tok>, t: Seq<Tok>, p: int, left: Expr)
    requires
        0 <= p,
    ensures
        parser::term_tail(x + t, x.len() + p, left) == moved(
            parser::term_tail(t, p, left),
            x.len() as int,
        ),
    decreases t.len() - p, 1int,
{
    if p < t.len() {
        assert((x + t)[x.len() + p] == t[p]);
        if t[p] != Tok::Or && t[p] != Tok::RParen {
            let from = if t[p] == Tok::And {
                p + 1
            } else {
                p
            };
            lemma_factor_moved(x, t, from);
            match parser::factor_at(t, from) {
                Ok((right, q)) => {
                    if p < q <= t.len() {
                        lemma_term_tail_moved(x, t, q, Expr::And(Box::new(left), Box::new(right)));
                    }
                },
                Err(_) => {},
            }
        }
    }
}

/// Tokens in front do not change which conjunction is read.
proof fn lemma_term_moved(x: Seq<Tok>, t: Seq<Tok>, p: int)
    requires
        0 <= p,
    ensures
        parser::term_at(x + t, x.len() + p) == moved(parser::term_at(t, p), x.len() as int),
    decreases t.len() - p, 2int,
{
    lemma_factor_moved(x, t, p);
    match parser::factor_at(t, p) {
        Ok((e, q)) => {
            if p < q <= t.len() {
                lemma_term_tail_moved(x, t, q, e);
            }
        },
        Err(_) => {},
    }
}

/// Tokens in front do not change how a disjunction goes on.
proof fn lemma_expr_tail_moved(x: Seq<Tok>, t: Seq<Tok>, p: int, left: Expr)
    requires
        0 <= p,
    ensures
        parser::expr_tail(x + t, x.len() + p, left) == moved(
            parser::expr_tail(t, p, left),
            x.len() as int,
        ),
    decreases t.len() - p, 3int,
{
    if p < t.len() {
        assert((x + t)[x.len() + p] == t[p]);
        if t[p] == Tok::Or {
            lemma_term_moved(x, t, p + 1);
            match parser::term_at(t, p + 1) {
                Ok((right, q)) => {
                    if p < q <= t.len() {
                        lemma_expr_tail_moved(x, t, q, Expr::Or(Box::new(left), Box::new(right)));
                    }
                },
                Err(_) => {},
            }
        }
    }
}

/// Tokens in front do not change which disjunction is read.
pub proof fn lemma_expr_moved(x: Seq<Tok>, t: Seq<Tok>, p: int)
    requires
        0 <= p,
    ensures
        parser::expr_at(x + t, x.len() + p) == moved(parser::expr_at(t, p), x.len() as int),
    decreases t.len() - p, 4int,
{
    lemma_term_moved(x, t, p);
    match parser::term_at(t, p) {
        Ok((e, q)) => {
            if p < q <= t.len() {
                lemma_expr_tail_moved(x, t, q, e);
            }
        },
        Err(_) => {},
    }
}

/// Whether a token can come first in an operand.
spec fn opens(t: Tok) -> bool {
    t != Tok::And && t != Tok::Or && t != Tok::RParen
}

/// A conjunction at the end of `a` goes on in the same way with and without `and`.
proof fn lemma_term_tail_joined(a: Seq<Tok>, b: Seq<Tok>, left: Expr) -> (r: parser::Parsed<Expr>)
    requires
        b.len() > 0,
        opens(b[0]),
    ensures
        parser::term_tail(a.push(Tok::And) + b, a.len() as int, left) == moved(r, a.len() as int + 1),
        parser::term_tail(a + b, a.len() as int, left) == moved(r, a.len() as int),
        r matches Ok((e, q)) ==> 0 < q <= b.len(),
{
    let n = a.len() as int;
    let and = a.push(Tok::And);
    assert((and + b)[n] == Tok::And);
    assert((a + b)[n] == b[0]);
    lemma_factor_moved(and, b, 0);
    lemma_factor_moved(a, b, 0);
    lemma_factor_alike(b, b, 0);
    match parser::factor_at(b, 0) {
        Ok((right, q)) => {
            let next = Expr::And(Box::new(left), Box::new(right));
            lemma_term_tail_moved(and, b, q, next);
            lemma_term_tail_moved(a, b, q, next);
            lemma_term_tail_alike(b, b, q, next);
            parser::term_tail(b, q, next)
        },
        Err(e) => Err(e),
    }
}

/// The same was read, but the first sequence of tokens is one longer.
spec fn same_reading(r: parser::Parsed<Expr>, s: parser::Parsed<Expr>) -> bool {
    r == moved(s, 1)
}

/// A disjunction at the end of `a` goes on in the same way with and without `and`.
proof fn lemma_expr_tail_joined(a: Seq<Tok>, b: Seq<Tok>, p: int, left: Expr)
    requires
        0 <= p < a.len(),
        b.len() > 0,
        opens(b[0]),
        parser::expr_tail(a, p, left) matches Ok((e, q)) && q == a.len(),
    ensures
        same_reading(
            parser::expr_tail(a.push(Tok::And) + b, p, left),
            parser::expr_tail(a + b, p, left),
        ),
        parser::expr_tail(a + b, p, left) matches Ok((e, q)) ==> a.len() <= q,
    decreases a.len() - p,
{
    let n = a.len() as int;
    let and = a.push(Tok::And);
    assert(starts_like(a, and + b));
    assert(starts_like(a, a + b));
    assert((and + b)[p] == a[p]);
    assert((a + b)[p] == a[p]);
    lemma_term_alike(a, and + b, p + 1);
    lemma_term_alike(a, a + b, p + 1);
    match parser::term_at(a, p + 1) {
        Ok((right, q)) => {
            if q < n {
                lemma_expr_tail_joined(a, b, q, Expr::Or(Box::new(left), Box::new(right)));
            } else {
                let r = lemma_term_tail_joined(a, b, right);
                match r {
                    Ok((e, k)) => {
                        lemma_expr_tail_moved(and, b, k, Expr::Or(Box::new(left), Box::new(e)));
                        lemma_expr_tail_moved(a, b, k, Expr::Or(Box::new(left), Box::new(e)));
                        lemma_expr_tail_alike(b, b, k, Expr::Or(Box::new(left), Box::new(e)));
                    },
                    Err(_) => {},
                }
            }
        },
        Err(_) => {},
    }
}

/// An expression goes on in the same way with and without `and`.
proof fn lemma_expr_joined(a: Seq<Tok>, b: Seq<Tok>)
    requires
        parser::expr_at(a, 0) matches Ok((e, q)) && q == a.len(),
        b.len() > 0,
        opens(b[0]),
    ensures
        same_reading(parser::expr_at(a.push(Tok::And) + b, 0), parser::expr_at(a + b, 0)),
        parser::expr_at(a + b, 0) matches Ok((e, q)) ==> a.len() <= q,
{
    let n = a.len() as int;
    let and = a.push(Tok::And);
    assert(starts_like(a, and + b));
    assert(starts_like(a, a + b));
    lemma_term_alike(a, and + b, 0);
    lemma_term_alike(a, a + b, 0);
    match parser::term_at(a, 0) {
        Ok((left, q)) => {
            if q < n {
                lemma_expr_tail_joined(a, b, q, left);
            } else {
                let r = lemma_term_tail_joined(a, b, left);
                match r {
                    Ok((e, k)) => {
                        lemma_expr_tail_moved(and, b, k, e);
                        lemma_expr_tail_moved(a, b, k, e);
                        lemma_expr_tail_alike(b, b, k, e);
                    },
                    Err(_) => {},
                }
            }
        },
        Err(_) => {},
    }
}

/// Between two operands, `and` may be left out.
proof fn lemma_and_may_be_left_out(a: Seq<Tok>, b: Seq<Tok>)
    requires
        parser::parsed(a) is Ok,
        b.len() > 0,
        opens(b[0]),
    ensures
        parser::parsed(a.push(Tok::And) + b) == parser::parsed(a + b),
{
    assert(starts_like(a, a));
    lemma_expr_alike(a, a, 0);
    lemma_expr_joined(a, b);
    let t = a.push(Tok::And) + b;
    match parser::expr_at(a + b, 0) {
        Ok((e, k)) => {
            if k < (a + b).len() {
                assert((a + b)[k] == t[k + 1]);
            }
        },
        Err(_) => {},
    }
}

/// Parentheses around a whole expression change nothing.
proof fn lemma_parentheses(a: Seq<Tok>)
    requires
        parser::parsed(a) is Ok,
    ensures
        parser::parsed(seq![Tok::LParen] + a.push(Tok::RParen)) == parser::parsed(a),
{
    let n = a.len() as int;
    let closed = a.push(Tok::RParen);
    let t = seq![Tok::LParen] + closed;
    assert(starts_like(a, closed));
    lemma_expr_alike(a, closed, 0);
    lemma_expr_moved(seq![Tok::LParen], closed, 0);
    let e = parser::parsed(a)->Ok_0;
    assert(parser::expr_at(t, 1) == Ok::<(Expr, int), Seq<char>>((e, n + 1)));
    assert(t[n + 1] == Tok::RParen);
    assert(parser::factor_at(t, 0) == Ok::<(Expr, int), Seq<char>>((e, n + 2)));
    assert(parser::term_tail(t, n + 2, e) == Ok::<(Expr, int), Seq<char>>((e, n + 2)));
    assert(parser::expr_tail(t, n + 2, e) == Ok::<(Expr, int), Seq<char>>((e, n + 2)));
}

/// The tokens of one text and then those of another.
pub open spec fn joined(
    a: Result<Seq<Tok>, Seq<char>>,
    b: Result<Seq<Tok>, Seq<char>>,
) -> Result<Seq<Tok>, Seq<char>> {
    match (a, b) {
        (Ok(x), Ok(y)) => Ok(x + y),
        (Err(e), _) => Err(e),
        (_, Err(e)) => Err(e),
    }
}

/// Whether no token can reach from what comes before into `c`.
pub open spec fn breaks(c: char) -> bool {
    !token::is_word_char(c) && c != '&' && c != '|'
}

pub proof fn lemma_word_end(s: Seq<char>, from: int)
    requires
        0 <= from <= s.len(),
    ensures
        from <= token::word_end(s, from) <= s.len(),
        forall|j: int| from <= j < token::word_end(s, from) ==> token::is_word_char(#[trigger] s[j]),
        token::word_end(s, from) < s.len() ==> !token::is_word_char(s[token::word_end(s, from)]),
    decreases s.len() - from,
{
    if from < s.len() && token::is_word_char(s[from]) {
        lemma_word_end(s, from + 1);
    }
}

proof fn lemma_word_end_moved(x: Seq<char>, s: Seq<char>, from: int)
    requires
        0 <= from <= s.len(),
    ensures
        token::word_end(x + s, x.len() + from) == x.len() + token::word_end(s, from),
    decreases s.len() - from,
{
    if from < s.len() {
        assert((x + s)[x.len() + from] == s[from]);
        if token::is_word_char(s[from]) {
            lemma_word_end_moved(x, s, from + 1);
        }
    }
}

proof fn lemma_word_end_kept(s: Seq<char>, r: Seq<char>, from: int)
    requires
        0 <= from <= s.len(),
        r.len() > 0 ==> breaks(r[0]),
    ensures
        token::word_end(s + r, from) == token::word_end(s, from),
    decreases s.len() - from,
{
    if from < s.len() {
        assert((s + r)[from] == s[from]);
        if token::is_word_char(s[from]) {
            lemma_word_end_kept(s, r, from + 1);
        }
    } else if r.len() > 0 {
        assert((s + r)[from] == r[0]);
    }
}

/// The tokens of a text do not depend on what stands before it.
pub proof fn lemma_tokens_moved(x: Seq<char>, s: Seq<char>, i: int)
    requires
        0 <= i,
    ensures
        token::tokens_from(x + s, x.len() + i) == token::tokens_from(s, i),
    decreases s.len() - i,
{
    if i < s.len() {
        let k = x.len() as int;
        assert((x + s)[k + i] == s[i]);
        if i + 1 < s.len() {
            assert((x + s)[k + i + 1] == s[i + 1]);
            lemma_tokens_moved(x, s, i + 2);
        }
        lemma_tokens_moved(x, s, i + 1);
        if token::is_word_char(s[i]) {
            lemma_word_end(s, i + 1);
            lemma_word_end_moved(x, s, i + 1);
            let end = token::word_end(s, i + 1);
            lemma_tokens_moved(x, s, end);
            assert((x + s).subrange(k + i, k + end) =~= s.subrange(i, end));
        }
    }
}

proof fn lemma_joined_cons(
    t: Tok,
    a: Result<Seq<Tok>, Seq<char>>,
    b: Result<Seq<Tok>, Seq<char>>,
)
    ensures
        joined(token::cons(t, a), b) == token::cons(t, joined(a, b)),
{
    match (a, b) {
        (Ok(x), Ok(y)) => {
            assert((seq![t] + x) + y =~= seq![t] + (x + y));
        },
        _ => {},
    }
}

/// The tokens of two texts, where none can reach from one into the other.
proof fn lemma_tokens_joined_from(s: Seq<char>, r: Seq<char>, i: int)
    requires
        0 <= i <= s.len(),
        r.len() > 0 ==> breaks(r[0]),
    ensures
        token::tokens_from(s + r, i) == joined(token::tokens_from(s, i), token::tokens_of(r)),
    decreases s.len() - i,
{
    if i >= s.len() {
        lemma_tokens_moved(s, r, 0);
        match token::tokens_of(r) {
            Ok(y) => {
                assert(Seq::<Tok>::empty() + y =~= y);
            },
            Err(_) => {},
        }
    } else {
        assert((s + r)[i] == s[i]);
        if i + 1 < s.len() {
            assert((s + r)[i + 1] == s[i + 1]);
        } else if r.len() > 0 {
            assert((s + r)[i + 1] == r[0]);
        }
        lemma_tokens_joined_from(s, r, i + 1);
        if s[i] == '(' {
            lemma_joined_cons(Tok::LParen, token::tokens_from(s, i + 1), token::tokens_of(r));
        } else if s[i] == ')' {
            lemma_joined_cons(Tok::RParen, token::tokens_from(s, i + 1), token::tokens_of(r));
        } else if s[i] == '!' {
            lemma_joined_cons(Tok::Not, token::tokens_from(s, i + 1), token::tokens_of(r));
        } else if s[i] == '&' || s[i] == '|' {
            let t = if s[i] == '&' {
                Tok::And
            } else {
                Tok::Or
            };
            lemma_joined_cons(t, token::tokens_from(s, i + 1), token::tokens_of(r));
            if i + 1 < s.len() {
                lemma_tokens_joined_from(s, r, i + 2);
                lemma_joined_cons(t, token::tokens_from(s, i + 2), token::tokens_of(r));
            }
        } else if token::is_word_char(s[i]) {
            lemma_word_end(s, i + 1);
            lemma_word_end_kept(s, r, i + 1);
            let end = token::word_end(s, i + 1);
            lemma_tokens_joined_from(s, r, end);
            assert((s + r).subrange(i, end) =~= s.subrange(i, end));
            lemma_joined_cons(
                token::word_token(s.subrange(i, end)),
                token::tokens_from(s, end),
                token::tokens_of(r),
            );
        }
    }
}

/// The tokens of two texts, where none can reach from one into the other.
pub proof fn lemma_tokens_joined(s: Seq<char>, r: Seq<char>)
    requires
        r.len() > 0 ==> breaks(r[0]),
    ensures
        token::tokens_of(s + r) == joined(token::tokens_of(s), token::tokens_of(r)),
{
    lemma_tokens_joined_from(s, r, 0);
}

/// White space in front of a text adds no token.
pub proof fn lemma_space_in_front(c: char, s: Seq<char>)
    requires
        text::char_whitespace(c),
    ensures
        token::tokens_of(seq![c] + s) == token::tokens_of(s),
{
    lemma_tokens_moved(seq![c], s, 0);
    assert((seq![c] + s)[0] == c);
}

proof fn lemma_start_trimmed(s: Seq<char>)
    ensures
        token::tokens_of(text::trim_start(s)) == token::tokens_of(s),
    decreases s.len(),
{
    if s.len() > 0 && text::char_whitespace(s[0]) {
        lemma_start_trimmed(s.drop_first());
        lemma_space_in_front(s[0], s.drop_first());
        assert(seq![s[0]] + s.drop_first() =~= s);
    }
}

proof fn lemma_end_trimmed(s: Seq<char>)
    ensures
        token::tokens_of(text::trim_end(s)) == token::tokens_of(s),
    decreases s.len(),
{
    if s.len() > 0 && text::char_whitespace(s.last()) {
        let c = s.last();
        lemma_end_trimmed(s.drop_last());
        lemma_tokens_joined(s.drop_last(), seq![c]);
        lemma_space_in_front(c, Seq::empty());
        assert(seq![c] + Seq::<char>::empty() =~= seq![c]);
        assert(s.drop_last() + seq![c] =~= s);
        match token::tokens_of(s.drop_last()) {
            Ok(x) => {
                assert(x + Seq::<Tok>::empty() =~= x);
            },
            Err(_) => {},
        }
    }
}

/// A text of one word is one token.
pub proof fn lemma_one_word(w: Seq<char>)
    requires
        w.len() > 0,
        forall|i: int| 0 <= i < w.len() ==> token::is_word_char(#[trigger] w[i]),
    ensures
        token::tokens_of(w) == Ok::<Seq<Tok>, Seq<char>>(seq![token::word_token(w)]),
{
    lemma_word_end(w, 1);
    assert(token::is_word_char(w[0]));
    let n = w.len() as int;
    assert(token::word_end(w, 1) == n);
    assert(w.subrange(0, n) =~= w);
    assert(token::tokens_from(w, n) == Ok::<Seq<Tok>, Seq<char>>(Seq::empty()));
    assert(seq![token::word_token(w)] + Seq::<Tok>::empty() =~= seq![token::word_token(w)]);
}

/// The words for the operators, in lower and in upper case.
pub proof fn lemma_operator_words()
    ensures
        token::tokens_of("and"@) == Ok::<Seq<Tok>, Seq<char>>(seq![Tok::And]),
        token::tokens_of("AND"@) == Ok::<Seq<Tok>, Seq<char>>(seq![Tok::And]),
        token::tokens_of("or"@) == Ok::<Seq<Tok>, Seq<char>>(seq![Tok::Or]),
        token::tokens_of("OR"@) == Ok::<Seq<Tok>, Seq<char>>(seq![Tok::Or]),
        token::tokens_of("not"@) == Ok::<Seq<Tok>, Seq<char>>(seq![Tok::Not]),
        token::tokens_of("NOT"@) == Ok::<Seq<Tok>, Seq<char>>(seq![Tok::Not]),
{
    reveal_strlit("and");
    reveal_strlit("AND");
    reveal_strlit("or");
    reveal_strlit("OR");
    reveal_strlit("not");
    reveal_strlit("NOT");
    lemma_one_word("and"@);
    lemma_one_word("AND"@);
    lemma_one_word("or"@);
    lemma_one_word("OR"@);
    lemma_one_word("not"@);
    lemma_one_word("NOT"@);
    assert(text::lowercase("and"@) =~= "and"@);
    assert(text::lowercase("AND"@) =~= "and"@);
    assert(text::lowercase("or"@) =~= "or"@);
    assert(text::lowercase("OR"@) =~= "or"@);
    assert(text::lowercase("not"@) =~= "not"@);
    assert(text::lowercase("NOT"@) =~= "not"@);
    assert("or"@.len() != "and"@.len());
    assert("not"@[0] != "and"@[0]);
    assert("not"@.len() != "or"@.len());
}

/// The signs for the operators, and the one that ends an expression in parentheses.
proof fn lemma_operator_signs()
    ensures
        token::tokens_of("&"@) == Ok::<Seq<Tok>, Seq<char>>(seq![Tok::And]),
        token::tokens_of("&&"@) == Ok::<Seq<Tok>, Seq<char>>(seq![Tok::And]),
        token::tokens_of("|"@) == Ok::<Seq<Tok>, Seq<char>>(seq![Tok::Or]),
        token::tokens_of("||"@) == Ok::<Seq<Tok>, Seq<char>>(seq![Tok::Or]),
        token::tokens_of(")"@) == Ok::<Seq<Tok>, Seq<char>>(seq![Tok::RParen]),
{
    reveal_strlit("&");
    reveal_strlit("&&");
    reveal_strlit("|");
    reveal_strlit("||");
    reveal_strlit(")");
    reveal_with_fuel(token::tokens_from, 2);
    assert(seq![Tok::And] + Seq::<Tok>::empty() =~= seq![Tok::And]);
    assert(seq![Tok::Or] + Seq::<Tok>::empty() =~= seq![Tok::Or]);
    assert(seq![Tok::RParen] + Seq::<Tok>::empty() =~= seq![Tok::RParen]);
}

/// The word `true` is none of the language.
proof fn lemma_true_is_no_keyword()
    ensures
        token::tokens_of("true"@) == Ok::<Seq<Tok>, Seq<char>>(seq![Tok::Ident("true"@)]),
{
    reveal_strlit("true");
    lemma_one_word("true"@);
    let w = text::lowercase("true"@);
    assert(w =~= "true"@);
    reveal_strlit("and");
    reveal_strlit("or");
    reveal_strlit("not");
    reveal_strlit("tcp");
    reveal_strlit("udp");
    reveal_strlit("icmp");
    reveal_strlit("ip");
    reveal_strlit("port");
    reveal_strlit("host");
    reveal_strlit("src");
    reveal_strlit("dst");
    reveal_strlit("outbound");
    reveal_strlit("inbound");
    reveal_strlit("loopback");
    reveal_strlit("impostor");
    reveal_strlit("ifindex");
    reveal_strlit("sub_ifindex");
    assert(w[0] == 't' && w.len() == 4);
    assert("icmp"@[0] == 'i' && "port"@[0] == 'p' && "host"@[0] == 'h');
}

/// A filter that accepts everything has no expression.
pub proof fn lemma_trivial(s: Seq<char>)
    requires
        is_trivial(s),
    ensures
        token::tokens_of(s) == Ok::<Seq<Tok>, Seq<char>>(Seq::empty()) || token::tokens_of(s) == Ok::<
            Seq<Tok>,
            Seq<char>,
        >(seq![Tok::Ident("true"@)]),
        expression(s) is Err,
{
    lemma_start_trimmed(s);
    lemma_end_trimmed(text::trim_start(s));
    lemma_true_is_no_keyword();
    if text::trimmed(s).len() == 0 {
        assert(text::trimmed(s) =~= Seq::empty());
        assert(token::tokens_of(Seq::<char>::empty()) == Ok::<Seq<Tok>, Seq<char>>(Seq::empty()));
    }
    let t = token::tokens_of(s)->Ok_0;
    assert(parser::factor_at(t, 0) is Err);
    assert(parser::term_at(t, 0) is Err);
    assert(parser::expr_at(t, 0) is Err);
}

/// Texts with the same tokens compile to the same program, if one of the tokens is a keyword or a
/// sign.
proof fn lemma_same_tokens(x: Seq<char>, y: Seq<char>)
    requires
        token::tokens_of(x) == token::tokens_of(y),
        token::tokens_of(x) matches Ok(t) ==> exists|i: int|
            0 <= i < t.len() && !((#[trigger] t[i]) is Ident),
    ensures
        compiled(x) == compiled(y),
{
    if is_trivial(x) {
        lemma_trivial(x);
    }
    if is_trivial(y) {
        lemma_trivial(y);
    }
}

/// A sign between spaces, between two texts.
pub proof fn lemma_between(a: Seq<char>, sep: Seq<char>, w: Seq<char>, b: Seq<char>, t: Tok)
    requires
        sep == seq![' '] + w + seq![' '],
        token::tokens_of(w) == Ok::<Seq<Tok>, Seq<char>>(seq![t]),
    ensures
        token::tokens_of(a + sep + b) == joined(
            token::tokens_of(a),
            token::cons(t, token::tokens_of(b)),
        ),
{
    let tail = seq![' '] + b;
    let rest = seq![' '] + (w + tail);
    assert(a + sep + b =~= a + rest);
    lemma_tokens_joined(a, rest);
    lemma_space_in_front(' ', w + tail);
    lemma_tokens_joined(w, tail);
    lemma_space_in_front(' ', b);
}

/// Texts with the same sign between them compile to the same program however it is spelled.
proof fn lemma_same_sign(
    a: Seq<char>,
    b: Seq<char>,
    sep1: Seq<char>,
    w1: Seq<char>,
    sep2: Seq<char>,
    w2: Seq<char>,
    t: Tok,
)
    requires
        sep1 == seq![' '] + w1 + seq![' '],
        sep2 == seq![' '] + w2 + seq![' '],
        token::tokens_of(w1) == Ok::<Seq<Tok>, Seq<char>>(seq![t]),
        token::tokens_of(w2) == Ok::<Seq<Tok>, Seq<char>>(seq![t]),
        !(t is Ident),
    ensures
        compiled(a + sep1 + b) == compiled(a + sep2 + b),
{
    lemma_between(a, sep1, w1, b, t);
    lemma_between(a, sep2, w2, b, t);
    match token::tokens_of(a + sep1 + b) {
        Ok(tokens) => {
            assert(tokens[token::tokens_of(a)->Ok_0.len() as int] == t);
        },
        Err(_) => {},
    }
    lemma_same_tokens(a + sep1 + b, a + sep2 + b);
}

/// The first token of an expression can come first in an operand.
proof fn lemma_expression_opens(t: Seq<Tok>)
    requires
        parser::parsed(t) is Ok,
    ensures
        t.len() > 0,
        opens(t[0]),
{
    assert(parser::factor_at(t, 0) is Ok);
}

/// Texts that stand for the same expression compile to the same program, where neither is one of
/// those that accept everything.
proof fn lemma_same_expression(x: Seq<char>, y: Seq<char>)
    requires
        expression(x) == expression(y),
        !is_trivial(x),
        !is_trivial(y),
    ensures
        compiled(x) == compiled(y),
{
}

/// Two expressions side by side are joined by `and`.
proof fn lemma_side_by_side(a: Seq<char>, b: Seq<char>)
    requires
        expression(a) is Ok,
        expression(b) is Ok,
    ensures
        compiled(a + " "@ + b) == compiled(a + " and "@ + b),
{
    lemma_operator_words();
    reveal_strlit(" ");
    reveal_strlit("and");
    reveal_strlit(" and ");
    assert(" and "@ =~= seq![' '] + "and"@ + seq![' ']);
    let with = a + " and "@ + b;
    let without = a + " "@ + b;
    let x = token::tokens_of(a)->Ok_0;
    let y = token::tokens_of(b)->Ok_0;
    lemma_between(a, " and "@, "and"@, b, Tok::And);
    assert(without =~= a + (seq![' '] + b));
    lemma_tokens_joined(a, seq![' '] + b);
    lemma_space_in_front(' ', b);
    assert(x + (seq![Tok::And] + y) =~= x.push(Tok::And) + y);
    lemma_expression_opens(x);
    lemma_expression_opens(y);
    lemma_and_may_be_left_out(x, y);
    assert(token::tokens_of(with) == Ok::<Seq<Tok>, Seq<char>>(x.push(Tok::And) + y));
    assert(token::tokens_of(without) == Ok::<Seq<Tok>, Seq<char>>(x + y));
    if is_trivial(with) {
        lemma_trivial(with);
    }
    if is_trivial(without) {
        lemma_trivial(without);
    }
    lemma_same_expression(with, without);
}

/// `and`, `AND`, `&&` and `&` mean the same, and so do two expressions side by side.
pub proof fn law_and_spellings(a: Seq<char>, b: Seq<char>)
    ensures
        compiled(a + " AND "@ + b) == compiled(a + " and "@ + b),
        compiled(a + " && "@ + b) == compiled(a + " and "@ + b),
        compiled(a + " & "@ + b) == compiled(a + " and "@ + b),
        expression(a) is Ok && expression(b) is Ok ==> compiled(a + " "@ + b) == compiled(
            a + " and "@ + b,
        ),
{
    lemma_operator_words();
    lemma_operator_signs();
    reveal_strlit("and");
    reveal_strlit("AND");
    reveal_strlit("&&");
    reveal_strlit("&");
    reveal_strlit(" and ");
    reveal_strlit(" AND ");
    reveal_strlit(" && ");
    reveal_strlit(" & ");
    assert(" and "@ =~= seq![' '] + "and"@ + seq![' ']);
    assert(" AND "@ =~= seq![' '] + "AND"@ + seq![' ']);
    assert(" && "@ =~= seq![' '] + "&&"@ + seq![' ']);
    assert(" & "@ =~= seq![' '] + "&"@ + seq![' ']);
    lemma_same_sign(a, b, " AND "@, "AND"@, " and "@, "and"@, Tok::And);
    lemma_same_sign(a, b, " && "@, "&&"@, " and "@, "and"@, Tok::And);
    lemma_same_sign(a, b, " & "@, "&"@, " and "@, "and"@, Tok::And);
    if expression(a) is Ok && expression(b) is Ok {
        lemma_side_by_side(a, b);
    }
}

/// `or`, `OR`, `||` and `|` mean the same.
pub proof fn law_or_spellings(a: Seq<char>, b: Seq<char>)
    ensures
        compiled(a + " OR "@ + b) == compiled(a + " or "@ + b),
        compiled(a + " || "@ + b) == compiled(a + " or "@ + b),
        compiled(a + " | "@ + b) == compiled(a + " or "@ + b),
{
    lemma_operator_words();
    lemma_operator_signs();
    reveal_strlit("or");
    reveal_strlit("OR");
    reveal_strlit("||");
    reveal_strlit("|");
    reveal_strlit(" or ");
    reveal_strlit(" OR ");
    reveal_strlit(" || ");
    reveal_strlit(" | ");
    assert(" or "@ =~= seq![' '] + "or"@ + seq![' ']);
    assert(" OR "@ =~= seq![' '] + "OR"@ + seq![' ']);
    assert(" || "@ =~= seq![' '] + "||"@ + seq![' ']);
    assert(" | "@ =~= seq![' '] + "|"@ + seq![' ']);
    lemma_same_sign(a, b, " OR "@, "OR"@, " or "@, "or"@, Tok::Or);
    lemma_same_sign(a, b, " || "@, "||"@, " or "@, "or"@, Tok::Or);
    lemma_same_sign(a, b, " | "@, "|"@, " or "@, "or"@, Tok::Or);
}

/// The tokens of a text with a sign or a word for `not` in front.
pub proof fn lemma_not_in_front(a: Seq<char>)
    ensures
        token::tokens_of("!"@ + a) == token::cons(Tok::Not, token::tokens_of(a)),
        token::tokens_of("not "@ + a) == token::cons(Tok::Not, token::tokens_of(a)),
        token::tokens_of("NOT "@ + a) == token::cons(Tok::Not, token::tokens_of(a)),
{
    lemma_operator_words();
    reveal_strlit("!");
    reveal_strlit("not");
    reveal_strlit("NOT");
    reveal_strlit("not ");
    reveal_strlit("NOT ");
    lemma_tokens_moved("!"@, a, 0);
    assert(("!"@ + a)[0] == '!');
    let tail = seq![' '] + a;
    lemma_space_in_front(' ', a);
    assert("not "@ + a =~= "not"@ + tail);
    assert("NOT "@ + a =~= "NOT"@ + tail);
    lemma_tokens_joined("not"@, tail);
    lemma_tokens_joined("NOT"@, tail);
}

/// `not`, `NOT` and `!` mean the same, before parentheses and elsewhere.
pub proof fn law_not_spellings(a: Seq<char>)
    ensures
        compiled("NOT "@ + a) == compiled("not "@ + a),
        compiled("!"@ + a) == compiled("not "@ + a),
        compiled("!("@ + a + ")"@) == compiled("not ("@ + a + ")"@),
{
    lemma_not_in_front(a);
    lemma_first_is_not("NOT "@ + a, a);
    lemma_same_tokens("NOT "@ + a, "not "@ + a);
    lemma_first_is_not("!"@ + a, a);
    lemma_same_tokens("!"@ + a, "not "@ + a);
    reveal_strlit("(");
    reveal_strlit("!");
    reveal_strlit("!(");
    reveal_strlit("not ");
    reveal_strlit("not (");
    let inner = "("@ + a + ")"@;
    lemma_not_in_front(inner);
    assert("!("@ + a + ")"@ =~= "!"@ + inner);
    assert("not ("@ + a + ")"@ =~= "not "@ + inner);
    lemma_first_is_not("!"@ + inner, inner);
    lemma_same_tokens("!"@ + inner, "not "@ + inner);
}

proof fn lemma_first_is_not(x: Seq<char>, a: Seq<char>)
    requires
        token::tokens_of(x) == token::cons(Tok::Not, token::tokens_of(a)),
    ensures
        token::tokens_of(x) matches Ok(t) ==> exists|i: int|
            0 <= i < t.len() && !((#[trigger] t[i]) is Ident),
{
    match token::tokens_of(x) {
        Ok(t) => {
            assert(t[0] == Tok::Not);
        },
        Err(_) => {},
    }
}

/// Parentheses around a filter change nothing.
pub proof fn law_parentheses(a: Seq<char>)
    requires
        expression(a) is Ok,
    ensures
        compiled("("@ + a + ")"@) == compiled(a),
{
    lemma_operator_signs();
    reveal_strlit("(");
    reveal_strlit(")");
    let t = token::tokens_of(a)->Ok_0;
    let x = "("@ + a + ")"@;
    assert(x =~= "("@ + (a + ")"@));
    lemma_tokens_moved("("@, a + ")"@, 0);
    assert(x[0] == '(');
    lemma_tokens_joined(a, ")"@);
    assert(t + seq![Tok::RParen] =~= t.push(Tok::RParen));
    lemma_parentheses(t);
    if is_trivial(x) {
        lemma_trivial(x);
    }
    if is_trivial(a) {
        lemma_trivial(a);
    }
    lemma_same_expression(x, a);
}

/// Whether two places of a text stand in different words, or one of them in none.
pub open spec fn parted(s: Seq<char>, i: int, j: int) -> bool {
    exists|k: int| (i <= k <= j || j <= k <= i) && !token::is_word_char(#[trigger] s[k])
}

/// `b` is `a` with some words that are all ASCII in another case.
pub open spec fn words_recased(a: Seq<char>, b: Seq<char>) -> bool {
    &&& recased(a, b)
    &&& forall|i: int, j: int|
        #![trigger b[i], a[j]]
        0 <= i < a.len() && 0 <= j < a.len() && a[i] != b[i] && text::code(a[j]) >= 0x80
            ==> parted(a, i, j)
}

proof fn lemma_word_end_recased(a: Seq<char>, b: Seq<char>, from: int)
    requires
        recased(a, b),
        0 <= from <= a.len(),
    ensures
        token::word_end(a, from) == token::word_end(b, from),
    decreases a.len() - from,
{
    if from < a.len() {
        lemma_same_char(a[from], b[from]);
        if token::is_word_char(a[from]) {
            lemma_word_end_recased(a, b, from + 1);
        }
    }
}

/// A word in another case stands for the same token, or for itself.
proof fn lemma_word_recased(a: Seq<char>, b: Seq<char>)
    requires
        recased(a, b),
        text::all_ascii(a),
    ensures
        alike(token::word_token(a), token::word_token(b)),
{
    assert forall|i: int| 0 <= i < b.len() implies text::code(#[trigger] b[i]) < 0x80 by {
        assert(text::code(a[i]) < 0x80);
        lemma_same_char(a[i], b[i]);
    }
    assert(text::lowercase(a) =~= text::lowercase(b));
}

/// Two token sequences of the same length that are alike, or the same complaint.
spec fn same_but_case(
    x: Result<Seq<Tok>, Seq<char>>,
    y: Result<Seq<Tok>, Seq<char>>,
) -> bool {
    match (x, y) {
        (Ok(t), Ok(u)) => t.len() == u.len() && starts_like(t, u),
        (Err(e), Err(f)) => e == f,
        _ => false,
    }
}

proof fn lemma_cons_recased(
    t: Tok,
    u: Tok,
    x: Result<Seq<Tok>, Seq<char>>,
    y: Result<Seq<Tok>, Seq<char>>,
)
    requires
        alike(t, u),
        same_but_case(x, y),
    ensures
        same_but_case(token::cons(t, x), token::cons(u, y)),
{
    match (x, y) {
        (Ok(xs), Ok(ys)) => {
            let p = seq![t] + xs;
            let q = seq![u] + ys;
            assert forall|i: int| 0 <= i < p.len() implies alike(#[trigger] p[i], q[i]) by {
                if i > 0 {
                    assert(alike(xs[i - 1], ys[i - 1]));
                }
            }
        },
        _ => {},
    }
}

/// The tokens of a text in another case.
proof fn lemma_tokens_recased(a: Seq<char>, b: Seq<char>, i: int)
    requires
        words_recased(a, b),
        0 <= i <= a.len(),
    ensures
        same_but_case(token::tokens_from(a, i), token::tokens_from(b, i)),
    decreases a.len() - i,
{
    if i < a.len() {
        lemma_same_char(a[i], b[i]);
        lemma_tokens_recased(a, b, i + 1);
        let x = token::tokens_from(a, i + 1);
        let y = token::tokens_from(b, i + 1);
        lemma_cons_recased(Tok::LParen, Tok::LParen, x, y);
        lemma_cons_recased(Tok::RParen, Tok::RParen, x, y);
        lemma_cons_recased(Tok::Not, Tok::Not, x, y);
        lemma_cons_recased(Tok::And, Tok::And, x, y);
        lemma_cons_recased(Tok::Or, Tok::Or, x, y);
        if i + 1 < a.len() {
            lemma_same_char(a[i + 1], b[i + 1]);
            lemma_tokens_recased(a, b, i + 2);
            let v = token::tokens_from(a, i + 2);
            let w = token::tokens_from(b, i + 2);
            lemma_cons_recased(Tok::And, Tok::And, v, w);
            lemma_cons_recased(Tok::Or, Tok::Or, v, w);
        }
        if token::is_word_char(a[i]) {
            lemma_word_end(a, i + 1);
            lemma_word_end_recased(a, b, i + 1);
            let end = token::word_end(a, i + 1);
            let v = a.subrange(i, end);
            let w = b.subrange(i, end);
            assert forall|j: int| 0 <= j < v.len() implies text::ascii_lower(v[j])
                == text::ascii_lower(#[trigger] w[j]) by {
                assert(text::ascii_lower(a[i + j]) == text::ascii_lower(b[i + j]));
            }
            if text::all_ascii(v) {
                lemma_word_recased(v, w);
            } else {
                let j = choose|j: int| 0 <= j < v.len() && text::code(#[trigger] v[j]) >= 0x80;
                assert forall|m: int| 0 <= m < v.len() implies v[m] == #[trigger] w[m] by {
                    assert(w[m] == b[i + m] && v[j] == a[i + j]);
                }
                assert(v =~= w);
            }
            lemma_tokens_recased(a, b, end);
            lemma_cons_recased(
                token::word_token(v),
                token::word_token(w),
                token::tokens_from(a, end),
                token::tokens_from(b, end),
            );
        }
    }
}

/// Words of ASCII letters mean the same in upper and in lower case.
pub proof fn law_case_does_not_matter(a: Seq<char>, b: Seq<char>)
    requires
        expression(a) is Ok,
        words_recased(a, b),
    ensures
        compiled(b) == compiled(a),
{
    lemma_tokens_recased(a, b, 0);
    let t = token::tokens_of(a)->Ok_0;
    let u = token::tokens_of(b)->Ok_0;
    lemma_expr_alike(t, u, 0);
    if is_trivial(a) {
        lemma_trivial(a);
    }
    if is_trivial(b) {
        lemma_trivial(b);
    }
    lemma_same_expression(a, b);
}

/// The words for the direction of a packet.
proof fn lemma_direction_words()
    ensures
        token::tokens_of("inbound"@) == Ok::<Seq<Tok>, Seq<char>>(seq![Tok::Inbound]),
        token::tokens_of("outbound"@) == Ok::<Seq<Tok>, Seq<char>>(seq![Tok::Outbound]),
{
    reveal_strlit("inbound");
    reveal_strlit("outbound");
    lemma_one_word("inbound"@);
    lemma_one_word("outbound"@);
    assert(text::lowercase("inbound"@) =~= "inbound"@);
    assert(text::lowercase("outbound"@) =~= "outbound"@);
    reveal_strlit("and");
    reveal_strlit("or");
    reveal_strlit("not");
    reveal_strlit("tcp");
    reveal_strlit("udp");
    reveal_strlit("icmp");
    reveal_strlit("ip");
    reveal_strlit("port");
    reveal_strlit("host");
    reveal_strlit("src");
    reveal_strlit("dst");
}

/// What the tests of the direction stand for.
proof fn lemma_directions_parsed()
    ensures
        parser::parsed(seq![Tok::Inbound]) == Ok::<Expr, Seq<char>>(Expr::Inbound),
        parser::parsed(seq![Tok::Not, Tok::Outbound]) == Ok::<Expr, Seq<char>>(
            Expr::Not(Box::new(Expr::Outbound)),
        ),
{
    let t = seq![Tok::Inbound];
    assert(parser::factor_at(t, 0) == Ok::<(Expr, int), Seq<char>>((Expr::Inbound, 1)));
    assert(parser::term_at(t, 0) == Ok::<(Expr, int), Seq<char>>((Expr::Inbound, 1)));
    assert(parser::expr_at(t, 0) == Ok::<(Expr, int), Seq<char>>((Expr::Inbound, 1)));
    let u = seq![Tok::Not, Tok::Outbound];
    let e = Expr::Not(Box::new(Expr::Outbound));
    assert(parser::factor_at(u, 1) == Ok::<(Expr, int), Seq<char>>((Expr::Outbound, 2)));
    assert(parser::factor_at(u, 0) == Ok::<(Expr, int), Seq<char>>((e, 2)));
    assert(parser::term_at(u, 0) == Ok::<(Expr, int), Seq<char>>((e, 2)));
    assert(parser::expr_at(u, 0) == Ok::<(Expr, int), Seq<char>>((e, 2)));
}

proof fn lemma_directions()
    ensures
        expression("inbound"@) == Ok::<Expr, Seq<char>>(Expr::Inbound),
        expression("not outbound"@) == Ok::<Expr, Seq<char>>(Expr::Not(Box::new(Expr::Outbound))),
{
    lemma_direction_words();
    lemma_directions_parsed();
    lemma_not_in_front("outbound"@);
    assert("not outbound"@ =~= "not "@ + "outbound"@) by {
        reveal_strlit("outbound");
        reveal_strlit("not ");
        reveal_strlit("not outbound");
    }
    assert(seq![Tok::Not] + seq![Tok::Outbound] =~= seq![Tok::Not, Tok::Outbound]);
}

/// `inbound` has the code of `not outbound`, alone and inside of other expressions.
pub proof fn law_inbound_is_not_outbound(lt: u128, lf: u128, n: u128)
    ensures
        codegen::code_of(Expr::Inbound, lt, lf, n) == codegen::code_of(
            Expr::Not(Box::new(Expr::Outbound)),
            lt,
            lf,
            n,
        ),
        compiled("inbound"@) == compiled("not outbound"@),
{
    lemma_directions();
    let i = Expr::Inbound;
    let o = Expr::Not(Box::new(Expr::Outbound));
    assert(codegen::code_of(o, lt, lf, n) == codegen::code_of(Expr::Outbound, lf, lt, n));
    assert(codegen::code_of(o, 0, 1, 2) == codegen::code_of(Expr::Outbound, 1, 0, 2));
    assert(codegen::filter_code(i) == codegen::filter_code(o));
    assert(program(i) == program(o));
    if is_trivial("inbound"@) {
        lemma_trivial("inbound"@);
    }
    if is_trivial("not outbound"@) {
        lemma_trivial("not outbound"@);
    }
}

} // verus!
