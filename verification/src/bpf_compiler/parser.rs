//! Grammar of filter expressions.
//!
//! `or` binds weaker than `and`, which binds weaker than `not`; two operands side by side are
//! joined by `and`.
use vstd::prelude::*;
use crate::bpf_compiler::codegen;
use crate::bpf_compiler::token;
use crate::bpf_compiler::token::Token;
use crate::text;

verus! {

#[derive(Debug, Clone, Copy, PartialEq)]
pub enum Dir {
    Src,
    Dst,
    SrcOrDst,
    SrcAndDst,
}

#[derive(Debug, PartialEq)]
pub enum Expr {
    And(Box<Expr>, Box<Expr>),
    Or(Box<Expr>, Box<Expr>),
    Not(Box<Expr>),
    Tcp,
    Udp,
    Icmp,
    Ip,
    Host(Dir, u32),
    Port(Dir, u16),
    Outbound,
    Inbound,
    Loopback,
    Impostor,
    IfIndex(u32),
    SubIfIndex(u32),
}

impl Clone for Expr {
    fn clone(&self) -> (e: Self)
        ensures
            e == *self,
        decreases self,
    {
        match self {
            Expr::And(l, r) => Expr::And(Box::new((&**l).clone()), Box::new((&**r).clone())),
            Expr::Or(l, r) => Expr::Or(Box::new((&**l).clone()), Box::new((&**r).clone())),
            Expr::Not(e) => Expr::Not(Box::new((&**e).clone())),
            Expr::Tcp => Expr::Tcp,
            Expr::Udp => Expr::Udp,
            Expr::Icmp => Expr::Icmp,
            Expr::Ip => Expr::Ip,
            Expr::Host(d, v) => Expr::Host(*d, *v),
            Expr::Port(d, v) => Expr::Port(*d, *v),
            Expr::Outbound => Expr::Outbound,
            Expr::Inbound => Expr::Inbound,
            Expr::Loopback => Expr::Loopback,
            Expr::Impostor => Expr::Impostor,
            Expr::IfIndex(v) => Expr::IfIndex(*v),
            Expr::SubIfIndex(v) => Expr::SubIfIndex(*v),
        }
    }
}

/// What reading at some index gives: a value and the index after it, or a complaint.
pub type Parsed<T> = Result<(T, int), Seq<char>>;

/// The word at index `p`, if a word stands there.
pub open spec fn word_at(t: Seq<token::Tok>, p: int) -> Option<Seq<char>> {
    if 0 <= p < t.len() {
        match t[p] {
            token::Tok::Ident(s) => Some(s),
            _ => None,
        }
    } else {
        None
    }
}

/// Reads the number, at most `max`, that has to stand at index `p`.
pub open spec fn number_at(
    t: Seq<token::Tok>,
    p: int,
    max: u32,
    missing: Seq<char>,
    invalid: Seq<char>,
) -> Parsed<u32> {
    match word_at(t, p) {
        Some(s) => match text::decimal(s, max as nat) {
            Some(v) => Ok((v as u32, p + 1)),
            None => Err(invalid + s),
        },
        None => Err(missing),
    }
}

/// Reads the port number that has to stand at index `p`.
pub open spec fn port_at(t: Seq<token::Tok>, p: int) -> Parsed<u16> {
    match number_at(t, p, 0xffff, "Expected port number after 'port'"@, "Invalid port: "@) {
        Ok((v, q)) => Ok((v as u16, q)),
        Err(e) => Err(e),
    }
}

/// Reads the address that has to stand at index `p`.
pub open spec fn address_at(t: Seq<token::Tok>, p: int) -> Parsed<u32> {
    match word_at(t, p) {
        Some(s) => match text::ipv4(s) {
            Some(v) => Ok((v, p + 1)),
            None => Err("Invalid IP: "@ + s),
        },
        None => Err("Expected IP after 'host'"@),
    }
}

/// Reads a test at index `p`, in the direction `dir`.
pub open spec fn test_at(t: Seq<token::Tok>, p: int, dir: Dir) -> Parsed<Expr> {
    if p >= t.len() {
        Err("Unexpected end of input"@)
    } else {
        match t[p] {
            token::Tok::Tcp => Ok((Expr::Tcp, p + 1)),
            token::Tok::Udp => Ok((Expr::Udp, p + 1)),
            token::Tok::Icmp => Ok((Expr::Icmp, p + 1)),
            token::Tok::Ip => Ok((Expr::Ip, p + 1)),
            token::Tok::Outbound => Ok((Expr::Outbound, p + 1)),
            token::Tok::Inbound => Ok((Expr::Inbound, p + 1)),
            token::Tok::Loopback => Ok((Expr::Loopback, p + 1)),
            token::Tok::Impostor => Ok((Expr::Impostor, p + 1)),
            token::Tok::IfIndex => match number_at(
                t,
                p + 1,
                u32::MAX,
                "Expected interface index after 'ifindex'"@,
                "Invalid interface index: "@,
            ) {
                Ok((v, q)) => Ok((Expr::IfIndex(v), q)),
                Err(e) => Err(e),
            },
            token::Tok::SubIfIndex => match number_at(
                t,
                p + 1,
                u32::MAX,
                "Expected sub interface index after 'sub_ifindex'"@,
                "Invalid sub interface index: "@,
            ) {
                Ok((v, q)) => Ok((Expr::SubIfIndex(v), q)),
                Err(e) => Err(e),
            },
            token::Tok::Host => match address_at(t, p + 1) {
                Ok((v, q)) => Ok((Expr::Host(dir, v), q)),
                Err(e) => Err(e),
            },
            token::Tok::Port => match port_at(t, p + 1) {
                Ok((v, q)) => Ok((Expr::Port(dir, v), q)),
                Err(e) => Err(e),
            },
            other => Err("Unexpected token: "@ + token::tok_debug(other)),
        }
    }
}

/// Reads a test with the direction that may stand in front of it.
pub open spec fn primitive_at(t: Seq<token::Tok>, p: int) -> Parsed<Expr> {
    if p < t.len() && t[p] == token::Tok::Src {
        test_at(t, p + 1, Dir::Src)
    } else if p < t.len() && t[p] == token::Tok::Dst {
        test_at(t, p + 1, Dir::Dst)
    } else {
        test_at(t, p, Dir::SrcOrDst)
    }
}

/// Reads a negation, an expression in parentheses or a test.
pub open spec fn factor_at(t: Seq<token::Tok>, p: int) -> Parsed<Expr>
    decreases t.len() - p, 0int,
{
    if p >= t.len() {
        Err("Unexpected end of input"@)
    } else if t[p] == token::Tok::Not {
        match factor_at(t, p + 1) {
            Ok((e, q)) => Ok((Expr::Not(Box::new(e)), q)),
            Err(e) => Err(e),
        }
    } else if t[p] == token::Tok::LParen {
        match expr_at(t, p + 1) {
            Ok((e, q)) => if q < t.len() && t[q] == token::Tok::RParen {
                Ok((e, q + 1))
            } else {
                Err("Expected ')'"@)
            },
            Err(e) => Err(e),
        }
    } else {
        primitive_at(t, p)
    }
}

/// Reads the operands that follow `left` in a conjunction.
pub open spec fn term_tail(t: Seq<token::Tok>, p: int, left: Expr) -> Parsed<Expr>
    decreases t.len() - p, 1int,
{
    if p >= t.len() || t[p] == token::Tok::Or || t[p] == token::Tok::RParen {
        Ok((left, p))
    } else {
        let from = if t[p] == token::Tok::And {
            p + 1
        } else {
            p
        };
        match factor_at(t, from) {
            Ok((right, q)) => if p < q <= t.len() {
                term_tail(t, q, Expr::And(Box::new(left), Box::new(right)))
            } else {
                Ok((left, p))
            },
            Err(e) => Err(e),
        }
    }
}

/// Reads a conjunction.
pub open spec fn term_at(t: Seq<token::Tok>, p: int) -> Parsed<Expr>
    decreases t.len() - p, 2int,
{
    match factor_at(t, p) {
        Ok((e, q)) => if p < q <= t.len() {
            term_tail(t, q, e)
        } else {
            Ok((e, q))
        },
        Err(e) => Err(e),
    }
}

/// Reads the operands that follow `left` in a disjunction.
pub open spec fn expr_tail(t: Seq<token::Tok>, p: int, left: Expr) -> Parsed<Expr>
    decreases t.len() - p, 3int,
{
    if p < t.len() && t[p] == token::Tok::Or {
        match term_at(t, p + 1) {
            Ok((right, q)) => if p < q <= t.len() {
                expr_tail(t, q, Expr::Or(Box::new(left), Box::new(right)))
            } else {
                Ok((left, p))
            },
            Err(e) => Err(e),
        }
    } else {
        Ok((left, p))
    }
}

/// Reads a disjunction.
pub open spec fn expr_at(t: Seq<token::Tok>, p: int) -> Parsed<Expr>
    decreases t.len() - p, 4int,
{
    match term_at(t, p) {
        Ok((e, q)) => if p < q <= t.len() {
            expr_tail(t, q, e)
        } else {
            Ok((e, q))
        },
        Err(e) => Err(e),
    }
}

/// The expression that a sequence of tokens stands for, if it stands for one.
pub open spec fn parsed(t: Seq<token::Tok>) -> Result<Expr, Seq<char>> {
    match expr_at(t, 0) {
        Ok((e, q)) => if q < t.len() {
            Err("Unexpected trailing tokens starting at "@ + token::tok_debug(t[q]))
        } else {
            Ok(e)
        },
        Err(e) => Err(e),
    }
}

/// `r` is what reading gives, and a value that was read leaves the parser further on, by more
/// than the number of labels that its code needs.
spec fn agrees_at(
    r: Result<Expr, String>,
    read: Parsed<Expr>,
    before: &Parser,
    after: &Parser,
) -> bool {
    match r {
        Ok(e) => read == Ok::<(Expr, int), Seq<char>>((e, after.here())) && codegen::labels(e)
            < after.pos - before.pos,
        Err(e) => read == Err::<(Expr, int), Seq<char>>(e@),
    }
}

/// A position in a sequence of tokens.
pub struct Parser {
    pub tokens: Vec<Token>,
    pub pos: usize,
}

impl Parser {
    pub open spec fn model(&self) -> Seq<token::Tok> {
        token::views(self.tokens@)
    }

    pub open spec fn here(&self) -> int {
        self.pos as int
    }

    pub open spec fn wf(&self) -> bool {
        self.pos <= self.tokens@.len()
    }

    /// Takes the number, at most `max`, that has to come next.
    fn take_number(&mut self, max: u32, missing: &str, invalid: &str) -> (r: Result<u32, String>)
        requires
            old(self).wf(),
        ensures
            final(self).wf(),
            final(self).tokens == old(self).tokens,
            match r {
                Ok(v) => number_at(old(self).model(), old(self).pos as int, max, missing@, invalid@)
                    == Ok::<(u32, int), Seq<char>>((v, final(self).pos as int)) && final(self).pos
                    == old(self).pos + 1 && v <= max,
                Err(e) => number_at(
                    old(self).model(),
                    old(self).pos as int,
                    max,
                    missing@,
                    invalid@,
                ) == Err::<(u32, int), Seq<char>>(e@),
            },
    {
        if self.pos < self.tokens.len() {
            if let Token::Ident(s) = &self.tokens[self.pos] {
                let chars = text::chars_of(s.as_str());
                match text::parse_decimal(&chars, max) {
                    Some(v) => {
                        self.pos += 1;
                        return Ok(v);
                    },
                    None => {
                        let mut e = String::from_str(invalid);
                        e.append(s.as_str());
                        return Err(e);
                    },
                }
            }
        }
        Err(String::from_str(missing))
    }

    /// Takes the port number that has to come next.
    fn take_port(&mut self) -> (r: Result<u16, String>)
        requires
            old(self).wf(),
        ensures
            final(self).wf(),
            final(self).tokens == old(self).tokens,
            match r {
                Ok(v) => port_at(old(self).model(), old(self).pos as int) == Ok::<
                    (u16, int),
                    Seq<char>,
                >((v, final(self).pos as int)) && final(self).pos == old(self).pos + 1,
                Err(e) => port_at(old(self).model(), old(self).pos as int) == Err::<
                    (u16, int),
                    Seq<char>,
                >(e@),
            },
    {
        match self.take_number(0xffff, "Expected port number after 'port'", "Invalid port: ") {
            Ok(v) => Ok(v as u16),
            Err(e) => Err(e),
        }
    }

    /// Takes the address that has to come next.
    fn take_address(&mut self) -> (r: Result<u32, String>)
        requires
            old(self).wf(),
        ensures
            final(self).wf(),
            final(self).tokens == old(self).tokens,
            match r {
                Ok(v) => address_at(old(self).model(), old(self).pos as int) == Ok::<
                    (u32, int),
                    Seq<char>,
                >((v, final(self).pos as int)) && final(self).pos == old(self).pos + 1,
                Err(e) => address_at(old(self).model(), old(self).pos as int) == Err::<
                    (u32, int),
                    Seq<char>,
                >(e@),
            },
    {
        if self.pos < self.tokens.len() {
            if let Token::Ident(s) = &self.tokens[self.pos] {
                let chars = text::chars_of(s.as_str());
                match text::parse_ipv4(&chars) {
                    Some(v) => {
                        self.pos += 1;
                        return Ok(v);
                    },
                    None => {
                        let mut e = String::from_str("Invalid IP: ");
                        e.append(s.as_str());
                        return Err(e);
                    },
                }
            }
        }
        Err(String::from_str("Expected IP after 'host'"))
    }

    /// Steps over the token at the current position and hands `e` on.
    fn accept(&mut self, e: Expr) -> (r: Result<Expr, String>)
        requires
            old(self).pos < old(self).tokens@.len(),
        ensures
            final(self).tokens == old(self).tokens,
            final(self).pos == old(self).pos + 1,
            r == Ok::<Expr, String>(e),
    {
        assert(self.tokens.len() == self.tokens@.len());
        self.pos += 1;
        Ok(e)
    }

    /// Reads a test in the direction `dir`.
    fn parse_test(&mut self, dir: Dir) -> (r: Result<Expr, String>)
        requires
            old(self).wf(),
        ensures
            final(self).wf(),
            final(self).tokens == old(self).tokens,
            agrees_at(r, test_at(old(self).model(), old(self).here(), dir), old(self), final(self)),
    {
        if self.pos >= self.tokens.len() {
            return Err(String::from_str("Unexpected end of input"));
        }
        match &self.tokens[self.pos] {
            Token::Tcp => self.accept(Expr::Tcp),
            Token::Udp => self.accept(Expr::Udp),
            Token::Icmp => self.accept(Expr::Icmp),
            Token::Ip => self.accept(Expr::Ip),
            Token::Outbound => self.accept(Expr::Outbound),
            Token::Inbound => self.accept(Expr::Inbound),
            Token::Loopback => self.accept(Expr::Loopback),
            Token::Impostor => self.accept(Expr::Impostor),
            Token::IfIndex => {
                self.pos += 1;
                match self.take_number(
                    u32::MAX,
                    "Expected interface index after 'ifindex'",
                    "Invalid interface index: ",
                ) {
                    Ok(v) => Ok(Expr::IfIndex(v)),
                    Err(e) => Err(e),
                }
            },
            Token::SubIfIndex => {
                self.pos += 1;
                match self.take_number(
                    u32::MAX,
                    "Expected sub interface index after 'sub_ifindex'",
                    "Invalid sub interface index: ",
                ) {
                    Ok(v) => Ok(Expr::SubIfIndex(v)),
                    Err(e) => Err(e),
                }
            },
            Token::Host => {
                self.pos += 1;
                match self.take_address() {
                    Ok(v) => Ok(Expr::Host(dir, v)),
                    Err(e) => Err(e),
                }
            },
            Token::Port => {
                self.pos += 1;
                match self.take_port() {
                    Ok(v) => Ok(Expr::Port(dir, v)),
                    Err(e) => Err(e),
                }
            },
            other => {
                let mut e = String::from_str("Unexpected token: ");
                e.append(other.describe().as_str());
                Err(e)
            },
        }
    }

    /// Reads a test with the direction that may stand in front of it.
    fn parse_primitive(&mut self) -> (r: Result<Expr, String>)
        requires
            old(self).wf(),
        ensures
            final(self).wf(),
            final(self).tokens == old(self).tokens,
            agrees_at(r, primitive_at(old(self).model(), old(self).here()), old(self), final(self)),
    {
        let mut dir = Dir::SrcOrDst;
        if self.pos < self.tokens.len() {
            match &self.tokens[self.pos] {
                Token::Src => {
                    dir = Dir::Src;
                    self.pos += 1;
                },
                Token::Dst => {
                    dir = Dir::Dst;
                    self.pos += 1;
                },
                _ => {},
            }
        }
        self.parse_test(dir)
    }

    /// Reads a negation, an expression in parentheses or a test.
    fn parse_factor(&mut self) -> (r: Result<Expr, String>)
        requires
            old(self).wf(),
        ensures
            final(self).wf(),
            final(self).tokens == old(self).tokens,
            agrees_at(r, factor_at(old(self).model(), old(self).here()), old(self), final(self)),
        decreases old(self).tokens@.len() - old(self).pos, 0int,
    {
        if self.pos >= self.tokens.len() {
            return Err(String::from_str("Unexpected end of input"));
        }
        match &self.tokens[self.pos] {
            Token::Not => {
                self.pos += 1;
                match self.parse_factor() {
                    Ok(inner) => Ok(Expr::Not(Box::new(inner))),
                    Err(e) => Err(e),
                }
            },
            Token::LParen => {
                self.pos += 1;
                match self.parse_expr() {
                    Ok(inner) => {
                        if self.pos < self.tokens.len() && matches!(
                            &self.tokens[self.pos],
                            Token::RParen
                        ) {
                            self.pos += 1;
                            Ok(inner)
                        } else {
                            Err(String::from_str("Expected ')'"))
                        }
                    },
                    Err(e) => Err(e),
                }
            },
            _ => self.parse_primitive(),
        }
    }

    /// Reads a conjunction.
    fn parse_term(&mut self) -> (r: Result<Expr, String>)
        requires
            old(self).wf(),
        ensures
            final(self).wf(),
            final(self).tokens == old(self).tokens,
            agrees_at(r, term_at(old(self).model(), old(self).here()), old(self), final(self)),
        decreases old(self).tokens@.len() - old(self).pos, 2int,
    {
        let mut node = match self.parse_factor() {
            Ok(e) => e,
            Err(e) => {
                return Err(e);
            },
        };
        while self.pos < self.tokens.len()
            invariant
                self.wf(),
                self.tokens == old(self).tokens,
                codegen::labels(node) < self.pos - old(self).pos,
                term_at(old(self).model(), old(self).here()) == term_tail(
                    old(self).model(),
                    self.here(),
                    node,
                ),
            ensures
                self.wf(),
                self.tokens == old(self).tokens,
                codegen::labels(node) < self.pos - old(self).pos,
                term_at(old(self).model(), old(self).here()) == Ok::<(Expr, int), Seq<char>>(
                    (node, self.here()),
                ),
            decreases self.tokens@.len() - self.pos,
        {
            match &self.tokens[self.pos] {
                Token::And => {
                    self.pos += 1;
                },
                Token::Or | Token::RParen => {
                    break;
                },
                _ => {},
            }
            match self.parse_factor() {
                Ok(right) => {
                    node = Expr::And(Box::new(node), Box::new(right));
                },
                Err(e) => {
                    return Err(e);
                },
            }
        }
        Ok(node)
    }

    /// Reads a disjunction.
    fn parse_expr(&mut self) -> (r: Result<Expr, String>)
        requires
            old(self).wf(),
        ensures
            final(self).wf(),
            final(self).tokens == old(self).tokens,
            agrees_at(r, expr_at(old(self).model(), old(self).here()), old(self), final(self)),
        decreases old(self).tokens@.len() - old(self).pos, 4int,
    {
        let mut node = match self.parse_term() {
            Ok(e) => e,
            Err(e) => {
                return Err(e);
            },
        };
        while self.pos < self.tokens.len() && matches!(&self.tokens[self.pos], Token::Or)
            invariant
                self.wf(),
                self.tokens == old(self).tokens,
                codegen::labels(node) < self.pos - old(self).pos,
                expr_at(old(self).model(), old(self).here()) == expr_tail(
                    old(self).model(),
                    self.here(),
                    node,
                ),
            decreases self.tokens@.len() - self.pos,
        {
            self.pos += 1;
            match self.parse_term() {
                Ok(right) => {
                    node = Expr::Or(Box::new(node), Box::new(right));
                },
                Err(e) => {
                    return Err(e);
                },
            }
        }
        Ok(node)
    }
}

/// Reads a whole sequence of tokens as one expression.
pub fn parse(tokens: Vec<Token>) -> (r: Result<Expr, String>)
    ensures
        match r {
            Ok(e) => parsed(token::views(tokens@)) == Ok::<Expr, Seq<char>>(e) && codegen::labels(e)
                < tokens@.len(),
            Err(e) => parsed(token::views(tokens@)) == Err::<Expr, Seq<char>>(e@),
        },
{
    let mut parser = Parser { tokens, pos: 0 };
    match parser.parse_expr() {
        Ok(expr) => {
            if parser.pos < parser.tokens.len() {
                let mut e = String::from_str("Unexpected trailing tokens starting at ");
                e.append(parser.tokens[parser.pos].describe().as_str());
                Err(e)
            } else {
                Ok(expr)
            }
        },
        Err(e) => Err(e),
    }
}

} // verus!
