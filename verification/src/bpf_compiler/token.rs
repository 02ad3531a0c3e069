//! Words and signs of a filter expression.
use vstd::prelude::*;
use crate::text;

verus! {

#[derive(Debug, PartialEq)]
pub enum Token {
    And,
    Or,
    Not,
    LParen,
    RParen,
    Tcp,
    Udp,
    Icmp,
    Ip,
    Port,
    Host,
    Src,
    Dst,
    Outbound,
    Inbound,
    Loopback,
    Impostor,
    IfIndex,
    SubIfIndex,
    Ident(String),
}

/// Mathematical model of a [`Token`].
pub ghost enum Tok {
    And,
    Or,
    Not,
    LParen,
    RParen,
    Tcp,
    Udp,
    Icmp,
    Ip,
    Port,
    Host,
    Src,
    Dst,
    Outbound,
    Inbound,
    Loopback,
    Impostor,
    IfIndex,
    SubIfIndex,
    Ident(Seq<char>),
}

impl View for Token {
    type V = Tok;

    open spec fn view(&self) -> Tok {
        match self {
            Token::And => Tok::And,
            Token::Or => Tok::Or,
            Token::Not => Tok::Not,
            Token::LParen => Tok::LParen,
            Token::RParen => Tok::RParen,
            Token::Tcp => Tok::Tcp,
            Token::Udp => Tok::Udp,
            Token::Icmp => Tok::Icmp,
            Token::Ip => Tok::Ip,
            Token::Port => Tok::Port,
            Token::Host => Tok::Host,
            Token::Src => Tok::Src,
            Token::Dst => Tok::Dst,
            Token::Outbound => Tok::Outbound,
            Token::Inbound => Tok::Inbound,
            Token::Loopback => Tok::Loopback,
            Token::Impostor => Tok::Impostor,
            Token::IfIndex => Tok::IfIndex,
            Token::SubIfIndex => Tok::SubIfIndex,
            Token::Ident(s) => Tok::Ident(s@),
        }
    }
}

impl Clone for Token {
    fn clone(&self) -> (t: Self)
        ensures
            t@ == self@,
    {
        match self {
            Token::And => Token::And,
            Token::Or => Token::Or,
            Token::Not => Token::Not,
            Token::LParen => Token::LParen,
            Token::RParen => Token::RParen,
            Token::Tcp => Token::Tcp,
            Token::Udp => Token::Udp,
            Token::Icmp => Token::Icmp,
            Token::Ip => Token::Ip,
            Token::Port => Token::Port,
            Token::Host => Token::Host,
            Token::Src => Token::Src,
            Token::Dst => Token::Dst,
            Token::Outbound => Token::Outbound,
            Token::Inbound => Token::Inbound,
            Token::Loopback => Token::Loopback,
            Token::Impostor => Token::Impostor,
            Token::IfIndex => Token::IfIndex,
            Token::SubIfIndex => Token::SubIfIndex,
            Token::Ident(s) => Token::Ident(s.clone()),
        }
    }
}

/// The models of a sequence of tokens.
pub open spec fn views(tokens: Seq<Token>) -> Seq<Tok> {
    tokens.map_values(|t: Token| t@)
}

/// The text that the `Debug` format of a token gives.
pub open spec fn tok_debug(t: Tok) -> Seq<char> {
    match t {
        Tok::And => "And"@,
        Tok::Or => "Or"@,
        Tok::Not => "Not"@,
        Tok::LParen => "LParen"@,
        Tok::RParen => "RParen"@,
        Tok::Tcp => "Tcp"@,
        Tok::Udp => "Udp"@,
        Tok::Icmp => "Icmp"@,
        Tok::Ip => "Ip"@,
        Tok::Port => "Port"@,
        Tok::Host => "Host"@,
        Tok::Src => "Src"@,
        Tok::Dst => "Dst"@,
        Tok::Outbound => "Outbound"@,
        Tok::Inbound => "Inbound"@,
        Tok::Loopback => "Loopback"@,
        Tok::Impostor => "Impostor"@,
        Tok::IfIndex => "IfIndex"@,
        Tok::SubIfIndex => "SubIfIndex"@,
        Tok::Ident(s) => "Ident("@ + text::str_debug(s) + ")"@,
    }
}

impl Token {
    /// The text that the `Debug` format of the token gives.
    pub fn describe(&self) -> (s: String)
        ensures
            s@ == tok_debug(self@),
    {
        let name: &str = match self {
            Token::And => "And",
            Token::Or => "Or",
            Token::Not => "Not",
            Token::LParen => "LParen",
            Token::RParen => "RParen",
            Token::Tcp => "Tcp",
            Token::Udp => "Udp",
            Token::Icmp => "Icmp",
            Token::Ip => "Ip",
            Token::Port => "Port",
            Token::Host => "Host",
            Token::Src => "Src",
            Token::Dst => "Dst",
            Token::Outbound => "Outbound",
            Token::Inbound => "Inbound",
            Token::Loopback => "Loopback",
            Token::Impostor => "Impostor",
            Token::IfIndex => "IfIndex",
            Token::SubIfIndex => "SubIfIndex",
            Token::Ident(s) => {
                let mut out = String::from_str("Ident(");
                out.append(text::debug_str(s.as_str()).as_str());
                out.append(")");
                return out;
            },
        };
        String::from_str(name)
    }
}

/// Whether `c` may stand in a word.
pub open spec fn is_word_char(c: char) -> bool {
    text::alphanumeric(c) || c == '.' || c == '_'
}

/// Index of the first character at or after `from` that may not stand in a word, or the length
/// of `s`.
pub open spec fn word_end(s: Seq<char>, from: int) -> int
    decreases s.len() - from,
{
    if from >= s.len() {
        s.len() as int
    } else if is_word_char(s[from]) {
        word_end(s, from + 1)
    } else {
        from
    }
}

/// The token that a word stands for. Keywords are recognised in any case.
pub open spec fn word_token(word: Seq<char>) -> Tok {
    let w = text::lowercase(word);
    if w == "and"@ {
        Tok::And
    } else if w == "or"@ {
        Tok::Or
    } else if w == "not"@ {
        Tok::Not
    } else if w == "tcp"@ {
        Tok::Tcp
    } else if w == "udp"@ {
        Tok::Udp
    } else if w == "icmp"@ {
        Tok::Icmp
    } else if w == "ip"@ {
        Tok::Ip
    } else if w == "port"@ {
        Tok::Port
    } else if w == "host"@ {
        Tok::Host
    } else if w == "src"@ {
        Tok::Src
    } else if w == "dst"@ {
        Tok::Dst
    } else if w == "outbound"@ {
        Tok::Outbound
    } else if w == "inbound"@ {
        Tok::Inbound
    } else if w == "loopback"@ {
        Tok::Loopback
    } else if w == "impostor"@ {
        Tok::Impostor
    } else if w == "ifindex"@ {
        Tok::IfIndex
    } else if w == "sub_ifindex"@ {
        Tok::SubIfIndex
    } else {
        Tok::Ident(word)
    }
}

/// `rest` with `t` in front of it.
pub open spec fn cons(t: Tok, rest: Result<Seq<Tok>, Seq<char>>) -> Result<Seq<Tok>, Seq<char>> {
    match rest {
        Ok(ts) => Ok(seq![t] + ts),
        Err(e) => Err(e),
    }
}

/// The tokens of `s` from index `i` on, or the complaint about the first character that starts
/// none.
pub open spec fn tokens_from(s: Seq<char>, i: int) -> Result<Seq<Tok>, Seq<char>>
    decreases s.len() - i,
    via tokens_from_decreases
{
    if i >= s.len() {
        Ok(Seq::empty())
    } else if text::char_whitespace(s[i]) {
        tokens_from(s, i + 1)
    } else if s[i] == '(' {
        cons(Tok::LParen, tokens_from(s, i + 1))
    } else if s[i] == ')' {
        cons(Tok::RParen, tokens_from(s, i + 1))
    } else if s[i] == '&' {
        if i + 1 < s.len() && s[i + 1] == '&' {
            cons(Tok::And, tokens_from(s, i + 2))
        } else {
            cons(Tok::And, tokens_from(s, i + 1))
        }
    } else if s[i] == '|' {
        if i + 1 < s.len() && s[i + 1] == '|' {
            cons(Tok::Or, tokens_from(s, i + 2))
        } else {
            cons(Tok::Or, tokens_from(s, i + 1))
        }
    } else if s[i] == '!' {
        cons(Tok::Not, tokens_from(s, i + 1))
    } else if is_word_char(s[i]) {
        cons(word_token(s.subrange(i, word_end(s, i + 1))), tokens_from(s, word_end(s, i + 1)))
    } else {
        Err("Unexpected character: "@.push(s[i]))
    }
}

#[via_fn]
proof fn tokens_from_decreases(s: Seq<char>, i: int) {
    if i < s.len() {
        lemma_word_end_bounds(s, i + 1);
    }
}

/// The tokens of a whole text.
pub open spec fn tokens_of(s: Seq<char>) -> Result<Seq<Tok>, Seq<char>> {
    tokens_from(s, 0)
}

proof fn lemma_word_end_bounds(s: Seq<char>, from: int)
    requires
        from <= s.len(),
    ensures
        from <= word_end(s, from) <= s.len(),
    decreases s.len() - from,
{
    if from < s.len() && is_word_char(s[from]) {
        lemma_word_end_bounds(s, from + 1);
    }
}

fn is_word(c: char) -> (b: bool)
    ensures
        b == is_word_char(c),
{
    text::is_alphanumeric(c) || c == '.' || c == '_'
}

/// The token that a word stands for.
fn classify_word(word: String) -> (t: Token)
    ensures
        t@ == word_token(word@),
{
    let lower = text::to_lowercase(word.as_str());
    let w = lower.as_str();
    if text::same_text(w, "and") {
        Token::And
    } else if text::same_text(w, "or") {
        Token::Or
    } else if text::same_text(w, "not") {
        Token::Not
    } else if text::same_text(w, "tcp") {
        Token::Tcp
    } else if text::same_text(w, "udp") {
        Token::Udp
    } else if text::same_text(w, "icmp") {
        Token::Icmp
    } else if text::same_text(w, "ip") {
        Token::Ip
    } else if text::same_text(w, "port") {
        Token::Port
    } else if text::same_text(w, "host") {
        Token::Host
    } else if text::same_text(w, "src") {
        Token::Src
    } else if text::same_text(w, "dst") {
        Token::Dst
    } else if text::same_text(w, "outbound") {
        Token::Outbound
    } else if text::same_text(w, "inbound") {
        Token::Inbound
    } else if text::same_text(w, "loopback") {
        Token::Loopback
    } else if text::same_text(w, "impostor") {
        Token::Impostor
    } else if text::same_text(w, "ifindex") {
        Token::IfIndex
    } else if text::same_text(w, "sub_ifindex") {
        Token::SubIfIndex
    } else {
        Token::Ident(word)
    }
}

/// The tokens of `done` come before those of `s` from index `i` on.
spec fn resumed(done: Seq<Tok>, s: Seq<char>, i: int) -> Result<Seq<Tok>, Seq<char>> {
    match tokens_from(s, i) {
        Ok(ts) => Ok(done + ts),
        Err(e) => Err(e),
    }
}

proof fn lemma_resumed_cons(done: Seq<Tok>, t: Tok, s: Seq<char>, i: int, next: int)
    requires
        tokens_from(s, i) == cons(t, tokens_from(s, next)),
    ensures
        resumed(done, s, i) == resumed(done.push(t), s, next),
{
    match tokens_from(s, next) {
        Ok(ts) => {
            assert(done + (seq![t] + ts) =~= done.push(t) + ts);
        },
        Err(_) => {},
    }
}

proof fn lemma_views_push(tokens: Seq<Token>, t: Token)
    ensures
        views(tokens.push(t)) == views(tokens).push(t@),
{
    assert(views(tokens.push(t)) =~= views(tokens).push(t@));
}

/// Splits a filter expression into tokens.
pub fn tokenize(input: &str) -> (r: Result<Vec<Token>, String>)
    ensures
        match r {
            Ok(tokens) => tokens_of(input@) == Ok::<Seq<Tok>, Seq<char>>(views(tokens@)),
            Err(e) => tokens_of(input@) == Err::<Seq<Tok>, Seq<char>>(e@),
        },
{
    let chars: Vec<char> = text::chars_of(input);
    let n: usize = chars.len();
    let mut tokens: Vec<Token> = Vec::new();
    let mut i: usize = 0;
    proof {
        assert(views(tokens@) =~= Seq::empty());
        match tokens_from(chars@, 0) {
            Ok(ts) => {
                assert(Seq::<Tok>::empty() + ts =~= ts);
            },
            Err(_) => {},
        }
    }
    while i < n
        invariant
            chars@ == input@,
            n == chars@.len(),
            i <= n,
            tokens_of(input@) == resumed(views(tokens@), chars@, i as int),
        decreases n - i,
    {
        let c: char = chars[i];
        if text::is_whitespace(c) {
            i += 1;
            continue;
        }
        let start: usize = i;
        let token: Token = if c == '(' {
            i += 1;
            Token::LParen
        } else if c == ')' {
            i += 1;
            Token::RParen
        } else if c == '&' {
            i += 1;
            if i < n && chars[i] == '&' {
                i += 1;
            }
            Token::And
        } else if c == '|' {
            i += 1;
            if i < n && chars[i] == '|' {
                i += 1;
            }
            Token::Or
        } else if c == '!' {
            i += 1;
            Token::Not
        } else if is_word(c) {
            i = find_word_end(&chars, i + 1);
            classify_word(text::text_of(&chars, start, i))
        } else {
            let mut e = String::from_str("Unexpected character: ");
            e.push(c);
            return Err(e);
        };
        proof {
            assert(tokens_from(chars@, start as int) == cons(
                token@,
                tokens_from(chars@, i as int),
            ));
            lemma_resumed_cons(views(tokens@), token@, chars@, start as int, i as int);
            lemma_views_push(tokens@, token);
        }
        tokens.push(token);
    }
    assert(views(tokens@) + Seq::empty() =~= views(tokens@));
    Ok(tokens)
}

fn find_word_end(s: &[char], from: usize) -> (r: usize)
    requires
        from <= s@.len(),
    ensures
        r == word_end(s@, from as int),
        from <= r <= s@.len(),
{
    let mut i: usize = from;
    while i < s.len()
        invariant
            from <= i <= s@.len(),
            word_end(s@, i as int) == word_end(s@, from as int),
        decreases s@.len() - i,
    {
        if !is_word(s[i]) {
            return i;
        }
        i += 1;
    }
    i
}

} // verus!
