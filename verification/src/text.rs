//! Characters, words and numbers in text.
use vstd::prelude::*;

verus! {

/// Whether `char::is_alphanumeric` holds of `c`.
pub uninterp spec fn char_alphanumeric(c: char) -> bool;

/// The text that `str::to_lowercase` gives.
pub uninterp spec fn str_lowercase(s: Seq<char>) -> Seq<char>;

/// The text that the `Debug` format of a `str` gives.
pub uninterp spec fn str_debug(s: Seq<char>) -> Seq<char>;

/// The code of a character.
pub open spec fn code(c: char) -> int {
    c as u32 as int
}

pub open spec fn is_ascii_upper(c: char) -> bool {
    0x41 <= code(c) <= 0x5a
}

pub open spec fn is_ascii_lower(c: char) -> bool {
    0x61 <= code(c) <= 0x7a
}

pub open spec fn is_digit(c: char) -> bool {
    0x30 <= code(c) <= 0x39
}

pub open spec fn all_ascii(s: Seq<char>) -> bool {
    forall|i: int| 0 <= i < s.len() ==> #[trigger] code(s[i]) < 0x80
}

/// Whether `c` has the Unicode property `White_Space`.
pub open spec fn char_whitespace(c: char) -> bool {
    let n = code(c);
    0x09 <= n <= 0x0d || n == 0x20 || n == 0x85 || n == 0xa0 || n == 0x1680 || 0x2000 <= n <= 0x200a
        || n == 0x2028 || n == 0x2029 || n == 0x202f || n == 0x205f || n == 0x3000
}

/// Whether `c` is a letter or a number in the sense of Unicode.
pub open spec fn alphanumeric(c: char) -> bool {
    if code(c) < 0x80 {
        is_ascii_upper(c) || is_ascii_lower(c) || is_digit(c)
    } else {
        !char_whitespace(c) && char_alphanumeric(c)
    }
}

/// `c` in lower case, if it is an ASCII letter.
pub open spec fn ascii_lower(c: char) -> char {
    if is_ascii_upper(c) {
        (code(c) + 0x20) as char
    } else {
        c
    }
}

/// `s` in lower case.
pub open spec fn lowercase(s: Seq<char>) -> Seq<char> {
    if all_ascii(s) {
        s.map_values(|c: char| ascii_lower(c))
    } else {
        str_lowercase(s)
    }
}

/// Calls `char::is_whitespace`, which holds of the characters with the Unicode property
/// `White_Space` and of no others.
#[verifier::external_body]
pub(crate) fn is_whitespace(c: char) -> (b: bool)
    ensures
        b == char_whitespace(c),
{
    c.is_whitespace()
}

/// Calls `char::is_alphanumeric`, which holds of letters and numbers in the sense of Unicode.
/// Of an ASCII character it holds exactly if that is a letter or a digit, and white space is
/// neither letter nor number; of other characters only the name is given.
#[verifier::external_body]
pub(crate) fn is_alphanumeric(c: char) -> (b: bool)
    ensures
        b == char_alphanumeric(c),
        code(c) < 0x80 ==> b == (is_ascii_upper(c) || is_ascii_lower(c) || is_digit(c)),
        char_whitespace(c) ==> !b,
{
    c.is_alphanumeric()
}

/// Calls `str::to_lowercase`. A text in ASCII keeps its length and has each letter replaced by
/// its lower-case form; of other texts only the name is given.
#[verifier::external_body]
pub(crate) fn to_lowercase(s: &str) -> (r: String)
    ensures
        r@ == str_lowercase(s@),
        all_ascii(s@) ==> r@ == s@.map_values(|c: char| ascii_lower(c)),
{
    s.to_lowercase()
}

/// Formats a `str` with `{:?}`. A text of ASCII letters, digits, dots and underscores comes out
/// as it is, between double quotes; of other texts only the name is given.
#[verifier::external_body]
pub(crate) fn debug_str(s: &str) -> (r: String)
    ensures
        r@ == str_debug(s@),
        (forall|i: int|
            0 <= i < s@.len() ==> is_ascii_upper(#[trigger] s@[i]) || is_ascii_lower(s@[i])
                || is_digit(s@[i]) || s@[i] == '.' || s@[i] == '_') ==> r@ == seq!['"'] + s@
            + seq!['"'],
{
    format!("{:?}", s)
}

/// `String::push` appends one character.
pub assume_specification[ String::push ](s: &mut String, c: char)
    ensures
        final(s)@ == old(s)@.push(c),
;

/// The characters of a text.
pub fn chars_of(s: &str) -> (v: Vec<char>)
    ensures
        v@ == s@,
{
    let mut v: Vec<char> = Vec::new();
    for c in it: s.chars()
        invariant
            v@ == it.seq().take(it.index()),
            it.seq() == s@,
    {
        proof {
            assert(it.seq().take(it.index()).push(c) =~= it.seq().take(it.index() + 1));
        }
        v.push(c);
    }
    assert(v@ =~= s@);
    v
}

/// Whether two texts are equal.
pub fn same_text(a: &str, b: &str) -> (r: bool)
    ensures
        r == (a@ == b@),
{
    String::from_str(a) == String::from_str(b)
}

/// The text made of the characters `s[from..to]`.
pub fn text_of(s: &[char], from: usize, to: usize) -> (r: String)
    requires
        from <= to <= s@.len(),
    ensures
        r@ == s@.subrange(from as int, to as int),
{
    let mut r = String::new();
    let mut i: usize = from;
    while i < to
        invariant
            from <= i <= to <= s@.len(),
            r@ == s@.subrange(from as int, i as int),
        decreases to - i,
    {
        r.push(s[i]);
        i += 1;
        assert(r@ =~= s@.subrange(from as int, i as int));
    }
    r
}

/// `s` without the whitespace it starts with.
pub open spec fn trim_start(s: Seq<char>) -> Seq<char>
    decreases s.len(),
{
    if s.len() > 0 && char_whitespace(s[0]) {
        trim_start(s.drop_first())
    } else {
        s
    }
}

/// `s` without the whitespace it ends in.
pub open spec fn trim_end(s: Seq<char>) -> Seq<char>
    decreases s.len(),
{
    if s.len() > 0 && char_whitespace(s.last()) {
        trim_end(s.drop_last())
    } else {
        s
    }
}

/// `s` without the whitespace at both ends.
pub open spec fn trimmed(s: Seq<char>) -> Seq<char> {
    trim_end(trim_start(s))
}

/// Start and end of the part of `s` that is left when whitespace is taken off both ends.
pub fn trim_bounds(s: &[char]) -> (r: (usize, usize))
    ensures
        r.0 <= r.1 <= s@.len(),
        s@.subrange(r.0 as int, r.1 as int) == trimmed(s@),
{
    let n: usize = s.len();
    let mut from: usize = 0;
    assert(s@.subrange(0, n as int) =~= s@);
    while from < n && is_whitespace(s[from])
        invariant
            n == s@.len(),
            from <= n,
            trim_start(s@.subrange(from as int, n as int)) == trim_start(s@),
        ensures
            n == s@.len(),
            from <= n,
            s@.subrange(from as int, n as int) == trim_start(s@),
        decreases n - from,
    {
        assert(s@.subrange(from as int, n as int).drop_first() =~= s@.subrange(
            from + 1,
            n as int,
        ));
        from += 1;
    }
    let mut to: usize = n;
    while to > from && is_whitespace(s[to - 1])
        invariant
            n == s@.len(),
            from <= to <= n,
            trim_end(s@.subrange(from as int, to as int)) == trimmed(s@),
        ensures
            from <= to <= n,
            s@.subrange(from as int, to as int) == trimmed(s@),
        decreases to,
    {
        assert(s@.subrange(from as int, to as int).drop_last() =~= s@.subrange(
            from as int,
            to - 1,
        ));
        to -= 1;
    }
    (from, to)
}

/// The number that a digit stands for.
pub open spec fn digit_value(c: char) -> nat {
    (code(c) - 0x30) as nat
}

pub open spec fn all_digits(s: Seq<char>) -> bool {
    forall|i: int| 0 <= i < s.len() ==> is_digit(#[trigger] s[i])
}

/// The number that a sequence of decimal digits stands for.
pub open spec fn digits_value(s: Seq<char>) -> nat
    decreases s.len(),
{
    if s.len() == 0 {
        0
    } else {
        digits_value(s.drop_last()) * 10 + digit_value(s.last())
    }
}

/// The digits of a decimal number, after the plus sign that it may start with.
pub open spec fn unsigned_digits(s: Seq<char>) -> Seq<char> {
    if s.len() > 0 && s[0] == '+' {
        s.drop_first()
    } else {
        s
    }
}

/// The number that `s` writes in decimal, if it writes one that is at most `max`.
pub open spec fn decimal(s: Seq<char>, max: nat) -> Option<nat> {
    let d = unsigned_digits(s);
    if d.len() > 0 && all_digits(d) && digits_value(d) <= max {
        Some(digits_value(d))
    } else {
        None
    }
}

/// The first digits of a number stand for no more than all of them.
proof fn lemma_digits_value_grows(s: Seq<char>, n: int)
    requires
        0 <= n <= s.len(),
    ensures
        digits_value(s.take(n)) <= digits_value(s),
    decreases s.len() - n,
{
    if n < s.len() {
        lemma_digits_value_grows(s, n + 1);
        assert(s.take(n + 1).drop_last() =~= s.take(n));
    } else {
        assert(s.take(n) =~= s);
    }
}

/// Reads the digits `s[from..to]` as a number that is at most `max`.
fn parse_digits(s: &[char], from: usize, to: usize, max: u32) -> (r: Option<u32>)
    requires
        from <= to <= s@.len(),
    ensures
        ({
            let d = s@.subrange(from as int, to as int);
            match r {
                Some(v) => all_digits(d) && digits_value(d) == v && v <= max,
                None => !(all_digits(d) && digits_value(d) <= max),
            }
        }),
{
    let ghost d = s@.subrange(from as int, to as int);
    let mut acc: u64 = 0;
    let mut i: usize = from;
    while i < to
        invariant
            from <= i <= to <= s@.len(),
            d == s@.subrange(from as int, to as int),
            all_digits(d.take(i - from)),
            acc == digits_value(d.take(i - from)),
            acc <= max,
        decreases to - i,
    {
        let c: char = s[i];
        let n: u32 = c as u32;
        proof {
            assert(d[i - from] == c);
            assert(d.take(i - from + 1).drop_last() =~= d.take(i - from));
        }
        if n < 0x30 || n > 0x39 {
            return None;
        }
        acc = acc * 10 + (n - 0x30) as u64;
        if acc > max as u64 {
            proof {
                lemma_digits_value_grows(d, i - from + 1);
            }
            return None;
        }
        i += 1;
    }
    assert(d.take(i - from) =~= d);
    Some(acc as u32)
}

/// Reads a decimal number that is at most `max`.
pub fn parse_decimal(s: &[char], max: u32) -> (r: Option<u32>)
    ensures
        match r {
            Some(v) => decimal(s@, max as nat) == Some(v as nat),
            None => decimal(s@, max as nat) is None,
        },
{
    let n: usize = s.len();
    let from: usize = if n > 0 && s[0] == '+' {
        1
    } else {
        0
    };
    assert(s@.subrange(from as int, n as int) =~= unsigned_digits(s@));
    if from == n {
        return None;
    }
    parse_digits(s, from, n, max)
}

/// Index of the first dot at or after `from`, or the length of `s`.
pub open spec fn next_dot(s: Seq<char>, from: int) -> int
    decreases s.len() - from,
{
    if from >= s.len() {
        s.len() as int
    } else if s[from] == '.' {
        from
    } else {
        next_dot(s, from + 1)
    }
}

/// Whether `s[from..to]` writes a number below 256 in at most three digits, without a leading
/// zero.
pub open spec fn is_octet(s: Seq<char>, from: int, to: int) -> bool {
    &&& from < to <= from + 3
    &&& all_digits(s.subrange(from, to))
    &&& s[from] == '0' ==> to == from + 1
    &&& digits_value(s.subrange(from, to)) <= 255
}

/// The address that `s` writes as four octets separated by dots, if it writes one.
pub open spec fn ipv4(s: Seq<char>) -> Option<u32> {
    let i = next_dot(s, 0);
    let j = next_dot(s, i + 1);
    let k = next_dot(s, j + 1);
    if k < s.len() && is_octet(s, 0, i) && is_octet(s, i + 1, j) && is_octet(s, j + 1, k)
        && is_octet(s, k + 1, s.len() as int) {
        Some(
            (digits_value(s.subrange(0, i)) * 0x100_0000 + digits_value(s.subrange(i + 1, j))
                * 0x1_0000 + digits_value(s.subrange(j + 1, k)) * 0x100 + digits_value(
                s.subrange(k + 1, s.len() as int),
            )) as u32,
        )
    } else {
        None
    }
}

/// Where the first dot is.
pub proof fn lemma_next_dot(s: Seq<char>, from: int)
    ensures
        0 <= from && next_dot(s, from) < s.len() ==> s[next_dot(s, from)] == '.',
        from <= s.len() ==> from <= next_dot(s, from) <= s.len(),
        from > s.len() ==> next_dot(s, from) == s.len(),
    decreases s.len() - from,
{
    if from < s.len() && s[from] != '.' {
        lemma_next_dot(s, from + 1);
    }
}

fn find_dot(s: &[char], from: usize) -> (r: usize)
    requires
        from <= s@.len(),
    ensures
        r == next_dot(s@, from as int),
        from <= r <= s@.len(),
{
    let mut i: usize = from;
    while i < s.len()
        invariant
            from <= i <= s@.len(),
            next_dot(s@, i as int) == next_dot(s@, from as int),
        decreases s@.len() - i,
    {
        if s[i] == '.' {
            return i;
        }
        i += 1;
    }
    i
}

fn parse_octet(s: &[char], from: usize, to: usize) -> (r: Option<u32>)
    requires
        from <= to <= s@.len(),
    ensures
        match r {
            Some(v) => is_octet(s@, from as int, to as int) && v == digits_value(
                s@.subrange(from as int, to as int),
            ) && v <= 255,
            None => !is_octet(s@, from as int, to as int),
        },
{
    if from == to || to - from > 3 || (s[from] == '0' && to - from > 1) {
        return None;
    }
    parse_digits(s, from, to, 255)
}

/// Reads an IPv4 address in dotted decimal.
pub fn parse_ipv4(s: &[char]) -> (r: Option<u32>)
    ensures
        r == ipv4(s@),
{
    let n: usize = s.len();
    let i: usize = find_dot(s, 0);
    proof {
        lemma_next_dot(s@, i + 1);
        lemma_next_dot(s@, next_dot(s@, i + 1) + 1);
    }
    if i == n {
        return None;
    }
    let j: usize = find_dot(s, i + 1);
    if j == n {
        return None;
    }
    let k: usize = find_dot(s, j + 1);
    if k == n {
        return None;
    }
    match (
        parse_octet(s, 0, i),
        parse_octet(s, i + 1, j),
        parse_octet(s, j + 1, k),
        parse_octet(s, k + 1, n),
    ) {
        (Some(a), Some(b), Some(c), Some(d)) => {
            Some(a * 0x100_0000 + b * 0x1_0000 + c * 0x100 + d)
        },
        _ => None,
    }
}

/// The digit for a number below ten.
pub open spec fn digit_char(d: nat) -> char {
    (0x30 + d) as char
}

/// A number in decimal.
pub open spec fn decimal_text(n: nat) -> Seq<char>
    decreases n,
{
    if n < 10 {
        seq![digit_char(n)]
    } else {
        decimal_text(n / 10).push(digit_char(n % 10))
    }
}

fn digit_of(d: u64) -> (c: char)
    requires
        d < 10,
    ensures
        c == digit_char(d as nat),
{
    (0x30 + d as u8) as char
}

/// Appends a number in decimal.
pub fn push_decimal(out: &mut String, n: u64)
    ensures
        final(out)@ == old(out)@ + decimal_text(n as nat),
    decreases n,
{
    if n >= 10 {
        push_decimal(out, n / 10);
    }
    out.push(digit_of(n % 10));
    assert(out@ =~= old(out)@ + decimal_text(n as nat));
}

/// Appends a text.
pub fn push_text(out: &mut String, s: &str)
    ensures
        final(out)@ == old(out)@ + s@,
{
    let v: Vec<char> = chars_of(s);
    let mut i: usize = 0;
    assert(old(out)@ + v@.take(0) =~= old(out)@);
    while i < v.len()
        invariant
            i <= v@.len(),
            out@ == old(out)@ + v@.take(i as int),
        decreases v@.len() - i,
    {
        out.push(v[i]);
        i += 1;
        assert(out@ =~= old(out)@ + v@.take(i as int));
    }
    assert(v@.take(i as int) =~= s@);
}

/// A digit behind a number makes ten times the number and the digit; one digit is a number.
pub proof fn law_digit_appended(s: Seq<char>, c: char, n: nat, max: nat)
    requires
        '0' <= c <= '9',
    ensures
        decimal(seq![c], 9) == Some((c as int - '0' as int) as nat),
        decimal(s, max) == Some(n) ==> decimal(s.push(c), 10 * max + 9) == Some(
            (10 * n + (c as int - '0' as int)) as nat,
        ),
{
    let one = seq![c];
    assert(unsigned_digits(one) =~= one);
    assert(one.drop_last() =~= Seq::empty());
    assert(digits_value(Seq::<char>::empty()) == 0);
    assert(digits_value(one) == digit_value(c));
    if decimal(s, max) == Some(n) {
        let d = unsigned_digits(s);
        let e = unsigned_digits(s.push(c));
        assert(e =~= d.push(c));
        assert(e.drop_last() =~= d);
        assert forall|i: int| 0 <= i < e.len() implies is_digit(#[trigger] e[i]) by {
            if i < d.len() {
                assert(e[i] == d[i]);
            }
        }
        assert(digits_value(e) == digits_value(d) * 10 + digit_value(c));
    }
}

/// The digits of a number, of which the first is no zero but in front of nothing.
pub proof fn lemma_decimal_text(n: nat)
    ensures
        decimal_text(n).len() > 0,
        all_digits(decimal_text(n)),
        digits_value(decimal_text(n)) == n,
        decimal_text(n)[0] == '0' ==> n == 0,
        n < 10 ==> decimal_text(n).len() == 1,
        10 <= n < 100 ==> decimal_text(n).len() == 2,
        100 <= n < 1000 ==> decimal_text(n).len() == 3,
        1000 <= n < 10000 ==> decimal_text(n).len() == 4,
        10000 <= n < 100000 ==> decimal_text(n).len() == 5,
        n < 10000000000 ==> decimal_text(n).len() <= 10,
    decreases n,
{
    reveal_with_fuel(decimal_text, 11);
    let t = decimal_text(n);
    if n < 10 {
        assert(t.drop_last() =~= Seq::empty());
        assert(digits_value(Seq::<char>::empty()) == 0);
        assert(is_digit(t[0]));
    } else {
        let s = decimal_text(n / 10);
        lemma_decimal_text(n / 10);
        assert(t == s.push(digit_char(n % 10)));
        assert(t.drop_last() =~= s);
        assert(is_digit(digit_char(n % 10)));
        assert forall|i: int| 0 <= i < t.len() implies is_digit(#[trigger] t[i]) by {
            if i < s.len() {
                assert(t[i] == s[i]);
            }
        }
        assert(t[0] == s[0]);
        assert(digits_value(t) == n / 10 * 10 + n % 10);
    }
}

/// A number that was written in decimal reads back.
pub proof fn law_decimal_reads_back(n: nat, max: nat)
    requires
        n <= max,
    ensures
        decimal(decimal_text(n), max) == Some(n),
{
    lemma_decimal_text(n);
    assert(is_digit(decimal_text(n)[0]));
    assert(unsigned_digits(decimal_text(n)) =~= decimal_text(n));
}

proof fn lemma_dot_at(s: Seq<char>, from: int, k: int)
    requires
        0 <= from <= k < s.len(),
        s[k] == '.',
        forall|i: int| from <= i < k ==> #[trigger] s[i] != '.',
    ensures
        next_dot(s, from) == k,
    decreases k - from,
{
    if from < k {
        lemma_dot_at(s, from + 1, k);
    }
}

/// Four octets in decimal with dots between them.
pub open spec fn dotted(a: u8, b: u8, c: u8, d: u8) -> Seq<char> {
    decimal_text(a as nat) + seq!['.'] + decimal_text(b as nat) + seq!['.'] + decimal_text(
        c as nat,
    ) + seq!['.'] + decimal_text(d as nat)
}

/// Four octets in decimal read back as an address.
pub proof fn law_address_reads_back(a: u8, b: u8, c: u8, d: u8)
    ensures
        ipv4(dotted(a, b, c, d)) == Some(
            (a * 0x100_0000 + b * 0x1_0000 + c * 0x100 + d) as u32,
        ),
{
    let s = dotted(a, b, c, d);
    let w = decimal_text(a as nat);
    let x = decimal_text(b as nat);
    let y = decimal_text(c as nat);
    let z = decimal_text(d as nat);
    lemma_decimal_text(a as nat);
    lemma_decimal_text(b as nat);
    lemma_decimal_text(c as nat);
    lemma_decimal_text(d as nat);
    let i = w.len() as int;
    let j = i + 1 + x.len();
    let k = j + 1 + y.len();
    let n = s.len() as int;
    assert(s.subrange(0, i) =~= w);
    assert(s.subrange(i + 1, j) =~= x);
    assert(s.subrange(j + 1, k) =~= y);
    assert(s.subrange(k + 1, n) =~= z);
    assert forall|m: int| 0 <= m < i implies #[trigger] s[m] != '.' by {
        assert(is_digit(w[m]));
    }
    assert forall|m: int| i + 1 <= m < j implies #[trigger] s[m] != '.' by {
        assert(is_digit(x[m - i - 1]));
    }
    assert forall|m: int| j + 1 <= m < k implies #[trigger] s[m] != '.' by {
        assert(is_digit(y[m - j - 1]));
    }
    lemma_dot_at(s, 0, i);
    lemma_dot_at(s, i + 1, j);
    lemma_dot_at(s, j + 1, k);
    assert(s[0] == w[0] && s[i + 1] == x[0] && s[j + 1] == y[0] && s[k + 1] == z[0]);
}

proof fn lemma_digit_char(c: char)
    ensures
        is_digit(c) == ('0' <= c && c <= '9'),
{
}

/// A number above the limit is refused, and so is a text in which something else than digits stands
/// behind the sign. A plus sign in front changes nothing.
pub proof fn law_decimal_is_refused(n: nat, max: nat, s: Seq<char>, i: int)
    ensures
        n > max ==> decimal(decimal_text(n), max) is None,
        n <= max ==> decimal(seq!['+'] + decimal_text(n), max) == Some(n),
        0 < i < s.len() && !('0' <= s[i] && s[i] <= '9') ==> decimal(s, max) is None,
        s.len() > 0 && s[0] != '+' && !('0' <= s[0] && s[0] <= '9') ==> decimal(s, max) is None,
        decimal(Seq::empty(), max) is None,
        decimal(seq!['+'], max) is None,
{
    lemma_decimal_text(n);
    assert(is_digit(decimal_text(n)[0]));
    assert(unsigned_digits(decimal_text(n)) =~= decimal_text(n));
    let signed = seq!['+'] + decimal_text(n);
    assert(signed[0] == '+');
    assert(signed.len() > 1);
    assert(unsigned_digits(signed) =~= decimal_text(n));
    if s.len() > 0 {
        let d = unsigned_digits(s);
        lemma_digit_char(s[0]);
        if 0 < i < s.len() {
            lemma_digit_char(s[i]);
        }
        if 0 < i < s.len() && !is_digit(s[i]) {
            let j = i - (s.len() - d.len());
            assert(d[j] == s[i]);
            assert(!is_digit(d[j]));
        }
        if s[0] != '+' && !is_digit(s[0]) {
            assert(!is_digit(d[0]));
        }
    }
}

/// Four numbers in decimal with dots between them.
pub open spec fn dotted_numbers(a: nat, b: nat, c: nat, d: nat) -> Seq<char> {
    decimal_text(a) + seq!['.'] + decimal_text(b) + seq!['.'] + decimal_text(c) + seq!['.']
        + decimal_text(d)
}

/// Four numbers are an address exactly if none is above 255. A text without a dot is none.
pub proof fn law_address_has_four_octets(a: nat, b: nat, c: nat, d: nat, s: Seq<char>)
    ensures
        ipv4(dotted_numbers(a, b, c, d)) is Some <==> a <= 255 && b <= 255 && c <= 255 && d <= 255,
        (forall|i: int| 0 <= i < s.len() ==> #[trigger] s[i] != '.') ==> ipv4(s) is None,
{
    let t = dotted_numbers(a, b, c, d);
    let w = decimal_text(a);
    let x = decimal_text(b);
    let y = decimal_text(c);
    let z = decimal_text(d);
    lemma_decimal_text(a);
    lemma_decimal_text(b);
    lemma_decimal_text(c);
    lemma_decimal_text(d);
    let i = w.len() as int;
    let j = i + 1 + x.len();
    let k = j + 1 + y.len();
    let n = t.len() as int;
    assert(t.subrange(0, i) =~= w);
    assert(t.subrange(i + 1, j) =~= x);
    assert(t.subrange(j + 1, k) =~= y);
    assert(t.subrange(k + 1, n) =~= z);
    assert forall|m: int| 0 <= m < i implies #[trigger] t[m] != '.' by {
        assert(is_digit(w[m]));
    }
    assert forall|m: int| i + 1 <= m < j implies #[trigger] t[m] != '.' by {
        assert(is_digit(x[m - i - 1]));
    }
    assert forall|m: int| j + 1 <= m < k implies #[trigger] t[m] != '.' by {
        assert(is_digit(y[m - j - 1]));
    }
    lemma_dot_at(t, 0, i);
    lemma_dot_at(t, i + 1, j);
    lemma_dot_at(t, j + 1, k);
    assert(t[0] == w[0] && t[i + 1] == x[0] && t[j + 1] == y[0] && t[k + 1] == z[0]);
    if forall|i: int| 0 <= i < s.len() ==> #[trigger] s[i] != '.' {
        lemma_next_dot(s, 0);
        lemma_next_dot(s, next_dot(s, 0) + 1);
        lemma_next_dot(s, next_dot(s, next_dot(s, 0) + 1) + 1);
        assert(next_dot(s, 0) == s.len());
    }
}

} // verus!
