//! GUIDs.
use vstd::prelude::*;
use crate::text;

verus! {

#[derive(Clone, Copy, Debug)]
pub struct Guid {
    pub data1: u32,
    pub data2: u16,
    pub data3: u16,
    pub data4: [u8; 8],
}

impl Guid {
    /// All zero.
    pub open spec fn is_nil(&self) -> bool {
        &&& self.data1 == 0 && self.data2 == 0 && self.data3 == 0
        &&& self.data4@ == Seq::new(8, |i: int| 0u8)
    }
}

impl Default for Guid {
    fn default() -> (g: Guid)
        ensures
            g.is_nil(),
    {
        let data4: [u8; 8] = [0u8; 8];
        assert(data4@ =~= Seq::new(8, |i: int| 0u8));
        Guid { data1: 0, data2: 0, data3: 0, data4 }
    }
}

/// Value of a hexadecimal digit.
pub open spec fn hex_digit(c: char) -> Option<nat> {
    if '0' <= c && c <= '9' {
        Some((c as int - 0x30) as nat)
    } else if 'a' <= c && c <= 'f' {
        Some((c as int - 0x61 + 10) as nat)
    } else if 'A' <= c && c <= 'F' {
        Some((c as int - 0x41 + 10) as nat)
    } else {
        None
    }
}

/// Value of hexadecimal digits, most significant first.
pub open spec fn hex_value(s: Seq<char>) -> nat
    decreases s.len(),
{
    if s.len() == 0 {
        0
    } else {
        16 * hex_value(s.drop_last()) + (match hex_digit(s.last()) {
            Some(d) => d,
            None => 0,
        })
    }
}

/// Where the digits of a GUID start: behind an opening brace, if there is one.
pub open spec fn digits_start(s: Seq<char>) -> int {
    if s[0] == '{' {
        1
    } else {
        0
    }
}

/// Whether a text holds a GUID: 32 hexadecimal digits with hyphens behind the 8th, 12th, 16th and
/// 20th, possibly behind an opening brace, and anything behind them.
pub open spec fn is_guid_text(s: Seq<char>) -> bool {
    let start = digits_start(s);
    &&& s.len() >= 1
    &&& s.len() >= start + 36
    &&& forall|i: int|
        start <= i < start + 36 ==> if i - start == 8 || i - start == 13 || i - start == 18 || i
            - start == 23 {
            #[trigger] s[i] == '-'
        } else {
            hex_digit(s[i]) is Some
        }
}

/// `g` is the GUID that a text holds.
pub open spec fn is_guid(g: Guid, s: Seq<char>) -> bool {
    let t = digits_start(s);
    &&& g.data1 == hex_value(s.subrange(t, t + 8))
    &&& g.data2 == hex_value(s.subrange(t + 9, t + 13))
    &&& g.data3 == hex_value(s.subrange(t + 14, t + 18))
    &&& g.data4@[0] == hex_value(s.subrange(t + 19, t + 21))
    &&& g.data4@[1] == hex_value(s.subrange(t + 21, t + 23))
    &&& g.data4@[2] == hex_value(s.subrange(t + 24, t + 26))
    &&& g.data4@[3] == hex_value(s.subrange(t + 26, t + 28))
    &&& g.data4@[4] == hex_value(s.subrange(t + 28, t + 30))
    &&& g.data4@[5] == hex_value(s.subrange(t + 30, t + 32))
    &&& g.data4@[6] == hex_value(s.subrange(t + 32, t + 34))
    &&& g.data4@[7] == hex_value(s.subrange(t + 34, t + 36))
}

fn hex_to_u8(c: char) -> (v: u8)
    requires
        hex_digit(c) is Some,
    ensures
        hex_digit(c) == Some(v as nat),
        v < 16,
{
    if '0' <= c && c <= '9' {
        (c as u32 - 0x30) as u8
    } else if 'a' <= c && c <= 'f' {
        (c as u32 - 0x61 + 10) as u8
    } else {
        (c as u32 - 0x41 + 10) as u8
    }
}

fn parse_hex(b: &Vec<char>, start: usize, len: usize) -> (v: u64)
    requires
        start + len <= b@.len(),
        len <= 8,
        forall|i: int| start <= i < start + len ==> hex_digit(#[trigger] b@[i]) is Some,
    ensures
        v == hex_value(b@.subrange(start as int, start + len)),
        len <= 2 ==> v <= u8::MAX,
        len <= 4 ==> v <= u16::MAX,
        v <= u32::MAX,
{
    let mut v: u64 = 0;
    let mut i: usize = 0;
    assert(b.len() == b@.len());
    while i < len
        invariant
            i <= len,
            len <= 8,
            start + len <= b@.len(),
            b@.len() <= usize::MAX,
            forall|j: int| start <= j < start + len ==> hex_digit(#[trigger] b@[j]) is Some,
            v == hex_value(b@.subrange(start as int, start + i)),
            i == 0 ==> v == 0,
            i == 1 ==> v < 0x10,
            i == 2 ==> v < 0x100,
            i == 3 ==> v < 0x1000,
            i == 4 ==> v < 0x1_0000,
            i == 5 ==> v < 0x10_0000,
            i == 6 ==> v < 0x100_0000,
            i == 7 ==> v < 0x1000_0000,
            i == 8 ==> v < 0x1_0000_0000,
        decreases len - i,
    {
        let s = Ghost(b@.subrange(start as int, start + i + 1));
        assert(s@.drop_last() =~= b@.subrange(start as int, start + i));
        assert(s@.last() == b@[start + i]);
        v = 16 * v + hex_to_u8(b[start + i]) as u64;
        i += 1;
    }
    v
}

/// The GUID that a text holds.
pub fn guid_from_str(s: &str) -> (g: Guid)
    requires
        is_guid_text(s@),
    ensures
        is_guid(g, s@),
{
    let b: Vec<char> = text::chars_of(s);
    let start: usize = if b[0] == '{' {
        1
    } else {
        0
    };
    assert(b.len() == b@.len());
    assert forall|i: int|
        start <= i < start + 36 && i != start + 8 && i != start + 13 && i != start + 18 && i
            != start + 23 implies hex_digit(#[trigger] b@[i]) is Some by {}
    Guid {
        data1: parse_hex(&b, start, 8) as u32,
        data2: parse_hex(&b, start + 9, 4) as u16,
        data3: parse_hex(&b, start + 14, 4) as u16,
        data4: [
            parse_hex(&b, start + 19, 2) as u8,
            parse_hex(&b, start + 21, 2) as u8,
            parse_hex(&b, start + 24, 2) as u8,
            parse_hex(&b, start + 26, 2) as u8,
            parse_hex(&b, start + 28, 2) as u8,
            parse_hex(&b, start + 30, 2) as u8,
            parse_hex(&b, start + 32, 2) as u8,
            parse_hex(&b, start + 34, 2) as u8,
        ],
    }
}

/// The provider under which the driver registers with the filtering platform,
/// `{f41ad05c-5df1-4ae6-81f3-71d1eda6ba0a}`.
pub fn provider_guid() -> (g: Guid)
    ensures
        g.data1 == 0xf41a_d05c,
        g.data2 == 0x5df1,
        g.data3 == 0x4ae6,
        g.data4@ == seq![0x81u8, 0xf3, 0x71, 0xd1, 0xed, 0xa6, 0xba, 0x0a],
{
    let data4: [u8; 8] = [0x81, 0xf3, 0x71, 0xd1, 0xed, 0xa6, 0xba, 0x0a];
    assert(data4@ =~= seq![0x81u8, 0xf3, 0x71, 0xd1, 0xed, 0xa6, 0xba, 0x0a]);
    Guid { data1: 0xf41a_d05c, data2: 0x5df1, data3: 0x4ae6, data4 }
}

/// A hexadecimal digit, in either case.
pub open spec fn digit_of(d: nat, upper: bool) -> char {
    if d < 10 {
        (0x30 + d) as char
    } else if upper {
        (0x41 + d - 10) as char
    } else {
        (0x61 + d - 10) as char
    }
}

/// A number in `width` hexadecimal digits.
pub open spec fn hex_text(v: nat, width: nat, upper: bool) -> Seq<char>
    decreases width,
{
    if width == 0 {
        Seq::empty()
    } else {
        hex_text(v / 16, (width - 1) as nat, upper).push(digit_of(v % 16, upper))
    }
}

/// How many numbers there are of `width` hexadecimal digits.
pub open spec fn hex_limit(width: nat) -> nat
    decreases width,
{
    if width == 0 {
        1
    } else {
        16 * hex_limit((width - 1) as nat)
    }
}

/// A number is read back from its hexadecimal digits, in either case.
pub proof fn law_hex_reads_back(v: nat, width: nat, upper: bool)
    requires
        v < hex_limit(width),
    ensures
        hex_text(v, width, upper).len() == width,
        forall|i: int|
            0 <= i < width ==> hex_digit(#[trigger] hex_text(v, width, upper)[i]) is Some,
        hex_value(hex_text(v, width, upper)) == v,
    decreases width,
{
    if width > 0 {
        let front = hex_text(v / 16, (width - 1) as nat, upper);
        let d = v % 16;
        law_hex_reads_back(v / 16, (width - 1) as nat, upper);
        let c = digit_of(d, upper);
        let s = hex_text(v, width, upper);
        assert(hex_digit(c) == Some(d));
        assert(s.drop_last() =~= front);
        assert forall|i: int| 0 <= i < width implies hex_digit(#[trigger] s[i]) is Some by {
            if i < width - 1 {
                assert(s[i] == front[i]);
            }
        }
    }
}

/// A GUID as it is written.
pub open spec fn guid_text(g: Guid, upper: bool) -> Seq<char> {
    let b = |i: int| hex_text(g.data4@[i] as nat, 2, upper);
    hex_text(g.data1 as nat, 8, upper) + seq!['-'] + hex_text(g.data2 as nat, 4, upper) + seq!['-']
        + hex_text(g.data3 as nat, 4, upper) + seq!['-'] + b(0) + b(1) + seq!['-'] + b(2) + b(3)
        + b(4) + b(5) + b(6) + b(7)
}

/// The 36 characters of a text spell a GUID.
spec fn spells(t: Seq<char>, g: Guid) -> bool {
    &&& t.len() == 36
    &&& forall|i: int|
        0 <= i < 36 ==> if i == 8 || i == 13 || i == 18 || i == 23 {
            #[trigger] t[i] == '-'
        } else {
            hex_digit(t[i]) is Some
        }
    &&& hex_value(t.subrange(0, 8)) == g.data1
    &&& hex_value(t.subrange(9, 13)) == g.data2
    &&& hex_value(t.subrange(14, 18)) == g.data3
    &&& hex_value(t.subrange(19, 21)) == g.data4@[0]
    &&& hex_value(t.subrange(21, 23)) == g.data4@[1]
    &&& hex_value(t.subrange(24, 26)) == g.data4@[2]
    &&& hex_value(t.subrange(26, 28)) == g.data4@[3]
    &&& hex_value(t.subrange(28, 30)) == g.data4@[4]
    &&& hex_value(t.subrange(30, 32)) == g.data4@[5]
    &&& hex_value(t.subrange(32, 34)) == g.data4@[6]
    &&& hex_value(t.subrange(34, 36)) == g.data4@[7]
}

proof fn lemma_guid_spelled(g: Guid, upper: bool)
    ensures
        spells(guid_text(g, upper), g),
{
    assert(hex_limit(2) == 0x100 && hex_limit(4) == 0x1_0000 && hex_limit(8) == 0x1_0000_0000) by {
        reveal_with_fuel(hex_limit, 9);
    }
    let d1 = hex_text(g.data1 as nat, 8, upper);
    let d2 = hex_text(g.data2 as nat, 4, upper);
    let d3 = hex_text(g.data3 as nat, 4, upper);
    law_hex_reads_back(g.data1 as nat, 8, upper);
    law_hex_reads_back(g.data2 as nat, 4, upper);
    law_hex_reads_back(g.data3 as nat, 4, upper);
    let b0 = lemma_byte_spelled(g.data4@[0], upper);
    let b1 = lemma_byte_spelled(g.data4@[1], upper);
    let b2 = lemma_byte_spelled(g.data4@[2], upper);
    let b3 = lemma_byte_spelled(g.data4@[3], upper);
    let b4 = lemma_byte_spelled(g.data4@[4], upper);
    let b5 = lemma_byte_spelled(g.data4@[5], upper);
    let b6 = lemma_byte_spelled(g.data4@[6], upper);
    let b7 = lemma_byte_spelled(g.data4@[7], upper);
    lemma_guid_parts(guid_text(g, upper), d1, d2, d3, b0, b1, b2, b3, b4, b5, b6, b7);
}

proof fn lemma_byte_spelled(v: u8, upper: bool) -> (s: Seq<char>)
    ensures
        s == hex_text(v as nat, 2, upper),
        s.len() == 2,
        hex_digit(s[0]) is Some,
        hex_digit(s[1]) is Some,
        hex_value(s) == v,
{
    assert(hex_limit(2) == 0x100) by {
        reveal_with_fuel(hex_limit, 3);
    }
    law_hex_reads_back(v as nat, 2, upper);
    hex_text(v as nat, 2, upper)
}

proof fn lemma_guid_within(s: Seq<char>, k: int, t: Seq<char>, g: Guid)
    requires
        spells(t, g),
        k == digits_start(s),
        s.len() >= k + 36,
        s.subrange(k, k + 36) == t,
    ensures
        is_guid_text(s),
        forall|h: Guid| #[trigger]
            is_guid(h, s) ==> h.data1 == g.data1 && h.data2 == g.data2 && h.data3 == g.data3
                && h.data4@ == g.data4@,
{
    assert forall|i: int| k <= i < k + 36 implies if i - k == 8 || i - k == 13 || i - k == 18 || i
        - k == 23 {
        #[trigger] s[i] == '-'
    } else {
        hex_digit(s[i]) is Some
    } by {
        assert(s[i] == t[i - k]);
    }
    assert forall|i: int, j: int| k <= i <= j <= k + 36 implies #[trigger] s.subrange(i, j)
        == t.subrange(i - k, j - k) by {
        assert(s.subrange(i, j) =~= t.subrange(i - k, j - k));
    }
    assert forall|h: Guid| #[trigger] is_guid(h, s) implies h.data1 == g.data1 && h.data2 == g.data2
        && h.data3 == g.data3 && h.data4@ == g.data4@ by {
        assert(h.data4@ =~= g.data4@);
    }
}

/// Every GUID is read back from its text, in either case, with a brace in front of it or without.
pub proof fn law_guid_reads_back(g: Guid, upper: bool, behind: Seq<char>)
    ensures
        ({
            let bare = guid_text(g, upper) + behind;
            let braced = seq!['{'] + guid_text(g, upper) + behind;
            &&& is_guid_text(bare)
            &&& is_guid_text(braced)
            &&& forall|h: Guid| #[trigger]
                is_guid(h, bare) ==> h.data1 == g.data1 && h.data2 == g.data2 && h.data3 == g.data3
                    && h.data4@ == g.data4@
            &&& forall|h: Guid| #[trigger]
                is_guid(h, braced) ==> h.data1 == g.data1 && h.data2 == g.data2 && h.data3
                    == g.data3 && h.data4@ == g.data4@
        }),
{
    let t = guid_text(g, upper);
    let bare = t + behind;
    let braced = seq!['{'] + t + behind;
    lemma_guid_spelled(g, upper);
    assert(hex_digit(t[0]) is Some);
    assert(bare.subrange(0, 36) =~= t);
    assert(braced.subrange(1, 37) =~= t);
    assert(bare[0] == t[0]);
    assert(braced[0] == '{');
    lemma_guid_within(bare, 0, t, g);
    lemma_guid_within(braced, 1, t, g);
}

proof fn lemma_guid_parts(
    t: Seq<char>,
    d1: Seq<char>,
    d2: Seq<char>,
    d3: Seq<char>,
    b0: Seq<char>,
    b1: Seq<char>,
    b2: Seq<char>,
    b3: Seq<char>,
    b4: Seq<char>,
    b5: Seq<char>,
    b6: Seq<char>,
    b7: Seq<char>,
)
    requires
        d1.len() == 8,
        d2.len() == 4,
        d3.len() == 4,
        b0.len() == 2 && b1.len() == 2 && b2.len() == 2 && b3.len() == 2,
        b4.len() == 2 && b5.len() == 2 && b6.len() == 2 && b7.len() == 2,
        t == d1 + seq!['-'] + d2 + seq!['-'] + d3 + seq!['-'] + b0 + b1 + seq!['-'] + b2 + b3 + b4
            + b5 + b6 + b7,
    ensures
        t.len() == 36,
        t[8] == '-' && t[13] == '-' && t[18] == '-' && t[23] == '-',
        t.subrange(0, 8) == d1,
        t.subrange(9, 13) == d2,
        t.subrange(14, 18) == d3,
        t.subrange(19, 21) == b0,
        t.subrange(21, 23) == b1,
        t.subrange(24, 26) == b2,
        t.subrange(26, 28) == b3,
        t.subrange(28, 30) == b4,
        t.subrange(30, 32) == b5,
        t.subrange(32, 34) == b6,
        t.subrange(34, 36) == b7,
        forall|i: int| 0 <= i < 8 ==> t[i] == d1[i],
        forall|i: int| 9 <= i < 13 ==> t[i] == d2[i - 9],
        forall|i: int| 14 <= i < 18 ==> t[i] == d3[i - 14],
        t[19] == b0[0] && t[20] == b0[1] && t[21] == b1[0] && t[22] == b1[1],
        t[24] == b2[0] && t[25] == b2[1] && t[26] == b3[0] && t[27] == b3[1],
        t[28] == b4[0] && t[29] == b4[1] && t[30] == b5[0] && t[31] == b5[1],
        t[32] == b6[0] && t[33] == b6[1] && t[34] == b7[0] && t[35] == b7[1],
{
    assert(t.subrange(0, 8) =~= d1);
    assert(t.subrange(9, 13) =~= d2);
    assert(t.subrange(14, 18) =~= d3);
    assert(t.subrange(19, 21) =~= b0);
    assert(t.subrange(21, 23) =~= b1);
    assert(t.subrange(24, 26) =~= b2);
    assert(t.subrange(26, 28) =~= b3);
    assert(t.subrange(28, 30) =~= b4);
    assert(t.subrange(30, 32) =~= b5);
    assert(t.subrange(32, 34) =~= b6);
    assert(t.subrange(34, 36) =~= b7);
}

} // verus!
