//! Text in UTF-16 code units, as paths are written.
use vstd::prelude::*;
use crate::text;

verus! {

/// `char::from_u32` gives the character with a code, unless the code is one of a surrogate or out
/// of range.
pub assume_specification[ char::from_u32 ](i: u32) -> (r: Option<char>)
    ensures
        match r {
            Some(c) => c as u32 == i,
            None => 0xD800 <= i <= 0xDFFF || i > 0x10FFFF,
        },
;

pub open spec fn is_high(u: u16) -> bool {
    0xD800 <= u <= 0xDBFF
}

pub open spec fn is_low(u: u16) -> bool {
    0xDC00 <= u <= 0xDFFF
}

/// The code units of a character.
pub open spec fn char_units(c: char) -> Seq<u16> {
    let v = c as u32;
    if v < 0x1_0000 {
        seq![v as u16]
    } else {
        seq![
            (0xD800 + (v - 0x1_0000) / 0x400) as u16,
            (0xDC00 + (v - 0x1_0000) % 0x400) as u16,
        ]
    }
}

/// The code units of a text.
pub open spec fn encoded(s: Seq<char>) -> Seq<u16>
    decreases s.len(),
{
    if s.len() == 0 {
        Seq::empty()
    } else {
        char_units(s[0]) + encoded(s.drop_first())
    }
}

/// Number of units that the first character of `u` takes up.
pub open spec fn first_len(u: Seq<u16>) -> int {
    if u.len() > 1 && is_high(u[0]) && is_low(u[1]) {
        2
    } else {
        1
    }
}

/// The first character of `u`, if its units are paired.
pub open spec fn first_char(u: Seq<u16>) -> Option<char> {
    if !is_high(u[0]) && !is_low(u[0]) {
        Some(u[0] as char)
    } else if first_len(u) == 2 {
        Some((0x1_0000 + (u[0] - 0xD800) * 0x400 + (u[1] - 0xDC00)) as char)
    } else {
        None
    }
}

/// The text of code units, with a replacement character for each unpaired surrogate.
pub open spec fn decoded_lossy(u: Seq<u16>) -> Seq<char>
    decreases u.len(),
{
    if u.len() == 0 {
        Seq::empty()
    } else {
        let c = match first_char(u) {
            Some(c) => c,
            None => '\u{FFFD}',
        };
        seq![c] + decoded_lossy(u.skip(first_len(u)))
    }
}

/// Whether every surrogate is paired.
pub open spec fn well_paired(u: Seq<u16>) -> bool
    decreases u.len(),
{
    u.len() == 0 || (first_char(u) is Some && well_paired(u.skip(first_len(u))))
}

/// The codes of characters.
proof fn lemma_char_code(c: char)
    ensures
        c as u32 <= 0x10FFFF,
        !(0xD800 <= c as u32 <= 0xDFFF),
        (c as u32) as char == c,
{
}

/// Decoding the code units of a text gives the text.
pub proof fn law_decoding_undoes_encoding(s: Seq<char>)
    ensures
        decoded_lossy(encoded(s)) == s,
        well_paired(encoded(s)),
    decreases s.len(),
{
    if s.len() > 0 {
        let rest = s.drop_first();
        law_decoding_undoes_encoding(rest);
        let u = encoded(s);
        let v = s[0] as u32;
        lemma_char_code(s[0]);
        let n = char_units(s[0]).len() as int;
        assert(u.skip(n) =~= encoded(rest));
        if v < 0x1_0000 {
            assert(u[0] == v);
            assert(first_len(u) == 1);
        } else {
            assert(u[0] == 0xD800 + (v - 0x1_0000) / 0x400);
            assert(u[1] == 0xDC00 + (v - 0x1_0000) % 0x400);
        }
        assert(first_char(u) == Some(s[0]));
        assert(seq![s[0]] + rest =~= s);
    }
}

/// The code units of a text.
pub fn encode(s: &str) -> (out: Vec<u16>)
    ensures
        out@ == encoded(s@),
{
    let chars: Vec<char> = text::chars_of(s);
    let mut out: Vec<u16> = Vec::new();
    let mut i: usize = 0;
    assert(chars@.skip(0) =~= chars@);
    assert(out@ + encoded(chars@) =~= encoded(chars@));
    while i < chars.len()
        invariant
            i <= chars@.len(),
            out@ + encoded(chars@.skip(i as int)) == encoded(chars@),
        decreases chars@.len() - i,
    {
        let ghost before = out@;
        let c: char = chars[i];
        let v: u32 = c as u32;
        if v < 0x1_0000 {
            out.push(v as u16);
        } else {
            out.push((0xD800 + (v - 0x1_0000) / 0x400) as u16);
            out.push((0xDC00 + (v - 0x1_0000) % 0x400) as u16);
        }
        proof {
            assert(out@ =~= before + char_units(c));
            assert(chars@.skip(i as int).drop_first() =~= chars@.skip(i + 1));
            let rest = encoded(chars@.skip(i + 1));
            assert(before + (char_units(c) + rest) =~= (before + char_units(c)) + rest);
        }
        i += 1;
    }
    assert(out@ + Seq::empty() =~= out@);
    out
}

/// The character with the code `v`.
fn to_char(v: u32) -> (c: char)
    requires
        v < 0xD800 || 0xDFFF < v <= 0x10FFFF,
    ensures
        c == v as char,
{
    match char::from_u32(v) {
        Some(c) => {
            proof {
                lemma_char_code(c);
            }
            c
        },
        None => '\u{FFFD}',
    }
}

/// Decodes the character at index `i`: its length and, if its units are paired, the character.
fn decode_one(u: &[u16], i: usize) -> (r: (usize, Option<char>))
    requires
        i < u@.len(),
    ensures
        r.0 == first_len(u@.skip(i as int)),
        i + r.0 <= u@.len(),
        r.1 == first_char(u@.skip(i as int)),
{
    let a: u16 = u[i];
    assert(u@.skip(i as int)[0] == a);
    if a < 0xD800 || a > 0xDFFF {
        return (1, Some(to_char(a as u32)));
    }
    if a <= 0xDBFF && u.len() - i > 1 {
        let b: u16 = u[i + 1];
        assert(u@.skip(i as int)[1] == b);
        if 0xDC00 <= b && b <= 0xDFFF {
            let v: u32 = 0x1_0000 + (a as u32 - 0xD800) * 0x400 + (b as u32 - 0xDC00);
            return (2, Some(to_char(v)));
        }
    }
    (1, None)
}

/// The text of code units, with a replacement character for each unpaired surrogate.
pub fn decode_lossy(u: &[u16]) -> (s: String)
    ensures
        s@ == decoded_lossy(u@),
{
    let mut s = String::new();
    let mut i: usize = 0;
    assert(u@.skip(0) =~= u@);
    assert(s@ + decoded_lossy(u@) =~= decoded_lossy(u@));
    while i < u.len()
        invariant
            i <= u@.len(),
            s@ + decoded_lossy(u@.skip(i as int)) == decoded_lossy(u@),
        decreases u@.len() - i,
    {
        let ghost before = s@;
        let (n, c) = decode_one(u, i);
        let c: char = match c {
            Some(c) => c,
            None => '\u{FFFD}',
        };
        s.push(c);
        proof {
            assert(u@.skip(i as int).skip(n as int) =~= u@.skip(i + n));
            let rest = decoded_lossy(u@.skip(i + n));
            assert(before + (seq![c] + rest) =~= before.push(c) + rest);
        }
        i += n;
    }
    assert(s@ + Seq::empty() =~= s@);
    s
}

/// The text of code units, if every surrogate is paired.
pub fn decode(u: &[u16]) -> (r: Option<String>)
    ensures
        r is Some <==> well_paired(u@),
        r matches Some(s) ==> s@ == decoded_lossy(u@),
{
    let mut s = String::new();
    let mut i: usize = 0;
    assert(u@.skip(0) =~= u@);
    assert(s@ + decoded_lossy(u@) =~= decoded_lossy(u@));
    while i < u.len()
        invariant
            i <= u@.len(),
            s@ + decoded_lossy(u@.skip(i as int)) == decoded_lossy(u@),
            well_paired(u@.skip(i as int)) == well_paired(u@),
        decreases u@.len() - i,
    {
        let ghost before = s@;
        let (n, c) = decode_one(u, i);
        match c {
            Some(c) => {
                s.push(c);
                proof {
                    assert(u@.skip(i as int).skip(n as int) =~= u@.skip(i + n));
                    let rest = decoded_lossy(u@.skip(i + n));
                    assert(before + (seq![c] + rest) =~= before.push(c) + rest);
                }
            },
            None => {
                return None;
            },
        }
        i += n;
    }
    assert(s@ + Seq::empty() =~= s@);
    Some(s)
}

/// The units of two texts, one behind the other.
pub proof fn law_encoding_joins(a: Seq<char>, b: Seq<char>)
    ensures
        encoded(a + b) == encoded(a) + encoded(b),
    decreases a.len(),
{
    if a.len() == 0 {
        assert(a + b =~= b);
        assert(encoded(a) + encoded(b) =~= encoded(b));
    } else {
        law_encoding_joins(a.drop_first(), b);
        assert((a + b).drop_first() =~= a.drop_first() + b);
        assert(encoded(a + b) =~= encoded(a) + encoded(b));
    }
}

/// A character below `0x10000` is one unit, its code. Another one is a high surrogate and a low
/// one, which hold the upper and the lower ten bits of what its code exceeds `0x10000` by.
pub proof fn law_units_of_character(c: char)
    ensures
        (c as u32) < 0x1_0000 ==> encoded(seq![c]) == seq![c as u16],
        c as u32 >= 0x1_0000 ==> {
            let u = encoded(seq![c]);
            &&& u.len() == 2
            &&& 0xD800 <= u[0] < 0xDC00
            &&& 0xDC00 <= u[1] < 0xE000
            &&& c as u32 == 0x1_0000 + 1024 * (u[0] - 0xD800) + (u[1] - 0xDC00)
        },
{
    let s = seq![c];
    lemma_char_code(c);
    assert(s.drop_first() =~= Seq::empty());
    assert(encoded(Seq::<char>::empty()) =~= Seq::empty());
    assert(encoded(s) =~= char_units(c));
}

/// A text of characters below `0x10000` has as many units as characters, and they are its codes.
pub proof fn law_plain_text_keeps_codes(s: Seq<char>)
    requires
        forall|i: int| 0 <= i < s.len() ==> (#[trigger] s[i]) as u32 <= 0xFFFF,
    ensures
        encoded(s).len() == s.len(),
        forall|i: int| 0 <= i < s.len() ==> #[trigger] encoded(s)[i] == s[i] as u32,
    decreases s.len(),
{
    if s.len() > 0 {
        let rest = s.drop_first();
        law_plain_text_keeps_codes(rest);
        assert(s[0] as u32 <= 0xFFFF);
        assert forall|i: int| 0 <= i < s.len() implies #[trigger] encoded(s)[i] == s[i] as u32 by {
            if i > 0 {
                assert(encoded(s)[i] == encoded(rest)[i - 1]);
                assert(rest[i - 1] == s[i]);
            }
        }
    }
}

/// Encoding the text of units in which every surrogate is paired gives the units.
pub proof fn law_encoding_undoes_decoding(u: Seq<u16>)
    requires
        well_paired(u),
    ensures
        encoded(decoded_lossy(u)) == u,
    decreases u.len(),
{
    if u.len() > 0 {
        let n = first_len(u);
        let rest = u.skip(n);
        law_encoding_undoes_decoding(rest);
        let c = first_char(u)->0;
        let s = decoded_lossy(u);
        assert(s[0] == c);
        assert(s.drop_first() =~= decoded_lossy(rest));
        assert(char_units(c) =~= u.take(n)) by {
            if n == 2 {
                let v = 0x1_0000 + (u[0] - 0xD800) * 0x400 + (u[1] - 0xDC00);
                assert(c as u32 == v);
                assert((v - 0x1_0000) / 0x400 == u[0] - 0xD800);
                assert((v - 0x1_0000) % 0x400 == u[1] - 0xDC00);
            } else {
                assert(c as u32 == u[0]);
            }
        }
        assert(u.take(n) + rest =~= u);
    }
}

/// A surrogate without its partner becomes one replacement character, and the text goes on behind
/// it.
pub proof fn law_unpaired_is_replaced(h: u16, rest: Seq<u16>)
    requires
        0xD800 <= h <= 0xDFFF,
        h >= 0xDC00 || rest.len() == 0 || !(0xDC00 <= rest[0] <= 0xDFFF),
    ensures
        decoded_lossy(seq![h] + rest) == seq!['\u{FFFD}'] + decoded_lossy(rest),
        !well_paired(seq![h] + rest),
{
    let u = seq![h] + rest;
    assert(u.skip(1) =~= rest);
}

} // verus!
