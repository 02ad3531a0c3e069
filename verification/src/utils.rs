//! Packets as text.
use vstd::prelude::*;
use crate::packet_parser::PacketParser;
use crate::ringbuffer::scan::PacketData;
use crate::text;

verus! {

/// How a dump looks: with colours for a terminal, or plain.
#[derive(Debug, Clone, Copy, PartialEq, Eq, Structural)]
pub enum DumpStyle {
    Colored,
    Plain,
}

/// Colours of a terminal.
#[derive(Debug, Clone, Copy, PartialEq, Eq, Structural)]
pub enum Color {
    Gray,
    Cyan,
    Green,
    Reset,
}

/// What switches a terminal to a colour.
pub open spec fn color_code(c: Color) -> Seq<char> {
    match c {
        Color::Gray => seq!['\x1b', '[', '9', '0', 'm'],
        Color::Cyan => seq!['\x1b', '[', '3', '6', 'm'],
        Color::Green => seq!['\x1b', '[', '3', '2', 'm'],
        Color::Reset => seq!['\x1b', '[', '0', 'm'],
    }
}

/// A colour switch, if the style has them.
pub open spec fn switch(style: DumpStyle, c: Color) -> Seq<char> {
    if style == DumpStyle::Colored {
        color_code(c)
    } else {
        Seq::empty()
    }
}

/// The digit for a number below sixteen.
pub open spec fn hex_char(d: nat) -> char {
    if d < 10 {
        (0x30 + d) as char
    } else {
        (0x57 + d) as char
    }
}

/// A number in hexadecimal, with at least `width` digits.
pub open spec fn hex_text(n: nat, width: nat) -> Seq<char>
    decreases n + width,
{
    if n < 16 && width <= 1 {
        seq![hex_char(n)]
    } else {
        hex_text(
            n / 16,
            if width > 0 {
                (width - 1) as nat
            } else {
                0
            },
        ).push(hex_char(n % 16))
    }
}

/// Whether a byte is a visible ASCII character.
pub open spec fn is_graphic(b: u8) -> bool {
    0x21 <= b <= 0x7e
}

/// Colour of a byte: gray for zero, cyan for visible characters and spaces, green for others.
pub open spec fn byte_color(b: u8) -> Color {
    if b == 0 {
        Color::Gray
    } else if is_graphic(b) || b == 0x20 {
        Color::Cyan
    } else {
        Color::Green
    }
}

/// A byte in hexadecimal, with a space behind it.
pub open spec fn byte_text(style: DumpStyle, b: u8) -> Seq<char> {
    switch(style, byte_color(b)) + hex_text(b as nat, 2) + switch(style, Color::Reset) + seq![' ']
}

/// The character that stands for a byte.
pub open spec fn byte_char(style: DumpStyle, b: u8) -> char {
    if is_graphic(b) || b == 0x20 {
        b as char
    } else if style == DumpStyle::Colored && (b == 0x0d || b == 0x0a) {
        '\u{21b5}'
    } else {
        '.'
    }
}

/// Bytes in hexadecimal.
pub open spec fn bytes_text(style: DumpStyle, b: Seq<u8>) -> Seq<char>
    decreases b.len(),
{
    if b.len() == 0 {
        Seq::empty()
    } else {
        bytes_text(style, b.drop_last()) + byte_text(style, b.last())
    }
}

/// How a line starts: with where its bytes stand.
pub open spec fn line_start(style: DumpStyle, at: nat) -> Seq<char> {
    spaces(4) + (switch(style, Color::Gray) + (hex_text(at, 4) + (seq![':'] + (switch(
        style,
        Color::Reset,
    ) + seq![' ']))))
}

/// How a line ends: with the characters that stand for its bytes.
pub open spec fn line_end(style: DumpStyle, b: Seq<u8>) -> Seq<char> {
    spaces(2) + (switch(style, Color::Green) + (b.map_values(|x: u8| byte_char(style, x)) + (switch(
        style,
        Color::Reset,
    ) + seq!['\n'])))
}

/// `n` spaces.
pub open spec fn spaces(n: nat) -> Seq<char> {
    Seq::new(n, |i: int| ' ')
}

/// A line of a dump: where it starts, up to sixteen bytes, filled up to the width of sixteen, and
/// the characters that stand for them.
pub open spec fn line_text(style: DumpStyle, at: nat, b: Seq<u8>) -> Seq<char> {
    line_start(style, at) + (bytes_text(style, b) + (spaces((3 * (16 - b.len())) as nat) + line_end(
        style,
        b,
    )))
}

/// The line that says how many bytes were left out.
pub open spec fn truncated_text(style: DumpStyle, n: nat) -> Seq<char> {
    spaces(4) + (switch(style, Color::Gray) + ("... (truncated "@ + (text::decimal_text(n) + (
    " bytes)"@ + (switch(style, Color::Reset) + seq!['\n'])))))
}

/// The first `n` lines of a dump of some bytes.
pub open spec fn lines_text(style: DumpStyle, b: Seq<u8>, n: nat) -> Seq<char>
    decreases n,
{
    if n == 0 {
        Seq::empty()
    } else {
        let start = 16 * (n - 1);
        let end = if 16 * n < b.len() {
            16 * n as int
        } else {
            b.len() as int
        };
        lines_text(style, b, (n - 1) as nat) + line_text(
            style,
            start as nat,
            b.subrange(start, end),
        )
    }
}

/// How many bytes of a packet are dumped: no more than `max_dump`, but one where `max_dump` is 0
/// and the first piece of the packet is not empty.
pub open spec fn dumped(data: &PacketData, max_dump: nat) -> nat {
    let first = match data {
        PacketData::Contiguous(s) => s@.len(),
        PacketData::Wrapped { part1, .. } => part1@.len(),
    };
    if max_dump == 0 {
        if first > 0 {
            1
        } else {
            0
        }
    } else if data.bytes().len() < max_dump {
        data.bytes().len()
    } else {
        max_dump
    }
}

/// A dump of a packet, with a last line that says how many bytes were left out, if any were.
pub open spec fn dump_text(style: DumpStyle, data: &PacketData, max_dump: nat) -> Seq<char> {
    let n = dumped(data, max_dump);
    lines_text(style, data.bytes().take(n as int), ((n + 15) / 16) as nat) + (if data.bytes().len()
        > max_dump {
        truncated_text(style, (data.bytes().len() - max_dump) as nat)
    } else {
        Seq::empty()
    })
}

proof fn lemma_join(o: Seq<char>, a: Seq<char>, b: Seq<char>)
    ensures
        (o + a) + b == o + (a + b),
{
    assert((o + a) + b =~= o + (a + b));
}

fn push_switch(out: &mut String, style: DumpStyle, c: Color)
    ensures
        final(out)@ == old(out)@ + switch(style, c),
{
    if style == DumpStyle::Plain {
        assert(out@ =~= old(out)@ + switch(style, c));
        return;
    }
    out.push('\x1b');
    out.push('[');
    match c {
        Color::Gray => {
            out.push('9');
            out.push('0');
        },
        Color::Cyan => {
            out.push('3');
            out.push('6');
        },
        Color::Green => {
            out.push('3');
            out.push('2');
        },
        Color::Reset => {
            out.push('0');
        },
    }
    out.push('m');
    assert(out@ =~= old(out)@ + switch(style, c));
}

fn hex_digit(d: usize) -> (c: char)
    requires
        d < 16,
    ensures
        c == hex_char(d as nat),
{
    if d < 10 {
        (0x30 + d as u8) as char
    } else {
        (0x57 + d as u8) as char
    }
}

/// Appends a number in hexadecimal, with at least `width` digits.
pub fn push_hex(out: &mut String, n: usize, width: usize)
    ensures
        final(out)@ == old(out)@ + hex_text(n as nat, width as nat),
    decreases n + width,
{
    if n >= 16 || width > 1 {
        push_hex(
            out,
            n / 16,
            if width > 0 {
                width - 1
            } else {
                0
            },
        );
    }
    out.push(hex_digit(n % 16));
    assert(out@ =~= old(out)@ + hex_text(n as nat, width as nat));
}

fn push_byte(out: &mut String, style: DumpStyle, b: u8)
    ensures
        final(out)@ == old(out)@ + byte_text(style, b),
{
    let color: Color = if b == 0 {
        Color::Gray
    } else if 0x20 <= b && b <= 0x7e {
        Color::Cyan
    } else {
        Color::Green
    };
    push_switch(out, style, color);
    push_hex(out, b as usize, 2);
    push_switch(out, style, Color::Reset);
    out.push(' ');
    assert(out@ =~= old(out)@ + byte_text(style, b));
}

fn char_of(style: DumpStyle, b: u8) -> (c: char)
    ensures
        c == byte_char(style, b),
{
    if 0x20 <= b && b <= 0x7e {
        b as char
    } else if style == DumpStyle::Colored && (b == 0x0d || b == 0x0a) {
        '\u{21b5}'
    } else {
        '.'
    }
}

/// Appends `n` spaces.
fn push_spaces(out: &mut String, n: usize)
    ensures
        final(out)@ == old(out)@ + spaces(n as nat),
{
    let mut i: usize = 0;
    assert(old(out)@ + spaces(0) =~= old(out)@);
    while i < n
        invariant
            i <= n,
            out@ == old(out)@ + spaces(i as nat),
        decreases n - i,
    {
        out.push(' ');
        i += 1;
        assert(out@ =~= old(out)@ + spaces(i as nat));
    }
}

fn push_char(out: &mut String, c: char)
    ensures
        final(out)@ == old(out)@ + seq![c],
{
    out.push(c);
    assert(out@ =~= old(out)@ + seq![c]);
}

fn push_line_start(out: &mut String, style: DumpStyle, at: usize)
    ensures
        final(out)@ == old(out)@ + line_start(style, at as nat),
{
    push_spaces(out, 4);
    let ghost o1 = out@;
    push_switch(out, style, Color::Gray);
    let ghost o2 = out@;
    push_hex(out, at, 4);
    let ghost o3 = out@;
    push_char(out, ':');
    let ghost o4 = out@;
    push_switch(out, style, Color::Reset);
    push_char(out, ' ');
    proof {
        let e = switch(style, Color::Reset);
        lemma_join(o4, e, seq![' ']);
        lemma_join(o3, seq![':'], e + seq![' ']);
        let d = seq![':'] + (e + seq![' ']);
        lemma_join(o2, hex_text(at as nat, 4), d);
        let c = hex_text(at as nat, 4) + d;
        lemma_join(o1, switch(style, Color::Gray), c);
        lemma_join(old(out)@, spaces(4), switch(style, Color::Gray) + c);
    }
}

fn push_bytes_text(out: &mut String, style: DumpStyle, data: &PacketData, at: usize, end: usize)
    requires
        at <= end <= data.bytes().len(),
    ensures
        final(out)@ == old(out)@ + bytes_text(
            style,
            data.bytes().subrange(at as int, end as int),
        ),
{
    let ghost b = data.bytes().subrange(at as int, end as int);
    let mut i: usize = at;
    assert(old(out)@ + bytes_text(style, b.take(0)) =~= old(out)@);
    while i < end
        invariant
            at <= i <= end <= data.bytes().len(),
            b == data.bytes().subrange(at as int, end as int),
            out@ == old(out)@ + bytes_text(style, b.take(i - at)),
        decreases end - i,
    {
        let byte: u8 = match PacketParser::get_byte(data, i) {
            Some(byte) => byte,
            None => 0,
        };
        push_byte(out, style, byte);
        proof {
            assert(b.take(i + 1 - at).drop_last() =~= b.take(i - at));
            assert(b.take(i + 1 - at).last() == byte);
            lemma_join(old(out)@, bytes_text(style, b.take(i - at)), byte_text(style, byte));
        }
        i += 1;
    }
    assert(b.take(end - at) =~= b);
}

fn push_chars(out: &mut String, style: DumpStyle, data: &PacketData, at: usize, end: usize)
    requires
        at <= end <= data.bytes().len(),
    ensures
        final(out)@ == old(out)@ + data.bytes().subrange(at as int, end as int).map_values(
            |x: u8| byte_char(style, x),
        ),
{
    let ghost chars = data.bytes().subrange(at as int, end as int).map_values(
        |x: u8| byte_char(style, x),
    );
    let mut i: usize = at;
    assert(old(out)@ + chars.take(0) =~= old(out)@);
    while i < end
        invariant
            at <= i <= end <= data.bytes().len(),
            chars == data.bytes().subrange(at as int, end as int).map_values(
                |x: u8| byte_char(style, x),
            ),
            out@ == old(out)@ + chars.take(i - at),
        decreases end - i,
    {
        let byte: u8 = match PacketParser::get_byte(data, i) {
            Some(byte) => byte,
            None => 0,
        };
        out.push(char_of(style, byte));
        assert(out@ =~= old(out)@ + chars.take(i + 1 - at));
        i += 1;
    }
    assert(chars.take(end - at) =~= chars);
}

fn push_line_end(out: &mut String, style: DumpStyle, data: &PacketData, at: usize, end: usize)
    requires
        at <= end <= data.bytes().len(),
    ensures
        final(out)@ == old(out)@ + line_end(
            style,
            data.bytes().subrange(at as int, end as int),
        ),
{
    push_spaces(out, 2);
    let ghost o1 = out@;
    push_switch(out, style, Color::Green);
    let ghost o2 = out@;
    push_chars(out, style, data, at, end);
    let ghost o3 = out@;
    push_switch(out, style, Color::Reset);
    push_char(out, '\n');
    proof {
        let chars = data.bytes().subrange(at as int, end as int).map_values(
            |x: u8| byte_char(style, x),
        );
        let e = switch(style, Color::Reset);
        lemma_join(o3, e, seq!['\n']);
        lemma_join(o2, chars, e + seq!['\n']);
        let c = chars + (e + seq!['\n']);
        lemma_join(o1, switch(style, Color::Green), c);
        lemma_join(old(out)@, spaces(2), switch(style, Color::Green) + c);
    }
}

fn push_line(out: &mut String, style: DumpStyle, data: &PacketData, at: usize, end: usize)
    requires
        at <= end <= data.bytes().len(),
        end - at <= 16,
    ensures
        final(out)@ == old(out)@ + line_text(
            style,
            at as nat,
            data.bytes().subrange(at as int, end as int),
        ),
{
    push_line_start(out, style, at);
    let ghost o1 = out@;
    push_bytes_text(out, style, data, at, end);
    let ghost o2 = out@;
    push_spaces(out, 3 * (16 - (end - at)));
    push_line_end(out, style, data, at, end);
    proof {
        let b = data.bytes().subrange(at as int, end as int);
        let fill = spaces((3 * (16 - b.len())) as nat);
        lemma_join(o2, fill, line_end(style, b));
        lemma_join(o1, bytes_text(style, b), fill + line_end(style, b));
        lemma_join(
            old(out)@,
            line_start(style, at as nat),
            bytes_text(style, b) + (fill + line_end(style, b)),
        );
    }
}

fn push_truncated(out: &mut String, style: DumpStyle, n: usize)
    ensures
        final(out)@ == old(out)@ + truncated_text(style, n as nat),
{
    push_spaces(out, 4);
    let ghost o1 = out@;
    push_switch(out, style, Color::Gray);
    let ghost o2 = out@;
    text::push_text(out, "... (truncated ");
    let ghost o3 = out@;
    text::push_decimal(out, n as u64);
    let ghost o4 = out@;
    text::push_text(out, " bytes)");
    let ghost o5 = out@;
    push_switch(out, style, Color::Reset);
    push_char(out, '\n');
    proof {
        let f = switch(style, Color::Reset);
        lemma_join(o5, f, seq!['\n']);
        let e = f + seq!['\n'];
        lemma_join(o4, " bytes)"@, e);
        let d = " bytes)"@ + e;
        lemma_join(o3, text::decimal_text(n as nat), d);
        let c = text::decimal_text(n as nat) + d;
        lemma_join(o2, "... (truncated "@, c);
        let b = "... (truncated "@ + c;
        lemma_join(o1, switch(style, Color::Gray), b);
        lemma_join(old(out)@, spaces(4), switch(style, Color::Gray) + b);
    }
}

/// A dump of a packet in the given style.
pub fn dump(style: DumpStyle, data: &PacketData, max_dump: usize) -> (out: String)
    requires
        data.bytes().len() <= usize::MAX,
    ensures
        out@ == dump_text(style, data, max_dump as nat),
{
    let len: usize = data.len();
    let first: usize = match data {
        PacketData::Contiguous(s) => s.len(),
        PacketData::Wrapped { part1, .. } => part1.len(),
    };
    let n: usize = if max_dump == 0 {
        if first > 0 {
            1
        } else {
            0
        }
    } else if len < max_dump {
        len
    } else {
        max_dump
    };
    let ghost b = data.bytes().take(n as int);
    let mut out = String::new();
    assert(out@ =~= Seq::empty());
    let mut at: usize = 0;
    let ghost mut k: nat = 0;
    while at < n
        invariant
            n <= data.bytes().len(),
            n == dumped(data, max_dump as nat),
            b == data.bytes().take(n as int),
            at <= n,
            at < n ==> at == 16 * k,
            at == n ==> k == (n + 15) / 16,
            out@ == lines_text(style, b, k),
        decreases n - at,
    {
        let end: usize = if n - at > 16 {
            at + 16
        } else {
            n
        };
        push_line(&mut out, style, data, at, end);
        proof {
            assert(b.subrange(at as int, end as int) =~= data.bytes().subrange(
                at as int,
                end as int,
            ));
            k = k + 1;
        }
        at = end;
    }
    if len > max_dump {
        push_truncated(&mut out, style, len - max_dump);
    } else {
        assert(out@ + Seq::empty() =~= out@);
    }
    out
}

/// A dump of a packet for a terminal: gray for zero bytes, cyan for visible characters and spaces,
/// green for others.
pub fn hexdump(data: &PacketData, max_dump: usize) -> (out: String)
    requires
        data.bytes().len() <= usize::MAX,
    ensures
        out@ == dump_text(DumpStyle::Colored, data, max_dump as nat),
{
    dump(DumpStyle::Colored, data, max_dump)
}

/// A number of up to four hexadecimal digits takes four characters at a width of four, and a byte
/// takes two at a width of two; each digit stands for its part of the number.
pub proof fn law_hex_digits(n: nat)
    ensures
        n < 0x1_0000 ==> hex_text(n, 4) == seq![
            hex_char(n / 0x1000),
            hex_char(n / 0x100 % 16),
            hex_char(n / 0x10 % 16),
            hex_char(n % 16),
        ],
        n < 0x100 ==> hex_text(n, 2) == seq![hex_char(n / 16), hex_char(n % 16)],
        n < 10 ==> hex_char(n) as int == '0' as int + n,
        10 <= n < 16 ==> hex_char(n) as int == 'a' as int + n - 10,
{
    reveal_with_fuel(hex_text, 5);
    if n < 0x100 {
        assert(hex_text(n, 2) =~= seq![hex_char(n / 16), hex_char(n % 16)]);
    }
    if n < 0x1_0000 {
        assert(n / 16 / 16 == n / 0x100);
        assert(n / 16 / 16 / 16 == n / 0x1000);
        assert(hex_text(n, 4) =~= seq![
            hex_char(n / 0x1000),
            hex_char(n / 0x100 % 16),
            hex_char(n / 0x10 % 16),
            hex_char(n % 16),
        ]);
    }
}

proof fn lemma_plain_bytes(b: Seq<u8>, i: int)
    requires
        0 <= i < b.len(),
    ensures
        ({
            let s = bytes_text(DumpStyle::Plain, b);
            &&& s.len() == 3 * b.len()
            &&& s[3 * i] == hex_char((b[i] / 16) as nat)
            &&& s[3 * i + 1] == hex_char((b[i] % 16) as nat)
            &&& s[3 * i + 2] == ' '
        }),
    decreases b.len(),
{
    let front = b.drop_last();
    let last = byte_text(DumpStyle::Plain, b.last());
    law_hex_digits(b.last() as nat);
    assert(last =~= seq![
        hex_char((b.last() / 16) as nat),
        hex_char((b.last() % 16) as nat),
        ' ',
    ]);
    if front.len() > 0 {
        lemma_plain_bytes(front, if i < front.len() {
            i
        } else {
            0
        });
    } else {
        assert(bytes_text(DumpStyle::Plain, front).len() == 0);
    }
    if i < front.len() {
        assert(front[i] == b[i]);
    }
}

/// In a line of a dump without colours everything has its column: where the line starts, from the
/// fifth on; the two digits of the bytes, from the eleventh on, three columns apart; and the
/// characters that stand for them, from the sixty-first on, a dot for those that cannot be seen.
pub proof fn law_columns_of_a_dump(at: nat, b: Seq<u8>, i: int)
    requires
        at < 0x1_0000,
        b.len() <= 16,
        0 <= i < b.len(),
    ensures
        ({
            let s = line_text(DumpStyle::Plain, at, b);
            &&& s.len() == 61 + b.len()
            &&& s[4] == hex_char(at / 0x1000)
            &&& s[5] == hex_char(at / 0x100 % 16)
            &&& s[6] == hex_char(at / 0x10 % 16)
            &&& s[7] == hex_char(at % 16)
            &&& s[8] == ':'
            &&& s[10 + 3 * i] == hex_char((b[i] / 16) as nat)
            &&& s[11 + 3 * i] == hex_char((b[i] % 16) as nat)
            &&& s[12 + 3 * i] == ' '
            &&& 0x20 <= b[i] <= 0x7e ==> s[60 + i] as int == b[i]
            &&& b[i] < 0x20 || b[i] > 0x7e ==> s[60 + i] == '.'
            &&& s.last() == '\n'
        }),
{
    let style = DumpStyle::Plain;
    law_hex_digits(at);
    lemma_plain_bytes(b, i);
    let start = line_start(style, at);
    assert(start =~= spaces(4) + hex_text(at, 4) + seq![':', ' ']);
    let middle = bytes_text(style, b);
    let fill = spaces((3 * (16 - b.len())) as nat);
    let chars = b.map_values(|x: u8| byte_char(style, x));
    let end = line_end(style, b);
    assert(end =~= spaces(2) + chars + seq!['\n']);
    let s = line_text(style, at, b);
    assert(start.len() == 10);
    assert(middle.len() + fill.len() == 48);
    assert(s.len() == 61 + b.len());
    assert(s[4] == start[4] && s[5] == start[5] && s[6] == start[6] && s[7] == start[7] && s[8]
        == start[8]);
    assert(s[10 + 3 * i] == middle[3 * i]);
    assert(s[11 + 3 * i] == middle[3 * i + 1]);
    assert(s[12 + 3 * i] == middle[3 * i + 2]);
    assert(s[60 + i] == end[2 + i]);
    assert(end[2 + i] == chars[i]);
    assert(chars[i] == byte_char(style, b[i]));
    assert(s.last() == end.last());
}

/// A dump has a line for every sixteen bytes, each with its own bytes and its own start; the last
/// one may be shorter.
pub proof fn law_lines_of_a_dump(style: DumpStyle, a: Seq<u8>, b: Seq<u8>, lines: nat)
    requires
        a.len() == 16 * lines,
        0 < b.len() <= 16,
    ensures
        lines_text(style, a + b, lines + 1) == lines_text(style, a, lines) + line_text(
            style,
            16 * lines,
            b,
        ),
{
    lemma_lines_alike(style, a + b, a, lines);
    let n = 16 * (lines + 1);
    let all = a + b;
    let end = if n < all.len() {
        n as int
    } else {
        all.len() as int
    };
    assert(all.subrange(a.len() as int, end) =~= b);
}

proof fn lemma_lines_alike(style: DumpStyle, s: Seq<u8>, t: Seq<u8>, n: nat)
    requires
        16 * n <= s.len(),
        16 * n <= t.len(),
        forall|i: int| 0 <= i < 16 * n ==> s[i] == t[i],
    ensures
        lines_text(style, s, n) == lines_text(style, t, n),
    decreases n,
{
    if n > 0 {
        let m = (n - 1) as nat;
        lemma_lines_alike(style, s, t, m);
        let end_s = if 16 * n < s.len() {
            16 * n as int
        } else {
            s.len() as int
        };
        let end_t = if 16 * n < t.len() {
            16 * n as int
        } else {
            t.len() as int
        };
        assert(s.subrange(16 * m as int, end_s) =~= t.subrange(16 * m as int, end_t));
    }
}

/// What is left out is what is not listed: as many bytes as the last line says.
pub proof fn law_dump_says_what_is_missing(style: DumpStyle, data: &PacketData, max_dump: nat)
    requires
        max_dump > 0,
    ensures
        dumped(data, max_dump) <= max_dump,
        data.bytes().len() <= max_dump ==> dumped(data, max_dump) == data.bytes().len()
            && dump_text(style, data, max_dump) == lines_text(
            style,
            data.bytes(),
            (data.bytes().len() + 15) / 16,
        ),
        data.bytes().len() > max_dump ==> dump_text(style, data, max_dump) == lines_text(
            style,
            data.bytes().take(max_dump as int),
            (max_dump + 15) / 16,
        ) + truncated_text(style, (data.bytes().len() - max_dump) as nat),
{
    let b = data.bytes();
    if b.len() <= max_dump {
        assert(b.take(b.len() as int) =~= b);
        let lines = lines_text(style, b, (b.len() + 15) / 16);
        assert(lines + Seq::<char>::empty() =~= lines);
    }
}

} // verus!
