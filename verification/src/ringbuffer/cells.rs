//! Byte cells of a ring whose size is a power of two.
//!
//! Positions are counters that run on forever and wrap at the word size; the cell of a position
//! is its remainder by the size.
use vstd::arithmetic::div_mod::*;
use vstd::arithmetic::power2::*;
use vstd::prelude::*;

verus! {

/// The `n` bytes from position `pos` on.
pub open spec fn window(buf: Seq<u8>, pos: int, n: nat) -> Seq<u8> {
    Seq::new(n, |i: int| buf[(pos + i) % (buf.len() as int)])
}

/// `buf` with `data` written from position `pos` on.
pub open spec fn splice(buf: Seq<u8>, pos: int, data: Seq<u8>) -> Seq<u8> {
    Seq::new(
        buf.len(),
        |j: int|
            {
                let d = (j - pos) % (buf.len() as int);
                if d < data.len() {
                    data[d]
                } else {
                    buf[j]
                }
            },
    )
}

/// Whether a size has exactly one bit set.
pub fn is_power_of_two(size: usize) -> (b: bool)
    ensures
        b == is_pow2(size as int),
{
    proof {
        if size > 0 {
            lemma_one_bit(size);
        } else {
            reveal(is_pow2);
        }
    }
    size != 0 && (size & (size - 1)) == 0
}

proof fn lemma_one_bit(size: usize)
    requires
        size > 0,
    ensures
        (size & sub_one(size)) == 0 <==> is_pow2(size as int),
    decreases size,
{
    reveal(is_pow2);
    if size == 1 {
        assert(1usize & 0 == 0) by (bit_vector);
    } else {
        let half = size / 2;
        let low = sub_one(size);
        let half_low = sub_one(half);
        assert((size & low == 0) <==> (size % 2 == 0 && half & half_low == 0)) by (bit_vector)
            requires
                size > 1,
                low == size - 1,
                half == size / 2,
                half_low == half - 1,
        ;
        lemma_one_bit(half);
    }
}

spec fn sub_one(n: usize) -> usize {
    (n - 1) as usize
}

/// A power of two that fits in a word divides the number of words, and masking with what lies
/// below it takes the remainder.
pub proof fn lemma_pow2_size(size: usize)
    requires
        is_pow2(size as int),
    ensures
        size > 0,
        (usize::MAX + 1) % (size as int) == 0,
        forall|x: usize, mask: usize| mask == size - 1 ==> #[trigger] (x & mask) == x % size,
{
    is_pow2_equiv(size as int);
    let e = choose|i: nat| vstd::arithmetic::power::pow(2, i) == size;
    lemma_pow2(e);
    vstd::layout::unsigned_int_max_values();
    let bits = usize::BITS as nat;
    assert(e < bits) by {
        if e >= bits {
            if e > bits {
                lemma_pow2_strictly_increases(bits, e);
            }
        }
    }
    lemma_pow2_pos(e);
    lemma_pow2_adds(e, (bits - e) as nat);
    lemma_mod_multiples_basic(pow2((bits - e) as nat) as int, size as int);
    assert(pow2(e) * pow2((bits - e) as nat) == pow2((bits - e) as nat) * pow2(e))
        by (nonlinear_arith);
    assert forall|x: usize, mask: usize| mask == size - 1 implies #[trigger] (x & mask) == x
        % size by {
        vstd::bits::lemma_usize_low_bits_mask_is_mod(x, e);
    }
}

/// The cell of a position that was moved on with wrapping.
pub proof fn lemma_wrapping_cell(pos: usize, n: usize, size: usize)
    requires
        is_pow2(size as int),
    ensures
        pos.wrapping_add(n) % size == (pos + n) % (size as int),
{
    lemma_pow2_size(size);
    let all = usize::MAX + 1;
    let k = all / (size as int);
    lemma_fundamental_div_mod(all, size as int);
    if pos + n > usize::MAX {
        lemma_mod_multiples_vanish(-k, pos + n, size as int);
        assert(size as int * -k == -(size as int * k)) by (nonlinear_arith);
    }
}

/// What `splice` puts in the cell of position `pos + i`.
proof fn lemma_splice_at(buf: Seq<u8>, pos: int, data: Seq<u8>, i: int)
    requires
        buf.len() > 0,
        0 <= i < buf.len(),
    ensures
        splice(buf, pos, data)[(pos + i) % (buf.len() as int)] == (if i < data.len() {
            data[i]
        } else {
            buf[(pos + i) % (buf.len() as int)]
        }),
{
    let size = buf.len() as int;
    let j = (pos + i) % size;
    lemma_mod_bound(pos + i, size);
    assert((j - pos) % size == i) by {
        lemma_sub_mod_noop(pos + i, pos, size);
        lemma_sub_mod_noop(j, pos, size);
        lemma_small_mod(j as nat, size as nat);
        lemma_small_mod(i as nat, size as nat);
    }
}

/// Reading where something was just written gives what was written.
pub proof fn lemma_window_of_splice(buf: Seq<u8>, pos: int, data: Seq<u8>)
    requires
        0 < buf.len(),
        data.len() <= buf.len(),
    ensures
        window(splice(buf, pos, data), pos, data.len()) == data,
{
    assert forall|i: int| 0 <= i < data.len() implies window(
        splice(buf, pos, data),
        pos,
        data.len(),
    )[i] == data[i] by {
        lemma_splice_at(buf, pos, data, i);
    }
    assert(window(splice(buf, pos, data), pos, data.len()) =~= data);
}

/// Moving a position by a whole turn does not change its cell.
proof fn lemma_turn(pos: int, size: int)
    requires
        size > 0,
    ensures
        (pos + size) % size == pos % size,
{
    lemma_mod_add_multiples_vanish(pos, size);
}

/// Writing behind what is to be read appends to it.
pub proof fn lemma_window_extended(buf: Seq<u8>, head: int, n: nat, data: Seq<u8>)
    requires
        0 < buf.len(),
        n + data.len() <= buf.len(),
    ensures
        window(splice(buf, head + n, data), head, n + data.len()) == window(buf, head, n) + data,
{
    let size = buf.len() as int;
    let pos = head + n;
    let after = splice(buf, pos, data);
    let w = window(after, head, n + data.len());
    let expect = window(buf, head, n) + data;
    assert forall|i: int| 0 <= i < n + data.len() implies w[i] == expect[i] by {
        if i < n {
            lemma_splice_at(buf, pos, data, size - n + i);
            lemma_turn(head + i, size);
        } else {
            lemma_splice_at(buf, pos, data, i - n);
        }
    }
    assert(w =~= expect);
}

/// Writing outside of what is to be read does not change it.
pub proof fn lemma_window_untouched(buf: Seq<u8>, head: int, n: nat, pos: int, data: Seq<u8>)
    requires
        0 < buf.len(),
        head + n <= pos,
        pos + data.len() <= head + buf.len(),
    ensures
        window(splice(buf, pos, data), head, n) == window(buf, head, n),
{
    let size = buf.len() as int;
    let after = splice(buf, pos, data);
    assert forall|i: int| 0 <= i < n implies window(after, head, n)[i] == window(
        buf,
        head,
        n,
    )[i] by {
        lemma_splice_at(buf, pos, data, head + i + size - pos);
        lemma_turn(head + i, size);
    }
    assert(window(after, head, n) =~= window(buf, head, n));
}

/// A part of a window is a window.
pub proof fn lemma_window_part(buf: Seq<u8>, pos: int, n: nat, a: int, b: int)
    requires
        0 <= a <= b <= n,
    ensures
        window(buf, pos, n).subrange(a, b) == window(buf, pos + a, (b - a) as nat),
{
    assert(window(buf, pos, n).subrange(a, b) =~= window(buf, pos + a, (b - a) as nat)) by {
        assert forall|i: int| 0 <= i < b - a implies window(buf, pos, n).subrange(a, b)[i]
            == window(buf, pos + a, (b - a) as nat)[i] by {
            assert(pos + (a + i) == (pos + a) + i);
        }
    }
}

/// Windows and writes at positions with the same cell are the same.
pub proof fn lemma_same_cell(buf: Seq<u8>, a: int, b: int)
    requires
        0 < buf.len(),
        a % (buf.len() as int) == b % (buf.len() as int),
    ensures
        forall|n: nat| #[trigger] window(buf, a, n) == window(buf, b, n),
        forall|data: Seq<u8>| #[trigger] splice(buf, a, data) == splice(buf, b, data),
{
    let size = buf.len() as int;
    assert forall|n: nat| #[trigger] window(buf, a, n) == window(buf, b, n) by {
        assert forall|i: int| 0 <= i < n implies window(buf, a, n)[i] == window(buf, b, n)[i] by {
            lemma_add_mod_noop(a, i, size);
            lemma_add_mod_noop(b, i, size);
        }
        assert(window(buf, a, n) =~= window(buf, b, n));
    }
    assert forall|data: Seq<u8>| #[trigger] splice(buf, a, data) == splice(buf, b, data) by {
        assert forall|j: int| 0 <= j < size implies splice(buf, a, data)[j] == splice(
            buf,
            b,
            data,
        )[j] by {
            lemma_sub_mod_noop(j, a, size);
            lemma_sub_mod_noop(j, b, size);
        }
        assert(splice(buf, a, data) =~= splice(buf, b, data));
    }
}

/// Writing two pieces one behind the other is writing both at once.
pub proof fn lemma_splice_twice(buf: Seq<u8>, pos: int, a: Seq<u8>, b: Seq<u8>)
    requires
        0 < buf.len(),
        a.len() + b.len() <= buf.len(),
    ensures
        splice(splice(buf, pos, a), pos + a.len(), b) == splice(buf, pos, a + b),
{
    let size = buf.len() as int;
    let once = splice(buf, pos, a);
    let twice = splice(once, pos + a.len(), b);
    let both = splice(buf, pos, a + b);
    assert forall|j: int| 0 <= j < size implies twice[j] == both[j] by {
        let i = (j - pos) % size;
        lemma_mod_bound(j - pos, size);
        assert((pos + i) % size == j) by {
            lemma_add_mod_noop(pos, j - pos, size);
            lemma_add_mod_noop(pos, i, size);
            lemma_small_mod(j as nat, size as nat);
            lemma_small_mod(i as nat, size as nat);
        }
        lemma_splice_at(buf, pos, a, i);
        lemma_splice_at(buf, pos, a + b, i);
        if i >= a.len() {
            lemma_splice_at(once, pos + a.len(), b, i - a.len());
        } else {
            lemma_splice_at(once, pos + a.len(), b, i - a.len() + size);
            lemma_turn(pos + i, size);
        }
    }
    assert(twice =~= both);
}

/// Writing nothing changes nothing.
pub proof fn lemma_splice_nothing(buf: Seq<u8>, pos: int)
    requires
        0 < buf.len(),
    ensures
        splice(buf, pos, Seq::empty()) == buf,
{
    assert forall|j: int| 0 <= j < buf.len() implies splice(buf, pos, Seq::empty())[j]
        == buf[j] by {
        lemma_mod_bound(j - pos, buf.len() as int);
    }
    assert(splice(buf, pos, Seq::empty()) =~= buf);
}

/// Writes `data` into the cells from position `pos` on.
pub fn write_cells(buf: &mut Vec<u8>, pos: usize, data: &[u8])
    requires
        is_pow2(old(buf)@.len() as int),
        data@.len() <= old(buf)@.len(),
    ensures
        final(buf)@ == splice(old(buf)@, pos as int, data@),
{
    let size: usize = buf.len();
    proof {
        lemma_pow2_size(size);
    }
    let mask: usize = size - 1;
    let mut i: usize = 0;
    proof {
        lemma_splice_nothing(buf@, pos as int);
        assert(data@.take(0) =~= Seq::empty());
    }
    while i < data.len()
        invariant
            i <= data@.len(),
            data@.len() <= size,
            size == buf@.len(),
            size == old(buf)@.len(),
            is_pow2(size as int),
            mask == size - 1,
            buf@ == splice(old(buf)@, pos as int, data@.take(i as int)),
        decreases data@.len() - i,
    {
        let cell: usize = pos.wrapping_add(i) & mask;
        let b: u8 = data[i];
        proof {
            lemma_pow2_size(size);
            lemma_wrapping_cell(pos, i, size);
            lemma_splice_twice(old(buf)@, pos as int, data@.take(i as int), seq![b]);
            assert(data@.take(i as int) + seq![b] =~= data@.take(i + 1));
            lemma_splice_one(buf@, pos + i, b);
        }
        buf[cell] = b;
        i += 1;
    }
    assert(data@.take(i as int) =~= data@);
}

/// Writing one byte changes one cell.
proof fn lemma_splice_one(buf: Seq<u8>, pos: int, b: u8)
    requires
        0 < buf.len(),
    ensures
        splice(buf, pos, seq![b]) == buf.update(pos % (buf.len() as int), b),
{
    let size = buf.len() as int;
    let c = pos % size;
    lemma_mod_bound(pos, size);
    assert forall|j: int| 0 <= j < size implies splice(buf, pos, seq![b])[j] == buf.update(
        c,
        b,
    )[j] by {
        lemma_sub_mod_noop(j, pos, size);
        lemma_mod_bound(j - pos, size);
        lemma_small_mod(j as nat, size as nat);
        lemma_small_mod(0, size as nat);
        if j - c >= 0 {
            lemma_small_mod((j - c) as nat, size as nat);
        } else {
            lemma_turn(j - c, size);
            lemma_small_mod((j - c + size) as nat, size as nat);
        }
    }
    assert(splice(buf, pos, seq![b]) =~= buf.update(c, b));
}

/// Copies the `n` bytes in the cells from position `pos` on.
pub fn read_cells(buf: &[u8], pos: usize, n: usize) -> (out: Vec<u8>)
    requires
        is_pow2(buf@.len() as int),
    ensures
        out@ == window(buf@, pos as int, n as nat),
{
    let size: usize = buf.len();
    proof {
        lemma_pow2_size(size);
    }
    let mask: usize = size - 1;
    let mut out: Vec<u8> = Vec::new();
    let mut i: usize = 0;
    while i < n
        invariant
            i <= n,
            size == buf@.len(),
            is_pow2(size as int),
            mask == size - 1,
            out@ == window(buf@, pos as int, i as nat),
        decreases n - i,
    {
        proof {
            lemma_pow2_size(size);
            lemma_wrapping_cell(pos, i, size);
        }
        out.push(buf[pos.wrapping_add(i) & mask]);
        i += 1;
        assert(out@ =~= window(buf@, pos as int, i as nat));
    }
    out
}

/// A window that starts inside the first turn, as stretches of cells.
pub proof fn lemma_window_straight(buf: Seq<u8>, offset: int, n: nat)
    requires
        0 <= offset < buf.len(),
        n <= buf.len(),
    ensures
        offset + n <= buf.len() ==> window(buf, offset, n) == buf.subrange(offset, offset + n),
        offset + n > buf.len() ==> window(buf, offset, n) == buf.subrange(
            offset,
            buf.len() as int,
        ) + buf.subrange(0, offset + n - buf.len()),
{
    let size = buf.len() as int;
    let w = window(buf, offset, n);
    assert forall|i: int| 0 <= i < n implies w[i] == (if offset + i < size {
        buf[offset + i]
    } else {
        buf[offset + i - size]
    }) by {
        if offset + i < size {
            lemma_small_mod((offset + i) as nat, size as nat);
        } else {
            lemma_turn(offset + i - size, size);
            lemma_small_mod((offset + i - size) as nat, size as nat);
        }
    }
    if offset + n <= size {
        assert(w =~= buf.subrange(offset, offset + n));
    } else {
        assert(w =~= buf.subrange(offset, size) + buf.subrange(0, offset + n - size));
    }
}

} // verus!
