//! One ring: a consumer at its head, one or many producers at its tail.
use vstd::arithmetic::power2::is_pow2;
use vstd::prelude::*;
use crate::ringbuffer::cells;
use crate::status::STATUS_INSUFFICIENT_RESOURCES;

verus! {

/// One ring of a power of two of bytes.
///
/// `head` counts the bytes read and `tail` the bytes written since the start; both wrap at the
/// word size. In a ring with many producers (`is_cas`), `reserved_tail` counts the bytes that
/// producers have claimed, and producers make their bytes readable in the order of their claims.
pub struct RingBufferData {
    pub size: usize,
    pub mask: usize,
    pub head: usize,
    pub tail: usize,
    pub reserved_tail: usize,
    pub is_cas: bool,
    pub buf: Vec<u8>,
}

/// A stretch of memory in a chain of such, and its bytes where they can be read.
pub struct MdlSegment {
    pub byte_count: usize,
    pub bytes: Option<Vec<u8>>,
}

impl MdlSegment {
    pub open spec fn wf(&self) -> bool {
        self.bytes matches Some(b) ==> b@.len() == self.byte_count
    }
}

pub open spec fn chain_wf(chain: Seq<MdlSegment>) -> bool {
    forall|i: int| 0 <= i < chain.len() ==> (#[trigger] chain[i]).wf()
}

/// The bytes that a chain of memory gives from `offset` on, at most `length` of them, and whether
/// all memory on the way could be read; if not, the bytes end where it could not.
pub open spec fn gathered(chain: Seq<MdlSegment>, offset: nat, length: nat) -> (Seq<u8>, bool)
    decreases chain.len(),
{
    if length == 0 || chain.len() == 0 {
        (Seq::empty(), true)
    } else {
        let seg = chain[0];
        if seg.byte_count <= offset {
            gathered(chain.drop_first(), (offset - seg.byte_count) as nat, length)
        } else {
            match seg.bytes {
                Some(b) => {
                    let k = if seg.byte_count - offset < length {
                        (seg.byte_count - offset) as nat
                    } else {
                        length
                    };
                    let (rest, ok) = gathered(chain.drop_first(), 0, (length - k) as nat);
                    (b@.subrange(offset as int, (offset + k) as int) + rest, ok)
                },
                None => (Seq::empty(), false),
            }
        }
    }
}

pub proof fn lemma_gathered_len(chain: Seq<MdlSegment>, offset: nat, length: nat)
    requires
        chain_wf(chain),
    ensures
        gathered(chain, offset, length).0.len() <= length,
    decreases chain.len(),
{
    if length > 0 && chain.len() > 0 {
        let seg = chain[0];
        let rest = chain.drop_first();
        assert(chain_wf(rest)) by {
            assert forall|i: int| 0 <= i < rest.len() implies (#[trigger] rest[i]).wf() by {
                assert(rest[i] == chain[i + 1]);
            }
        }
        if seg.byte_count <= offset {
            lemma_gathered_len(rest, (offset - seg.byte_count) as nat, length);
        } else {
            assert(seg.wf());
            let k = if seg.byte_count - offset < length {
                (seg.byte_count - offset) as nat
            } else {
                length
            };
            lemma_gathered_len(rest, 0, (length - k) as nat);
        }
    }
}

/// What a claim for room does to a ring, and where it starts if there is room.
pub open spec fn claimed(
    before: RingBufferData,
    after: RingBufferData,
    n: usize,
    r: Result<usize, i32>,
) -> bool {
    let start = if before.is_cas {
        before.reserved_tail
    } else {
        before.tail
    };
    let taken = start.wrapping_sub(before.head);
    if taken + n <= before.size {
        &&& r == Ok::<usize, i32>(start)
        &&& after == (RingBufferData {
            reserved_tail: if before.is_cas {
                start.wrapping_add(n)
            } else {
                before.reserved_tail
            },
            ..before
        })
    } else {
        &&& r == Err::<usize, i32>(STATUS_INSUFFICIENT_RESOURCES)
        &&& after == before
    }
}

impl RingBufferData {
    pub open spec fn wf(&self) -> bool {
        &&& is_pow2(self.size as int)
        &&& self.mask == self.size - 1
        &&& self.buf@.len() == self.size
    }

    /// Number of bytes written and not yet read.
    pub open spec fn unread_len(&self) -> usize {
        self.tail.wrapping_sub(self.head)
    }

    /// Number of bytes claimed and not yet read.
    pub open spec fn reserved_len(&self) -> usize {
        self.reserved_tail.wrapping_sub(self.head)
    }

    /// Head and tail are no further apart than the ring is long.
    pub open spec fn consistent(&self) -> bool {
        self.unread_len() <= self.size
    }

    /// No claim of a producer is open.
    pub open spec fn settled(&self) -> bool {
        self.is_cas ==> self.reserved_tail == self.tail
    }

    /// The bytes written and not yet read.
    pub open spec fn unread(&self) -> Seq<u8> {
        cells::window(self.buf@, self.head as int, self.unread_len() as nat)
    }

    /// An empty ring, if `size` is a power of two.
    pub fn new(size: usize, is_cas: bool) -> (r: Option<RingBufferData>)
        ensures
            r is Some <==> is_pow2(size as int),
            r matches Some(rb) ==> rb.wf() && rb.size == size && rb.is_cas == is_cas && rb.head == 0
                && rb.tail == 0 && rb.reserved_tail == 0 && rb.buf@ == Seq::new(
                size as nat,
                |i: int| 0u8,
            ),
    {
        if !cells::is_power_of_two(size) {
            return None;
        }
        proof {
            cells::lemma_pow2_size(size);
        }
        let buf: Vec<u8> = vec![0u8; size];
        assert(buf@ =~= Seq::new(size as nat, |i: int| 0u8));
        Some(
            RingBufferData {
                size,
                mask: size - 1,
                head: 0,
                tail: 0,
                reserved_tail: 0,
                is_cas,
                buf,
            },
        )
    }

    pub fn is_cas(&self) -> (b: bool)
        ensures
            b == self.is_cas,
    {
        self.is_cas
    }

    pub fn mask(&self) -> (m: usize)
        ensures
            m == self.mask,
    {
        self.mask
    }

    pub fn size(&self) -> (n: usize)
        ensures
            n == self.size,
    {
        self.size
    }

    pub fn get_size(&self) -> (n: usize)
        ensures
            n == self.size,
    {
        self.size
    }

    /// Number of bytes written and not yet read.
    pub fn unread_size(&self) -> (n: usize)
        ensures
            n == self.unread_len(),
    {
        self.tail.wrapping_sub(self.head)
    }

    /// Number of bytes that can be written before the oldest unread one would be lost.
    pub fn free_space(&self) -> (n: usize)
        requires
            self.consistent(),
        ensures
            n == self.size - self.unread_len(),
    {
        self.size - self.unread_size()
    }

    pub fn check_free_space(&self, data_len: usize) -> (b: bool)
        requires
            self.consistent(),
        ensures
            b == (self.unread_len() + data_len <= self.size),
    {
        self.free_space() >= data_len
    }

    /// Whether there are unread bytes, also where a counter has run over.
    pub fn has_unread(&self) -> (b: bool)
        ensures
            b == (self.unread_len() != 0),
    {
        self.unread_size() != 0
    }

    /// Claims room for `expected_total_size` bytes and returns the position at which they start.
    ///
    /// With one producer this only checks the room; with many it moves the mark of claimed bytes.
    pub fn reserve_space(&mut self, expected_total_size: usize) -> (r: Result<usize, i32>)
        requires
            !old(self).is_cas ==> old(self).consistent(),
            old(self).is_cas ==> old(self).reserved_len() <= old(self).size,
        ensures
            claimed(*old(self), *final(self), expected_total_size, r),
    {
        if !self.is_cas {
            if !self.check_free_space(expected_total_size) {
                return Err(STATUS_INSUFFICIENT_RESOURCES);
            }
            return Ok(self.tail);
        }
        let start: usize = self.reserved_tail;
        let taken: usize = start.wrapping_sub(self.head);
        if self.size - taken < expected_total_size {
            return Err(STATUS_INSUFFICIENT_RESOURCES);
        }
        self.reserved_tail = start.wrapping_add(expected_total_size);
        Ok(start)
    }

    /// Makes `total_size` bytes from position `start_tail` on readable.
    ///
    /// With many producers it is the turn of the one whose claim starts at the tail.
    pub fn commit_tail(&mut self, start_tail: usize, total_size: usize)
        requires
            old(self).is_cas ==> old(self).tail == start_tail,
        ensures
            *final(self) == (RingBufferData {
                tail: start_tail.wrapping_add(total_size),
                ..*old(self)
            }),
    {
        self.tail = start_tail.wrapping_add(total_size);
    }

    pub fn add_tail(&mut self, delta: usize)
        ensures
            *final(self) == (RingBufferData {
                tail: old(self).tail.wrapping_add(delta),
                ..*old(self)
            }),
    {
        self.tail = self.tail.wrapping_add(delta);
    }

    /// Gives the first `delta` unread bytes back.
    pub fn add_head(&mut self, delta: usize)
        ensures
            *final(self) == (RingBufferData {
                head: old(self).head.wrapping_add(delta),
                ..*old(self)
            }),
    {
        self.head = self.head.wrapping_add(delta);
    }

    /// Copies unread bytes, from `offset_from_head` on, over all of `dest`.
    pub fn pop_slice(&self, dest: &mut Vec<u8>, offset_from_head: usize) -> (r: Result<(), ()>)
        requires
            self.wf(),
        ensures
            final(dest)@.len() == old(dest)@.len(),
            if offset_from_head + old(dest)@.len() <= self.unread_len() {
                r is Ok && final(dest)@ == self.unread().subrange(
                    offset_from_head as int,
                    offset_from_head + old(dest)@.len(),
                )
            } else {
                r is Err && final(dest)@ == old(dest)@
            },
    {
        let n: usize = dest.len();
        let unread: usize = self.unread_size();
        if unread < n || unread - n < offset_from_head {
            return Err(());
        }
        let from: usize = self.head.wrapping_add(offset_from_head);
        let out: Vec<u8> = cells::read_cells(&self.buf, from, n);
        proof {
            cells::lemma_pow2_size(self.size);
            cells::lemma_wrapping_cell(self.head, offset_from_head, self.size);
            cells::lemma_same_cell(self.buf@, from as int, self.head + offset_from_head);
            cells::lemma_window_part(
                self.buf@,
                self.head as int,
                unread as nat,
                offset_from_head as int,
                offset_from_head + n,
            );
        }
        *dest = out;
        Ok(())
    }

    /// Writes `data` at `offset_from_start` behind position `start_tail`; returns its length.
    pub fn push_slice_at(&mut self, start_tail: usize, data: &[u8], offset_from_start: usize) -> (n:
        usize)
        requires
            old(self).wf(),
            data@.len() <= old(self).size,
        ensures
            n == data@.len(),
            *final(self) == (RingBufferData { buf: final(self).buf, ..*old(self) }),
            final(self).buf@ == cells::splice(
                old(self).buf@,
                start_tail + offset_from_start,
                data@,
            ),
            final(self).wf(),
    {
        let pos: usize = start_tail.wrapping_add(offset_from_start);
        proof {
            cells::lemma_pow2_size(self.size);
            cells::lemma_wrapping_cell(start_tail, offset_from_start, self.size);
            cells::lemma_same_cell(self.buf@, pos as int, start_tail + offset_from_start);
        }
        cells::write_cells(&mut self.buf, pos, data);
        data.len()
    }

    /// Writes up to `length` bytes of a chain of memory, from `offset_mdl` of the chain on, at
    /// `offset_from_start` behind position `start_tail`; returns how many there were.
    pub fn push_mdl_at(
        &mut self,
        start_tail: usize,
        chain: &Vec<MdlSegment>,
        offset_mdl: usize,
        length: usize,
        offset_from_start: usize,
    ) -> (r: Result<usize, i32>)
        requires
            old(self).wf(),
            chain_wf(chain@),
            length <= old(self).size,
            offset_from_start + length <= usize::MAX,
        ensures
            ({
                let (bytes, ok) = gathered(chain@, offset_mdl as nat, length as nat);
                &&& r == (if ok {
                    Ok::<usize, i32>(bytes.len() as usize)
                } else {
                    Err::<usize, i32>(STATUS_INSUFFICIENT_RESOURCES)
                })
                &&& *final(self) == (RingBufferData { buf: final(self).buf, ..*old(self) })
                &&& final(self).buf@ == cells::splice(
                    old(self).buf@,
                    start_tail + offset_from_start,
                    bytes,
                )
                &&& final(self).wf()
            }),
    {
        let ghost pos = start_tail + offset_from_start;
        let ghost (all, ok) = gathered(chain@, offset_mdl as nat, length as nat);
        let mut left: usize = length;
        let mut skip: usize = offset_mdl;
        let mut copied: usize = 0;
        let mut i: usize = 0;
        let ghost mut done: Seq<u8> = Seq::empty();
        proof {
            cells::lemma_pow2_size(self.size);
            cells::lemma_splice_nothing(self.buf@, pos);
            assert(chain@.skip(0) =~= chain@);
            assert(Seq::<u8>::empty() + all =~= all);
        }
        while left > 0 && i < chain.len()
            invariant
                self.wf(),
                chain_wf(chain@),
                i <= chain@.len(),
                length <= self.size,
                self.size == old(self).size,
                offset_from_start + length <= usize::MAX,
                pos == start_tail + offset_from_start,
                copied + left == length,
                done.len() == copied,
                *self == (RingBufferData { buf: self.buf, ..*old(self) }),
                self.buf@ == cells::splice(old(self).buf@, pos, done),
                (all, ok) == gathered(chain@, offset_mdl as nat, length as nat),
                ({
                    let (rest, o) = gathered(chain@.skip(i as int), skip as nat, left as nat);
                    all == done + rest && ok == o
                }),
            decreases chain@.len() - i,
        {
            let seg = &chain[i];
            proof {
                assert(chain@.skip(i as int).drop_first() =~= chain@.skip(i + 1));
                assert(chain@.skip(i as int)[0] == chain@[i as int]);
                assert(chain@[i as int].wf());
            }
            if seg.byte_count <= skip {
                skip -= seg.byte_count;
                i += 1;
                continue;
            }
            match &seg.bytes {
                None => {
                    assert(all =~= done);
                    return Err(STATUS_INSUFFICIENT_RESOURCES);
                },
                Some(b) => {
                    let available: usize = seg.byte_count - skip;
                    let k: usize = if available < left {
                        available
                    } else {
                        left
                    };
                    let piece = vstd::slice::slice_subrange(b.as_slice(), skip, skip + k);
                    proof {
                        let rest = gathered(chain@.skip(i + 1), 0, (left - k) as nat).0;
                        cells::lemma_pow2_size(self.size);
                        cells::lemma_splice_twice(old(self).buf@, pos, done, piece@);
                        assert(done + (piece@ + rest) =~= (done + piece@) + rest);
                        done = done + piece@;
                    }
                    self.push_slice_at(start_tail, piece, offset_from_start + copied);
                    copied += k;
                    left -= k;
                    skip = 0;
                    i += 1;
                },
            }
        }
        assert(all =~= done);
        Ok(copied)
    }

    /// Copies `n` bytes from `offset_from_start` behind position `start_tail`.
    pub fn read_from_rb(&self, start_tail: usize, offset_from_start: usize, n: usize) -> (out: Vec<
        u8,
    >)
        requires
            self.wf(),
        ensures
            out@ == cells::window(self.buf@, start_tail + offset_from_start, n as nat),
    {
        let pos: usize = start_tail.wrapping_add(offset_from_start);
        proof {
            cells::lemma_pow2_size(self.size);
            cells::lemma_wrapping_cell(start_tail, offset_from_start, self.size);
            cells::lemma_same_cell(self.buf@, pos as int, start_tail + offset_from_start);
        }
        cells::read_cells(&self.buf, pos, n)
    }
}

/// Bytes that a producer writes at the tail and commits come behind those that were unread.
pub proof fn law_committed_bytes_come_last(
    before: RingBufferData,
    after: RingBufferData,
    data: Seq<u8>,
)
    requires
        before.wf(),
        before.unread_len() + data.len() <= before.size,
        after.size == before.size,
        after.head == before.head,
        after.tail == before.tail.wrapping_add(data.len() as usize),
        after.buf@ == cells::splice(before.buf@, before.tail as int, data),
    ensures
        after.unread_len() == before.unread_len() + data.len(),
        after.unread() == before.unread() + data,
{
    let n = before.unread_len();
    cells::lemma_pow2_size(before.size);
    cells::lemma_wrapping_cell(before.head, n, before.size);
    cells::lemma_same_cell(before.buf@, before.tail as int, before.head + n);
    cells::lemma_window_extended(before.buf@, before.head as int, n as nat, data);
}

/// Moving the head on by no more than is unread takes that many bytes off the front.
pub proof fn law_released_bytes_go_first(before: RingBufferData, delta: usize)
    requires
        before.wf(),
        delta <= before.unread_len(),
    ensures
        ({
            let after = RingBufferData { head: before.head.wrapping_add(delta), ..before };
            &&& after.unread_len() == before.unread_len() - delta
            &&& after.unread() == before.unread().skip(delta as int)
        }),
{
    let after = RingBufferData { head: before.head.wrapping_add(delta), ..before };
    let n = before.unread_len();
    cells::lemma_pow2_size(before.size);
    cells::lemma_wrapping_cell(before.head, delta, before.size);
    cells::lemma_same_cell(before.buf@, after.head as int, before.head + delta);
    cells::lemma_window_part(before.buf@, before.head as int, n as nat, delta as int, n as int);
    assert(before.unread().skip(delta as int) =~= before.unread().subrange(delta as int, n as int));
}

/// The bytes of a chain of memory, one part behind the other.
pub open spec fn chained(chain: Seq<MdlSegment>) -> Seq<u8>
    decreases chain.len(),
{
    if chain.len() == 0 {
        Seq::empty()
    } else {
        chained(chain.drop_last()) + chain.last().bytes->0@
    }
}

proof fn lemma_chained_front(chain: Seq<MdlSegment>)
    requires
        chain.len() > 0,
    ensures
        chained(chain) == chain[0].bytes->0@ + chained(chain.drop_first()),
    decreases chain.len(),
{
    if chain.len() == 1 {
        assert(chain.drop_last() =~= Seq::empty());
        assert(chain.drop_first() =~= Seq::empty());
        assert(chained(chain) =~= chain[0].bytes->0@);
    } else {
        lemma_chained_front(chain.drop_last());
        assert(chain.drop_last().drop_first() =~= chain.drop_first().drop_last());
        assert(chained(chain.drop_first()) == chained(chain.drop_first().drop_last())
            + chain.last().bytes->0@);
        assert(chained(chain) =~= chain[0].bytes->0@ + chained(chain.drop_first()));
    }
}

/// What is gathered from a chain that can be read are the bytes from the offset on, in order and
/// without a gap, as many as were asked for or as there are.
pub proof fn law_gathered_in_order(chain: Seq<MdlSegment>, offset: nat, length: nat)
    requires
        chain_wf(chain),
        forall|i: int| 0 <= i < chain.len() ==> (#[trigger] chain[i]).bytes is Some,
    ensures
        gathered(chain, offset, length).1,
        offset <= chained(chain).len() ==> gathered(chain, offset, length).0 == chained(
            chain,
        ).subrange(
            offset as int,
            if offset + length <= chained(chain).len() {
                (offset + length) as int
            } else {
                chained(chain).len() as int
            },
        ),
        offset > chained(chain).len() ==> gathered(chain, offset, length).0.len() == 0,
    decreases chain.len(),
{
    let all = chained(chain);
    if chain.len() > 0 {
        let rest = chain.drop_first();
        lemma_chained_front(chain);
        assert forall|i: int| 0 <= i < rest.len() implies (#[trigger] rest[i]).wf()
            && rest[i].bytes is Some by {
            assert(rest[i] == chain[i + 1]);
        }
        let seg = chain[0];
        let b = seg.bytes->0@;
        assert(seg.wf());
        if seg.byte_count <= offset {
            law_gathered_in_order(rest, (offset - seg.byte_count) as nat, length);
        } else {
            let k = if seg.byte_count - offset < length {
                (seg.byte_count - offset) as nat
            } else {
                length
            };
            law_gathered_in_order(rest, 0, (length - k) as nat);
        }
    }
    if offset <= all.len() {
        let end = if offset + length <= all.len() {
            (offset + length) as int
        } else {
            all.len() as int
        };
        assert(gathered(chain, offset, length).0 =~= all.subrange(offset as int, end));
    }
}

/// An empty ring has room for as many bytes as it is long, and for no more.
pub proof fn law_whole_ring_can_be_claimed(
    before: RingBufferData,
    after: RingBufferData,
    n: usize,
    r: Result<usize, i32>,
)
    requires
        before.settled(),
        before.head == before.tail,
        claimed(before, after, n, r),
    ensures
        r is Ok <==> n <= before.size,
        r is Ok ==> r == Ok::<usize, i32>(before.head),
{
}

/// Of two claims in a ring with many producers the second one starts where the first one ends. Both
/// together, and what is unread or claimed before them, take up no more than the ring; where they
/// would, one of them is refused.
pub proof fn law_claims_do_not_overlap(
    a: RingBufferData,
    b: RingBufferData,
    c: RingBufferData,
    n: usize,
    m: usize,
    r: Result<usize, i32>,
    s: Result<usize, i32>,
)
    requires
        a.is_cas,
        a.reserved_len() <= a.size,
        claimed(a, b, n, r),
        claimed(b, c, m, s),
    ensures
        r is Ok && s is Ok ==> {
            &&& s->Ok_0 == r->Ok_0.wrapping_add(n)
            &&& a.reserved_len() + n + m <= a.size
            &&& c.reserved_len() == a.reserved_len() + n + m
        },
        r is Ok && a.reserved_len() + n + m > a.size ==> s is Err,
        r is Err ==> a.reserved_len() + n > a.size && b == a,
        b.tail == a.tail && b.head == a.head && b.buf@ == a.buf@,
{
}

/// With one producer a claim only looks whether there is room.
pub proof fn law_single_producer_claims_nothing(
    before: RingBufferData,
    after: RingBufferData,
    n: usize,
    r: Result<usize, i32>,
)
    requires
        !before.is_cas,
        claimed(before, after, n, r),
    ensures
        after == before,
        r is Ok <==> before.unread_len() + n <= before.size,
        r matches Ok(start) ==> start == before.tail,
{
}

} // verus!
