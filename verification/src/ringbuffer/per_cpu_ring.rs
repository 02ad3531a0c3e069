//! A ring for every worker, so that processors do not get in each other's way.
use vstd::arithmetic::power2::is_pow2;
use vstd::prelude::*;
use crate::ringbuffer::cells;
use crate::ringbuffer::data;
use crate::ringbuffer::data::{MdlSegment, RingBufferData};
use crate::ringbuffer::records;
use crate::ringbuffer::records::{RecordHeader, DUMMY_MARKER, RECORD_HEADER_SIZE};
use crate::status::{STATUS_INSUFFICIENT_RESOURCES, STATUS_INVALID_DEVICE_STATE};

verus! {

broadcast use crate::bytes::lemma_u32_le_len;

/// A call that a waiting consumer asked for: the callback and the context that goes with it.
#[derive(Clone, Copy, Debug, PartialEq, Eq, Structural)]
pub struct Notify {
    pub callback: u64,
    pub context: u64,
}

/// Rings of one size, one per worker.
///
/// All but the last have one producer each, the processor of the same number. The last is shared
/// by all other processors.
pub struct PerCpuRingBuffer {
    pub rb_datas: Vec<RingBufferData>,
    pub workers_num: u32,
    /// A consumer waits to be called.
    pub is_watching: bool,
    pub notify_cb: Option<u64>,
    pub notify_ctx: u64,
}

/// A write in progress: the processor that writes, the position at which its bytes start, and how
/// far it has come.
pub struct RingBufferTransaction {
    pub core_index: u32,
    pub start_tail: usize,
    pub offset: usize,
}

/// Number of workers for a request of `requested` on a machine with `active` processors.
pub open spec fn worker_count(requested: u32, active: u32) -> u32 {
    if requested == 0 {
        active
    } else {
        requested
    }
}

impl PerCpuRingBuffer {
    pub open spec fn wf(&self) -> bool {
        &&& self.workers_num >= 1
        &&& self.rb_datas@.len() == self.workers_num
        &&& forall|i: int|
            0 <= i < self.rb_datas@.len() ==> {
                let rb = #[trigger] self.rb_datas@[i];
                rb.wf() && rb.size == self.rb_datas@[0].size && (rb.is_cas <==> i
                    == self.workers_num - 1)
            }
    }

    /// No ring holds more than it has room for, and no claim of a producer is open.
    pub open spec fn healthy(&self) -> bool {
        &&& self.wf()
        &&& forall|i: int|
            0 <= i < self.rb_datas@.len() ==> (#[trigger] self.rb_datas@[i]).consistent()
                && self.rb_datas@[i].settled()
    }

    /// Size of each ring.
    pub open spec fn ring_size(&self) -> usize {
        self.rb_datas@[0].size
    }

    /// Index of the ring that processor `core` uses.
    pub open spec fn route(&self, core: u32) -> int {
        if core < self.workers_num {
            core as int
        } else {
            self.workers_num - 1
        }
    }

    /// The ring that processor `core` uses.
    pub open spec fn ring(&self, core: u32) -> RingBufferData {
        self.rb_datas@[self.route(core)]
    }

    /// Only the ring of processor `core` differs from `before`.
    pub open spec fn same_but_ring(&self, before: &PerCpuRingBuffer, core: u32) -> bool {
        &&& self.workers_num == before.workers_num
        &&& self.is_watching == before.is_watching
        &&& self.notify_cb == before.notify_cb
        &&& self.notify_ctx == before.notify_ctx
        &&& self.rb_datas@ == before.rb_datas@.update(before.route(core), self.ring(core))
    }

    /// Rings of `size` zeros for `workers` workers, with nothing unread and nobody to call.
    pub open spec fn is_new(&self, size: usize, workers: u32) -> bool {
        &&& self.wf()
        &&& self.workers_num == workers
        &&& self.ring_size() == size
        &&& !self.is_watching
        &&& self.notify_cb is None
        &&& self.notify_ctx == 0
        &&& forall|i: int|
            0 <= i < self.rb_datas@.len() ==> {
                let d = #[trigger] self.rb_datas@[i];
                d.head == 0 && d.tail == 0 && d.reserved_tail == 0 && d.buf@ == Seq::new(
                    size as nat,
                    |k: int| 0u8,
                )
            }
    }

    /// Makes empty rings of `size` bytes for `workers_num` workers, or for all `active` processors
    /// where `workers_num` is 0.
    pub fn allocate(size: usize, workers_num: u32, active: u32) -> (r: Result<
        PerCpuRingBuffer,
        i32,
    >)
        ensures
            match r {
                Err(e) => if !is_pow2(size as int) {
                    e == STATUS_INVALID_DEVICE_STATE
                } else {
                    e == STATUS_INSUFFICIENT_RESOURCES && worker_count(workers_num, active) == 0
                },
                Ok(rb) => {
                    &&& is_pow2(size as int)
                    &&& worker_count(workers_num, active) != 0
                    &&& rb.is_new(size, worker_count(workers_num, active))
                },
            },
    {
        if !cells::is_power_of_two(size) {
            return Err(STATUS_INVALID_DEVICE_STATE);
        }
        let workers: u32 = if workers_num == 0 {
            active
        } else {
            workers_num
        };
        if workers == 0 {
            return Err(STATUS_INSUFFICIENT_RESOURCES);
        }
        let mut rb_datas: Vec<RingBufferData> = Vec::new();
        let mut core: u32 = 0;
        while core < workers
            invariant
                is_pow2(size as int),
                core <= workers,
                workers >= 1,
                rb_datas@.len() == core,
                forall|i: int|
                    0 <= i < core ==> {
                        let d = #[trigger] rb_datas@[i];
                        d.wf() && d.size == size && d.head == 0 && d.tail == 0 && d.reserved_tail
                            == 0 && (d.is_cas <==> i == workers - 1) && d.buf@ == Seq::new(
                            size as nat,
                            |k: int| 0u8,
                        )
                    },
            decreases workers - core,
        {
            match RingBufferData::new(size, core == workers - 1) {
                Some(rb) => {
                    rb_datas.push(rb);
                },
                None => {
                    return Err(STATUS_INSUFFICIENT_RESOURCES);
                },
            }
            core += 1;
        }
        Ok(
            PerCpuRingBuffer {
                rb_datas,
                workers_num: workers,
                is_watching: false,
                notify_cb: None,
                notify_ctx: 0,
            },
        )
    }

    /// Says what to call when bytes arrive while a consumer waits.
    pub fn set_notify_callback(&mut self, cb: Option<u64>, ctx: u64)
        ensures
            *final(self) == (PerCpuRingBuffer { notify_cb: cb, notify_ctx: ctx, ..*old(self) }),
    {
        self.notify_cb = cb;
        self.notify_ctx = ctx;
    }

    /// Marks that a consumer waits.
    pub fn set_watching(&mut self)
        ensures
            *final(self) == (PerCpuRingBuffer { is_watching: true, ..*old(self) }),
    {
        self.is_watching = true;
    }

    /// Marks that no consumer waits.
    pub fn clear_watching(&mut self)
        ensures
            *final(self) == (PerCpuRingBuffer { is_watching: false, ..*old(self) }),
    {
        self.is_watching = false;
    }

    /// Marks that no consumer waits, and tells whether one did.
    pub fn test_and_clear_watching_flag(&mut self) -> (was: bool)
        ensures
            was == old(self).is_watching,
            *final(self) == (PerCpuRingBuffer { is_watching: false, ..*old(self) }),
    {
        let was: bool = self.is_watching;
        self.is_watching = false;
        was
    }

    /// Index of the ring that processor `core` uses.
    pub fn route_index(&self, core: u32) -> (i: usize)
        requires
            self.wf(),
        ensures
            i == self.route(core),
            i < self.rb_datas@.len(),
    {
        if core < self.workers_num {
            core as usize
        } else {
            self.workers_num as usize - 1
        }
    }

    /// The ring that processor `core` uses.
    pub fn get_ring_buffer(&self, core: u32) -> (rb: &RingBufferData)
        requires
            self.wf(),
        ensures
            *rb == self.ring(core),
            rb.wf(),
    {
        &self.rb_datas[self.route_index(core)]
    }

    pub fn get_ring_buffer_size(&self) -> (n: usize)
        requires
            self.wf(),
        ensures
            n == self.ring_size(),
    {
        self.rb_datas[0].get_size()
    }

    pub fn workers_num(&self) -> (n: u32)
        ensures
            n == self.workers_num,
    {
        self.workers_num
    }

    /// Whether the ring of processor `core` has unread bytes.
    pub fn has_unread(&self, core: u32) -> (b: bool)
        requires
            self.wf(),
        ensures
            b == (self.ring(core).unread_len() != 0),
    {
        self.get_ring_buffer(core).has_unread()
    }

    /// Whether any ring has unread bytes.
    pub fn has_unread_packets(&self) -> (b: bool)
        requires
            self.wf(),
        ensures
            b == exists|i: int|
                0 <= i < self.rb_datas@.len() && (#[trigger] self.rb_datas@[i]).unread_len() != 0,
    {
        let mut i: u32 = 0;
        while i < self.workers_num
            invariant
                self.wf(),
                i <= self.workers_num,
                forall|j: int| 0 <= j < i ==> (#[trigger] self.rb_datas@[j]).unread_len() == 0,
            decreases self.workers_num - i,
        {
            if self.has_unread(i) {
                assert(self.rb_datas@[i as int].unread_len() != 0);
                return true;
            }
            i += 1;
        }
        false
    }

    /// Copies unread bytes of the ring of processor `core`, from `offset_from_head` on, over all
    /// of `dest`.
    pub fn pop_slice(&self, core: u32, dest: &mut Vec<u8>, offset_from_head: usize) -> (r: Result<
        (),
        (),
    >)
        requires
            self.wf(),
        ensures
            final(dest)@.len() == old(dest)@.len(),
            if offset_from_head + old(dest)@.len() <= self.ring(core).unread_len() {
                r is Ok && final(dest)@ == self.ring(core).unread().subrange(
                    offset_from_head as int,
                    offset_from_head + old(dest)@.len(),
                )
            } else {
                r is Err && final(dest)@ == old(dest)@
            },
    {
        self.get_ring_buffer(core).pop_slice(dest, offset_from_head)
    }

    /// Gives the first `delta` unread bytes of the ring of processor `core` back.
    pub fn add_head(&mut self, core: u32, delta: usize)
        requires
            old(self).wf(),
        ensures
            final(self).wf(),
            final(self).same_but_ring(old(self), core),
            final(self).ring(core) == (RingBufferData {
                head: old(self).ring(core).head.wrapping_add(delta),
                ..old(self).ring(core)
            }),
    {
        let i: usize = self.route_index(core);
        self.rb_datas[i].add_head(delta);
        assert(self.rb_datas@ =~= old(self).rb_datas@.update(i as int, self.rb_datas@[i as int]));
    }
}

/// `after` is the ring `before` with `bytes` written at position `pos`.
pub open spec fn wrote(
    before: RingBufferData,
    after: RingBufferData,
    pos: int,
    bytes: Seq<u8>,
) -> bool {
    &&& after == (RingBufferData { buf: after.buf, ..before })
    &&& after.buf@ == cells::splice(before.buf@, pos, bytes)
}

impl RingBufferTransaction {
    /// Position at which the next byte goes.
    pub open spec fn pos(&self) -> int {
        self.start_tail + self.offset
    }

    /// Writes bytes without a header.
    pub fn push_slice_only(&mut self, rb: &mut PerCpuRingBuffer, bytes: &[u8])
        requires
            old(rb).wf(),
            bytes@.len() <= old(rb).ring_size(),
            old(self).offset + bytes@.len() <= usize::MAX,
        ensures
            final(rb).wf(),
            final(rb).same_but_ring(old(rb), old(self).core_index),
            wrote(
                old(rb).ring(old(self).core_index),
                final(rb).ring(old(self).core_index),
                old(self).pos(),
                bytes@,
            ),
            *final(self) == (RingBufferTransaction {
                offset: (old(self).offset + bytes@.len()) as usize,
                ..*old(self)
            }),
    {
        let i: usize = rb.route_index(self.core_index);
        let n: usize = rb.rb_datas[i].push_slice_at(self.start_tail, bytes, self.offset);
        assert(rb.rb_datas@ =~= old(rb).rb_datas@.update(i as int, rb.rb_datas@[i as int]));
        self.offset = self.offset + n;
    }

    /// Writes a header and the bytes that go with it.
    pub fn push_slice(&mut self, rb: &mut PerCpuRingBuffer, header: &RecordHeader, bytes: &[u8])
        requires
            old(rb).wf(),
            8 + bytes@.len() <= old(rb).ring_size(),
            old(self).offset + 8 + bytes@.len() <= usize::MAX,
        ensures
            final(rb).wf(),
            final(rb).same_but_ring(old(rb), old(self).core_index),
            wrote(
                old(rb).ring(old(self).core_index),
                final(rb).ring(old(self).core_index),
                old(self).pos(),
                records::header_bytes(*header) + bytes@,
            ),
            *final(self) == (RingBufferTransaction {
                offset: (old(self).offset + 8 + bytes@.len()) as usize,
                ..*old(self)
            }),
    {
        let head: Vec<u8> = records::encode_header(header);
        proof {
            records::lemma_header_round_trip(*header, bytes@);
            let ring = rb.ring(self.core_index);
            cells::lemma_pow2_size(ring.size);
            cells::lemma_splice_twice(ring.buf@, self.pos(), head@, bytes@);
        }
        self.push_slice_only(rb, &head);
        self.push_slice_only(rb, bytes);
        assert(rb.rb_datas@ =~= old(rb).rb_datas@.update(
            old(rb).route(self.core_index),
            rb.ring(self.core_index),
        ));
    }

    /// Writes `length` bytes of a chain of memory without a header.
    pub fn push_mdl_only(
        &mut self,
        rb: &mut PerCpuRingBuffer,
        chain: &Vec<MdlSegment>,
        mdl_offset: usize,
        length: usize,
    ) -> (r: Result<(), i32>)
        requires
            old(rb).wf(),
            data::chain_wf(chain@),
            length <= old(rb).ring_size(),
            old(self).offset + length <= usize::MAX,
        ensures
            final(rb).wf(),
            final(rb).same_but_ring(old(rb), old(self).core_index),
            ({
                let (bytes, ok) = data::gathered(chain@, mdl_offset as nat, length as nat);
                &&& wrote(
                    old(rb).ring(old(self).core_index),
                    final(rb).ring(old(self).core_index),
                    old(self).pos(),
                    bytes,
                )
                &&& if ok {
                    r is Ok && *final(self) == (RingBufferTransaction {
                        offset: (old(self).offset + length) as usize,
                        ..*old(self)
                    })
                } else {
                    r == Err::<(), i32>(STATUS_INSUFFICIENT_RESOURCES) && *final(self)
                        == *old(self)
                }
            }),
    {
        let i: usize = rb.route_index(self.core_index);
        let pushed = rb.rb_datas[i].push_mdl_at(
            self.start_tail,
            chain,
            mdl_offset,
            length,
            self.offset,
        );
        assert(rb.rb_datas@ =~= old(rb).rb_datas@.update(i as int, rb.rb_datas@[i as int]));
        match pushed {
            Ok(_) => {
                self.offset = self.offset + length;
                Ok(())
            },
            Err(e) => Err(e),
        }
    }

    /// Writes a header and `length` bytes of a chain of memory.
    ///
    /// Where the memory cannot be read, the header has been written but the transaction has not
    /// moved on.
    pub fn push_mdl(
        &mut self,
        rb: &mut PerCpuRingBuffer,
        header: &RecordHeader,
        chain: &Vec<MdlSegment>,
        mdl_offset: usize,
        length: usize,
    ) -> (r: Result<(), i32>)
        requires
            old(rb).wf(),
            data::chain_wf(chain@),
            8 + length <= old(rb).ring_size(),
            old(self).offset + 8 + length <= usize::MAX,
        ensures
            final(rb).wf(),
            final(rb).same_but_ring(old(rb), old(self).core_index),
            ({
                let (bytes, ok) = data::gathered(chain@, mdl_offset as nat, length as nat);
                &&& wrote(
                    old(rb).ring(old(self).core_index),
                    final(rb).ring(old(self).core_index),
                    old(self).pos(),
                    records::header_bytes(*header) + bytes,
                )
                &&& if ok {
                    r is Ok && *final(self) == (RingBufferTransaction {
                        offset: (old(self).offset + 8 + length) as usize,
                        ..*old(self)
                    })
                } else {
                    r == Err::<(), i32>(STATUS_INSUFFICIENT_RESOURCES) && *final(self)
                        == *old(self)
                }
            }),
    {
        let head: Vec<u8> = records::encode_header(header);
        let before: usize = self.offset;
        proof {
            let bytes = data::gathered(chain@, mdl_offset as nat, length as nat).0;
            records::lemma_header_round_trip(*header, bytes);
            data::lemma_gathered_len(chain@, mdl_offset as nat, length as nat);
            let ring = rb.ring(self.core_index);
            cells::lemma_pow2_size(ring.size);
            cells::lemma_splice_twice(ring.buf@, self.pos(), head@, bytes);
        }
        self.push_slice_only(rb, &head);
        let r = self.push_mdl_only(rb, chain, mdl_offset, length);
        assert(rb.rb_datas@ =~= old(rb).rb_datas@.update(
            old(rb).route(self.core_index),
            rb.ring(self.core_index),
        ));
        if r.is_err() {
            self.offset = before;
        }
        r
    }

    /// Where the next `len` bytes go: start and length of a first stretch of cells, and of a
    /// second one at the beginning of the ring.
    pub fn get_write_ptrs(&self, rb: &PerCpuRingBuffer, len: usize) -> (r: (
        usize,
        usize,
        usize,
        usize,
    ))
        requires
            rb.wf(),
        ensures
            r.0 == self.pos() % (rb.ring_size() as int),
            r.1 == (if rb.ring_size() - r.0 < len {
                rb.ring_size() - r.0
            } else {
                len as int
            }),
            r.2 == 0,
            r.3 == len - r.1,
    {
        let ring = rb.get_ring_buffer(self.core_index);
        let pos: usize = self.start_tail.wrapping_add(self.offset);
        proof {
            cells::lemma_pow2_size(ring.size);
            cells::lemma_wrapping_cell(self.start_tail, self.offset, ring.size);
        }
        let first: usize = pos & ring.mask();
        let room: usize = ring.size() - first;
        let len1: usize = if room < len {
            room
        } else {
            len
        };
        (first, len1, 0, len - len1)
    }

    /// Moves on over `len` bytes that were written in another way.
    pub fn advance_offset(&mut self, len: usize)
        requires
            old(self).offset + len <= usize::MAX,
        ensures
            *final(self) == (RingBufferTransaction {
                offset: (old(self).offset + len) as usize,
                ..*old(self)
            }),
    {
        self.offset = self.offset + len;
    }
}

/// Something to write in a transaction.
pub enum Piece {
    /// Bytes.
    Slice(Vec<u8>),
    /// A header and bytes.
    Record(RecordHeader, Vec<u8>),
    /// `length` bytes of a chain of memory, from `offset` on.
    Mdl { chain: Vec<MdlSegment>, offset: usize, length: usize },
    /// A header and `length` bytes of a chain of memory, from `offset` on.
    MdlRecord { header: RecordHeader, chain: Vec<MdlSegment>, offset: usize, length: usize },
}

impl Piece {
    /// The bytes that are written, and whether all of the piece could be read.
    pub open spec fn bytes(&self) -> (Seq<u8>, bool) {
        match self {
            Piece::Slice(b) => (b@, true),
            Piece::Record(h, b) => (records::header_bytes(*h) + b@, true),
            Piece::Mdl { chain, offset, length } => data::gathered(
                chain@,
                *offset as nat,
                *length as nat,
            ),
            Piece::MdlRecord { header, chain, offset, length } => {
                let (b, ok) = data::gathered(chain@, *offset as nat, *length as nat);
                (records::header_bytes(*header) + b, ok)
            },
        }
    }

    /// How far the transaction moves on.
    pub open spec fn size(&self) -> nat {
        match self {
            Piece::Slice(b) => b@.len(),
            Piece::Record(_, b) => 8 + b@.len(),
            Piece::Mdl { length, .. } => *length as nat,
            Piece::MdlRecord { length, .. } => 8 + *length as nat,
        }
    }

    pub open spec fn wf(&self) -> bool {
        match self {
            Piece::Mdl { chain, .. } => data::chain_wf(chain@),
            Piece::MdlRecord { chain, .. } => data::chain_wf(chain@),
            _ => true,
        }
    }
}

/// Number of bytes that pieces take up.
pub open spec fn pieces_size(pieces: Seq<Piece>) -> nat
    decreases pieces.len(),
{
    if pieces.len() == 0 {
        0
    } else {
        pieces_size(pieces.drop_last()) + pieces.last().size()
    }
}

/// Whether all of the pieces can be read.
pub open spec fn pieces_ok(pieces: Seq<Piece>) -> bool {
    forall|i: int| 0 <= i < pieces.len() ==> (#[trigger] pieces[i]).bytes().1
}

pub open spec fn pieces_wf(pieces: Seq<Piece>) -> bool {
    forall|i: int| 0 <= i < pieces.len() ==> (#[trigger] pieces[i]).wf()
}

/// The cells `buf` after the pieces were written one behind the other from position `pos` on, up
/// to the first one that cannot be read.
pub open spec fn pieces_written(buf: Seq<u8>, pos: int, pieces: Seq<Piece>) -> Seq<u8>
    decreases pieces.len(),
{
    if pieces.len() == 0 {
        buf
    } else {
        let before = pieces_written(buf, pos, pieces.drop_last());
        if pieces_ok(pieces.drop_last()) {
            cells::splice(
                before,
                pos + pieces_size(pieces.drop_last()),
                pieces.last().bytes().0,
            )
        } else {
            before
        }
    }
}

/// What a transaction does to its ring.
pub open spec fn transacted(
    before: RingBufferData,
    after: RingBufferData,
    expected: usize,
    pieces: Seq<Piece>,
) -> bool {
    let start = before.tail;
    let buf = pieces_written(before.buf@, start as int, pieces);
    let reserved = if before.is_cas {
        start.wrapping_add(expected)
    } else {
        before.reserved_tail
    };
    if pieces_ok(pieces) && pieces_size(pieces) > 0 {
        &&& after == (RingBufferData {
            tail: start.wrapping_add(pieces_size(pieces) as usize),
            reserved_tail: reserved,
            buf: after.buf,
            ..before
        })
        &&& after.buf@ == buf
    } else if before.is_cas {
        &&& after == (RingBufferData {
            tail: start.wrapping_add(expected),
            reserved_tail: reserved,
            buf: after.buf,
            ..before
        })
        &&& after.buf@ == cells::splice(
            buf,
            start as int,
            records::header_bytes(records::dummy_header(expected as int)),
        )
    } else {
        &&& after == (RingBufferData { buf: after.buf, ..before })
        &&& after.buf@ == buf
    }
}

impl PerCpuRingBuffer {
    /// Whom to call now that bytes have arrived, if somebody waits.
    pub open spec fn due(&self) -> Option<Notify> {
        match self.notify_cb {
            Some(callback) if self.is_watching => Some(
                Notify { callback, context: self.notify_ctx },
            ),
            _ => None,
        }
    }

    /// Writes `pieces` into the ring of processor `core_index` in one go and makes them readable.
    ///
    /// There has to be room for `expected` bytes. If a waiting consumer is to be told, the result
    /// says how. If a piece cannot be read, or there is nothing to write, a ring with many
    /// producers gets a dummy record of `expected` bytes, so that later claims can proceed.
    pub fn transaction(&mut self, core_index: u32, expected: usize, pieces: &Vec<Piece>) -> (r:
        Result<Option<Notify>, i32>)
        requires
            old(self).wf(),
            old(self).ring(core_index).consistent(),
            old(self).ring(core_index).settled(),
            pieces_wf(pieces@),
            pieces_size(pieces@) <= old(self).ring_size(),
            old(self).ring(core_index).is_cas && !(pieces_ok(pieces@) && pieces_size(pieces@) > 0)
                ==> expected >= 8,
        ensures
            final(self).wf(),
            ({
                let before = old(self).ring(core_index);
                let after = final(self).ring(core_index);
                if before.unread_len() + expected > before.size {
                    &&& r == Err::<Option<Notify>, i32>(STATUS_INSUFFICIENT_RESOURCES)
                    &&& final(self).rb_datas@ == old(self).rb_datas@
                    &&& *final(self) == (PerCpuRingBuffer {
                        rb_datas: final(self).rb_datas,
                        ..*old(self)
                    })
                } else {
                    let wrote = pieces_ok(pieces@) && pieces_size(pieces@) > 0;
                    &&& transacted(before, after, expected, pieces@)
                    &&& final(self).rb_datas@ == old(self).rb_datas@.update(
                        old(self).route(core_index),
                        after,
                    )
                    &&& final(self).workers_num == old(self).workers_num
                    &&& final(self).notify_cb == old(self).notify_cb
                    &&& final(self).notify_ctx == old(self).notify_ctx
                    &&& final(self).is_watching == (old(self).is_watching && !wrote)
                    &&& r == (if !pieces_ok(pieces@) {
                        Err::<Option<Notify>, i32>(STATUS_INSUFFICIENT_RESOURCES)
                    } else if wrote {
                        Ok(old(self).due())
                    } else {
                        Ok(None)
                    })
                }
            }),
    {
        let i: usize = self.route_index(core_index);
        let start: usize = match self.rb_datas[i].reserve_space(expected) {
            Ok(start) => start,
            Err(e) => {
                assert(self.rb_datas@ =~= old(self).rb_datas@);
                return Err(e);
            },
        };
        let ghost claimed = *self;
        let ghost claimed_ring = self.rb_datas@[i as int];
        assert(self.rb_datas@ =~= old(self).rb_datas@.update(i as int, claimed_ring));
        assert(self.rb_datas@ =~= claimed.rb_datas@.update(i as int, claimed_ring));
        let mut tx = RingBufferTransaction { core_index, start_tail: start, offset: 0 };
        let mut outcome: Result<(), i32> = Ok(());
        let mut j: usize = 0;
        assert(pieces@.take(0) =~= Seq::empty());
        while j < pieces.len() && outcome.is_ok()
            invariant
                j <= pieces@.len(),
                claimed.wf(),
                self.wf(),
                self.same_but_ring(&claimed, core_index),
                i == claimed.route(core_index),
                claimed_ring == claimed.ring(core_index),
                self.ring(core_index) == (RingBufferData {
                    buf: self.ring(core_index).buf,
                    ..claimed_ring
                }),
                pieces_wf(pieces@),
                pieces_size(pieces@) <= claimed.ring_size(),
                tx.core_index == core_index,
                tx.start_tail == start,
                outcome is Ok ==> {
                    &&& pieces_ok(pieces@.take(j as int))
                    &&& tx.offset == pieces_size(pieces@.take(j as int))
                    &&& self.ring(core_index).buf@ == pieces_written(
                        claimed_ring.buf@,
                        start as int,
                        pieces@.take(j as int),
                    )
                },
                outcome matches Err(e) ==> {
                    &&& e == STATUS_INSUFFICIENT_RESOURCES
                    &&& !pieces_ok(pieces@)
                    &&& self.ring(core_index).buf@ == pieces_written(
                        claimed_ring.buf@,
                        start as int,
                        pieces@,
                    )
                },
            decreases pieces@.len() - j,
        {
            proof {
                lemma_pieces_next(pieces@, j as int);
                lemma_pieces_prefix(pieces@, j + 1);
                lemma_piece_bytes(pieces@[j as int]);
            }
            outcome = match &pieces[j] {
                Piece::Slice(b) => {
                    tx.push_slice_only(self, b.as_slice());
                    Ok(())
                },
                Piece::Record(h, b) => {
                    tx.push_slice(self, h, b.as_slice());
                    Ok(())
                },
                Piece::Mdl { chain, offset, length } => {
                    tx.push_mdl_only(self, chain, *offset, *length)
                },
                Piece::MdlRecord { header, chain, offset, length } => {
                    tx.push_mdl(self, header, chain, *offset, *length)
                },
            };
            j += 1;
            proof {
                assert(self.rb_datas@ =~= claimed.rb_datas@.update(
                    i as int,
                    self.rb_datas@[i as int],
                ));
                if outcome is Err {
                    lemma_pieces_stop(claimed_ring.buf@, start as int, pieces@, j as int);
                }
            }
        }
        if outcome.is_ok() {
            assert(pieces@.take(j as int) =~= pieces@);
        }
        self.finish(tx, expected, outcome)
    }

    /// Ends a transaction whose pieces have been written, or could not be written.
    fn finish(
        &mut self,
        tx: RingBufferTransaction,
        expected: usize,
        outcome: Result<(), i32>,
    ) -> (r: Result<Option<Notify>, i32>)
        requires
            old(self).wf(),
            old(self).ring(tx.core_index).is_cas ==> old(self).ring(tx.core_index).tail
                == tx.start_tail,
            old(self).ring(tx.core_index).is_cas && !(outcome is Ok && tx.offset > 0) ==> expected
                >= 8,
            8 <= old(self).ring_size() || !(old(self).ring(tx.core_index).is_cas && !(outcome is Ok
                && tx.offset > 0)),
        ensures
            final(self).wf(),
            ({
                let before = old(self).ring(tx.core_index);
                let after = final(self).ring(tx.core_index);
                let wrote = outcome is Ok && tx.offset > 0;
                &&& final(self).rb_datas@ == old(self).rb_datas@.update(
                    old(self).route(tx.core_index),
                    after,
                )
                &&& final(self).workers_num == old(self).workers_num
                &&& final(self).notify_cb == old(self).notify_cb
                &&& final(self).notify_ctx == old(self).notify_ctx
                &&& final(self).is_watching == (old(self).is_watching && !wrote)
                &&& if wrote {
                    after == (RingBufferData {
                        tail: tx.start_tail.wrapping_add(tx.offset),
                        ..before
                    })
                } else if before.is_cas {
                    &&& after == (RingBufferData {
                        tail: tx.start_tail.wrapping_add(expected),
                        buf: after.buf,
                        ..before
                    })
                    &&& after.buf@ == cells::splice(
                        before.buf@,
                        tx.start_tail as int,
                        records::header_bytes(records::dummy_header(expected as int)),
                    )
                } else {
                    after == before
                }
                &&& r == (match outcome {
                    Err(e) => Err(e),
                    Ok(_) => if wrote {
                        Ok::<Option<Notify>, i32>(old(self).due())
                    } else {
                        Ok(None)
                    },
                })
            }),
    {
        let i: usize = self.route_index(tx.core_index);
        match outcome {
            Ok(_) if tx.offset > 0 => {
                self.rb_datas[i].commit_tail(tx.start_tail, tx.offset);
                assert(self.rb_datas@ =~= old(self).rb_datas@.update(
                    i as int,
                    self.rb_datas@[i as int],
                ));
                if self.test_and_clear_watching_flag() {
                    if let Some(callback) = self.notify_cb {
                        return Ok(Some(Notify { callback, context: self.notify_ctx }));
                    }
                }
                Ok(None)
            },
            other => {
                if self.rb_datas[i].is_cas() {
                    let dummy = RecordHeader {
                        len: ((expected - RECORD_HEADER_SIZE) as u64 % 0x1_0000_0000u64) as u32,
                        ty: DUMMY_MARKER,
                    };
                    let bytes: Vec<u8> = records::encode_header(&dummy);
                    proof {
                        records::lemma_header_round_trip(dummy, Seq::empty());
                    }
                    self.rb_datas[i].push_slice_at(tx.start_tail, &bytes, 0);
                    self.rb_datas[i].commit_tail(tx.start_tail, expected);
                }
                assert(self.rb_datas@ =~= old(self).rb_datas@.update(
                    i as int,
                    self.rb_datas@[i as int],
                ));
                match other {
                    Ok(_) => Ok(None),
                    Err(e) => Err(e),
                }
            },
        }
    }
}

proof fn lemma_pieces_next(pieces: Seq<Piece>, j: int)
    requires
        0 <= j < pieces.len(),
    ensures
        pieces.take(j + 1).drop_last() == pieces.take(j),
        pieces.take(j + 1).last() == pieces[j],
        pieces_size(pieces.take(j + 1)) == pieces_size(pieces.take(j)) + pieces[j].size(),
        pieces_ok(pieces.take(j + 1)) <==> pieces_ok(pieces.take(j)) && pieces[j].bytes().1,
{
    let next = pieces.take(j + 1);
    assert(next.drop_last() =~= pieces.take(j));
    if pieces_ok(next) {
        assert(next[j].bytes().1);
        assert forall|i: int| 0 <= i < j implies (#[trigger] pieces.take(j)[i]).bytes().1 by {
            assert(next[i].bytes().1);
        }
    } else if pieces_ok(pieces.take(j)) {
        let i = choose|i: int| 0 <= i < next.len() && !(#[trigger] next[i]).bytes().1;
        if i < j {
            assert(pieces.take(j)[i].bytes().1);
        }
    }
}

proof fn lemma_pieces_prefix(pieces: Seq<Piece>, n: int)
    requires
        0 <= n <= pieces.len(),
    ensures
        pieces_size(pieces.take(n)) <= pieces_size(pieces),
    decreases pieces.len() - n,
{
    if n < pieces.len() {
        lemma_pieces_next(pieces, n);
        lemma_pieces_prefix(pieces, n + 1);
    } else {
        assert(pieces.take(n) =~= pieces);
    }
}

proof fn lemma_pieces_stop(buf: Seq<u8>, pos: int, pieces: Seq<Piece>, n: int)
    requires
        0 <= n <= pieces.len(),
        !pieces_ok(pieces.take(n)),
    ensures
        !pieces_ok(pieces),
        pieces_written(buf, pos, pieces) == pieces_written(buf, pos, pieces.take(n)),
    decreases pieces.len() - n,
{
    if n < pieces.len() {
        lemma_pieces_next(pieces, n);
        lemma_pieces_stop(buf, pos, pieces, n + 1);
    } else {
        assert(pieces.take(n) =~= pieces);
    }
}

pub proof fn lemma_piece_bytes(p: Piece)
    requires
        p.wf(),
    ensures
        p.bytes().0.len() <= p.size(),
{
    match p {
        Piece::Mdl { chain, offset, length } => {
            data::lemma_gathered_len(chain@, offset as nat, length as nat);
        },
        Piece::MdlRecord { header, chain, offset, length } => {
            data::lemma_gathered_len(chain@, offset as nat, length as nat);
        },
        _ => {},
    }
}

/// The bytes of the pieces, one behind the other.
pub open spec fn pieces_bytes(pieces: Seq<Piece>) -> Seq<u8>
    decreases pieces.len(),
{
    if pieces.len() == 0 {
        Seq::empty()
    } else {
        pieces_bytes(pieces.drop_last()) + pieces.last().bytes().0
    }
}

/// Every piece can be read and has as many bytes as it says.
pub open spec fn pieces_full(pieces: Seq<Piece>) -> bool {
    forall|i: int|
        0 <= i < pieces.len() ==> (#[trigger] pieces[i]).bytes().1 && pieces[i].bytes().0.len()
            == pieces[i].size()
}

proof fn lemma_full_pieces(buf: Seq<u8>, pos: int, pieces: Seq<Piece>)
    requires
        0 < buf.len(),
        pieces_full(pieces),
        pieces_size(pieces) <= buf.len(),
    ensures
        pieces_ok(pieces),
        pieces_bytes(pieces).len() == pieces_size(pieces),
        pieces_written(buf, pos, pieces) == cells::splice(buf, pos, pieces_bytes(pieces)),
    decreases pieces.len(),
{
    if pieces.len() == 0 {
        cells::lemma_splice_nothing(buf, pos);
    } else {
        let init = pieces.drop_last();
        assert forall|i: int| 0 <= i < init.len() implies (#[trigger] init[i]).bytes().1
            && init[i].bytes().0.len() == init[i].size() by {
            assert(pieces[i].bytes().1);
        }
        lemma_full_pieces(buf, pos, init);
        assert(pieces[pieces.len() - 1].bytes().1);
        cells::lemma_splice_twice(buf, pos, pieces_bytes(init), pieces.last().bytes().0);
    }
}

/// What a transaction writes becomes readable as one stretch behind everything that was unread
/// before.
pub proof fn law_transaction_appends(
    before: RingBufferData,
    after: RingBufferData,
    expected: usize,
    pieces: Seq<Piece>,
)
    requires
        before.wf(),
        before.unread_len() + expected <= before.size,
        pieces_full(pieces),
        0 < pieces_size(pieces) <= expected,
        transacted(before, after, expected, pieces),
    ensures
        after.unread() == before.unread() + pieces_bytes(pieces),
        after.consistent(),
        pieces_size(pieces) == expected && before.settled() ==> after.settled(),
{
    cells::lemma_pow2_size(before.size);
    lemma_full_pieces(before.buf@, before.tail as int, pieces);
    data::law_committed_bytes_come_last(before, after, pieces_bytes(pieces));
}

/// A transaction that fails in a ring with many producers leaves a dummy record behind everything
/// that was unread before, and no claim open.
pub proof fn law_failed_transaction_leaves_dummy(
    before: RingBufferData,
    after: RingBufferData,
    expected: usize,
    pieces: Seq<Piece>,
)
    requires
        before.wf(),
        before.is_cas,
        before.settled(),
        before.unread_len() + expected <= before.size,
        8 <= expected,
        pieces_wf(pieces),
        pieces_size(pieces) <= expected,
        !(pieces_ok(pieces) && pieces_size(pieces) > 0),
        transacted(before, after, expected, pieces),
    ensures
        after.settled(),
        after.consistent(),
        exists|filler: Seq<u8>|
            filler.len() == expected - 8 && after.unread() == before.unread() + (
            records::header_bytes(records::dummy_header(expected as int)) + filler),
{
    let head = before.head as int;
    let n = before.unread_len() as nat;
    let start = before.tail as int;
    let buf = pieces_written(before.buf@, start, pieces);
    let dummy = records::header_bytes(records::dummy_header(expected as int));
    records::lemma_header_round_trip(records::dummy_header(expected as int), Seq::empty());
    cells::lemma_pow2_size(before.size);
    cells::lemma_wrapping_cell(before.head, before.unread_len(), before.size);
    lemma_written_keeps(before.buf@, head, n, start, pieces);
    cells::lemma_same_cell(buf, start, head + n);
    cells::lemma_window_extended(buf, head, n, dummy);
    let w = after.unread();
    let m = (n + 8) as int;
    cells::lemma_window_part(after.buf@, head, (n + expected) as nat, 0, m);
    assert(w.subrange(0, m) == before.unread() + dummy);
    let filler = w.subrange(m, (n + expected) as int);
    assert(w =~= before.unread() + (dummy + filler)) by {
        assert(w =~= w.subrange(0, m) + filler);
    }
}

/// Writing pieces where there is room does not change what is unread.
pub proof fn lemma_written_keeps(buf: Seq<u8>, head: int, n: nat, start: int, pieces: Seq<Piece>)
    requires
        0 < buf.len(),
        pieces_wf(pieces),
        n + pieces_size(pieces) <= buf.len(),
        start % (buf.len() as int) == (head + n) % (buf.len() as int),
    ensures
        pieces_written(buf, start, pieces).len() == buf.len(),
        cells::window(pieces_written(buf, start, pieces), head, n) == cells::window(buf, head, n),
    decreases pieces.len(),
{
    if pieces.len() > 0 {
        let init = pieces.drop_last();
        assert(pieces_wf(init)) by {
            assert forall|i: int| 0 <= i < init.len() implies (#[trigger] init[i]).wf() by {
                assert(pieces[i].wf());
            }
        }
        lemma_written_keeps(buf, head, n, start, init);
        let b = pieces_written(buf, start, init);
        let off = pieces_size(init) as int;
        assert(pieces[pieces.len() - 1].wf());
        lemma_piece_bytes(pieces.last());
        vstd::arithmetic::div_mod::lemma_add_mod_noop(start, off, buf.len() as int);
        vstd::arithmetic::div_mod::lemma_add_mod_noop(head + n, off, buf.len() as int);
        cells::lemma_same_cell(b, start + off, head + n + off);
        cells::lemma_window_untouched(b, head, n, head + n + off, pieces.last().bytes().0);
    }
}

/// Each worker's processor has a ring of its own; all others share that of the last worker, and no
/// other ring has more than one producer.
pub proof fn law_processors_have_rings(rb: PerCpuRingBuffer, a: u32, b: u32)
    requires
        rb.wf(),
    ensures
        0 <= rb.route(a) < rb.rb_datas@.len(),
        a < rb.workers_num && b < rb.workers_num && a != b ==> rb.route(a) != rb.route(b),
        a >= rb.workers_num ==> rb.route(a) == rb.route((rb.workers_num - 1) as u32) && rb.ring(
            a,
        ).is_cas,
        a + 1 < rb.workers_num ==> !rb.ring(a).is_cas && (b != a ==> rb.route(b) != rb.route(a)),
{
}

/// Who waits is called: with the callback and the context that were set, and only where both a
/// callback is set and somebody waits.
pub proof fn law_waiting_consumer_is_due(rb: PerCpuRingBuffer, callback: u64, context: u64)
    ensures
        (PerCpuRingBuffer {
            notify_cb: Some(callback),
            notify_ctx: context,
            is_watching: true,
            ..rb
        }).due() == Some(Notify { callback, context }),
        (PerCpuRingBuffer { is_watching: false, ..rb }).due() is None,
        (PerCpuRingBuffer { notify_cb: None, ..rb }).due() is None,
        forall|n: u32, active: u32| n > 0 ==> #[trigger] worker_count(n, active) == n,
        forall|active: u32| #[trigger] worker_count(0, active) == active,
{
}

} // verus!
