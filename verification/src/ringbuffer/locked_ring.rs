//! A ring that many writers share through a queue: whoever holds the drain lock writes the queued
//! items for all.
use vstd::arithmetic::power2::is_pow2;
use vstd::prelude::*;
use crate::ringbuffer::cas_queue::LockFreeQueue;
use crate::ringbuffer::per_cpu_ring;
use crate::ringbuffer::per_cpu_ring::{Notify, PerCpuRingBuffer, Piece};
use crate::ringbuffer::records;
use crate::ringbuffer::records::{RecordHeader, RECORD_HEADER_SIZE};
use crate::status::{STATUS_INSUFFICIENT_RESOURCES, STATUS_INVALID_DEVICE_STATE};

verus! {

pub enum LockedRingItem {
    Slice(Vec<u8>),
    Record { header: RecordHeader, data: Vec<u8> },
}

impl LockedRingItem {
    /// The bytes that the item puts into the ring.
    pub open spec fn bytes(&self) -> Seq<u8> {
        match self {
            LockedRingItem::Slice(data) => data@,
            LockedRingItem::Record { header, data } => records::header_bytes(*header) + data@,
        }
    }

    /// The item puts something into the ring, and its length can be counted.
    pub open spec fn wf(&self) -> bool {
        0 < self.bytes().len() <= usize::MAX
    }
}

pub struct LockedRingBuffer {
    pub inner: PerCpuRingBuffer,
    pub queue: LockFreeQueue<LockedRingItem>,
    pub drain_lock: bool,
}

/// What is unread in a ring of `size` bytes after `items` were written in their order; those for
/// which there is no room are lost.
pub open spec fn drained(unread: Seq<u8>, size: nat, items: Seq<Seq<u8>>) -> Seq<u8>
    decreases items.len(),
{
    if items.len() == 0 {
        unread
    } else {
        let next = if unread.len() + items[0].len() <= size {
            unread + items[0]
        } else {
            unread
        };
        drained(next, size, items.drop_first())
    }
}

impl LockedRingBuffer {
    pub open spec fn wf(&self) -> bool {
        &&& self.inner.wf()
        &&& self.inner.workers_num == 1
        &&& self.inner.ring(0).consistent()
        &&& self.inner.ring(0).settled()
        &&& forall|i: int| 0 <= i < self.queue@.len() ==> (#[trigger] self.queue@[i]).wf()
    }

    /// The bytes in the ring that the consumer has not read.
    pub open spec fn unread(&self) -> Seq<u8> {
        self.inner.ring(0).unread()
    }

    /// The bytes of the items that wait to be written.
    pub open spec fn queued(&self) -> Seq<Seq<u8>> {
        self.queue@.map_values(|item: LockedRingItem| item.bytes())
    }

    /// A ring of `size` zeros with nothing unread and nobody to call, an empty queue and a free
    /// lock.
    pub open spec fn is_new(&self, size: usize) -> bool {
        &&& self.wf()
        &&& self.inner.is_new(size, 1)
        &&& self.unread() == Seq::<u8>::empty()
        &&& self.queue@.len() == 0
        &&& !self.drain_lock
    }

    /// Makes an empty ring of `size` bytes.
    pub fn allocate(size: usize) -> (r: Result<LockedRingBuffer, i32>)
        ensures
            match r {
                Ok(rb) => is_pow2(size as int) && rb.is_new(size),
                Err(e) => !is_pow2(size as int) && e == STATUS_INVALID_DEVICE_STATE,
            },
    {
        match PerCpuRingBuffer::allocate(size, 1, 0) {
            Ok(inner) => {
                let rb = LockedRingBuffer { inner, queue: LockFreeQueue::new(), drain_lock: false };
                assert(rb.inner.rb_datas@[0].unread() =~= Seq::empty());
                Ok(rb)
            },
            Err(e) => Err(e),
        }
    }

    pub fn set_notify_callback(&mut self, cb: Option<u64>, ctx: u64)
        ensures
            *final(self) == (LockedRingBuffer { inner: final(self).inner, ..*old(self) }),
            final(self).inner == (PerCpuRingBuffer {
                notify_cb: cb,
                notify_ctx: ctx,
                ..old(self).inner
            }),
    {
        self.inner.set_notify_callback(cb, ctx);
    }

    pub fn set_watching(&mut self)
        ensures
            *final(self) == (LockedRingBuffer { inner: final(self).inner, ..*old(self) }),
            final(self).inner == (PerCpuRingBuffer { is_watching: true, ..old(self).inner }),
    {
        self.inner.set_watching();
    }

    pub fn clear_watching(&mut self)
        ensures
            *final(self) == (LockedRingBuffer { inner: final(self).inner, ..*old(self) }),
            final(self).inner == (PerCpuRingBuffer { is_watching: false, ..old(self).inner }),
    {
        self.inner.clear_watching();
    }

    /// `self` is `before` after its queue, with `bytes` at the end, was drained; or, where another
    /// writer holds the drain lock, after `bytes` were queued.
    pub open spec fn took(&self, before: &LockedRingBuffer, bytes: Seq<u8>) -> bool {
        &&& self.wf()
        &&& self.drain_lock == before.drain_lock
        &&& self.inner.ring_size() == before.inner.ring_size()
        &&& self.inner.ring(0).head == before.inner.ring(0).head
        &&& if before.drain_lock {
            self.queued() == before.queued().push(bytes) && self.inner == before.inner
        } else {
            self.queued().len() == 0 && self.unread() == drained(
                before.unread(),
                before.inner.ring_size() as nat,
                before.queued().push(bytes),
            )
        }
    }

    /// Queues bytes and drains the queue. The result says whom to call, if somebody waits.
    pub fn push_slice(&mut self, data: &[u8]) -> (r: Result<Option<Notify>, i32>)
        requires
            old(self).wf(),
            data@.len() > 0,
        ensures
            r is Ok,
            final(self).took(old(self), data@),
            told(old(self), final(self), r->Ok_0),
    {
        let copy = vstd::slice::slice_to_vec(data);
        assert(copy.len() == copy@.len());
        let item = LockedRingItem::Slice(copy);
        self.queue.enqueue(item);
        assert(self.queued() =~= old(self).queued().push(data@));
        Ok(self.drain())
    }

    /// Queues a record and drains the queue. The result says whom to call, if somebody waits.
    pub fn push_record(&mut self, header: &RecordHeader, data: &[u8]) -> (r: Result<
        Option<Notify>,
        i32,
    >)
        requires
            old(self).wf(),
            data@.len() + 8 <= usize::MAX,
        ensures
            r is Ok,
            final(self).took(old(self), records::header_bytes(*header) + data@),
            told(old(self), final(self), r->Ok_0),
    {
        proof {
            records::lemma_header_round_trip(*header, data@);
        }
        let item = LockedRingItem::Record {
            header: *header,
            data: vstd::slice::slice_to_vec(data),
        };
        self.queue.enqueue(item);
        assert(self.queued() =~= old(self).queued().push(records::header_bytes(*header) + data@));
        Ok(self.drain())
    }

    /// Writes all queued items, unless another writer holds the drain lock and does so.
    fn drain(&mut self) -> (notify: Option<Notify>)
        requires
            old(self).wf(),
        ensures
            final(self).wf(),
            final(self).drain_lock == old(self).drain_lock,
            final(self).inner.ring_size() == old(self).inner.ring_size(),
            final(self).inner.ring(0).head == old(self).inner.ring(0).head,
            old(self).drain_lock ==> *final(self) == *old(self),
            !old(self).drain_lock ==> final(self).queued().len() == 0 && final(self).unread()
                == drained(
                old(self).unread(),
                old(self).inner.ring_size() as nat,
                old(self).queued(),
            ),
            told(old(self), final(self), notify),
    {
        if self.drain_lock {
            return None;
        }
        self.drain_lock = true;
        let mut notify: Option<Notify> = None;
        let ghost size = self.inner.ring_size() as nat;
        while !self.queue.is_empty()
            invariant
                self.wf(),
                self.drain_lock,
                self.inner.ring_size() == size,
                size == old(self).inner.ring_size(),
                self.inner.ring(0).head == old(self).inner.ring(0).head,
                drained(self.unread(), size, self.queued()) == drained(
                    old(self).unread(),
                    size,
                    old(self).queued(),
                ),
                self.unread().len() >= old(self).unread().len(),
                told(old(self), self, notify),
            decreases self.queue@.len(),
        {
            let ghost before = *self;
            let item = self.queue.dequeue();
            let mut pieces: Vec<Piece> = Vec::new();
            let mut expected: usize = 0;
            match item {
                Some(LockedRingItem::Slice(data)) => {
                    expected = data.len();
                    pieces.push(Piece::Slice(data));
                },
                Some(LockedRingItem::Record { header, data }) => {
                    proof {
                        records::lemma_header_round_trip(header, data@);
                    }
                    expected = RECORD_HEADER_SIZE + data.len();
                    pieces.push(Piece::Record(header, data));
                },
                None => {},
            }
            proof {
                let bytes = before.queued()[0];
                assert(before.queue@[0].wf());
                reveal_with_fuel(per_cpu_ring::pieces_bytes, 2);
                reveal_with_fuel(per_cpu_ring::pieces_size, 2);
                assert(pieces@.drop_last() =~= Seq::empty());
                assert(per_cpu_ring::pieces_bytes(pieces@) =~= bytes);
                assert(per_cpu_ring::pieces_size(pieces@) == expected);
                assert(self.queued() =~= before.queued().drop_first());
                assert forall|i: int| 0 <= i < self.queue@.len() implies (#[trigger]
                self.queue@[i]).wf() by {
                    assert(self.queue@[i] == before.queue@[i + 1]);
                }
            }
            if expected <= self.inner.get_ring_buffer_size() {
                let ring_before = Ghost(self.inner.ring(0));
                match self.inner.transaction(0, expected, &pieces) {
                    Ok(n) => {
                        proof {
                            per_cpu_ring::law_transaction_appends(
                                ring_before@,
                                self.inner.ring(0),
                                expected,
                                pieces@,
                            );
                        }
                        if n.is_some() {
                            notify = n;
                        }
                    },
                    Err(_) => {},
                }
            }
        }
        self.drain_lock = false;
        notify
    }
}

/// Who is to be called after a drain: the waiting consumer, once, if bytes have arrived.
pub open spec fn told(
    before: &LockedRingBuffer,
    after: &LockedRingBuffer,
    notify: Option<Notify>,
) -> bool {
    let arrived = after.unread().len() != before.unread().len();
    &&& after.inner.notify_cb == before.inner.notify_cb
    &&& after.inner.notify_ctx == before.inner.notify_ctx
    &&& after.inner.is_watching == (before.inner.is_watching && !arrived)
    &&& notify == (if arrived {
        before.inner.due()
    } else {
        None
    })
}

/// The bytes of all items, one after the other.
pub open spec fn in_order(items: Seq<Seq<u8>>) -> Seq<u8>
    decreases items.len(),
{
    if items.len() == 0 {
        Seq::empty()
    } else {
        items[0] + in_order(items.drop_first())
    }
}

/// Where there is room for all items, all of them are behind what was unread, in their order. In
/// any case what was unread stays in front, and the ring does not run over.
pub proof fn law_drained_in_order(unread: Seq<u8>, size: nat, items: Seq<Seq<u8>>)
    requires
        unread.len() <= size,
    ensures
        unread.len() + in_order(items).len() <= size ==> drained(unread, size, items) == unread
            + in_order(items),
        drained(unread, size, items).len() <= size,
        drained(unread, size, items).len() >= unread.len(),
        drained(unread, size, items).take(unread.len() as int) == unread,
    decreases items.len(),
{
    if items.len() == 0 {
        assert(unread + Seq::<u8>::empty() =~= unread);
        assert(unread.take(unread.len() as int) =~= unread);
    } else {
        let rest = items.drop_first();
        let next = if unread.len() + items[0].len() <= size {
            unread + items[0]
        } else {
            unread
        };
        law_drained_in_order(next, size, rest);
        assert(unread + (items[0] + in_order(rest)) =~= (unread + items[0]) + in_order(rest));
        let all = drained(unread, size, items);
        assert(all.take(unread.len() as int) =~= unread) by {
            assert(all.take(next.len() as int) == next);
            assert forall|i: int| 0 <= i < unread.len() implies all[i] == unread[i] by {
                assert(all.take(next.len() as int)[i] == next[i]);
            }
        }
    }
}

/// An item that is too long is lost, and no other one because of it.
pub proof fn law_only_what_is_too_long_is_lost(
    unread: Seq<u8>,
    size: nat,
    item: Seq<u8>,
    rest: Seq<Seq<u8>>,
)
    ensures
        unread.len() + item.len() > size ==> drained(unread, size, seq![item] + rest) == drained(
            unread,
            size,
            rest,
        ),
        unread.len() + item.len() <= size ==> drained(unread, size, seq![item] + rest) == drained(
            unread + item,
            size,
            rest,
        ),
{
    assert((seq![item] + rest).drop_first() =~= rest);
}

} // verus!
