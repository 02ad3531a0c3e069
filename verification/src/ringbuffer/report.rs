//! Reporting one packet: a record with its address and its bytes.
use vstd::prelude::*;
use crate::ringbuffer::cells;
use crate::ringbuffer::data::RingBufferData;
use crate::ringbuffer::per_cpu_ring;
use crate::ringbuffer::per_cpu_ring::{Notify, PerCpuRingBuffer, Piece};
use crate::ringbuffer::records;
use crate::ringbuffer::records::{RecordHeader, ADDRESS_SIZE, RECORD_HEADER_SIZE};
use crate::status::STATUS_INSUFFICIENT_RESOURCES;
use crate::types::DivertAddress;

verus! {

broadcast use crate::bytes::lemma_u32_le_len;

/// The record of a packet of `len` bytes up to where the packet starts.
pub open spec fn record_start(a: DivertAddress, len: nat) -> Seq<u8> {
    records::header_bytes(
        RecordHeader { len: ((80 + len) % 0x1_0000_0000) as u32, ty: 0 },
    ) + records::address_bytes(a)
}

/// The cells of a ring after a packet of `len` bytes was reported: its record up to the bytes that
/// could be read, with the head of a dummy record over it where that has to fill the place.
pub open spec fn cells_after(
    before: RingBufferData,
    a: DivertAddress,
    body: (Seq<u8>, bool),
    len: nat,
) -> Seq<u8> {
    let at = before.tail as int;
    let written = cells::splice(before.buf@, at, record_start(a, len) + body.0);
    if !body.1 && before.is_cas {
        cells::splice(written, at, records::header_bytes(records::dummy_header(88 + len as int)))
    } else {
        written
    }
}

/// What reporting a packet of `len` bytes does to a ring. `body` holds those of its bytes that
/// are there, and whether they could be read.
///
/// Where there is no room the ring stays as it is. Bytes that could not be read leave a dummy
/// record in a ring with many producers, and nothing in another. Where bytes are missing at the
/// end, the cells stay as they were.
pub open spec fn reported(
    before: RingBufferData,
    after: RingBufferData,
    a: DivertAddress,
    body: (Seq<u8>, bool),
    len: nat,
) -> bool {
    let total = 88 + len;
    &&& after.head == before.head
    &&& before.unread_len() + total <= before.size ==> after.buf@ == cells_after(
        before,
        a,
        body,
        len,
    )
    &&& if before.unread_len() + total > before.size {
        after == before
    } else if !body.1 {
        if before.is_cas {
            exists|filler: Seq<u8>| #[trigger]
                filler.len() == total - 8 && after.unread() == before.unread() + (
                records::header_bytes(records::dummy_header(total as int)) + filler)
        } else {
            after.unread() == before.unread()
        }
    } else if body.0.len() == len {
        after.unread() == before.unread() + records::packet_record(a, body.0)
    } else {
        &&& after.unread().len() == before.unread().len() + total
        &&& after.unread().take((before.unread().len() + 88 + body.0.len()) as int)
            == before.unread() + (record_start(a, len) + body.0)
    }
}

/// The rings after one packet was reported in that of processor `cpu`, and what came of it.
pub open spec fn packet_pushed(
    before: PerCpuRingBuffer,
    after: PerCpuRingBuffer,
    cpu: u32,
    a: DivertAddress,
    body: (Seq<u8>, bool),
    len: nat,
    r: Result<Option<Notify>, i32>,
) -> bool {
    let room = before.ring(cpu).unread_len() + 88 + len <= before.ring_size();
    &&& after.workers_num == before.workers_num
    &&& after.ring_size() == before.ring_size()
    &&& after.notify_cb == before.notify_cb
    &&& after.notify_ctx == before.notify_ctx
    &&& after.is_watching == (before.is_watching && !(room && body.1))
    &&& after.rb_datas@ == before.rb_datas@.update(before.route(cpu), after.ring(cpu))
    &&& reported(before.ring(cpu), after.ring(cpu), a, body, len)
    &&& r == (if room && body.1 {
        Ok::<Option<Notify>, i32>(before.due())
    } else {
        Err(STATUS_INSUFFICIENT_RESOURCES)
    })
}

proof fn lemma_two_pieces(pieces: Seq<Piece>, buf: Seq<u8>, pos: int)
    requires
        pieces.len() == 2,
        pieces[0].bytes().1,
        pieces[0].bytes().0.len() == pieces[0].size(),
        pieces[1].bytes().0.len() <= pieces[1].size(),
        pieces[0].size() + pieces[1].size() <= buf.len(),
        0 < buf.len(),
    ensures
        per_cpu_ring::pieces_ok(pieces) == pieces[1].bytes().1,
        per_cpu_ring::pieces_size(pieces) == pieces[0].size() + pieces[1].size(),
        per_cpu_ring::pieces_written(buf, pos, pieces) == cells::splice(
            buf,
            pos,
            pieces[0].bytes().0 + pieces[1].bytes().0,
        ),
{
    let one = pieces.drop_last();
    let none = one.drop_last();
    assert(one.len() == 1 && one.last() == pieces[0]);
    assert(none =~= Seq::empty());
    assert(per_cpu_ring::pieces_size(none) == 0);
    assert(per_cpu_ring::pieces_size(one) == pieces[0].size());
    assert(per_cpu_ring::pieces_ok(none));
    assert(per_cpu_ring::pieces_ok(one));
    assert(per_cpu_ring::pieces_written(buf, pos, none) == buf);
    assert(per_cpu_ring::pieces_written(buf, pos, one) == cells::splice(
        buf,
        pos,
        pieces[0].bytes().0,
    ));
    assert(pieces.last() == pieces[1]);
    cells::lemma_splice_twice(buf, pos, pieces[0].bytes().0, pieces[1].bytes().0);
    if pieces[1].bytes().1 {
        assert forall|i: int| 0 <= i < pieces.len() implies (#[trigger] pieces[i]).bytes().1 by {}
    }
}

/// A ring whose tail moves on by more than is written still starts with what was unread and what
/// was written.
proof fn lemma_short_write(before: RingBufferData, after: RingBufferData, bytes: Seq<u8>, total: usize)
    requires
        before.wf(),
        before.unread_len() + total <= before.size,
        bytes.len() <= total,
        after.size == before.size,
        after.head == before.head,
        after.tail == before.tail.wrapping_add(total),
        after.buf@ == cells::splice(before.buf@, before.tail as int, bytes),
    ensures
        after.unread_len() == before.unread_len() + total,
        after.unread().take((before.unread_len() + bytes.len()) as int) == before.unread() + bytes,
{
    let n = before.unread_len();
    cells::lemma_pow2_size(before.size);
    cells::lemma_wrapping_cell(before.head, n, before.size);
    cells::lemma_same_cell(before.buf@, before.tail as int, before.head + n);
    cells::lemma_window_extended(before.buf@, before.head as int, n as nat, bytes);
    let m = (n + bytes.len()) as int;
    cells::lemma_window_part(after.buf@, before.head as int, (n + total) as nat, 0, m);
    assert(after.unread().take(m) =~= after.unread().subrange(0, m));
}

/// [`reported`] with the start of the record given as bytes.
spec fn record_reported(
    before: RingBufferData,
    after: RingBufferData,
    start: Seq<u8>,
    body: (Seq<u8>, bool),
    total: nat,
) -> bool {
    let len = total - 88;
    if !body.1 {
        if before.is_cas {
            exists|filler: Seq<u8>| #[trigger]
                filler.len() == total - 8 && after.unread() == before.unread() + (
                records::header_bytes(records::dummy_header(total as int)) + filler)
        } else {
            after.unread() == before.unread()
        }
    } else if body.0.len() == len {
        after.unread() == before.unread() + (start + body.0)
    } else {
        &&& after.unread().len() == before.unread().len() + total
        &&& after.unread().take((before.unread().len() + 88 + body.0.len()) as int)
            == before.unread() + (start + body.0)
    }
}

proof fn lemma_reported(
    before: RingBufferData,
    after: RingBufferData,
    start: Seq<u8>,
    pieces: Seq<Piece>,
    total: usize,
)
    requires
        before.wf(),
        before.settled(),
        before.unread_len() + total <= before.size,
        total >= 88,
        start.len() == 88,
        pieces.len() == 2,
        pieces[0].bytes() == (start, true),
        pieces[0].size() == 88,
        pieces[0].wf(),
        pieces[1].wf(),
        pieces[1].size() == total - 88,
        per_cpu_ring::transacted(before, after, total, pieces),
    ensures
        after.wf(),
        after.consistent(),
        after.settled(),
        record_reported(before, after, start, pieces[1].bytes(), total as nat),
        per_cpu_ring::pieces_ok(pieces) == pieces[1].bytes().1,
        per_cpu_ring::pieces_size(pieces) == total,
{
    let body = pieces[1].bytes();
    let n = before.unread_len();
    cells::lemma_pow2_size(before.size);
    per_cpu_ring::lemma_piece_bytes(pieces[1]);
    lemma_two_pieces(pieces, before.buf@, before.tail as int);
    if body.1 {
        lemma_short_write(before, after, start + body.0, total);
        if body.0.len() == total - 88 {
            assert(after.unread().take((n + total) as int) =~= after.unread());
        }
    } else if before.is_cas {
        per_cpu_ring::law_failed_transaction_leaves_dummy(before, after, total, pieces);
    } else {
        let bytes = start + body.0;
        cells::lemma_wrapping_cell(before.head, n, before.size);
        cells::lemma_same_cell(before.buf@, before.tail as int, before.head + n);
        cells::lemma_window_untouched(
            before.buf@,
            before.head as int,
            n as nat,
            before.head + n,
            bytes,
        );
    }
}

proof fn lemma_start(a: DivertAddress, bytes: Seq<u8>, len: nat)
    requires
        bytes.len() == len,
    ensures
        record_start(a, len).len() == 88,
        record_start(a, len) + bytes == records::packet_record(a, bytes),
{
    records::law_address_round_trip(a);
    records::lemma_header_round_trip(
        RecordHeader { len: ((80 + len) % 0x1_0000_0000) as u32, ty: 0 },
        bytes,
    );
    assert(record_start(a, len) + bytes =~= records::packet_record(a, bytes));
}

/// Reports a packet of `len` bytes, which `body` holds, in the ring of processor `cpu`.
///
/// The result says whom to call, if somebody waits.
pub fn push_packet(
    rb: &mut PerCpuRingBuffer,
    cpu: u32,
    a: &DivertAddress,
    body: Piece,
    len: usize,
) -> (r: Result<Option<Notify>, i32>)
    requires
        old(rb).healthy(),
        body.wf(),
        body.size() == len,
        len + 88 <= usize::MAX,
    ensures
        final(rb).healthy(),
        packet_pushed(*old(rb), *final(rb), cpu, *a, body.bytes(), len as nat, r),
{
    let size: usize = rb.get_ring_buffer_size();
    let total: usize = RECORD_HEADER_SIZE + ADDRESS_SIZE + len;
    let ghost before = *rb;
    let ghost ring = rb.ring(cpu);
    proof {
        assert(before.rb_datas@.update(before.route(cpu), ring) =~= before.rb_datas@);
    }
    if total > size {
        return Err(STATUS_INSUFFICIENT_RESOURCES);
    }
    let header = RecordHeader {
        len: ((ADDRESS_SIZE + len) as u64 % 0x1_0000_0000u64) as u32,
        ty: 0,
    };
    let address: Vec<u8> = records::encode_address(a);
    let ghost given = body.bytes();
    let mut pieces: Vec<Piece> = Vec::new();
    pieces.push(Piece::Record(header, address));
    pieces.push(body);
    proof {
        records::law_address_round_trip(*a);
        cells::lemma_pow2_size(ring.size);
        per_cpu_ring::lemma_piece_bytes(body);
        lemma_two_pieces(pieces@, ring.buf@, ring.tail as int);
        assert(pieces@[0].bytes().0 =~= record_start(*a, len as nat));
    }
    let r = rb.transaction(cpu, total, &pieces);
    proof {
        let after = rb.ring(cpu);
        if ring.unread_len() + total <= ring.size {
            lemma_reported(ring, after, record_start(*a, len as nat), pieces@, total);
            if given.0.len() == len {
                lemma_start(*a, given.0, len as nat);
            }
        }
        assert forall|i: int| 0 <= i < rb.rb_datas@.len() implies (#[trigger]
        rb.rb_datas@[i]).consistent() && rb.rb_datas@[i].settled() by {
            if i != before.route(cpu) {
                assert(rb.rb_datas@[i] == before.rb_datas@[i]);
            }
        }
        assert(rb.rb_datas@[0].size == before.rb_datas@[0].size);
    }
    r
}

/// A packet that was reported in full is what the client finds behind what it had not read yet.
pub proof fn law_reported_packet_is_read(
    before: RingBufferData,
    after: RingBufferData,
    a: DivertAddress,
    packet: Seq<u8>,
)
    requires
        before.unread_len() + 88 + packet.len() <= before.size,
        80 + packet.len() <= u32::MAX,
        reported(before, after, a, (packet, true), packet.len()),
    ensures
        after.unread().take(before.unread().len() as int) == before.unread(),
        records::next_packet(after.unread().skip(before.unread().len() as int)) == Some(
            records::FoundPacket {
                skipped: 0,
                total: 88 + packet.len(),
                address: records::address_bytes(a),
                payload: packet,
            },
        ),
{
    let record = records::packet_record(a, packet);
    let n = before.unread().len() as int;
    assert(after.unread().take(n) =~= before.unread());
    assert(after.unread().skip(n) =~= record + Seq::empty());
    records::law_packet_record_is_found(a, packet, Seq::empty());
}

/// A consumer that waits is called for the first packet that arrives, and not again until it waits
/// again.
pub proof fn law_consumer_is_called_once(
    a: PerCpuRingBuffer,
    b: PerCpuRingBuffer,
    c: PerCpuRingBuffer,
    cpu: u32,
    x: DivertAddress,
    y: DivertAddress,
    first: Seq<u8>,
    second: Seq<u8>,
    r: Result<Option<Notify>, i32>,
    s: Result<Option<Notify>, i32>,
    callback: u64,
)
    requires
        a.is_watching,
        a.notify_cb == Some(callback),
        packet_pushed(a, b, cpu, x, (first, true), first.len(), r),
        packet_pushed(b, c, cpu, y, (second, true), second.len(), s),
        a.ring(cpu).unread_len() + 88 + first.len() <= a.ring_size(),
    ensures
        r == Ok::<Option<Notify>, i32>(Some(Notify { callback, context: a.notify_ctx })),
        s is Ok ==> s == Ok::<Option<Notify>, i32>(None),
{
}

/// A packet is taken exactly if the ring of its processor has room for it and the 88 bytes in front
/// of it. Where it has not, no ring changes, and who waits goes on waiting. No other processor's
/// ring changes in any case.
pub proof fn law_packet_needs_room(
    before: PerCpuRingBuffer,
    after: PerCpuRingBuffer,
    cpu: u32,
    other: u32,
    a: DivertAddress,
    packet: Seq<u8>,
    r: Result<Option<Notify>, i32>,
)
    requires
        before.wf(),
        after.wf(),
        packet_pushed(before, after, cpu, a, (packet, true), packet.len(), r),
    ensures
        r is Ok <==> before.ring(cpu).unread_len() + packet.len() + 88 <= before.ring_size(),
        r is Err ==> after.rb_datas@ == before.rb_datas@ && after.is_watching
            == before.is_watching,
        before.route(other) != before.route(cpu) ==> after.ring(other) == before.ring(other),
{
    let i = before.route(cpu);
    assert(0 <= i < before.rb_datas@.len());
    assert(before.rb_datas@[i].size == before.ring_size());
    if r is Err {
        assert(after.rb_datas@ =~= before.rb_datas@);
    }
}

} // verus!
