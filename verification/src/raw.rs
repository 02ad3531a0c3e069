//! What the client does around its requests to the driver.
use vstd::prelude::*;
use crate::bytes;
use crate::driver_install;
use crate::ringbuffer::client;
use crate::ringbuffer::client::{PacketRef, RingBufferClient};
use crate::ringbuffer::data;
use crate::ringbuffer::data::RingBufferData;
use crate::ringbuffer::records;
use crate::ringbuffer::records::ADDRESS_SIZE;
use crate::ringbuffer::scan::PacketData;
use crate::text;
use crate::types::DivertAddress;

verus! {

/// Windows' code for a request that goes on in the background.
pub const ERROR_IO_PENDING: u32 = 997;

/// What is handed to the driver to send a packet: its address, and its bytes behind that.
pub fn send_buffer(addr: &DivertAddress, data: &PacketData) -> (out: Vec<u8>)
    ensures
        out@ == records::address_bytes(*addr) + data.bytes(),
{
    let mut out: Vec<u8> = records::encode_address(addr);
    let packet: Vec<u8> = data.to_vec();
    bytes::push_bytes(&mut out, &packet);
    out
}

/// What is handed to the driver to send a packet reads back as its address and its bytes.
pub proof fn law_send_buffer_reads_back(addr: DivertAddress, packet: Seq<u8>)
    ensures
        ({
            let buffer = records::address_bytes(addr) + packet;
            &&& buffer.len() == 80 + packet.len()
            &&& records::is_address(addr, buffer.subrange(0, 80))
            &&& forall|a: DivertAddress| #[trigger]
                records::is_address(a, buffer.subrange(0, 80)) ==> a == addr
            &&& buffer.skip(80) == packet
        }),
{
    records::law_address_round_trip(addr);
    let buffer = records::address_bytes(addr) + packet;
    assert(buffer.subrange(0, 80) =~= records::address_bytes(addr));
    assert(buffer.skip(80) =~= packet);
}

/// What a request to send comes to: one that goes on in the background is no failure.
pub fn send_result(outcome: Result<(), i32>) -> (r: Result<(), i32>)
    ensures
        r == (match outcome {
            Err(e) if e == driver_install::hresult(ERROR_IO_PENDING) => Ok::<(), i32>(()),
            other => other,
        }),
{
    match outcome {
        Ok(u) => Ok(u),
        Err(e) => {
            if e == driver_install::hresult_of(ERROR_IO_PENDING) {
                Ok(())
            } else {
                Err(e)
            }
        },
    }
}

/// A packet does not fit into the buffer it is to be copied to.
#[derive(Debug, Clone, Copy, PartialEq, Eq, Structural)]
pub struct BufferTooSmall {
    pub buffer: usize,
    pub packet: usize,
}

impl BufferTooSmall {
    pub fn message(&self) -> (s: String)
        ensures
            s@ == "Provided buffer size ("@ + text::decimal_text(self.buffer as nat)
                + ") is smaller than packet size ("@ + text::decimal_text(self.packet as nat)
                + ")"@,
    {
        let mut s = String::new();
        text::push_text(&mut s, "Provided buffer size (");
        text::push_decimal(&mut s, self.buffer as u64);
        text::push_text(&mut s, ") is smaller than packet size (");
        text::push_decimal(&mut s, self.packet as u64);
        text::push_text(&mut s, ")");
        assert(s@ =~= "Provided buffer size ("@ + text::decimal_text(self.buffer as nat)
            + ") is smaller than packet size ("@ + text::decimal_text(self.packet as nat) + ")"@);
        s
    }
}

/// Copies a packet to the front of a buffer, if it fits.
pub fn copy_packet(data: &PacketData, buffer: &mut [u8]) -> (r: Result<usize, BufferTooSmall>)
    requires
        data.bytes().len() <= usize::MAX,
    ensures
        final(buffer)@.len() == old(buffer)@.len(),
        if data.bytes().len() <= old(buffer)@.len() {
            &&& r == Ok::<usize, BufferTooSmall>(data.bytes().len() as usize)
            &&& final(buffer)@ == data.bytes() + old(buffer)@.skip(data.bytes().len() as int)
        } else {
            &&& r == Err::<usize, BufferTooSmall>(
                BufferTooSmall {
                    buffer: old(buffer)@.len() as usize,
                    packet: data.bytes().len() as usize,
                },
            )
            &&& final(buffer)@ == old(buffer)@
        },
{
    let len: usize = data.len();
    if len > buffer.len() {
        return Err(BufferTooSmall { buffer: buffer.len(), packet: len });
    }
    let v: Vec<u8> = data.to_vec();
    let ghost before = buffer@;
    let mut i: usize = 0;
    while i < len
        invariant
            i <= len,
            len == v@.len(),
            len <= buffer@.len(),
            buffer@.len() == before.len(),
            forall|j: int| 0 <= j < i ==> #[trigger] buffer@[j] == v@[j],
            forall|j: int| i <= j < before.len() ==> #[trigger] buffer@[j] == before[j],
        decreases len - i,
    {
        buffer[i] = v[i];
        i += 1;
    }
    assert(buffer@ =~= v@ + before.skip(len as int));
    Ok(len)
}

/// The packet that core number `k` in turn has, where those before it have none.
pub open spec fn first_ready(c: RingBufferClient, k: u32) -> bool {
    &&& k < c.max_cores
    &&& client::packet_ready(c.rings@[c.turn(k)])
    &&& forall|j: u32| j < k ==> !client::packet_ready(c.rings@[#[trigger] c.turn(j)])
}

/// The packet that a core has.
pub open spec fn ready_packet(c: RingBufferClient, core: int) -> records::FoundPacket {
    records::next_packet(c.rings@[core].unread())->0
}

/// What receiving a packet does to the rings and to a buffer, and what comes of it.
pub open spec fn receives(
    before: RingBufferClient,
    after: RingBufferClient,
    buffer: Seq<u8>,
    buffer_after: Seq<u8>,
    r: Result<Option<usize>, BufferTooSmall>,
) -> bool {
    match r {
        Ok(None) => {
            &&& buffer_after == buffer
            &&& after.turned(&before, before.max_cores)
            &&& forall|j: u32|
                j < before.max_cores ==> !client::packet_ready(
                    before.rings@[#[trigger] before.turn(j)],
                )
        },
        Ok(Some(n)) => exists|k: u32|
            #![trigger before.turn(k)]
            {
                let found = ready_packet(before, before.turn(k));
                &&& first_ready(before, k)
                &&& n == found.payload.len()
                &&& n <= buffer.len()
                &&& buffer_after == found.payload + buffer.skip(n as int)
                &&& received(before, after, k)
            },
        Err(e) => exists|k: u32|
            #![trigger before.turn(k)]
            {
                let found = ready_packet(before, before.turn(k));
                &&& first_ready(before, k)
                &&& e.packet == found.payload.len()
                &&& e.buffer == buffer.len()
                &&& e.packet > e.buffer
                &&& buffer_after == buffer
                &&& received(before, after, k)
            },
    }
}

/// Takes the next packet off and copies it to a buffer. A packet that does not fit is lost.
pub fn recv(c: &mut RingBufferClient, buffer: &mut [u8]) -> (r: Result<
    Option<usize>,
    BufferTooSmall,
>)
    requires
        old(c).wf(),
    ensures
        final(c).wf(),
        receives(*old(c), *final(c), old(buffer)@, final(buffer)@, r),
{
    let ghost before = *c;
    let (core, new_head, copied) = match c.next_packet() {
        None => {
            return Ok(None);
        },
        Some(p) => {
            assert(p.data.bytes().len() <= usize::MAX) by {
                let f = records::next_packet(before.rings@[p.core_id as int].unread())->0;
                assert(p.record_len == f.total);
            }
            let copied = copy_packet(&p.data, buffer);
            (p.core_id, p.new_head(), copied)
        },
    };
    let ghost k = choose|k: u32|
        #![trigger before.turn(k)]
        first_ready(before, k) && core == before.turn(k) && c.turned(&before, (k + 1) as u32);
    c.release(core, new_head);
    assert(received(before, *c, k));
    match copied {
        Ok(n) => Ok(Some(n)),
        Err(e) => Err(e),
    }
}

/// The head of a core's ring stands behind the packet that was there.
pub open spec fn taken(before: RingBufferClient, after: RingBufferClient, core: int) -> bool {
    let found = ready_packet(before, core);
    after.rings@[core] == (RingBufferData {
        head: before.rings@[core].head.wrapping_add(found.skipped as usize).wrapping_add(
            found.total as usize,
        ),
        ..before.rings@[core]
    })
}

/// The core whose turn came after `k` others lost the packet that was there. Those before it are
/// past the dummy records at the head, and nothing else happened.
pub open spec fn received(before: RingBufferClient, after: RingBufferClient, k: u32) -> bool {
    let core = before.turn(k);
    &&& after == (RingBufferClient {
        rings: after.rings,
        current_core: before.current_core.wrapping_add((k + 1) as u32),
        ..before
    })
    &&& after.rings@.len() == before.rings@.len()
    &&& taken(before, after, core)
    &&& forall|i: int|
        0 <= i < before.rings@.len() && i != core ==> before.settled(
            (k + 1) as u32,
            i,
            #[trigger] after.rings@[i],
        )
}

/// How many threads share the cores: as many as wanted, but no more than there are cores, and at
/// least one.
pub open spec fn threads(wanted: u32, max_cores: u32) -> u32 {
    if wanted == 0 || max_cores == 0 {
        1
    } else if wanted < max_cores {
        wanted
    } else {
        max_cores
    }
}

/// How many threads share the cores.
pub fn thread_count(wanted: u32, max_cores: u32) -> (n: u32)
    ensures
        n == threads(wanted, max_cores),
{
    if wanted == 0 || max_cores == 0 {
        1
    } else if wanted < max_cores {
        wanted
    } else {
        max_cores
    }
}

/// Whether thread number `thread` of `n` polls a core.
pub open spec fn polls(thread: u32, n: u32, core: u32) -> bool {
    core >= thread && (core - thread) % (n as int) == 0
}

/// The cores that thread number `thread` of `n` polls: every `n`th one, from its own number on.
pub fn cores_of_thread(thread: u32, n: u32, max_cores: u32) -> (v: Vec<u32>)
    requires
        n > 0,
    ensures
        forall|i: int| 0 <= i < v@.len() ==> #[trigger] v@[i] == thread + i * n,
        forall|core: u32|
            #![trigger v@.contains(core)]
            v@.contains(core) <==> core < max_cores && polls(thread, n, core),
{
    let mut v: Vec<u32> = Vec::new();
    let mut core: u64 = thread as u64;
    assert(core == thread + v@.len() * n) by (nonlinear_arith)
        requires
            core == thread,
            v@.len() == 0,
    ;
    while core < max_cores as u64
        invariant
            n > 0,
            core == thread + v@.len() * n,
            forall|i: int| 0 <= i < v@.len() ==> #[trigger] v@[i] == thread + i * n,
            forall|i: int| 0 <= i < v@.len() ==> #[trigger] v@[i] < max_cores,
            core <= u32::MAX || core < max_cores + n,
        decreases max_cores + n - core,
    {
        let ghost before = v@.len() as int;
        v.push(core as u32);
        assert((before + 1) * n == before * n + n) by (nonlinear_arith);
        core = core + n as u64;
    }
    proof {
        assert forall|c: u32|
            #![trigger v@.contains(c)]
            v@.contains(c) <==> c < max_cores && polls(thread, n, c) by {
            lemma_polled(v@, thread, n, max_cores, c);
        }
    }
    v
}

proof fn lemma_polled(v: Seq<u32>, thread: u32, n: u32, max_cores: u32, core: u32)
    requires
        n > 0,
        forall|i: int| 0 <= i < v.len() ==> #[trigger] v[i] == thread + i * n,
        forall|i: int| 0 <= i < v.len() ==> #[trigger] v[i] < max_cores,
        thread + v.len() * n >= max_cores,
    ensures
        v.contains(core) <==> core < max_cores && polls(thread, n, core),
{
    if v.contains(core) {
        let i = choose|i: int| 0 <= i < v.len() && v[i] == core;
        assert(core - thread == i * n);
        vstd::arithmetic::div_mod::lemma_mod_multiples_basic(i, n as int);
        assert(i * n >= 0) by (nonlinear_arith)
            requires
                i >= 0,
                n > 0,
        ;
    }
    if core < max_cores && polls(thread, n, core) {
        let d = core - thread;
        let i = d / (n as int);
        vstd::arithmetic::div_mod::lemma_fundamental_div_mod(d, n as int);
        assert(d == n * i);
        assert(i * n == n * i) by (nonlinear_arith);
        assert(i >= 0) by (nonlinear_arith)
            requires
                d >= 0,
                n > 0,
                i == d / (n as int),
        ;
        assert(i < v.len()) by (nonlinear_arith)
            requires
                i * n < v.len() * n,
                n > 0,
        ;
        assert(v[i] == core);
    }
}

/// Every core is polled by exactly one of `n` threads.
pub proof fn law_each_core_has_one_thread(n: u32, core: u32)
    requires
        n > 0,
    ensures
        core % n < n,
        forall|thread: u32|
            thread < n ==> (#[trigger] polls(thread, n, core) <==> thread == core % n),
{
    assert forall|thread: u32| thread < n implies (#[trigger] polls(thread, n, core) <==> thread
        == core % n) by {
        let m = n as int;
        let q = core as int / m;
        let r = core as int % m;
        vstd::arithmetic::div_mod::lemma_fundamental_div_mod(core as int, m);
        if thread == r {
            assert(core - thread == m * q);
            assert(m * q == q * m) by (nonlinear_arith);
            vstd::arithmetic::div_mod::lemma_mod_multiples_basic(q, m);
            assert(q >= 0) by (nonlinear_arith)
                requires
                    q == core as int / m,
                    core >= 0,
                    m > 0,
            ;
            assert(m * q >= 0) by (nonlinear_arith)
                requires
                    m > 0,
                    q >= 0,
            ;
        }
        if polls(thread, n, core) {
            let d = core - thread;
            vstd::arithmetic::div_mod::lemma_fundamental_div_mod(d, m);
            let k = d / m;
            assert(core == thread + m * k);
            vstd::arithmetic::div_mod::lemma_mod_multiples_vanish(k, thread as int, m);
            assert(m * k + thread == core);
            vstd::arithmetic::div_mod::lemma_small_mod(thread as nat, n as nat);
        }
    }
}

/// The place in a list of the first core that has a packet, if any of them has one.
pub fn first_core_with_packet(c: &mut RingBufferClient, cores: &[u32]) -> (r: Option<usize>)
    requires
        old(c).wf(),
    ensures
        final(c).wf(),
        match r {
            None => {
                &&& looked_through(*old(c), *final(c), cores@)
                &&& forall|j: int|
                    0 <= j < cores@.len() ==> !has_packet(*old(c), #[trigger] cores@[j])
            },
            Some(k) => {
                &&& k < cores@.len()
                &&& looked_through(*old(c), *final(c), cores@.take(k + 1))
                &&& has_packet(*old(c), cores@[k as int])
                &&& forall|j: int| 0 <= j < k ==> !has_packet(*old(c), #[trigger] cores@[j])
            },
        },
{
    let mut k: usize = 0;
    while k < cores.len()
        invariant
            old(c).wf(),
            c.wf(),
            k <= cores@.len(),
            looked_through(*old(c), *c, cores@.take(k as int)),
            forall|j: int| 0 <= j < k ==> !has_packet(*old(c), #[trigger] cores@[j]),
        decreases cores@.len() - k,
    {
        let core: u32 = cores[k];
        let ghost before = *c;
        let found: bool = c.next_packet_for_core(core).is_some();
        proof {
            if core < c.max_cores {
                let first = old(c).rings@[core as int];
                let mid = before.rings@[core as int];
                let last = c.rings@[core as int];
                if mid != first {
                    client::lemma_skipped_twice(first, mid, last);
                }
                assert(found == client::packet_ready(mid));
            }
            lemma_one_more(cores@, k as int);
        }
        if found {
            return Some(k);
        }
        k += 1;
    }
    assert(cores@.take(k as int) =~= cores@);
    None
}

/// The rings of the listed cores are past the dummy records at the head, and nothing else
/// happened.
pub open spec fn looked_through(
    before: RingBufferClient,
    after: RingBufferClient,
    cores: Seq<u32>,
) -> bool {
    &&& after == (RingBufferClient { rings: after.rings, ..before })
    &&& after.rings@.len() == before.rings@.len()
    &&& forall|i: int|
        0 <= i < before.rings@.len() ==> if cores.contains(i as u32) {
            client::skipped(before.rings@[i], #[trigger] after.rings@[i])
        } else {
            after.rings@[i] == before.rings@[i]
        }
}

/// One more core of the list is looked at.
proof fn lemma_one_more(cores: Seq<u32>, k: int)
    requires
        0 <= k < cores.len(),
    ensures
        forall|core: u32|
            #![trigger cores.take(k + 1).contains(core)]
            cores.take(k + 1).contains(core) <==> cores.take(k).contains(core) || core == cores[k],
{
    let less = cores.take(k);
    let more = cores.take(k + 1);
    assert forall|core: u32| #[trigger]
        more.contains(core) <==> less.contains(core) || core == cores[k] by {
        if less.contains(core) {
            let j = choose|j: int| 0 <= j < k && less[j] == core;
            assert(more[j] == core);
        }
        assert(more[k] == cores[k]);
        if more.contains(core) && core != cores[k] {
            let j = choose|j: int| 0 <= j < more.len() && more[j] == core;
            assert(less[j] == core);
        }
    }
}

/// Whether a core has a packet.
pub open spec fn has_packet(c: RingBufferClient, core: u32) -> bool {
    core < c.max_cores && client::packet_ready(c.rings@[core as int])
}

/// There is at least one thread, and no more than there are cores; as many as wanted, where that is
/// possible.
pub proof fn law_threads_fit_cores(wanted: u32, max_cores: u32)
    ensures
        threads(wanted, max_cores) >= 1,
        max_cores > 0 ==> threads(wanted, max_cores) <= max_cores,
        1 <= wanted <= max_cores ==> threads(wanted, max_cores) == wanted,
        1 <= max_cores <= wanted ==> threads(wanted, max_cores) == max_cores,
        threads(0, max_cores) == 1,
{
}

/// A packet that was received is gone, and what came behind it is next.
pub proof fn law_received_packet_is_gone(
    before: RingBufferClient,
    after: RingBufferClient,
    core: int,
    a: DivertAddress,
    packet: Seq<u8>,
    rest: Seq<u8>,
)
    requires
        0 <= core < before.rings@.len(),
        before.rings@[core].wf(),
        before.rings@[core].consistent(),
        80 + packet.len() <= u32::MAX,
        before.rings@[core].unread() == records::packet_record(a, packet) + rest,
        taken(before, after, core),
    ensures
        ready_packet(before, core).payload == packet,
        ready_packet(before, core).address == records::address_bytes(a),
        after.rings@[core].unread() == rest,
{
    let ring = before.rings@[core];
    let record = records::packet_record(a, packet);
    records::law_packet_record_is_found(a, packet, rest);
    records::law_address_round_trip(a);
    records::lemma_header_round_trip(
        records::RecordHeader { len: (80 + packet.len()) as u32, ty: 0 },
        Seq::empty(),
    );
    assert(record.len() == 88 + packet.len());
    assert(ring.unread().len() == ring.unread_len());
    let n = (88 + packet.len()) as usize;
    data::law_released_bytes_go_first(ring, n);
    assert((record + rest).skip(n as int) =~= rest);
}

/// Where the core whose turn it is has a packet, that packet is received: it stands at the front of
/// the buffer, if it fits, with the rest of the buffer as it was; if it does not, the lengths are
/// reported. Either way it is gone from its ring, and what came behind it is next.
pub proof fn law_packet_is_received(
    before: RingBufferClient,
    after: RingBufferClient,
    buffer: Seq<u8>,
    buffer_after: Seq<u8>,
    r: Result<Option<usize>, BufferTooSmall>,
    a: DivertAddress,
    packet: Seq<u8>,
    rest: Seq<u8>,
)
    requires
        before.wf(),
        before.max_cores > 0,
        0 <= before.turn(0) < before.rings@.len(),
        before.rings@[before.turn(0)].wf(),
        before.rings@[before.turn(0)].consistent(),
        80 + packet.len() <= u32::MAX,
        before.rings@[before.turn(0)].unread() == records::packet_record(a, packet) + rest,
        client::packet_ready(before.rings@[before.turn(0)]),
        receives(before, after, buffer, buffer_after, r),
    ensures
        packet.len() <= buffer.len() ==> r == Ok::<Option<usize>, BufferTooSmall>(
            Some(packet.len() as usize),
        ) && buffer_after == packet + buffer.skip(packet.len() as int),
        packet.len() > buffer.len() ==> (r matches Err(e) && e.packet == packet.len() && e.buffer
            == buffer.len()) && buffer_after == buffer,
        after.rings@[before.turn(0)].unread() == rest,
{
    records::law_packet_record_is_found(a, packet, rest);
    let core = before.turn(0);
    assert(ready_packet(before, core).payload == packet);
    match r {
        Ok(None) => {
            assert(!client::packet_ready(before.rings@[before.turn(0)]));
        },
        Ok(Some(n)) => {
            let k = choose|k: u32|
                #![trigger before.turn(k)]
                first_ready(before, k) && n == ready_packet(before, before.turn(k)).payload.len()
                    && n <= buffer.len()
                    && buffer_after == ready_packet(before, before.turn(k)).payload + buffer.skip(
                    n as int,
                ) && received(before, after, k);
            assert(k == 0) by {
                if k > 0 {
                    assert(!client::packet_ready(before.rings@[before.turn(0)]));
                }
            }
            law_received_packet_is_gone(before, after, core, a, packet, rest);
        },
        Err(e) => {
            let k = choose|k: u32|
                #![trigger before.turn(k)]
                first_ready(before, k) && e.packet == ready_packet(
                    before,
                    before.turn(k),
                ).payload.len() && e.buffer == buffer.len() && e.packet > e.buffer && buffer_after
                    == buffer && received(before, after, k);
            assert(k == 0) by {
                if k > 0 {
                    assert(!client::packet_ready(before.rings@[before.turn(0)]));
                }
            }
            law_received_packet_is_gone(before, after, core, a, packet, rest);
        },
    }
}

} // verus!
