//! The reading end of the rings, and the writing end of the ring for packets to send.
use vstd::arithmetic::power2::is_pow2;
use vstd::prelude::*;
use crate::bytes;
use crate::file_types;
use crate::file_types::{FileCallbackDecision, FileDecision, FileEvent};
use crate::ringbuffer::cells;
use crate::ringbuffer::data;
use crate::ringbuffer::data::RingBufferData;
use crate::ringbuffer::records;
use crate::ringbuffer::records::{RecordHeader, ADDRESS_SIZE, RECORD_HEADER_SIZE};
use crate::ringbuffer::scan;
use crate::ringbuffer::scan::PacketData;
use crate::text;
use crate::types::DivertAddress;
use crate::utf16;

verus! {

/// How to wait for packets.
#[derive(Debug, Clone, Copy, PartialEq, Eq, Structural)]
pub enum PollMode {
    /// The same as `IoctlWait`.
    Default,
    /// Call back where no packet is ready, and try once more.
    BusyPoll,
    /// Block until the driver says that data is ready.
    IoctlWait,
}

impl PollMode {
    /// Whether to block until the driver says that data is ready.
    pub fn waits(&self) -> (b: bool)
        ensures
            b == (*self != PollMode::BusyPoll),
    {
        *self != PollMode::BusyPoll
    }
}

/// Why rings cannot be used, or a packet cannot be sent.
#[derive(Debug, Clone, Copy, PartialEq, Eq, Structural)]
pub enum RingError {
    /// The size of the rings is not a power of two.
    BadSize(usize),
    /// Head and tail are further apart than the ring is long.
    Corrupted,
    /// There is no room.
    Full { required: usize, free: usize },
}

impl RingError {
    pub open spec fn spec_message(&self) -> Seq<char> {
        match self {
            RingError::BadSize(n) => "Ring buffer size must be a power of 2, got: "@
                + text::decimal_text(*n as nat),
            RingError::Corrupted => "Send ring buffer state corruption detected"@,
            RingError::Full { required, free } => "Send ring buffer is full (required: "@
                + text::decimal_text(*required as nat) + ", free: "@ + text::decimal_text(
                *free as nat,
            ) + ")"@,
        }
    }

    pub fn message(&self) -> (s: String)
        ensures
            s@ == self.spec_message(),
    {
        match self {
            RingError::BadSize(n) => {
                let mut s = String::from_str("Ring buffer size must be a power of 2, got: ");
                text::push_decimal(&mut s, *n as u64);
                s
            },
            RingError::Corrupted => String::from_str("Send ring buffer state corruption detected"),
            RingError::Full { required, free } => {
                let mut s = String::from_str("Send ring buffer is full (required: ");
                text::push_decimal(&mut s, *required as u64);
                s.append(", free: ");
                text::push_decimal(&mut s, *free as u64);
                s.append(")");
                s
            },
        }
    }
}

/// A packet that stands in a ring until it is released.
pub struct PacketRef<'a> {
    pub core_id: u32,
    pub record_type: u32,
    pub address: DivertAddress,
    pub data: PacketData<'a>,
    pub old_head: usize,
    pub record_len: usize,
}

impl<'a> PacketRef<'a> {
    /// Where the head of the ring is once the packet is released.
    pub fn new_head(&self) -> (h: usize)
        ensures
            h == self.old_head.wrapping_add(self.record_len),
    {
        self.old_head.wrapping_add(self.record_len)
    }
}

/// A file event that stands in a ring until it is released.
pub struct FileEventRef {
    pub core_id: u32,
    pub event: FileEvent,
    pub path: String,
    pub old_head: usize,
    pub record_len: usize,
}

impl FileEventRef {
    /// Where the head of the ring is once the event is released.
    pub fn new_head(&self) -> (h: usize)
        ensures
            h == self.old_head.wrapping_add(self.record_len),
    {
        self.old_head.wrapping_add(self.record_len)
    }

    /// Writes the decision over the event in its ring.
    pub fn set_decision(&self, client: &mut RingBufferClient, decision: &FileCallbackDecision)
        requires
            old(client).wf(),
            self.core_id < old(client).max_cores,
            552 <= old(client).size,
        ensures
            final(client).wf(),
            final(client).same_but_ring(old(client), self.core_id as int),
            ({
                let before = old(client).rings@[self.core_id as int];
                let after = final(client).rings@[self.core_id as int];
                &&& after == (RingBufferData { buf: after.buf, ..before })
                &&& exists|e: FileEvent| #[trigger]
                    scan::decided(self.event, *decision, e) && after.buf@ == cells::splice(
                        before.buf@,
                        self.old_head + 8,
                        file_types::event_bytes(e),
                    )
            }),
    {
        let after: FileEvent = scan::decide(&self.event, decision);
        let raw: Vec<u8> = file_types::encode_event(&after);
        proof {
            file_types::law_event_round_trip(after);
        }
        client.write_to_rb(self.core_id, self.old_head, RECORD_HEADER_SIZE, &raw);
        assert(scan::decided(self.event, *decision, after));
    }

    /// Carries out a decision on the event: one that is allowed stays as the driver wrote it, and
    /// others get the decision. The result is what the driver is to be told.
    pub fn answer(&self, client: &mut RingBufferClient, decision: &FileCallbackDecision) -> (d:
        FileDecision)
        requires
            old(client).wf(),
            self.core_id < old(client).max_cores,
            552 <= old(client).size,
        ensures
            final(client).wf(),
            d.transaction_id == self.event.transaction_id,
            decision is Allow ==> *final(client) == *old(client),
            decision !is Allow ==> {
                let before = old(client).rings@[self.core_id as int];
                let after = final(client).rings@[self.core_id as int];
                &&& final(client).same_but_ring(old(client), self.core_id as int)
                &&& after == (RingBufferData { buf: after.buf, ..before })
                &&& exists|e: FileEvent| #[trigger]
                    scan::decided(self.event, *decision, e) && after.buf@ == cells::splice(
                        before.buf@,
                        self.old_head + 8,
                        file_types::event_bytes(e),
                    )
            },
    {
        match decision {
            FileCallbackDecision::Allow => {},
            _ => {
                self.set_decision(client, decision);
            },
        }
        FileDecision { transaction_id: self.event.transaction_id }
    }
}

/// `after` is the ring `before` with the dummy records at its head stepped over.
pub open spec fn skipped(before: RingBufferData, after: RingBufferData) -> bool {
    after == (RingBufferData {
        head: if before.consistent() {
            before.head.wrapping_add(records::dummies(before.unread()) as usize)
        } else {
            before.head
        },
        ..before
    })
}

/// What is found once dummy records are stepped over is what was to be found before.
pub proof fn lemma_skipped(before: RingBufferData, after: RingBufferData)
    requires
        before.wf(),
        skipped(before, after),
    ensures
        before.consistent() == after.consistent(),
        before.consistent() ==> {
            &&& records::dummies(after.unread()) == 0
            &&& after.unread().skip(0) == after.unread()
            &&& after.unread() == before.unread().skip(records::dummies(before.unread()) as int)
            &&& after.head.wrapping_add(0) == after.head
        },
{
    if before.consistent() {
        records::lemma_dummies_all_skipped(before.unread());
        let n = records::dummies(before.unread()) as usize;
        data::law_released_bytes_go_first(before, n);
        assert(after.unread().skip(0) =~= after.unread());
    }
}

/// Rings shared with the driver: one per core to read from, and one to send through.
pub struct RingBufferClient {
    pub max_cores: u32,
    pub rings: Vec<RingBufferData>,
    pub send: RingBufferData,
    pub size: usize,
    /// Counts the turns of the cores.
    pub current_core: u32,
}

/// The rings can be used: there is one per core, all of the same size.
pub open spec fn rings_fit(
    max_cores: u32,
    rings: Seq<RingBufferData>,
    send: RingBufferData,
    size: usize,
) -> bool {
    &&& is_pow2(size as int)
    &&& rings.len() == max_cores
    &&& forall|i: int|
        0 <= i < rings.len() ==> (#[trigger] rings[i]).wf() && rings[i].size == size
    &&& send.wf()
    &&& send.size == size
}

impl RingBufferClient {
    pub open spec fn wf(&self) -> bool {
        rings_fit(self.max_cores, self.rings@, self.send, self.size)
    }

    /// Only the ring of `core` differs from `before`.
    pub open spec fn same_but_ring(&self, before: &RingBufferClient, core: int) -> bool {
        &&& *self == (RingBufferClient { rings: self.rings, ..*before })
        &&& self.rings@ == before.rings@.update(core, self.rings@[core])
    }

    /// Takes over rings that were mapped, if their size is a power of two.
    pub fn new_with_config(
        max_cores: u32,
        rings: Vec<RingBufferData>,
        send: RingBufferData,
        size: usize,
    ) -> (r: Result<RingBufferClient, RingError>)
        requires
            is_pow2(size as int) ==> rings_fit(max_cores, rings@, send, size),
        ensures
            match r {
                Ok(c) => is_pow2(size as int) && c == (RingBufferClient {
                    max_cores,
                    rings,
                    send,
                    size,
                    current_core: 0,
                }) && c.wf(),
                Err(e) => !is_pow2(size as int) && e == RingError::BadSize(size),
            },
    {
        if !cells::is_power_of_two(size) {
            return Err(RingError::BadSize(size));
        }
        Ok(RingBufferClient { max_cores, rings, send, size, current_core: 0 })
    }

    pub fn max_cores(&self) -> (n: u32)
        ensures
            n == self.max_cores,
    {
        self.max_cores
    }

    /// Steps over dummy records at the head of the ring of `core`.
    fn skip_dummies(&mut self, core: u32)
        requires
            old(self).wf(),
            core < old(self).max_cores,
        ensures
            final(self).wf(),
            final(self).same_but_ring(old(self), core as int),
            skipped(old(self).rings@[core as int], final(self).rings@[core as int]),
    {
        let i: usize = core as usize;
        let head: usize = scan::scan_packet(
            &self.rings[i].buf,
            self.rings[i].head,
            self.rings[i].tail,
        ).head;
        self.rings[i].head = head;
        assert(self.rings@ =~= old(self).rings@.update(core as int, self.rings@[core as int]));
    }

    /// The packet at the head of the ring of `core`, if there is one; dummy records in front of it
    /// are stepped over.
    pub fn next_packet_for_core(&mut self, core: u32) -> (r: Option<PacketRef<'_>>)
        requires
            old(self).wf(),
        ensures
            final(self).wf(),
            core >= old(self).max_cores ==> r is None && *final(self) == *old(self),
            core < old(self).max_cores ==> {
                let before = old(self).rings@[core as int];
                let after = final(self).rings@[core as int];
                let found = if before.consistent() {
                    records::next_packet(before.unread())
                } else {
                    None
                };
                &&& final(self).same_but_ring(old(self), core as int)
                &&& skipped(before, after)
                &&& match (found, r) {
                    (Some(f), Some(p)) => {
                        &&& p.core_id == core
                        &&& p.record_type == 0
                        &&& records::is_address(p.address, f.address)
                        &&& p.data.bytes() == f.payload
                        &&& p.old_head == after.head
                        &&& p.record_len == f.total
                    },
                    (None, None) => true,
                    _ => false,
                }
            },
    {
        if core >= self.max_cores {
            return None;
        }
        let i: usize = core as usize;
        self.skip_dummies(core);
        proof {
            lemma_skipped(old(self).rings@[core as int], self.rings@[core as int]);
        }
        let ring = &self.rings[i];
        let found = scan::scan_packet(&ring.buf, ring.head, ring.tail);
        match found.packet {
            Some(p) => Some(
                PacketRef {
                    core_id: core,
                    record_type: 0,
                    address: p.address,
                    data: p.data,
                    old_head: ring.head,
                    record_len: p.record_len,
                },
            ),
            None => None,
        }
    }

    /// Gives a packet or event back: the head of the ring of `core` moves to `new_head`.
    pub fn release(&mut self, core: u32, new_head: usize)
        requires
            old(self).wf(),
            core < old(self).max_cores,
        ensures
            final(self).wf(),
            final(self).same_but_ring(old(self), core as int),
            final(self).rings@[core as int] == (RingBufferData {
                head: new_head,
                ..old(self).rings@[core as int]
            }),
    {
        self.rings[core as usize].head = new_head;
        assert(self.rings@ =~= old(self).rings@.update(core as int, self.rings@[core as int]));
    }

    /// Whether the ring of `core` holds a packet; dummy records in front are stepped over.
    fn settle_packet(&mut self, core: u32) -> (ready: bool)
        requires
            old(self).wf(),
            core < old(self).max_cores,
        ensures
            final(self).wf(),
            final(self).same_but_ring(old(self), core as int),
            skipped(old(self).rings@[core as int], final(self).rings@[core as int]),
            ready == packet_ready(old(self).rings@[core as int]),
            ready == packet_ready(final(self).rings@[core as int]),
    {
        self.skip_dummies(core);
        proof {
            lemma_skipped(old(self).rings@[core as int], self.rings@[core as int]);
        }
        let ring = &self.rings[core as usize];
        scan::scan_packet(&ring.buf, ring.head, ring.tail).packet.is_some()
    }

    /// The next packet of any core. The cores take turns.
    pub fn next_packet(&mut self) -> (r: Option<PacketRef<'_>>)
        requires
            old(self).wf(),
        ensures
            final(self).wf(),
            match r {
                None => {
                    &&& final(self).turned(old(self), old(self).max_cores)
                    &&& forall|j: u32|
                        j < old(self).max_cores ==> !packet_ready(
                            old(self).rings@[#[trigger] old(self).turn(j)],
                        )
                },
                Some(p) => exists|k: u32|
                    #![trigger old(self).turn(k)]
                    {
                        let before = old(self).rings@[p.core_id as int];
                        let found = records::next_packet(before.unread())->0;
                        &&& k < old(self).max_cores
                        &&& p.core_id == old(self).turn(k)
                        &&& final(self).turned(old(self), (k + 1) as u32)
                        &&& forall|j: u32|
                            j < k ==> !packet_ready(old(self).rings@[#[trigger] old(self).turn(j)])
                        &&& packet_ready(before)
                        &&& p.record_type == 0
                        &&& records::is_address(p.address, found.address)
                        &&& p.data.bytes() == found.payload
                        &&& p.record_len == found.total
                        &&& p.old_head == before.head.wrapping_add(found.skipped as usize)
                    },
            },
    {
        match self.find_packet() {
            Some(core) => {
                let ghost before = old(self).rings@[core as int];
                let ghost found = self.rings@[core as int];
                proof {
                    lemma_same_packet(before, found);
                    assert forall|after: RingBufferData| #[trigger] skipped(found, after) implies after
                        == found by {
                        lemma_skipped_twice(before, found, after);
                    }
                }
                self.next_packet_for_core(core)
            },
            None => None,
        }
    }

    /// The core whose turn it is after `j` others.
    pub open spec fn turn(&self, j: u32) -> int {
        (self.current_core.wrapping_add(j) % self.max_cores) as int
    }

    /// Whether a core is among the `n` whose turn comes next.
    pub open spec fn looked_at(&self, n: u32, core: int) -> bool {
        exists|j: u32| j < n && #[trigger] self.turn(j) == core
    }

    /// What the ring of a core is once `n` cores had their turn: those that had it are past the
    /// dummy records at the head.
    pub open spec fn settled(&self, n: u32, core: int, ring: RingBufferData) -> bool {
        if self.looked_at(n, core) {
            skipped(self.rings@[core], ring)
        } else {
            ring == self.rings@[core]
        }
    }

    /// `n` cores had their turn since `before`, and nothing else happened.
    pub open spec fn turned(&self, before: &RingBufferClient, n: u32) -> bool {
        &&& *self == (RingBufferClient {
            rings: self.rings,
            current_core: before.current_core.wrapping_add(n),
            ..*before
        })
        &&& self.rings@.len() == before.rings@.len()
        &&& forall|i: int|
            0 <= i < before.rings@.len() ==> before.settled(n, i, #[trigger] self.rings@[i])
    }

    /// Lets the cores take turns until one has a packet.
    fn find_packet(&mut self) -> (r: Option<u32>)
        requires
            old(self).wf(),
        ensures
            final(self).wf(),
            match r {
                None => {
                    &&& final(self).turned(old(self), old(self).max_cores)
                    &&& forall|j: u32|
                        j < old(self).max_cores ==> !packet_ready(
                            old(self).rings@[#[trigger] old(self).turn(j)],
                        )
                },
                Some(core) => exists|k: u32|
                    #![trigger old(self).turn(k)]
                    {
                        &&& k < old(self).max_cores
                        &&& core == old(self).turn(k)
                        &&& final(self).turned(old(self), (k + 1) as u32)
                        &&& forall|j: u32|
                            j < k ==> !packet_ready(old(self).rings@[#[trigger] old(self).turn(j)])
                        &&& packet_ready(old(self).rings@[core as int])
                        &&& skipped(old(self).rings@[core as int], final(self).rings@[core as int])
                    },
            },
    {
        let mut k: u32 = 0;
        while k < self.max_cores
            invariant
                old(self).wf(),
                self.wf(),
                k <= self.max_cores,
                self.turned(old(self), k),
                forall|j: u32|
                    j < k ==> !packet_ready(old(self).rings@[#[trigger] old(self).turn(j)]),
            decreases self.max_cores - k,
        {
            let core: u32 = self.current_core % self.max_cores;
            let ghost mid = *self;
            assert(core == old(self).turn(k));
            self.current_core = self.current_core.wrapping_add(1);
            let ready: bool = self.settle_packet(core);
            proof {
                lemma_one_more_turn(*old(self), mid, *self, k);
            }
            if ready {
                return Some(core);
            }
            k += 1;
        }
        None
    }

    /// The file event at the head of the ring of `core`, if there is one; dummy records in front of
    /// it are stepped over.
    pub fn next_file_event_for_core(&mut self, core: u32) -> (r: Option<FileEventRef>)
        requires
            old(self).wf(),
        ensures
            final(self).wf(),
            core >= old(self).max_cores ==> r is None && *final(self) == *old(self),
            core < old(self).max_cores ==> {
                let before = old(self).rings@[core as int];
                let after = final(self).rings@[core as int];
                &&& final(self).same_but_ring(old(self), core as int)
                &&& skipped(before, after)
                &&& match (event_in(after), r) {
                    (Some((event, path)), Some(e)) => {
                        &&& e.core_id == core
                        &&& file_types::is_event(e.event, event)
                        &&& e.path@ == file_types::path_text(path)
                        &&& e.old_head == after.head
                        &&& e.record_len == 8 + bytes::le32(after.unread(), 0)
                    },
                    (None, None) => true,
                    _ => false,
                }
            },
    {
        if core >= self.max_cores {
            return None;
        }
        let i: usize = core as usize;
        self.skip_dummies(core);
        proof {
            lemma_skipped(old(self).rings@[core as int], self.rings@[core as int]);
        }
        let ring = &self.rings[i];
        let found = scan::scan_event(&ring.buf, ring.head, ring.tail);
        match found.event {
            Some(e) => Some(
                FileEventRef {
                    core_id: core,
                    event: e.event,
                    path: e.path,
                    old_head: ring.head,
                    record_len: e.record_len,
                },
            ),
            None => None,
        }
    }

    /// The next file event of any core. The cores take turns.
    pub fn next_file_event(&mut self) -> (r: Option<FileEventRef>)
        requires
            old(self).wf(),
        ensures
            final(self).wf(),
            match r {
                None => {
                    &&& final(self).turned(old(self), old(self).max_cores)
                    &&& forall|j: u32|
                        j < old(self).max_cores ==> event_in(
                            final(self).rings@[#[trigger] old(self).turn(j)],
                        ) is None
                },
                Some(e) => exists|k: u32|
                    #![trigger old(self).turn(k)]
                    {
                        let after = final(self).rings@[e.core_id as int];
                        let (event, path) = event_in(after)->0;
                        &&& k < old(self).max_cores
                        &&& e.core_id == old(self).turn(k)
                        &&& final(self).turned(old(self), (k + 1) as u32)
                        &&& forall|j: u32|
                            j < k ==> event_in(
                                final(self).rings@[#[trigger] old(self).turn(j)],
                            ) is None
                        &&& event_in(after) is Some
                        &&& file_types::is_event(e.event, event)
                        &&& e.path@ == file_types::path_text(path)
                        &&& e.old_head == after.head
                        &&& e.record_len == 8 + bytes::le32(after.unread(), 0)
                    },
            },
    {
        let mut k: u32 = 0;
        while k < self.max_cores
            invariant
                old(self).wf(),
                self.wf(),
                k <= self.max_cores,
                self.turned(old(self), k),
                forall|j: u32|
                    j < k ==> event_in(self.rings@[#[trigger] old(self).turn(j)]) is None,
            decreases self.max_cores - k,
        {
            let core: u32 = self.current_core % self.max_cores;
            let ghost mid = *self;
            assert(core == old(self).turn(k));
            self.current_core = self.current_core.wrapping_add(1);
            let found = self.next_file_event_for_core(core);
            proof {
                lemma_one_more_turn(*old(self), mid, *self, k);
                assert forall|j: u32| j < k implies event_in(
                    self.rings@[#[trigger] old(self).turn(j)],
                ) is None by {
                    let i = old(self).turn(j);
                    assert(event_in(mid.rings@[i]) is None);
                    assert(self.rings@[i] == mid.rings@[i]);
                }
            }
            if found.is_some() {
                return found;
            }
            k += 1;
        }
        None
    }

    /// Writes `value` over the bytes at `offset_from_start` behind position `start_tail` of the
    /// ring of `core`.
    pub fn write_to_rb(
        &mut self,
        core: u32,
        start_tail: usize,
        offset_from_start: usize,
        value: &[u8],
    )
        requires
            old(self).wf(),
            core < old(self).max_cores,
            value@.len() <= old(self).size,
        ensures
            final(self).wf(),
            final(self).same_but_ring(old(self), core as int),
            ({
                let before = old(self).rings@[core as int];
                let after = final(self).rings@[core as int];
                &&& after == (RingBufferData { buf: after.buf, ..before })
                &&& after.buf@ == cells::splice(before.buf@, start_tail + offset_from_start, value@)
            }),
    {
        self.rings[core as usize].push_slice_at(start_tail, value, offset_from_start);
        assert(self.rings@ =~= old(self).rings@.update(core as int, self.rings@[core as int]));
    }

    /// What sending `payload` does to the ring for packets to send.
    pub open spec fn sent(
        &self,
        before: &RingBufferClient,
        addr: DivertAddress,
        payload: Seq<u8>,
        r: Result<(), RingError>,
    ) -> bool {
        let ring = before.send;
        let free = ring.size - ring.unread_len();
        let required = 88 + payload.len();
        if !ring.consistent() {
            r == Err::<(), RingError>(RingError::Corrupted) && *self == *before
        } else if free < required {
            r == Err::<(), RingError>(
                RingError::Full { required: required as usize, free: free as usize },
            ) && *self == *before
        } else {
            &&& r is Ok
            &&& *self == (RingBufferClient { send: self.send, ..*before })
            &&& self.send == (RingBufferData {
                tail: ring.tail.wrapping_add(required as usize),
                buf: self.send.buf,
                ..ring
            })
            &&& self.send.buf@ == cells::splice(
                ring.buf@,
                ring.tail as int,
                records::packet_record(addr, payload),
            )
            &&& self.send.unread() == ring.unread() + records::packet_record(addr, payload)
        }
    }

    /// Puts a packet into the ring for packets to send.
    pub fn push_send_packet(&mut self, addr: &DivertAddress, data: &[u8]) -> (r: Result<
        (),
        RingError,
    >)
        requires
            old(self).wf(),
            88 + data@.len() <= usize::MAX,
        ensures
            final(self).wf(),
            final(self).sent(old(self), *addr, data@, r),
    {
        self.push_send_packet_data(addr, &PacketData::Contiguous(data))
    }

    /// Puts a packet that stands in another ring into the ring for packets to send.
    pub fn push_send_packet_data(&mut self, addr: &DivertAddress, data: &PacketData<'_>) -> (r:
        Result<(), RingError>)
        requires
            old(self).wf(),
            88 + data.bytes().len() <= usize::MAX,
        ensures
            final(self).wf(),
            final(self).sent(old(self), *addr, data.bytes(), r),
    {
        let unread: usize = self.send.unread_size();
        if unread > self.size {
            return Err(RingError::Corrupted);
        }
        let free: usize = self.size - unread;
        let len: usize = data.len();
        let required: usize = RECORD_HEADER_SIZE + ADDRESS_SIZE + len;
        if free < required {
            return Err(RingError::Full { required, free });
        }
        let header = RecordHeader {
            len: ((ADDRESS_SIZE + len) as u64 % 0x1_0000_0000u64) as u32,
            ty: 0,
        };
        let head: Vec<u8> = records::encode_header(&header);
        let address: Vec<u8> = records::encode_address(addr);
        let tail: usize = self.send.tail;
        let ghost ring = self.send;
        let ghost buf = ring.buf@;
        let ghost payload = data.bytes();
        proof {
            cells::lemma_pow2_size(self.size);
            records::lemma_header_round_trip(header, Seq::empty());
            records::law_address_round_trip(*addr);
            cells::lemma_splice_twice(buf, tail as int, head@, address@);
            cells::lemma_splice_twice(buf, tail as int, head@ + address@, payload);
        }
        self.send.push_slice_at(tail, &head, 0);
        self.send.push_slice_at(tail, &address, RECORD_HEADER_SIZE);
        match data {
            PacketData::Contiguous(slice) => {
                self.send.push_slice_at(tail, slice, RECORD_HEADER_SIZE + ADDRESS_SIZE);
            },
            PacketData::Wrapped { part1, part2 } => {
                proof {
                    cells::lemma_splice_twice(self.send.buf@, tail + 88, part1@, part2@);
                }
                self.send.push_slice_at(tail, part1, RECORD_HEADER_SIZE + ADDRESS_SIZE);
                self.send.push_slice_at(
                    tail,
                    part2,
                    RECORD_HEADER_SIZE + ADDRESS_SIZE + part1.len(),
                );
            },
        }
        self.send.add_tail(required);
        proof {
            data::law_committed_bytes_come_last(
                ring,
                self.send,
                records::packet_record(*addr, payload),
            );
        }
        Ok(())
    }
}

/// The bytes of the event at the head of the ring, and those of its path.
pub open spec fn event_in(ring: RingBufferData) -> Option<(Seq<u8>, Seq<u8>)> {
    if ring.consistent() {
        scan::event_at(ring.buf@, ring.head as int, ring.unread_len() as nat)
    } else {
        None
    }
}

/// Where the count of turns does not run over, every core has its turn once in as many turns as
/// there are cores.
pub proof fn law_every_core_has_a_turn(c: RingBufferClient, core: u32)
    requires
        core < c.max_cores,
        c.current_core + c.max_cores <= u32::MAX,
    ensures
        exists|j: u32| j < c.max_cores && #[trigger] c.turn(j) == core,
{
    let m = c.max_cores as int;
    let cur = c.current_core as int;
    let j = ((core - cur) % m) as u32;
    vstd::arithmetic::div_mod::lemma_mod_bound(core - cur, m);
    vstd::arithmetic::div_mod::lemma_add_mod_noop(cur, core - cur, m);
    vstd::arithmetic::div_mod::lemma_add_mod_noop(cur, j as int, m);
    vstd::arithmetic::div_mod::lemma_small_mod(core as nat, m as nat);
    vstd::arithmetic::div_mod::lemma_small_mod(j as nat, m as nat);
    assert(c.turn(j) == core);
}

/// A packet that was put into the ring for packets to send is what a reader finds there behind
/// the bytes that were unread before, which stay as they were.
pub proof fn law_sent_packet_is_found(
    before: RingBufferClient,
    after: RingBufferClient,
    addr: DivertAddress,
    payload: Seq<u8>,
)
    requires
        80 + payload.len() <= u32::MAX,
        after.sent(&before, addr, payload, Ok(())),
    ensures
        after.send.unread().take(before.send.unread().len() as int) == before.send.unread(),
        records::next_packet(after.send.unread().skip(before.send.unread().len() as int)) == Some(
            records::FoundPacket {
                skipped: 0,
                total: 88 + payload.len(),
                address: records::address_bytes(addr),
                payload,
            },
        ),
{
    records::law_packet_record_is_found(addr, payload, Seq::empty());
    let record = records::packet_record(addr, payload);
    let n = before.send.unread().len() as int;
    assert(after.send.unread().take(n) =~= before.send.unread());
    assert(after.send.unread().skip(n) =~= record + Seq::empty());
}

/// A packet stands in the ring.
pub open spec fn packet_ready(ring: RingBufferData) -> bool {
    ring.consistent() && records::next_packet(ring.unread()) is Some
}

/// Stepping over dummy records a second time changes nothing.
pub proof fn lemma_skipped_twice(a: RingBufferData, b: RingBufferData, c: RingBufferData)
    requires
        a.wf(),
        skipped(a, b),
        skipped(b, c),
    ensures
        c == b,
        packet_ready(a) == packet_ready(b),
{
    lemma_skipped(a, b);
}

/// One more core has had its turn. A core that had one before has nothing left to step over.
proof fn lemma_one_more_turn(
    before: RingBufferClient,
    mid: RingBufferClient,
    after: RingBufferClient,
    k: u32,
)
    requires
        before.wf(),
        k < before.max_cores,
        mid.turned(&before, k),
        after == (RingBufferClient {
            rings: after.rings,
            current_core: mid.current_core.wrapping_add(1),
            ..mid
        }),
        after.rings@ == mid.rings@.update(before.turn(k), after.rings@[before.turn(k)]),
        skipped(mid.rings@[before.turn(k)], after.rings@[before.turn(k)]),
    ensures
        after.turned(&before, (k + 1) as u32),
        packet_ready(before.rings@[before.turn(k)]) == packet_ready(mid.rings@[before.turn(k)]),
        skipped(before.rings@[before.turn(k)], after.rings@[before.turn(k)]),
        forall|j: u32|
            j < k ==> after.rings@[#[trigger] before.turn(j)] == mid.rings@[before.turn(j)],
{
    let core = before.turn(k);
    let first = before.rings@[core];
    let second = mid.rings@[core];
    let last = after.rings@[core];
    assert(before.settled(k, core, second));
    if before.looked_at(k, core) {
        lemma_skipped_twice(first, second, last);
    }
    assert forall|j: u32| j < k implies after.rings@[#[trigger] before.turn(j)]
        == mid.rings@[before.turn(j)] by {
        if before.turn(j) == core {
            assert(before.looked_at(k, core));
        }
    }
    assert forall|i: int| 0 <= i < before.rings@.len() implies before.settled(
        (k + 1) as u32,
        i,
        #[trigger] after.rings@[i],
    ) by {
        assert(before.settled(k, i, mid.rings@[i]));
        if before.looked_at(k, i) {
            let j = choose|j: u32| j < k && #[trigger] before.turn(j) == i;
            assert(j < k + 1 && before.turn(j) == i);
        }
        if i == core {
            assert(before.looked_at((k + 1) as u32, i));
        } else if before.looked_at((k + 1) as u32, i) {
            let j = choose|j: u32| j < k + 1 && #[trigger] before.turn(j) == i;
            assert(j < k);
            assert(before.looked_at(k, i));
        }
    }
}

/// Stepping over dummy records does not change which packet is found.
pub proof fn lemma_same_packet(a: RingBufferData, b: RingBufferData)
    requires
        a.wf(),
        skipped(a, b),
        packet_ready(a),
    ensures
        packet_ready(b),
        records::next_packet(b.unread()) == Some(
            records::FoundPacket { skipped: 0, ..records::next_packet(a.unread())->0 },
        ),
        b.head == a.head.wrapping_add(records::next_packet(a.unread())->0.skipped as usize),
{
    lemma_skipped(a, b);
}

/// An event that the driver put at the front of a ring is the one that the client finds there, with
/// the text of its path.
pub proof fn law_event_is_read(ring: RingBufferData, e: FileEvent, path: Seq<char>, rest: Seq<u8>)
    requires
        ring.wf(),
        ring.consistent(),
        e.path_len == utf16::encoded(path).len(),
        552 + 2 * utf16::encoded(path).len() <= u32::MAX,
        ring.unread() == scan::event_record(e, utf16::encoded(path)) + rest,
    ensures
        event_in(ring) matches Some((event, text)) && file_types::is_event(e, event) && (forall|
            f: FileEvent,
        | #[trigger]
            file_types::is_event(f, event) ==> f == e) && file_types::path_text(text) == path,
{
    let u = utf16::encoded(path);
    let record = scan::event_record(e, u);
    file_types::law_event_round_trip(e);
    file_types::law_path_reads_back(path);
    scan::lemma_event_header(u.len(), Seq::empty());
    assert(record.len() == 560 + 2 * u.len());
    assert(ring.unread().len() == ring.unread_len());
    assert(ring.unread().take(record.len() as int) =~= record);
    cells::lemma_pow2_size(ring.size);
    scan::law_event_record_is_found(
        ring.buf@,
        ring.head as int,
        ring.unread_len() as nat,
        e,
        u,
    );
}

} // verus!
