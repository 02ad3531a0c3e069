//! Finding records among the unread bytes of a ring.
use vstd::arithmetic::power2::is_pow2;
use vstd::prelude::*;
use crate::bytes;
use crate::file_types;
use crate::file_types::{
    FileCallbackDecision, FileEvent, FILE_ACTION_ALLOW, FILE_ACTION_DENY, FILE_ACTION_REDIRECT,
    FILE_EVENT_SIZE, MAX_RULE_PATH_LEN,
};
use crate::ringbuffer::cells;
use crate::ringbuffer::records;
use crate::ringbuffer::records::{ADDRESS_SIZE, DUMMY_MARKER, RECORD_HEADER_SIZE};
use crate::types::DivertAddress;
use crate::utf16;

verus! {

/// The bytes of a packet in a ring: in one piece, or in two where they run over the end.
pub enum PacketData<'a> {
    Contiguous(&'a [u8]),
    Wrapped { part1: &'a [u8], part2: &'a [u8] },
}

impl<'a> PacketData<'a> {
    /// The bytes in order.
    pub open spec fn bytes(&self) -> Seq<u8> {
        match self {
            PacketData::Contiguous(s) => s@,
            PacketData::Wrapped { part1, part2 } => part1@ + part2@,
        }
    }

    pub fn len(&self) -> (n: usize)
        requires
            self.bytes().len() <= usize::MAX,
        ensures
            n == self.bytes().len(),
    {
        match self {
            PacketData::Contiguous(s) => s.len(),
            PacketData::Wrapped { part1, part2 } => part1.len() + part2.len(),
        }
    }

    pub fn is_empty(&self) -> (b: bool)
        ensures
            b == (self.bytes().len() == 0),
    {
        match self {
            PacketData::Contiguous(s) => s.len() == 0,
            PacketData::Wrapped { part1, part2 } => part1.len() == 0 && part2.len() == 0,
        }
    }

    /// A copy of the bytes.
    pub fn to_vec(&self) -> (v: Vec<u8>)
        ensures
            v@ == self.bytes(),
    {
        let mut v: Vec<u8> = Vec::new();
        match self {
            PacketData::Contiguous(s) => {
                bytes::push_bytes(&mut v, s);
            },
            PacketData::Wrapped { part1, part2 } => {
                bytes::push_bytes(&mut v, part1);
                bytes::push_bytes(&mut v, part2);
            },
        }
        assert(v@ =~= self.bytes());
        v
    }
}

/// A view of the `len` bytes from position `pos` on.
pub fn get_packet_data_view<'a>(buf: &'a [u8], pos: usize, len: usize) -> (d: PacketData<'a>)
    requires
        is_pow2(buf@.len() as int),
        len <= buf@.len(),
    ensures
        d.bytes() == cells::window(buf@, pos as int, len as nat),
        d is Contiguous <==> pos % (buf@.len() as usize) + len <= buf@.len(),
{
    let size: usize = buf.len();
    proof {
        cells::lemma_pow2_size(size);
    }
    let offset: usize = pos & (size - 1);
    let room: usize = size - offset;
    proof {
        vstd::arithmetic::div_mod::lemma_small_mod(offset as nat, size as nat);
        cells::lemma_same_cell(buf@, pos as int, offset as int);
        cells::lemma_window_straight(buf@, offset as int, len as nat);
    }
    if len <= room {
        let part = vstd::slice::slice_subrange(buf, offset, offset + len);
        PacketData::Contiguous(part)
    } else {
        let part1 = vstd::slice::slice_subrange(buf, offset, size);
        let part2 = vstd::slice::slice_subrange(buf, 0, len - room);
        PacketData::Wrapped { part1, part2 }
    }
}

/// A packet found in a ring.
pub struct PacketRecord<'a> {
    pub address: DivertAddress,
    pub data: PacketData<'a>,
    /// Length of the record with its header.
    pub record_len: usize,
}

/// Where the head of a ring is once dummy records in front are stepped over, and the packet that
/// stands there.
pub struct PacketScan<'a> {
    pub head: usize,
    pub packet: Option<PacketRecord<'a>>,
}

/// The unread bytes of a ring with cells `buf`, if head and tail are no further apart than it is
/// long.
pub open spec fn unread_bytes(buf: Seq<u8>, head: usize, tail: usize) -> Option<Seq<u8>> {
    if tail.wrapping_sub(head) <= buf.len() {
        Some(cells::window(buf, head as int, tail.wrapping_sub(head) as nat))
    } else {
        None
    }
}

/// `scan` is what looking for a packet gives.
pub open spec fn scanned_packet(buf: Seq<u8>, head: usize, tail: usize, scan: PacketScan) -> bool {
    match unread_bytes(buf, head, tail) {
        None => scan.head == head && scan.packet is None,
        Some(w) => {
            let skipped = records::dummies(w);
            &&& scan.head == head.wrapping_add(skipped as usize)
            &&& match (records::packet_at(w.skip(skipped as int)), scan.packet) {
                (Some((address, payload)), Some(p)) => {
                    &&& records::is_address(p.address, address)
                    &&& p.data.bytes() == payload
                    &&& p.record_len == 88 + payload.len()
                },
                (None, None) => true,
                _ => false,
            }
        },
    }
}

/// Steps over dummy records at the head of a ring that has `unread` unread bytes; returns how many
/// bytes they take up.
fn count_dummies(buf: &[u8], head: usize, unread: usize) -> (n: usize)
    requires
        is_pow2(buf@.len() as int),
        unread <= buf@.len(),
    ensures
        n == records::dummies(cells::window(buf@, head as int, unread as nat)),
        n <= unread,
{
    let ghost w = cells::window(buf@, head as int, unread as nat);
    let mut n: usize = 0;
    assert(w.skip(0) =~= w);
    while unread - n >= RECORD_HEADER_SIZE
        invariant
            is_pow2(buf@.len() as int),
            unread <= buf@.len(),
            n <= unread,
            w == cells::window(buf@, head as int, unread as nat),
            w.len() == unread,
            records::dummies(w) == n + records::dummies(w.skip(n as int)),
        decreases unread - n,
    {
        let (len, ty) = read_header(buf, head, unread, n);
        if ty != DUMMY_MARKER || len as usize > unread - n - RECORD_HEADER_SIZE {
            return n;
        }
        assert(w.skip(n as int).skip(8 + len) =~= w.skip(n + 8 + len));
        n = n + RECORD_HEADER_SIZE + len as usize;
    }
    n
}

/// The header that stands `n` bytes behind the head.
fn read_header(buf: &[u8], head: usize, unread: usize, n: usize) -> (r: (u32, u32))
    requires
        is_pow2(buf@.len() as int),
        n + 8 <= unread <= buf@.len(),
    ensures
        ({
            let w = cells::window(buf@, head as int, unread as nat).skip(n as int);
            r.0 == bytes::le32(w, 0) && r.1 == bytes::le32(w, 4)
        }),
{
    let pos: usize = head.wrapping_add(n);
    assert(buf.len() == buf@.len());
    proof {
        reveal(bytes::le32);
        lemma_moved_window(buf@, head, unread as nat, n, 8);
    }
    let h: Vec<u8> = cells::read_cells(buf, pos, RECORD_HEADER_SIZE);
    (bytes::read_le32(&h, 0), bytes::read_le32(&h, 4))
}

/// Cells read behind a position that was moved on are a part of the window.
proof fn lemma_moved_window(buf: Seq<u8>, head: usize, unread: nat, n: usize, len: nat)
    requires
        is_pow2(buf.len() as int),
        buf.len() <= usize::MAX,
        n + len <= unread,
    ensures
        ({
            let w = cells::window(buf, head as int, unread);
            let part = cells::window(buf, head.wrapping_add(n) as int, len);
            &&& part == w.subrange(n as int, n + len)
            &&& forall|i: int| 0 <= i < len ==> #[trigger] part[i] == w.skip(n as int)[i]
        }),
{
    let size = buf.len() as usize;
    cells::lemma_pow2_size(size);
    cells::lemma_wrapping_cell(head, n, size);
    cells::lemma_same_cell(buf, head.wrapping_add(n) as int, head + n);
    cells::lemma_window_part(buf, head as int, unread, n as int, n + len);
    let w = cells::window(buf, head as int, unread);
    assert forall|i: int| 0 <= i < len implies #[trigger] cells::window(
        buf,
        head.wrapping_add(n) as int,
        len,
    )[i] == w.skip(n as int)[i] by {
        assert(w.subrange(n as int, n + len)[i] == w[n + i]);
    }
}

/// Looks for a packet at the head of a ring.
pub fn scan_packet<'a>(buf: &'a [u8], head: usize, tail: usize) -> (scan: PacketScan<'a>)
    requires
        is_pow2(buf@.len() as int),
    ensures
        scanned_packet(buf@, head, tail, scan),
{
    let unread: usize = tail.wrapping_sub(head);
    if unread > buf.len() {
        return PacketScan { head, packet: None };
    }
    let n: usize = count_dummies(buf, head, unread);
    let at: usize = head.wrapping_add(n);
    let left: usize = unread - n;
    let ghost w = cells::window(buf@, head as int, unread as nat);
    let ghost v = w.skip(n as int);
    if left < RECORD_HEADER_SIZE + ADDRESS_SIZE {
        return PacketScan { head: at, packet: None };
    }
    let (len, ty) = read_header(buf, head, unread, n);
    if ty == DUMMY_MARKER || (len as usize) < ADDRESS_SIZE || len as usize > left
        - RECORD_HEADER_SIZE {
        return PacketScan { head: at, packet: None };
    }
    let payload_len: usize = len as usize - ADDRESS_SIZE;
    proof {
        lemma_moved_window(buf@, head, unread as nat, (n + 8) as usize, 80);
        lemma_moved_window(buf@, head, unread as nat, (n + 88) as usize, payload_len as nat);
        assert(w.subrange(n + 8, n + 88) =~= v.subrange(8, 88));
        assert(w.subrange(n + 88, n + 88 + payload_len) =~= v.subrange(88, 8 + len));
    }
    let raw: Vec<u8> = cells::read_cells(
        buf,
        head.wrapping_add(n + RECORD_HEADER_SIZE),
        ADDRESS_SIZE,
    );
    let address = records::decode_address(&raw);
    let data = get_packet_data_view(
        buf,
        head.wrapping_add(n + RECORD_HEADER_SIZE + ADDRESS_SIZE),
        payload_len,
    );
    PacketScan {
        head: at,
        packet: Some(
            PacketRecord { address, data, record_len: RECORD_HEADER_SIZE + len as usize },
        ),
    }
}

/// A file event found in a ring.
pub struct EventRecord {
    pub event: FileEvent,
    pub path: String,
    /// Length of the record with its header.
    pub record_len: usize,
}

/// Where the head of a ring is once dummy records in front are stepped over, and the file event
/// that stands there.
pub struct EventScan {
    pub head: usize,
    pub event: Option<EventRecord>,
}

/// The header of a file event with a path of `path_len` code units.
#[verifier::opaque]
pub open spec fn event_header(path_len: nat) -> Seq<u8> {
    records::header_bytes(
        records::RecordHeader { len: ((552 + 2 * path_len) % 0x1_0000_0000) as u32, ty: 0 },
    )
}

pub proof fn lemma_event_header(path_len: nat, rest: Seq<u8>)
    ensures
        event_header(path_len).len() == 8,
        bytes::le32(event_header(path_len) + rest, 0) == (552 + 2 * path_len) % 0x1_0000_0000,
        bytes::le32(event_header(path_len) + rest, 4) == 0,
{
    reveal(event_header);
    records::lemma_header_round_trip(
        records::RecordHeader { len: ((552 + 2 * path_len) % 0x1_0000_0000) as u32, ty: 0 },
        rest,
    );
}

/// The bytes of a record with the event `e` and the path that goes with it.
pub open spec fn event_record(e: FileEvent, path: Seq<u16>) -> Seq<u8> {
    event_header(path.len()) + file_types::event_bytes(e) + file_types::unit_bytes(path)
}

/// The bytes of the event that stands at position `pos`, and those of its path, where `unread`
/// bytes are to be read from there on.
///
/// The path is as long as the event says, and may run over the end of the ring once.
pub open spec fn event_at(buf: Seq<u8>, pos: int, unread: nat) -> Option<(Seq<u8>, Seq<u8>)> {
    let w = cells::window(buf, pos, unread);
    let event = w.subrange(8, 560);
    let path_len = bytes::le32(event, 16);
    if unread < 560 || bytes::le32(w, 4) == DUMMY_MARKER || unread < 8 + bytes::le32(w, 0) || (pos
        + 560) % (buf.len() as int) + 2 * path_len > 2 * buf.len() {
        None
    } else {
        Some((event, cells::window(buf, pos + 560, (2 * path_len) as nat)))
    }
}

/// `scan` is what looking for a file event gives.
pub open spec fn scanned_event(buf: Seq<u8>, head: usize, tail: usize, scan: EventScan) -> bool {
    match unread_bytes(buf, head, tail) {
        None => scan.head == head && scan.event is None,
        Some(w) => {
            let skipped = records::dummies(w);
            &&& scan.head == head.wrapping_add(skipped as usize)
            &&& match (
                event_at(buf, head + skipped, (w.len() - skipped) as nat),
                scan.event,
            ) {
                (Some((event, path)), Some(e)) => {
                    &&& file_types::is_event(e.event, event)
                    &&& e.path@ == file_types::path_text(path)
                    &&& e.record_len == 8 + bytes::le32(w.skip(skipped as int), 0)
                },
                (None, None) => true,
                _ => false,
            }
        },
    }
}

/// Reads `n` code units from position `pos` on.
fn read_path(buf: &[u8], pos: usize, n: usize) -> (u: Vec<u16>)
    requires
        is_pow2(buf@.len() as int),
    ensures
        u@ == file_types::units_at(cells::window(buf@, pos as int, 2 * n as nat), 0, n as nat),
{
    let ghost w = cells::window(buf@, pos as int, 2 * n as nat);
    let ghost size = buf@.len() as usize;
    let mut u: Vec<u16> = Vec::new();
    let mut i: usize = 0;
    let mut at: usize = pos;
    assert(buf.len() == buf@.len());
    while i < n
        invariant
            i <= n,
            is_pow2(buf@.len() as int),
            size == buf@.len(),
            w == cells::window(buf@, pos as int, 2 * n as nat),
            at % size == (pos + 2 * i) % (size as int),
            u@ == file_types::units_at(w, 0, i as nat),
        decreases n - i,
    {
        proof {
            cells::lemma_pow2_size(size);
            cells::lemma_same_cell(buf@, at as int, pos + 2 * i);
            cells::lemma_window_part(buf@, pos as int, 2 * n as nat, 2 * i, 2 * i + 2);
            cells::lemma_wrapping_cell(at, 2, size);
            vstd::arithmetic::div_mod::lemma_add_mod_noop(at as int, 2, size as int);
            vstd::arithmetic::div_mod::lemma_add_mod_noop(pos + 2 * i, 2, size as int);
        }
        let pair: Vec<u8> = cells::read_cells(buf, at, 2);
        assert(pair@[0] == w.subrange(2 * i, 2 * i + 2)[0]);
        assert(pair@[1] == w.subrange(2 * i, 2 * i + 2)[1]);
        u.push(bytes::read_le16(&pair, 0));
        at = at.wrapping_add(2);
        i += 1;
        assert(u@ =~= file_types::units_at(w, 0, i as nat));
    }
    u
}

/// Looks for a file event at the head of a ring.
pub fn scan_event(buf: &[u8], head: usize, tail: usize) -> (scan: EventScan)
    requires
        is_pow2(buf@.len() as int),
    ensures
        scanned_event(buf@, head, tail, scan),
{
    let size: usize = buf.len();
    let unread: usize = tail.wrapping_sub(head);
    if unread > size {
        return EventScan { head, event: None };
    }
    let n: usize = count_dummies(buf, head, unread);
    let at: usize = head.wrapping_add(n);
    let left: usize = unread - n;
    let ghost w = cells::window(buf@, head as int, unread as nat);
    let ghost v = w.skip(n as int);
    proof {
        cells::lemma_window_part(buf@, head as int, unread as nat, n as int, unread as int);
        assert(v =~= w.subrange(n as int, unread as int));
    }
    if left < RECORD_HEADER_SIZE + FILE_EVENT_SIZE {
        return EventScan { head: at, event: None };
    }
    let (len, ty) = read_header(buf, head, unread, n);
    if ty == DUMMY_MARKER || len as usize > left - RECORD_HEADER_SIZE {
        return EventScan { head: at, event: None };
    }
    proof {
        lemma_moved_window(buf@, head, unread as nat, (n + 8) as usize, 552);
        assert(w.subrange(n + 8, n + 560) =~= v.subrange(8, 560));
    }
    let raw: Vec<u8> = cells::read_cells(
        buf,
        head.wrapping_add(n + RECORD_HEADER_SIZE),
        FILE_EVENT_SIZE,
    );
    let event = file_types::decode_event(&raw);
    let units: usize = event.path_len as usize;
    let skip: usize = n + RECORD_HEADER_SIZE + FILE_EVENT_SIZE;
    let path_at: usize = head.wrapping_add(skip);
    proof {
        cells::lemma_pow2_size(size);
        cells::lemma_wrapping_cell(head, skip, size);
        cells::lemma_same_cell(buf@, path_at as int, head + skip);
    }
    let offset: usize = path_at & (size - 1);
    if offset as u128 + 2 * units as u128 > 2 * size as u128 {
        return EventScan { head: at, event: None };
    }
    let path_units: Vec<u16> = read_path(buf, path_at, units);
    let path: String = utf16::decode_lossy(&path_units);
    EventScan {
        head: at,
        event: Some(EventRecord { event, path, record_len: RECORD_HEADER_SIZE + len as usize }),
    }
}

/// A file event that was recorded together with its path is found, with that path.
pub proof fn law_event_record_is_found(
    buf: Seq<u8>,
    pos: int,
    unread: nat,
    e: FileEvent,
    path: Seq<u16>,
)
    requires
        0 < buf.len(),
        e.path_len == path.len(),
        552 + 2 * path.len() <= u32::MAX,
        560 + 2 * path.len() <= unread <= buf.len(),
        cells::window(buf, pos, unread).take((560 + 2 * path.len()) as int) == event_record(e, path),
    ensures
        event_at(buf, pos, unread) == Some(
            (file_types::event_bytes(e), file_types::unit_bytes(path)),
        ),
        file_types::units_at(file_types::unit_bytes(path), 0, path.len()) == path,
{
    let eb = file_types::event_bytes(e);
    let pb = file_types::unit_bytes(path);
    assert(event_at(buf, pos, unread) == Some((eb, pb))) by {
        file_types::law_event_round_trip(e);
        lemma_event_header(path.len(), eb + pb);
        lemma_event_parts(buf, pos, unread, event_header(path.len()), eb, pb);
    }
    assert(file_types::units_at(pb, 0, path.len()) == path) by {
        assert(pb.subrange(0, pb.len() as int) =~= pb);
        file_types::lemma_units_round_trip(path, pb, 0);
    }
}

proof fn lemma_event_parts(
    buf: Seq<u8>,
    pos: int,
    unread: nat,
    hb: Seq<u8>,
    eb: Seq<u8>,
    pb: Seq<u8>,
)
    requires
        hb.len() == 8,
        eb.len() == 552,
        560 + pb.len() <= unread <= buf.len(),
        cells::window(buf, pos, unread).take((560 + pb.len()) as int) == hb + eb + pb,
        bytes::le32(hb + (eb + pb), 0) == 552 + pb.len(),
        bytes::le32(hb + (eb + pb), 4) == 0,
        2 * bytes::le32(eb, 16) == pb.len(),
    ensures
        event_at(buf, pos, unread) == Some((eb, pb)),
{
    let w = cells::window(buf, pos, unread);
    let r = hb + eb + pb;
    let n = r.len() as int;
    records::lemma_three_parts(hb, eb, pb);
    assert forall|i: int| 0 <= i < n implies w[i] == r[i] by {
        assert(w.take(n)[i] == w[i]);
    }
    assert(bytes::le32(w, 0) == bytes::le32(r, 0) && bytes::le32(w, 4) == bytes::le32(r, 4)) by {
        reveal(bytes::le32);
    }
    assert(w.subrange(8, 560) =~= eb);
    cells::lemma_window_part(buf, pos, unread, 560, n);
    assert(w.subrange(560, n) =~= pb);
}

/// `after` is the event `e` with a decision on it. A path to redirect to is cut to 260 code
/// units.
pub open spec fn decided(e: FileEvent, decision: FileCallbackDecision, after: FileEvent) -> bool {
    &&& after == (FileEvent {
        decision: after.decision,
        redirect_path_len: after.redirect_path_len,
        redirect_path: after.redirect_path,
        ..e
    })
    &&& match decision {
        FileCallbackDecision::Allow => after.decision == FILE_ACTION_ALLOW
            && after.redirect_path_len == 0 && after.redirect_path == e.redirect_path,
        FileCallbackDecision::Deny => after.decision == FILE_ACTION_DENY && after.redirect_path_len
            == 0 && after.redirect_path == e.redirect_path,
        FileCallbackDecision::Redirect(target) => {
            let u = utf16::encoded(target@);
            &&& after.decision == FILE_ACTION_REDIRECT
            &&& after.redirect_path_len == (if u.len() < 260 {
                u.len() as int
            } else {
                260
            })
            &&& after.redirect_path@ == file_types::padded_path(u)
        },
    }
}

/// Puts a decision on an event.
pub fn decide(e: &FileEvent, decision: &FileCallbackDecision) -> (after: FileEvent)
    ensures
        decided(*e, *decision, after),
{
    let mut after: FileEvent = *e;
    match decision {
        FileCallbackDecision::Allow => {
            after.decision = FILE_ACTION_ALLOW;
            after.redirect_path_len = 0;
        },
        FileCallbackDecision::Deny => {
            after.decision = FILE_ACTION_DENY;
            after.redirect_path_len = 0;
        },
        FileCallbackDecision::Redirect(target) => {
            after.decision = FILE_ACTION_REDIRECT;
            let units: Vec<u16> = utf16::encode(target.as_str());
            let n: usize = if units.len() < MAX_RULE_PATH_LEN {
                units.len()
            } else {
                MAX_RULE_PATH_LEN
            };
            after.redirect_path_len = n as u32;
            after.redirect_path = file_types::pad_path(&units);
        },
    }
    after
}

/// A packet at the front of what is unread is what looking for one gives: its address and its bytes,
/// and how long its record is.
pub proof fn law_packet_is_scanned(
    buf: Seq<u8>,
    head: usize,
    tail: usize,
    scan: PacketScan,
    a: DivertAddress,
    packet: Seq<u8>,
    rest: Seq<u8>,
)
    requires
        tail.wrapping_sub(head) <= buf.len(),
        80 + packet.len() <= u32::MAX,
        cells::window(buf, head as int, tail.wrapping_sub(head) as nat) == records::packet_record(
            a,
            packet,
        ) + rest,
        scanned_packet(buf, head, tail, scan),
    ensures
        scan.head == head,
        scan.packet matches Some(p) && p.address == a && p.data.bytes() == packet && p.record_len
            == 88 + packet.len(),
{
    let w = records::packet_record(a, packet) + rest;
    records::law_packet_record_is_found(a, packet, rest);
    records::law_address_round_trip(a);
    assert(w.skip(0) =~= w);
}

} // verus!
