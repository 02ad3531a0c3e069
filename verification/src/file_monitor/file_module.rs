//! State of the file monitor: its rules, the ring through which it reports, and the operations
//! that wait for a decision.
use vstd::prelude::*;
use crate::bytes;
use crate::file_monitor::minifilter::FileMonitor;
use crate::file_types;
use crate::file_types::{FileDecision, FileEvent, FileModuleConfig, FILE_EVENT_SIZE};
use crate::ioctl_code::IoctlMMapResponse;
use crate::ringbuffer::per_cpu_ring;
use crate::ringbuffer::per_cpu_ring::{Notify, PerCpuRingBuffer, Piece};
use crate::ringbuffer::records;
use crate::ringbuffer::records::{RecordHeader, RECORD_HEADER_SIZE};
use crate::ringbuffer::scan;
use crate::status::{
    nt_success, STATUS_BUFFER_TOO_SMALL, STATUS_INSUFFICIENT_RESOURCES,
    STATUS_INVALID_DEVICE_REQUEST, STATUS_NOT_FOUND, STATUS_SUCCESS,
};

verus! {

/// Size of the ring for file events.
pub const FILE_RING_SIZE: usize = 0x20_0000;

/// Size of a decision in a request.
pub const FILE_DECISION_SIZE: usize = 8;

/// An operation that waits for a decision.
#[derive(Clone, Copy, Debug, PartialEq, Eq, Structural)]
pub struct PendingTransaction {
    pub transaction_id: u64,
    /// Where its record starts in the ring.
    pub start_tail: usize,
    /// A decision has come.
    pub signaled: bool,
}

/// The operations that wait for a decision.
pub struct TransactionTracker {
    pub transactions: Vec<PendingTransaction>,
}

/// Index of the first transaction with an id, or their number.
pub open spec fn first_with_id(t: Seq<PendingTransaction>, id: u64) -> int
    decreases t.len(),
{
    if t.len() == 0 || t[0].transaction_id == id {
        0
    } else {
        1 + first_with_id(t.drop_first(), id)
    }
}

/// The transactions without the first one with an id.
pub open spec fn without(t: Seq<PendingTransaction>, id: u64) -> Seq<PendingTransaction> {
    let i = first_with_id(t, id);
    if i < t.len() {
        t.remove(i)
    } else {
        t
    }
}

/// The transactions once a decision on an id has come.
pub open spec fn woken(t: Seq<PendingTransaction>, id: u64) -> Seq<PendingTransaction> {
    let i = first_with_id(t, id);
    if i < t.len() {
        t.update(i, PendingTransaction { signaled: true, ..t[i] })
    } else {
        t
    }
}

impl TransactionTracker {
    pub open spec fn position(&self, id: u64) -> int {
        first_with_id(self.transactions@, id)
    }

    pub fn new() -> (t: TransactionTracker)
        ensures
            t.transactions@ == Seq::<PendingTransaction>::empty(),
    {
        TransactionTracker { transactions: Vec::new() }
    }

    fn find(&self, id: u64) -> (i: usize)
        ensures
            i == self.position(id),
            i <= self.transactions@.len(),
            i < self.transactions@.len() ==> self.transactions@[i as int].transaction_id == id,
            forall|j: int|
                0 <= j < i ==> (#[trigger] self.transactions@[j]).transaction_id != id,
    {
        let mut i: usize = 0;
        assert(self.transactions@.skip(0) =~= self.transactions@);
        while i < self.transactions.len()
            invariant
                i <= self.transactions@.len(),
                self.position(id) == i + first_with_id(self.transactions@.skip(i as int), id),
                forall|j: int|
                    0 <= j < i ==> (#[trigger] self.transactions@[j]).transaction_id != id,
            decreases self.transactions@.len() - i,
        {
            if self.transactions[i].transaction_id == id {
                return i;
            }
            assert(self.transactions@.skip(i as int).drop_first() =~= self.transactions@.skip(
                i + 1,
            ));
            i += 1;
        }
        i
    }

    /// Adds a transaction.
    pub fn add(&mut self, tx: PendingTransaction)
        ensures
            final(self).transactions@ == old(self).transactions@.push(tx),
    {
        self.transactions.push(tx);
    }

    /// Takes a transaction off, if it is there.
    pub fn remove(&mut self, id: u64)
        ensures
            final(self).transactions@ == without(old(self).transactions@, id),
    {
        let i: usize = self.find(id);
        if i < self.transactions.len() {
            self.transactions.remove(i);
        }
    }

    /// Wakes the operation that a decision is about; returns whether there is one.
    pub fn signal(&mut self, decision: &FileDecision) -> (found: bool)
        ensures
            found == exists|j: int|
                0 <= j < old(self).transactions@.len() && (#[trigger] old(
                    self,
                ).transactions@[j]).transaction_id == decision.transaction_id,
            found == (old(self).position(decision.transaction_id) < old(self).transactions@.len()),
            final(self).transactions@ == woken(old(self).transactions@, decision.transaction_id),
    {
        let i: usize = self.find(decision.transaction_id);
        if i < self.transactions.len() {
            let tx: PendingTransaction = self.transactions[i];
            self.transactions[i] = PendingTransaction {
                transaction_id: tx.transaction_id,
                start_tail: tx.start_tail,
                signaled: true,
            };
            true
        } else {
            false
        }
    }
}

/// The file monitor of one handle.
pub struct FileModule {
    pub config: FileModuleConfig,
    pub ring_buffer: Option<PerCpuRingBuffer>,
    /// The registered filter, or 0.
    pub filter_handle: u64,
    /// Process whose operations are left alone.
    pub exempt_pid: u32,
}

/// The event that reports an operation: allowed, unless a decision says otherwise.
pub open spec fn new_event(
    e: FileEvent,
    transaction_id: u64,
    process_id: u32,
    op_code: u32,
    path_len: nat,
) -> bool {
    &&& e.transaction_id == transaction_id
    &&& e.process_id == process_id
    &&& e.op_code == op_code
    &&& e.path_len == path_len
    &&& e.decision == 1
    &&& e.redirect_path_len == 0
    &&& e.redirect_path@ == Seq::new(260, |i: int| 0u16)
}

/// What starting a file monitor reports back.
#[derive(Clone, Copy, Debug, PartialEq, Eq)]
pub enum FileStartupEvent {
    /// Start, for a client with this process id.
    Begin { initiator_pid: u32 },
    /// The registry keys were written, or not.
    Provisioned(Result<(), i32>),
    /// The filter was registered, under this handle if the status is a success.
    Registered { status: i32, filter: u64 },
    /// The filter was told to run.
    Started { status: i32 },
}

/// What is to be done next.
#[derive(Clone, Copy, Debug, PartialEq, Eq)]
pub enum FileStartupAction {
    /// Write the registry keys.
    Provision,
    /// Register the filter.
    Register,
    /// Let the filter run.
    Start { filter: u64 },
    /// Unregister the filter, if one is named; that is all.
    Finish { unregister: Option<u64>, result: Result<(), i32> },
}

/// What one step of starting a monitor does.
pub open spec fn startup_step(
    before: FileModule,
    after: FileModule,
    monitor: FileMonitor,
    monitor_after: FileMonitor,
    context: u64,
    event: FileStartupEvent,
    r: FileStartupAction,
) -> bool {
    &&& monitor_after.next_tx_id == monitor.next_tx_id
    &&& after.config == before.config
    &&& after.ring_buffer == before.ring_buffer
    &&& match event {
        FileStartupEvent::Begin { initiator_pid } => {
            &&& r == FileStartupAction::Provision
            &&& after == (FileModule { exempt_pid: initiator_pid, ..before })
            &&& monitor_after == monitor
        },
        FileStartupEvent::Provisioned(Err(status)) => {
            &&& r == (FileStartupAction::Finish { unregister: None, result: Err(status) })
            &&& after == before
            &&& monitor_after == monitor
        },
        FileStartupEvent::Provisioned(Ok(_)) => {
            &&& r == FileStartupAction::Register
            &&& after == before
            &&& monitor_after.active == context
            &&& monitor_after.tracker matches Some(t) && t.transactions@.len() == 0
        },
        FileStartupEvent::Registered { status, filter } => {
            &&& after.exempt_pid == before.exempt_pid
            &&& monitor_after.tracker == monitor.tracker
            &&& if status >= 0 {
                &&& r == (FileStartupAction::Start { filter })
                &&& after.filter_handle == filter
                &&& monitor_after == monitor
            } else {
                &&& r == (FileStartupAction::Finish { unregister: None, result: Err(status) })
                &&& after == before
                &&& monitor_after.active == 0
            }
        },
        FileStartupEvent::Started { status } => {
            &&& after.exempt_pid == before.exempt_pid
            &&& monitor_after.tracker == monitor.tracker
            &&& if status >= 0 {
                &&& r == (FileStartupAction::Finish { unregister: None, result: Ok(()) })
                &&& after == before
                &&& monitor_after == monitor
            } else {
                &&& r == (FileStartupAction::Finish {
                    unregister: Some(before.filter_handle),
                    result: Err(status),
                })
                &&& after.filter_handle == 0
                &&& monitor_after.active == 0
            }
        },
    }
}

/// What a decision that the client sends does.
pub open spec fn decision_sent(
    monitor: FileMonitor,
    after: FileMonitor,
    input_len: usize,
    status: i32,
    input: Option<Seq<u8>>,
    r: i32,
) -> bool {
    &&& after.active == monitor.active
    &&& after.next_tx_id == monitor.next_tx_id
    &&& if input_len < FILE_DECISION_SIZE {
        r == STATUS_BUFFER_TOO_SMALL && after == monitor
    } else if status < 0 || input is None {
        r == status && after == monitor
    } else {
        let id = bytes::le64(input->0, 0);
        match (monitor.tracker, after.tracker) {
            (None, None) => r == STATUS_INVALID_DEVICE_REQUEST,
            (Some(t), Some(u)) => {
                &&& u.transactions@ == woken(t.transactions@, id)
                &&& r == (if t.position(id) < t.transactions@.len() {
                    STATUS_SUCCESS
                } else {
                    STATUS_NOT_FOUND
                })
            },
            _ => false,
        }
    }
}

/// What reporting an operation does to a module, and what comes of it.
pub open spec fn event_pushed(
    before: FileModule,
    after: FileModule,
    transaction_id: u64,
    process_id: u32,
    op_code: u32,
    path: Seq<u16>,
    r: Result<(usize, Option<Notify>), i32>,
) -> bool {
    &&& after == (FileModule { ring_buffer: after.ring_buffer, ..before })
    &&& match before.ring_buffer {
        None => r == Err::<(usize, Option<Notify>), i32>(STATUS_INVALID_DEVICE_REQUEST)
            && after.ring_buffer is None,
        Some(rb) => {
            let ring = rb.ring(0);
            let total = 560 + 2 * path.len();
            let rings = after.ring_buffer->0;
            &&& after.ring_buffer is Some
            &&& rings.ring_size() == rb.ring_size()
            &&& rings.ring(0).head == ring.head
            &&& rings.notify_cb == rb.notify_cb
            &&& rings.notify_ctx == rb.notify_ctx
            &&& if ring.unread_len() + total > ring.size {
                &&& r == Err::<(usize, Option<Notify>), i32>(STATUS_INSUFFICIENT_RESOURCES)
                &&& rings.ring(0) == ring
                &&& rings.is_watching == rb.is_watching
            } else {
                &&& r == Ok::<(usize, Option<Notify>), i32>((ring.tail, rb.due()))
                &&& !rings.is_watching
                &&& exists|e: FileEvent| #[trigger]
                    new_event(e, transaction_id, process_id, op_code, path.len())
                        && rings.ring(0).unread() == ring.unread() + scan::event_record(e, path)
            }
        },
    }
}

impl FileModule {
    pub open spec fn wf(&self) -> bool {
        self.ring_buffer matches Some(rb) ==> {
            &&& rb.wf()
            &&& rb.workers_num == 1
            &&& rb.ring(0).consistent()
            &&& rb.ring(0).settled()
        }
    }

    /// No rules, an empty ring, nobody waiting, no filter.
    pub open spec fn is_new(&self) -> bool {
        &&& self.wf()
        &&& self.config.timeout_ms == 3000
        &&& self.config.default_action == 1
        &&& self.config.rule_count == 0
        &&& forall|i: int| 0 <= i < 16 ==> file_types::is_blank(#[trigger] self.config.rules@[i])
        &&& self.ring_buffer matches Some(rb) && rb.is_new(FILE_RING_SIZE, 1)
        &&& self.filter_handle == 0
        &&& self.exempt_pid == 0
    }

    /// A monitor without rules, with an empty ring.
    pub fn new() -> (r: Result<FileModule, i32>)
        ensures
            match r {
                Ok(m) => m.is_new(),
                Err(_) => false,
            },
    {
        proof {
            lemma_file_ring_size();
        }
        match PerCpuRingBuffer::allocate(FILE_RING_SIZE, 1, 0) {
            Ok(rb) => {
                assert(rb.rb_datas@[0].unread_len() == 0);
                Ok(
                    FileModule {
                        config: FileModuleConfig::new(3000, 1),
                        ring_buffer: Some(rb),
                        filter_handle: 0,
                        exempt_pid: 0,
                    },
                )
            },
            Err(e) => Err(e),
        }
    }

    /// Reports an operation; returns where its record starts and whom to call, if somebody waits.
    pub fn push_event(
        &mut self,
        transaction_id: u64,
        process_id: u32,
        op_code: u32,
        path: &[u16],
    ) -> (r: Result<(usize, Option<Notify>), i32>)
        requires
            old(self).wf(),
            path@.len() <= u32::MAX,
        ensures
            final(self).wf(),
            event_pushed(
                *old(self),
                *final(self),
                transaction_id,
                process_id,
                op_code,
                path@,
                r,
            ),
    {
        match self.ring_buffer.take() {
            None => Err(STATUS_INVALID_DEVICE_REQUEST),
            Some(mut rb) => {
                let r = report(&mut rb, transaction_id, process_id, op_code, path);
                self.ring_buffer = Some(rb);
                r
            },
        }
    }

    /// One step of starting the monitor for the handle `context`.
    ///
    /// The monitor counts from when its registry keys are written until it is cleaned up or a
    /// later step fails.
    pub fn startup(&mut self, monitor: &mut FileMonitor, context: u64, event: FileStartupEvent) -> (r:
        FileStartupAction)
        ensures
            startup_step(
                *old(self),
                *final(self),
                *old(monitor),
                *final(monitor),
                context,
                event,
                r,
            ),
    {
        match event {
            FileStartupEvent::Begin { initiator_pid } => {
                self.exempt_pid = initiator_pid;
                FileStartupAction::Provision
            },
            FileStartupEvent::Provisioned(result) => {
                match result {
                    Err(status) => {
                        FileStartupAction::Finish { unregister: None, result: Err(status) }
                    },
                    Ok(_) => {
                        monitor.init_transaction_tracker();
                        monitor.active = context;
                        FileStartupAction::Register
                    },
                }
            },
            FileStartupEvent::Registered { status, filter } => {
                if nt_success(status) {
                    self.filter_handle = filter;
                    FileStartupAction::Start { filter }
                } else {
                    monitor.active = 0;
                    FileStartupAction::Finish { unregister: None, result: Err(status) }
                }
            },
            FileStartupEvent::Started { status } => {
                if nt_success(status) {
                    FileStartupAction::Finish { unregister: None, result: Ok(()) }
                } else {
                    let filter: u64 = self.filter_handle;
                    self.filter_handle = 0;
                    monitor.active = 0;
                    FileStartupAction::Finish { unregister: Some(filter), result: Err(status) }
                }
            },
        }
    }

    /// Where the ring was mapped for the client; `mapping` is what mapping it gave: the addresses
    /// of its counters and of its bytes.
    pub fn map_memory(&self, mapping: Result<(u64, u64), i32>) -> (r: Result<
        IoctlMMapResponse,
        i32,
    >)
        ensures
            r == (match (self.ring_buffer, mapping) {
                (None, _) => Err::<IoctlMMapResponse, i32>(STATUS_INVALID_DEVICE_REQUEST),
                (Some(_), Err(e)) => Err(e),
                (Some(_), Ok((header, data))) => Ok(
                    IoctlMMapResponse {
                        max_cores: 1,
                        size: 0x20_0000,
                        ring_buffer_header: header,
                        ring_buffer_data: data,
                        send_ring_buffer_header: 0,
                        send_ring_buffer_data: 0,
                    },
                ),
            }),
    {
        if self.ring_buffer.is_none() {
            return Err(STATUS_INVALID_DEVICE_REQUEST);
        }
        match mapping {
            Ok((header, data)) => Ok(
                IoctlMMapResponse {
                    max_cores: 1,
                    size: 0x20_0000,
                    ring_buffer_header: header,
                    ring_buffer_data: data,
                    send_ring_buffer_header: 0,
                    send_ring_buffer_data: 0,
                },
            ),
            Err(e) => Err(e),
        }
    }

    /// Has `callback` called for the handle `context` when something arrives in the ring.
    pub fn arm_recv(&mut self, callback: u64, context: u64) -> (r: Result<(), i32>)
        ensures
            *final(self) == (FileModule { ring_buffer: final(self).ring_buffer, ..*old(self) }),
            match old(self).ring_buffer {
                None => r == Err::<(), i32>(STATUS_INVALID_DEVICE_REQUEST)
                    && final(self).ring_buffer is None,
                Some(rb) => r == Ok::<(), i32>(()) && final(self).ring_buffer == Some(
                    PerCpuRingBuffer {
                        notify_cb: Some(callback),
                        notify_ctx: context,
                        is_watching: true,
                        ..rb
                    },
                ),
            },
    {
        match self.ring_buffer.take() {
            None => Err(STATUS_INVALID_DEVICE_REQUEST),
            Some(mut rb) => {
                rb.set_notify_callback(Some(callback), context);
                rb.set_watching();
                self.ring_buffer = Some(rb);
                Ok(())
            },
        }
    }

    /// Wakes the operation that the client has decided on.
    ///
    /// The request said that it carries `input_len` bytes; `status` and `input` are what
    /// retrieving them gave.
    pub fn handle_send(
        monitor: &mut FileMonitor,
        input_len: usize,
        status: i32,
        input: Option<&[u8]>,
    ) -> (r: i32)
        requires
            input matches Some(bytes) ==> bytes@.len() >= FILE_DECISION_SIZE,
        ensures
            decision_sent(
                *old(monitor),
                *final(monitor),
                input_len,
                status,
                match input {
                    Some(bytes) => Some(bytes@),
                    None => None,
                },
                r,
            ),
    {
        if input_len < FILE_DECISION_SIZE {
            return STATUS_BUFFER_TOO_SMALL;
        }
        if !nt_success(status) {
            return status;
        }
        let decision: FileDecision = match input {
            Some(bytes) => FileDecision { transaction_id: bytes::read_le64(bytes, 0) },
            None => {
                return status;
            },
        };
        match monitor.tracker.take() {
            None => STATUS_INVALID_DEVICE_REQUEST,
            Some(mut t) => {
                let found: bool = t.signal(&decision);
                monitor.tracker = Some(t);
                if found {
                    STATUS_SUCCESS
                } else {
                    STATUS_NOT_FOUND
                }
            },
        }
    }

    /// Ends the monitor; returns the filter that is to be unregistered, if there is one.
    pub fn cleanup(&mut self, monitor: &mut FileMonitor) -> (unregister: Option<u64>)
        ensures
            unregister == (if old(self).filter_handle != 0 {
                Some(old(self).filter_handle)
            } else {
                None
            }),
            *final(self) == (FileModule { filter_handle: 0, ring_buffer: None, ..*old(self) }),
            *final(monitor) == (FileMonitor { active: 0, ..*old(monitor) }),
    {
        let unregister: Option<u64> = if self.filter_handle != 0 {
            Some(self.filter_handle)
        } else {
            None
        };
        self.filter_handle = 0;
        monitor.active = 0;
        self.ring_buffer = None;
        unregister
    }
}

/// Puts the report of an operation into the ring.
fn report(
    rb: &mut PerCpuRingBuffer,
    transaction_id: u64,
    process_id: u32,
    op_code: u32,
    path: &[u16],
) -> (r: Result<(usize, Option<Notify>), i32>)
    requires
        old(rb).wf(),
        old(rb).workers_num == 1,
        old(rb).ring(0).consistent(),
        old(rb).ring(0).settled(),
        path@.len() <= u32::MAX,
    ensures
        final(rb).wf(),
        final(rb).workers_num == 1,
        final(rb).ring(0).consistent(),
        final(rb).ring(0).settled(),
        final(rb).ring_size() == old(rb).ring_size(),
        final(rb).ring(0).head == old(rb).ring(0).head,
        final(rb).notify_cb == old(rb).notify_cb,
        final(rb).notify_ctx == old(rb).notify_ctx,
        ({
            let ring = old(rb).ring(0);
            let total = 560 + 2 * path@.len();
            if ring.unread_len() + total > ring.size {
                &&& r == Err::<(usize, Option<Notify>), i32>(STATUS_INSUFFICIENT_RESOURCES)
                &&& final(rb).ring(0) == ring
                &&& final(rb).is_watching == old(rb).is_watching
            } else {
                &&& r == Ok::<(usize, Option<Notify>), i32>((ring.tail, old(rb).due()))
                &&& !final(rb).is_watching
                &&& exists|e: FileEvent| #[trigger]
                    new_event(e, transaction_id, process_id, op_code, path@.len()) && final(rb).ring(
                        0,
                    ).unread() == ring.unread() + scan::event_record(e, path@)
            }
        }),
{
    let size: usize = rb.get_ring_buffer_size();
    if size < RECORD_HEADER_SIZE + FILE_EVENT_SIZE || path.len() > (size - RECORD_HEADER_SIZE
        - FILE_EVENT_SIZE) / 2 {
        return Err(STATUS_INSUFFICIENT_RESOURCES);
    }
    let event = FileEvent {
        transaction_id,
        process_id,
        op_code,
        path_len: path.len() as u32,
        decision: 1,
        redirect_path_len: 0,
        redirect_path: [0u16; 260],
    };
    let event_bytes: Vec<u8> = file_types::encode_event(&event);
    let mut path_bytes: Vec<u8> = Vec::new();
    file_types::push_units(&mut path_bytes, path);
    let total_len: usize = FILE_EVENT_SIZE + 2 * path.len();
    let header = RecordHeader { len: (total_len as u64 % 0x1_0000_0000u64) as u32, ty: 0 };
    let expected: usize = RECORD_HEADER_SIZE + total_len;
    let start: usize = rb.rb_datas[0].tail;
    let ghost record = scan::event_record(event, path@);
    proof {
        assert(event.redirect_path@ =~= Seq::new(260, |i: int| 0u16));
        assert(new_event(event, transaction_id, process_id, op_code, path@.len()));
        file_types::law_event_round_trip(event);
        records::lemma_header_round_trip(header, event_bytes@);
        reveal(scan::event_header);
        assert(path_bytes@ =~= file_types::unit_bytes(path@));
    }
    let mut pieces: Vec<Piece> = Vec::new();
    pieces.push(Piece::Record(header, event_bytes));
    pieces.push(Piece::Slice(path_bytes));
    proof {
        lemma_two_pieces(pieces@, records::header_bytes(header) + event_bytes@, path_bytes@);
        assert(per_cpu_ring::pieces_bytes(pieces@) =~= record);
    }
    let ghost before = rb.ring(0);
    match rb.transaction(0, expected, &pieces) {
        Ok(notify) => {
            proof {
                per_cpu_ring::law_transaction_appends(before, rb.ring(0), expected, pieces@);
            }
            Ok((start, notify))
        },
        Err(e) => Err(e),
    }
}

proof fn lemma_two_pieces(pieces: Seq<Piece>, a: Seq<u8>, b: Seq<u8>)
    requires
        pieces.len() == 2,
        pieces[0].bytes() == (a, true),
        pieces[0].size() == a.len(),
        pieces[1].bytes() == (b, true),
        pieces[1].size() == b.len(),
    ensures
        per_cpu_ring::pieces_bytes(pieces) == a + b,
        per_cpu_ring::pieces_size(pieces) == a.len() + b.len(),
        per_cpu_ring::pieces_full(pieces),
        per_cpu_ring::pieces_ok(pieces),
{
    let init = pieces.drop_last();
    assert(init.drop_last() =~= Seq::empty());
    assert(init.last() == pieces[0]);
    assert(per_cpu_ring::pieces_bytes(init.drop_last()) =~= Seq::empty());
    assert(per_cpu_ring::pieces_bytes(init) =~= a);
    assert(per_cpu_ring::pieces_size(init.drop_last()) == 0);
    assert(per_cpu_ring::pieces_size(init) == a.len());
}

proof fn lemma_file_ring_size()
    ensures
        vstd::arithmetic::power2::is_pow2(FILE_RING_SIZE as int),
{
    vstd::arithmetic::power2::lemma2_to64();
    vstd::arithmetic::power2::is_pow2_equiv(FILE_RING_SIZE as int);
    vstd::arithmetic::power2::lemma_pow2(21);
}

/// A transaction with a new id is found where it was added, and taking it off leaves the others as
/// they were.
pub proof fn law_new_transaction_is_found(t: Seq<PendingTransaction>, tx: PendingTransaction)
    requires
        forall|i: int| 0 <= i < t.len() ==> (#[trigger] t[i]).transaction_id != tx.transaction_id,
    ensures
        first_with_id(t.push(tx), tx.transaction_id) == t.len(),
        t.push(tx).remove(t.len() as int) == t,
    decreases t.len(),
{
    let all = t.push(tx);
    if t.len() > 0 {
        let rest = t.drop_first();
        assert(all.drop_first() =~= rest.push(tx));
        assert forall|i: int| 0 <= i < rest.len() implies (#[trigger] rest[i]).transaction_id
            != tx.transaction_id by {
            assert(rest[i] == t[i + 1]);
        }
        law_new_transaction_is_found(rest, tx);
        assert(all[0] == t[0]);
    }
    assert(all.remove(t.len() as int) =~= t);
}

/// No transaction has an id.
pub open spec fn unknown(t: Seq<PendingTransaction>, id: u64) -> bool {
    forall|i: int| 0 <= i < t.len() ==> (#[trigger] t[i]).transaction_id != id
}

proof fn lemma_first_behind(
    x: Seq<PendingTransaction>,
    tx: PendingTransaction,
    y: Seq<PendingTransaction>,
)
    requires
        unknown(x, tx.transaction_id),
    ensures
        first_with_id(x + seq![tx] + y, tx.transaction_id) == x.len(),
        first_with_id(x, tx.transaction_id) == x.len(),
    decreases x.len(),
{
    let all = x + seq![tx] + y;
    if x.len() > 0 {
        let rest = x.drop_first();
        assert(all.drop_first() =~= rest + seq![tx] + y);
        assert forall|i: int| 0 <= i < rest.len() implies (#[trigger] rest[i]).transaction_id
            != tx.transaction_id by {
            assert(rest[i] == x[i + 1]);
        }
        lemma_first_behind(rest, tx, y);
        assert(all[0] == x[0]);
    } else {
        assert(all[0] == tx);
    }
}

/// A decision wakes the transaction that it names and no other one, and taking a transaction off
/// takes no other one off. Where nothing is named, nothing changes.
pub proof fn law_only_named_transaction_changes(
    x: Seq<PendingTransaction>,
    tx: PendingTransaction,
    y: Seq<PendingTransaction>,
)
    requires
        unknown(x, tx.transaction_id),
    ensures
        without(x + seq![tx] + y, tx.transaction_id) == x + y,
        woken(x + seq![tx] + y, tx.transaction_id) == x + seq![
            (PendingTransaction { signaled: true, ..tx }),
        ] + y,
        without(x, tx.transaction_id) == x,
        woken(x, tx.transaction_id) == x,
{
    let all = x + seq![tx] + y;
    lemma_first_behind(x, tx, y);
    assert(all.remove(x.len() as int) =~= x + y);
    let awake = PendingTransaction { signaled: true, ..tx };
    assert(all[x.len() as int] == tx);
    assert(all.update(x.len() as int, awake) =~= x + seq![awake] + y);
}

/// The eight bytes of a request name the transaction, least significant first: the one that waits
/// under that id is woken, and the request succeeds; it fails where none waits.
pub proof fn law_sent_decision_wakes(
    monitor: FileMonitor,
    after: FileMonitor,
    x: Seq<PendingTransaction>,
    tx: PendingTransaction,
    y: Seq<PendingTransaction>,
    behind: Seq<u8>,
    input_len: usize,
    r: i32,
)
    requires
        monitor.tracker is Some,
        unknown(x, tx.transaction_id),
        input_len >= 8,
        decision_sent(
            monitor,
            after,
            input_len,
            0,
            Some(bytes::u64_le(tx.transaction_id) + behind),
            r,
        ),
    ensures
        monitor.tracker->0.transactions@ == x + seq![tx] + y ==> r == 0 && after.tracker is Some
            && after.tracker->0.transactions@ == x + seq![
            (PendingTransaction { signaled: true, ..tx }),
        ] + y,
        monitor.tracker->0.transactions@ == x ==> r < 0 && after.tracker is Some
            && after.tracker->0.transactions@ == x,
{
    broadcast use bytes::lemma_u32_le_len;

    let sent = bytes::u64_le(tx.transaction_id) + behind;
    assert(sent.subrange(0, 8) =~= bytes::u64_le(tx.transaction_id));
    bytes::lemma_le64_round_trip(sent, 0, tx.transaction_id);
    law_only_named_transaction_changes(x, tx, y);
    lemma_first_behind(x, tx, y);
}

/// A monitor that was started without a failure counts, leaves the client's own operations alone
/// and keeps the filter that was registered.
pub proof fn law_started_monitor_counts(
    m: Seq<FileModule>,
    f: Seq<FileMonitor>,
    context: u64,
    initiator_pid: u32,
    registered: i32,
    filter: u64,
    started: i32,
    r: Seq<FileStartupAction>,
)
    requires
        m.len() == 5,
        f.len() == 5,
        r.len() == 4,
        registered >= 0,
        started >= 0,
        startup_step(
            m[0],
            m[1],
            f[0],
            f[1],
            context,
            FileStartupEvent::Begin { initiator_pid },
            r[0],
        ),
        startup_step(
            m[1],
            m[2],
            f[1],
            f[2],
            context,
            FileStartupEvent::Provisioned(Ok(())),
            r[1],
        ),
        startup_step(
            m[2],
            m[3],
            f[2],
            f[3],
            context,
            FileStartupEvent::Registered { status: registered, filter },
            r[2],
        ),
        startup_step(
            m[3],
            m[4],
            f[3],
            f[4],
            context,
            FileStartupEvent::Started { status: started },
            r[3],
        ),
    ensures
        f[4].active == context,
        f[4].tracker matches Some(t) && t.transactions@.len() == 0,
        m[4].exempt_pid == initiator_pid,
        m[4].filter_handle == filter,
        r[0] == FileStartupAction::Provision,
        r[1] == FileStartupAction::Register,
        r[2] == (FileStartupAction::Start { filter }),
        r[3] == (FileStartupAction::Finish { unregister: None, result: Ok(()) }),
{
}

/// A failed step ends the start with its own status, and the monitor counts no more. A filter that
/// was registered is unregistered, and forgotten.
pub proof fn law_failed_start_is_undone(
    before: FileModule,
    mid: FileModule,
    after: FileModule,
    f: FileMonitor,
    g: FileMonitor,
    h: FileMonitor,
    context: u64,
    filter: u64,
    registered: i32,
    status: i32,
    r: FileStartupAction,
    s: FileStartupAction,
)
    requires
        status < 0,
        startup_step(
            before,
            mid,
            f,
            g,
            context,
            FileStartupEvent::Registered { status: registered, filter },
            r,
        ),
        startup_step(mid, after, g, h, context, FileStartupEvent::Started { status }, s),
    ensures
        registered < 0 ==> g.active == 0 && mid == before && r == (FileStartupAction::Finish {
            unregister: None,
            result: Err(registered),
        }),
        registered >= 0 ==> h.active == 0 && after.filter_handle == 0 && s == (
        FileStartupAction::Finish { unregister: Some(filter), result: Err(status) }),
{
}

/// An operation is reported exactly if the ring has room for its record: behind what was unread
/// before stands an event with its transaction, its process and its operation, allowed so far, and
/// then its path. Who waits is called. Where there is no room, nothing changes.
pub proof fn law_operation_is_reported(
    before: FileModule,
    after: FileModule,
    rb: PerCpuRingBuffer,
    id: u64,
    process_id: u32,
    op_code: u32,
    path: Seq<u16>,
    r: Result<(usize, Option<Notify>), i32>,
)
    requires
        before.ring_buffer == Some(rb),
        rb.wf(),
        event_pushed(before, after, id, process_id, op_code, path, r),
    ensures
        r is Ok <==> rb.ring(0).unread_len() + 560 + path.len() + path.len() <= rb.ring_size(),
        r matches Ok((at, notify)) ==> at == rb.ring(0).tail && (rb.is_watching
            && rb.notify_cb is Some ==> notify is Some) && (exists|e: FileEvent|
            e.transaction_id == id && e.process_id == process_id && e.op_code == op_code
                && e.path_len == path.len() && e.decision == 1 && e.redirect_path_len == 0
                && after.ring_buffer->0.ring(0).unread() == rb.ring(0).unread()
                + #[trigger] scan::event_record(e, path)),
        r is Err ==> after.ring_buffer is Some && after.ring_buffer->0.ring(0) == rb.ring(0)
            && after.ring_buffer->0.is_watching == rb.is_watching,
        after.config == before.config && after.exempt_pid == before.exempt_pid,
{
    if r is Ok {
        let e = choose|e: FileEvent| #[trigger]
            new_event(e, id, process_id, op_code, path.len())
                && after.ring_buffer->0.ring(0).unread() == rb.ring(0).unread()
                + scan::event_record(e, path);
        assert(after.ring_buffer->0.ring(0).unread() == rb.ring(0).unread() + scan::event_record(
            e,
            path,
        ));
    }
}

} // verus!
