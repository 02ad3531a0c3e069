//! What becomes of a file operation that the filter sees.
//!
//! An operation goes through up to four steps: [`begin_pre_op`] decides whether its
//! path is looked up, [`FileMonitor::report_pre_op`] reports it to the client and says how long to
//! wait, [`FileMonitor::conclude_pre_op`] reads the decision, and [`finish_redirect`] ends a
//! redirection.
use vstd::prelude::*;
use crate::file_monitor::file_module;
use crate::file_monitor::file_module::{FileModule, PendingTransaction, TransactionTracker};
use crate::file_monitor::rules;
use crate::file_monitor::rules::IRP_MJ_CREATE;
use crate::file_types;
use crate::file_types::{
    FileCallbackDecision, FileEvent, FILE_ACTION_DENY, FILE_ACTION_REDIRECT, FILE_EVENT_SIZE,
    MAX_RULE_PATH_LEN,
};
use crate::ringbuffer::cells;
use crate::ringbuffer::data::RingBufferData;
use crate::ringbuffer::per_cpu_ring::Notify;
use crate::ringbuffer::records::RECORD_HEADER_SIZE;
use crate::ringbuffer::scan;
use crate::status::{
    STATUS_ACCESS_DENIED, STATUS_INSUFFICIENT_RESOURCES, STATUS_INVALID_PARAMETER, STATUS_REPARSE,
    STATUS_TIMEOUT,
};
use crate::utf16;

verus! {

/// `IRP_PAGING_IO` and `IRP_SYNCHRONOUS_PAGING_IO`.
pub const PAGING_IO_FLAGS: u32 = 0x42;

/// Longest path that is looked at, in code units.
pub const PATH_CAPACITY: usize = 1024;

/// What the file filter of the driver keeps, whichever handle started it.
pub struct FileMonitor {
    /// The handle whose module counts, or 0.
    pub active: u64,
    pub tracker: Option<TransactionTracker>,
    /// Number of the next transaction.
    pub next_tx_id: u64,
}

/// First step: let the operation pass, or look up the path.
#[derive(Clone, Copy, Debug, PartialEq, Eq, Structural)]
pub enum PreOpStart {
    Pass,
    /// Look up the path: as it was opened, or normalized.
    QueryPath { opened: bool },
}

/// Second step: let the operation pass, or wait for a decision.
#[derive(Clone, Copy, Debug, PartialEq, Eq, Structural)]
pub enum PreOpReport {
    Pass,
    /// Wait for the decision on a transaction; `ticks` is the timeout, negative because it is
    /// relative, in units of 100 ns.
    Wait { transaction_id: u64, start_tail: usize, ticks: i64, notify: Option<Notify> },
}

/// Third step.
pub enum PreOpVerdict {
    Pass,
    /// End the operation with this status.
    Complete { status: i32, information: u64 },
    /// Allocate room for this path and go on with [`finish_redirect`].
    Redirect { path: Vec<u16> },
}

/// Last step of a redirection.
#[derive(Clone, Copy, Debug, PartialEq, Eq, Structural)]
pub enum RedirectEnd {
    Pass,
    /// End the operation with this status.
    Complete { status: i32, information: u64 },
    /// Put the new name, this many bytes long, into place, and end the operation with this status.
    Rename { bytes: u16, status: i32, information: u64 },
}

/// The operations that the filter is called for.
pub fn file_operations() -> (ops: [u32; 3])
    ensures
        ops@ == seq![rules::IRP_MJ_CREATE, rules::IRP_MJ_WRITE, rules::IRP_MJ_SET_INFORMATION],
{
    let ops: [u32; 3] = [
        rules::IRP_MJ_CREATE,
        rules::IRP_MJ_WRITE,
        rules::IRP_MJ_SET_INFORMATION,
    ];
    assert(ops@ =~= seq![
        rules::IRP_MJ_CREATE,
        rules::IRP_MJ_WRITE,
        rules::IRP_MJ_SET_INFORMATION,
    ]);
    ops
}

/// `r` is the path of an operation, or why it has none.
pub open spec fn is_file_path(
    r: Result<Vec<u16>, i32>,
    valid: bool,
    status: i32,
    name: Seq<u16>,
    capacity: usize,
) -> bool {
    match r {
        Err(e) => if !valid {
            e == STATUS_INVALID_PARAMETER
        } else {
            status < 0 && e == status
        },
        Ok(path) => valid && status >= 0 && path@ == (if name.len() < capacity {
            name
        } else {
            name.take(capacity as int)
        }),
    }
}

/// The path of an operation, cut to `capacity` code units.
///
/// `name` is what looking it up with result `status` gave; it is empty where there was none.
pub fn get_file_path(valid: bool, status: i32, name: &[u16], capacity: usize) -> (r: Result<
    Vec<u16>,
    i32,
>)
    ensures
        is_file_path(r, valid, status, name@, capacity),
{
    if !valid {
        return Err(STATUS_INVALID_PARAMETER);
    }
    if status < 0 {
        return Err(status);
    }
    let n: usize = if name.len() < capacity {
        name.len()
    } else {
        capacity
    };
    let path = vstd::slice::slice_to_vec(vstd::slice::slice_subrange(name, 0, n));
    assert(path@ =~= name@.take(n as int));
    assert(name@.take(name@.len() as int) =~= name@);
    Ok(path)
}

/// The decision that counts: the one in the event, or the default where none came in time.
pub open spec fn decision_of(wait_status: i32, default_action: u32, event: FileEvent) -> u32 {
    if wait_status == STATUS_TIMEOUT {
        default_action
    } else {
        event.decision
    }
}

/// The path that an event redirects to.
pub open spec fn redirect_path(event: FileEvent) -> Seq<u16> {
    event.redirect_path@.take(
        if event.redirect_path_len < 260 {
            event.redirect_path_len as int
        } else {
            260
        },
    )
}

/// What a decision leads to.
pub open spec fn verdict_of(decision: u32, major: u32, event: FileEvent, v: PreOpVerdict) -> bool {
    if decision == FILE_ACTION_DENY {
        v == (PreOpVerdict::Complete { status: STATUS_ACCESS_DENIED, information: 0 })
    } else if decision == FILE_ACTION_REDIRECT {
        if major == IRP_MJ_CREATE {
            v matches PreOpVerdict::Redirect { path } && path@ == redirect_path(event)
        } else {
            v == (PreOpVerdict::Complete { status: STATUS_INVALID_PARAMETER, information: 0 })
        }
    } else {
        v is Pass
    }
}

/// Whether an operation is left alone: it is no valid one, it is paging, no monitor has been
/// started, or it is the client's own.
pub open spec fn ignores(
    module: Option<FileModule>,
    valid: bool,
    irp_flags: u32,
    process_id: u32,
) -> bool {
    ||| !valid
    ||| irp_flags & PAGING_IO_FLAGS != 0
    ||| match module {
        Some(m) => process_id == m.exempt_pid,
        None => true,
    }
}

/// How an operation starts.
pub open spec fn pre_op_start(
    module: Option<FileModule>,
    valid: bool,
    irp_flags: u32,
    process_id: u32,
    major: u32,
) -> PreOpStart {
    if ignores(module, valid, irp_flags, process_id) {
        PreOpStart::Pass
    } else {
        PreOpStart::QueryPath { opened: major == IRP_MJ_CREATE }
    }
}

/// Decides whether the path of an operation is looked up. `module` is the module that counts.
pub fn begin_pre_op(
    module: Option<&FileModule>,
    valid: bool,
    irp_flags: u32,
    process_id: u32,
    major: u32,
) -> (r: PreOpStart)
    ensures
        r == pre_op_start(
            match module {
                Some(m) => Some(*m),
                None => None,
            },
            valid,
            irp_flags,
            process_id,
            major,
        ),
{
    if !valid || (irp_flags & PAGING_IO_FLAGS) != 0 {
        return PreOpStart::Pass;
    }
    match module {
        Some(m) => {
            if process_id == m.exempt_pid {
                return PreOpStart::Pass;
            }
        },
        None => {
            return PreOpStart::Pass;
        },
    }
    PreOpStart::QueryPath { opened: major == IRP_MJ_CREATE }
}

/// Whether an operation is to be reported.
pub open spec fn reports(
    m: FileModule,
    process_id: u32,
    major: u32,
    path: Result<Vec<u16>, i32>,
) -> bool {
    path matches Ok(p) && p@.len() > 0 && rules::picked(m.config, major, process_id, p@)
}

/// How long to wait for a decision: negative because it is relative, in units of 100 ns.
pub open spec fn wait_ticks(timeout_ms: u32) -> i64 {
    -(timeout_ms * 10000) as i64
}

/// The event of a transaction as it stands in the ring, or, where there is no ring any more,
/// one with the default action.
pub open spec fn is_current_event(m: FileModule, start_tail: usize, e: FileEvent) -> bool {
    match m.ring_buffer {
        Some(rb) => file_types::is_event(e, cells::window(rb.ring(0).buf@, start_tail + 8, 552)),
        None => e.decision == m.config.default_action && e.redirect_path_len == 0,
    }
}

/// What reporting an operation does to the monitor and to the module, and what is to be done about
/// the operation.
pub open spec fn pre_op_reported(
    monitor: FileMonitor,
    monitor_after: FileMonitor,
    before: FileModule,
    after: FileModule,
    process_id: u32,
    major: u32,
    path: Result<Vec<u16>, i32>,
    r: PreOpReport,
) -> bool {
    &&& monitor_after.active == monitor.active
    &&& !reports(before, process_id, major, path) ==> r is Pass && monitor_after == monitor && after
        == before
    &&& reports(before, process_id, major, path) ==> {
        let p = path->Ok_0;
        let id = monitor.next_tx_id;
        &&& monitor_after.next_tx_id == id.wrapping_add(1)
        &&& after == (FileModule { ring_buffer: after.ring_buffer, ..before })
        &&& match before.ring_buffer {
            Some(rb) if rb.ring(0).unread_len() + 560 + 2 * p@.len() <= rb.ring_size() => {
                let ring = rb.ring(0);
                &&& r == (PreOpReport::Wait {
                    transaction_id: id,
                    start_tail: ring.tail,
                    ticks: wait_ticks(before.config.timeout_ms),
                    notify: rb.due(),
                })
                &&& after.ring_buffer is Some
                &&& after.ring_buffer->0.ring_size() == rb.ring_size()
                &&& after.ring_buffer->0.ring(0).head == ring.head
                &&& after.ring_buffer->0.notify_cb == rb.notify_cb
                &&& after.ring_buffer->0.notify_ctx == rb.notify_ctx
                &&& !after.ring_buffer->0.is_watching
                &&& exists|e: FileEvent| #[trigger]
                    file_module::new_event(
                        e,
                        id,
                        process_id,
                        rules::op_code(major),
                        p@.len(),
                    ) && after.ring_buffer->0.ring(0).unread() == ring.unread()
                        + scan::event_record(e, p@)
                &&& match (monitor.tracker, monitor_after.tracker) {
                    (Some(t), Some(u)) => u.transactions@ == t.transactions@.push(
                        PendingTransaction {
                            transaction_id: id,
                            start_tail: ring.tail,
                            signaled: false,
                        },
                    ),
                    (None, None) => true,
                    _ => false,
                }
            },
            Some(rb) => {
                &&& r is Pass
                &&& monitor_after.tracker == monitor.tracker
                &&& after.ring_buffer is Some
                &&& after.ring_buffer->0.ring(0) == rb.ring(0)
                &&& after.ring_buffer->0.notify_cb == rb.notify_cb
                &&& after.ring_buffer->0.notify_ctx == rb.notify_ctx
                &&& after.ring_buffer->0.is_watching == rb.is_watching
            },
            None => {
                &&& r is Pass
                &&& monitor_after.tracker == monitor.tracker
                &&& after == before
            },
        }
    }
}

impl FileMonitor {
    /// Nothing is monitored yet.
    pub fn new() -> (m: FileMonitor)
        ensures
            m.active == 0,
            m.tracker is None,
            m.next_tx_id == 1,
    {
        FileMonitor { active: 0, tracker: None, next_tx_id: 1 }
    }

    /// Starts with nothing waiting for a decision.
    pub fn init_transaction_tracker(&mut self)
        ensures
            final(self).active == old(self).active,
            final(self).next_tx_id == old(self).next_tx_id,
            final(self).tracker matches Some(t) && t.transactions@ == Seq::<
                PendingTransaction,
            >::empty(),
    {
        self.tracker = Some(TransactionTracker::new());
    }

    /// Reports an operation that a rule of `module` picks out. `path` is what [`get_file_path`]
    /// gave.
    pub fn report_pre_op(
        &mut self,
        module: &mut FileModule,
        process_id: u32,
        major: u32,
        path: &Result<Vec<u16>, i32>,
    ) -> (r: PreOpReport)
        requires
            old(module).wf(),
            path matches Ok(p) ==> p@.len() <= PATH_CAPACITY,
        ensures
            final(module).wf(),
            final(self).active == old(self).active,
            pre_op_reported(
                *old(self),
                *final(self),
                *old(module),
                *final(module),
                process_id,
                major,
                *path,
                r,
            ),
    {
        let path: &Vec<u16> = match path {
            Ok(p) => p,
            Err(_) => {
                return PreOpReport::Pass;
            },
        };
        if path.len() == 0 {
            return PreOpReport::Pass;
        }
        if rules::find_rule(&module.config, major, process_id, path.as_slice()).is_none() {
            return PreOpReport::Pass;
        }
        let id: u64 = self.next_tx_id;
        self.next_tx_id = id.wrapping_add(1);
        let timeout_ms: u32 = module.config.timeout_ms;
        match module.push_event(id, process_id, rules::get_op_code(major), path.as_slice()) {
            Err(_) => PreOpReport::Pass,
            Ok((start_tail, notify)) => {
                match self.tracker.take() {
                    Some(mut t) => {
                        t.add(
                            PendingTransaction { transaction_id: id, start_tail, signaled: false },
                        );
                        self.tracker = Some(t);
                    },
                    None => {},
                }
                let ticks: i64 = -(timeout_ms as i64 * 10000);
                PreOpReport::Wait { transaction_id: id, start_tail, ticks, notify }
            },
        }
    }

    /// Reads the decision once the wait for it has ended.
    pub fn conclude_pre_op(
        &mut self,
        module: &FileModule,
        transaction_id: u64,
        start_tail: usize,
        process_id: u32,
        major: u32,
        wait_status: i32,
    ) -> (v: PreOpVerdict)
        requires
            module.wf(),
        ensures
            final(self).active == old(self).active,
            final(self).next_tx_id == old(self).next_tx_id,
            match (old(self).tracker, final(self).tracker) {
                (Some(t), Some(u)) => u.transactions@ == file_module::without(
                    t.transactions@,
                    transaction_id,
                ),
                (None, None) => true,
                _ => false,
            },
            exists|e: FileEvent| #[trigger]
                is_current_event(*module, start_tail, e) && verdict_of(
                    decision_of(wait_status, module.config.default_action, e),
                    major,
                    e,
                    v,
                ),
    {
        match self.tracker.take() {
            Some(mut t) => {
                t.remove(transaction_id);
                self.tracker = Some(t);
            },
            None => {},
        }
        let event: FileEvent = read_event(module, start_tail, transaction_id, process_id, major);
        let decision: u32 = if wait_status == STATUS_TIMEOUT {
            module.config.default_action
        } else {
            event.decision
        };
        assert(is_current_event(*module, start_tail, event));
        if decision == FILE_ACTION_DENY {
            PreOpVerdict::Complete { status: STATUS_ACCESS_DENIED, information: 0 }
        } else if decision == FILE_ACTION_REDIRECT {
            if major == IRP_MJ_CREATE {
                let n: usize = if (event.redirect_path_len as usize) < MAX_RULE_PATH_LEN {
                    event.redirect_path_len as usize
                } else {
                    MAX_RULE_PATH_LEN
                };
                let path = vstd::slice::slice_to_vec(
                    vstd::slice::slice_subrange(&event.redirect_path, 0, n),
                );
                assert(path@ =~= redirect_path(event));
                PreOpVerdict::Redirect { path }
            } else {
                PreOpVerdict::Complete { status: STATUS_INVALID_PARAMETER, information: 0 }
            }
        } else {
            PreOpVerdict::Pass
        }
    }
}

/// The event of a transaction as it stands in the ring.
fn read_event(
    m: &FileModule,
    start_tail: usize,
    transaction_id: u64,
    process_id: u32,
    major: u32,
) -> (e: FileEvent)
    requires
        m.wf(),
    ensures
        is_current_event(*m, start_tail, e),
{
    match &m.ring_buffer {
        Some(rb) => {
            let raw: Vec<u8> = rb.get_ring_buffer(0).read_from_rb(
                start_tail,
                RECORD_HEADER_SIZE,
                FILE_EVENT_SIZE,
            );
            file_types::decode_event(&raw)
        },
        None => FileEvent {
            transaction_id,
            process_id,
            op_code: rules::get_op_code(major),
            path_len: 0,
            decision: m.config.default_action,
            redirect_path_len: 0,
            redirect_path: [0u16; 260],
        },
    }
}

/// How a redirection to a path of `path_len` code units ends.
pub open spec fn redirect_end(allocated: bool, has_target: bool, path_len: nat) -> RedirectEnd {
    if !allocated {
        RedirectEnd::Complete { status: STATUS_INSUFFICIENT_RESOURCES, information: 0 }
    } else if has_target {
        RedirectEnd::Rename {
            bytes: (2 * path_len) as u16,
            status: STATUS_REPARSE,
            information: 1,
        }
    } else {
        RedirectEnd::Pass
    }
}

/// Ends a redirection to a path of `path_len` code units, once room for it was allocated or not
/// and the file object was found or not.
pub fn finish_redirect(allocated: bool, has_target: bool, path_len: usize) -> (r: RedirectEnd)
    requires
        path_len <= MAX_RULE_PATH_LEN,
    ensures
        r == redirect_end(allocated, has_target, path_len as nat),
{
    if !allocated {
        return RedirectEnd::Complete { status: STATUS_INSUFFICIENT_RESOURCES, information: 0 };
    }
    if has_target {
        RedirectEnd::Rename {
            bytes: (2 * path_len) as u16,
            status: STATUS_REPARSE,
            information: 1,
        }
    } else {
        RedirectEnd::Pass
    }
}

/// The code units of a path, cut to as many as an event holds.
pub open spec fn cut_path(path: Seq<char>) -> Seq<u16> {
    let u = utf16::encoded(path);
    u.take(
        if u.len() < 260 {
            u.len() as int
        } else {
            260
        },
    )
}

/// What the client decides is what becomes of an operation that did not time out: an event that the
/// client read at `pos` and wrote back with a decision on it is denied, redirected or let pass.
/// Only operations that open a file can be redirected.
pub proof fn law_client_decision_takes_effect(
    cells_before: Seq<u8>,
    pos: int,
    e: FileEvent,
    decision: FileCallbackDecision,
    after: FileEvent,
    f: FileEvent,
    wait_status: i32,
    default_action: u32,
    major: u32,
    v: PreOpVerdict,
)
    requires
        cells_before.len() >= 560,
        scan::decided(e, decision, after),
        file_types::is_event(
            f,
            cells::window(
                cells::splice(cells_before, pos + 8, file_types::event_bytes(after)),
                pos + 8,
                552,
            ),
        ),
        wait_status != STATUS_TIMEOUT,
        verdict_of(decision_of(wait_status, default_action, f), major, f, v),
    ensures
        match decision {
            FileCallbackDecision::Allow => v is Pass,
            FileCallbackDecision::Deny => v == (PreOpVerdict::Complete {
                status: STATUS_ACCESS_DENIED,
                information: 0,
            }),
            FileCallbackDecision::Redirect(target) => if major == IRP_MJ_CREATE {
                v matches PreOpVerdict::Redirect { path } && path@ == cut_path(target@)
            } else {
                v == (PreOpVerdict::Complete { status: STATUS_INVALID_PARAMETER, information: 0 })
            },
        },
{
    file_types::law_event_round_trip(after);
    cells::lemma_window_of_splice(cells_before, pos + 8, file_types::event_bytes(after));
    assert(f == after);
    if let FileCallbackDecision::Redirect(target) = decision {
        assert(redirect_path(after) =~= cut_path(target@));
    }
}

/// An event stands in the ring as it was reported until somebody writes there: where its record
/// starts is where the ring ended before.
pub proof fn law_reported_event_is_current(
    before: RingBufferData,
    after: RingBufferData,
    e: FileEvent,
    path: Seq<u16>,
    f: FileEvent,
)
    requires
        before.wf(),
        after.wf(),
        after.size == before.size,
        after.head == before.head,
        after.unread() == before.unread() + scan::event_record(e, path),
        file_types::is_event(f, cells::window(after.buf@, before.tail + 8, 552)),
    ensures
        f == e,
{
    let n = before.unread_len();
    let record = scan::event_record(e, path);
    file_types::law_event_round_trip(e);
    scan::lemma_event_header(path.len(), Seq::empty());
    cells::lemma_pow2_size(before.size);
    cells::lemma_wrapping_cell(before.head, n, before.size);
    let size = before.size as int;
    vstd::arithmetic::div_mod::lemma_add_mod_noop(before.tail as int, 8, size);
    vstd::arithmetic::div_mod::lemma_add_mod_noop(before.head + n, 8, size);
    cells::lemma_same_cell(after.buf@, before.tail + 8, before.head + n + 8);
    let all = after.unread();
    assert(all.len() == n + record.len());
    cells::lemma_window_part(after.buf@, after.head as int, all.len(), n + 8, n + 560);
    assert(all.subrange(n + 8, n + 560) =~= file_types::event_bytes(e));
}

/// An operation of another process than the client's is looked at, on a monitor that was started,
/// unless it is no valid one or the system's own paging, which either of two bits says. The path of
/// an operation that opens a file is the one it was opened with.
pub proof fn law_operation_is_looked_at(
    m: FileModule,
    valid: bool,
    irp_flags: u32,
    process_id: u32,
    major: u32,
)
    ensures
        pre_op_start(None, valid, irp_flags, process_id, major) is Pass,
        pre_op_start(Some(m), false, irp_flags, process_id, major) is Pass,
        pre_op_start(Some(m), valid, irp_flags, m.exempt_pid, major) is Pass,
        irp_flags / 0x02 % 2 == 1 || irp_flags / 0x40 % 2 == 1 ==> pre_op_start(
            Some(m),
            valid,
            irp_flags,
            process_id,
            major,
        ) is Pass,
        valid && irp_flags / 0x02 % 2 == 0 && irp_flags / 0x40 % 2 == 0 && process_id
            != m.exempt_pid ==> pre_op_start(Some(m), valid, irp_flags, process_id, major) == (
        PreOpStart::QueryPath { opened: major == 0 }),
{
    assert((irp_flags & 0x42 != 0) == (irp_flags / 0x02 % 2 == 1 || irp_flags / 0x40 % 2 == 1))
        by (bit_vector);
}

/// Where no decision came in time, the default counts, whatever stands in the event: denied, let
/// pass, or redirected.
pub proof fn law_default_counts_after_timeout(
    default_action: u32,
    major: u32,
    e: FileEvent,
    f: FileEvent,
    v: PreOpVerdict,
)
    requires
        verdict_of(decision_of(0x102, default_action, e), major, f, v),
    ensures
        default_action == 2 ==> v == (PreOpVerdict::Complete {
            status: STATUS_ACCESS_DENIED,
            information: 0,
        }),
        default_action != 2 && default_action != 3 ==> v is Pass,
        default_action == 3 && major != 0 ==> v == (PreOpVerdict::Complete {
            status: STATUS_INVALID_PARAMETER,
            information: 0,
        }),
        default_action == 3 && major == 0 ==> v is Redirect,
{
}

/// A second of waiting is ten million units, and the time is relative.
pub proof fn law_wait_is_relative(seconds: u32, timeout_ms: u32)
    requires
        timeout_ms == 1000 * seconds,
    ensures
        wait_ticks(timeout_ms) + 10_000_000 * seconds == 0,
{
}

/// A file is opened anew under the other name where there is room for it and a file to name; the
/// name takes two bytes for each code unit.
pub proof fn law_redirection_ends(path: Seq<u16>, allocated: bool, has_target: bool)
    requires
        path.len() <= MAX_RULE_PATH_LEN,
    ensures
        match redirect_end(allocated, has_target, path.len()) {
            RedirectEnd::Rename { bytes, status, information } => {
                &&& allocated
                &&& has_target
                &&& bytes == path.len() + path.len()
                &&& status == 0x104
                &&& information == 1
            },
            RedirectEnd::Complete { status, information } => {
                &&& !allocated
                &&& status < 0
                &&& information == 0
            },
            RedirectEnd::Pass => allocated && !has_target,
        },
{
}

/// The path of an operation is its name, from the front on, as far as there is room; a name that
/// fits is kept whole. Where looking it up failed, that failure is reported.
pub proof fn law_path_is_the_name(
    r: Result<Vec<u16>, i32>,
    valid: bool,
    status: i32,
    name: Seq<u16>,
    capacity: usize,
)
    requires
        is_file_path(r, valid, status, name, capacity),
    ensures
        r is Ok <==> valid && status >= 0,
        r matches Ok(path) ==> path@.len() <= capacity && path@.is_prefix_of(name) && (name.len()
            <= capacity ==> path@ == name) && (name.len() > capacity ==> path@.len() == capacity),
        valid && status < 0 ==> r == Err::<Vec<u16>, i32>(status),
        !valid ==> r == Err::<Vec<u16>, i32>(STATUS_INVALID_PARAMETER),
{
    if name.len() == capacity {
        assert(name.take(capacity as int) =~= name);
    }
}

/// Two operations that are reported one after the other get different numbers, one behind the
/// other, and both wait under their own number. An operation that no rule picks gets none.
pub proof fn law_transactions_are_told_apart(
    f: FileMonitor,
    g: FileMonitor,
    h: FileMonitor,
    a: FileModule,
    b: FileModule,
    c: FileModule,
    process_id: u32,
    other_id: u32,
    major: u32,
    other_major: u32,
    path: Result<Vec<u16>, i32>,
    other_path: Result<Vec<u16>, i32>,
    r: PreOpReport,
    s: PreOpReport,
)
    requires
        pre_op_reported(f, g, a, b, process_id, major, path, r),
        pre_op_reported(g, h, b, c, other_id, other_major, other_path, s),
    ensures
        r matches PreOpReport::Wait { transaction_id: x, ticks, .. } ==> {
            &&& path matches Ok(p) && p@.len() > 0
            &&& x == f.next_tx_id
            &&& ticks + 10000 * a.config.timeout_ms == 0
            &&& s matches PreOpReport::Wait { transaction_id: y, .. } ==> y == x.wrapping_add(1)
                && y != x
            &&& f.tracker is Some ==> g.tracker is Some && g.tracker->0.transactions@.len()
                == f.tracker->0.transactions@.len() + 1
                && g.tracker->0.transactions@.last().transaction_id == x
                && !g.tracker->0.transactions@.last().signaled
        },
        path is Err ==> r is Pass && g == f && b == a,
        g.active == f.active,
{
}

} // verus!
