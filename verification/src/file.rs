//! Handles from when they are opened to when they are gone, and which request goes where.
use vstd::prelude::*;
use crate::context::{Context, ContextState, ModuleContext};
use crate::file_monitor::minifilter::FileMonitor;
use crate::ioctl_code::{
    IOCTL_INITIALIZE, IOCTL_MAP_MM, IOCTL_RECV, IOCTL_SEND, IOCTL_SET_BPF, IOCTL_STARTUP,
};
use crate::network::wfp_init;
use crate::status::{
    nt_success, STATUS_INSUFFICIENT_RESOURCES, STATUS_INVALID_DEVICE_REQUEST, STATUS_PENDING,
    STATUS_SUCCESS,
};

verus! {

/// Size of the answer to a request for the rings.
pub const MMAP_RESPONSE_SIZE: u64 = 40;

/// The context of a file object, if there is one; `space` is what the object's room for it holds,
/// if it has that room.
pub fn get_file_ctx(file_object: u64, space: Option<u64>) -> (r: Result<u64, i32>)
    ensures
        r == (match space {
            Some(ctx) if file_object != 0 => Ok::<u64, i32>(ctx),
            _ => Err(STATUS_INVALID_DEVICE_REQUEST),
        }),
{
    if file_object == 0 {
        return Err(STATUS_INVALID_DEVICE_REQUEST);
    }
    match space {
        Some(ctx) => Ok(ctx),
        None => Err(STATUS_INVALID_DEVICE_REQUEST),
    }
}

/// Opens a handle. `made` is what making its context gave; `has_room` says whether the file object
/// has room for it. The result is what the request is answered, and the context to keep.
pub fn file_create(file_object: u64, made: Result<Context, i32>, has_room: bool) -> (r: (
    i32,
    Option<Context>,
))
    ensures
        r == (if file_object == 0 {
            (STATUS_INVALID_DEVICE_REQUEST, None::<Context>)
        } else {
            match made {
                Err(e) => (e, None),
                Ok(c) => if has_room {
                    (STATUS_SUCCESS, Some(c))
                } else {
                    (STATUS_INSUFFICIENT_RESOURCES, None)
                },
            }
        }),
{
    if file_object == 0 {
        return (STATUS_INVALID_DEVICE_REQUEST, None);
    }
    match made {
        Err(e) => (e, None),
        Ok(c) => {
            if has_room {
                (STATUS_SUCCESS, Some(c))
            } else {
                (STATUS_INSUFFICIENT_RESOURCES, None)
            }
        },
    }
}

/// What is left to be done when a handle is cleaned up.
pub enum CleanupWork {
    Nothing,
    /// Delete these filters, then close the engine, if there is one.
    Network { filters: Vec<u64>, engine: Option<u64> },
    /// Unregister the file filter, if there is one.
    File { unregister: Option<u64> },
}

/// What cleaning a handle up does to it and to the monitor, and what is left to be done.
pub open spec fn cleaned_up(
    before: Context,
    after: Context,
    monitor: FileMonitor,
    monitor_after: FileMonitor,
    work: CleanupWork,
) -> bool {
    &&& after == (Context { state: ContextState::Closed, module: None, ..before })
    &&& match before.module {
        None => work is Nothing && monitor_after == monitor,
        Some(ModuleContext::Network(m)) => {
            &&& monitor_after == monitor
            &&& work matches CleanupWork::Network { filters, engine }
                && if m.network_ctx.fwpm_engine_handle == 0 {
                filters@.len() == 0 && engine is None
            } else {
                filters@ == wfp_init::to_delete(m.network_ctx.filter_ids@) && engine == Some(
                    m.network_ctx.fwpm_engine_handle,
                )
            }
        },
        Some(ModuleContext::File(m)) => {
            &&& monitor_after == (FileMonitor { active: 0, ..monitor })
            &&& work == (CleanupWork::File {
                unregister: if m.filter_handle != 0 {
                    Some(m.filter_handle)
                } else {
                    None
                },
            })
        },
    }
}

/// Cleans a handle up: it loses its module and is closed.
pub fn file_cleanup(ctx: &mut Context, monitor: &mut FileMonitor) -> (work: CleanupWork)
    requires
        old(ctx).wf(),
    ensures
        cleaned_up(*old(ctx), *final(ctx), *old(monitor), *final(monitor), work),
{
    let work: CleanupWork = match ctx.module.take() {
        None => CleanupWork::Nothing,
        Some(ModuleContext::Network(mut m)) => {
            let (filters, engine) = m.cleanup();
            CleanupWork::Network { filters, engine }
        },
        Some(ModuleContext::File(mut m)) => {
            let unregister: Option<u64> = m.cleanup(monitor);
            CleanupWork::File { unregister }
        },
    };
    ctx.set_state(ContextState::Closed);
    work
}

/// Notes that a handle is being closed.
pub fn file_close(ctx: &mut Context)
    ensures
        *final(ctx) == (Context { state: ContextState::Closing, ..*old(ctx) }),
{
    ctx.set_state(ContextState::Closing);
}

/// Whether a request is handled at once, in the process that made it, rather than queued: one for
/// the rings, which are mapped into that process.
pub fn io_in_caller_context(is_device_control: bool, code: u32, has_ctx: bool) -> (now: bool)
    ensures
        now == (is_device_control && code == IOCTL_MAP_MM && has_ctx),
{
    is_device_control && code == IOCTL_MAP_MM && has_ctx
}

/// Where a request goes.
#[derive(Clone, Copy, Debug, PartialEq, Eq, Structural)]
pub enum Dispatch {
    /// It is answered at once.
    Complete { status: i32 },
    Initialize,
    Startup,
    MapMm,
    Recv,
    Send,
    SetBpf,
}

/// Where a request goes.
pub open spec fn dispatched(
    file_object: u64,
    ctx: Result<u64, i32>,
    io_control_code: u32,
) -> Dispatch {
    if file_object == 0 {
        Dispatch::Complete { status: STATUS_INVALID_DEVICE_REQUEST }
    } else if ctx is Err {
        Dispatch::Complete { status: ctx->Err_0 }
    } else if io_control_code == IOCTL_INITIALIZE {
        Dispatch::Initialize
    } else if io_control_code == IOCTL_STARTUP {
        Dispatch::Startup
    } else if io_control_code == IOCTL_MAP_MM {
        Dispatch::MapMm
    } else if io_control_code == IOCTL_RECV {
        Dispatch::Recv
    } else if io_control_code == IOCTL_SEND {
        Dispatch::Send
    } else if io_control_code == IOCTL_SET_BPF {
        Dispatch::SetBpf
    } else {
        Dispatch::Complete { status: STATUS_INVALID_DEVICE_REQUEST }
    }
}

/// Says where a request goes. `ctx` is what looking for the handle's context gave.
pub fn ioctl_callback(file_object: u64, ctx: Result<u64, i32>, io_control_code: u32) -> (d: Dispatch)
    ensures
        d == dispatched(file_object, ctx, io_control_code),
{
    if file_object == 0 {
        return Dispatch::Complete { status: STATUS_INVALID_DEVICE_REQUEST };
    }
    if let Err(status) = ctx {
        return Dispatch::Complete { status };
    }
    if io_control_code == IOCTL_INITIALIZE {
        Dispatch::Initialize
    } else if io_control_code == IOCTL_STARTUP {
        Dispatch::Startup
    } else if io_control_code == IOCTL_MAP_MM {
        Dispatch::MapMm
    } else if io_control_code == IOCTL_RECV {
        Dispatch::Recv
    } else if io_control_code == IOCTL_SEND {
        Dispatch::Send
    } else if io_control_code == IOCTL_SET_BPF {
        Dispatch::SetBpf
    } else {
        Dispatch::Complete { status: STATUS_INVALID_DEVICE_REQUEST }
    }
}

/// What retrieving the buffers of a request gave: the first failure, or success. The output buffer
/// is retrieved only if the input buffer was.
pub fn retrieve_io_buffer(input: i32, output: i32) -> (status: i32)
    ensures
        status == (if input < 0 {
            input
        } else if output < 0 {
            output
        } else {
            STATUS_SUCCESS
        }),
{
    if !nt_success(input) {
        return input;
    }
    if !nt_success(output) {
        return output;
    }
    STATUS_SUCCESS
}

/// How a request for the rings is completed: with the size of the answer, where there is one.
pub fn complete_map(status: i32) -> (information: Option<u64>)
    ensures
        information == (if status >= 0 {
            Some(MMAP_RESPONSE_SIZE)
        } else {
            None
        }),
{
    if nt_success(status) {
        Some(MMAP_RESPONSE_SIZE)
    } else {
        None
    }
}

/// Whether a request to wait is completed now, rather than when something arrives.
pub fn completes_recv(status: i32) -> (now: bool)
    ensures
        now == (status != STATUS_PENDING && status != STATUS_SUCCESS),
{
    status != STATUS_PENDING && status != STATUS_SUCCESS
}

/// Whether a request to send is completed now, rather than when the packet is released.
pub fn completes_send(status: i32) -> (now: bool)
    ensures
        now == (status != STATUS_PENDING),
{
    status != STATUS_PENDING
}

/// The function number of a request says where it goes, on a handle that has a context: twelve bits
/// of the code, from the third one on.
pub proof fn law_function_number_says_where(file_object: u64, context: u64, code: u32)
    requires
        file_object != 0,
    ensures
        match dispatched(file_object, Ok(context), code) {
            Dispatch::Initialize => code / 4 % 0x1000 == 0x921,
            Dispatch::Startup => code / 4 % 0x1000 == 0x922,
            Dispatch::Recv => code / 4 % 0x1000 == 0x923,
            Dispatch::Send => code / 4 % 0x1000 == 0x924,
            Dispatch::MapMm => code / 4 % 0x1000 == 0x930,
            Dispatch::SetBpf => code / 4 % 0x1000 == 0x931,
            Dispatch::Complete { status } => status < 0 && code != 0x12E486 && code != 0x12E489
                && code != 0x12648E && code != 0x12E491 && code != 0x12E4C2 && code != 0x12E4C5,
        },
        dispatched(0, Ok(context), code) is Complete,
        forall|e: i32|
            dispatched(file_object, Err(e), code) == (Dispatch::Complete { status: e }),
{
}

/// A handle that was cleaned up is closed and does nothing any more. The filter of a file monitor
/// is unregistered, and the monitor counts no more; the engine of a network handle is closed.
pub proof fn law_handle_is_cleaned_up(
    before: Context,
    after: Context,
    monitor: FileMonitor,
    monitor_after: FileMonitor,
    work: CleanupWork,
)
    requires
        cleaned_up(before, after, monitor, monitor_after, work),
    ensures
        after.module is None,
        after.state == ContextState::Closed,
        before.module matches Some(ModuleContext::File(m)) ==> monitor_after.active == 0 && (
        m.filter_handle != 0 ==> work == (CleanupWork::File { unregister: Some(m.filter_handle) })),
        before.module matches Some(ModuleContext::Network(m)) ==> monitor_after.active
            == monitor.active && (m.network_ctx.fwpm_engine_handle != 0 ==> (work
            matches CleanupWork::Network { engine, .. } && engine == Some(
            m.network_ctx.fwpm_engine_handle,
        ))),
        before.module is None ==> work is Nothing,
{
}

} // verus!
