//! What the driver does with each request of a client.
use vstd::prelude::*;
use crate::context::{Context, ContextState, ModuleContext};
use crate::file_config;
use crate::file_config::FILE_CONFIG_SIZE;
use crate::file_monitor::file_module::FileModule;
use crate::file_types::{FileModuleConfig, MAX_FILTER_RULES, MAX_RULE_PATH_LEN};
use crate::ioctl_code::{DivertIoctlInitialize, IoctlMMapResponse};
use crate::network::bpf::BpfInsn;
use crate::network::bpf_wire;
use crate::network::context;
use crate::network::context::{NetworkContext, WfpLayer};
use crate::network::module;
use crate::network::module::NetworkModule;
use crate::ringbuffer::locked_ring::LockedRingBuffer;
use crate::ringbuffer::per_cpu_ring::{Notify, PerCpuRingBuffer};
use crate::status::{
    nt_success, STATUS_BUFFER_TOO_SMALL, STATUS_INSUFFICIENT_RESOURCES,
    STATUS_INVALID_DEVICE_REQUEST, STATUS_INVALID_PARAMETER, STATUS_PENDING, STATUS_SUCCESS,
};
use crate::types::{Layer, LAYER_FILE};

verus! {

/// Chooses the layer of a handle and makes its module.
///
/// The machine has `active` processors; `made` is what making the injection handles of the layer's
/// kind gives, where it needs any.
pub fn handle_initialize(
    ctx: &mut Context,
    initialize: &DivertIoctlInitialize,
    active: u32,
    made: Result<WfpLayer, i32>,
) -> (status: i32)
    requires
        old(ctx).wf(),
        context::needs_handles(initialize.layer) ==> (made matches Ok(l) ==> context::fits(
            initialize.layer,
            l,
        )),
    ensures
        final(ctx).wf(),
        initialized(*old(ctx), *final(ctx), *initialize, active, made, status),
{
    if Layer::from_code(initialize.layer).is_none() {
        return STATUS_INVALID_DEVICE_REQUEST;
    }
    ctx.layer = initialize.layer;
    ctx.flags = initialize.flags;
    ctx.priority = initialize.priority;
    if initialize.layer == LAYER_FILE {
        match FileModule::new() {
            Ok(m) => {
                ctx.module = Some(ModuleContext::File(m));
            },
            Err(e) => {
                return e;
            },
        }
    } else {
        match NetworkModule::new(initialize.layer, active, made) {
            Ok(m) => {
                ctx.module = Some(ModuleContext::Network(m));
            },
            Err(e) => {
                return e;
            },
        }
    }
    STATUS_SUCCESS
}

/// What a request for a layer does to a handle, and what it is answered.
pub open spec fn initialized(
    before: Context,
    after: Context,
    initialize: DivertIoctlInitialize,
    active: u32,
    made: Result<WfpLayer, i32>,
    status: i32,
) -> bool {
    if initialize.layer > LAYER_FILE {
        status == STATUS_INVALID_DEVICE_REQUEST && after == before
    } else {
        &&& after == (Context {
            layer: initialize.layer,
            flags: initialize.flags,
            priority: initialize.priority,
            module: after.module,
            ..before
        })
        &&& if initialize.layer == LAYER_FILE {
            &&& status == STATUS_SUCCESS
            &&& after.module matches Some(ModuleContext::File(m)) && m.is_new()
        } else {
            network_made(initialize.layer, active, made, before.module, after.module, status)
        }
    }
}

/// The module of a network handle after [`handle_initialize`]: a new one, or the old one and an
/// error.
pub open spec fn network_made(
    layer: u32,
    active: u32,
    made: Result<WfpLayer, i32>,
    before: Option<ModuleContext>,
    after: Option<ModuleContext>,
    status: i32,
) -> bool {
    if !context::reports_events(layer) && active == 0 {
        status == STATUS_INSUFFICIENT_RESOURCES && after == before
    } else if context::needs_handles(layer) && made is Err {
        status == made->Err_0 && after == before
    } else {
        &&& status == STATUS_SUCCESS
        &&& after matches Some(ModuleContext::Network(m)) && m.is_new(layer, active, made)
    }
}

/// What is to be done about a request to start a handle.
#[derive(Clone, Copy, Debug, PartialEq, Eq, Structural)]
pub enum StartupStep {
    /// Answer the request.
    Finish { status: i32 },
    /// Set the handle up with the filtering platform, with these flags.
    StartNetwork { flags: u64 },
    /// Start the file monitor.
    StartFile { flags: u64 },
}

/// The flags with which a handle is started: those of the request, unless they are 0.
pub open spec fn startup_flags(ctx: Context, requested: u64) -> u64 {
    if requested != 0 {
        requested
    } else {
        ctx.flags
    }
}

/// Rules that the file monitor accepts: no more than there is room for, and no path longer than
/// there is room for.
pub open spec fn valid_config(c: FileModuleConfig) -> bool {
    &&& c.rule_count <= 16
    &&& forall|i: int| 0 <= i < c.rule_count ==> (#[trigger] c.rules@[i]).path_len <= 260
}

/// The status with which the configuration in a request is refused; 0 if it is not. `status` and
/// `input` are what retrieving it gave.
pub open spec fn config_status(status: i32, input: Seq<u8>) -> i32 {
    if status < 0 {
        status
    } else if input.len() < 8652 {
        STATUS_BUFFER_TOO_SMALL
    } else if exists|c: FileModuleConfig| #[trigger]
        file_config::is_config(c, input) && !valid_config(c) {
        STATUS_INVALID_PARAMETER
    } else {
        STATUS_SUCCESS
    }
}

fn check_config(c: &FileModuleConfig) -> (ok: bool)
    ensures
        ok == valid_config(*c),
{
    if c.rule_count as usize > MAX_FILTER_RULES {
        return false;
    }
    let mut i: usize = 0;
    while i < c.rule_count as usize
        invariant
            i <= c.rule_count <= 16,
            forall|j: int| 0 <= j < i ==> (#[trigger] c.rules@[j]).path_len <= 260,
        decreases c.rule_count - i,
    {
        if c.rules[i].path_len as usize > MAX_RULE_PATH_LEN {
            return false;
        }
        i += 1;
    }
    true
}

/// What a request to start a handle does to it, and what is to be done about it.
pub open spec fn opened(
    before: Context,
    after: Context,
    requested_flags: u64,
    status: i32,
    input: Seq<u8>,
    r: StartupStep,
) -> bool {
    let flags = startup_flags(before, requested_flags);
    let file = before.layer == LAYER_FILE;
    let refused = config_status(status, input);
    let open = Context { state: ContextState::Open, ..before };
    if file && refused != STATUS_SUCCESS {
        r == (StartupStep::Finish { status: refused }) && after == open
    } else {
        match before.module {
            None => r == (StartupStep::Finish { status: STATUS_INVALID_DEVICE_REQUEST }) && after
                == open,
            Some(ModuleContext::Network(m)) => r == (StartupStep::StartNetwork { flags }) && after
                == open,
            Some(ModuleContext::File(m)) => {
                &&& r == (StartupStep::StartFile { flags })
                &&& after == (Context { flags, module: after.module, ..open })
                &&& after.module matches Some(ModuleContext::File(n)) && n == (FileModule {
                    config: n.config,
                    ..m
                }) && if file {
                    file_config::is_config(n.config, input)
                } else {
                    n.config == m.config
                }
            },
        }
    }
}

/// Opens a handle and says how it is started. `status` and `input` are what retrieving the
/// configuration of a file monitor from the request gave.
pub fn handle_startup(ctx: &mut Context, requested_flags: u64, status: i32, input: &[u8]) -> (r:
    StartupStep)
    requires
        old(ctx).wf(),
    ensures
        final(ctx).wf(),
        final(ctx).state == ContextState::Open,
        opened(*old(ctx), *final(ctx), requested_flags, status, input@, r),
{
    let _ = ctx.initialize();
    let flags: u64 = if requested_flags != 0 {
        requested_flags
    } else {
        ctx.flags
    };
    let mut config: Option<FileModuleConfig> = None;
    if ctx.layer == LAYER_FILE {
        if !nt_success(status) {
            return StartupStep::Finish { status };
        }
        if input.len() < FILE_CONFIG_SIZE {
            return StartupStep::Finish { status: STATUS_BUFFER_TOO_SMALL };
        }
        let c: FileModuleConfig = file_config::decode_config(input);
        proof {
            assert forall|d: FileModuleConfig| #[trigger]
                file_config::is_config(d, input@) implies d == c by {
                file_config::lemma_config_unique(d, c, input@);
            }
        }
        if !check_config(&c) {
            return StartupStep::Finish { status: STATUS_INVALID_PARAMETER };
        }
        config = Some(c);
    }
    match ctx.module.take() {
        None => StartupStep::Finish { status: STATUS_INVALID_DEVICE_REQUEST },
        Some(ModuleContext::Network(m)) => {
            ctx.module = Some(ModuleContext::Network(m));
            StartupStep::StartNetwork { flags }
        },
        Some(ModuleContext::File(mut m)) => {
            if let Some(c) = config {
                m.config = c;
            }
            ctx.flags = flags;
            ctx.module = Some(ModuleContext::File(m));
            StartupStep::StartFile { flags }
        },
    }
}

/// What a request to start a handle is answered, given what starting its module gave.
pub fn finish_startup(result: Result<(), i32>) -> (status: i32)
    ensures
        status == (match result {
            Ok(_) => STATUS_SUCCESS,
            Err(e) => e,
        }),
{
    match result {
        Ok(_) => STATUS_SUCCESS,
        Err(e) => e,
    }
}

/// Answers a request for the rings. `mapping` is what mapping them gave.
pub fn handle_rb_map(ctx: &Context, mapping: Result<(u64, u64), i32>) -> (r: Result<
    IoctlMMapResponse,
    i32,
>)
    requires
        ctx.wf(),
    ensures
        r == (match ctx.module {
            None => Err(STATUS_INVALID_DEVICE_REQUEST),
            Some(ModuleContext::Network(m)) => match (
                m.network_ctx.ale_ring_buffer,
                m.network_ctx.ring_buffer,
            ) {
                (Some(_), _) => module::mapped(1, 0x20_0000, mapping),
                (None, Some(rb)) => module::mapped(
                    rb.workers_num,
                    rb.ring_size() as u32,
                    mapping,
                ),
                (None, None) => Err(STATUS_INVALID_DEVICE_REQUEST),
            },
            Some(ModuleContext::File(m)) => if m.ring_buffer is Some {
                module::mapped(1, 0x20_0000, mapping)
            } else {
                Err(STATUS_INVALID_DEVICE_REQUEST)
            },
        }),
{
    match &ctx.module {
        None => Err(STATUS_INVALID_DEVICE_REQUEST),
        Some(ModuleContext::Network(m)) => m.map_memory(mapping),
        Some(ModuleContext::File(m)) => m.map_memory(mapping),
    }
}

/// A module once a request waits for something to arrive in its rings: `callback` is to be called
/// for the handle `context`, unless something is there already.
pub open spec fn armed(m: ModuleContext, layer: u32, callback: u64, context: u64) -> ModuleContext {
    match m {
        ModuleContext::File(m) => match m.ring_buffer {
            Some(rb) => ModuleContext::File(
                FileModule {
                    ring_buffer: Some(
                        PerCpuRingBuffer {
                            notify_cb: Some(callback),
                            notify_ctx: context,
                            is_watching: true,
                            ..rb
                        },
                    ),
                    ..m
                },
            ),
            None => ModuleContext::File(m),
        },
        ModuleContext::Network(m) => {
            let c = m.network_ctx;
            let after = if context::reports_events(layer) {
                match c.ale_ring_buffer {
                    Some(rb) => NetworkContext {
                        ale_ring_buffer: Some(
                            LockedRingBuffer {
                                inner: PerCpuRingBuffer {
                                    notify_cb: Some(callback),
                                    notify_ctx: context,
                                    is_watching: true,
                                    ..rb.inner
                                },
                                ..rb
                            },
                        ),
                        ..c
                    },
                    None => c,
                }
            } else {
                match c.ring_buffer {
                    Some(rb) => NetworkContext {
                        ring_buffer: Some(
                            PerCpuRingBuffer {
                                notify_cb: Some(callback),
                                notify_ctx: context,
                                is_watching: !module::has_unread(rb),
                                ..rb
                            },
                        ),
                        ..c
                    },
                    None => c,
                }
            };
            ModuleContext::Network(NetworkModule { network_ctx: after, ..m })
        },
    }
}

/// Whether there is something to read in the rings for packets of a module already.
pub open spec fn already_there(m: ModuleContext, layer: u32) -> bool {
    match m {
        ModuleContext::Network(m) if !context::reports_events(layer) => match m.network_ctx.ring_buffer {
            Some(rb) => module::has_unread(rb),
            None => false,
        },
        _ => false,
    }
}

/// Whether a module has the rings that requests of its layer wait for.
pub open spec fn has_rings(m: ModuleContext, layer: u32) -> bool {
    match m {
        ModuleContext::File(m) => m.ring_buffer is Some,
        ModuleContext::Network(m) => if context::reports_events(layer) {
            m.network_ctx.ale_ring_buffer is Some
        } else {
            m.network_ctx.ring_buffer is Some
        },
    }
}

/// Lets a request wait until something arrives. `forwarded` is what putting it in the queue gave;
/// `callback` is what is to be called for this handle, `context`.
///
/// The second result says whether waiting requests are to be completed now.
pub fn handle_recv(ctx: &mut Context, forwarded: i32, callback: u64, context: u64) -> (r: (i32, bool))
    requires
        old(ctx).wf(),
    ensures
        final(ctx).wf(),
        *final(ctx) == (Context { module: final(ctx).module, ..*old(ctx) }),
        if forwarded < 0 {
            r == (forwarded, false) && *final(ctx) == *old(ctx)
        } else {
            match old(ctx).module {
                Some(m) if has_rings(m, old(ctx).layer) => {
                    &&& r == (STATUS_PENDING, already_there(m, old(ctx).layer))
                    &&& final(ctx).module == Some(armed(m, old(ctx).layer, callback, context))
                },
                _ => r == (STATUS_INVALID_DEVICE_REQUEST, false) && *final(ctx) == *old(ctx),
            }
        },
{
    if !nt_success(forwarded) {
        return (forwarded, false);
    }
    let layer: u32 = ctx.layer;
    match ctx.module.take() {
        None => (STATUS_INVALID_DEVICE_REQUEST, false),
        Some(ModuleContext::Network(mut m)) => {
            let r = m.arm_recv(layer, callback, context);
            ctx.module = Some(ModuleContext::Network(m));
            match r {
                Ok(there) => (STATUS_PENDING, there),
                Err(e) => (e, false),
            }
        },
        Some(ModuleContext::File(mut m)) => {
            let r = m.arm_recv(callback, context);
            ctx.module = Some(ModuleContext::File(m));
            match r {
                Ok(_) => (STATUS_PENDING, false),
                Err(e) => (e, false),
            }
        },
    }
}

/// Who takes what a client sends.
#[derive(Clone, Copy, Debug, PartialEq, Eq, Structural)]
pub enum SendTarget {
    Network,
    File,
}

/// Says who takes what a client sends.
pub fn handle_send(ctx: &Context) -> (r: Result<SendTarget, i32>)
    ensures
        r == (match ctx.module {
            None => Err::<SendTarget, i32>(STATUS_INVALID_DEVICE_REQUEST),
            Some(ModuleContext::Network(_)) => Ok(SendTarget::Network),
            Some(ModuleContext::File(_)) => Ok(SendTarget::File),
        }),
{
    match &ctx.module {
        None => Err(STATUS_INVALID_DEVICE_REQUEST),
        Some(ModuleContext::Network(_)) => Ok(SendTarget::Network),
        Some(ModuleContext::File(_)) => Ok(SendTarget::File),
    }
}

/// What a request for a filter does to a handle, and what it is answered.
pub open spec fn filter_set(
    before: Context,
    after: Context,
    status: i32,
    input: Seq<u8>,
    r: i32,
) -> bool {
    &&& after == (Context { module: after.module, ..before })
    &&& if status < 0 {
        r == status && after == before
    } else {
        match before.module {
            Some(ModuleContext::Network(m)) if input.len() % 8 == 0 => {
                &&& r == STATUS_SUCCESS
                &&& after.module matches Some(ModuleContext::Network(n)) && n == (NetworkModule {
                    bpf_program: n.bpf_program,
                    ..m
                }) && n.bpf_program@ == bpf_wire::program_of(input)
            },
            _ => r == STATUS_INVALID_DEVICE_REQUEST && after == before,
        }
    }
}

/// Sets the filter of a network handle. `status` and `input` are what retrieving the program from
/// the request gave.
pub fn handle_set_bpf(ctx: &mut Context, status: i32, input: &[u8]) -> (r: i32)
    requires
        old(ctx).wf(),
    ensures
        final(ctx).wf(),
        filter_set(*old(ctx), *final(ctx), status, input@, r),
{
    if !nt_success(status) {
        return status;
    }
    if input.len() % bpf_wire::BPF_INSN_SIZE != 0 {
        return STATUS_INVALID_DEVICE_REQUEST;
    }
    match ctx.module.take() {
        Some(ModuleContext::Network(mut m)) => {
            m.bpf_program = bpf_wire::decode_program(input);
            ctx.module = Some(ModuleContext::Network(m));
            STATUS_SUCCESS
        },
        other => {
            ctx.module = other;
            STATUS_INVALID_DEVICE_REQUEST
        },
    }
}

/// A handle gets the layer, the flags and the priority that it asks for, and the module of its
/// layer: the seventh is that of files, those before it are the network's. There are no others.
pub proof fn law_handle_gets_its_layer(
    before: Context,
    after: Context,
    initialize: DivertIoctlInitialize,
    active: u32,
    made: Result<WfpLayer, i32>,
    status: i32,
)
    requires
        initialized(before, after, initialize, active, made, status),
    ensures
        initialize.layer > 7 ==> status < 0 && after == before,
        initialize.layer <= 7 ==> after.layer == initialize.layer && after.flags
            == initialize.flags && after.priority == initialize.priority,
        initialize.layer == 7 ==> status == 0 && after.module matches Some(ModuleContext::File(_)),
        initialize.layer < 7 && active > 0 && made is Ok ==> status == 0 && after.module
            matches Some(ModuleContext::Network(_)),
        after.state == before.state,
{
}

/// A file monitor is started with the rules that the client sent, if there are no more than sixteen
/// and no path is longer than 260 code units; else it is refused.
pub proof fn law_monitor_gets_its_rules(
    before: Context,
    after: Context,
    requested_flags: u64,
    c: FileModuleConfig,
    m: FileModule,
    r: StartupStep,
)
    requires
        before.layer == 7,
        before.module == Some(ModuleContext::File(m)),
        opened(before, after, requested_flags, 0, file_config::config_bytes(c), r),
    ensures
        (c.rule_count <= 16 && forall|i: int|
            0 <= i < c.rule_count ==> (#[trigger] c.rules@[i]).path_len <= 260) ==> r is StartFile
            && (after.module matches Some(ModuleContext::File(n)) && n.config == c && n.exempt_pid
            == m.exempt_pid),
        c.rule_count > 16 ==> r is Finish,
        (exists|i: int| 0 <= i < c.rule_count <= 16 && (#[trigger] c.rules@[i]).path_len > 260)
            ==> r is Finish,
        requested_flags != 0 && r is StartFile ==> after.flags == requested_flags,
        requested_flags == 0 && r is StartFile ==> after.flags == before.flags,
        after.state == ContextState::Open,
{
    file_config::law_config_round_trip(c);
    if !valid_config(c) {
        assert(file_config::is_config(c, file_config::config_bytes(c)) && !valid_config(c));
    }
}

/// A network handle filters with the program that the client sent. Other handles take none.
pub proof fn law_handle_gets_its_filter(
    before: Context,
    after: Context,
    p: Seq<BpfInsn>,
    r: i32,
)
    requires
        filter_set(before, after, 0, bpf_wire::program_bytes(p), r),
    ensures
        before.module matches Some(ModuleContext::Network(_)) ==> r == 0 && (after.module
            matches Some(ModuleContext::Network(n)) && n.bpf_program@ == p),
        !(before.module matches Some(ModuleContext::Network(_))) ==> r < 0 && after == before,
{
    bpf_wire::law_program_round_trip(p);
}

/// Who waits for something does not wait in vain: either something is there already, which the
/// answer says, or the next thing to arrive calls back.
pub proof fn law_nobody_waits_in_vain(m: ModuleContext, layer: u32, callback: u64, context: u64)
    requires
        has_rings(m, layer),
    ensures
        match armed(m, layer, callback, context) {
            ModuleContext::File(f) => f.ring_buffer matches Some(rb) && rb.due() == Some(
                Notify { callback, context },
            ) && !already_there(m, layer),
            ModuleContext::Network(n) => if layer == 2 || layer == 3 {
                n.network_ctx.ale_ring_buffer matches Some(rb) && rb.inner.due() == Some(
                    Notify { callback, context },
                )
            } else {
                n.network_ctx.ring_buffer matches Some(rb) && (if already_there(m, layer) {
                    rb.due() is None
                } else {
                    rb.due() == Some(Notify { callback, context })
                })
            },
        },
{
}

} // verus!
