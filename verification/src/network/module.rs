//! What a network handle does with requests.
use vstd::prelude::*;
use crate::ioctl_code::IoctlMMapResponse;
use crate::network::bpf::BpfInsn;
use crate::network::context;
use crate::network::context::{NetworkContext, WfpLayer};
use crate::network::wfp_init;
use crate::ringbuffer::locked_ring::LockedRingBuffer;
use crate::ringbuffer::per_cpu_ring::PerCpuRingBuffer;
use crate::status::{
    STATUS_INSUFFICIENT_RESOURCES, STATUS_INVALID_DEVICE_REQUEST, STATUS_SUCCESS,
};
use crate::types::{LAYER_FLOW, LAYER_SOCKET};

verus! {

/// Flag of a handle that only looks at packets.
pub const RECV_ONLY_FLAG: u64 = 4;

pub struct NetworkModule {
    pub network_ctx: NetworkContext,
    /// The filter; without instructions it accepts everything.
    pub bpf_program: Vec<BpfInsn>,
}

/// The request that is to be completed next, given what asking the queue for one gave; none ends
/// the loop.
pub fn next_pending(status: i32, request: u64) -> (r: Option<u64>)
    ensures
        r == (if status == STATUS_SUCCESS && request != 0 {
            Some(request)
        } else {
            None
        }),
{
    if status == STATUS_SUCCESS && request != 0 {
        Some(request)
    } else {
        None
    }
}

/// What mapping the rings of a handle is answered.
pub open spec fn mapped(max_cores: u32, size: u32, mapping: Result<(u64, u64), i32>) -> Result<
    IoctlMMapResponse,
    i32,
> {
    match mapping {
        Ok((header, data)) => Ok(
            IoctlMMapResponse {
                max_cores,
                size,
                ring_buffer_header: header,
                ring_buffer_data: data,
                send_ring_buffer_header: 0,
                send_ring_buffer_data: 0,
            },
        ),
        Err(e) => Err(e),
    }
}

fn map_response(max_cores: u32, size: u32, mapping: Result<(u64, u64), i32>) -> (r: Result<
    IoctlMMapResponse,
    i32,
>)
    ensures
        r == mapped(max_cores, size, mapping),
{
    match mapping {
        Ok((header, data)) => Ok(
            IoctlMMapResponse {
                max_cores,
                size,
                ring_buffer_header: header,
                ring_buffer_data: data,
                send_ring_buffer_header: 0,
                send_ring_buffer_data: 0,
            },
        ),
        Err(e) => Err(e),
    }
}

/// What mapping the rings of a network handle is answered. The ring for events comes before those
/// for packets.
pub open spec fn module_mapped(m: NetworkModule, mapping: Result<(u64, u64), i32>) -> Result<
    IoctlMMapResponse,
    i32,
> {
    match (m.network_ctx.ale_ring_buffer, m.network_ctx.ring_buffer) {
        (Some(_), _) => mapped(1, 0x20_0000, mapping),
        (None, Some(rb)) => mapped(rb.workers_num, rb.ring_size() as u32, mapping),
        (None, None) => Err(STATUS_INVALID_DEVICE_REQUEST),
    }
}

/// What starting a handle does to its module and to its flags.
pub open spec fn started(
    before: NetworkModule,
    after: NetworkModule,
    flags_before: u64,
    flags_after: u64,
    flags: u64,
    set_up: Result<u64, i32>,
    r: Result<(), i32>,
) -> bool {
    match set_up {
        Err(e) => r == Err::<(), i32>(e) && after == before && flags_after == flags_before,
        Ok(engine) => {
            &&& r == Ok::<(), i32>(())
            &&& flags_after == flags
            &&& after == (NetworkModule {
                network_ctx: NetworkContext {
                    fwpm_engine_handle: engine,
                    packet_read_only: before.network_ctx.packet_read_only || flags & RECV_ONLY_FLAG
                        != 0,
                    ..before.network_ctx
                },
                ..before
            })
        },
    }
}

/// What taking a handle down does to its module; which filters are to be deleted, and which engine
/// is to be closed.
pub open spec fn taken_down(
    before: NetworkModule,
    after: NetworkModule,
    filters: Seq<u64>,
    engine: Option<u64>,
) -> bool {
    &&& filters == (if before.network_ctx.fwpm_engine_handle == 0 {
        Seq::empty()
    } else {
        wfp_init::to_delete(before.network_ctx.filter_ids@)
    })
    &&& engine == (if before.network_ctx.fwpm_engine_handle == 0 {
        None
    } else {
        Some(before.network_ctx.fwpm_engine_handle)
    })
    &&& after.network_ctx.filter_ids@.len() == 0
    &&& after.bpf_program == before.bpf_program
    &&& after.network_ctx == (NetworkContext {
        filter_ids: after.network_ctx.filter_ids,
        ring_buffer: match before.network_ctx.ring_buffer {
            Some(rb) => Some(
                PerCpuRingBuffer { notify_cb: None, notify_ctx: 0, is_watching: false, ..rb },
            ),
            None => None,
        },
        ale_ring_buffer: match before.network_ctx.ale_ring_buffer {
            Some(rb) => Some(
                LockedRingBuffer {
                    inner: PerCpuRingBuffer {
                        notify_cb: None,
                        notify_ctx: 0,
                        is_watching: false,
                        ..rb.inner
                    },
                    ..rb
                },
            ),
            None => None,
        },
        ..before.network_ctx
    })
}

/// Some ring holds something unread.
pub open spec fn has_unread(rb: PerCpuRingBuffer) -> bool {
    exists|i: int|
        0 <= i < rb.rb_datas@.len() && (#[trigger] rb.rb_datas@[i]).unread_len() != 0
}

impl NetworkModule {
    pub open spec fn wf(&self) -> bool {
        self.network_ctx.wf()
    }

    /// Nothing has happened yet: a filter that accepts everything, empty rings for packets or an
    /// empty ring for events, and the injection handles that were made, where there are any.
    pub open spec fn is_new(&self, layer: u32, active: u32, made: Result<WfpLayer, i32>) -> bool {
        &&& self.wf()
        &&& self.bpf_program@.len() == 0
        &&& self.network_ctx.fwpm_engine_handle == 0
        &&& self.network_ctx.sublayer_guid.is_nil()
        &&& self.network_ctx.filter_ids@.len() == 0
        &&& !self.network_ctx.packet_read_only
        &&& self.network_ctx.metrics == (context::Metrics { dropped: 0, received: 0, sent: 0 })
        &&& context::fits(layer, self.network_ctx.active_layer)
        &&& if context::reports_events(layer) {
            &&& self.network_ctx.active_layer == (if layer == LAYER_FLOW {
                WfpLayer::Flow
            } else {
                WfpLayer::Socket
            })
            &&& self.network_ctx.ring_buffer is None
            &&& self.network_ctx.ale_ring_buffer matches Some(rb) && rb.is_new(0x20_0000)
        } else {
            &&& active != 0
            &&& self.network_ctx.ale_ring_buffer is None
            &&& self.network_ctx.ring_buffer matches Some(rb) && rb.is_new(0x20_0000, active)
            &&& if context::needs_handles(layer) {
                made == Ok::<WfpLayer, i32>(self.network_ctx.active_layer)
            } else {
                self.network_ctx.active_layer == WfpLayer::Inactive
            }
        }
    }

    /// A module for a layer on a machine with `active` processors; `made` is what making the
    /// injection handles of the layer gives.
    pub fn new(layer: u32, active: u32, made: Result<WfpLayer, i32>) -> (r: Result<
        NetworkModule,
        i32,
    >)
        requires
            context::needs_handles(layer) ==> (made matches Ok(l) ==> context::fits(layer, l)),
        ensures
            match r {
                Err(e) => {
                    &&& !context::reports_events(layer)
                    &&& if active == 0 {
                        e == STATUS_INSUFFICIENT_RESOURCES
                    } else {
                        context::needs_handles(layer) && made == Err::<WfpLayer, i32>(e)
                    }
                },
                Ok(m) => m.is_new(layer, active, made),
            },
    {
        let mut network_ctx: NetworkContext = NetworkContext::new();
        match network_ctx.initialize(layer, active, made) {
            Err(e) => Err(e),
            Ok(_) => Ok(NetworkModule { network_ctx, bpf_program: Vec::new() }),
        }
    }

    /// Notes that setting the handle up with the filtering platform gave `set_up`. The flags of
    /// the handle become `flags` only if it succeeded.
    pub fn startup(&mut self, ctx_flags: &mut u64, flags: u64, set_up: Result<u64, i32>) -> (r: Result<
        (),
        i32,
    >)
        ensures
            started(
                *old(self),
                *final(self),
                *old(ctx_flags),
                *final(ctx_flags),
                flags,
                set_up,
                r,
            ),
    {
        match set_up {
            Ok(engine) => {
                *ctx_flags = flags;
                self.network_ctx.fwpm_engine_handle = engine;
                if (flags & RECV_ONLY_FLAG) != 0 {
                    self.network_ctx.packet_read_only = true;
                }
                Ok(())
            },
            Err(e) => Err(e),
        }
    }

    /// Where the rings were mapped for the client; `mapping` is what mapping them gave. The ring
    /// for events comes before those for packets.
    pub fn map_memory(&self, mapping: Result<(u64, u64), i32>) -> (r: Result<
        IoctlMMapResponse,
        i32,
    >)
        requires
            self.wf(),
        ensures
            r == module_mapped(*self, mapping),
    {
        if self.network_ctx.ale_ring_buffer.is_some() {
            return map_response(1, 0x20_0000, mapping);
        }
        match &self.network_ctx.ring_buffer {
            Some(rb) => map_response(rb.workers_num(), rb.get_ring_buffer_size() as u32, mapping),
            None => Err(STATUS_INVALID_DEVICE_REQUEST),
        }
    }

    /// Has `callback` called for the handle `context` when something arrives. The result says
    /// whether something is there already, so that waiting requests are to be completed now.
    pub fn arm_recv(&mut self, layer: u32, callback: u64, context: u64) -> (r: Result<bool, i32>)
        requires
            old(self).wf(),
        ensures
            final(self).wf(),
            if context::reports_events(layer) {
                match old(self).network_ctx.ale_ring_buffer {
                    None => r == Err::<bool, i32>(STATUS_INVALID_DEVICE_REQUEST) && *final(self)
                        == *old(self),
                    Some(rb) => {
                        &&& r == Ok::<bool, i32>(false)
                        &&& *final(self) == (NetworkModule {
                            network_ctx: NetworkContext {
                                ale_ring_buffer: Some(
                                    LockedRingBuffer {
                                        inner: PerCpuRingBuffer {
                                            notify_cb: Some(callback),
                                            notify_ctx: context,
                                            is_watching: true,
                                            ..rb.inner
                                        },
                                        ..rb
                                    },
                                ),
                                ..old(self).network_ctx
                            },
                            ..*old(self)
                        })
                    },
                }
            } else {
                match old(self).network_ctx.ring_buffer {
                    None => r == Err::<bool, i32>(STATUS_INVALID_DEVICE_REQUEST) && *final(self)
                        == *old(self),
                    Some(rb) => {
                        &&& r == Ok::<bool, i32>(has_unread(rb))
                        &&& *final(self) == (NetworkModule {
                            network_ctx: NetworkContext {
                                ring_buffer: Some(
                                    PerCpuRingBuffer {
                                        notify_cb: Some(callback),
                                        notify_ctx: context,
                                        is_watching: !has_unread(rb),
                                        ..rb
                                    },
                                ),
                                ..old(self).network_ctx
                            },
                            ..*old(self)
                        })
                    },
                }
            },
    {
        if layer == LAYER_FLOW || layer == LAYER_SOCKET {
            match self.network_ctx.ale_ring_buffer.take() {
                None => Err(STATUS_INVALID_DEVICE_REQUEST),
                Some(mut rb) => {
                    rb.set_notify_callback(Some(callback), context);
                    rb.set_watching();
                    self.network_ctx.ale_ring_buffer = Some(rb);
                    Ok(false)
                },
            }
        } else {
            match self.network_ctx.ring_buffer.take() {
                None => Err(STATUS_INVALID_DEVICE_REQUEST),
                Some(mut rb) => {
                    rb.set_notify_callback(Some(callback), context);
                    rb.set_watching();
                    let mut there: bool = false;
                    if rb.has_unread_packets() {
                        there = rb.test_and_clear_watching_flag();
                    }
                    self.network_ctx.ring_buffer = Some(rb);
                    Ok(there)
                },
            }
        }
    }

    /// Takes the handle down: nobody is called any more. The result says which filters are to be
    /// deleted, and which engine is to be closed after them.
    pub fn cleanup(&mut self) -> (r: (Vec<u64>, Option<u64>))
        requires
            old(self).wf(),
        ensures
            final(self).wf(),
            taken_down(*old(self), *final(self), r.0@, r.1),
    {
        let r = wfp_init::uninit_wfp(
            self.network_ctx.fwpm_engine_handle,
            &self.network_ctx.filter_ids,
        );
        assert(r.0@.len() == 0 ==> r.0@ =~= Seq::empty());
        self.network_ctx.filter_ids = Vec::new();
        match self.network_ctx.ring_buffer.take() {
            Some(mut rb) => {
                rb.set_notify_callback(None, 0);
                rb.clear_watching();
                self.network_ctx.ring_buffer = Some(rb);
            },
            None => {},
        }
        match self.network_ctx.ale_ring_buffer.take() {
            Some(mut rb) => {
                rb.set_notify_callback(None, 0);
                rb.clear_watching();
                self.network_ctx.ale_ring_buffer = Some(rb);
            },
            None => {},
        }
        r
    }
}

/// A handle that was started with the third flag only looks at packets from then on; without it a
/// new one does more. One that could not be started stays as it is.
pub proof fn law_started_handle_looks_on(
    before: NetworkModule,
    after: NetworkModule,
    flags_before: u64,
    flags_after: u64,
    flags: u64,
    set_up: Result<u64, i32>,
    r: Result<(), i32>,
)
    requires
        started(before, after, flags_before, flags_after, flags, set_up, r),
    ensures
        r is Ok == set_up is Ok,
        set_up matches Ok(engine) ==> after.network_ctx.fwpm_engine_handle == engine && flags_after
            == flags,
        r is Ok && flags / 4 % 2 == 1 ==> after.network_ctx.packet_read_only,
        r is Ok && flags / 4 % 2 == 0 ==> after.network_ctx.packet_read_only
            == before.network_ctx.packet_read_only,
        r is Err ==> after == before && flags_after == flags_before,
        after.bpf_program@ == before.bpf_program@,
{
    assert((flags & 4 != 0) == (flags / 4 % 2 == 1)) by (bit_vector);
}

/// The client is told how many rings there are and how long each is.
pub proof fn law_mapping_tells_rings(m: NetworkModule, header: u64, data: u64)
    requires
        m.wf(),
        m.network_ctx.ale_ring_buffer is None,
    ensures
        m.network_ctx.ring_buffer matches Some(rb) ==> (module_mapped(m, Ok((header, data)))
            matches Ok(a) && a.max_cores == rb.rb_datas@.len() && a.size == rb.rb_datas@[0].size
            && a.ring_buffer_header == header && a.ring_buffer_data == data),
        m.network_ctx.ring_buffer is None ==> module_mapped(m, Ok((header, data))) is Err,
{
}

/// Once a handle was taken down, nobody is called any more, and every filter that was added with an
/// open engine is deleted, before the engine is closed. What is unread stays.
pub proof fn law_handle_is_taken_down(
    before: NetworkModule,
    after: NetworkModule,
    filters: Seq<u64>,
    engine: Option<u64>,
    id: u64,
)
    requires
        taken_down(before, after, filters, engine),
    ensures
        after.network_ctx.ring_buffer matches Some(rb) ==> rb.due() is None,
        after.network_ctx.ale_ring_buffer matches Some(rb) ==> rb.inner.due() is None,
        before.network_ctx.fwpm_engine_handle != 0 ==> engine == Some(
            before.network_ctx.fwpm_engine_handle,
        ),
        before.network_ctx.fwpm_engine_handle != 0 && id != 0
            && before.network_ctx.filter_ids@.contains(id) ==> filters.contains(id),
        filters.contains(id) ==> before.network_ctx.filter_ids@.contains(id) && engine is Some,
        before.network_ctx.ring_buffer matches Some(rb) ==> after.network_ctx.ring_buffer is Some
            && after.network_ctx.ring_buffer->0.rb_datas == rb.rb_datas,
{
    wfp_init::law_all_filters_are_deleted(before.network_ctx.filter_ids@, id);
}

} // verus!
