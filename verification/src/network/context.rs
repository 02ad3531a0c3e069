//! What a network handle works on: its layer, its rings and its counters.
use vstd::prelude::*;
use crate::network::callout_stream::StreamLayer;
use crate::network::callout_transport::TransportLayer;
use crate::network::guids::Guid;
use crate::ringbuffer::locked_ring::LockedRingBuffer;
use crate::ringbuffer::per_cpu_ring::PerCpuRingBuffer;
use crate::status::STATUS_INSUFFICIENT_RESOURCES;
use crate::types::{
    LAYER_FLOW, LAYER_NETWORK, LAYER_NETWORK_FORWARD, LAYER_SOCKET, LAYER_STREAM, LAYER_TRANSPORT,
};

verus! {

/// Size of a ring of a network handle.
pub const NETWORK_RING_SIZE: usize = 0x20_0000;

#[derive(Clone, Copy, Debug, PartialEq, Eq, Structural)]
pub struct Metrics {
    /// Packets that were lost because the consumer was too slow.
    pub dropped: u64,
    /// Packets that the driver saw.
    pub received: u64,
    /// Packets that the driver injected.
    pub sent: u64,
}

impl Default for Metrics {
    fn default() -> (m: Metrics)
        ensures
            m == (Metrics { dropped: 0, received: 0, sent: 0 }),
    {
        Metrics { dropped: 0, received: 0, sent: 0 }
    }
}

/// Injection handles of the packet layer, which the platform side keeps under a number.
#[derive(Clone, Copy, Debug, PartialEq, Eq, Structural)]
pub struct NetworkLayer {
    pub handles: u64,
}

/// Injection handles of the forward layer, which the platform side keeps under a number.
#[derive(Clone, Copy, Debug, PartialEq, Eq, Structural)]
pub struct ForwardLayer {
    pub handles: u64,
}

/// The layer of a handle, with what injecting there takes.
#[derive(Clone, Copy, Debug, PartialEq, Eq, Structural)]
pub enum WfpLayer {
    Inactive,
    Network(NetworkLayer),
    Forward(ForwardLayer),
    Transport(TransportLayer),
    Stream(StreamLayer),
    Flow,
    Socket,
}

impl Default for WfpLayer {
    fn default() -> (l: WfpLayer)
        ensures
            l == WfpLayer::Inactive,
    {
        WfpLayer::Inactive
    }
}

pub struct NetworkContext {
    /// Session with the filtering platform, or 0.
    pub fwpm_engine_handle: u64,
    pub sublayer_guid: Guid,
    pub active_layer: WfpLayer,
    /// Packets are only looked at.
    pub packet_read_only: bool,
    pub filter_ids: Vec<u64>,
    /// Rings for packets.
    pub ring_buffer: Option<PerCpuRingBuffer>,
    /// Ring for flow and socket events.
    pub ale_ring_buffer: Option<LockedRingBuffer>,
    pub metrics: Metrics,
}

/// Whether a layer reports events rather than packets.
pub open spec fn reports_events(layer: u32) -> bool {
    layer == LAYER_FLOW || layer == LAYER_SOCKET
}

/// Which injection handles a layer works with.
#[derive(Clone, Copy, Debug, PartialEq, Eq, Structural)]
pub enum HandleKind {
    Network,
    Forward,
    Transport,
    Stream,
}

/// Which injection handles the layer with a number needs, if it needs any.
pub open spec fn handle_kind(layer: u32) -> Option<HandleKind> {
    if layer == LAYER_NETWORK {
        Some(HandleKind::Network)
    } else if layer == LAYER_NETWORK_FORWARD {
        Some(HandleKind::Forward)
    } else if layer == LAYER_TRANSPORT {
        Some(HandleKind::Transport)
    } else if layer == LAYER_STREAM {
        Some(HandleKind::Stream)
    } else {
        None
    }
}

/// Whether a layer needs injection handles.
pub open spec fn needs_handles(layer: u32) -> bool {
    handle_kind(layer) is Some
}

/// Whether `l` is what a handle with a layer's number is set up with.
pub open spec fn fits(layer: u32, l: WfpLayer) -> bool {
    match handle_kind(layer) {
        Some(HandleKind::Network) => l is Network,
        Some(HandleKind::Forward) => l is Forward,
        Some(HandleKind::Transport) => l is Transport,
        Some(HandleKind::Stream) => l is Stream,
        None => if layer == LAYER_FLOW {
            l is Flow
        } else if layer == LAYER_SOCKET {
            l is Socket
        } else {
            l is Inactive
        },
    }
}

/// What setting a handle up for a layer does to its context.
pub open spec fn set_up(
    before: NetworkContext,
    after: NetworkContext,
    layer: u32,
    active: u32,
    made: Result<WfpLayer, i32>,
    r: Result<(), i32>,
) -> bool {
    &&& after == (NetworkContext {
        active_layer: after.active_layer,
        ring_buffer: after.ring_buffer,
        ale_ring_buffer: after.ale_ring_buffer,
        ..before
    })
    &&& if reports_events(layer) {
        &&& r is Ok
        &&& after.active_layer == (if layer == LAYER_FLOW {
            WfpLayer::Flow
        } else {
            WfpLayer::Socket
        })
        &&& after.ring_buffer == before.ring_buffer
        &&& after.ale_ring_buffer matches Some(rb) && rb.is_new(NETWORK_RING_SIZE)
    } else if active == 0 {
        r == Err::<(), i32>(STATUS_INSUFFICIENT_RESOURCES) && after == before
    } else {
        &&& after.ale_ring_buffer == before.ale_ring_buffer
        &&& after.ring_buffer matches Some(rb) && rb.is_new(NETWORK_RING_SIZE, active)
        &&& match made {
            Ok(l) if needs_handles(layer) => r is Ok && after.active_layer == l,
            Err(e) if needs_handles(layer) => r == Err::<(), i32>(e) && after.active_layer
                == before.active_layer,
            _ => r is Ok && after.active_layer == before.active_layer,
        }
    }
}

/// Says which injection handles the layer with a number needs, if it needs any.
pub fn get_handle_kind(layer: u32) -> (k: Option<HandleKind>)
    ensures
        k == handle_kind(layer),
{
    if layer == LAYER_NETWORK {
        Some(HandleKind::Network)
    } else if layer == LAYER_NETWORK_FORWARD {
        Some(HandleKind::Forward)
    } else if layer == LAYER_TRANSPORT {
        Some(HandleKind::Transport)
    } else if layer == LAYER_STREAM {
        Some(HandleKind::Stream)
    } else {
        None
    }
}

impl NetworkContext {
    pub open spec fn wf(&self) -> bool {
        &&& self.ring_buffer matches Some(rb) ==> rb.healthy() && rb.ring_size() <= u32::MAX
        &&& self.ale_ring_buffer matches Some(rb) ==> rb.wf()
    }

    /// Nothing set up yet.
    pub open spec fn is_blank(&self) -> bool {
        &&& self.fwpm_engine_handle == 0
        &&& self.active_layer == WfpLayer::Inactive
        &&& !self.packet_read_only
        &&& self.filter_ids@.len() == 0
        &&& self.ring_buffer is None
        &&& self.ale_ring_buffer is None
        &&& self.metrics == (Metrics { dropped: 0, received: 0, sent: 0 })
    }

    pub fn new() -> (c: NetworkContext)
        ensures
            c.is_blank(),
            c.sublayer_guid.is_nil(),
            c.wf(),
    {
        NetworkContext {
            fwpm_engine_handle: 0,
            sublayer_guid: Guid::default(),
            active_layer: WfpLayer::Inactive,
            packet_read_only: false,
            filter_ids: Vec::new(),
            ring_buffer: None,
            ale_ring_buffer: None,
            metrics: Metrics::default(),
        }
    }

    /// Sets the handle up for a layer on a machine with `active` processors: a ring for events or
    /// rings for packets, and then the injection handles. `made` is what making those of the
    /// layer's kind gives.
    pub fn initialize(&mut self, layer: u32, active: u32, made: Result<WfpLayer, i32>) -> (r: Result<
        (),
        i32,
    >)
        requires
            old(self).wf(),
            needs_handles(layer) ==> (made matches Ok(l) ==> fits(layer, l)),
        ensures
            final(self).wf(),
            set_up(*old(self), *final(self), layer, active, made, r),
    {
        proof {
            lemma_network_ring_size();
        }
        if layer == LAYER_FLOW || layer == LAYER_SOCKET {
            match LockedRingBuffer::allocate(NETWORK_RING_SIZE) {
                Err(e) => {
                    return Err(e);
                },
                Ok(rb) => {
                    self.ale_ring_buffer = Some(rb);
                },
            }
            self.active_layer = if layer == LAYER_FLOW {
                WfpLayer::Flow
            } else {
                WfpLayer::Socket
            };
            return Ok(());
        }
        match PerCpuRingBuffer::allocate(NETWORK_RING_SIZE, 0, active) {
            Err(e) => {
                return Err(e);
            },
            Ok(rb) => {
                assert forall|i: int| 0 <= i < rb.rb_datas@.len() implies (#[trigger]
                rb.rb_datas@[i]).consistent() && rb.rb_datas@[i].settled() by {}
                self.ring_buffer = Some(rb);
            },
        }
        if get_handle_kind(layer).is_some() {
            match made {
                Ok(l) => {
                    self.active_layer = l;
                },
                Err(e) => {
                    return Err(e);
                },
            }
        }
        Ok(())
    }

    pub fn metrics_reset(&mut self)
        ensures
            *final(self) == (NetworkContext {
                metrics: Metrics { dropped: 0, received: 0, sent: 0 },
                ..*old(self)
            }),
    {
        self.metrics.dropped = 0;
        self.metrics.received = 0;
        self.metrics.sent = 0;
    }

    pub fn metrics_inc_dropped(&mut self)
        requires
            old(self).metrics.dropped < u64::MAX,
        ensures
            *final(self) == (NetworkContext {
                metrics: Metrics {
                    dropped: (old(self).metrics.dropped + 1) as u64,
                    ..old(self).metrics
                },
                ..*old(self)
            }),
    {
        self.metrics.dropped += 1;
    }

    pub fn metrics_inc_received(&mut self)
        requires
            old(self).metrics.received < u64::MAX,
        ensures
            *final(self) == (NetworkContext {
                metrics: Metrics {
                    received: (old(self).metrics.received + 1) as u64,
                    ..old(self).metrics
                },
                ..*old(self)
            }),
    {
        self.metrics.received += 1;
    }

    pub fn metrics_inc_sent(&mut self)
        requires
            old(self).metrics.sent < u64::MAX,
        ensures
            *final(self) == (NetworkContext {
                metrics: Metrics { sent: (old(self).metrics.sent + 1) as u64, ..old(self).metrics },
                ..*old(self)
            }),
    {
        self.metrics.sent += 1;
    }

    pub fn metrics_get(&self) -> (m: Metrics)
        ensures
            m == self.metrics,
    {
        self.metrics
    }
}

impl Default for NetworkContext {
    fn default() -> (c: NetworkContext)
        ensures
            c.is_blank(),
            c.sublayer_guid.is_nil(),
            c.wf(),
    {
        NetworkContext::new()
    }
}

proof fn lemma_network_ring_size()
    ensures
        vstd::arithmetic::power2::is_pow2(NETWORK_RING_SIZE as int),
{
    vstd::arithmetic::power2::lemma2_to64();
    vstd::arithmetic::power2::is_pow2_equiv(NETWORK_RING_SIZE as int);
    vstd::arithmetic::power2::lemma_pow2(21);
}

/// A handle that was set up works on the layer that it was set up for: flows and sockets are
/// reported in one ring, packets and streams in one for each processor, of two megabytes each.
pub proof fn law_handle_is_set_up(
    before: NetworkContext,
    after: NetworkContext,
    layer: u32,
    active: u32,
    made: Result<WfpLayer, i32>,
    r: Result<(), i32>,
)
    requires
        set_up(before, after, layer, active, made, r),
        made matches Ok(l) ==> fits(layer, l),
        active > 0,
        layer != 4 && layer < 7,
    ensures
        r is Ok <==> layer == 2 || layer == 3 || made is Ok,
        made matches Err(e) && layer != 2 && layer != 3 ==> r == Err::<(), i32>(made->Err_0),
        r is Ok ==> match after.active_layer {
            WfpLayer::Network(_) => layer == 0,
            WfpLayer::Forward(_) => layer == 1,
            WfpLayer::Flow => layer == 2,
            WfpLayer::Socket => layer == 3,
            WfpLayer::Transport(_) => layer == 5,
            WfpLayer::Stream(_) => layer == 6,
            WfpLayer::Inactive => false,
        },
        layer == 2 || layer == 3 ==> after.ale_ring_buffer is Some
            && after.ale_ring_buffer->0.unread() == Seq::<u8>::empty()
            && after.ale_ring_buffer->0.inner.ring_size() == 2 * 1024 * 1024,
        layer != 2 && layer != 3 ==> after.ring_buffer is Some
            && after.ring_buffer->0.rb_datas@.len() == active && after.ring_buffer->0.ring_size()
            == 2 * 1024 * 1024,
        after.metrics == before.metrics && after.packet_read_only == before.packet_read_only,
{
}

} // verus!
