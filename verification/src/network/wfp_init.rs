//! Setting a network handle up with the filtering platform, and taking it down again.
use vstd::prelude::*;
use crate::network::context::{NetworkContext, WfpLayer};
use crate::network::callout_stream::StreamLayer;
use crate::network::guids::Guid;
use crate::status::{nt_success, STATUS_INSUFFICIENT_RESOURCES, STATUS_SUCCESS};
use crate::text;
use crate::types::{
    LAYER_FLOW, LAYER_NETWORK, LAYER_NETWORK_FORWARD, LAYER_SOCKET, LAYER_STREAM, LAYER_TRANSPORT,
};

verus! {

/// 0xC0220009: there is such a provider already.
pub const STATUS_FWP_ALREADY_EXISTS: i32 = -0x3FDD_FFF7;

/// Weight of the sublayer: the highest.
pub const SUBLAYER_WEIGHT: u16 = 65535;

/// A layer of the filtering platform.
#[derive(Clone, Copy, Debug, PartialEq, Eq, Structural)]
pub enum PlatformLayer {
    InboundV4,
    OutboundV4,
    InboundV6,
    OutboundV6,
    ForwardV4,
    ForwardV6,
    FlowV4,
    FlowV6,
    SocketConnectV4,
    SocketConnectV6,
    InboundTransportV4,
    OutboundTransportV4,
    InboundTransportV6,
    OutboundTransportV6,
    StreamV4,
    StreamV6,
}

/// The functions that a callout is registered with.
#[derive(Clone, Copy, Debug, PartialEq, Eq, Structural)]
pub enum CalloutKind {
    Network,
    Transport,
    Stream,
    Flow,
    Socket,
}

/// The layers of the filtering platform that a handle's layer stands for.
pub open spec fn platform_layers(layer: u32) -> Seq<PlatformLayer> {
    if layer == LAYER_NETWORK {
        seq![
            PlatformLayer::InboundV4,
            PlatformLayer::OutboundV4,
            PlatformLayer::InboundV6,
            PlatformLayer::OutboundV6,
        ]
    } else if layer == LAYER_NETWORK_FORWARD {
        seq![PlatformLayer::ForwardV4, PlatformLayer::ForwardV6]
    } else if layer == LAYER_FLOW {
        seq![PlatformLayer::FlowV4, PlatformLayer::FlowV6]
    } else if layer == LAYER_SOCKET {
        seq![PlatformLayer::SocketConnectV4, PlatformLayer::SocketConnectV6]
    } else if layer == LAYER_TRANSPORT {
        seq![
            PlatformLayer::InboundTransportV4,
            PlatformLayer::OutboundTransportV4,
            PlatformLayer::InboundTransportV6,
            PlatformLayer::OutboundTransportV6,
        ]
    } else if layer == LAYER_STREAM {
        seq![PlatformLayer::StreamV4, PlatformLayer::StreamV6]
    } else {
        seq![]
    }
}

/// The layers of the filtering platform that a handle's layer stands for.
pub fn get_platform_layers(layer: u32) -> (v: Vec<PlatformLayer>)
    ensures
        v@ == platform_layers(layer),
{
    let mut v: Vec<PlatformLayer> = Vec::new();
    if layer == LAYER_NETWORK {
        v.push(PlatformLayer::InboundV4);
        v.push(PlatformLayer::OutboundV4);
        v.push(PlatformLayer::InboundV6);
        v.push(PlatformLayer::OutboundV6);
    } else if layer == LAYER_NETWORK_FORWARD {
        v.push(PlatformLayer::ForwardV4);
        v.push(PlatformLayer::ForwardV6);
    } else if layer == LAYER_FLOW {
        v.push(PlatformLayer::FlowV4);
        v.push(PlatformLayer::FlowV6);
    } else if layer == LAYER_SOCKET {
        v.push(PlatformLayer::SocketConnectV4);
        v.push(PlatformLayer::SocketConnectV6);
    } else if layer == LAYER_TRANSPORT {
        v.push(PlatformLayer::InboundTransportV4);
        v.push(PlatformLayer::OutboundTransportV4);
        v.push(PlatformLayer::InboundTransportV6);
        v.push(PlatformLayer::OutboundTransportV6);
    } else if layer == LAYER_STREAM {
        v.push(PlatformLayer::StreamV4);
        v.push(PlatformLayer::StreamV6);
    }
    assert(v@ =~= platform_layers(layer));
    v
}

pub open spec fn callout_kind(layer: u32) -> CalloutKind {
    if layer == LAYER_TRANSPORT {
        CalloutKind::Transport
    } else if layer == LAYER_STREAM {
        CalloutKind::Stream
    } else if layer == LAYER_FLOW {
        CalloutKind::Flow
    } else if layer == LAYER_SOCKET {
        CalloutKind::Socket
    } else {
        CalloutKind::Network
    }
}

/// The functions with which the callouts of a handle's layer are registered.
pub fn get_callout_kind(layer: u32) -> (k: CalloutKind)
    ensures
        k == callout_kind(layer),
{
    if layer == LAYER_TRANSPORT {
        CalloutKind::Transport
    } else if layer == LAYER_STREAM {
        CalloutKind::Stream
    } else if layer == LAYER_FLOW {
        CalloutKind::Flow
    } else if layer == LAYER_SOCKET {
        CalloutKind::Socket
    } else {
        CalloutKind::Network
    }
}

impl PlatformLayer {
    pub open spec fn spec_name(&self) -> Seq<char> {
        match self {
            PlatformLayer::InboundV4 => "InboundV4"@,
            PlatformLayer::OutboundV4 => "OutboundV4"@,
            PlatformLayer::InboundV6 => "InboundV6"@,
            PlatformLayer::OutboundV6 => "OutboundV6"@,
            PlatformLayer::ForwardV4 => "ForwardV4"@,
            PlatformLayer::ForwardV6 => "ForwardV6"@,
            PlatformLayer::FlowV4 => "FlowV4"@,
            PlatformLayer::FlowV6 => "FlowV6"@,
            PlatformLayer::SocketConnectV4 => "SocketConnectV4"@,
            PlatformLayer::SocketConnectV6 => "SocketConnectV6"@,
            PlatformLayer::InboundTransportV4 => "InboundTransportV4"@,
            PlatformLayer::OutboundTransportV4 => "OutboundTransportV4"@,
            PlatformLayer::InboundTransportV6 => "InboundTransportV6"@,
            PlatformLayer::OutboundTransportV6 => "OutboundTransportV6"@,
            PlatformLayer::StreamV4 => "StreamV4"@,
            PlatformLayer::StreamV6 => "StreamV6"@,
        }
    }

    pub fn name(&self) -> (s: &'static str)
        ensures
            s@ == self.spec_name(),
    {
        match self {
            PlatformLayer::InboundV4 => "InboundV4",
            PlatformLayer::OutboundV4 => "OutboundV4",
            PlatformLayer::InboundV6 => "InboundV6",
            PlatformLayer::OutboundV6 => "OutboundV6",
            PlatformLayer::ForwardV4 => "ForwardV4",
            PlatformLayer::ForwardV6 => "ForwardV6",
            PlatformLayer::FlowV4 => "FlowV4",
            PlatformLayer::FlowV6 => "FlowV6",
            PlatformLayer::SocketConnectV4 => "SocketConnectV4",
            PlatformLayer::SocketConnectV6 => "SocketConnectV6",
            PlatformLayer::InboundTransportV4 => "InboundTransportV4",
            PlatformLayer::OutboundTransportV4 => "OutboundTransportV4",
            PlatformLayer::InboundTransportV6 => "InboundTransportV6",
            PlatformLayer::OutboundTransportV6 => "OutboundTransportV6",
            PlatformLayer::StreamV4 => "StreamV4",
            PlatformLayer::StreamV6 => "StreamV6",
        }
    }

    /// Name of the callout at this layer.
    pub fn callout_name(&self) -> (s: String)
        ensures
            s@ == "Callout_"@ + self.spec_name(),
    {
        joined("Callout_", self.name())
    }

    /// Name of the filter at this layer.
    pub fn filter_name(&self) -> (s: String)
        ensures
            s@ == "Filter_"@ + self.spec_name(),
    {
        joined("Filter_", self.name())
    }
}

fn joined(a: &str, b: &str) -> (s: String)
    ensures
        s@ == a@ + b@,
{
    let mut v: Vec<char> = text::chars_of(a);
    let mut w: Vec<char> = text::chars_of(b);
    v.append(&mut w);
    let r: String = text::text_of(v.as_slice(), 0, v.len());
    assert(r@ =~= a@ + b@);
    r
}

/// How far setting a handle up has got. A number is that of the platform layer at hand.
#[derive(Clone, Copy, Debug)]
pub enum WfpStage {
    Opening,
    Beginning,
    Provider,
    Sublayer,
    Register(usize),
    AddCallout(usize, Guid),
    AddFilter(usize, Guid),
    Committing,
    Done,
}

/// What the filtering platform reports back.
#[derive(Clone, Copy, Debug)]
#[allow(inconsistent_fields)]
pub enum WfpEvent {
    EngineOpened { status: i32, engine: u64 },
    TransactionBegun { status: i32 },
    ProviderAdded { status: i32 },
    /// The sublayer was added, or not, under a new GUID.
    SublayerAdded { status: i32, guid: Guid },
    /// A callout was registered, or not, under a new GUID.
    CalloutRegistered { status: i32, id: u32, guid: Guid },
    CalloutAdded { status: i32 },
    FilterAdded { status: i32, id: u64 },
    Committed { status: i32 },
}

/// What is left to be done when setting a handle up ends.
#[derive(Clone, Copy, Debug, PartialEq, Eq, Structural)]
pub enum WfpCleanup {
    Nothing,
    CloseEngine,
    AbortTransaction,
}

/// What is to be done next.
#[derive(Clone, Copy, Debug)]
#[allow(inconsistent_fields)]
pub enum WfpAction {
    BeginTransaction,
    AddProvider,
    /// Add the sublayer under a new GUID.
    AddSublayer { weight: u16 },
    /// Register a callout under a new GUID.
    RegisterCallout { kind: CalloutKind },
    AddCallout { layer: PlatformLayer, guid: Guid },
    /// Add a filter that calls the callout.
    AddFilter { layer: PlatformLayer, sublayer: Guid, callout: Guid, weight: u64 },
    Commit,
    /// The result is the engine.
    Finish { cleanup: WfpCleanup, result: Result<u64, i32> },
}

/// Setting a handle up: its layer, the engine once that is open, and how far it has got.
pub struct WfpInit {
    pub layer: u32,
    pub engine: u64,
    pub stage: WfpStage,
}

/// The event is one that a stage waits for.
pub open spec fn expects(stage: WfpStage, event: WfpEvent) -> bool {
    match stage {
        WfpStage::Opening => event is EngineOpened,
        WfpStage::Beginning => event is TransactionBegun,
        WfpStage::Provider => event is ProviderAdded,
        WfpStage::Sublayer => event is SublayerAdded,
        WfpStage::Register(_) => event is CalloutRegistered,
        WfpStage::AddCallout(_, _) => event is CalloutAdded,
        WfpStage::AddFilter(_, _) => event is FilterAdded,
        WfpStage::Committing => event is Committed,
        WfpStage::Done => false,
    }
}

/// What follows once platform layer `i` is to be taken care of.
pub open spec fn at_layer(layer: u32, i: int) -> (WfpStage, WfpAction) {
    if i < platform_layers(layer).len() {
        (
            WfpStage::Register(i as usize),
            WfpAction::RegisterCallout { kind: callout_kind(layer) },
        )
    } else {
        (WfpStage::Committing, WfpAction::Commit)
    }
}

pub open spec fn failed(cleanup: WfpCleanup, status: i32) -> (WfpStage, WfpAction) {
    (WfpStage::Done, WfpAction::Finish { cleanup, result: Err(status) })
}

/// What follows an event.
pub open spec fn next(m: WfpInit, sublayer: Guid, event: WfpEvent) -> (WfpStage, WfpAction) {
    match (m.stage, event) {
        (_, WfpEvent::EngineOpened { status, .. }) => if status >= 0 {
            (WfpStage::Beginning, WfpAction::BeginTransaction)
        } else {
            failed(WfpCleanup::Nothing, status)
        },
        (_, WfpEvent::TransactionBegun { status }) => if status >= 0 {
            (WfpStage::Provider, WfpAction::AddProvider)
        } else {
            failed(WfpCleanup::CloseEngine, status)
        },
        (_, WfpEvent::ProviderAdded { status }) => if status >= 0 || status
            == STATUS_FWP_ALREADY_EXISTS {
            (WfpStage::Sublayer, WfpAction::AddSublayer { weight: SUBLAYER_WEIGHT })
        } else {
            failed(WfpCleanup::AbortTransaction, status)
        },
        (_, WfpEvent::SublayerAdded { status, .. }) => if status >= 0 {
            at_layer(m.layer, 0)
        } else {
            failed(WfpCleanup::AbortTransaction, status)
        },
        (WfpStage::Register(i), WfpEvent::CalloutRegistered { status, guid, .. }) => if status
            >= 0 {
            (
                WfpStage::AddCallout(i, guid),
                WfpAction::AddCallout { layer: platform_layers(m.layer)[i as int], guid },
            )
        } else {
            failed(WfpCleanup::AbortTransaction, status)
        },
        (WfpStage::AddCallout(i, guid), WfpEvent::CalloutAdded { status }) => if status >= 0 {
            (
                WfpStage::AddFilter(i, guid),
                WfpAction::AddFilter {
                    layer: platform_layers(m.layer)[i as int],
                    sublayer,
                    callout: guid,
                    weight: (i + 1) as u64,
                },
            )
        } else {
            failed(WfpCleanup::AbortTransaction, status)
        },
        (WfpStage::AddFilter(i, _), WfpEvent::FilterAdded { status, .. }) => if status >= 0 {
            at_layer(m.layer, i + 1)
        } else {
            failed(WfpCleanup::AbortTransaction, status)
        },
        (_, WfpEvent::Committed { status }) => if status >= 0 {
            (
                WfpStage::Done,
                WfpAction::Finish { cleanup: WfpCleanup::Nothing, result: Ok(m.engine) },
            )
        } else {
            failed(WfpCleanup::Nothing, status)
        },
        _ => (m.stage, WfpAction::Commit),
    }
}

/// A stream layer that knows the number of one more of its callouts.
pub open spec fn with_callout(active: WfpLayer, i: int, id: u32) -> WfpLayer {
    match active {
        WfpLayer::Stream(l) => if i == 0 {
            WfpLayer::Stream(StreamLayer { stream_callout_id_v4: id, ..l })
        } else if i == 1 {
            WfpLayer::Stream(StreamLayer { stream_callout_id_v6: id, ..l })
        } else {
            active
        },
        _ => active,
    }
}

/// What a network context keeps of an event.
pub open spec fn noted(
    before: NetworkContext,
    after: NetworkContext,
    m: WfpInit,
    event: WfpEvent,
) -> bool {
    match (m.stage, event) {
        (_, WfpEvent::EngineOpened { status, engine }) if status >= 0 => after == (NetworkContext {
            fwpm_engine_handle: engine,
            ..before
        }),
        (_, WfpEvent::SublayerAdded { guid, .. }) => after == (NetworkContext {
            sublayer_guid: guid,
            ..before
        }),
        (WfpStage::Register(i), WfpEvent::CalloutRegistered { status, id, .. }) if status >= 0
            && m.layer == LAYER_STREAM => after == (NetworkContext {
            active_layer: with_callout(before.active_layer, i as int, id),
            ..before
        }),
        (_, WfpEvent::FilterAdded { status, id }) if status >= 0 => {
            &&& after == (NetworkContext { filter_ids: after.filter_ids, ..before })
            &&& after.filter_ids@ == before.filter_ids@.push(id)
        },
        _ => after == before,
    }
}

impl WfpInit {
    pub open spec fn wf(&self) -> bool {
        match self.stage {
            WfpStage::Register(i) => i < platform_layers(self.layer).len(),
            WfpStage::AddCallout(i, _) => i < platform_layers(self.layer).len(),
            WfpStage::AddFilter(i, _) => i < platform_layers(self.layer).len(),
            _ => true,
        }
    }

    /// Starts setting a handle of this layer up. The first thing to do is to open the engine, in a
    /// session that takes everything along when it ends.
    pub fn begin(layer: u32) -> (m: WfpInit)
        ensures
            m.wf(),
            m == (WfpInit { layer, engine: 0, stage: WfpStage::Opening }),
    {
        WfpInit { layer, engine: 0, stage: WfpStage::Opening }
    }

    fn at(&mut self, i: usize) -> (action: WfpAction)
        requires
            i <= platform_layers(old(self).layer).len(),
        ensures
            final(self).layer == old(self).layer,
            final(self).engine == old(self).engine,
            final(self).wf(),
            (final(self).stage, action) == at_layer(old(self).layer, i as int),
    {
        let layers: Vec<PlatformLayer> = get_platform_layers(self.layer);
        if i < layers.len() {
            self.stage = WfpStage::Register(i);
            WfpAction::RegisterCallout { kind: get_callout_kind(self.layer) }
        } else {
            self.stage = WfpStage::Committing;
            WfpAction::Commit
        }
    }

    fn fail(&mut self, cleanup: WfpCleanup, status: i32) -> (action: WfpAction)
        ensures
            *final(self) == (WfpInit { stage: WfpStage::Done, ..*old(self) }),
            (final(self).stage, action) == failed(cleanup, status),
    {
        self.stage = WfpStage::Done;
        WfpAction::Finish { cleanup, result: Err(status) }
    }

    /// Takes note of what the platform reported, and says what is to be done next.
    pub fn step(&mut self, ctx: &mut NetworkContext, event: WfpEvent) -> (action: WfpAction)
        requires
            old(self).wf(),
            expects(old(self).stage, event),
        ensures
            final(self).wf(),
            final(self).layer == old(self).layer,
            final(self).engine == (match event {
                WfpEvent::EngineOpened { status, engine } if status >= 0 => engine,
                _ => old(self).engine,
            }),
            noted(*old(ctx), *final(ctx), *old(self), event),
            (final(self).stage, action) == next(*old(self), old(ctx).sublayer_guid, event),
    {
        proof {
            assert(platform_layers(self.layer).len() <= 4);
        }
        match (self.stage, event) {
            (_, WfpEvent::EngineOpened { status, engine }) => {
                if !nt_success(status) {
                    return self.fail(WfpCleanup::Nothing, status);
                }
                self.engine = engine;
                ctx.fwpm_engine_handle = engine;
                self.stage = WfpStage::Beginning;
                WfpAction::BeginTransaction
            },
            (_, WfpEvent::TransactionBegun { status }) => {
                if !nt_success(status) {
                    return self.fail(WfpCleanup::CloseEngine, status);
                }
                self.stage = WfpStage::Provider;
                WfpAction::AddProvider
            },
            (_, WfpEvent::ProviderAdded { status }) => {
                if !nt_success(status) && status != STATUS_FWP_ALREADY_EXISTS {
                    return self.fail(WfpCleanup::AbortTransaction, status);
                }
                self.stage = WfpStage::Sublayer;
                WfpAction::AddSublayer { weight: SUBLAYER_WEIGHT }
            },
            (_, WfpEvent::SublayerAdded { status, guid }) => {
                ctx.sublayer_guid = guid;
                if !nt_success(status) {
                    return self.fail(WfpCleanup::AbortTransaction, status);
                }
                self.at(0)
            },
            (WfpStage::Register(i), WfpEvent::CalloutRegistered { status, id, guid }) => {
                if !nt_success(status) {
                    return self.fail(WfpCleanup::AbortTransaction, status);
                }
                if self.layer == LAYER_STREAM {
                    match ctx.active_layer {
                        WfpLayer::Stream(l) => {
                            if i == 0 {
                                ctx.active_layer = WfpLayer::Stream(
                                    StreamLayer {
                                        inject_handle_stream: l.inject_handle_stream,
                                        stream_callout_id_v4: id,
                                        stream_callout_id_v6: l.stream_callout_id_v6,
                                    },
                                );
                            } else if i == 1 {
                                ctx.active_layer = WfpLayer::Stream(
                                    StreamLayer {
                                        inject_handle_stream: l.inject_handle_stream,
                                        stream_callout_id_v4: l.stream_callout_id_v4,
                                        stream_callout_id_v6: id,
                                    },
                                );
                            }
                        },
                        _ => {},
                    }
                }
                let layers: Vec<PlatformLayer> = get_platform_layers(self.layer);
                self.stage = WfpStage::AddCallout(i, guid);
                WfpAction::AddCallout { layer: layers[i], guid }
            },
            (WfpStage::AddCallout(i, guid), WfpEvent::CalloutAdded { status }) => {
                if !nt_success(status) {
                    return self.fail(WfpCleanup::AbortTransaction, status);
                }
                let layers: Vec<PlatformLayer> = get_platform_layers(self.layer);
                self.stage = WfpStage::AddFilter(i, guid);
                WfpAction::AddFilter {
                    layer: layers[i],
                    sublayer: ctx.sublayer_guid,
                    callout: guid,
                    weight: i as u64 + 1,
                }
            },
            (WfpStage::AddFilter(i, _), WfpEvent::FilterAdded { status, id }) => {
                if !nt_success(status) {
                    return self.fail(WfpCleanup::AbortTransaction, status);
                }
                ctx.filter_ids.push(id);
                self.at(i + 1)
            },
            (_, WfpEvent::Committed { status }) => {
                if !nt_success(status) {
                    return self.fail(WfpCleanup::Nothing, status);
                }
                self.stage = WfpStage::Done;
                WfpAction::Finish { cleanup: WfpCleanup::Nothing, result: Ok(self.engine) }
            },
            _ => WfpAction::Commit,
        }
    }
}

/// Where everything succeeds, each platform layer gets a callout and then one filter that calls
/// it, with the layer's place in the list as its weight; after the last one comes the commit.
pub proof fn law_each_layer_gets_a_filter(
    m: WfpInit,
    sublayer: Guid,
    i: usize,
    id: u32,
    guid: Guid,
    filter_id: u64,
)
    requires
        m.stage == WfpStage::Register(i),
        m.wf(),
    ensures
        ({
            let layer = platform_layers(m.layer)[i as int];
            let registered = WfpEvent::CalloutRegistered { status: 0, id, guid };
            let (s1, a1) = next(m, sublayer, registered);
            let m1 = WfpInit { stage: s1, ..m };
            let (s2, a2) = next(m1, sublayer, WfpEvent::CalloutAdded { status: 0 });
            let m2 = WfpInit { stage: s2, ..m };
            let (s3, a3) = next(m2, sublayer, WfpEvent::FilterAdded { status: 0, id: filter_id });
            &&& a1 == (WfpAction::AddCallout { layer, guid })
            &&& a2 == (WfpAction::AddFilter {
                layer,
                sublayer,
                callout: guid,
                weight: (i + 1) as u64,
            })
            &&& (s3, a3) == at_layer(m.layer, i + 1)
        }),
{
}

/// Setting a handle up succeeds only by a commit that succeeds, and hands out the engine then.
pub proof fn law_only_a_commit_succeeds(m: WfpInit, sublayer: Guid, event: WfpEvent)
    requires
        m.wf(),
        expects(m.stage, event),
        next(m, sublayer, event).1 matches WfpAction::Finish { result: Ok(_), .. },
    ensures
        m.stage is Committing,
        next(m, sublayer, event).1 == (WfpAction::Finish {
            cleanup: WfpCleanup::Nothing,
            result: Ok(m.engine),
        }),
{
}

/// The filters among some that are to be deleted: 0 stands for none.
pub open spec fn to_delete(filter_ids: Seq<u64>) -> Seq<u64> {
    filter_ids.filter(|id: u64| id != 0)
}

/// What is to be done to take a handle down: the filters that are to be deleted, and the engine
/// that is to be closed after them.
pub fn uninit_wfp(engine: u64, filter_ids: &Vec<u64>) -> (r: (Vec<u64>, Option<u64>))
    ensures
        engine == 0 ==> r.0@.len() == 0 && r.1 is None,
        engine != 0 ==> r.0@ == to_delete(filter_ids@) && r.1 == Some(engine),
{
    let mut ids: Vec<u64> = Vec::new();
    if engine == 0 {
        return (ids, None);
    }
    let ghost want = |id: u64| id != 0;
    let mut i: usize = 0;
    assert(filter_ids@.take(0).filter(want) =~= Seq::empty()) by {
        reveal(Seq::filter);
    }
    while i < filter_ids.len()
        invariant
            i <= filter_ids@.len(),
            want == (|id: u64| id != 0),
            ids@ == filter_ids@.take(i as int).filter(want),
        decreases filter_ids@.len() - i,
    {
        proof {
            reveal(Seq::filter);
            assert(filter_ids@.take(i + 1).drop_last() =~= filter_ids@.take(i as int));
        }
        if filter_ids[i] != 0 {
            ids.push(filter_ids[i]);
        }
        i += 1;
    }
    assert(filter_ids@.take(i as int) =~= filter_ids@);
    (ids, Some(engine))
}

/// The pools for packets and their lists, if both could be made; 0 stands for none.
pub fn initialize_ndis_pools(nbl_pool: u64, nb_pool: u64) -> (r: (u64, u64, i32))
    ensures
        r == (if nbl_pool == 0 || nb_pool == 0 {
            (0u64, 0u64, STATUS_INSUFFICIENT_RESOURCES)
        } else {
            (nbl_pool, nb_pool, STATUS_SUCCESS)
        }),
{
    if nbl_pool == 0 || nb_pool == 0 {
        return (0, 0, STATUS_INSUFFICIENT_RESOURCES);
    }
    (nbl_pool, nb_pool, STATUS_SUCCESS)
}

/// The number of the handle's layer that a platform layer belongs to.
pub open spec fn belongs_to(l: PlatformLayer) -> u32 {
    match l {
        PlatformLayer::InboundV4
        | PlatformLayer::OutboundV4
        | PlatformLayer::InboundV6
        | PlatformLayer::OutboundV6 => 0,
        PlatformLayer::ForwardV4 | PlatformLayer::ForwardV6 => 1,
        PlatformLayer::FlowV4 | PlatformLayer::FlowV6 => 2,
        PlatformLayer::SocketConnectV4 | PlatformLayer::SocketConnectV6 => 3,
        PlatformLayer::InboundTransportV4
        | PlatformLayer::OutboundTransportV4
        | PlatformLayer::InboundTransportV6
        | PlatformLayer::OutboundTransportV6 => 5,
        PlatformLayer::StreamV4 | PlatformLayer::StreamV6 => 6,
    }
}

/// A handle's layer takes in all the platform layers that belong to it, each once, and no others;
/// and the callouts there are registered with the functions of that layer.
pub proof fn law_layers_of_a_handle(layer: u32, l: PlatformLayer)
    ensures
        platform_layers(layer).contains(l) == (belongs_to(l) == layer),
        platform_layers(layer).no_duplicates(),
        callout_kind(belongs_to(l)) == (match l {
            PlatformLayer::FlowV4 | PlatformLayer::FlowV6 => CalloutKind::Flow,
            PlatformLayer::SocketConnectV4
            | PlatformLayer::SocketConnectV6 => CalloutKind::Socket,
            PlatformLayer::InboundTransportV4
            | PlatformLayer::OutboundTransportV4
            | PlatformLayer::InboundTransportV6
            | PlatformLayer::OutboundTransportV6 => CalloutKind::Transport,
            PlatformLayer::StreamV4 | PlatformLayer::StreamV6 => CalloutKind::Stream,
            _ => CalloutKind::Network,
        }),
{
    let s = platform_layers(layer);
    if belongs_to(l) == layer {
        if layer == 0 || layer == 5 {
            assert(s[0] == l || s[1] == l || s[2] == l || s[3] == l);
        } else {
            assert(s[0] == l || s[1] == l);
        }
    }
}

/// The stream layer injects data of a version of IP with the callout that was registered at the
/// platform layer of that version.
pub proof fn law_stream_callouts(
    before: NetworkContext,
    after: NetworkContext,
    m: WfpInit,
    i: usize,
    id: u32,
    guid: Guid,
    l: StreamLayer,
)
    requires
        m.wf(),
        m.layer == 6,
        m.stage == WfpStage::Register(i),
        before.active_layer == WfpLayer::Stream(l),
        noted(before, after, m, WfpEvent::CalloutRegistered { status: 0, id, guid }),
    ensures
        after.active_layer matches WfpLayer::Stream(k) && {
            &&& k.inject_handle_stream == l.inject_handle_stream
            &&& platform_layers(m.layer)[i as int] == PlatformLayer::StreamV4 ==> k.spec_callout(
                false,
            ) == id && k.spec_callout(true) == l.spec_callout(true)
            &&& platform_layers(m.layer)[i as int] == PlatformLayer::StreamV6 ==> k.spec_callout(
                true,
            ) == id && k.spec_callout(false) == l.spec_callout(false)
        },
{
}

/// The status that an event reports.
pub open spec fn status_of(event: WfpEvent) -> i32 {
    match event {
        WfpEvent::EngineOpened { status, .. } => status,
        WfpEvent::TransactionBegun { status } => status,
        WfpEvent::ProviderAdded { status } => status,
        WfpEvent::SublayerAdded { status, .. } => status,
        WfpEvent::CalloutRegistered { status, .. } => status,
        WfpEvent::CalloutAdded { status } => status,
        WfpEvent::FilterAdded { status, .. } => status,
        WfpEvent::Committed { status } => status,
    }
}

/// A failed step ends the set-up with its status. What was opened or begun is closed or aborted:
/// the engine where no transaction has begun, the transaction until the commit was tried. That the
/// provider is there already is no failure.
pub proof fn law_failed_step_ends(m: WfpInit, sublayer: Guid, event: WfpEvent)
    requires
        m.wf(),
        expects(m.stage, event),
    ensures
        status_of(event) < 0 && !(event is ProviderAdded && status_of(event) as u32 == 0xC022_0009)
            ==> next(m, sublayer, event).1 == (WfpAction::Finish {
            cleanup: match event {
                WfpEvent::EngineOpened { .. } | WfpEvent::Committed { .. } => WfpCleanup::Nothing,
                WfpEvent::TransactionBegun { .. } => WfpCleanup::CloseEngine,
                _ => WfpCleanup::AbortTransaction,
            },
            result: Err(status_of(event)),
        }),
        status_of(event) >= 0 || (event is ProviderAdded && status_of(event) as u32 == 0xC022_0009)
            ==> !(next(m, sublayer, event).1 matches WfpAction::Finish { result: Err(_), .. }),
{
    let s = status_of(event);
    assert((s as u32 == 0xC022_0009) == (s == -0x3FDD_FFF7)) by (bit_vector);
}

/// The engine is opened, a transaction begun, the provider and the sublayer are added, and then the
/// first platform layer has its turn.
pub proof fn law_order_of_set_up(m: WfpInit, sublayer: Guid, engine: u64, guid: Guid)
    requires
        m.layer == 0 || m.layer == 1 || m.layer == 2 || m.layer == 3 || m.layer == 5 || m.layer
            == 6,
    ensures
        next(
            WfpInit { stage: WfpStage::Opening, ..m },
            sublayer,
            WfpEvent::EngineOpened { status: 0, engine },
        ) == (WfpStage::Beginning, WfpAction::BeginTransaction),
        next(
            WfpInit { stage: WfpStage::Beginning, ..m },
            sublayer,
            WfpEvent::TransactionBegun { status: 0 },
        ) == (WfpStage::Provider, WfpAction::AddProvider),
        next(
            WfpInit { stage: WfpStage::Provider, ..m },
            sublayer,
            WfpEvent::ProviderAdded { status: 0 },
        ) == (WfpStage::Sublayer, WfpAction::AddSublayer { weight: 0xFFFF }),
        next(
            WfpInit { stage: WfpStage::Sublayer, ..m },
            sublayer,
            WfpEvent::SublayerAdded { status: 0, guid },
        ) == (
            WfpStage::Register(0),
            WfpAction::RegisterCallout { kind: callout_kind(m.layer) },
        ),
{
}

/// Every filter that was added is deleted, and nothing else is.
pub proof fn law_all_filters_are_deleted(filter_ids: Seq<u64>, id: u64)
    ensures
        to_delete(filter_ids).contains(id) <==> filter_ids.contains(id) && id != 0,
{
    let want = |id: u64| id != 0;
    let kept = filter_ids.filter(want);
    assert(to_delete(filter_ids) == kept);
    if kept.contains(id) {
        filter_ids.lemma_filter_contains_rev(want, id);
        filter_ids.lemma_filter_pred(want, kept.index_of(id));
    }
    if filter_ids.contains(id) && id != 0 {
        filter_ids.lemma_filter_contains(want, filter_ids.index_of(id));
    }
}

} // verus!
