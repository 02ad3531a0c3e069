//! Sending a packet that the client hands in: what is allocated, how the packet is injected, and
//! what is released when something fails.
use vstd::prelude::*;
use crate::bytes;
use crate::network::address;
use crate::network::callout_stream::StreamInject;
use crate::network::callout_transport::TransportInject;
use crate::network::context::WfpLayer;
use crate::network::inject;
use crate::network::inject::{CompletionStep, UserInjectionCompletionContext};
use crate::network::module::NetworkModule;
use crate::ringbuffer::records;
use crate::ringbuffer::records::ADDRESS_SIZE;
use crate::status::{
    nt_success, STATUS_BUFFER_TOO_SMALL, STATUS_INSUFFICIENT_RESOURCES,
    STATUS_INVALID_DEVICE_REQUEST, STATUS_PENDING,
};
use crate::types;
use crate::types::DivertAddress;

verus! {

/// How far sending has got.
#[derive(Clone, Copy, Debug, PartialEq, Eq, Structural)]
pub enum SendStage {
    /// A memory descriptor is being allocated.
    Mdl,
    /// What holds the memory descriptor and the request is being allocated.
    Context { mdl: u64 },
    /// A list for the packet is being allocated.
    List { mdl: u64 },
    /// The packet is being injected; `ours` where releasing it after a failure is left to us.
    Inject { mdl: u64, nbl: u64, ours: bool },
    Done,
}

/// A request to send a packet.
pub struct SendRequest {
    pub request: u64,
    pub addr: DivertAddress,
    /// Length of the buffer, which holds the address and the packet.
    pub buffer_len: usize,
    pub stage: SendStage,
}

/// What the platform reports back. 0 stands for nothing.
#[derive(Clone, Copy, Debug, PartialEq, Eq, Structural)]
pub enum SendEvent {
    MdlAllocated(u64),
    ContextAllocated(bool),
    ListAllocated(Option<u64>),
    Injected(i32),
}

/// What is to be done next.
#[allow(inconsistent_fields)]
pub enum SendAction {
    AllocateContext,
    /// Allocate a list for this part of the buffer.
    AllocateList { offset: usize, len: usize },
    /// Inject at the packet or forward layer, whose handles are kept under a number.
    InjectNetwork {
        forward: bool,
        handles: u64,
        inbound: bool,
        ipv6: bool,
        if_idx: u32,
        sub_if_idx: u32,
        nbl: u64,
    },
    InjectTransport { plan: TransportInject, nbl: u64 },
    InjectStream { plan: StreamInject, nbl: u64 },
    /// Release what was allocated, if anything, and answer the request.
    Finish { free_context: bool, free_mdl: Option<u64>, steps: Vec<CompletionStep>, status: i32 },
}

/// The end of sending without anything to release.
pub open spec fn ended(a: SendAction, status: i32) -> bool {
    a matches SendAction::Finish { free_context, free_mdl, steps, status: s } && !free_context
        && free_mdl is None && steps@.len() == 0 && s == status
}

/// The packet and what belongs to it are released; its request is completed by that.
pub open spec fn released(a: SendAction, mdl: u64, request: u64, nbl: u64) -> bool {
    a matches SendAction::Finish { free_context, free_mdl, steps, status } && !free_context
        && free_mdl is None && status == STATUS_PENDING && steps@ == inject::completion(
        Some(UserInjectionCompletionContext { mdl, request }),
        nbl,
    )
}

/// What comes of a request to send.
pub open spec fn begun(
    request: u64,
    status: i32,
    buffer: Option<Seq<u8>>,
    r: Result<SendRequest, i32>,
) -> bool {
    match buffer {
        Some(b) if status >= 0 => if b.len() < 80 {
            r == Err::<SendRequest, i32>(STATUS_BUFFER_TOO_SMALL)
        } else if b.len() == 80 {
            r == Err::<SendRequest, i32>(STATUS_INVALID_DEVICE_REQUEST)
        } else {
            r matches Ok(s) && s.wf() && s.request == request && s.buffer_len == b.len() && s.stage
                == SendStage::Mdl && records::is_address(s.addr, b.subrange(0, 80))
        },
        _ => r == Err::<SendRequest, i32>(status),
    }
}

impl SendRequest {
    pub open spec fn wf(&self) -> bool {
        self.buffer_len > 80
    }

    /// The interface that the packet's address names.
    pub open spec fn if_idx(&self) -> u32 {
        bytes::le32(self.addr.data.bytes(), 0)
    }

    pub open spec fn sub_if_idx(&self) -> u32 {
        bytes::le32(self.addr.data.bytes(), 4)
    }

    /// The flow that the packet's address names.
    pub open spec fn endpoint_id(&self) -> u64 {
        bytes::le64(self.addr.data.bytes(), 0)
    }

    pub open spec fn outbound(&self) -> bool {
        types::flag_bit(self.addr.flags, 17)
    }

    pub open spec fn ipv6(&self) -> bool {
        types::flag_bit(self.addr.flags, 20)
    }

    /// Takes a request to send. `status` and `buffer` are what retrieving its buffer gave; the
    /// buffer holds the address, and the packet behind it. What is returned is sent, beginning
    /// with a memory descriptor for the whole buffer; or the request is answered at once.
    pub fn begin(request: u64, status: i32, buffer: Option<&[u8]>) -> (r: Result<SendRequest, i32>)
        ensures
            begun(
                request,
                status,
                match buffer {
                    Some(b) => Some(b@),
                    None => None,
                },
                r,
            ),
    {
        if !nt_success(status) {
            return Err(status);
        }
        match buffer {
            None => Err(status),
            Some(b) => {
                if b.len() < ADDRESS_SIZE {
                    return Err(STATUS_BUFFER_TOO_SMALL);
                }
                if b.len() == ADDRESS_SIZE {
                    return Err(STATUS_INVALID_DEVICE_REQUEST);
                }
                let addr: DivertAddress = records::decode_address(
                    vstd::slice::slice_subrange(b, 0, ADDRESS_SIZE),
                );
                Ok(SendRequest { request, addr, buffer_len: b.len(), stage: SendStage::Mdl })
            },
        }
    }
}

/// The event is one that a stage waits for.
pub open spec fn expects(stage: SendStage, event: SendEvent) -> bool {
    match stage {
        SendStage::Mdl => event is MdlAllocated,
        SendStage::Context { .. } => event is ContextAllocated,
        SendStage::List { .. } => event is ListAllocated,
        SendStage::Inject { .. } => event is Injected,
        SendStage::Done => false,
    }
}

/// How a module injects the packet of a request, and whose business a failure is.
pub open spec fn injected(
    m: NetworkModule,
    s: SendRequest,
    mdl: u64,
    nbl: u64,
    a: SendAction,
    stage: SendStage,
) -> bool {
    match m.network_ctx.active_layer {
        WfpLayer::Network(l) => {
            &&& stage == (SendStage::Inject { mdl, nbl, ours: false })
            &&& a == (SendAction::InjectNetwork {
                forward: false,
                handles: l.handles,
                inbound: !s.outbound(),
                ipv6: s.ipv6(),
                if_idx: s.if_idx(),
                sub_if_idx: s.sub_if_idx(),
                nbl,
            })
        },
        WfpLayer::Forward(l) => {
            &&& stage == (SendStage::Inject { mdl, nbl, ours: false })
            &&& a == (SendAction::InjectNetwork {
                forward: true,
                handles: l.handles,
                inbound: !s.outbound(),
                ipv6: s.ipv6(),
                if_idx: s.if_idx(),
                sub_if_idx: s.sub_if_idx(),
                nbl,
            })
        },
        WfpLayer::Transport(l) => if nbl == 0 || l.spec_handle(!s.outbound(), s.ipv6()) == 0 {
            stage == SendStage::Done && ended(a, STATUS_PENDING)
        } else {
            &&& stage == (SendStage::Inject { mdl, nbl, ours: true })
            &&& a == (SendAction::InjectTransport {
                plan: if s.outbound() {
                    TransportInject::Send {
                        handle: l.spec_handle(false, s.ipv6()),
                        ipv6: s.ipv6(),
                        compartment: 1,
                    }
                } else {
                    TransportInject::Receive {
                        handle: l.spec_handle(true, s.ipv6()),
                        ipv6: s.ipv6(),
                        compartment: 1,
                        if_idx: s.if_idx(),
                        sub_if_idx: s.sub_if_idx(),
                    }
                },
                nbl,
            })
        },
        WfpLayer::Stream(l) => if nbl == 0 || l.inject_handle_stream == 0 || l.spec_callout(
            s.ipv6(),
        ) == 0 {
            stage == SendStage::Done && ended(a, STATUS_PENDING)
        } else {
            &&& stage == (SendStage::Inject { mdl, nbl, ours: true })
            &&& a == (SendAction::InjectStream {
                plan: StreamInject {
                    handle: l.inject_handle_stream,
                    flow_id: s.endpoint_id(),
                    callout_id: l.spec_callout(s.ipv6()),
                    ipv6: s.ipv6(),
                    receive: !s.outbound(),
                    len: (s.buffer_len - 80) as usize,
                },
                nbl,
            })
        },
        _ => stage == SendStage::Done && released(a, mdl, s.request, nbl),
    }
}

/// What follows an event.
pub open spec fn next(
    m: NetworkModule,
    s: SendRequest,
    event: SendEvent,
    a: SendAction,
    stage: SendStage,
) -> bool {
    match (s.stage, event) {
        (_, SendEvent::MdlAllocated(mdl)) => if mdl == 0 {
            stage == SendStage::Done && ended(a, STATUS_INSUFFICIENT_RESOURCES)
        } else {
            stage == (SendStage::Context { mdl }) && a == SendAction::AllocateContext
        },
        (SendStage::Context { mdl }, SendEvent::ContextAllocated(there)) => if !there {
            &&& stage == SendStage::Done
            &&& a matches SendAction::Finish { free_context, free_mdl, steps, status }
                && !free_context && free_mdl == Some(mdl) && steps@.len() == 0 && status
                == STATUS_INSUFFICIENT_RESOURCES
        } else {
            &&& stage == (SendStage::List { mdl })
            &&& a == (SendAction::AllocateList { offset: 80, len: (s.buffer_len - 80) as usize })
        },
        (SendStage::List { mdl }, SendEvent::ListAllocated(list)) => match list {
            None => {
                &&& stage == SendStage::Done
                &&& a matches SendAction::Finish { free_context, free_mdl, steps, status }
                    && free_context && free_mdl == Some(mdl) && steps@.len() == 0 && status
                    == STATUS_INSUFFICIENT_RESOURCES
            },
            Some(nbl) => injected(m, s, mdl, nbl, a, stage),
        },
        (SendStage::Inject { mdl, nbl, ours }, SendEvent::Injected(status)) => {
            &&& stage == SendStage::Done
            &&& if ours && status < 0 {
                released(a, mdl, s.request, nbl)
            } else {
                ended(a, STATUS_PENDING)
            }
        },
        _ => true,
    }
}

fn finish(status: i32) -> (a: SendAction)
    ensures
        ended(a, status),
{
    SendAction::Finish { free_context: false, free_mdl: None, steps: Vec::new(), status }
}

fn release(mdl: u64, request: u64, nbl: u64) -> (a: SendAction)
    ensures
        released(a, mdl, request, nbl),
{
    SendAction::Finish {
        free_context: false,
        free_mdl: None,
        steps: inject::injection_completion_fn(
            Some(UserInjectionCompletionContext { mdl, request }),
            nbl,
        ),
        status: STATUS_PENDING,
    }
}

impl NetworkModule {
    /// Takes note of what the platform reported about sending a packet, and says what is to be
    /// done next.
    pub fn handle_send(&self, s: &mut SendRequest, event: SendEvent) -> (a: SendAction)
        requires
            old(s).wf(),
            expects(old(s).stage, event),
        ensures
            final(s).wf(),
            *final(s) == (SendRequest { stage: final(s).stage, ..*old(s) }),
            next(*self, *old(s), event, a, final(s).stage),
    {
        match (s.stage, event) {
            (_, SendEvent::MdlAllocated(mdl)) => {
                if mdl == 0 {
                    s.stage = SendStage::Done;
                    return finish(STATUS_INSUFFICIENT_RESOURCES);
                }
                s.stage = SendStage::Context { mdl };
                SendAction::AllocateContext
            },
            (SendStage::Context { mdl }, SendEvent::ContextAllocated(there)) => {
                if !there {
                    s.stage = SendStage::Done;
                    return SendAction::Finish {
                        free_context: false,
                        free_mdl: Some(mdl),
                        steps: Vec::new(),
                        status: STATUS_INSUFFICIENT_RESOURCES,
                    };
                }
                s.stage = SendStage::List { mdl };
                SendAction::AllocateList { offset: ADDRESS_SIZE, len: s.buffer_len - ADDRESS_SIZE }
            },
            (SendStage::List { mdl }, SendEvent::ListAllocated(list)) => {
                match list {
                    None => {
                        s.stage = SendStage::Done;
                        SendAction::Finish {
                            free_context: true,
                            free_mdl: Some(mdl),
                            steps: Vec::new(),
                            status: STATUS_INSUFFICIENT_RESOURCES,
                        }
                    },
                    Some(nbl) => self.inject_packet(s, mdl, nbl),
                }
            },
            (SendStage::Inject { mdl, nbl, ours }, SendEvent::Injected(status)) => {
                s.stage = SendStage::Done;
                if ours && !nt_success(status) {
                    release(mdl, s.request, nbl)
                } else {
                    finish(STATUS_PENDING)
                }
            },
            _ => finish(STATUS_PENDING),
        }
    }

    fn inject_packet(&self, s: &mut SendRequest, mdl: u64, nbl: u64) -> (a: SendAction)
        requires
            old(s).wf(),
        ensures
            *final(s) == (SendRequest { stage: final(s).stage, ..*old(s) }),
            injected(*self, *old(s), mdl, nbl, a, final(s).stage),
    {
        let inbound: bool = !s.addr.outbound();
        let ipv6: bool = s.addr.ipv6();
        let if_idx: u32 = s.addr.data.network().if_idx;
        let sub_if_idx: u32 = s.addr.data.network().sub_if_idx;
        match &self.network_ctx.active_layer {
            WfpLayer::Network(l) => {
                s.stage = SendStage::Inject { mdl, nbl, ours: false };
                SendAction::InjectNetwork {
                    forward: false,
                    handles: l.handles,
                    inbound,
                    ipv6,
                    if_idx,
                    sub_if_idx,
                    nbl,
                }
            },
            WfpLayer::Forward(l) => {
                s.stage = SendStage::Inject { mdl, nbl, ours: false };
                SendAction::InjectNetwork {
                    forward: true,
                    handles: l.handles,
                    inbound,
                    ipv6,
                    if_idx,
                    sub_if_idx,
                    nbl,
                }
            },
            WfpLayer::Transport(l) => {
                match l.inject(inbound, ipv6, if_idx, sub_if_idx, nbl) {
                    Ok(plan) => {
                        s.stage = SendStage::Inject { mdl, nbl, ours: true };
                        SendAction::InjectTransport { plan, nbl }
                    },
                    Err(_) => {
                        s.stage = SendStage::Done;
                        finish(STATUS_PENDING)
                    },
                }
            },
            WfpLayer::Stream(l) => {
                let flow_id: u64 = s.addr.data.flow().endpoint_id;
                match l.inject(flow_id, ipv6, inbound, nbl, s.buffer_len - ADDRESS_SIZE) {
                    Ok(plan) => {
                        s.stage = SendStage::Inject { mdl, nbl, ours: true };
                        SendAction::InjectStream { plan, nbl }
                    },
                    Err(_) => {
                        s.stage = SendStage::Done;
                        finish(STATUS_PENDING)
                    },
                }
            },
            _ => {
                s.stage = SendStage::Done;
                release(mdl, s.request, nbl)
            },
        }
    }
}

/// The steps from a request to the injection of its packet.
pub open spec fn sending(
    m: NetworkModule,
    buffer: Seq<u8>,
    request: u64,
    s: SendRequest,
    mdl: u64,
    nbl: u64,
    list: SendAction,
    a: SendAction,
    stage: SendStage,
) -> bool {
    let waiting = SendRequest { stage: SendStage::Context { mdl }, ..s };
    let listing = SendRequest { stage: SendStage::List { mdl }, ..s };
    &&& begun(request, 0, Some(buffer), Ok(s))
    &&& next(m, waiting, SendEvent::ContextAllocated(true), list, listing.stage)
    &&& next(m, listing, SendEvent::ListAllocated(Some(nbl)), a, stage)
}

proof fn lemma_flag_word(flags: u32)
    ensures
        types::flag_bit(flags, 17) == (flags / 0x2_0000 % 2 == 1),
        types::flag_bit(flags, 20) == (flags / 0x10_0000 % 2 == 1),
{
    assert(((flags >> 17) & 1 == 1) == (flags / 0x2_0000 % 2 == 1) && ((flags >> 20) & 1 == 1) == (
    flags / 0x10_0000 % 2 == 1)) by (bit_vector);
}

proof fn lemma_flag_bytes(a: u8, b: u8, c: u8, d: u8, flags: u32)
    requires
        flags == a + 0x100 * b + 0x1_0000 * c + 0x100_0000 * d,
    ensures
        types::flag_bit(flags, 17) == (c / 2 % 2 == 1),
        types::flag_bit(flags, 20) == (c / 16 % 2 == 1),
{
    assert(((flags >> 17) & 1 == 1) == (c / 2 % 2 == 1) && ((flags >> 20) & 1 == 1) == (c / 16 % 2
        == 1)) by (bit_vector)
        requires
            flags == a + 0x100 * b + 0x1_0000 * c + 0x100_0000 * d,
    ;
}

/// The four bytes at `i`, least significant first.
proof fn lemma_le32_at(s: Seq<u8>, i: int)
    ensures
        bytes::le32(s, i) == s[i] + 0x100 * s[i + 1] + 0x1_0000 * s[i + 2] + 0x100_0000 * s[i + 3],
{
    reveal(bytes::le32);
}

/// The direction, version of IP and interface that the bytes of a request name, as an injection
/// has them. The flags word stands at the ninth byte of the buffer, least significant byte first;
/// its third byte holds the bits for outbound packets and for IPv6. The indexes of the interface
/// stand at the seventeenth byte.
pub proof fn law_request_names_direction(
    buffer: Seq<u8>,
    request: u64,
    s: SendRequest,
)
    requires
        begun(request, 0, Some(buffer), Ok(s)),
        buffer.len() > 80,
    ensures
        s.addr.flags == buffer[8] + 0x100 * buffer[9] + 0x1_0000 * buffer[10] + 0x100_0000
            * buffer[11],
        s.outbound() == (buffer[10] / 2 % 2 == 1),
        s.ipv6() == (buffer[10] / 16 % 2 == 1),
        s.if_idx() == buffer[16] + 0x100 * buffer[17] + 0x1_0000 * buffer[18] + 0x100_0000
            * buffer[19],
        s.sub_if_idx() == buffer[20] + 0x100 * buffer[21] + 0x1_0000 * buffer[22] + 0x100_0000
            * buffer[23],
{
    let head = buffer.subrange(0, 80);
    let data = head.subrange(16, 80);
    lemma_le32_at(head, 8);
    lemma_le32_at(data, 0);
    lemma_le32_at(data, 4);
    lemma_flag_bytes(buffer[8], buffer[9], buffer[10], buffer[11], s.addr.flags);
}

/// What is sent is injected in the direction that its address names, at every layer that injects:
/// into the send path where bit 17 of the flags word is set and into the receive path where not;
/// with the version of IP and on the interface that the address names. It is the part of the buffer
/// behind the address.
pub proof fn law_sent_packet_goes_its_way(
    m: NetworkModule,
    buffer: Seq<u8>,
    request: u64,
    s: SendRequest,
    mdl: u64,
    nbl: u64,
    list: SendAction,
    a: SendAction,
    stage: SendStage,
)
    requires
        sending(m, buffer, request, s, mdl, nbl, list, a, stage),
        buffer.len() > 80,
    ensures
        list == (SendAction::AllocateList { offset: 80, len: (buffer.len() - 80) as usize }),
        m.network_ctx.active_layer is Network || m.network_ctx.active_layer is Forward ==> (a
            matches SendAction::InjectNetwork {
            forward,
            inbound,
            ipv6,
            if_idx,
            sub_if_idx,
            nbl: n,
            ..
        } && forward == (m.network_ctx.active_layer is Forward) && inbound == (buffer[10] / 2 % 2
            == 0) && ipv6 == (buffer[10] / 16 % 2 == 1) && if_idx == buffer[16] + 0x100 * buffer[17]
            + 0x1_0000 * buffer[18] + 0x100_0000 * buffer[19] && sub_if_idx == buffer[20] + 0x100
            * buffer[21] + 0x1_0000 * buffer[22] + 0x100_0000 * buffer[23] && n == nbl),
        a matches SendAction::InjectTransport { plan, nbl: n } ==> n == nbl && ((plan is Send) == (
        buffer[10] / 2 % 2 == 1)),
        a matches SendAction::InjectStream { plan, nbl: n } ==> n == nbl && plan.receive == (
        buffer[10] / 2 % 2 == 0) && plan.len == buffer.len() - 80,
{
    law_request_names_direction(buffer, request, s);
}

/// At the transport layer the handle for the direction and version of IP is used, and a packet
/// that is received is put on the interface that its address names.
pub proof fn law_transport_handles(
    m: NetworkModule,
    buffer: Seq<u8>,
    request: u64,
    s: SendRequest,
    mdl: u64,
    nbl: u64,
    list: SendAction,
    a: SendAction,
    stage: SendStage,
)
    requires
        sending(m, buffer, request, s, mdl, nbl, list, a, stage),
        buffer.len() > 80,
        nbl != 0,
    ensures
        m.network_ctx.active_layer matches WfpLayer::Transport(l) ==> ({
            let outbound = buffer[10] / 2 % 2 == 1;
            let ipv6 = buffer[10] / 16 % 2 == 1;
            let handle = if outbound && ipv6 {
                l.inject_handle_out_v6
            } else if outbound {
                l.inject_handle_out_v4
            } else if ipv6 {
                l.inject_handle_in_v6
            } else {
                l.inject_handle_in_v4
            };
            &&& handle != 0 && outbound ==> (a matches SendAction::InjectTransport {
                plan: TransportInject::Send { handle: h, ipv6: v, .. },
                ..
            } && h == handle && v == ipv6)
            &&& handle != 0 && !outbound ==> (a matches SendAction::InjectTransport {
                plan: TransportInject::Receive { handle: h, ipv6: v, if_idx, sub_if_idx, .. },
                ..
            } && h == handle && v == ipv6 && if_idx == buffer[16] + 0x100 * buffer[17] + 0x1_0000
                * buffer[18] + 0x100_0000 * buffer[19] && sub_if_idx == buffer[20] + 0x100
                * buffer[21] + 0x1_0000 * buffer[22] + 0x100_0000 * buffer[23])
            &&& handle == 0 ==> a is Finish && stage == SendStage::Done
        }),
        m.network_ctx.active_layer matches WfpLayer::Stream(l) ==> ({
            let callout = if buffer[10] / 16 % 2 == 1 {
                l.stream_callout_id_v6
            } else {
                l.stream_callout_id_v4
            };
            &&& l.inject_handle_stream != 0 && callout != 0 ==> (a matches SendAction::InjectStream {
                plan,
                ..
            } && plan.handle == l.inject_handle_stream && plan.callout_id == callout)
            &&& l.inject_handle_stream == 0 || callout == 0 ==> a is Finish && stage
                == SendStage::Done
        }),
{
    law_request_names_direction(buffer, request, s);
}

/// A packet that the client sends on with the address with which it was captured is injected in
/// the direction, with the version of IP and on the interface that it was captured with.
pub proof fn law_captured_packet_goes_on(
    m: NetworkModule,
    captured: DivertAddress,
    if_idx: u32,
    sub_if_idx: u32,
    outbound: bool,
    v6: bool,
    packet: Seq<u8>,
    request: u64,
    s: SendRequest,
    mdl: u64,
    nbl: u64,
    list: SendAction,
    a: SendAction,
    stage: SendStage,
)
    requires
        address::is_packet_address(captured, if_idx, sub_if_idx, outbound, v6),
        packet.len() > 0,
        sending(
            m,
            records::address_bytes(captured) + packet,
            request,
            s,
            mdl,
            nbl,
            list,
            a,
            stage,
        ),
    ensures
        list == (SendAction::AllocateList { offset: 80, len: packet.len() as usize }),
        m.network_ctx.active_layer is Network || m.network_ctx.active_layer is Forward ==> (a
            matches SendAction::InjectNetwork {
            inbound,
            ipv6,
            if_idx: i,
            sub_if_idx: j,
            ..
        } && inbound == !outbound && ipv6 == v6 && i == if_idx && j == sub_if_idx),
        a matches SendAction::InjectTransport { plan, .. } ==> ((plan is Send) == outbound),
{
    let buffer = records::address_bytes(captured) + packet;
    records::law_address_round_trip(captured);
    assert(buffer.subrange(0, 80) =~= records::address_bytes(captured));
    assert(s.addr == captured);
    let data = captured.data.bytes();
    assert(data.subrange(0, 4) =~= bytes::u32_le(if_idx)) by {
        bytes::lemma_u32_le_len(if_idx);
        bytes::lemma_u32_le_len(sub_if_idx);
    }
    assert(data.subrange(4, 8) =~= bytes::u32_le(sub_if_idx)) by {
        bytes::lemma_u32_le_len(if_idx);
        bytes::lemma_u32_le_len(sub_if_idx);
    }
    bytes::lemma_le32_round_trip(data, 0, if_idx);
    bytes::lemma_le32_round_trip(data, 4, sub_if_idx);
    lemma_flag_word(captured.flags);
}

/// Where something cannot be allocated, the request is refused and what was allocated before is
/// released: the memory descriptor, and what holds it once there is that.
pub proof fn law_failed_send_releases(
    m: NetworkModule,
    s: SendRequest,
    event: SendEvent,
    a: SendAction,
    stage: SendStage,
)
    requires
        expects(s.stage, event),
        next(m, s, event, a, stage),
        event == SendEvent::MdlAllocated(0) || event == SendEvent::ContextAllocated(false) || event
            == SendEvent::ListAllocated(None),
    ensures
        stage == SendStage::Done,
        a matches SendAction::Finish { free_context, free_mdl, steps, status } && steps@.len() == 0
            && status == -1073741670 && free_context == (event is ListAllocated) && (match s.stage {
            SendStage::Mdl => free_mdl is None,
            SendStage::Context { mdl } => free_mdl == Some(mdl),
            SendStage::List { mdl } => free_mdl == Some(mdl),
            _ => true,
        }),
{
}

/// At the packet and the forward layer the handles of that layer are used, and on a stream the flow
/// that the address names: eight bytes from the seventeenth byte of the buffer on.
pub proof fn law_handles_and_flow_are_the_own_ones(
    m: NetworkModule,
    buffer: Seq<u8>,
    request: u64,
    s: SendRequest,
    mdl: u64,
    nbl: u64,
    list: SendAction,
    a: SendAction,
    stage: SendStage,
)
    requires
        sending(m, buffer, request, s, mdl, nbl, list, a, stage),
        buffer.len() > 80,
    ensures
        m.network_ctx.active_layer matches WfpLayer::Network(l) ==> (a
            matches SendAction::InjectNetwork { handles, .. } && handles == l.handles),
        m.network_ctx.active_layer matches WfpLayer::Forward(l) ==> (a
            matches SendAction::InjectNetwork { handles, .. } && handles == l.handles),
        a matches SendAction::InjectStream { plan, .. } ==> plan.flow_id == buffer[16] + 0x100
            * buffer[17] + 0x1_0000 * buffer[18] + 0x100_0000 * buffer[19] + 0x1_0000_0000 * (
        buffer[20] + 0x100 * buffer[21] + 0x1_0000 * buffer[22] + 0x100_0000 * buffer[23]),
        m.network_ctx.active_layer is Flow || m.network_ctx.active_layer is Socket
            || m.network_ctx.active_layer is Inactive ==> a is Finish,
{
    law_request_names_direction(buffer, request, s);
    let head = buffer.subrange(0, 80);
    let data = head.subrange(16, 80);
    lemma_le32_at(data, 0);
    lemma_le32_at(data, 4);
}

/// A request to send has to hold an address and at least one byte behind it; and where its buffer
/// could not be had, that failure is the answer.
pub proof fn law_request_holds_a_packet(
    request: u64,
    status: i32,
    buffer: Seq<u8>,
    r: Result<SendRequest, i32>,
    t: Result<SendRequest, i32>,
)
    requires
        begun(request, status, Some(buffer), r),
        begun(request, status, None, t),
    ensures
        r is Ok <==> status >= 0 && buffer.len() > 80,
        status < 0 ==> r == Err::<SendRequest, i32>(status),
        t == Err::<SendRequest, i32>(status),
        r matches Ok(s) ==> s.request == request && s.buffer_len == buffer.len() && s.stage
            == SendStage::Mdl,
{
}

/// A failed injection at the transport and the stream layer releases the packet, which completes
/// its request; at the others that is the business of who injects. Nothing is released before the
/// end where the injection succeeded.
pub proof fn law_failed_injection_releases(
    m: NetworkModule,
    s: SendRequest,
    mdl: u64,
    nbl: u64,
    ours: bool,
    status: i32,
    a: SendAction,
    stage: SendStage,
)
    requires
        s.stage == (SendStage::Inject { mdl, nbl, ours }),
        s.request != 0,
        mdl != 0,
        nbl != 0,
        next(m, s, SendEvent::Injected(status), a, stage),
    ensures
        stage == SendStage::Done,
        a matches SendAction::Finish { free_context, free_mdl, steps, status: answer } && answer
            == 0x103 && !free_context && free_mdl is None && (if ours && status < 0 {
            steps@ == seq![
                CompletionStep::FreeMdl(mdl),
                CompletionStep::CompleteRequest(s.request),
                CompletionStep::FreeContext,
                CompletionStep::FreeNetBufferList(nbl),
            ]
        } else {
            steps@.len() == 0
        }),
{
    let steps = inject::completion(
        Some(UserInjectionCompletionContext { mdl, request: s.request }),
        nbl,
    );
    assert(steps =~= seq![
        CompletionStep::FreeMdl(mdl),
        CompletionStep::CompleteRequest(s.request),
        CompletionStep::FreeContext,
        CompletionStep::FreeNetBufferList(nbl),
    ]);
}

} // verus!
