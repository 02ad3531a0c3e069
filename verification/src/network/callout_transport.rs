//! The transport layer: which packets are diverted, and how they go back.
use vstd::prelude::*;
use crate::bpf_compiler::compiled;
use crate::bpf_compiler::meaning;
use crate::network::address;
use crate::network::bpf;
use crate::network::bpf::{BpfContext, BpfInsn};
use crate::network::callouts;
use crate::network::callouts::{ClassifyAction, ClassifyOut};
use crate::network::context::{Metrics, NetworkContext, WfpLayer};
use crate::network::module::NetworkModule;
use crate::ringbuffer::data;
use crate::ringbuffer::data::MdlSegment;
use crate::ringbuffer::per_cpu_ring::{Notify, Piece};
use crate::ringbuffer::report;
use crate::status::{nt_success, STATUS_INSUFFICIENT_RESOURCES, STATUS_INVALID_DEVICE_REQUEST};
use crate::text;
use crate::types::DivertAddress;

verus! {

/// Injection into the transport layer: a handle for each direction and version of IP, or 0.
#[derive(Clone, Copy, Debug, PartialEq, Eq, Structural)]
pub struct TransportLayer {
    pub inject_handle_in_v4: u64,
    pub inject_handle_out_v4: u64,
    pub inject_handle_in_v6: u64,
    pub inject_handle_out_v6: u64,
}

/// What is to be done next to make the injection handles.
pub enum TransportSetup {
    /// Make another handle.
    Create { ipv6: bool },
    Done(TransportLayer),
    /// Making one failed: destroy those that were made.
    Fail { destroy: Vec<u64>, status: i32 },
}

/// What is to be done next, given what making handles has reported so far.
pub open spec fn is_next_setup(made: Seq<(i32, u64)>, r: TransportSetup) -> bool {
    if made.len() > 0 && made.last().0 < 0 {
        r matches TransportSetup::Fail { destroy, status } && status == made.last().0 && destroy@
            == made.drop_last().map_values(|m: (i32, u64)| m.1)
    } else if made.len() == 4 {
        r == TransportSetup::Done(
            TransportLayer {
                inject_handle_in_v4: made[0].1,
                inject_handle_out_v4: made[1].1,
                inject_handle_in_v6: made[2].1,
                inject_handle_out_v6: made[3].1,
            },
        )
    } else {
        r == (TransportSetup::Create { ipv6: made.len() >= 2 })
    }
}

/// How a packet is injected. The completion function has to be run if that fails.
#[derive(Clone, Copy, Debug, PartialEq, Eq, Structural)]
pub enum TransportInject {
    Receive { handle: u64, ipv6: bool, compartment: u32, if_idx: u32, sub_if_idx: u32 },
    Send { handle: u64, ipv6: bool, compartment: u32 },
}

/// State of a packet that this driver injected.
pub const INJECTED_BY_SELF: i32 = 1;

/// State of a packet that this driver injected before another one did.
pub const PREVIOUSLY_INJECTED_BY_SELF: i32 = 3;

impl TransportLayer {
    /// Says what comes next, given what making handles has reported so far: a status and a handle
    /// each. The order is inbound and outbound of IPv4, then of IPv6.
    pub fn initialize(made: &Vec<(i32, u64)>) -> (r: TransportSetup)
        requires
            made@.len() <= 4,
            forall|i: int| 0 <= i < made@.len() - 1 ==> (#[trigger] made@[i]).0 >= 0,
        ensures
            is_next_setup(made@, r),
    {
        let n: usize = made.len();
        if n > 0 && !nt_success(made[n - 1].0) {
            let mut destroy: Vec<u64> = Vec::new();
            let mut i: usize = 0;
            while i < n - 1
                invariant
                    i <= n - 1,
                    n == made@.len(),
                    n > 0,
                    destroy@ =~= made@.take(i as int).map_values(|m: (i32, u64)| m.1),
                decreases n - 1 - i,
            {
                destroy.push(made[i].1);
                i += 1;
            }
            assert(made@.take(n - 1) =~= made@.drop_last());
            return TransportSetup::Fail { destroy, status: made[n - 1].0 };
        }
        if n == 4 {
            TransportSetup::Done(
                TransportLayer {
                    inject_handle_in_v4: made[0].1,
                    inject_handle_out_v4: made[1].1,
                    inject_handle_in_v6: made[2].1,
                    inject_handle_out_v6: made[3].1,
                },
            )
        } else {
            TransportSetup::Create { ipv6: n >= 2 }
        }
    }

    pub open spec fn spec_handle(&self, inbound: bool, ipv6: bool) -> u64 {
        match (inbound, ipv6) {
            (true, false) => self.inject_handle_in_v4,
            (true, true) => self.inject_handle_in_v6,
            (false, false) => self.inject_handle_out_v4,
            (false, true) => self.inject_handle_out_v6,
        }
    }

    /// The handle for a direction and a version of IP.
    pub fn handle(&self, inbound: bool, ipv6: bool) -> (h: u64)
        ensures
            h == self.spec_handle(inbound, ipv6),
    {
        if inbound {
            if ipv6 {
                self.inject_handle_in_v6
            } else {
                self.inject_handle_in_v4
            }
        } else {
            if ipv6 {
                self.inject_handle_out_v6
            } else {
                self.inject_handle_out_v4
            }
        }
    }

    /// Whether the driver injected a packet itself. `state` is what asking the handle for its
    /// direction and version of IP about the packet gave; without a handle there is nothing to
    /// ask.
    pub fn is_self_injected(&self, state: i32, inbound: bool, ipv4: bool) -> (b: bool)
        ensures
            b == (self.spec_handle(inbound, !ipv4) != 0 && (state == INJECTED_BY_SELF || state
                == PREVIOUSLY_INJECTED_BY_SELF)),
    {
        self.handle(inbound, !ipv4) != 0 && (state == INJECTED_BY_SELF || state
            == PREVIOUSLY_INJECTED_BY_SELF)
    }

    /// How a packet is to be injected.
    pub open spec fn injection(
        &self,
        is_inbound: bool,
        is_ipv6: bool,
        if_idx: u32,
        sub_if_idx: u32,
        nbl: u64,
    ) -> Result<TransportInject, i32> {
        if nbl == 0 {
            Err(STATUS_INSUFFICIENT_RESOURCES)
        } else if self.spec_handle(is_inbound, is_ipv6) == 0 {
            Err(STATUS_INVALID_DEVICE_REQUEST)
        } else if is_inbound {
            Ok(
                TransportInject::Receive {
                    handle: self.spec_handle(true, is_ipv6),
                    ipv6: is_ipv6,
                    compartment: 1,
                    if_idx,
                    sub_if_idx,
                },
            )
        } else {
            Ok(
                TransportInject::Send {
                    handle: self.spec_handle(false, is_ipv6),
                    ipv6: is_ipv6,
                    compartment: 1,
                },
            )
        }
    }

    /// Says how a packet is to be injected. `nbl` is the packet, or 0.
    pub fn inject(&self, is_inbound: bool, is_ipv6: bool, if_idx: u32, sub_if_idx: u32, nbl: u64) -> (r:
        Result<TransportInject, i32>)
        ensures
            r == self.injection(is_inbound, is_ipv6, if_idx, sub_if_idx, nbl),
    {
        if nbl == 0 {
            return Err(STATUS_INSUFFICIENT_RESOURCES);
        }
        let handle: u64 = self.handle(is_inbound, is_ipv6);
        if handle == 0 {
            return Err(STATUS_INVALID_DEVICE_REQUEST);
        }
        if is_inbound {
            Ok(
                TransportInject::Receive {
                    handle,
                    ipv6: is_ipv6,
                    compartment: 1,
                    if_idx,
                    sub_if_idx,
                },
            )
        } else {
            Ok(TransportInject::Send { handle, ipv6: is_ipv6, compartment: 1 })
        }
    }

    /// The handles that are to be destroyed with the layer.
    pub fn handles(&self) -> (v: Vec<u64>)
        ensures
            v@ == seq![
                self.inject_handle_in_v4,
                self.inject_handle_out_v4,
                self.inject_handle_in_v6,
                self.inject_handle_out_v6,
            ].filter(|h: u64| h != 0),
    {
        let all: [u64; 4] = [
            self.inject_handle_in_v4,
            self.inject_handle_out_v4,
            self.inject_handle_in_v6,
            self.inject_handle_out_v6,
        ];
        let ghost want = |h: u64| h != 0;
        let mut v: Vec<u64> = Vec::new();
        let mut i: usize = 0;
        assert(all@.take(0).filter(want) =~= Seq::empty()) by {
            reveal(Seq::filter);
        }
        while i < 4
            invariant
                i <= 4,
                want == (|h: u64| h != 0),
                v@ == all@.take(i as int).filter(want),
            decreases 4 - i,
        {
            proof {
                reveal(Seq::filter);
                assert(all@.take(i + 1).drop_last() =~= all@.take(i as int));
            }
            if all[i] != 0 {
                v.push(all[i]);
            }
            i += 1;
        }
        assert(all@.take(4) =~= seq![
            self.inject_handle_in_v4,
            self.inject_handle_out_v4,
            self.inject_handle_in_v6,
            self.inject_handle_out_v6,
        ]);
        v
    }
}

/// Where a packet comes from or goes to.
#[derive(Clone, Copy, Debug, PartialEq, Eq, Structural)]
pub struct ParsedIncomingValues {
    pub ipv4: bool,
    pub inbound: bool,
    pub layer_id: u16,
    pub ifindex: u32,
    pub sub_ifindex: u32,
}

/// Number of a layer of the filtering platform, and where among the values that it reports the
/// interface indexes stand.
#[derive(Clone, Copy, Debug, PartialEq, Eq, Structural)]
pub struct TransportFields {
    pub layer_id: u16,
    pub interface_index: usize,
    pub sub_interface_index: usize,
}

/// The layers of the filtering platform that make up the transport layer.
#[derive(Clone, Copy, Debug, PartialEq, Eq, Structural)]
pub struct TransportLayers {
    pub inbound_v4: TransportFields,
    pub outbound_v4: TransportFields,
    pub inbound_v6: TransportFields,
    pub outbound_v6: TransportFields,
}

/// What a layer of the filtering platform reports about a packet.
pub struct IncomingValues {
    pub layer_id: u16,
    pub values: Vec<u32>,
}

/// The fields of a layer, whether it is inbound, and whether it is IPv4's.
pub open spec fn layer_fields(layers: TransportLayers, layer_id: u16) -> Option<
    (TransportFields, bool, bool),
> {
    if layer_id == layers.inbound_v4.layer_id {
        Some((layers.inbound_v4, true, true))
    } else if layer_id == layers.outbound_v4.layer_id {
        Some((layers.outbound_v4, false, true))
    } else if layer_id == layers.inbound_v6.layer_id {
        Some((layers.inbound_v6, true, false))
    } else if layer_id == layers.outbound_v6.layer_id {
        Some((layers.outbound_v6, false, false))
    } else {
        None
    }
}

/// A reported value, or 0 where there is none.
pub open spec fn value_at(values: Seq<u32>, i: int) -> u32 {
    if i < values.len() {
        values[i]
    } else {
        0
    }
}

fn get_value(values: &Vec<u32>, i: usize) -> (v: u32)
    ensures
        v == value_at(values@, i as int),
{
    if i < values.len() {
        values[i]
    } else {
        0
    }
}

/// What the values that a layer reports say about a packet.
pub open spec fn values_parsed(layers: TransportLayers, layer_id: u16, values: Seq<u32>) -> Option<
    ParsedIncomingValues,
> {
    match layer_fields(layers, layer_id) {
        None => None,
        Some((fields, inbound, ipv4)) => Some(
            ParsedIncomingValues {
                ipv4,
                inbound,
                layer_id,
                ifindex: value_at(values, fields.interface_index as int),
                sub_ifindex: value_at(values, fields.sub_interface_index as int),
            },
        ),
    }
}

/// Reads what the transport layer reports about a packet.
pub fn parse_incoming_values_transport(layers: &TransportLayers, incoming: Option<&IncomingValues>) -> (r:
    Option<ParsedIncomingValues>)
    ensures
        r == (match incoming {
            None => None,
            Some(v) => values_parsed(*layers, v.layer_id, v.values@),
        }),
{
    let v: &IncomingValues = match incoming {
        None => {
            return None;
        },
        Some(v) => v,
    };
    let (fields, inbound, ipv4): (TransportFields, bool, bool) = if v.layer_id
        == layers.inbound_v4.layer_id {
        (layers.inbound_v4, true, true)
    } else if v.layer_id == layers.outbound_v4.layer_id {
        (layers.outbound_v4, false, true)
    } else if v.layer_id == layers.inbound_v6.layer_id {
        (layers.inbound_v6, true, false)
    } else if v.layer_id == layers.outbound_v6.layer_id {
        (layers.outbound_v6, false, false)
    } else {
        return None;
    };
    Some(
        ParsedIncomingValues {
            ipv4,
            inbound,
            layer_id: v.layer_id,
            ifindex: get_value(&v.values, fields.interface_index),
            sub_ifindex: get_value(&v.values, fields.sub_interface_index),
        },
    )
}

/// A packet in the network stack: `data_length` bytes of a chain of memory, from `offset` on.
pub struct NetBuffer {
    pub chain: Vec<MdlSegment>,
    pub offset: usize,
    pub data_length: u32,
}

impl NetBuffer {
    pub open spec fn wf(&self) -> bool {
        data::chain_wf(self.chain@) && self.data_length + 88 <= usize::MAX
    }

    /// Those bytes of the packet that stand in the first part of the chain, if that can be read.
    pub open spec fn first_bytes(&self) -> Option<Seq<u8>> {
        if self.chain@.len() == 0 {
            None
        } else {
            match self.chain@[0].bytes {
                None => None,
                Some(b) => {
                    let there = if self.chain@[0].byte_count > self.offset {
                        self.chain@[0].byte_count - self.offset
                    } else {
                        0
                    };
                    let n = if self.data_length < there {
                        self.data_length as int
                    } else {
                        there
                    };
                    Some(
                        if n == 0 {
                            Seq::empty()
                        } else {
                            b@.subrange(self.offset as int, self.offset + n)
                        },
                    )
                },
            }
        }
    }

    /// The bytes of the packet, and whether they can be read.
    pub open spec fn bytes(&self) -> (Seq<u8>, bool) {
        data::gathered(self.chain@, self.offset as nat, self.data_length as nat)
    }
}

/// `a` is the address of a packet.
pub open spec fn is_parsed_address(a: DivertAddress, parsed: ParsedIncomingValues) -> bool {
    address::is_packet_address(
        a,
        parsed.ifindex,
        parsed.sub_ifindex,
        !parsed.inbound,
        !parsed.ipv4,
    )
}

/// Whether the filter accepts a packet. It sees the first part of the packet only.
pub open spec fn accepts(program: Seq<BpfInsn>, nb: NetBuffer, parsed: ParsedIncomingValues) -> bool {
    program.len() == 0 || (nb.first_bytes() matches Some(packet) && exists|a: DivertAddress| #[trigger]
        is_parsed_address(a, parsed) && bpf::verdict(program, bpf::Input { packet, address: a }) != 0)
}

/// Whether the filter accepts a packet.
pub fn filter_packet(program: &Vec<BpfInsn>, nb: &NetBuffer, parsed: &ParsedIncomingValues) -> (b: bool)
    requires
        nb.wf(),
    ensures
        b == accepts(program@, *nb, *parsed),
{
    if program.len() == 0 {
        return true;
    }
    if nb.chain.len() == 0 {
        return false;
    }
    let count: usize = nb.chain[0].byte_count;
    let there: usize = if count > nb.offset {
        count - nb.offset
    } else {
        0
    };
    let n: usize = if (nb.data_length as usize) < there {
        nb.data_length as usize
    } else {
        there
    };
    match &nb.chain[0].bytes {
        None => false,
        Some(b) => {
            proof {
                assert(nb.chain@[0].wf());
            }
            let a: DivertAddress = address::packet_address(
                parsed.ifindex,
                parsed.sub_ifindex,
                !parsed.inbound,
                !parsed.ipv4,
            );
            let packet: &[u8] = if n == 0 {
                vstd::slice::slice_subrange(b.as_slice(), 0, 0)
            } else {
                vstd::slice::slice_subrange(b.as_slice(), nb.offset, nb.offset + n)
            };
            assert(b@.subrange(0, 0) =~= Seq::empty());
            let ctx = BpfContext { packet, address: &a };
            proof {
                assert(is_parsed_address(a, *parsed));
                assert forall|c: DivertAddress| #[trigger]
                    is_parsed_address(c, *parsed) implies c == a by {
                    address::lemma_address_unique(c, a);
                }
            }
            bpf::bpf_run_filter(program.as_slice(), &ctx) != 0
        },
    }
}

/// By how much the start of a packet is moved back.
pub open spec fn moved_back(inbound: bool, meta: Option<(u32, u32)>, field: u32) -> u32 {
    if inbound {
        callouts::reported_field(meta, field)
    } else {
        0
    }
}

/// By how much the start of a packet is moved back, so that it begins with the IP header: the size
/// of that header for inbound packets, where it is reported.
///
/// `meta` holds the flags that say what is reported, and the size; `field` is the flag of the size.
pub fn ip_header_size(inbound: bool, meta: Option<(u32, u32)>, field: u32) -> (n: u32)
    ensures
        n == moved_back(inbound, meta, field),
{
    if !inbound {
        return 0;
    }
    callouts::metadata_field(meta, field)
}

/// What one packet does to a network module, and whom to call because of it.
#[verifier::opaque]
pub open spec fn buffer_processed(
    before: NetworkModule,
    after: NetworkModule,
    nb: NetBuffer,
    parsed: ParsedIncomingValues,
    cpu: u32,
    notify: Option<Notify>,
) -> bool {
    match before.network_ctx.ring_buffer {
        Some(rb) if accepts(before.bpf_program@, nb, parsed) => {
            &&& after == (NetworkModule {
                network_ctx: NetworkContext {
                    ring_buffer: after.network_ctx.ring_buffer,
                    metrics: Metrics {
                        dropped: after.network_ctx.metrics.dropped,
                        ..before.network_ctx.metrics
                    },
                    ..before.network_ctx
                },
                ..before
            })
            &&& after.network_ctx.ring_buffer is Some
            &&& exists|a: DivertAddress, r: Result<Option<Notify>, i32>|
                {
                    &&& is_parsed_address(a, parsed)
                    &&& #[trigger] report::packet_pushed(
                        rb,
                        after.network_ctx.ring_buffer->0,
                        cpu,
                        a,
                        nb.bytes(),
                        nb.data_length as nat,
                        r,
                    )
                    &&& match r {
                        Ok(n) => notify == n && after.network_ctx.metrics.dropped
                            == before.network_ctx.metrics.dropped,
                        Err(_) => notify is None && after.network_ctx.metrics.dropped
                            == before.network_ctx.metrics.dropped + 1,
                    }
                }
        },
        _ => after == before && notify is None,
    }
}

/// Reports one packet, if the filter accepts it.
fn process_net_buffer(
    module: &mut NetworkModule,
    nb: NetBuffer,
    parsed: &ParsedIncomingValues,
    cpu: u32,
) -> (notify: Option<Notify>)
    requires
        old(module).wf(),
        nb.wf(),
        old(module).network_ctx.metrics.dropped < u64::MAX,
    ensures
        final(module).wf(),
        buffer_processed(*old(module), *final(module), nb, *parsed, cpu, notify),
        final(module).network_ctx.active_layer == old(module).network_ctx.active_layer,
        final(module).network_ctx.packet_read_only == old(module).network_ctx.packet_read_only,
        final(module).network_ctx.metrics.received == old(module).network_ctx.metrics.received,
        final(module).network_ctx.metrics.dropped <= old(module).network_ctx.metrics.dropped + 1,
{
    proof {
        reveal(buffer_processed);
    }
    let ghost whole = nb;
    if !filter_packet(&module.bpf_program, &nb, parsed) {
        return None;
    }
    match module.network_ctx.ring_buffer.take() {
        None => None,
        Some(mut rb) => {
            let a: DivertAddress = address::packet_address(
                parsed.ifindex,
                parsed.sub_ifindex,
                !parsed.inbound,
                !parsed.ipv4,
            );
            let len: usize = nb.data_length as usize;
            let ghost before = rb;
            let body = Piece::Mdl { chain: nb.chain, offset: nb.offset, length: len };
            let r = report::push_packet(&mut rb, cpu, &a, body, len);
            assert(is_parsed_address(a, *parsed));
            assert(report::packet_pushed(before, rb, cpu, a, whole.bytes(), len as nat, r));
            module.network_ctx.ring_buffer = Some(rb);
            match r {
                Ok(n) => n,
                Err(e) => {
                    if e == STATUS_INSUFFICIENT_RESOURCES {
                        module.network_ctx.metrics_inc_dropped();
                    }
                    None
                },
            }
        },
    }
}

/// `states` are the states of a network module before, between and after packets.
pub open spec fn processed_through(
    states: Seq<NetworkModule>,
    nbs: Seq<NetBuffer>,
    parsed: ParsedIncomingValues,
    cpu: u32,
    notifies: Seq<Option<Notify>>,
) -> bool {
    &&& states.len() == nbs.len() + 1
    &&& notifies.len() == nbs.len()
    &&& forall|i: int|
        0 <= i < nbs.len() ==> buffer_processed(
            #[trigger] states[i],
            states[i + 1],
            nbs[i],
            parsed,
            cpu,
            notifies[i],
        )
}

/// What packets do to a network module, one after the other.
pub open spec fn buffers_processed(
    before: NetworkModule,
    after: NetworkModule,
    nbs: Seq<NetBuffer>,
    parsed: ParsedIncomingValues,
    cpu: u32,
    notifies: Seq<Option<Notify>>,
) -> bool {
    exists|states: Seq<NetworkModule>| #[trigger]
        processed_through(states, nbs, parsed, cpu, notifies) && states[0] == before
            && states.last() == after
}

/// Reports those of some packets that the filter accepts; for each packet, says whom to call.
///
/// Each packet is given as it stands after its start was moved back, if that could be done.
pub fn process_net_buffer_list(
    module: &mut NetworkModule,
    nbs: Vec<NetBuffer>,
    parsed: &ParsedIncomingValues,
    cpu: u32,
) -> (notifies: Vec<Option<Notify>>)
    requires
        old(module).wf(),
        forall|i: int| 0 <= i < nbs@.len() ==> (#[trigger] nbs@[i]).wf(),
        old(module).network_ctx.metrics.dropped + nbs@.len() <= u64::MAX,
    ensures
        final(module).wf(),
        buffers_processed(*old(module), *final(module), nbs@, *parsed, cpu, notifies@),
        final(module).network_ctx.active_layer == old(module).network_ctx.active_layer,
        final(module).network_ctx.packet_read_only == old(module).network_ctx.packet_read_only,
        final(module).network_ctx.metrics.received == old(module).network_ctx.metrics.received,
{
    let mut notifies: Vec<Option<Notify>> = Vec::new();
    let mut nbs: Vec<NetBuffer> = nbs;
    let ghost all = nbs@;
    let ghost mut states: Seq<NetworkModule> = seq![*module];
    while nbs.len() > 0
        invariant
            module.wf(),
            notifies@.len() + nbs@.len() == all.len(),
            nbs@ =~= all.skip(notifies@.len() as int),
            states.len() == notifies@.len() + 1,
            states[0] == *old(module),
            states.last() == *module,
            forall|i: int| 0 <= i < all.len() ==> (#[trigger] all[i]).wf(),
            forall|i: int|
                0 <= i < notifies@.len() ==> buffer_processed(
                    #[trigger] states[i],
                    states[i + 1],
                    all[i],
                    *parsed,
                    cpu,
                    notifies@[i],
                ),
            module.network_ctx.metrics.dropped + nbs@.len() <= u64::MAX,
            module.network_ctx.active_layer == old(module).network_ctx.active_layer,
            module.network_ctx.packet_read_only == old(module).network_ctx.packet_read_only,
            module.network_ctx.metrics.received == old(module).network_ctx.metrics.received,
        decreases nbs@.len(),
    {
        let ghost before = *module;
        let nb: NetBuffer = nbs.remove(0);
        assert(nb == all[notifies@.len() as int]);
        let notify: Option<Notify> = process_net_buffer(module, nb, parsed, cpu);
        let ghost old_notifies = notifies@;
        notifies.push(notify);
        proof {
            states = states.push(*module);
            assert forall|i: int| 0 <= i < notifies@.len() implies buffer_processed(
                #[trigger] states[i],
                states[i + 1],
                all[i],
                *parsed,
                cpu,
                notifies@[i],
            ) by {
                if i < old_notifies.len() {
                    assert(notifies@[i] == old_notifies[i]);
                }
            }
        }
    }
    proof {
        assert(processed_through(states, all, *parsed, cpu, notifies@));
    }
    notifies
}

/// Whether a packet is one that a module's own layer injected.
pub open spec fn own_packet(module: NetworkModule, state: i32, parsed: ParsedIncomingValues) -> bool {
    module.network_ctx.active_layer matches WfpLayer::Transport(layer) && layer.spec_handle(
        parsed.inbound,
        !parsed.ipv4,
    ) != 0 && (state == INJECTED_BY_SELF || state == PREVIOUSLY_INJECTED_BY_SELF)
}

/// A network module that counts one more packet as received.
pub open spec fn received_one(m: NetworkModule) -> NetworkModule {
    NetworkModule {
        network_ctx: NetworkContext {
            metrics: Metrics {
                received: (m.network_ctx.metrics.received + 1) as u64,
                ..m.network_ctx.metrics
            },
            ..m.network_ctx
        },
        ..m
    }
}

/// What packets of the transport layer do to a network module, and what becomes of them.
pub open spec fn classified(
    before: NetworkModule,
    after: NetworkModule,
    nbs: Seq<NetBuffer>,
    parsed: ParsedIncomingValues,
    state: i32,
    cpu: u32,
    out: ClassifyOut,
    notifies: Seq<Option<Notify>>,
) -> bool {
    if own_packet(before, state, parsed) {
        &&& after == before
        &&& out == callouts::answer(ClassifyAction::Continue)
        &&& notifies.len() == 0
    } else {
        &&& exists|mid: NetworkModule|
            {
                &&& #[trigger] buffers_processed(before, mid, nbs, parsed, cpu, notifies)
                &&& after == received_one(mid)
            }
        &&& out == (if before.network_ctx.packet_read_only {
            callouts::answer(ClassifyAction::Continue)
        } else {
            ClassifyOut { action: Some(ClassifyAction::Block), absorb: true, clear_write: false }
        })
    }
}

/// Reports packets of the transport layer and takes them off, unless the handle only looks at
/// them or injected them itself. `state` is what asking about that gave.
pub fn classify_transport(
    module: &mut NetworkModule,
    nbs: Vec<NetBuffer>,
    parsed: &ParsedIncomingValues,
    state: i32,
    cpu: u32,
) -> (r: (ClassifyOut, Vec<Option<Notify>>))
    requires
        old(module).wf(),
        forall|i: int| 0 <= i < nbs@.len() ==> (#[trigger] nbs@[i]).wf(),
        old(module).network_ctx.metrics.dropped + nbs@.len() <= u64::MAX,
        old(module).network_ctx.metrics.received < u64::MAX,
    ensures
        final(module).wf(),
        classified(*old(module), *final(module), nbs@, *parsed, state, cpu, r.0, r.1@),
{
    let own: bool = match &module.network_ctx.active_layer {
        WfpLayer::Transport(layer) => layer.is_self_injected(state, parsed.inbound, parsed.ipv4),
        _ => false,
    };
    if own {
        return (ClassifyOut::with(ClassifyAction::Continue), Vec::new());
    }
    let notifies: Vec<Option<Notify>> = process_net_buffer_list(module, nbs, parsed, cpu);
    let ghost mid = *module;
    assert(buffers_processed(*old(module), mid, nbs@, *parsed, cpu, notifies@));
    module.network_ctx.metrics_inc_received();
    assert(*module == received_one(mid));
    let out: ClassifyOut = if module.network_ctx.packet_read_only {
        ClassifyOut::with(ClassifyAction::Continue)
    } else {
        ClassifyOut { action: Some(ClassifyAction::Block), absorb: true, clear_write: false }
    };
    assert(classified(*old(module), *module, nbs@, *parsed, state, cpu, out, notifies@));
    (out, notifies)
}

/// The filter runs on the front of what is reported: on those bytes of the packet, from its start
/// on, that stand in the first part of its memory.
pub proof fn law_filter_sees_what_is_reported(nb: NetBuffer)
    requires
        nb.wf(),
        nb.chain@.len() > 0,
        nb.chain@[0].bytes is Some,
    ensures
        ({
            let there = if nb.chain@[0].byte_count > nb.offset {
                nb.chain@[0].byte_count - nb.offset
            } else {
                0
            };
            let k = if nb.data_length < there {
                nb.data_length as int
            } else {
                there
            };
            &&& k <= nb.bytes().0.len()
            &&& nb.first_bytes() == Some(nb.bytes().0.take(k))
        }),
{
    let b = nb.chain@[0].bytes->0@;
    assert(nb.chain@[0].wf());
    let rest = nb.chain@.drop_first();
    let packet = nb.first_bytes()->0;
    let n = packet.len() as int;
    if nb.chain@[0].byte_count > nb.offset && nb.data_length > 0 {
        assert(nb.bytes().0.take(n) =~= packet);
    } else {
        assert(nb.bytes().0.take(0) =~= packet);
    }
}

/// A packet that stands in one part of memory is filtered on exactly the bytes that are reported.
pub proof fn law_filter_sees_whole_packet(
    program: Seq<BpfInsn>,
    nb: NetBuffer,
    parsed: ParsedIncomingValues,
    a: DivertAddress,
)
    requires
        nb.wf(),
        nb.chain@.len() > 0,
        nb.chain@[0].bytes is Some,
        nb.offset + nb.data_length <= nb.chain@[0].byte_count,
        is_parsed_address(a, parsed),
        program.len() > 0,
    ensures
        nb.bytes().0 == nb.chain@[0].bytes->0@.subrange(
            nb.offset as int,
            nb.offset + nb.data_length,
        ),
        accepts(program, nb, parsed) == (bpf::verdict(
            program,
            bpf::Input { packet: nb.bytes().0, address: a },
        ) != 0),
{
    law_filter_sees_what_is_reported(nb);
    assert(nb.chain@[0].wf());
    let b = nb.chain@[0].bytes->0@;
    let whole = b.subrange(nb.offset as int, nb.offset + nb.data_length);
    assert(data::gathered(nb.chain@.drop_first(), 0, 0) == (Seq::<u8>::empty(), true));
    assert(nb.bytes().0 =~= whole);
    assert(nb.first_bytes() == Some(whole)) by {
        assert(nb.bytes().0.take(nb.data_length as int) =~= whole);
    }
    assert forall|c: DivertAddress| #[trigger] is_parsed_address(c, parsed) implies c == a by {
        address::lemma_address_unique(c, a);
    }
}

/// Each of the four layers stands for one direction and one version of IP, and its values name the
/// interfaces. Other layers stand for nothing.
pub proof fn law_layers_tell_direction(layers: TransportLayers, values: Seq<u32>, layer_id: u16)
    requires
        layers.inbound_v4.layer_id != layers.outbound_v4.layer_id,
        layers.inbound_v4.layer_id != layers.inbound_v6.layer_id,
        layers.inbound_v4.layer_id != layers.outbound_v6.layer_id,
        layers.outbound_v4.layer_id != layers.inbound_v6.layer_id,
        layers.outbound_v4.layer_id != layers.outbound_v6.layer_id,
        layers.inbound_v6.layer_id != layers.outbound_v6.layer_id,
    ensures
        values_parsed(layers, layers.inbound_v4.layer_id, values) matches Some(p) && p.inbound
            && p.ipv4 && (layers.inbound_v4.interface_index < values.len() ==> p.ifindex
            == values[layers.inbound_v4.interface_index as int]) && (
        layers.inbound_v4.sub_interface_index < values.len() ==> p.sub_ifindex
            == values[layers.inbound_v4.sub_interface_index as int]),
        values_parsed(layers, layers.outbound_v4.layer_id, values) matches Some(p) && !p.inbound
            && p.ipv4 && (layers.outbound_v4.interface_index < values.len() ==> p.ifindex
            == values[layers.outbound_v4.interface_index as int]) && (
        layers.outbound_v4.sub_interface_index < values.len() ==> p.sub_ifindex
            == values[layers.outbound_v4.sub_interface_index as int]),
        values_parsed(layers, layers.inbound_v6.layer_id, values) matches Some(p) && p.inbound
            && !p.ipv4 && (layers.inbound_v6.interface_index < values.len() ==> p.ifindex
            == values[layers.inbound_v6.interface_index as int]) && (
        layers.inbound_v6.sub_interface_index < values.len() ==> p.sub_ifindex
            == values[layers.inbound_v6.sub_interface_index as int]),
        values_parsed(layers, layers.outbound_v6.layer_id, values) matches Some(p) && !p.inbound
            && !p.ipv4 && (layers.outbound_v6.interface_index < values.len() ==> p.ifindex
            == values[layers.outbound_v6.interface_index as int]) && (
        layers.outbound_v6.sub_interface_index < values.len() ==> p.sub_ifindex
            == values[layers.outbound_v6.sub_interface_index as int]),
        layer_id != layers.inbound_v4.layer_id && layer_id != layers.outbound_v4.layer_id
            && layer_id != layers.inbound_v6.layer_id && layer_id != layers.outbound_v6.layer_id
            ==> values_parsed(layers, layer_id, values) is None,
{
}

/// The direction and the interfaces that the layer reported of a packet are those that its filter
/// asks for: `inbound`, `outbound`, `ifindex` and `sub_ifindex` take the packets of that direction
/// and of that interface, and no others.
pub proof fn law_filter_sees_direction_and_interface(
    nb: NetBuffer,
    parsed: ParsedIncomingValues,
    a: DivertAddress,
    n: u32,
)
    requires
        nb.chain@.len() > 0,
        nb.chain@[0].bytes is Some,
        is_parsed_address(a, parsed),
    ensures
        ({
            let first = "ifindex "@ + text::decimal_text(n as nat);
            let second = "sub_ifindex "@ + text::decimal_text(n as nat);
            &&& compiled("inbound"@) matches Ok(p) && accepts(p, nb, parsed) == parsed.inbound
            &&& compiled("outbound"@) matches Ok(p) && accepts(p, nb, parsed) == !parsed.inbound
            &&& compiled(first) matches Ok(p) && accepts(p, nb, parsed) == (parsed.ifindex == n)
            &&& compiled(second) matches Ok(p) && accepts(p, nb, parsed) == (parsed.sub_ifindex
                == n)
        }),
{
    let packet = nb.first_bytes()->0;
    let first = "ifindex "@ + text::decimal_text(n as nat);
    let second = "sub_ifindex "@ + text::decimal_text(n as nat);
    address::law_packet_address_reads_back(
        a,
        parsed.ifindex,
        parsed.sub_ifindex,
        !parsed.inbound,
        !parsed.ipv4,
    );
    let flags = a.flags;
    assert((flags & 0x0002_0000 != 0) == (flags / 0x2_0000 % 2 == 1)) by (bit_vector);
    meaning::law_inbound(packet, a);
    meaning::law_outbound(packet, a);
    meaning::law_ifindex(n, packet, a);
    meaning::law_sub_ifindex(n, packet, a);
    lemma_accepts("inbound"@, nb, parsed, a, parsed.inbound);
    lemma_accepts("outbound"@, nb, parsed, a, !parsed.inbound);
    lemma_accepts(first, nb, parsed, a, parsed.ifindex == n);
    lemma_accepts(second, nb, parsed, a, parsed.sub_ifindex == n);
}

/// A filter takes a packet exactly if its program does on what it sees of it.
proof fn lemma_accepts(
    filter: Seq<char>,
    nb: NetBuffer,
    parsed: ParsedIncomingValues,
    a: DivertAddress,
    yes: bool,
)
    requires
        nb.first_bytes() is Some,
        is_parsed_address(a, parsed),
        meaning::answers(filter, nb.first_bytes()->0, a, yes),
        yes || compiled(filter)->Ok_0.len() > 0,
    ensures
        compiled(filter) matches Ok(p) && accepts(p, nb, parsed) == yes,
{
    assert forall|c: DivertAddress| #[trigger] is_parsed_address(c, parsed) implies c == a by {
        address::lemma_address_unique(c, a);
    }
}

/// A packet that the filter does not take leaves everything as it is, and nobody is called. One
/// that it takes leaves all but the ring and the count of what was dropped.
pub proof fn law_refused_packet_leaves_no_trace(
    before: NetworkModule,
    after: NetworkModule,
    nb: NetBuffer,
    parsed: ParsedIncomingValues,
    cpu: u32,
    notify: Option<Notify>,
)
    requires
        buffer_processed(before, after, nb, parsed, cpu, notify),
    ensures
        !accepts(before.bpf_program@, nb, parsed) ==> after == before && notify is None,
        before.network_ctx.ring_buffer is None ==> after == before && notify is None,
        after.bpf_program@ == before.bpf_program@,
        after.network_ctx.active_layer == before.network_ctx.active_layer,
        after.network_ctx.packet_read_only == before.network_ctx.packet_read_only,
        after.network_ctx.metrics.received == before.network_ctx.metrics.received,
        after.network_ctx.metrics.dropped == before.network_ctx.metrics.dropped || notify is None,
{
    reveal(buffer_processed);
}

/// Packets go on their way if the handle only looks on or if they are its own; else they are taken
/// off. Its own packets are not reported again.
pub proof fn law_packets_are_taken_off(
    before: NetworkModule,
    after: NetworkModule,
    nbs: Seq<NetBuffer>,
    parsed: ParsedIncomingValues,
    state: i32,
    cpu: u32,
    out: ClassifyOut,
    notifies: Seq<Option<Notify>>,
)
    requires
        classified(before, after, nbs, parsed, state, cpu, out, notifies),
    ensures
        state != 1 && state != 3 && !before.network_ctx.packet_read_only ==> out.action == Some(
            ClassifyAction::Block,
        ) && out.absorb,
        before.network_ctx.packet_read_only ==> out.action == Some(ClassifyAction::Continue)
            && !out.absorb,
        (state == 1 || state == 3) && (before.network_ctx.active_layer matches WfpLayer::Transport(
            layer,
        ) && layer.inject_handle_in_v4 != 0 && layer.inject_handle_out_v4 != 0
            && layer.inject_handle_in_v6 != 0 && layer.inject_handle_out_v6 != 0) ==> after
            == before && out.action == Some(ClassifyAction::Continue) && notifies.len() == 0,
        state != 1 && state != 3 ==> notifies.len() == nbs.len(),
{
}

/// An injected packet goes in the direction that it is to go, with a handle that the layer holds,
/// and one that comes in goes to its interfaces.
pub proof fn law_injection_goes_its_way(
    layer: TransportLayer,
    is_inbound: bool,
    is_ipv6: bool,
    if_idx: u32,
    sub_if_idx: u32,
    nbl: u64,
)
    requires
        nbl != 0,
        layer.inject_handle_in_v4 != 0,
        layer.inject_handle_out_v4 != 0,
        layer.inject_handle_in_v6 != 0,
        layer.inject_handle_out_v6 != 0,
    ensures
        match layer.injection(is_inbound, is_ipv6, if_idx, sub_if_idx, nbl) {
            Ok(TransportInject::Receive {
                handle,
                ipv6,
                compartment,
                if_idx: first,
                sub_if_idx: second,
            }) => {
                &&& is_inbound
                &&& ipv6 == is_ipv6
                &&& compartment == 1
                &&& first == if_idx
                &&& second == sub_if_idx
                &&& ipv6 ==> handle == layer.inject_handle_in_v6
                &&& !ipv6 ==> handle == layer.inject_handle_in_v4
            },
            Ok(TransportInject::Send { handle, ipv6, compartment }) => {
                &&& !is_inbound
                &&& ipv6 == is_ipv6
                &&& compartment == 1
                &&& ipv6 ==> handle == layer.inject_handle_out_v6
                &&& !ipv6 ==> handle == layer.inject_handle_out_v4
            },
            Err(_) => false,
        },
{
}

/// Two handles are made for IPv4, then two for IPv6. When all four are there the layer has the
/// first of each two for what comes in and the second one for what goes out. Where one fails, those
/// that were made are destroyed, and no others.
pub proof fn law_handles_are_made_in_order(
    a: u64,
    b: u64,
    c: u64,
    d: u64,
    status: i32,
    none: TransportSetup,
    one: TransportSetup,
    two: TransportSetup,
    three: TransportSetup,
    four: TransportSetup,
    broken: TransportSetup,
)
    requires
        status < 0,
        is_next_setup(seq![], none),
        is_next_setup(seq![(0i32, a)], one),
        is_next_setup(seq![(0i32, a), (0i32, b)], two),
        is_next_setup(seq![(0i32, a), (0i32, b), (0i32, c)], three),
        is_next_setup(seq![(0i32, a), (0i32, b), (0i32, c), (0i32, d)], four),
        is_next_setup(seq![(0i32, a), (0i32, b), (status, c)], broken),
    ensures
        none == (TransportSetup::Create { ipv6: false }),
        one == (TransportSetup::Create { ipv6: false }),
        two == (TransportSetup::Create { ipv6: true }),
        three == (TransportSetup::Create { ipv6: true }),
        four matches TransportSetup::Done(l) && l.spec_handle(true, false) == a && l.spec_handle(
            false,
            false,
        ) == b && l.spec_handle(true, true) == c && l.spec_handle(false, true) == d,
        broken matches TransportSetup::Fail { destroy, status: s } && s == status && destroy@
            == seq![a, b],
{
    let made = seq![(0i32, a), (0i32, b), (status, c)];
    assert(made.last() == (status, c));
    assert(made.drop_last().map_values(|m: (i32, u64)| m.1) =~= seq![a, b]);
}

/// What comes in is looked at from its IP header on, where the platform says how long that is; what
/// goes out starts with it already.
pub proof fn law_header_is_looked_at(present: u32, size: u32, field: u32)
    ensures
        present & field != 0 ==> moved_back(true, Some((present, size)), field) == size,
        present & field == 0 ==> moved_back(true, Some((present, size)), field) == 0,
        moved_back(true, None, field) == 0,
        moved_back(false, Some((present, size)), field) == 0,
{
}

} // verus!
