//! The flow layer: connections are reported when they are established.
use vstd::prelude::*;
use crate::network::address;
use crate::network::callouts;
use crate::network::callouts::{
    ClassifyAction, ClassifyOut, ConnectionLayers, ParsedConnection, WfpValue,
};
use crate::network::context::{Metrics, NetworkContext};
use crate::network::module::NetworkModule;
use crate::ringbuffer::locked_ring;
use crate::ringbuffer::per_cpu_ring::Notify;
use crate::ringbuffer::records;
use crate::ringbuffer::records::RecordHeader;
use crate::types::DivertAddress;

verus! {

/// Number of the flow layer in an address.
pub const FLOW_LAYER: u8 = 2;

/// `r` is what the flow layer reports about a connection, if the layer is one of its own.
pub open spec fn flow_read(
    layers: ConnectionLayers,
    layer_id: u16,
    values: Seq<WfpValue>,
    meta: Option<(u32, u64)>,
    process_field: u32,
    r: Option<ParsedConnection>,
) -> bool {
    callouts::connection_read(
        layers,
        layer_id,
        values,
        true,
        callouts::spec_process_id(meta, process_field),
        r,
    )
}

/// Reads what the flow layer reports about a connection. Which end opened it is not reported; it
/// counts as inbound.
pub fn parse_incoming_values_flow(
    layers: &ConnectionLayers,
    layer_id: u16,
    values: &Vec<WfpValue>,
    meta: Option<(u32, u64)>,
    process_field: u32,
) -> (r: Option<ParsedConnection>)
    requires
        layer_id == layers.v4.layer_id ==> callouts::fields_present(layers.v4, true, values@),
        layer_id == layers.v6.layer_id && layer_id != layers.v4.layer_id
            ==> callouts::fields_present(layers.v6, false, values@),
    ensures
        flow_read(*layers, layer_id, values@, meta, process_field, r),
{
    let process_id: u32 = callouts::process_id_of(meta, process_field);
    callouts::parse_connection(layers, layer_id, values, true, process_id)
}

/// The bytes of a record that holds an address only.
pub open spec fn event_record(a: DivertAddress) -> Seq<u8> {
    records::header_bytes(RecordHeader { len: 80, ty: 0 }) + records::address_bytes(a)
}

/// What an event with the address `a` does to a network module: it goes into the ring for events,
/// if there is one, and counts as received.
pub open spec fn event_reported(
    before: NetworkModule,
    after: NetworkModule,
    a: DivertAddress,
    notify: Option<Notify>,
) -> bool {
    match before.network_ctx.ale_ring_buffer {
        None => after == before && notify is None,
        Some(rb) => {
            &&& after == (NetworkModule {
                network_ctx: NetworkContext {
                    ale_ring_buffer: after.network_ctx.ale_ring_buffer,
                    metrics: Metrics {
                        received: (before.network_ctx.metrics.received + 1) as u64,
                        ..before.network_ctx.metrics
                    },
                    ..before.network_ctx
                },
                ..before
            })
            &&& after.network_ctx.ale_ring_buffer matches Some(ring) && ring.took(
                &rb,
                event_record(a),
            ) && locked_ring::told(&rb, &ring, notify)
        },
    }
}

/// Reports an event with the address `a`; says whom to call.
pub fn report_event(module: &mut NetworkModule, a: &DivertAddress) -> (notify: Option<Notify>)
    requires
        old(module).wf(),
        old(module).network_ctx.metrics.received < u64::MAX,
    ensures
        final(module).wf(),
        event_reported(*old(module), *final(module), *a, notify),
{
    match module.network_ctx.ale_ring_buffer.take() {
        None => None,
        Some(mut rb) => {
            let header = RecordHeader { len: 80, ty: 0 };
            let bytes: Vec<u8> = records::encode_address(a);
            proof {
                records::law_address_round_trip(*a);
            }
            let r = rb.push_record(&header, &bytes);
            module.network_ctx.ale_ring_buffer = Some(rb);
            match r {
                Ok(n) => {
                    module.network_ctx.metrics_inc_received();
                    n
                },
                Err(_) => {
                    module.network_ctx.metrics_inc_dropped();
                    None
                },
            }
        },
    }
}

/// `a` is the address of an established connection. `event` stands for that event.
pub open spec fn is_flow_address(a: DivertAddress, parsed: ParsedConnection, event: u8) -> bool {
    address::is_address_of(
        a,
        address::address_flags(0, event, !parsed.inbound, !parsed.ipv4),
        address::event_data(parsed.process_id, FLOW_LAYER, 0),
    )
}

/// Reports an established connection; says whom to call.
pub fn process_flow_data(module: &mut NetworkModule, parsed: &ParsedConnection, event: u8) -> (notify:
    Option<Notify>)
    requires
        old(module).wf(),
        old(module).network_ctx.metrics.received < u64::MAX,
    ensures
        final(module).wf(),
        exists|a: DivertAddress| #[trigger]
            is_flow_address(a, *parsed, event) && event_reported(
                *old(module),
                *final(module),
                a,
                notify,
            ),
{
    let a: DivertAddress = address::flow_address(
        parsed.process_id,
        FLOW_LAYER,
        false,
        event,
        !parsed.inbound,
        !parsed.ipv4,
    );
    let notify: Option<Notify> = report_event(module, &a);
    assert(is_flow_address(a, *parsed, event));
    notify
}

/// Reports an established connection and permits it; says whom to call.
pub fn classify_flow(module: &mut NetworkModule, parsed: &ParsedConnection, event: u8) -> (r: (
    ClassifyOut,
    Option<Notify>,
))
    requires
        old(module).wf(),
        old(module).network_ctx.metrics.received < u64::MAX,
    ensures
        final(module).wf(),
        r.0 == callouts::answer(ClassifyAction::Permit),
        exists|a: DivertAddress| #[trigger]
            is_flow_address(a, *parsed, event) && event_reported(
                *old(module),
                *final(module),
                a,
                r.1,
            ),
{
    let notify: Option<Notify> = process_flow_data(module, parsed, event);
    (ClassifyOut::with(ClassifyAction::Permit), notify)
}

/// The address of an established connection that is reported names its direction, its version of
/// IP, the event and the process.
pub proof fn law_reported_flow(a: DivertAddress, parsed: ParsedConnection, event: u8)
    requires
        is_flow_address(a, parsed, event),
    ensures
        ({
            let b = a.data.bytes();
            &&& a.flags % 0x100 == 0
            &&& a.flags / 0x100 % 0x100 == event
            &&& (a.flags / 0x2_0000 % 2 == 1) == !parsed.inbound
            &&& (a.flags / 0x10_0000 % 2 == 1) == !parsed.ipv4
            &&& b[8] + 0x100 * b[9] + 0x1_0000 * b[10] + 0x100_0000 * b[11] == parsed.process_id
            &&& b[16] == 2
            &&& b[17] == 0
        }),
{
    address::law_flags_read_back(0, event, !parsed.inbound, !parsed.ipv4);
    address::law_event_data_reads_back(parsed.process_id, FLOW_LAYER, 0);
}

/// A connection that is established counts as inbound, of the version of IP that the layer stands
/// for, and it is that of the process that the platform reports. Other layers report none.
pub proof fn law_flow_connection_is_read(
    layers: ConnectionLayers,
    layer_id: u16,
    values: Seq<WfpValue>,
    present: u32,
    id: u32,
    process_field: u32,
    r: Option<ParsedConnection>,
)
    requires
        layers.v4.layer_id != layers.v6.layer_id,
        flow_read(layers, layer_id, values, Some((present, id as u64)), process_field, r),
    ensures
        r is Some <==> layer_id == layers.v4.layer_id || layer_id == layers.v6.layer_id,
        r matches Some(p) ==> p.inbound && p.ipv4 == (layer_id == layers.v4.layer_id)
            && p.layer_id == layer_id,
        r matches Some(p) ==> (present & process_field != 0 ==> p.process_id == id) && (present
            & process_field == 0 ==> p.process_id == 0),
{
}

} // verus!
