//! The socket layer: connections are reported, and blocked, before they are made.
use vstd::prelude::*;
use crate::network::address;
use crate::network::bpf;
use crate::network::bpf::{BpfContext, BpfInsn};
use crate::network::callout_flow;
use crate::network::callouts;
use crate::network::callouts::{
    ClassifyAction, ClassifyOut, ConnectionLayers, ParsedConnection, WfpValue,
};
use crate::network::context::{Metrics, NetworkContext};
use crate::network::module::NetworkModule;
use crate::ringbuffer::per_cpu_ring::Notify;
use crate::types::DivertAddress;

verus! {

/// Number of the socket layer in an address.
pub const SOCKET_LAYER: u8 = 3;

/// `r` is what the socket layer reports about a connection, if the layer is one of its own.
pub open spec fn socket_read(
    layers: ConnectionLayers,
    layer_id: u16,
    values: Seq<WfpValue>,
    meta: Option<(u32, u64)>,
    process_field: u32,
    r: Option<ParsedConnection>,
) -> bool {
    callouts::connection_read(
        layers,
        layer_id,
        values,
        false,
        callouts::spec_process_id(meta, process_field),
        r,
    )
}

/// Reads what the socket layer reports about a connection that is about to be made.
pub fn parse_incoming_values_socket(
    layers: &ConnectionLayers,
    layer_id: u16,
    values: &Vec<WfpValue>,
    meta: Option<(u32, u64)>,
    process_field: u32,
) -> (r: Option<ParsedConnection>)
    requires
        layer_id == layers.v4.layer_id ==> callouts::fields_present(layers.v4, true, values@),
        layer_id == layers.v6.layer_id && layer_id != layers.v4.layer_id
            ==> callouts::fields_present(layers.v6, false, values@),
    ensures
        socket_read(*layers, layer_id, values@, meta, process_field, r),
{
    let process_id: u32 = callouts::process_id_of(meta, process_field);
    callouts::parse_connection(layers, layer_id, values, false, process_id)
}

/// `a` is the address that the filter sees of a connection.
pub open spec fn is_filtered_address(a: DivertAddress, parsed: ParsedConnection) -> bool {
    address::is_address_of(
        a,
        address::address_flags(SOCKET_LAYER, 0, !parsed.inbound, !parsed.ipv4),
        address::event_data(parsed.process_id, SOCKET_LAYER, 0),
    )
}

/// Whether the filter accepts a connection. There are no packet bytes for it to look at.
pub open spec fn accepts(program: Seq<BpfInsn>, parsed: ParsedConnection) -> bool {
    program.len() == 0 || exists|a: DivertAddress| #[trigger]
        is_filtered_address(a, parsed) && bpf::verdict(
            program,
            bpf::Input { packet: Seq::empty(), address: a },
        ) != 0
}

/// Whether the filter accepts a connection.
pub fn filter_socket(program: &Vec<BpfInsn>, parsed: &ParsedConnection) -> (b: bool)
    ensures
        b == accepts(program@, *parsed),
{
    if program.len() == 0 {
        return true;
    }
    let a: DivertAddress = address::socket_address(
        parsed.process_id,
        SOCKET_LAYER,
        false,
        0,
        !parsed.inbound,
        !parsed.ipv4,
    );
    let nothing: Vec<u8> = Vec::new();
    let ctx = BpfContext { packet: nothing.as_slice(), address: &a };
    proof {
        assert(is_filtered_address(a, *parsed));
        assert(ctx@.packet =~= Seq::empty());
        assert forall|c: DivertAddress| #[trigger] is_filtered_address(c, *parsed) implies c
            == a by {
            address::lemma_address_unique(c, a);
        }
    }
    bpf::bpf_run_filter(program.as_slice(), &ctx) != 0
}

/// `a` is the address of a connection that was blocked or not. `event` stands for a connection
/// that is about to be made.
pub open spec fn is_socket_address(
    a: DivertAddress,
    parsed: ParsedConnection,
    blocked: bool,
    event: u8,
) -> bool {
    address::is_address_of(
        a,
        address::address_flags(SOCKET_LAYER, event, true, !parsed.ipv4),
        address::event_data(
            parsed.process_id,
            SOCKET_LAYER,
            if blocked {
                1
            } else {
                0
            },
        ),
    )
}

/// Reports a connection that is about to be made; says whom to call.
pub fn process_socket_data(
    module: &mut NetworkModule,
    parsed: &ParsedConnection,
    blocked: bool,
    event: u8,
) -> (notify: Option<Notify>)
    requires
        old(module).wf(),
        old(module).network_ctx.metrics.received < u64::MAX,
    ensures
        final(module).wf(),
        exists|a: DivertAddress| #[trigger]
            is_socket_address(a, *parsed, blocked, event) && callout_flow::event_reported(
                *old(module),
                *final(module),
                a,
                notify,
            ),
{
    let a: DivertAddress = address::socket_address(
        parsed.process_id,
        SOCKET_LAYER,
        blocked,
        event,
        true,
        !parsed.ipv4,
    );
    let notify: Option<Notify> = callout_flow::report_event(module, &a);
    assert(is_socket_address(a, *parsed, blocked, event));
    notify
}

/// A network module that counts one more packet as dropped.
pub open spec fn dropped_one(m: NetworkModule) -> NetworkModule {
    NetworkModule {
        network_ctx: NetworkContext {
            metrics: Metrics {
                dropped: (m.network_ctx.metrics.dropped + 1) as u64,
                ..m.network_ctx.metrics
            },
            ..m.network_ctx
        },
        ..m
    }
}

/// What a connection that is about to be made does to a network module, and what becomes of it: it
/// is blocked if the filter accepts it, unless the handle only looks on.
pub open spec fn socket_classified(
    before: NetworkModule,
    after: NetworkModule,
    parsed: ParsedConnection,
    event: u8,
    out: ClassifyOut,
    notify: Option<Notify>,
) -> bool {
    let blocked = !before.network_ctx.packet_read_only && accepts(before.bpf_program@, parsed);
    &&& out == (if blocked {
        ClassifyOut { action: Some(ClassifyAction::Block), absorb: false, clear_write: true }
    } else {
        callouts::answer(ClassifyAction::Permit)
    })
    &&& exists|a: DivertAddress, mid: NetworkModule|
        {
            &&& is_socket_address(a, parsed, blocked, event)
            &&& #[trigger] callout_flow::event_reported(before, mid, a, notify)
            &&& after == (if blocked {
                dropped_one(mid)
            } else {
                mid
            })
        }
}

/// Reports a connection that is about to be made, and blocks or permits it; says whom to call.
pub fn classify_socket(module: &mut NetworkModule, parsed: &ParsedConnection, event: u8) -> (r: (
    ClassifyOut,
    Option<Notify>,
))
    requires
        old(module).wf(),
        old(module).network_ctx.metrics.received < u64::MAX,
        old(module).network_ctx.metrics.dropped < u64::MAX,
    ensures
        final(module).wf(),
        socket_classified(*old(module), *final(module), *parsed, event, r.0, r.1),
{
    let pass: bool = filter_socket(&module.bpf_program, parsed);
    let blocked: bool = !module.network_ctx.packet_read_only && pass;
    let notify: Option<Notify> = process_socket_data(module, parsed, blocked, event);
    let ghost mid = *module;
    proof {
        let a = choose|a: DivertAddress| #[trigger]
            is_socket_address(a, *parsed, blocked, event) && callout_flow::event_reported(
                *old(module),
                mid,
                a,
                notify,
            );
        assert(callout_flow::event_reported(*old(module), mid, a, notify));
    }
    let out: ClassifyOut = if blocked {
        module.network_ctx.metrics_inc_dropped();
        ClassifyOut { action: Some(ClassifyAction::Block), absorb: false, clear_write: true }
    } else {
        ClassifyOut::with(ClassifyAction::Permit)
    };
    assert(socket_classified(*old(module), *module, *parsed, event, out, notify));
    (out, notify)
}

/// A filter sees the direction, the process and the layer of a connection, and no packet: where two
/// connections agree in these and in the version of IP, it accepts both or neither.
pub proof fn law_filter_sees_connection(
    program: Seq<BpfInsn>,
    parsed: ParsedConnection,
    a: DivertAddress,
)
    requires
        a.timestamp == 0,
        a.reserved2 == 0,
        a.flags == 3 + (if parsed.inbound {
            0int
        } else {
            0x2_0000
        }) + (if parsed.ipv4 {
            0int
        } else {
            0x10_0000
        }),
        a.data.bytes() == address::event_data(parsed.process_id, 3, 0),
    ensures
        accepts(program, parsed) == (bpf::verdict(
            program,
            bpf::Input { packet: Seq::empty(), address: a },
        ) != 0),
{
    assert(is_filtered_address(a, parsed));
    assert forall|c: DivertAddress| #[trigger] is_filtered_address(c, parsed) implies c == a by {
        address::lemma_address_unique(c, a);
    }
}

/// A connection is blocked exactly if the handle does more than look on and the filter accepts it;
/// else it is permitted. A blocked one counts as dropped, and no other one does.
pub proof fn law_connection_is_blocked(
    before: NetworkModule,
    after: NetworkModule,
    parsed: ParsedConnection,
    event: u8,
    out: ClassifyOut,
    notify: Option<Notify>,
)
    requires
        socket_classified(before, after, parsed, event, out, notify),
        before.network_ctx.metrics.dropped < u64::MAX,
    ensures
        before.network_ctx.packet_read_only ==> out.action == Some(ClassifyAction::Permit),
        !accepts(before.bpf_program@, parsed) ==> out.action == Some(ClassifyAction::Permit),
        !before.network_ctx.packet_read_only && accepts(before.bpf_program@, parsed) ==> out.action
            == Some(ClassifyAction::Block) && out.clear_write,
        out.action == Some(ClassifyAction::Block) ==> after.network_ctx.metrics.dropped
            == before.network_ctx.metrics.dropped + 1,
        out.action != Some(ClassifyAction::Block) ==> after.network_ctx.metrics.dropped
            == before.network_ctx.metrics.dropped,
        after.bpf_program@ == before.bpf_program@,
        after.network_ctx.packet_read_only == before.network_ctx.packet_read_only,
{
}

/// The address of a connection that is reported says that it is outbound, whether it was blocked,
/// and whose it is.
pub proof fn law_reported_connection(
    a: DivertAddress,
    parsed: ParsedConnection,
    blocked: bool,
    event: u8,
)
    requires
        is_socket_address(a, parsed, blocked, event),
    ensures
        ({
            let b = a.data.bytes();
            &&& a.flags % 0x100 == 3
            &&& a.flags / 0x100 % 0x100 == event
            &&& a.flags / 0x2_0000 % 2 == 1
            &&& (a.flags / 0x10_0000 % 2 == 1) == !parsed.ipv4
            &&& b[8] + 0x100 * b[9] + 0x1_0000 * b[10] + 0x100_0000 * b[11] == parsed.process_id
            &&& b[16] == 3
            &&& (b[17] == 1) == blocked
        }),
{
    address::law_flags_read_back(SOCKET_LAYER, event, true, !parsed.ipv4);
    address::law_event_data_reads_back(
        parsed.process_id,
        SOCKET_LAYER,
        if blocked {
            1
        } else {
            0
        },
    );
}

/// A connection that is about to be made is an outbound one, of the version of IP that the layer
/// stands for, and it is that of the process that the platform reports. Other layers report none.
pub proof fn law_socket_connection_is_read(
    layers: ConnectionLayers,
    layer_id: u16,
    values: Seq<WfpValue>,
    present: u32,
    id: u32,
    process_field: u32,
    r: Option<ParsedConnection>,
)
    requires
        layers.v4.layer_id != layers.v6.layer_id,
        socket_read(layers, layer_id, values, Some((present, id as u64)), process_field, r),
    ensures
        r is Some <==> layer_id == layers.v4.layer_id || layer_id == layers.v6.layer_id,
        r matches Some(p) ==> !p.inbound && p.ipv4 == (layer_id == layers.v4.layer_id)
            && p.layer_id == layer_id,
        r matches Some(p) ==> (present & process_field != 0 ==> p.process_id == id) && (present
            & process_field == 0 ==> p.process_id == 0),
{
}

} // verus!
