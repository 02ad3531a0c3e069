//! The stream layer: TCP data are reported and let through.
use vstd::prelude::*;
use crate::network::address;
use crate::network::callouts;
use crate::network::callouts::{ClassifyAction, ClassifyOut};
use crate::network::context::{Metrics, NetworkContext};
use crate::network::module::NetworkModule;
use crate::ringbuffer::per_cpu_ring::{Notify, Piece};
use crate::ringbuffer::report;
use crate::status::{nt_success, STATUS_INSUFFICIENT_RESOURCES, STATUS_INVALID_DEVICE_REQUEST};
use crate::types::DivertAddress;

verus! {

/// Number of the stream layer in an address.
pub const STREAM_LAYER: u8 = 6;

/// Injection into TCP streams: the handle, or 0, and the numbers of the callouts, or 0.
#[derive(Clone, Copy, Debug, PartialEq, Eq, Structural)]
pub struct StreamLayer {
    pub inject_handle_stream: u64,
    pub stream_callout_id_v4: u32,
    pub stream_callout_id_v6: u32,
}

/// How data are injected into a stream. The completion function has to be run if that fails.
#[derive(Clone, Copy, Debug, PartialEq, Eq, Structural)]
pub struct StreamInject {
    pub handle: u64,
    pub flow_id: u64,
    pub callout_id: u32,
    pub ipv6: bool,
    /// The data are as if they had been received, and not as if they were being sent.
    pub receive: bool,
    pub len: usize,
}

impl StreamLayer {
    /// The layer, if making its handle succeeded.
    pub fn initialize(status: i32, handle: u64) -> (r: Result<StreamLayer, i32>)
        ensures
            r == (if status >= 0 {
                Ok::<StreamLayer, i32>(
                    StreamLayer {
                        inject_handle_stream: handle,
                        stream_callout_id_v4: 0,
                        stream_callout_id_v6: 0,
                    },
                )
            } else {
                Err(status)
            }),
    {
        if !nt_success(status) {
            return Err(status);
        }
        Ok(
            StreamLayer {
                inject_handle_stream: handle,
                stream_callout_id_v4: 0,
                stream_callout_id_v6: 0,
            },
        )
    }

    pub open spec fn spec_callout(&self, ipv6: bool) -> u32 {
        if ipv6 {
            self.stream_callout_id_v6
        } else {
            self.stream_callout_id_v4
        }
    }

    /// How data are to be injected.
    pub open spec fn injection(
        &self,
        flow_id: u64,
        is_ipv6: bool,
        is_inbound: bool,
        nbl: u64,
        packet_len: usize,
    ) -> Result<StreamInject, i32> {
        if nbl == 0 {
            Err(STATUS_INSUFFICIENT_RESOURCES)
        } else if self.inject_handle_stream == 0 || self.spec_callout(is_ipv6) == 0 {
            Err(STATUS_INVALID_DEVICE_REQUEST)
        } else {
            Ok(
                StreamInject {
                    handle: self.inject_handle_stream,
                    flow_id,
                    callout_id: self.spec_callout(is_ipv6),
                    ipv6: is_ipv6,
                    receive: is_inbound,
                    len: packet_len,
                },
            )
        }
    }

    /// Says how data are to be injected. `nbl` holds the data, or is 0.
    pub fn inject(
        &self,
        flow_id: u64,
        is_ipv6: bool,
        is_inbound: bool,
        nbl: u64,
        packet_len: usize,
    ) -> (r: Result<StreamInject, i32>)
        ensures
            r == self.injection(flow_id, is_ipv6, is_inbound, nbl, packet_len),
    {
        if nbl == 0 {
            return Err(STATUS_INSUFFICIENT_RESOURCES);
        }
        let callout_id: u32 = if is_ipv6 {
            self.stream_callout_id_v6
        } else {
            self.stream_callout_id_v4
        };
        if self.inject_handle_stream == 0 {
            return Err(STATUS_INVALID_DEVICE_REQUEST);
        }
        if callout_id == 0 {
            return Err(STATUS_INVALID_DEVICE_REQUEST);
        }
        Ok(
            StreamInject {
                handle: self.inject_handle_stream,
                flow_id,
                callout_id,
                ipv6: is_ipv6,
                receive: is_inbound,
                len: packet_len,
            },
        )
    }
}

/// Which stream layer data belong to.
#[derive(Clone, Copy, Debug, PartialEq, Eq, Structural)]
pub struct ParsedIncomingValues {
    pub ipv4: bool,
    pub inbound: bool,
    pub layer_id: u16,
}

/// Number of a layer of the filtering platform, and where among the values that it reports the
/// direction stands.
#[derive(Clone, Copy, Debug, PartialEq, Eq, Structural)]
pub struct StreamFields {
    pub layer_id: u16,
    pub direction: usize,
}

/// The layers of the filtering platform that make up the stream layer, and what stands for the
/// inbound direction.
#[derive(Clone, Copy, Debug, PartialEq, Eq, Structural)]
pub struct StreamLayers {
    pub v4: StreamFields,
    pub v6: StreamFields,
    pub direction_inbound: u32,
}

/// What the stream layer reports about data.
pub open spec fn stream_parsed(layers: StreamLayers, layer_id: u16, values: Seq<u32>) -> Option<
    ParsedIncomingValues,
> {
    if layer_id == layers.v4.layer_id {
        Some(
            ParsedIncomingValues {
                ipv4: true,
                inbound: values[layers.v4.direction as int] == layers.direction_inbound,
                layer_id,
            },
        )
    } else if layer_id == layers.v6.layer_id {
        Some(
            ParsedIncomingValues {
                ipv4: false,
                inbound: values[layers.v6.direction as int] == layers.direction_inbound,
                layer_id,
            },
        )
    } else {
        None
    }
}

/// Reads what the stream layer reports about data.
pub fn parse_incoming_values_stream(layers: &StreamLayers, layer_id: u16, values: &Vec<u32>) -> (r:
    Option<ParsedIncomingValues>)
    requires
        layer_id == layers.v4.layer_id ==> layers.v4.direction < values@.len(),
        layer_id == layers.v6.layer_id ==> layers.v6.direction < values@.len(),
    ensures
        r == stream_parsed(*layers, layer_id, values@),
{
    let (ipv4, direction): (bool, usize) = if layer_id == layers.v4.layer_id {
        (true, layers.v4.direction)
    } else if layer_id == layers.v6.layer_id {
        (false, layers.v6.direction)
    } else {
        return None;
    };
    Some(
        ParsedIncomingValues {
            ipv4,
            inbound: values[direction] == layers.direction_inbound,
            layer_id,
        },
    )
}

/// Data on a TCP stream.
pub struct StreamData {
    /// How many bytes there are.
    pub data_len: usize,
    /// Those of them that could be copied, from the first on.
    pub copied: Vec<u8>,
    /// The data were received, and are not being sent.
    pub receive: bool,
}

impl StreamData {
    pub open spec fn wf(&self) -> bool {
        self.copied@.len() <= self.data_len && self.data_len + 88 <= usize::MAX
    }

    /// The data as they are reported: zeros stand for what could not be copied.
    pub open spec fn padded(&self) -> Seq<u8> {
        self.copied@ + Seq::new((self.data_len - self.copied@.len()) as nat, |i: int| 0u8)
    }
}

/// `a` is the address of stream data of a process.
pub open spec fn is_stream_address(
    a: DivertAddress,
    process_id: u32,
    outbound: bool,
    ipv6: bool,
) -> bool {
    address::is_address_of(
        a,
        address::address_flags(STREAM_LAYER, 0, outbound, ipv6),
        address::event_data(process_id, STREAM_LAYER, 0),
    )
}

/// What data on a stream do to a network module, how many of them count as processed, and whom to
/// call because of them. No data are not processed at all.
pub open spec fn stream_processed(
    before: NetworkModule,
    after: NetworkModule,
    data: StreamData,
    process_id: u32,
    ipv4: bool,
    cpu: u32,
    enforced: Option<usize>,
    notify: Option<Notify>,
) -> bool {
    match before.network_ctx.ring_buffer {
        Some(rb) if data.data_len > 0 => {
            &&& after == (NetworkModule {
                network_ctx: NetworkContext {
                    ring_buffer: after.network_ctx.ring_buffer,
                    metrics: Metrics {
                        dropped: after.network_ctx.metrics.dropped,
                        ..before.network_ctx.metrics
                    },
                    ..before.network_ctx
                },
                ..before
            })
            &&& after.network_ctx.ring_buffer is Some
            &&& exists|a: DivertAddress, r: Result<Option<Notify>, i32>|
                {
                    &&& is_stream_address(a, process_id, !data.receive, !ipv4)
                    &&& #[trigger] report::packet_pushed(
                        rb,
                        after.network_ctx.ring_buffer->0,
                        cpu,
                        a,
                        (data.padded(), true),
                        data.data_len as nat,
                        r,
                    )
                    &&& match r {
                        Ok(n) => notify == n && enforced == Some(data.copied@.len() as usize)
                            && after.network_ctx.metrics.dropped
                            == before.network_ctx.metrics.dropped,
                        Err(_) => notify is None && enforced == Some(0usize)
                            && after.network_ctx.metrics.dropped
                            == before.network_ctx.metrics.dropped + 1,
                    }
                }
        },
        _ => {
            &&& after == before
            &&& notify is None
            &&& enforced == (if data.data_len > 0 {
                Some(0usize)
            } else {
                None
            })
        },
    }
}

/// Reports data on a stream. The result says how many bytes count as processed, and whom to call.
pub fn process_stream_data(
    module: &mut NetworkModule,
    data: StreamData,
    process_id: u32,
    parsed: &ParsedIncomingValues,
    cpu: u32,
) -> (r: (Option<usize>, Option<Notify>))
    requires
        old(module).wf(),
        data.wf(),
        old(module).network_ctx.metrics.dropped < u64::MAX,
    ensures
        final(module).wf(),
        final(module).network_ctx.metrics.received == old(module).network_ctx.metrics.received,
        stream_processed(
            *old(module),
            *final(module),
            data,
            process_id,
            parsed.ipv4,
            cpu,
            r.0,
            r.1,
        ),
{
    if data.data_len == 0 {
        return (None, None);
    }
    let copied_len: usize = data.copied.len();
    match module.network_ctx.ring_buffer.take() {
        None => (Some(0), None),
        Some(mut rb) => {
            let a: DivertAddress = address::flow_address(
                process_id,
                STREAM_LAYER,
                true,
                0,
                !data.receive,
                !parsed.ipv4,
            );
            let ghost before = rb;
            let mut body: Vec<u8> = data.copied;
            let mut i: usize = copied_len;
            while i < data.data_len
                invariant
                    copied_len <= i <= data.data_len,
                    copied_len == data.copied@.len(),
                    body@ == data.copied@ + Seq::new((i - copied_len) as nat, |j: int| 0u8),
                decreases data.data_len - i,
            {
                body.push(0);
                i += 1;
                assert(body@ =~= data.copied@ + Seq::new((i - copied_len) as nat, |j: int| 0u8));
            }
            assert(body@ =~= data.padded());
            let r = report::push_packet(&mut rb, cpu, &a, Piece::Slice(body), data.data_len);
            assert(is_stream_address(a, process_id, !data.receive, !parsed.ipv4));
            assert(report::packet_pushed(
                before,
                rb,
                cpu,
                a,
                (data.padded(), true),
                data.data_len as nat,
                r,
            ));
            module.network_ctx.ring_buffer = Some(rb);
            match r {
                Ok(n) => (Some(copied_len), n),
                Err(e) => {
                    if e == STATUS_INSUFFICIENT_RESOURCES {
                        module.network_ctx.metrics_inc_dropped();
                    }
                    (Some(0), None)
                },
            }
        },
    }
}

/// Reports data on a stream and lets them through. The result also says how many bytes count as
/// processed, and whom to call.
pub fn classify_stream(
    module: &mut NetworkModule,
    data: StreamData,
    process_id: u32,
    parsed: &ParsedIncomingValues,
    cpu: u32,
) -> (r: (ClassifyOut, Option<usize>, Option<Notify>))
    requires
        old(module).wf(),
        data.wf(),
        old(module).network_ctx.metrics.dropped < u64::MAX,
        old(module).network_ctx.metrics.received < u64::MAX,
    ensures
        final(module).wf(),
        r.0 == callouts::answer(ClassifyAction::Continue),
        final(module).network_ctx.metrics.received == old(module).network_ctx.metrics.received + 1,
        stream_processed(
            *old(module),
            NetworkModule {
                network_ctx: NetworkContext {
                    metrics: Metrics {
                        received: old(module).network_ctx.metrics.received,
                        ..final(module).network_ctx.metrics
                    },
                    ..final(module).network_ctx
                },
                ..*final(module)
            },
            data,
            process_id,
            parsed.ipv4,
            cpu,
            r.1,
            r.2,
        ),
{
    let (enforced, notify) = process_stream_data(module, data, process_id, parsed, cpu);
    let ghost mid = *module;
    module.network_ctx.metrics_inc_received();
    assert(mid == (NetworkModule {
        network_ctx: NetworkContext {
            metrics: Metrics {
                received: old(module).network_ctx.metrics.received,
                ..module.network_ctx.metrics
            },
            ..module.network_ctx
        },
        ..*module
    }));
    (ClassifyOut::with(ClassifyAction::Continue), enforced, notify)
}

/// Lets data on a stream through where the handle has no network module: none of them count as
/// processed.
pub fn classify_stream_unattached(data_len: usize) -> (r: (ClassifyOut, Option<usize>))
    ensures
        r.0 == callouts::answer(ClassifyAction::Continue),
        r.1 == (if data_len > 0 {
            Some(0usize)
        } else {
            None
        }),
{
    let enforced: Option<usize> = if data_len > 0 {
        Some(0)
    } else {
        None
    };
    (ClassifyOut::with(ClassifyAction::Continue), enforced)
}

/// The address of stream data names the stream layer, the direction, the version of IP and the
/// process.
pub proof fn law_reported_stream(a: DivertAddress, process_id: u32, outbound: bool, ipv6: bool)
    requires
        is_stream_address(a, process_id, outbound, ipv6),
    ensures
        ({
            let b = a.data.bytes();
            &&& a.flags % 0x1_0000 == 6
            &&& (a.flags / 0x2_0000 % 2 == 1) == outbound
            &&& (a.flags / 0x10_0000 % 2 == 1) == ipv6
            &&& b[8] + 0x100 * b[9] + 0x1_0000 * b[10] + 0x100_0000 * b[11] == process_id
            &&& b[16] == 6
            &&& b[17] == 0
        }),
{
    address::law_flags_read_back(STREAM_LAYER, 0, outbound, ipv6);
    address::law_event_data_reads_back(process_id, STREAM_LAYER, 0);
}

/// What is reported of data on a stream starts with those that could be copied, and is as long as
/// the data are. Of them the copied ones count as processed, or none; of no data, nothing is said.
pub proof fn law_stream_data_are_reported(
    before: NetworkModule,
    after: NetworkModule,
    data: StreamData,
    process_id: u32,
    ipv4: bool,
    cpu: u32,
    enforced: Option<usize>,
    notify: Option<Notify>,
)
    requires
        data.wf(),
        stream_processed(before, after, data, process_id, ipv4, cpu, enforced, notify),
    ensures
        data.padded().len() == data.data_len,
        data.padded().take(data.copied@.len() as int) == data.copied@,
        enforced is None <==> data.data_len == 0,
        enforced matches Some(n) ==> n == 0 || n == data.copied@.len(),
        after.network_ctx.metrics.dropped > before.network_ctx.metrics.dropped ==> enforced
            == Some(0usize) && notify is None,
        before.network_ctx.ring_buffer is None ==> after == before && notify is None,
        after.bpf_program@ == before.bpf_program@,
{
    assert(data.padded().take(data.copied@.len() as int) =~= data.copied@);
}

/// Data go back into their own stream, in their own direction, with the callout of their version of
/// IP. Without a list for them, a handle or that callout, they do not.
pub proof fn law_data_go_back_into_their_stream(
    l: StreamLayer,
    flow_id: u64,
    ipv6: bool,
    inbound: bool,
    nbl: u64,
    len: usize,
)
    ensures
        match l.injection(flow_id, ipv6, inbound, nbl, len) {
            Ok(i) => {
                &&& nbl != 0
                &&& i.handle == l.inject_handle_stream
                &&& i.handle != 0
                &&& i.flow_id == flow_id
                &&& i.ipv6 == ipv6
                &&& i.receive == inbound
                &&& i.len == len
                &&& ipv6 ==> i.callout_id == l.stream_callout_id_v6
                &&& !ipv6 ==> i.callout_id == l.stream_callout_id_v4
                &&& i.callout_id != 0
            },
            Err(e) => e < 0 && (nbl == 0 || l.inject_handle_stream == 0 || (ipv6
                && l.stream_callout_id_v6 == 0) || (!ipv6 && l.stream_callout_id_v4 == 0)),
        },
{
}

/// Data are of the version of IP that the layer stands for, and inbound exactly if the layer
/// reports so. Other layers report none.
pub proof fn law_stream_data_are_read(layers: StreamLayers, layer_id: u16, values: Seq<u32>)
    requires
        layers.v4.layer_id != layers.v6.layer_id,
    ensures
        match stream_parsed(layers, layer_id, values) {
            Some(p) => {
                &&& p.ipv4 ==> layer_id == layers.v4.layer_id
                &&& !p.ipv4 ==> layer_id == layers.v6.layer_id
                &&& p.inbound && p.ipv4 ==> values[layers.v4.direction as int]
                    == layers.direction_inbound
                &&& !p.inbound && p.ipv4 ==> values[layers.v4.direction as int]
                    != layers.direction_inbound
                &&& p.inbound && !p.ipv4 ==> values[layers.v6.direction as int]
                    == layers.direction_inbound
                &&& !p.inbound && !p.ipv4 ==> values[layers.v6.direction as int]
                    != layers.direction_inbound
            },
            None => layer_id != layers.v4.layer_id && layer_id != layers.v6.layer_id,
        },
{
}

} // verus!
