use fastdivert::bpf_compiler::compile_bpf;
use fastdivert::network::address::{flow_address, packet_address, socket_address};
use fastdivert::network::bpf::BpfInsn;
use fastdivert::network::callout_flow::{
    classify_flow, parse_incoming_values_flow, process_flow_data, FLOW_LAYER,
};
use fastdivert::network::callout_socket::{
    classify_socket, filter_socket, parse_incoming_values_socket, process_socket_data,
};
use fastdivert::network::callout_stream::{
    self, classify_stream, classify_stream_unattached, parse_incoming_values_stream,
    process_stream_data, StreamData, StreamFields, StreamInject, StreamLayer, StreamLayers,
};
use fastdivert::network::callout_transport::{
    self, classify_transport, filter_packet, ip_header_size, parse_incoming_values_transport,
    process_net_buffer_list, IncomingValues, NetBuffer, TransportFields, TransportInject,
    TransportLayer, TransportLayers, TransportSetup,
};
use fastdivert::network::callouts::{
    begin_classify, metadata_field, process_id_of, ClassifyAction, ClassifyOut, ConnectionFields,
    ConnectionLayers, ParsedConnection, WfpValue,
};
use fastdivert::network::context::{
    get_handle_kind, ForwardLayer, HandleKind, Metrics, NetworkContext, NetworkLayer, WfpLayer,
};
use fastdivert::network::guids::{guid_from_str, provider_guid, Guid};
use fastdivert::network::inject::{
    allocate_nbl_from_mdl, injection_completion_fn, CompletionStep, UserInjectionCompletionContext,
};
use fastdivert::network::module::{next_pending, NetworkModule};
use fastdivert::network::send::{SendAction, SendEvent, SendRequest, SendStage};
use fastdivert::network::wfp_init::{
    get_callout_kind, get_platform_layers, initialize_ndis_pools, uninit_wfp, CalloutKind,
    PlatformLayer, WfpAction, WfpCleanup, WfpEvent, WfpInit, STATUS_FWP_ALREADY_EXISTS,
};
use fastdivert::ringbuffer::data::MdlSegment;
use fastdivert::ringbuffer::per_cpu_ring::Notify;
use fastdivert::ringbuffer::records::{decode_address, encode_address};
use fastdivert::ringbuffer::scan::scan_packet;
use fastdivert::status::{
    STATUS_BUFFER_TOO_SMALL, STATUS_INSUFFICIENT_RESOURCES, STATUS_INVALID_DEVICE_REQUEST,
    STATUS_PENDING, STATUS_SUCCESS,
};
use fastdivert::types::{
    DivertAddress, DivertAddressData, DivertDataFlow, DivertDataReflect, LAYER_FLOW, LAYER_NETWORK,
    LAYER_NETWORK_FORWARD, LAYER_REFLECT, LAYER_SOCKET, LAYER_STREAM, LAYER_TRANSPORT,
};

fn transport() -> TransportLayer {
    TransportLayer {
        inject_handle_in_v4: 1,
        inject_handle_out_v4: 2,
        inject_handle_in_v6: 3,
        inject_handle_out_v6: 4,
    }
}

fn module(layer: u32, made: WfpLayer) -> NetworkModule {
    match NetworkModule::new(layer, 1, Ok(made)) {
        Ok(m) => m,
        Err(e) => panic!("{}", e),
    }
}

fn segment(bytes: &[u8]) -> MdlSegment {
    MdlSegment { byte_count: bytes.len(), bytes: Some(bytes.to_vec()) }
}

fn buffer(parts: &[&[u8]], offset: usize, data_length: u32) -> NetBuffer {
    NetBuffer { chain: parts.iter().map(|p| segment(p)).collect(), offset, data_length }
}

fn inbound(ipv4: bool) -> callout_transport::ParsedIncomingValues {
    callout_transport::ParsedIncomingValues {
        ipv4,
        inbound: true,
        layer_id: 12,
        ifindex: 5,
        sub_ifindex: 6,
    }
}

fn connection() -> ParsedConnection {
    ParsedConnection {
        ipv4: false,
        inbound: false,
        layer_id: 8,
        process_id: 0x1122,
        remote_addr: [0; 16],
        remote_port: 80,
        local_addr: [0; 16],
        local_port: 1234,
        protocol: 6,
    }
}

fn guid(n: u32) -> Guid {
    Guid { data1: n, data2: 0, data3: 0, data4: [0; 8] }
}

fn accept_all() -> Vec<BpfInsn> {
    vec![BpfInsn { code: 6, jt: 0, jf: 0, k: 1 }]
}

fn reject_all() -> Vec<BpfInsn> {
    vec![BpfInsn { code: 6, jt: 0, jf: 0, k: 0 }]
}

/// The first packet in the rings of a module.
fn first_packet(m: &NetworkModule) -> Option<(DivertAddress, Vec<u8>)> {
    let ring = &m.network_ctx.ring_buffer.as_ref().unwrap().rb_datas[0];
    let found = scan_packet(&ring.buf, ring.head, ring.tail);
    found.packet.map(|p| (p.address, p.data.to_vec()))
}

/// The first event in the ring of a module.
fn first_event(m: &NetworkModule) -> DivertAddress {
    let ring = &m.network_ctx.ale_ring_buffer.as_ref().unwrap().inner.rb_datas[0];
    assert_eq!(ring.buf[..8].to_vec(), vec![80, 0, 0, 0, 0, 0, 0, 0]);
    decode_address(&ring.buf[8..88])
}

#[test]
fn addresses_say_where_a_packet_was_seen() {
    let a = packet_address(3, 4, true, true);
    assert_eq!((a.timestamp, a.reserved2), (0, 0));
    assert_eq!(a.flags, (1 << 17) | (1 << 20));
    assert_eq!((a.data.network().if_idx, a.data.network().sub_if_idx), (3, 4));
    assert_eq!(packet_address(3, 4, false, false).flags, 0);
    let f = flow_address(9, FLOW_LAYER, false, 1, false, false);
    assert_eq!((f.layer(), f.event(), f.outbound(), f.ipv6()), (0, 1, false, false));
    assert_eq!((f.data.flow().process_id, f.data.flow().layer), (9, 2));
    let s = socket_address(9, 3, true, 7, true, false);
    assert_eq!((s.layer(), s.event(), s.outbound(), s.ipv6()), (3, 7, true, false));
    assert_eq!((s.data.socket().process_id, s.data.socket().flags), (9, 1));
    assert_eq!(socket_address(9, 3, false, 7, true, false).data.socket().flags, 0);
}

#[test]
fn flow_data_round_trip() {
    let d = DivertDataFlow {
        endpoint_id: 0x0102030405060708,
        process_id: 0x0A0B0C0D,
        filter_id: 5,
        layer: 6,
        flags: 7,
        reserved: [1, 2, 3, 4, 5, 6],
    };
    let data = DivertAddressData::from_flow(d);
    assert_eq!(data.reserved3[..4].to_vec(), vec![8, 7, 6, 5]);
    let e = data.flow();
    assert_eq!((e.endpoint_id, e.process_id, e.filter_id), (0x0102030405060708, 0x0A0B0C0D, 5));
    assert_eq!((e.layer, e.flags, e.reserved), (6, 7, [1, 2, 3, 4, 5, 6]));
}

#[test]
fn reflect_data_round_trip() {
    let data = DivertAddressData::from_reflect(DivertDataReflect {
        timestamp: -2,
        process_id: 3,
        filter_id: 4,
        layer: 5,
        flags: 6,
        reserved: [7; 6],
    });
    assert_eq!(data.reserved3[..9].to_vec(), vec![254, 255, 255, 255, 255, 255, 255, 255, 3]);
    let r = data.reflect();
    assert_eq!((r.timestamp, r.process_id, r.filter_id), (-2, 3, 4));
    assert_eq!((r.layer, r.flags, r.reserved), (5, 6, [7; 6]));
}

#[test]
fn flag_bits_are_set_one_by_one() {
    let mut a = packet_address(0, 0, false, false);
    a.set_layer(0xAB);
    a.set_event(0xCD);
    assert_eq!(a.flags, 0xCDAB);
    a.set_sniffed(true);
    a.set_outbound(true);
    a.set_ipv6(true);
    assert_eq!(a.flags, 0xCDAB | (1 << 16) | (1 << 17) | (1 << 20));
    a.set_outbound(false);
    a.set_layer(1);
    assert_eq!(a.flags, 0xCD01 | (1 << 16) | (1 << 20));
    assert!(a.sniffed() && a.ipv6() && !a.outbound() && !a.loopback() && !a.impostor());
    a.flags = 0xFFE0_0000;
    assert!(a.ip_checksum() && a.tcp_checksum() && a.udp_checksum());
    assert_eq!((a.reserved1(), a.layer(), a.event()), (0xFF, 0, 0));
}

#[test]
fn classification_begins_with_what_is_there() {
    let keep = ClassifyOut { action: None, absorb: false, clear_write: false };
    assert_eq!(ClassifyOut::keep(), keep);
    assert_eq!(begin_classify(false, true, true, true), Some(keep));
    assert_eq!(begin_classify(true, false, true, true), Some(keep));
    assert_eq!(
        begin_classify(true, true, false, false),
        Some(ClassifyOut::with(ClassifyAction::Continue))
    );
    assert_eq!(begin_classify(true, true, true, false), Some(keep));
    assert_eq!(begin_classify(true, true, true, true), None);
    assert_eq!(metadata_field(Some((0x10, 24)), 0x10), 24);
    assert_eq!(metadata_field(Some((0x20, 24)), 0x10), 0);
    assert_eq!(metadata_field(None, 0x10), 0);
    assert_eq!(process_id_of(Some((1, 0x5_0000_0007)), 1), 7);
    assert_eq!(process_id_of(Some((2, 7)), 1), 0);
    assert_eq!(process_id_of(None, 1), 0);
}

#[test]
fn connections_are_read_from_values() {
    let fields = |layer_id| ConnectionFields {
        layer_id,
        local_address: 0,
        local_port: 1,
        remote_address: 2,
        remote_port: 3,
        protocol: 4,
    };
    let layers = ConnectionLayers { v4: fields(10), v6: fields(11) };
    let v4 = vec![
        WfpValue::Uint32(0x0A000001),
        WfpValue::Uint16(1000),
        WfpValue::Uint32(0x01020304),
        WfpValue::Uint16(53),
        WfpValue::Uint8(17),
    ];
    let p = parse_incoming_values_flow(&layers, 10, &v4, Some((1, 42)), 1).unwrap();
    assert_eq!((p.ipv4, p.layer_id, p.process_id), (true, 10, 42));
    assert_eq!(p.local_addr[..5], [10, 0, 0, 1, 0]);
    assert_eq!(p.remote_addr[..5], [1, 2, 3, 4, 0]);
    assert_eq!((p.local_port, p.remote_port, p.protocol), (1000, 53, 17));
    assert!(parse_incoming_values_flow(&layers, 12, &v4, None, 1).is_none());
    let mut v6 = v4.clone();
    v6[0] = WfpValue::Bytes16([7; 16]);
    v6[2] = WfpValue::Bytes16([8; 16]);
    let q = parse_incoming_values_socket(&layers, 11, &v6, None, 1).unwrap();
    assert_eq!((q.ipv4, q.process_id, q.local_addr, q.remote_addr), (false, 0, [7; 16], [8; 16]));
}

#[test]
fn flows_are_reported_and_permitted() {
    let mut m = module(LAYER_FLOW, WfpLayer::Inactive);
    assert_eq!(m.network_ctx.active_layer, WfpLayer::Flow);
    assert!(matches!(m.arm_recv(LAYER_FLOW, 8, 9), Ok(false)));
    let (out, told) = classify_flow(&mut m, &connection(), 1);
    assert_eq!(out, ClassifyOut::with(ClassifyAction::Permit));
    assert_eq!(told, Some(Notify { callback: 8, context: 9 }));
    assert_eq!(m.network_ctx.metrics, Metrics { dropped: 0, received: 1, sent: 0 });
    let a = first_event(&m);
    assert_eq!((a.event(), a.outbound(), a.ipv6()), (1, true, true));
    assert_eq!(a.data.flow().process_id, 0x1122);
    assert_eq!(process_flow_data(&mut m, &connection(), 2), None);
    assert_eq!(m.network_ctx.metrics.received, 2);
}

#[test]
fn sockets_are_blocked_by_the_filter() {
    let mut m = module(LAYER_SOCKET, WfpLayer::Inactive);
    // Without a filter everything is blocked.
    let (out, _) = classify_socket(&mut m, &connection(), 4);
    assert_eq!(
        out,
        ClassifyOut { action: Some(ClassifyAction::Block), absorb: false, clear_write: true }
    );
    assert_eq!(m.network_ctx.metrics, Metrics { dropped: 1, received: 1, sent: 0 });
    let a = first_event(&m);
    assert_eq!((a.layer(), a.event(), a.outbound()), (3, 4, true));
    assert_eq!(a.data.socket().flags, 1);
    m.bpf_program = reject_all();
    let (out, _) = classify_socket(&mut m, &connection(), 4);
    assert_eq!(out, ClassifyOut::with(ClassifyAction::Permit));
    m.bpf_program = accept_all();
    m.network_ctx.packet_read_only = true;
    let (out, _) = classify_socket(&mut m, &connection(), 4);
    assert_eq!(out, ClassifyOut::with(ClassifyAction::Permit));
    assert_eq!(m.network_ctx.metrics, Metrics { dropped: 1, received: 3, sent: 0 });
    assert_eq!(process_socket_data(&mut m, &connection(), false, 4), None);
    assert!(filter_socket(&vec![], &connection()));
    assert!(!filter_socket(&reject_all(), &connection()));
    let outbound = compile_bpf("outbound").unwrap();
    assert!(filter_socket(&outbound, &connection()));
}

#[test]
fn transport_values_are_parsed() {
    let fields = |layer_id| TransportFields { layer_id, interface_index: 1, sub_interface_index: 2 };
    let layers = TransportLayers {
        inbound_v4: fields(12),
        outbound_v4: fields(14),
        inbound_v6: fields(13),
        outbound_v6: fields(15),
    };
    let parse = |layer_id, values: Vec<u32>| {
        let v = IncomingValues { layer_id, values };
        parse_incoming_values_transport(&layers, Some(&v))
    };
    let p = parse(15, vec![9, 5, 6]).unwrap();
    assert_eq!((p.ipv4, p.inbound, p.layer_id, p.ifindex, p.sub_ifindex), (false, false, 15, 5, 6));
    let q = parse(12, vec![9, 5]).unwrap();
    assert_eq!((q.ipv4, q.inbound, q.ifindex, q.sub_ifindex), (true, true, 5, 0));
    assert_eq!(parse(14, vec![]).map(|p| (p.ipv4, p.inbound)), Some((true, false)));
    assert_eq!(parse(13, vec![]).map(|p| (p.ipv4, p.inbound)), Some((false, true)));
    assert!(parse(99, vec![]).is_none());
    assert!(parse_incoming_values_transport(&layers, None).is_none());
    assert_eq!(ip_header_size(true, Some((0x10, 20)), 0x10), 20);
    assert_eq!(ip_header_size(false, Some((0x10, 20)), 0x10), 0);
}

#[test]
fn transport_packets_are_taken_off() {
    let mut m = module(LAYER_TRANSPORT, WfpLayer::Transport(transport()));
    let (out, told) =
        classify_transport(&mut m, vec![buffer(&[b"xab", b"cd"], 1, 4)], &inbound(true), 0, 0);
    assert_eq!(
        out,
        ClassifyOut { action: Some(ClassifyAction::Block), absorb: true, clear_write: false }
    );
    assert_eq!(told, vec![None]);
    let (a, bytes) = first_packet(&m).unwrap();
    assert_eq!(bytes, b"abcd".to_vec());
    assert_eq!((a.outbound(), a.ipv6(), a.data.network().if_idx), (false, false, 5));
    assert_eq!(m.network_ctx.metrics.received, 1);
    // Packets that the driver injected itself go on.
    let (out, told) = classify_transport(&mut m, vec![buffer(&[b"z"], 0, 1)], &inbound(true), 1, 0);
    assert_eq!((out, told.len()), (ClassifyOut::with(ClassifyAction::Continue), 0));
    assert_eq!(m.network_ctx.metrics.received, 1);
    m.network_ctx.packet_read_only = true;
    let (out, _) = classify_transport(&mut m, vec![], &inbound(true), 0, 0);
    assert_eq!(out, ClassifyOut::with(ClassifyAction::Continue));
}

#[test]
fn packets_are_filtered_by_their_first_part() {
    let program = compile_bpf("inbound").unwrap();
    assert!(filter_packet(&program, &buffer(&[b"a"], 0, 1), &inbound(true)));
    let mut outbound = inbound(true);
    outbound.inbound = false;
    assert!(!filter_packet(&program, &buffer(&[b"a"], 0, 1), &outbound));
    let none = NetBuffer { chain: vec![], offset: 0, data_length: 0 };
    assert!(!filter_packet(&program, &none, &inbound(true)));
    assert!(filter_packet(&vec![], &none, &inbound(true)));
    // Only the first part is seen.
    let half = vec![
        BpfInsn { code: 0x30, jt: 0, jf: 0, k: 1 },
        BpfInsn { code: 6, jt: 0, jf: 0, k: 1 },
    ];
    assert!(!filter_packet(&half, &buffer(&[b"a", b"b"], 0, 2), &inbound(true)));
    assert!(filter_packet(&half, &buffer(&[b"ab"], 0, 2), &inbound(true)));
    let mut m = module(LAYER_TRANSPORT, WfpLayer::Transport(transport()));
    m.bpf_program = reject_all();
    let told = process_net_buffer_list(&mut m, vec![buffer(&[b"a"], 0, 1)], &inbound(true), 0);
    assert_eq!(told, vec![None]);
    assert!(first_packet(&m).is_none());
    // A packet for which there is no room counts as dropped.
    m.bpf_program = accept_all();
    let big = vec![0u8; 0x20_0000];
    process_net_buffer_list(&mut m, vec![buffer(&[&big], 0, 0x20_0000)], &inbound(true), 0);
    assert_eq!(m.network_ctx.metrics.dropped, 1);
}

#[test]
fn transport_handles_are_made_in_order() {
    let step = |made: Vec<(i32, u64)>| TransportLayer::initialize(&made);
    assert!(matches!(step(vec![]), TransportSetup::Create { ipv6: false }));
    assert!(matches!(step(vec![(0, 1)]), TransportSetup::Create { ipv6: false }));
    assert!(matches!(step(vec![(0, 1), (0, 2)]), TransportSetup::Create { ipv6: true }));
    match step(vec![(0, 1), (0, 2), (-5, 0)]) {
        TransportSetup::Fail { destroy, status } => assert_eq!((destroy, status), (vec![1, 2], -5)),
        _ => panic!("went on"),
    }
    match step(vec![(0, 1), (0, 2), (0, 3), (0, 4)]) {
        TransportSetup::Done(l) => assert_eq!(l, transport()),
        _ => panic!("not done"),
    }
    let mut l = transport();
    assert_eq!((l.handle(true, false), l.handle(false, false)), (1, 2));
    assert_eq!((l.handle(true, true), l.handle(false, true)), (3, 4));
    assert!(l.is_self_injected(1, true, true));
    assert!(l.is_self_injected(3, true, true));
    assert!(!l.is_self_injected(2, true, true));
    assert_eq!(
        l.inject(true, false, 5, 6, 7),
        Ok(TransportInject::Receive { handle: 1, ipv6: false, compartment: 1, if_idx: 5, sub_if_idx: 6 })
    );
    assert_eq!(
        l.inject(false, true, 5, 6, 7),
        Ok(TransportInject::Send { handle: 4, ipv6: true, compartment: 1 })
    );
    assert_eq!(l.inject(true, false, 5, 6, 0), Err(STATUS_INSUFFICIENT_RESOURCES));
    l.inject_handle_in_v4 = 0;
    assert!(!l.is_self_injected(1, true, true));
    assert_eq!(l.inject(true, false, 5, 6, 7), Err(STATUS_INVALID_DEVICE_REQUEST));
    assert_eq!(l.handles(), vec![2, 3, 4]);
}

#[test]
fn stream_data_are_reported_and_go_on() {
    let layer = StreamLayer::initialize(0, 9).unwrap();
    assert_eq!(layer.inject_handle_stream, 9);
    assert_eq!(StreamLayer::initialize(-4, 9), Err(-4));
    let mut m = module(LAYER_STREAM, WfpLayer::Stream(layer));
    let parsed = callout_stream::ParsedIncomingValues { ipv4: true, inbound: true, layer_id: 20 };
    let data = StreamData { data_len: 4, copied: b"abc".to_vec(), receive: true };
    let (out, enforced, told) = classify_stream(&mut m, data, 33, &parsed, 0);
    assert_eq!((out, enforced, told), (ClassifyOut::with(ClassifyAction::Continue), Some(3), None));
    let (a, bytes) = first_packet(&m).unwrap();
    assert_eq!(bytes, vec![0x61, 0x62, 0x63, 0]);
    assert_eq!((a.layer(), a.outbound(), a.data.flow().process_id), (6, false, 33));
    assert_eq!(m.network_ctx.metrics.received, 1);
    let empty = StreamData { data_len: 0, copied: vec![], receive: true };
    assert_eq!(process_stream_data(&mut m, empty, 33, &parsed, 0), (None, None));
    let big = StreamData { data_len: 0x20_0000, copied: vec![], receive: false };
    assert_eq!(process_stream_data(&mut m, big, 33, &parsed, 0), (Some(0), None));
    assert_eq!(m.network_ctx.metrics.dropped, 1);
    assert_eq!(classify_stream_unattached(5).1, Some(0));
    assert_eq!(classify_stream_unattached(0).1, None);
}

#[test]
fn stream_values_and_injection() {
    let layers = StreamLayers {
        v4: StreamFields { layer_id: 20, direction: 1 },
        v6: StreamFields { layer_id: 21, direction: 0 },
        direction_inbound: 1,
    };
    let p = parse_incoming_values_stream(&layers, 20, &vec![0, 1]).unwrap();
    assert_eq!((p.ipv4, p.inbound, p.layer_id), (true, true, 20));
    let q = parse_incoming_values_stream(&layers, 21, &vec![0, 1]).unwrap();
    assert_eq!((q.ipv4, q.inbound), (false, false));
    assert!(parse_incoming_values_stream(&layers, 22, &vec![]).is_none());
    let mut l = StreamLayer { inject_handle_stream: 9, stream_callout_id_v4: 4, stream_callout_id_v6: 0 };
    assert_eq!(
        l.inject(77, false, true, 1, 10),
        Ok(StreamInject { handle: 9, flow_id: 77, callout_id: 4, ipv6: false, receive: true, len: 10 })
    );
    assert_eq!(l.inject(77, true, true, 1, 10), Err(STATUS_INVALID_DEVICE_REQUEST));
    assert_eq!(l.inject(77, false, true, 0, 10), Err(STATUS_INSUFFICIENT_RESOURCES));
    l.inject_handle_stream = 0;
    assert_eq!(l.inject(77, false, true, 1, 10), Err(STATUS_INVALID_DEVICE_REQUEST));
}

#[test]
fn layers_need_handles_of_their_kind() {
    assert_eq!(get_handle_kind(LAYER_NETWORK), Some(HandleKind::Network));
    assert_eq!(get_handle_kind(LAYER_NETWORK_FORWARD), Some(HandleKind::Forward));
    assert_eq!(get_handle_kind(LAYER_TRANSPORT), Some(HandleKind::Transport));
    assert_eq!(get_handle_kind(LAYER_STREAM), Some(HandleKind::Stream));
    for layer in [LAYER_FLOW, LAYER_SOCKET, LAYER_REFLECT, 7, 8, u32::MAX] {
        assert_eq!(get_handle_kind(layer), None);
    }
}

#[test]
fn contexts_are_set_up_by_layer() {
    let made = WfpLayer::Network(NetworkLayer { handles: 5 });
    assert_eq!(
        NetworkModule::new(LAYER_NETWORK, 0, Ok(made)).err(),
        Some(STATUS_INSUFFICIENT_RESOURCES)
    );
    assert_eq!(NetworkModule::new(LAYER_TRANSPORT, 1, Err(-8)).err(), Some(-8));
    // Flow and socket events, and reflections, need no handles.
    assert!(NetworkModule::new(LAYER_SOCKET, 0, Err(-8)).is_ok());
    assert!(NetworkModule::new(LAYER_REFLECT, 2, Err(-8)).is_ok());
    let mut c = NetworkContext::default();
    assert_eq!(c.initialize(LAYER_NETWORK, 2, Ok(WfpLayer::Network(NetworkLayer { handles: 5 }))), Ok(()));
    assert_eq!(c.ring_buffer.as_ref().unwrap().workers_num(), 2);
    assert_eq!(c.ring_buffer.as_ref().unwrap().get_ring_buffer_size(), 0x20_0000);
    c.metrics_inc_dropped();
    c.metrics_inc_received();
    c.metrics_inc_received();
    c.metrics_inc_sent();
    assert_eq!(c.metrics_get(), Metrics { dropped: 1, received: 2, sent: 1 });
    c.metrics_reset();
    assert_eq!(c.metrics_get(), Metrics::default());
}

#[test]
fn modules_start_map_wait_and_end() {
    let mut m = module(LAYER_NETWORK, WfpLayer::Network(NetworkLayer { handles: 5 }));
    let mut flags = 1u64;
    assert_eq!(m.startup(&mut flags, 4, Err(-3)), Err(-3));
    assert_eq!((flags, m.network_ctx.packet_read_only), (1, false));
    assert_eq!(m.startup(&mut flags, 4, Ok(99)), Ok(()));
    assert_eq!((flags, m.network_ctx.packet_read_only), (4, true));
    assert_eq!(m.network_ctx.fwpm_engine_handle, 99);
    let r = m.map_memory(Ok((1, 2))).unwrap();
    assert_eq!((r.max_cores, r.size, r.ring_buffer_header, r.ring_buffer_data), (1, 0x20_0000, 1, 2));
    assert_eq!(m.map_memory(Err(-7)).err(), Some(-7));
    assert_eq!(m.arm_recv(LAYER_NETWORK, 3, 4), Ok(false));
    assert!(m.network_ctx.ring_buffer.as_ref().unwrap().is_watching);
    let told = process_net_buffer_list(&mut m, vec![buffer(&[b"a"], 0, 1)], &inbound(true), 0);
    assert_eq!(told, vec![Some(Notify { callback: 3, context: 4 })]);
    // Something is there already.
    assert_eq!(m.arm_recv(LAYER_NETWORK, 3, 4), Ok(true));
    assert_eq!(m.arm_recv(LAYER_FLOW, 3, 4), Err(STATUS_INVALID_DEVICE_REQUEST));
    m.network_ctx.filter_ids = vec![11, 0, 12];
    assert_eq!(m.cleanup(), (vec![11, 12], Some(99)));
    assert_eq!(m.network_ctx.ring_buffer.as_ref().unwrap().notify_cb, None);
    assert_eq!(uninit_wfp(0, &vec![11]), (vec![], None));
    assert_eq!(next_pending(STATUS_SUCCESS, 8), Some(8));
    assert_eq!(next_pending(STATUS_SUCCESS, 0), None);
    assert_eq!(next_pending(-1, 8), None);
    m.network_ctx.ring_buffer = None;
    assert_eq!(m.map_memory(Ok((1, 2))).err(), Some(STATUS_INVALID_DEVICE_REQUEST));
}

#[test]
fn guids_are_read() {
    for text in ["f41ad05c-5df1-4ae6-81f3-71d1eda6ba0a", "{F41AD05C-5DF1-4AE6-81F3-71D1EDA6BA0A}"] {
        let g = guid_from_str(text);
        assert_eq!((g.data1, g.data2, g.data3), (0xf41ad05c, 0x5df1, 0x4ae6));
        assert_eq!(g.data4, [0x81, 0xf3, 0x71, 0xd1, 0xed, 0xa6, 0xba, 0x0a]);
        assert_eq!(g.data4, provider_guid().data4);
        assert_eq!(g.data1, provider_guid().data1);
    }
}

#[test]
fn packets_are_released_once() {
    let c = UserInjectionCompletionContext { mdl: 1, request: 2 };
    assert_eq!(
        injection_completion_fn(Some(c), 3),
        vec![
            CompletionStep::FreeMdl(1),
            CompletionStep::CompleteRequest(2),
            CompletionStep::FreeContext,
            CompletionStep::FreeNetBufferList(3),
        ]
    );
    let empty = UserInjectionCompletionContext { mdl: 0, request: 0 };
    assert_eq!(injection_completion_fn(Some(empty), 0), vec![CompletionStep::FreeContext]);
    assert_eq!(injection_completion_fn(None, 3), vec![CompletionStep::FreeNetBufferList(3)]);
    assert_eq!(allocate_nbl_from_mdl(0, 5), Some(5));
    assert_eq!(allocate_nbl_from_mdl(-1, 5), None);
    assert_eq!(initialize_ndis_pools(4, 5), (4, 5, STATUS_SUCCESS));
    assert_eq!(initialize_ndis_pools(4, 0), (0, 0, STATUS_INSUFFICIENT_RESOURCES));
}

fn send_buffer(outbound: bool) -> Vec<u8> {
    let mut a = packet_address(5, 6, outbound, false);
    a.timestamp = 3;
    let mut b = encode_address(&a);
    b.extend_from_slice(b"packet");
    b
}

#[test]
fn requests_to_send_are_checked() {
    assert_eq!(SendRequest::begin(1, -9, None).err(), Some(-9));
    assert_eq!(SendRequest::begin(1, 0, Some(&[0; 79])).err(), Some(STATUS_BUFFER_TOO_SMALL));
    assert_eq!(SendRequest::begin(1, 0, Some(&[0; 80])).err(), Some(STATUS_INVALID_DEVICE_REQUEST));
    let s = SendRequest::begin(1, 0, Some(&send_buffer(true))).ok().unwrap();
    assert_eq!((s.request, s.buffer_len, s.stage), (1, 86, SendStage::Mdl));
    assert_eq!((s.addr.timestamp, s.addr.data.network().if_idx), (3, 5));
}

#[test]
fn packets_are_sent_step_by_step() {
    let m = module(LAYER_TRANSPORT, WfpLayer::Transport(transport()));
    let mut s = SendRequest::begin(70, 0, Some(&send_buffer(true))).ok().unwrap();
    assert!(matches!(m.handle_send(&mut s, SendEvent::MdlAllocated(8)), SendAction::AllocateContext));
    assert!(matches!(
        m.handle_send(&mut s, SendEvent::ContextAllocated(true)),
        SendAction::AllocateList { offset: 80, len: 6 }
    ));
    match m.handle_send(&mut s, SendEvent::ListAllocated(Some(9))) {
        SendAction::InjectTransport { plan, nbl } => {
            assert_eq!(plan, TransportInject::Send { handle: 2, ipv6: false, compartment: 1 });
            assert_eq!(nbl, 9);
        }
        _ => panic!("not injected"),
    }
    match m.handle_send(&mut s, SendEvent::Injected(-6)) {
        SendAction::Finish { free_context, free_mdl, steps, status } => {
            assert_eq!((free_context, free_mdl, status), (false, None, STATUS_PENDING));
            assert_eq!(
                steps,
                vec![
                    CompletionStep::FreeMdl(8),
                    CompletionStep::CompleteRequest(70),
                    CompletionStep::FreeContext,
                    CompletionStep::FreeNetBufferList(9),
                ]
            );
        }
        _ => panic!("not finished"),
    }
    assert_eq!(s.stage, SendStage::Done);
}

#[test]
fn sending_at_the_packet_layers() {
    for (layer, made, forward) in [
        (LAYER_NETWORK, WfpLayer::Network(NetworkLayer { handles: 44 }), false),
        (LAYER_NETWORK_FORWARD, WfpLayer::Forward(ForwardLayer { handles: 44 }), true),
    ] {
        let m = module(layer, made);
        let mut s = SendRequest::begin(70, 0, Some(&send_buffer(false))).ok().unwrap();
        m.handle_send(&mut s, SendEvent::MdlAllocated(8));
        m.handle_send(&mut s, SendEvent::ContextAllocated(true));
        match m.handle_send(&mut s, SendEvent::ListAllocated(Some(9))) {
            SendAction::InjectNetwork { forward: f, handles, inbound, ipv6, if_idx, sub_if_idx, nbl } => {
                assert_eq!((f, handles, inbound, ipv6), (forward, 44, true, false));
                assert_eq!((if_idx, sub_if_idx, nbl), (5, 6, 9));
            }
            _ => panic!("not injected"),
        }
        match m.handle_send(&mut s, SendEvent::Injected(-6)) {
            SendAction::Finish { steps, status, .. } => assert_eq!((steps, status), (vec![], STATUS_PENDING)),
            _ => panic!("not finished"),
        }
    }
}

#[test]
fn sending_fails_where_nothing_can_be_allocated() {
    let m = module(LAYER_TRANSPORT, WfpLayer::Transport(transport()));
    let finish = |a: SendAction| match a {
        SendAction::Finish { free_context, free_mdl, status, .. } => (free_context, free_mdl, status),
        _ => panic!("went on"),
    };
    let begin = || SendRequest::begin(70, 0, Some(&send_buffer(true))).ok().unwrap();
    let mut s = begin();
    assert_eq!(
        finish(m.handle_send(&mut s, SendEvent::MdlAllocated(0))),
        (false, None, STATUS_INSUFFICIENT_RESOURCES)
    );
    let mut s = begin();
    m.handle_send(&mut s, SendEvent::MdlAllocated(8));
    assert_eq!(
        finish(m.handle_send(&mut s, SendEvent::ContextAllocated(false))),
        (false, Some(8), STATUS_INSUFFICIENT_RESOURCES)
    );
    let mut s = begin();
    m.handle_send(&mut s, SendEvent::MdlAllocated(8));
    m.handle_send(&mut s, SendEvent::ContextAllocated(true));
    assert_eq!(
        finish(m.handle_send(&mut s, SendEvent::ListAllocated(None))),
        (true, Some(8), STATUS_INSUFFICIENT_RESOURCES)
    );
    // At a layer that only reports, the packet is released.
    let events = module(LAYER_FLOW, WfpLayer::Inactive);
    let mut s = begin();
    events.handle_send(&mut s, SendEvent::MdlAllocated(8));
    events.handle_send(&mut s, SendEvent::ContextAllocated(true));
    match events.handle_send(&mut s, SendEvent::ListAllocated(Some(9))) {
        SendAction::Finish { steps, status, .. } => {
            assert_eq!((steps.len(), status), (4, STATUS_PENDING));
        }
        _ => panic!("not finished"),
    }
}

#[test]
fn streams_are_sent_into() {
    let layer =
        StreamLayer { inject_handle_stream: 9, stream_callout_id_v4: 4, stream_callout_id_v6: 5 };
    let m = module(LAYER_STREAM, WfpLayer::Stream(layer));
    let mut s = SendRequest::begin(70, 0, Some(&send_buffer(false))).ok().unwrap();
    m.handle_send(&mut s, SendEvent::MdlAllocated(8));
    m.handle_send(&mut s, SendEvent::ContextAllocated(true));
    match m.handle_send(&mut s, SendEvent::ListAllocated(Some(9))) {
        SendAction::InjectStream { plan, nbl } => {
            assert_eq!((plan.handle, plan.flow_id, plan.callout_id), (9, 0x6_0000_0005, 4));
            assert_eq!((plan.ipv6, plan.receive, plan.len, nbl), (false, true, 6, 9));
        }
        _ => panic!("not injected"),
    }
    match m.handle_send(&mut s, SendEvent::Injected(0)) {
        SendAction::Finish { steps, status, .. } => assert_eq!((steps, status), (vec![], STATUS_PENDING)),
        _ => panic!("not finished"),
    }
}

#[test]
fn layers_have_callouts_and_names() {
    assert_eq!(
        get_platform_layers(LAYER_NETWORK),
        vec![
            PlatformLayer::InboundV4,
            PlatformLayer::OutboundV4,
            PlatformLayer::InboundV6,
            PlatformLayer::OutboundV6
        ]
    );
    assert_eq!(get_platform_layers(LAYER_REFLECT), vec![]);
    assert_eq!(get_platform_layers(LAYER_NETWORK_FORWARD).len(), 2);
    assert_eq!(get_platform_layers(LAYER_TRANSPORT).len(), 4);
    assert_eq!(get_callout_kind(LAYER_NETWORK_FORWARD), CalloutKind::Network);
    assert_eq!(get_callout_kind(LAYER_TRANSPORT), CalloutKind::Transport);
    assert_eq!(get_callout_kind(LAYER_STREAM), CalloutKind::Stream);
    assert_eq!(get_callout_kind(LAYER_FLOW), CalloutKind::Flow);
    assert_eq!(get_callout_kind(LAYER_SOCKET), CalloutKind::Socket);
    let l = PlatformLayer::SocketConnectV6;
    assert_eq!(l.name(), "SocketConnectV6");
    assert_eq!(l.callout_name(), "Callout_SocketConnectV6");
    assert_eq!(l.filter_name(), "Filter_SocketConnectV6");
}

#[test]
fn a_context_is_set_up_again() {
    let mut ctx = NetworkContext::new();
    ctx.fwpm_engine_handle = 6;
    ctx.filter_ids.push(9);
    assert_eq!(ctx.initialize(LAYER_FLOW, 1, Err(-1)), Ok(()));
    assert_eq!(ctx.active_layer, WfpLayer::Flow);
    assert_eq!(ctx.initialize(LAYER_STREAM, 1, Err(-1)), Err(-1));
    assert_eq!(ctx.active_layer, WfpLayer::Flow);
    assert!(ctx.ring_buffer.is_some() && ctx.ale_ring_buffer.is_some());
    assert_eq!((ctx.fwpm_engine_handle, ctx.filter_ids.len()), (6, 1));
}

#[test]
fn a_new_context_has_no_sublayer_yet() {
    let ctx = NetworkContext::new();
    let g = ctx.sublayer_guid;
    assert_eq!((g.data1, g.data2, g.data3, g.data4), (0, 0, 0, [0; 8]));
    assert!(ctx.filter_ids.is_empty());
    assert_eq!(ctx.active_layer, WfpLayer::Inactive);
}

#[test]
fn every_layer_gets_a_callout_and_a_filter() {
    let layer = StreamLayer { inject_handle_stream: 9, stream_callout_id_v4: 0, stream_callout_id_v6: 0 };
    let mut ctx = NetworkContext::new();
    ctx.active_layer = WfpLayer::Stream(layer);
    let mut w = WfpInit::begin(LAYER_STREAM);
    assert!(matches!(
        w.step(&mut ctx, WfpEvent::EngineOpened { status: 0, engine: 50 }),
        WfpAction::BeginTransaction
    ));
    assert!(matches!(w.step(&mut ctx, WfpEvent::TransactionBegun { status: 0 }), WfpAction::AddProvider));
    assert!(matches!(
        w.step(&mut ctx, WfpEvent::ProviderAdded { status: STATUS_FWP_ALREADY_EXISTS }),
        WfpAction::AddSublayer { weight: 65535 }
    ));
    let mut action = w.step(&mut ctx, WfpEvent::SublayerAdded { status: 0, guid: guid(1) });
    for (i, l) in [PlatformLayer::StreamV4, PlatformLayer::StreamV6].iter().enumerate() {
        assert!(matches!(action, WfpAction::RegisterCallout { kind: CalloutKind::Stream }));
        let id = 100 + i as u32;
        match w.step(&mut ctx, WfpEvent::CalloutRegistered { status: 0, id, guid: guid(id) }) {
            WfpAction::AddCallout { layer, guid } => assert_eq!((layer, guid.data1), (*l, id)),
            _ => panic!("no callout"),
        }
        match w.step(&mut ctx, WfpEvent::CalloutAdded { status: 0 }) {
            WfpAction::AddFilter { layer, sublayer, callout, weight } => {
                assert_eq!((layer, sublayer.data1, callout.data1, weight), (*l, 1, id, i as u64 + 1));
            }
            _ => panic!("no filter"),
        }
        action = w.step(&mut ctx, WfpEvent::FilterAdded { status: 0, id: 200 + i as u64 });
    }
    assert!(matches!(action, WfpAction::Commit));
    match w.step(&mut ctx, WfpEvent::Committed { status: 0 }) {
        WfpAction::Finish { cleanup, result } => assert_eq!((cleanup, result), (WfpCleanup::Nothing, Ok(50))),
        _ => panic!("not finished"),
    }
    assert_eq!(ctx.filter_ids, vec![200, 201]);
    assert_eq!(ctx.fwpm_engine_handle, 50);
    assert_eq!(
        ctx.active_layer,
        WfpLayer::Stream(StreamLayer {
            inject_handle_stream: 9,
            stream_callout_id_v4: 100,
            stream_callout_id_v6: 101
        })
    );
}

#[test]
fn a_failure_undoes_the_transaction() {
    let finish = |a: WfpAction| match a {
        WfpAction::Finish { cleanup, result } => (cleanup, result),
        _ => panic!("went on"),
    };
    let mut ctx = NetworkContext::new();
    let mut w = WfpInit::begin(LAYER_FLOW);
    assert_eq!(
        finish(w.step(&mut ctx, WfpEvent::EngineOpened { status: -1, engine: 50 })),
        (WfpCleanup::Nothing, Err(-1))
    );
    assert_eq!(ctx.fwpm_engine_handle, 0);
    let mut w = WfpInit::begin(LAYER_FLOW);
    w.step(&mut ctx, WfpEvent::EngineOpened { status: 0, engine: 50 });
    assert_eq!(
        finish(w.step(&mut ctx, WfpEvent::TransactionBegun { status: -2 })),
        (WfpCleanup::CloseEngine, Err(-2))
    );
    let mut w = WfpInit::begin(LAYER_FLOW);
    w.step(&mut ctx, WfpEvent::EngineOpened { status: 0, engine: 50 });
    w.step(&mut ctx, WfpEvent::TransactionBegun { status: 0 });
    assert_eq!(
        finish(w.step(&mut ctx, WfpEvent::ProviderAdded { status: -3 })),
        (WfpCleanup::AbortTransaction, Err(-3))
    );
    let mut w = WfpInit::begin(LAYER_REFLECT);
    w.step(&mut ctx, WfpEvent::EngineOpened { status: 0, engine: 50 });
    w.step(&mut ctx, WfpEvent::TransactionBegun { status: 0 });
    w.step(&mut ctx, WfpEvent::ProviderAdded { status: 0 });
    // There is nothing to add for a layer without callouts.
    assert!(matches!(
        w.step(&mut ctx, WfpEvent::SublayerAdded { status: 0, guid: guid(1) }),
        WfpAction::Commit
    ));
    assert_eq!(
        finish(w.step(&mut ctx, WfpEvent::Committed { status: -4 })),
        (WfpCleanup::Nothing, Err(-4))
    );
}
