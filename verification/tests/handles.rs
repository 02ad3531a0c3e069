use fastdivert::bpf_compiler::compile_bpf;
use fastdivert::context::{Context, ContextState, ModuleContext};
use fastdivert::driver::{create_control_device, DeviceAction, DeviceEvent, DeviceStage, DriverGlobals};
use fastdivert::file::{
    complete_map, completes_recv, completes_send, file_cleanup, file_close, file_create,
    get_file_ctx, io_in_caller_context, ioctl_callback, retrieve_io_buffer, CleanupWork, Dispatch,
};
use fastdivert::file_config::encode_config;
use fastdivert::file_monitor::minifilter::FileMonitor;
use fastdivert::file_types::FileModuleConfig;
use fastdivert::ioctl::{
    initialize, map_rb, read_initialize, read_map_response, read_startup, startup,
    write_map_response,
};
use fastdivert::ioctl_code::{
    ctl_code, DivertIoctlInitialize, DivertIoctlMMapRequest, DivertIoctlMMapResponse,
    DivertIoctlStartup, IoctlInitializeResponse, IoctlMMapResponse, FILE_DEVICE_NETWORK,
    FILE_READ_DATA, FILE_WRITE_DATA, IOCTL_GET_PARAM, IOCTL_INITIALIZE, IOCTL_MAP_MM, IOCTL_RECV,
    IOCTL_SEND, IOCTL_SET_BPF, IOCTL_SET_PARAM, IOCTL_SHUTDOWN, IOCTL_STARTUP, IOCTL_VERSION,
    METHOD_IN_DIRECT, METHOD_OUT_DIRECT,
};
use fastdivert::ioctl_handler::{
    finish_startup, handle_initialize, handle_rb_map, handle_recv, handle_send, handle_set_bpf,
    handle_startup, SendTarget, StartupStep,
};
use fastdivert::network::bpf_wire::encode_program;
use fastdivert::network::context::{NetworkLayer, WfpLayer};
use fastdivert::status::{
    nt_success, STATUS_BUFFER_TOO_SMALL, STATUS_INSUFFICIENT_RESOURCES,
    STATUS_INVALID_DEVICE_REQUEST, STATUS_INVALID_PARAMETER, STATUS_PENDING, STATUS_SUCCESS,
};
use fastdivert::types::{
    Flags, Layer, LAYER_FILE, LAYER_FLOW, LAYER_NETWORK, LAYER_REFLECT,
};

fn handle() -> Context {
    match Context::new(1, 2, Ok(()), (0, 3)) {
        Ok(c) => c,
        Err(e) => panic!("{}", e),
    }
}

fn open(layer: u32) -> Context {
    let mut c = handle();
    let request = DivertIoctlInitialize { layer, priority: 7, flags: 9 };
    let made = Ok(WfpLayer::Network(NetworkLayer { handles: 5 }));
    assert_eq!(handle_initialize(&mut c, &request, 1, made), STATUS_SUCCESS);
    assert_eq!((c.layer, c.priority, c.flags), (layer, 7, 9));
    c
}

#[test]
fn request_codes_are_packed() {
    let rw = FILE_READ_DATA | FILE_WRITE_DATA;
    let code = |f, m, a| ctl_code(FILE_DEVICE_NETWORK, f, m, a);
    assert_eq!(IOCTL_VERSION, code(0x920, METHOD_OUT_DIRECT, rw));
    assert_eq!(IOCTL_INITIALIZE, code(0x921, METHOD_OUT_DIRECT, rw));
    assert_eq!(IOCTL_STARTUP, code(0x922, METHOD_IN_DIRECT, rw));
    assert_eq!(IOCTL_RECV, code(0x923, METHOD_OUT_DIRECT, FILE_READ_DATA));
    assert_eq!(IOCTL_SEND, code(0x924, METHOD_IN_DIRECT, rw));
    assert_eq!(IOCTL_SET_PARAM, code(0x925, METHOD_IN_DIRECT, rw));
    assert_eq!(IOCTL_GET_PARAM, code(0x926, METHOD_OUT_DIRECT, FILE_READ_DATA));
    assert_eq!(IOCTL_SHUTDOWN, code(0x927, METHOD_IN_DIRECT, rw));
    assert_eq!(IOCTL_MAP_MM, code(0x930, METHOD_OUT_DIRECT, rw));
    assert_eq!(IOCTL_SET_BPF, code(0x931, METHOD_IN_DIRECT, rw));
}

#[test]
fn requests_are_bytes() {
    let b = initialize(7, 0x0102, 0x0A0B);
    assert_eq!(b, vec![7, 0, 0, 0, 2, 1, 0, 0, 0x0B, 0x0A, 0, 0, 0, 0, 0, 0]);
    let r = read_initialize(&b);
    assert_eq!((r.layer, r.priority, r.flags), (7, 0x0102, 0x0A0B));
    let s = startup(&DivertIoctlStartup { flags: 0x1122 });
    assert_eq!(s, vec![0x22, 0x11, 0, 0, 0, 0, 0, 0]);
    assert_eq!(read_startup(&s).flags, 0x1122);
    assert_eq!(map_rb(&DivertIoctlMMapRequest { max_cores: 3 }), vec![3, 0, 0, 0]);
    let answer = IoctlMMapResponse {
        max_cores: 2,
        size: 0x20_0000,
        ring_buffer_header: 0x0102_0304_0506_0708,
        ring_buffer_data: 5,
        send_ring_buffer_header: 6,
        send_ring_buffer_data: 7,
    };
    let bytes = write_map_response(&answer);
    assert_eq!(bytes.len(), 40);
    assert_eq!(bytes[4..16].to_vec(), vec![0, 0, 0x20, 0, 8, 7, 6, 5, 4, 3, 2, 1]);
    let back = read_map_response(&bytes);
    assert_eq!((back.max_cores, back.rb_size), (2, 0x20_0000));
    assert_eq!(back.ring_buffer_header, answer.ring_buffer_header);
    assert_eq!((back.ring_buffer_data, back.send_ring_buffer_data), (5, 7));
    assert_eq!(back.send_ring_buffer_header, 6);
    assert_eq!(DivertIoctlMMapResponse::default().max_cores, 0);
    assert_eq!(IoctlInitializeResponse::default().magic, 0);
}

#[test]
fn layers_and_flags_have_codes() {
    for code in 0..8u32 {
        assert_eq!(Layer::from_code(code).unwrap().code(), code);
    }
    assert!(Layer::from_code(8).is_none());
    assert_eq!(Layer::File.code(), 7);
    assert_eq!((Flags::Divert.code(), Flags::RecvOnly.code()), (0, 4));
    assert!(nt_success(0) && nt_success(STATUS_PENDING) && !nt_success(-1));
}

#[test]
fn handles_have_a_state() {
    assert_eq!(Context::new(1, 2, Err(-4), (0, 3)).err(), Some(-4));
    assert_eq!(Context::new(1, 2, Ok(()), (-5, 3)).err(), Some(-5));
    let mut c = handle();
    assert_eq!((c.device, c.object, c.recv_queue), (1, 2, 3));
    assert!(c.is_closing() && !c.is_open());
    assert_eq!(c.initialize(), Ok(()));
    assert!(c.is_open() && !c.is_closing());
    file_close(&mut c);
    assert_eq!(c.state, ContextState::Closing);
    assert!(c.is_closing());
    let codes: Vec<u8> =
        [ContextState::Opening, ContextState::Open, ContextState::Closing, ContextState::Closed]
            .iter()
            .map(|s| s.code())
            .collect();
    assert_eq!(codes, vec![0xA0, 0xB1, 0xC2, 0xD3]);
    assert_eq!(ContextState::default(), ContextState::Closed);
    assert!(c.get_network_ctx().is_none() && c.get_network_module().is_none());
    let n = open(LAYER_NETWORK);
    assert!(n.get_network_ctx().is_some() && n.get_network_module().is_some());
}

#[test]
fn layers_are_chosen_once_they_are_valid() {
    let mut c = handle();
    let bad = DivertIoctlInitialize { layer: 8, priority: 1, flags: 2 };
    assert_eq!(handle_initialize(&mut c, &bad, 1, Err(-1)), STATUS_INVALID_DEVICE_REQUEST);
    assert_eq!((c.layer, c.priority, c.flags), (0, 0, 0));
    let net = DivertIoctlInitialize { layer: 0, priority: 1, flags: 2 };
    assert_eq!(handle_initialize(&mut c, &net, 1, Err(-9)), -9);
    assert!(c.module.is_none());
    assert_eq!(handle_initialize(&mut c, &net, 0, Err(-9)), STATUS_INSUFFICIENT_RESOURCES);
    assert!(matches!(open(LAYER_FILE).module, Some(ModuleContext::File(_))));
    assert!(matches!(open(LAYER_REFLECT).module, Some(ModuleContext::Network(_))));
}

#[test]
fn starting_a_network_handle() {
    let mut c = open(LAYER_NETWORK);
    assert_eq!(handle_startup(&mut c, 0, 0, &[]), StartupStep::StartNetwork { flags: 9 });
    assert!(c.is_open());
    assert_eq!(handle_startup(&mut c, 5, -1, &[]), StartupStep::StartNetwork { flags: 5 });
    assert_eq!(c.flags, 9);
    let mut none = handle();
    assert_eq!(
        handle_startup(&mut none, 5, 0, &[]),
        StartupStep::Finish { status: STATUS_INVALID_DEVICE_REQUEST }
    );
    assert_eq!(finish_startup(Ok(())), STATUS_SUCCESS);
    assert_eq!(finish_startup(Err(-2)), -2);
}

#[test]
fn starting_a_file_handle() {
    let mut c = open(LAYER_FILE);
    assert_eq!(handle_startup(&mut c, 5, -3, &[]), StartupStep::Finish { status: -3 });
    assert_eq!(
        handle_startup(&mut c, 5, 0, &[0; 100]),
        StartupStep::Finish { status: STATUS_BUFFER_TOO_SMALL }
    );
    let config = FileModuleConfig::new(1234, 2).add_filter("\\x", None, 1, 0, 0, false).unwrap();
    let mut bad = config;
    bad.rule_count = 17;
    assert_eq!(
        handle_startup(&mut c, 5, 0, &encode_config(&bad)),
        StartupStep::Finish { status: STATUS_INVALID_PARAMETER }
    );
    let mut long = config;
    long.rules[0].path_len = 261;
    assert_eq!(
        handle_startup(&mut c, 5, 0, &encode_config(&long)),
        StartupStep::Finish { status: STATUS_INVALID_PARAMETER }
    );
    // Rules that do not count may hold anything.
    let mut spare = config;
    spare.rules[1].path_len = 261;
    assert_eq!(
        handle_startup(&mut c, 5, 0, &encode_config(&spare)),
        StartupStep::StartFile { flags: 5 }
    );
    assert_eq!(c.flags, 5);
    match &c.module {
        Some(ModuleContext::File(m)) => {
            assert_eq!((m.config.timeout_ms, m.config.default_action, m.config.rule_count), (1234, 2, 1));
        }
        _ => panic!("no file module"),
    }
}

#[test]
fn rings_are_mapped_and_waited_for() {
    let mut net = open(LAYER_NETWORK);
    let r = handle_rb_map(&net, Ok((10, 20))).unwrap();
    assert_eq!((r.max_cores, r.size, r.ring_buffer_header, r.ring_buffer_data), (1, 0x20_0000, 10, 20));
    assert_eq!(handle_rb_map(&net, Err(-6)).err(), Some(-6));
    assert_eq!(handle_rb_map(&handle(), Ok((1, 2))).err(), Some(STATUS_INVALID_DEVICE_REQUEST));
    assert_eq!(handle_recv(&mut net, -7, 1, 2), (-7, false));
    assert_eq!(handle_recv(&mut net, 0, 1, 2), (STATUS_PENDING, false));
    let mut flow = open(LAYER_FLOW);
    assert_eq!(handle_rb_map(&flow, Ok((1, 2))).unwrap().max_cores, 1);
    assert_eq!(handle_recv(&mut flow, 0, 1, 2), (STATUS_PENDING, false));
    let mut file = open(LAYER_FILE);
    assert_eq!(handle_recv(&mut file, 0, 1, 2), (STATUS_PENDING, false));
    assert_eq!(handle_recv(&mut handle(), 0, 1, 2), (STATUS_INVALID_DEVICE_REQUEST, false));
    assert_eq!(handle_send(&net), Ok(SendTarget::Network));
    assert_eq!(handle_send(&file), Ok(SendTarget::File));
    assert_eq!(handle_send(&handle()), Err(STATUS_INVALID_DEVICE_REQUEST));
}

#[test]
fn filters_are_set() {
    let mut c = open(LAYER_NETWORK);
    let program = compile_bpf("tcp").unwrap();
    assert_eq!(handle_set_bpf(&mut c, 0, &encode_program(&program)), STATUS_SUCCESS);
    assert_eq!(c.get_network_module().unwrap().bpf_program, program);
    assert_eq!(handle_set_bpf(&mut c, -8, &[]), -8);
    let mut f = open(LAYER_FILE);
    assert_eq!(
        handle_set_bpf(&mut f, 0, &encode_program(&program)),
        STATUS_INVALID_DEVICE_REQUEST
    );
}

#[test]
fn handles_are_opened_and_cleaned_up() {
    assert_eq!(get_file_ctx(0, Some(5)), Err(STATUS_INVALID_DEVICE_REQUEST));
    assert_eq!(get_file_ctx(1, Some(5)), Ok(5));
    assert_eq!(get_file_ctx(1, None), Err(STATUS_INVALID_DEVICE_REQUEST));
    assert_eq!(file_create(0, Ok(handle()), true).0, STATUS_INVALID_DEVICE_REQUEST);
    assert_eq!(file_create(1, Err(-3), true).0, -3);
    assert_eq!(file_create(1, Ok(handle()), false).0, STATUS_INSUFFICIENT_RESOURCES);
    let (status, kept) = file_create(1, Ok(handle()), true);
    assert_eq!((status, kept.is_some()), (STATUS_SUCCESS, true));

    let mut monitor = FileMonitor::new();
    let mut net = open(LAYER_NETWORK);
    if let Some(ModuleContext::Network(m)) = &mut net.module {
        m.network_ctx.fwpm_engine_handle = 4;
        m.network_ctx.filter_ids = vec![5, 6];
    }
    match file_cleanup(&mut net, &mut monitor) {
        CleanupWork::Network { filters, engine } => assert_eq!((filters, engine), (vec![5, 6], Some(4))),
        _ => panic!("no network work"),
    }
    assert!(net.module.is_none());
    assert_eq!(net.state, ContextState::Closed);
    assert!(matches!(file_cleanup(&mut net, &mut monitor), CleanupWork::Nothing));
    let mut file = open(LAYER_FILE);
    if let Some(ModuleContext::File(m)) = &mut file.module {
        m.filter_handle = 8;
    }
    monitor.active = 2;
    assert!(matches!(
        file_cleanup(&mut file, &mut monitor),
        CleanupWork::File { unregister: Some(8) }
    ));
    assert_eq!(monitor.active, 0);
}

#[test]
fn requests_are_dispatched() {
    let go = |code| ioctl_callback(1, Ok(2), code);
    assert_eq!(go(IOCTL_INITIALIZE), Dispatch::Initialize);
    assert_eq!(go(IOCTL_STARTUP), Dispatch::Startup);
    assert_eq!(go(IOCTL_MAP_MM), Dispatch::MapMm);
    assert_eq!(go(IOCTL_RECV), Dispatch::Recv);
    assert_eq!(go(IOCTL_SEND), Dispatch::Send);
    assert_eq!(go(IOCTL_SET_BPF), Dispatch::SetBpf);
    let refused = Dispatch::Complete { status: STATUS_INVALID_DEVICE_REQUEST };
    assert_eq!(go(IOCTL_VERSION), refused);
    assert_eq!(ioctl_callback(0, Ok(2), IOCTL_SEND), refused);
    assert_eq!(ioctl_callback(1, Err(-4), IOCTL_SEND), Dispatch::Complete { status: -4 });
    assert!(io_in_caller_context(true, IOCTL_MAP_MM, true));
    assert!(!io_in_caller_context(false, IOCTL_MAP_MM, true));
    assert!(!io_in_caller_context(true, IOCTL_SEND, true));
    assert!(!io_in_caller_context(true, IOCTL_MAP_MM, false));
    assert_eq!(retrieve_io_buffer(-1, -2), -1);
    assert_eq!(retrieve_io_buffer(0, -2), -2);
    assert_eq!(retrieve_io_buffer(0, 0), STATUS_SUCCESS);
    assert_eq!((complete_map(0), complete_map(-1)), (Some(40), None));
    assert!(!completes_recv(STATUS_PENDING) && !completes_recv(STATUS_SUCCESS) && completes_recv(-1));
    assert!(!completes_send(STATUS_PENDING) && completes_send(STATUS_SUCCESS));
}

#[test]
fn the_driver_keeps_where_it_came_from() {
    let mut g = DriverGlobals::new();
    assert_eq!((g.get_global_driver_object(), g.get_global_registry_path().len()), (0, 0));
    g.driver_entry(9, Some(&[1, 2]));
    assert_eq!(g.get_global_registry_path(), &[1, 2, 0]);
    assert_eq!(g.get_global_driver_object(), 9);
    g.driver_entry(10, None);
    assert_eq!((g.get_global_driver_object(), g.get_global_registry_path().len()), (10, 3));
    g.set_global_registry_path(vec![4]);
    g.set_global_driver_object(11);
    assert_eq!((g.driver_object, g.registry_path), (11, vec![4]));
}

#[test]
fn the_control_device_is_made_step_by_step() {
    let mut stage = DeviceStage::Allocating;
    for (event, action) in [
        (DeviceEvent::Allocated(true), DeviceAction::AssignName),
        (DeviceEvent::NameAssigned(0), DeviceAction::Create),
        (DeviceEvent::Created { status: 0, device: 6 }, DeviceAction::CreateLink { device: 6 }),
        (DeviceEvent::LinkCreated(0), DeviceAction::CreateQueue { device: 6 }),
        (
            DeviceEvent::QueueCreated(0),
            DeviceAction::Finish { free_init: false, device: 6, status: STATUS_SUCCESS },
        ),
    ] {
        let (next, a) = create_control_device(stage, event);
        assert_eq!(a, action);
        stage = next;
    }
    assert_eq!(stage, DeviceStage::Done);
    let fail = |stage, event| create_control_device(stage, event).1;
    let finish = |free_init, status| DeviceAction::Finish { free_init, device: 0, status };
    assert_eq!(
        fail(DeviceStage::Allocating, DeviceEvent::Allocated(false)),
        finish(false, STATUS_INSUFFICIENT_RESOURCES)
    );
    assert_eq!(fail(DeviceStage::Naming, DeviceEvent::NameAssigned(-2)), finish(true, -2));
    assert_eq!(
        fail(DeviceStage::Creating, DeviceEvent::Created { status: -3, device: 1 }),
        finish(true, -3)
    );
    assert_eq!(
        fail(DeviceStage::Linking { device: 1 }, DeviceEvent::LinkCreated(-4)),
        finish(false, -4)
    );
    assert_eq!(
        fail(DeviceStage::Queueing { device: 1 }, DeviceEvent::QueueCreated(-5)),
        finish(false, -5)
    );
}
