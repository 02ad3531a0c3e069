use fastdivert::file_config::{decode_config, encode_config, FILE_CONFIG_SIZE};
use fastdivert::file_monitor::file_module::{
    FileModule, FileStartupAction, FileStartupEvent, PendingTransaction, TransactionTracker,
};
use fastdivert::file_monitor::minifilter::{
    begin_pre_op, file_operations, finish_redirect, get_file_path, FileMonitor, PreOpReport,
    PreOpStart, PreOpVerdict, RedirectEnd,
};
use fastdivert::file_monitor::path_match::{
    matches_exact_u16, matches_glob_u16, matches_prefix_u16, matches_suffix_u16,
};
use fastdivert::file_monitor::registry::{Provisioning, RegistryAction, REG_DWORD, REG_SZ};
use fastdivert::file_monitor::rules::{
    find_rule, get_op_code, get_op_flag, IRP_MJ_CREATE, IRP_MJ_SET_INFORMATION, IRP_MJ_WRITE,
};
use fastdivert::file_policy::{deny_text_writes, has_suffix, op_name, Redirector};
use fastdivert::file_types::{
    decode_event, drive_to_look_up, encode_event, resolve_win32_path_to_nt, FileCallbackDecision,
    FileConfigError, FileDecision, FileEvent, FileModuleConfig, FILE_ACTION_ALLOW,
    FILE_ACTION_DENY, FILE_ACTION_REDIRECT, FILE_MATCH_EXACT, FILE_MATCH_GLOB, FILE_MATCH_PREFIX,
    FILE_MATCH_SUFFIX, FILE_OP_CREATE, FILE_OP_DELETE, FILE_OP_WRITE,
};
use fastdivert::ioctl::file_decision;
use fastdivert::ringbuffer::client::RingBufferClient;
use fastdivert::ringbuffer::data::RingBufferData;
use fastdivert::ringbuffer::per_cpu_ring::Notify;
use fastdivert::ringbuffer::scan::scan_event;
use fastdivert::status::{
    STATUS_ACCESS_DENIED, STATUS_BUFFER_TOO_SMALL, STATUS_INSUFFICIENT_RESOURCES,
    STATUS_INVALID_DEVICE_REQUEST, STATUS_INVALID_PARAMETER, STATUS_NOT_FOUND, STATUS_REPARSE,
    STATUS_SUCCESS, STATUS_TIMEOUT, STATUS_UNSUCCESSFUL,
};
use fastdivert::utf16;

fn u(s: &str) -> Vec<u16> {
    s.encode_utf16().collect()
}

fn sz(s: &str) -> Vec<u8> {
    let mut out = Vec::new();
    for unit in u(s) {
        out.extend_from_slice(&unit.to_le_bytes());
    }
    out.extend_from_slice(&[0, 0]);
    out
}

fn glob(path: &str, pattern: &str) -> bool {
    matches_glob_u16(&u(path), &u(pattern))
}

/// A module with one rule, and a monitor that has been started for it.
fn started(path: &str, mask: u32, kind: u32, action: u32) -> (FileModule, FileMonitor) {
    let mut module = FileModule::new().unwrap();
    module.config =
        FileModuleConfig::new(2500, action).add_filter(path, None, mask, kind, 0, false).unwrap();
    let mut monitor = FileMonitor::new();
    let begin = FileStartupEvent::Begin { initiator_pid: 77 };
    assert_eq!(module.startup(&mut monitor, 5, begin), FileStartupAction::Provision);
    assert_eq!(
        module.startup(&mut monitor, 5, FileStartupEvent::Provisioned(Ok(()))),
        FileStartupAction::Register
    );
    let registered = FileStartupEvent::Registered { status: 0, filter: 31 };
    assert_eq!(
        module.startup(&mut monitor, 5, registered),
        FileStartupAction::Start { filter: 31 }
    );
    assert_eq!(
        module.startup(&mut monitor, 5, FileStartupEvent::Started { status: 0 }),
        FileStartupAction::Finish { unregister: None, result: Ok(()) }
    );
    assert_eq!((monitor.active, module.exempt_pid, module.filter_handle), (5, 77, 31));
    (module, monitor)
}

/// A client on the ring of a module.
fn client_of(module: &mut FileModule) -> RingBufferClient {
    let ring = module.ring_buffer.as_mut().unwrap().rb_datas.remove(0);
    let size = ring.size;
    let send = RingBufferData::new(size, false).unwrap();
    match RingBufferClient::new_with_config(1, vec![ring], send, size) {
        Ok(c) => c,
        Err(e) => panic!("{}", e.message()),
    }
}

/// Hands the ring back to its module.
fn give_back(module: &mut FileModule, mut client: RingBufferClient) {
    module.ring_buffer.as_mut().unwrap().rb_datas.push(client.rings.remove(0));
}

#[test]
fn utf16_round_trip() {
    for s in ["", "abc", "h\u{e9}llo", "\u{1F600}x", "\u{FFFF}"] {
        let units = utf16::encode(s);
        assert_eq!(units, u(s));
        assert_eq!(utf16::decode(&units), Some(s.to_string()));
        assert_eq!(utf16::decode_lossy(&units), s);
    }
    let lone = [0x41, 0xD800, 0x42, 0xDC00];
    assert_eq!(utf16::decode(&lone), None);
    assert_eq!(utf16::decode_lossy(&lone), String::from_utf16_lossy(&lone));
}

#[test]
fn paths_are_compared_without_case() {
    assert!(matches_exact_u16(&u("\\A\\b.TXT"), &u("\\a\\B.txt")));
    assert!(!matches_exact_u16(&u("ab"), &u("abc")));
    assert!(matches_prefix_u16(&u("\\Device\\X"), &u("\\device")));
    assert!(!matches_prefix_u16(&u("\\dev"), &u("\\device")));
    assert!(matches_suffix_u16(&u("a.TXT"), &u(".txt")));
    assert!(!matches_suffix_u16(&u("txt"), &u(".txt")));
    assert!(matches_prefix_u16(&u("x"), &[]));
    // Only the letters of ASCII have two forms.
    assert!(!matches_exact_u16(&[0xE9], &[0xC9]));
}

#[test]
fn globs_have_stars_and_question_marks() {
    assert!(glob("\\tmp\\a.txt", "*.txt"));
    assert!(glob("\\tmp\\A.TXT", "\\tmp\\?.txt"));
    assert!(!glob("\\tmp\\ab.txt", "\\tmp\\?.txt"));
    assert!(glob("", "*"));
    assert!(glob("", ""));
    assert!(!glob("a", ""));
    assert!(glob("abcabc", "*abc"));
    assert!(glob("aXbYc", "a*b*c"));
    assert!(!glob("aXbY", "a*b*c"));
    assert!(glob("a*b", "a*b"));
    assert!(glob("abc", "abc**"));
}

#[test]
fn literal_and_prefix_patterns() {
    for (path, pattern) in [("abc", "abc"), ("abc", "abd"), ("aBc", "AbC"), ("a", "ab")] {
        assert_eq!(glob(path, pattern), matches_exact_u16(&u(path), &u(pattern)));
        let starred = format!("{}*", pattern);
        assert_eq!(glob(path, &starred), matches_prefix_u16(&u(path), &u(pattern)));
    }
}

#[test]
fn operations_have_flags_and_codes() {
    assert_eq!(file_operations(), [0x00, 0x04, 0x06]);
    assert_eq!(get_op_flag(IRP_MJ_CREATE), FILE_OP_CREATE);
    assert_eq!(get_op_flag(IRP_MJ_WRITE), FILE_OP_WRITE);
    assert_eq!(get_op_flag(IRP_MJ_SET_INFORMATION), FILE_OP_DELETE);
    assert_eq!(get_op_flag(3), 0);
    let codes: Vec<u32> = [0, 4, 6, 9].iter().map(|m| get_op_code(*m)).collect();
    assert_eq!(codes, vec![1, 2, 3, 0]);
    let names: Vec<&str> = [1, 2, 3, 4].iter().map(|c| op_name(*c)).collect();
    assert_eq!(names, vec!["CREATE", "WRITE", "SET_INFO", "UNKNOWN"]);
}

#[test]
fn rules_are_added_up_to_the_limit() {
    let mut c = FileModuleConfig::default();
    assert_eq!((c.timeout_ms, c.default_action, c.rule_count), (5000, FILE_ACTION_ALLOW, 0));
    for n in 0..16u32 {
        c = c.add_filter("\\x", None, FILE_OP_WRITE, FILE_MATCH_SUFFIX, n, n % 2 == 1).unwrap();
    }
    assert_eq!(c.rule_count, 16);
    assert_eq!((c.rules[3].process_id, c.rules[3].is_exclude_process), (3, 1));
    assert_eq!((c.rules[3].path_len, c.rules[3].path[..3].to_vec()), (2, vec![0x5C, 0x78, 0]));
    let full = c.add_filter("\\x", None, 1, 0, 0, false).err().unwrap();
    assert_eq!(full, FileConfigError::TooManyRules);
    assert_eq!(full.message(), "Maximum rule limit reached (16)");
    let long = "y".repeat(261);
    let e = FileModuleConfig::default().add_filter(&long, None, 1, 0, 0, false).err().unwrap();
    assert_eq!(e, FileConfigError::PathTooLong(261));
    assert_eq!(
        e.message(),
        "Resolved NT path length 261 exceeds maximum limit of 260 characters"
    );
    assert!(FileModuleConfig::default().add_filter(&long[..260], None, 1, 0, 0, false).is_ok());
}

#[test]
fn the_first_rule_that_fits_counts() {
    let c = FileModuleConfig::new(1, 1)
        .add_filter("\\a", None, FILE_OP_WRITE, FILE_MATCH_PREFIX, 9, false)
        .unwrap()
        .add_filter("\\a\\b", None, FILE_OP_WRITE | FILE_OP_CREATE, FILE_MATCH_EXACT, 9, true)
        .unwrap()
        .add_filter("*b", None, FILE_OP_CREATE, FILE_MATCH_GLOB, 0, false)
        .unwrap()
        .add_filter("x", None, FILE_OP_CREATE, 8, 0, false)
        .unwrap();
    let path = u("\\A\\B");
    assert_eq!(find_rule(&c, IRP_MJ_WRITE, 9, &path), Some(0));
    assert_eq!(find_rule(&c, IRP_MJ_WRITE, 8, &path), Some(1));
    assert_eq!(find_rule(&c, IRP_MJ_CREATE, 9, &path), Some(2));
    assert_eq!(find_rule(&c, IRP_MJ_SET_INFORMATION, 9, &path), None);
    assert_eq!(find_rule(&c, IRP_MJ_CREATE, 1, &u("x")), None);
    let mut over = c;
    over.rule_count = 1000;
    assert_eq!(find_rule(&over, IRP_MJ_CREATE, 9, &path), Some(2));
}

#[test]
fn drives_are_replaced() {
    assert_eq!(drive_to_look_up("C:\\x"), Some(vec![0x43, 0x3A, 0]));
    assert_eq!(drive_to_look_up("\\x"), None);
    assert_eq!(drive_to_look_up("C"), None);
    let mut device = u("\\Device\\HarddiskVolume3");
    device.extend_from_slice(&[0, 0x41, 0x42]);
    assert_eq!(
        resolve_win32_path_to_nt("C:\\dir\\f.txt", Some(&device)),
        "\\Device\\HarddiskVolume3\\dir\\f.txt"
    );
    assert_eq!(resolve_win32_path_to_nt("C:\\dir", None), "C:\\dir");
    assert_eq!(resolve_win32_path_to_nt("\\dir", Some(&device)), "\\dir");
    assert_eq!(resolve_win32_path_to_nt("C:\\dir", Some(&[0xD800])), "C:\\dir");
}

#[test]
fn a_rule_for_a_drive_names_its_device() {
    let device = u("\\Device\\HarddiskVolume3\0");
    let c = FileModuleConfig::default().add_filter("C:\\x", Some(&device), 1, 0, 0, false).unwrap();
    let expected = u("\\Device\\HarddiskVolume3\\x");
    assert_eq!(c.rules[0].path_len as usize, expected.len());
    assert_eq!(c.rules[0].path[..expected.len()].to_vec(), expected);
    let c = FileModuleConfig::default().add_filter("C:\\x", None, 1, 0, 0, false).unwrap();
    assert_eq!(c.rules[0].path[..c.rules[0].path_len as usize].to_vec(), u("C:\\x"));
    let long = "C:".to_string() + &"\\".repeat(250);
    let e = FileModuleConfig::default().add_filter(&long, Some(&device), 1, 0, 0, false);
    assert_eq!(e.err(), Some(FileConfigError::PathTooLong(273)));
}

#[test]
fn configurations_survive_the_wire() {
    let c = FileModuleConfig::new(0x01020304, 2)
        .add_filter("\\q", None, FILE_OP_DELETE, FILE_MATCH_GLOB, 0x0A0B, true)
        .unwrap();
    let bytes = encode_config(&c);
    assert_eq!(bytes.len(), FILE_CONFIG_SIZE);
    assert_eq!(bytes[..12].to_vec(), vec![4, 3, 2, 1, 2, 0, 0, 0, 1, 0, 0, 0]);
    assert_eq!(bytes[12..28].to_vec(), vec![4, 0, 0, 0, 3, 0, 0, 0, 2, 0, 0, 0, 0x5C, 0, 0x71, 0]);
    let d = decode_config(&bytes);
    assert_eq!((d.timeout_ms, d.default_action, d.rule_count), (0x01020304, 2, 1));
    for i in 0..16 {
        let (a, b) = (c.rules[i], d.rules[i]);
        assert_eq!(a.path.to_vec(), b.path.to_vec());
        assert_eq!(
            (a.operation_mask, a.match_type, a.path_len, a.process_id, a.is_exclude_process),
            (b.operation_mask, b.match_type, b.path_len, b.process_id, b.is_exclude_process)
        );
    }
}

#[test]
fn events_survive_the_ring() {
    let mut redirect_path = [0u16; 260];
    redirect_path[259] = 0x1234;
    let e = FileEvent {
        transaction_id: 0x0102_0304_0506_0708,
        process_id: 9,
        op_code: 2,
        path_len: 4,
        decision: 3,
        redirect_path_len: 260,
        redirect_path,
    };
    let bytes = encode_event(&e);
    assert_eq!(bytes.len(), 552);
    assert_eq!(bytes[..12].to_vec(), vec![8, 7, 6, 5, 4, 3, 2, 1, 9, 0, 0, 0]);
    assert_eq!(bytes[546..].to_vec(), vec![0x34, 0x12, 0, 0, 0, 0]);
    let d = decode_event(&bytes);
    assert_eq!(d.transaction_id, e.transaction_id);
    assert_eq!(
        (d.process_id, d.op_code, d.path_len, d.decision, d.redirect_path_len),
        (9, 2, 4, 3, 260)
    );
    assert_eq!(d.redirect_path.to_vec(), e.redirect_path.to_vec());
}

#[test]
fn transactions_are_found_and_removed() {
    let mut t = TransactionTracker::new();
    let tx = |id| PendingTransaction { transaction_id: id, start_tail: 0, signaled: false };
    t.add(tx(4));
    t.add(tx(5));
    assert!(t.signal(&FileDecision { transaction_id: 5 }));
    assert!(!t.signal(&FileDecision { transaction_id: 6 }));
    assert_eq!((t.transactions[0].signaled, t.transactions[1].signaled), (false, true));
    t.remove(4);
    assert_eq!(t.transactions.len(), 1);
    t.remove(4);
    assert_eq!(t.transactions[0].transaction_id, 5);
}

#[test]
fn paths_are_looked_up_or_not() {
    let (module, _) = started("*", FILE_OP_CREATE, FILE_MATCH_GLOB, FILE_ACTION_ALLOW);
    let m = Some(&module);
    assert_eq!(begin_pre_op(m, true, 0, 1, IRP_MJ_CREATE), PreOpStart::QueryPath { opened: true });
    assert_eq!(begin_pre_op(m, true, 0, 1, IRP_MJ_WRITE), PreOpStart::QueryPath { opened: false });
    assert_eq!(begin_pre_op(m, true, 0x02, 1, 0), PreOpStart::Pass);
    assert_eq!(begin_pre_op(m, true, 0x40, 1, 0), PreOpStart::Pass);
    assert_eq!(begin_pre_op(m, true, 0x3D, 1, 0), PreOpStart::QueryPath { opened: true });
    assert_eq!(begin_pre_op(m, true, 0, 77, 0), PreOpStart::Pass);
    assert_eq!(begin_pre_op(m, false, 0, 1, 0), PreOpStart::Pass);
    assert_eq!(begin_pre_op(None, true, 0, 1, 0), PreOpStart::Pass);
    assert_eq!(get_file_path(true, 0, &[1, 2, 3], 2), Ok(vec![1, 2]));
    assert_eq!(get_file_path(true, 0, &[1, 2, 3], 3), Ok(vec![1, 2, 3]));
    assert_eq!(get_file_path(true, -9, &[1], 2), Err(-9));
    assert_eq!(get_file_path(false, 0, &[1], 2), Err(STATUS_INVALID_PARAMETER));
}

#[test]
fn a_denied_operation_is_denied() {
    let (mut module, mut monitor) =
        started("*.txt", FILE_OP_WRITE, FILE_MATCH_GLOB, FILE_ACTION_ALLOW);
    assert_eq!(module.arm_recv(60, 61), Ok(()));
    let path = u("\\dir\\a.txt");
    let r = monitor.report_pre_op(&mut module, 4, IRP_MJ_WRITE, &Ok(path.clone()));
    let notify = Some(Notify { callback: 60, context: 61 });
    assert_eq!(
        r,
        PreOpReport::Wait { transaction_id: 1, start_tail: 0, ticks: -25_000_000, notify }
    );
    assert_eq!(monitor.next_tx_id, 2);

    let mut client = client_of(&mut module);
    let event = client.next_file_event().unwrap();
    assert_eq!(event.path, "\\dir\\a.txt");
    assert_eq!(
        (event.event.transaction_id, event.event.process_id, event.event.op_code),
        (1, 4, 2)
    );
    assert_eq!(event.record_len, 560 + 2 * path.len());
    let decision = deny_text_writes(&event.path, event.event.op_code);
    assert_eq!(decision, FileCallbackDecision::Deny);
    event.set_decision(&mut client, &decision);
    client.release(0, event.new_head());
    assert!(client.next_file_event_for_core(0).is_none());
    give_back(&mut module, client);

    let told = file_decision(&FileDecision { transaction_id: 1 });
    assert_eq!(told, vec![1, 0, 0, 0, 0, 0, 0, 0]);
    assert_eq!(FileModule::handle_send(&mut monitor, 8, 0, Some(&told)), STATUS_SUCCESS);
    assert!(monitor.tracker.as_ref().unwrap().transactions[0].signaled);
    match monitor.conclude_pre_op(&module, 1, 0, 4, IRP_MJ_WRITE, STATUS_SUCCESS) {
        PreOpVerdict::Complete { status, information } => {
            assert_eq!((status, information), (STATUS_ACCESS_DENIED, 0));
        }
        _ => panic!("not denied"),
    }
    assert!(monitor.tracker.as_ref().unwrap().transactions.is_empty());
}

#[test]
fn a_redirected_create_is_renamed() {
    let (mut module, mut monitor) =
        started("\\a", FILE_OP_CREATE, FILE_MATCH_PREFIX, FILE_ACTION_ALLOW);
    let r = monitor.report_pre_op(&mut module, 4, IRP_MJ_CREATE, &Ok(u("\\a\\b")));
    assert!(matches!(r, PreOpReport::Wait { transaction_id: 1, notify: None, .. }));
    let mut client = client_of(&mut module);
    let event = client.next_file_event_for_core(0).unwrap();
    event.set_decision(&mut client, &FileCallbackDecision::Redirect("\\c\\d".to_string()));
    give_back(&mut module, client);
    match monitor.conclude_pre_op(&module, 1, 0, 4, IRP_MJ_CREATE, STATUS_SUCCESS) {
        PreOpVerdict::Redirect { path } => assert_eq!(path, u("\\c\\d")),
        _ => panic!("not redirected"),
    }
    // Only opening a file can be redirected.
    match monitor.conclude_pre_op(&module, 1, 0, 4, IRP_MJ_WRITE, STATUS_SUCCESS) {
        PreOpVerdict::Complete { status, .. } => assert_eq!(status, STATUS_INVALID_PARAMETER),
        _ => panic!("not refused"),
    }
    assert_eq!(
        finish_redirect(true, true, 4),
        RedirectEnd::Rename { bytes: 8, status: STATUS_REPARSE, information: 1 }
    );
    assert_eq!(finish_redirect(true, false, 4), RedirectEnd::Pass);
    assert_eq!(
        finish_redirect(false, true, 4),
        RedirectEnd::Complete { status: STATUS_INSUFFICIENT_RESOURCES, information: 0 }
    );
    assert_eq!(FILE_ACTION_REDIRECT, 3);
}

#[test]
fn a_timeout_means_the_default() {
    let (mut module, mut monitor) =
        started("*", FILE_OP_CREATE, FILE_MATCH_GLOB, FILE_ACTION_DENY);
    let r = monitor.report_pre_op(&mut module, 4, IRP_MJ_CREATE, &Ok(u("\\a")));
    assert!(matches!(r, PreOpReport::Wait { .. }));
    assert!(matches!(
        monitor.conclude_pre_op(&module, 1, 0, 4, IRP_MJ_CREATE, STATUS_TIMEOUT),
        PreOpVerdict::Complete { status: STATUS_ACCESS_DENIED, information: 0 }
    ));
    // An event that nobody decided on is allowed.
    assert!(matches!(
        monitor.conclude_pre_op(&module, 1, 0, 4, IRP_MJ_CREATE, STATUS_SUCCESS),
        PreOpVerdict::Pass
    ));
    module.ring_buffer = None;
    assert!(matches!(
        monitor.conclude_pre_op(&module, 1, 0, 4, IRP_MJ_CREATE, STATUS_SUCCESS),
        PreOpVerdict::Complete { status: STATUS_ACCESS_DENIED, information: 0 }
    ));
}

#[test]
fn operations_without_a_rule_pass() {
    let (mut module, mut monitor) =
        started("*.txt", FILE_OP_WRITE, FILE_MATCH_GLOB, FILE_ACTION_ALLOW);
    for (major, path) in [
        (IRP_MJ_WRITE, Ok(u("\\a.doc"))),
        (IRP_MJ_CREATE, Ok(u("\\a.txt"))),
        (IRP_MJ_WRITE, Ok(vec![])),
        (IRP_MJ_WRITE, Err(-1)),
    ] {
        assert_eq!(monitor.report_pre_op(&mut module, 4, major, &path), PreOpReport::Pass);
    }
    assert_eq!(monitor.next_tx_id, 1);
    module.ring_buffer = None;
    let r = monitor.report_pre_op(&mut module, 4, IRP_MJ_WRITE, &Ok(u("\\a.txt")));
    assert_eq!(r, PreOpReport::Pass);
    assert_eq!(monitor.next_tx_id, 2);
    assert_eq!(module.push_event(1, 2, 3, &[1]), Err(STATUS_INVALID_DEVICE_REQUEST));
}

#[test]
fn a_full_event_ring_refuses() {
    let mut module = FileModule::new().unwrap();
    let path = vec![0x41u16; 500_000];
    assert_eq!(module.push_event(1, 2, 3, &path), Ok((0, None)));
    assert_eq!(module.push_event(2, 2, 3, &path), Ok((1_000_560, None)));
    assert_eq!(module.push_event(3, 2, 3, &path), Err(STATUS_INSUFFICIENT_RESOURCES));
}

#[test]
fn decisions_that_cannot_be_used() {
    let mut monitor = FileMonitor::new();
    let seven = [7u8, 0, 0, 0, 0, 0, 0, 0];
    assert_eq!(FileModule::handle_send(&mut monitor, 7, 0, None), STATUS_BUFFER_TOO_SMALL);
    assert_eq!(FileModule::handle_send(&mut monitor, 8, -3, None), -3);
    assert_eq!(
        FileModule::handle_send(&mut monitor, 8, 0, Some(&seven)),
        STATUS_INVALID_DEVICE_REQUEST
    );
    monitor.init_transaction_tracker();
    assert_eq!(FileModule::handle_send(&mut monitor, 8, 0, Some(&seven)), STATUS_NOT_FOUND);
}

#[test]
fn starting_can_fail_at_each_step() {
    let mut module = FileModule::new().unwrap();
    let mut monitor = FileMonitor::new();
    let finish = |unregister, e| FileStartupAction::Finish { unregister, result: Err(e) };
    assert_eq!(
        module.startup(&mut monitor, 5, FileStartupEvent::Provisioned(Err(-2))),
        finish(None, -2)
    );
    assert_eq!(monitor.active, 0);
    module.startup(&mut monitor, 5, FileStartupEvent::Provisioned(Ok(())));
    assert_eq!(monitor.active, 5);
    assert_eq!(
        module.startup(&mut monitor, 5, FileStartupEvent::Registered { status: -3, filter: 8 }),
        finish(None, -3)
    );
    assert_eq!((monitor.active, module.filter_handle), (0, 0));
    module.startup(&mut monitor, 5, FileStartupEvent::Provisioned(Ok(())));
    module.startup(&mut monitor, 5, FileStartupEvent::Registered { status: 0, filter: 8 });
    assert_eq!(
        module.startup(&mut monitor, 5, FileStartupEvent::Started { status: -4 }),
        finish(Some(8), -4)
    );
    assert_eq!((monitor.active, module.filter_handle), (0, 0));
}

#[test]
fn a_module_maps_and_cleans_up() {
    let (mut module, mut monitor) = started("*", 1, 3, 1);
    let r = module.map_memory(Ok((100, 200))).unwrap();
    assert_eq!((r.max_cores, r.size), (1, 0x20_0000));
    assert_eq!((r.ring_buffer_header, r.ring_buffer_data), (100, 200));
    assert_eq!((r.send_ring_buffer_header, r.send_ring_buffer_data), (0, 0));
    assert_eq!(module.map_memory(Err(-5)).err(), Some(-5));
    assert_eq!(module.cleanup(&mut monitor), Some(31));
    assert_eq!((monitor.active, module.filter_handle), (0, 0));
    assert_eq!(module.cleanup(&mut monitor), None);
    assert_eq!(module.map_memory(Ok((1, 2))).err(), Some(STATUS_INVALID_DEVICE_REQUEST));
    assert_eq!(module.arm_recv(1, 2), Err(STATUS_INVALID_DEVICE_REQUEST));
}

#[test]
fn registry_keys_are_written_and_closed() {
    let (mut p, first) = Provisioning::begin(&u("\\Registry\\Svc\0"));
    assert!(matches!(first, RegistryAction::CreateKey { root: None, .. }));
    if let RegistryAction::CreateKey { name, .. } = first {
        assert_eq!(name, u("\\Registry\\Svc"));
    }
    match p.step(0, 10) {
        RegistryAction::CreateKey { root, name } => {
            assert_eq!((root, name), (Some(10), u("Instances")));
        }
        _ => panic!("no key"),
    }
    match p.step(0, 11) {
        RegistryAction::SetValue { key, name, kind, data } => {
            assert_eq!((key, kind), (11, REG_SZ));
            assert_eq!(name, u("DefaultInstance"));
            assert_eq!(data, sz("FastDivertInstance"));
        }
        _ => panic!("no value"),
    }
    match p.step(0, 0) {
        RegistryAction::CreateKey { root, name } => {
            assert_eq!((root, name), (Some(11), u("FastDivertInstance")));
        }
        _ => panic!("no subkey"),
    }
    match p.step(0, 12) {
        RegistryAction::SetValue { key, name, kind, data } => {
            assert_eq!((key, kind), (12, REG_SZ));
            assert_eq!((name, data), (u("Altitude"), sz("385000")));
        }
        _ => panic!("no altitude"),
    }
    match p.step(0, 0) {
        RegistryAction::SetValue { key, name, kind, data } => {
            assert_eq!((key, kind), (12, REG_DWORD));
            assert_eq!((name, data), (u("Flags"), vec![0, 0, 0, 0]));
        }
        _ => panic!("no flags"),
    }
    match p.step(0, 0) {
        RegistryAction::Finish { close, result } => {
            assert_eq!((close, result), (vec![12, 11, 10], Ok(())));
        }
        _ => panic!("no end"),
    }
}

#[test]
fn registry_failures_close_what_is_open() {
    let (mut p, _) = Provisioning::begin(&u("\\R\0"));
    p.step(0, 10);
    p.step(0, 11);
    match p.step(-6, 0) {
        RegistryAction::Finish { close, result } => {
            assert_eq!((close, result), (vec![11, 10], Err(-6)));
        }
        _ => panic!("went on"),
    }
    let (_, none) = Provisioning::begin(&[]);
    match none {
        RegistryAction::Finish { close, result } => {
            assert_eq!((close, result), (vec![], Err(STATUS_UNSUCCESSFUL)));
        }
        _ => panic!("began"),
    }
}

#[test]
fn redirector_learns_a_directory() {
    let mut r = Redirector {
        detect: "marker.txt".to_string(),
        source: "a.txt".to_string(),
        target: "b.txt".to_string(),
        prefix: None,
    };
    assert_eq!(r.on_event("\\d\\a.txt"), FileCallbackDecision::Allow);
    assert_eq!(r.on_event("\\d\\marker.txt"), FileCallbackDecision::Allow);
    assert_eq!(r.prefix, Some("\\d\\".to_string()));
    assert_eq!(
        r.on_event("\\other\\a.txt"),
        FileCallbackDecision::Redirect("\\d\\b.txt".to_string())
    );
    assert_eq!(r.on_event("\\d\\c.txt"), FileCallbackDecision::Allow);
    assert!(has_suffix("abc", ""));
    assert!(!has_suffix("c", "bc"));
    assert_eq!(deny_text_writes("x.txt", 1), FileCallbackDecision::Allow);
    assert_eq!(deny_text_writes("x.doc", 2), FileCallbackDecision::Allow);
}

#[test]
fn answers_are_written_unless_they_allow() {
    let (mut module, mut monitor) =
        started("*", FILE_OP_CREATE, FILE_MATCH_GLOB, FILE_ACTION_ALLOW);
    for _ in 0..2 {
        let r = monitor.report_pre_op(&mut module, 4, IRP_MJ_CREATE, &Ok(u("\\a")));
        assert!(matches!(r, PreOpReport::Wait { .. }));
    }
    let mut client = client_of(&mut module);
    let before = client.rings[0].buf.clone();
    let first = client.next_file_event().unwrap();
    client.release(0, first.new_head());
    assert_eq!(first.answer(&mut client, &FileCallbackDecision::Allow).transaction_id, 1);
    assert_eq!(client.rings[0].buf, before);
    let second = client.next_file_event().unwrap();
    client.release(0, second.new_head());
    assert_eq!(second.answer(&mut client, &FileCallbackDecision::Deny).transaction_id, 2);
    let at = second.old_head + 8;
    assert_eq!(decode_event(&client.rings[0].buf[at..]).decision, FILE_ACTION_DENY);
}

#[test]
fn a_path_may_run_over_the_end_once() {
    let mut buf: Vec<u8> = (0..1024u32).map(|i| (i % 251) as u8).collect();
    buf[..8].copy_from_slice(&[0x28, 2, 0, 0, 0, 0, 0, 0]);
    let mut read = |units: u16| {
        buf[24..28].copy_from_slice(&[units as u8, (units >> 8) as u8, 0, 0]);
        let scan = scan_event(&buf, 0, 560);
        assert_eq!(scan.head, 0);
        let expected: Vec<u16> = (0..units as usize)
            .map(|i| {
                let low = buf[(560 + 2 * i) % 1024] as u16;
                low + 256 * buf[(561 + 2 * i) % 1024] as u16
            })
            .collect();
        scan.event.map(|e| {
            assert_eq!((e.event.path_len, e.record_len), (units as u32, 560));
            assert_eq!(e.path, String::from_utf16_lossy(&expected));
        })
    };
    assert!(read(0).is_some());
    assert!(read(232).is_some());
    assert!(read(513).is_some());
    assert!(read(744).is_some());
    assert!(read(745).is_none());
}
