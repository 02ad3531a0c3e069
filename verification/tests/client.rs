use fastdivert::bpf_compiler::compile_bpf;
use fastdivert::driver_install::{
    after_create_failure, device_path, hresult_of, install_driver, open_or_install_driver,
    start_result, wide, CreateStep, InstallAction, InstallEvent, InstallFailure, InstallStage,
    OpenStep, HRESULT_SERVICE_ALREADY_RUNNING,
};
use fastdivert::packet_count::{since, totals, PerCpuPacketCount};
use fastdivert::packet_dump;
use fastdivert::packet_parser::{IpAddr, PacketParser};
use fastdivert::raw::{
    copy_packet, cores_of_thread, first_core_with_packet, recv, send_buffer, send_result,
    thread_count, BufferTooSmall,
};
use fastdivert::ringbuffer::client::RingBufferClient;
use fastdivert::ringbuffer::data::RingBufferData;
use fastdivert::ringbuffer::per_cpu_ring::{PerCpuRingBuffer, Piece};
use fastdivert::ringbuffer::records::decode_address;
use fastdivert::ringbuffer::report::push_packet;
use fastdivert::ringbuffer::scan::PacketData;
use fastdivert::text::{parse_decimal, parse_ipv4, push_decimal, same_text, trim_bounds};
use fastdivert::types::{DivertAddress, DivertAddressData, DivertDataNetwork};
use fastdivert::utils::{dump, hexdump, push_hex, DumpStyle};

fn address() -> DivertAddress {
    DivertAddress {
        timestamp: 1,
        flags: 2,
        reserved2: 3,
        data: DivertAddressData::from_network(DivertDataNetwork { if_idx: 4, sub_if_idx: 5 }),
    }
}

fn chars(s: &str) -> Vec<char> {
    s.chars().collect()
}

fn client_with(packets: &[(u32, &[u8])], cores: u32) -> RingBufferClient {
    let mut rb = PerCpuRingBuffer::allocate(512, cores, 0).unwrap();
    for (core, bytes) in packets {
        let n = bytes.len();
        push_packet(&mut rb, *core, &address(), Piece::Slice(bytes.to_vec()), n).unwrap();
    }
    let send = RingBufferData::new(512, false).unwrap();
    match RingBufferClient::new_with_config(cores, rb.rb_datas, send, 512) {
        Ok(c) => c,
        Err(e) => panic!("{}", e.message()),
    }
}

fn ipv4(proto: u8, tail: &[u8]) -> Vec<u8> {
    let mut p = vec![0u8; 20];
    p[0] = 0x45;
    p[9] = proto;
    p[12..16].copy_from_slice(&[10, 0, 0, 1]);
    p[16..20].copy_from_slice(&[192, 168, 1, 254]);
    p.extend_from_slice(tail);
    p
}

#[test]
fn numbers_and_addresses_are_read() {
    assert_eq!(parse_decimal(&chars("65535"), 65535), Some(65535));
    assert_eq!(parse_decimal(&chars("65536"), 65535), None);
    assert_eq!(parse_decimal(&chars("+7"), 65535), Some(7));
    assert_eq!(parse_decimal(&chars("007"), 65535), Some(7));
    assert_eq!(parse_decimal(&chars(""), 65535), None);
    assert_eq!(parse_decimal(&chars("+"), 65535), None);
    assert_eq!(parse_decimal(&chars("-1"), 65535), None);
    assert_eq!(parse_ipv4(&chars("1.2.3.4")), Some(0x01020304));
    for bad in ["1.2.3", "1.2.3.4.5", "1.2.3.256", "01.2.3.4", "1..3.4", ""] {
        assert_eq!(parse_ipv4(&chars(bad)), None, "{}", bad);
    }
    let mut s = String::from("n=");
    push_decimal(&mut s, 0);
    push_decimal(&mut s, 1234567890);
    assert_eq!(s, "n=01234567890");
    assert!(same_text("ab", "ab") && !same_text("ab", "aB"));
}

#[test]
fn whitespace_of_unicode_is_trimmed() {
    assert_eq!(trim_bounds(&chars(" \t x y\u{2003}\n")), (3, 6));
    assert_eq!(trim_bounds(&chars("   ")), (3, 3));
    assert!(compile_bpf("\u{3000}tcp\u{a0}").is_ok());
    assert!(compile_bpf("\u{2003}").is_ok());
}

#[test]
fn filter_words_go_beyond_ascii() {
    // A Kelvin sign is a capital letter whose small form is the letter k.
    assert_eq!(compile_bpf("loopbac\u{212A}").unwrap(), compile_bpf("loopback").unwrap());
    let e = compile_bpf("t\u{e9}l").unwrap_err();
    assert!(e.contains("\u{e9}"), "{}", e);
    let e = compile_bpf("nonsense").unwrap_err();
    assert!(e.contains("nonsense"), "{}", e);
}

#[test]
fn send_buffers_hold_address_and_packet() {
    let parts = PacketData::Wrapped { part1: b"ab", part2: b"c" };
    let b = send_buffer(&address(), &parts);
    assert_eq!(b.len(), 83);
    assert_eq!(b[80..].to_vec(), b"abc".to_vec());
    let a = decode_address(&b);
    assert_eq!((a.timestamp, a.flags, a.reserved2), (1, 2, 3));
    assert_eq!(a.data.network().sub_if_idx, 5);
    assert_eq!(send_result(Ok(())), Ok(()));
    assert_eq!(send_result(Err(hresult_of(997))), Ok(()));
    assert_eq!(send_result(Err(-1)), Err(-1));
}

#[test]
fn packets_are_received_in_turn() {
    let mut c = client_with(&[(1, b"hello"), (0, b"x"), (1, b"toolong")], 2);
    let mut buffer = [9u8; 6];
    assert_eq!(recv(&mut c, &mut buffer), Ok(Some(1)));
    assert_eq!(&buffer, b"x\x09\x09\x09\x09\x09");
    assert_eq!(recv(&mut c, &mut buffer), Ok(Some(5)));
    assert_eq!(&buffer, b"hello\x09");
    let e = recv(&mut c, &mut buffer).unwrap_err();
    assert_eq!(e, BufferTooSmall { buffer: 6, packet: 7 });
    assert_eq!(e.message(), "Provided buffer size (6) is smaller than packet size (7)");
    assert_eq!(&buffer, b"hello\x09");
    assert_eq!(recv(&mut c, &mut buffer), Ok(None));
    let mut exact = [0u8; 3];
    assert_eq!(copy_packet(&PacketData::Contiguous(b"abc"), &mut exact), Ok(3));
    assert_eq!(&exact, b"abc");
}

#[test]
fn cores_are_shared_among_threads() {
    assert_eq!(thread_count(4, 8), 4);
    assert_eq!(thread_count(9, 8), 8);
    assert_eq!(thread_count(0, 8), 1);
    assert_eq!(thread_count(3, 0), 1);
    assert_eq!(cores_of_thread(0, 3, 8), vec![0, 3, 6]);
    assert_eq!(cores_of_thread(2, 3, 8), vec![2, 5]);
    assert_eq!(cores_of_thread(5, 3, 4), vec![]);
    assert_eq!(cores_of_thread(1, u32::MAX, u32::MAX), vec![1]);
    let mut all: Vec<u32> = (0..3).flat_map(|t| cores_of_thread(t, 3, 8)).collect();
    all.sort();
    assert_eq!(all, vec![0, 1, 2, 3, 4, 5, 6, 7]);
    let mut c = client_with(&[(2, b"z")], 3);
    assert_eq!(first_core_with_packet(&mut c, &[0, 2, 1]), Some(1));
    assert_eq!(first_core_with_packet(&mut c, &[0, 1, 9]), None);
}

#[test]
fn the_driver_is_installed_where_it_is_missing() {
    assert_eq!(hresult_of(0), 0);
    assert_eq!(hresult_of(2), 0x80070002u32 as i32);
    assert_eq!(hresult_of(0x80004005), 0x80004005u32 as i32);
    assert_eq!(hresult_of(0x12345), 0x80072345u32 as i32);
    let missing = hresult_of(2);
    assert_eq!(open_or_install_driver(missing, false), OpenStep::Install);
    assert_eq!(open_or_install_driver(hresult_of(3), false), OpenStep::Install);
    assert_eq!(open_or_install_driver(missing, true), OpenStep::Fail);
    assert_eq!(open_or_install_driver(hresult_of(5), false), OpenStep::Fail);
    assert_eq!(after_create_failure(hresult_of(1073)), CreateStep::OpenExisting);
    assert_eq!(after_create_failure(hresult_of(5)), CreateStep::Fail);
    assert_eq!(HRESULT_SERVICE_ALREADY_RUNNING, 0x80070420u32 as i32);
    assert_eq!(start_result(Err(HRESULT_SERVICE_ALREADY_RUNNING)), Ok(()));
    assert_eq!(start_result(Err(-5)), Err(-5));
    assert_eq!(wide("ab"), vec![0x61, 0x62, 0]);
    let path: Vec<u16> = "\\\\.\\FastDivert\0".encode_utf16().collect();
    assert_eq!(device_path("FastDivert"), path);
}

#[test]
fn packets_are_parsed() {
    let tcp = ipv4(6, &[0x12, 0x34, 0, 80]);
    let t = PacketParser::extract_5tuple(&PacketData::Contiguous(&tcp)).unwrap();
    assert_eq!(t.src_ip, IpAddr::V4([10, 0, 0, 1]));
    assert_eq!(t.dst_ip, IpAddr::V4([192, 168, 1, 254]));
    assert_eq!((t.src_port, t.dst_port), (Some(0x1234), Some(80)));
    assert_eq!(t.protocol, "TCP");
    let data = PacketData::Wrapped { part1: &tcp[..21], part2: &tcp[21..] };
    let u = PacketParser::extract_5tuple(&data).unwrap();
    assert_eq!((u.src_port, u.dst_port), (Some(0x1234), Some(80)));
    assert_eq!(PacketParser::get_byte(&data, 23), Some(80));
    assert_eq!(PacketParser::get_byte(&data, 24), None);
    assert_eq!(PacketParser::get_u16(&data, 20), Some(0x1234));
    assert_eq!(PacketParser::get_u16(&data, 23), None);
    assert_eq!(PacketParser::get_u32(&data, 20), Some(0x12340050));
    assert_eq!(PacketParser::get_u32(&data, 21), None);
    assert!(PacketParser::extract_5tuple(&PacketData::Contiguous(&[])).is_none());
    let mut v6 = vec![0u8; 44];
    v6[0] = 0x60;
    v6[6] = 17;
    v6[8] = 0xFE;
    v6[39] = 1;
    v6[41] = 53;
    let t = PacketParser::extract_5tuple(&PacketData::Contiguous(&v6)).unwrap();
    assert_eq!(t.protocol, "UDP");
    assert_eq!((t.src_port, t.dst_port), (Some(53), Some(0)));
    assert!(matches!(t.src_ip, IpAddr::V6(a) if a[0] == 0xFE && a[15] == 0));
    assert!(matches!(t.dst_ip, IpAddr::V6(a) if a[15] == 1));
}

#[test]
fn packets_are_listed() {
    let udp = ipv4(17, &[0, 53, 0x30, 0x39]);
    assert_eq!(
        packet_dump::extract_5tuple(&PacketData::Contiguous(&udp)),
        Some(("10.0.0.1".to_string(), 53, "192.168.1.254".to_string(), 12345, "UDP"))
    );
    let short = ipv4(6, &[0, 53]);
    assert!(packet_dump::extract_5tuple(&PacketData::Contiguous(&short)).is_none());
    let icmp = ipv4(1, &[]);
    let t = packet_dump::extract_5tuple(&PacketData::Contiguous(&icmp)).unwrap();
    assert_eq!((t.1, t.3, t.4), (0, 0, "ICMP"));
    let other = ipv4(99, &[]);
    let t = packet_dump::extract_5tuple(&PacketData::Contiguous(&other)).unwrap();
    assert_eq!(t.4, "UNKNOWN");
}

#[test]
fn dumps_have_lines_of_sixteen() {
    let bytes: Vec<u8> = (0x3E..0x50).collect();
    let text = dump(DumpStyle::Plain, &PacketData::Contiguous(&bytes), 64);
    assert_eq!(
        text,
        "    0000: 3e 3f 40 41 42 43 44 45 46 47 48 49 4a 4b 4c 4d   >?@ABCDEFGHIJKLM\n    \
         0010: 4e 4f                                             NO\n"
    );
    let cut = dump(DumpStyle::Plain, &PacketData::Contiguous(&bytes), 2);
    assert_eq!(
        cut,
        "    0000: 3e 3f                                             >?\n    \
         ... (truncated 16 bytes)\n"
    );
    assert_eq!(packet_dump::print_hexdump(&PacketData::Contiguous(&bytes)), text);
    let many = vec![0u8; 65];
    assert!(packet_dump::print_hexdump(&PacketData::Contiguous(&many)).ends_with("(truncated 1 bytes)\n"));
    let mut s = String::new();
    push_hex(&mut s, 0x1f, 4);
    push_hex(&mut s, 0x12345, 2);
    assert_eq!(s, "001f12345");
}

#[test]
fn dumps_have_colours() {
    let text = hexdump(&PacketData::Contiguous(&[0, 0x41, 0x0a]), 16);
    let expected = format!(
        "    \u{1b}[90m0000:\u{1b}[0m \u{1b}[90m00\u{1b}[0m \u{1b}[36m41\u{1b}[0m \u{1b}[32m0a\u{1b}[0m {}  \u{1b}[32m.A\u{21b5}\u{1b}[0m\n",
        " ".repeat(39)
    );
    assert_eq!(text, expected);
    assert_eq!(hexdump(&PacketData::Contiguous(&[]), 16), "");
}

#[test]
fn packets_are_counted() {
    let c = |count, bytes| PerCpuPacketCount { count, bytes };
    let t = totals(&vec![c(1, 10), c(2, 20), PerCpuPacketCount::default()]);
    assert_eq!(t, c(3, 30));
    assert_eq!(since(&c(5, 50), &t), c(2, 20));
    assert_eq!(since(&c(1, 10), &c(2, 20)), c(0, 0));
}

#[test]
fn installing_opens_a_service_that_is_there() {
    let mut stage = InstallStage::Manager;
    for (event, action) in [
        (InstallEvent::ManagerOpened(Ok(5)), InstallAction::Create { manager: 5 }),
        (InstallEvent::ServiceCreated(Err(hresult_of(1073))), InstallAction::Open { manager: 5 }),
        (InstallEvent::ServiceOpened(Ok(6)), InstallAction::Start { service: 6 }),
        (
            InstallEvent::ServiceStarted(Err(hresult_of(1056))),
            InstallAction::Finish { close_service: Some(6), close_manager: Some(5), result: Ok(()) },
        ),
    ] {
        let (next, a) = install_driver(stage, event);
        assert_eq!(a, action);
        stage = next;
    }
    assert_eq!(stage, InstallStage::Done);
}

#[test]
fn installing_can_fail_at_each_step() {
    let finish = |close_service, close_manager, e| InstallAction::Finish {
        close_service,
        close_manager,
        result: Err(e),
    };
    assert_eq!(
        install_driver(InstallStage::Manager, InstallEvent::ManagerOpened(Err(-1))).1,
        finish(None, None, InstallFailure::OpenManager(-1))
    );
    let creating = InstallStage::Creating { manager: 5 };
    assert_eq!(
        install_driver(creating, InstallEvent::ServiceCreated(Err(-2))).1,
        finish(None, Some(5), InstallFailure::CreateService(-2))
    );
    assert_eq!(
        install_driver(creating, InstallEvent::ServiceCreated(Ok(6))).1,
        InstallAction::Start { service: 6 }
    );
    assert_eq!(
        install_driver(InstallStage::Opening { manager: 5 }, InstallEvent::ServiceOpened(Err(-3))).1,
        finish(None, None, InstallFailure::OpenService(-3))
    );
    let starting = InstallStage::Starting { manager: 5, service: 6 };
    assert_eq!(
        install_driver(starting, InstallEvent::ServiceStarted(Err(-4))).1,
        finish(Some(6), Some(5), InstallFailure::StartService(-4))
    );
}
