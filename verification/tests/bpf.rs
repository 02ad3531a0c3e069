use fastdivert::bpf_compiler::compile_bpf;
use fastdivert::network::bpf::{bpf_run_filter, BpfContext, BpfInsn, BPF_ADDR_FLAGS_OFFSET};
use fastdivert::network::bpf_wire::{decode_program, encode_program};
use fastdivert::types::{DivertAddress, DivertAddressData, DivertDataNetwork};

fn create_test_address(flags: u32, if_idx: u32, sub_if_idx: u32) -> DivertAddress {
    DivertAddress {
        timestamp: 0,
        flags,
        reserved2: 0,
        data: DivertAddressData::from_network(DivertDataNetwork { if_idx, sub_if_idx }),
    }
}

fn create_test_ipv4_packet(
    proto: u8,
    src_ip: [u8; 4],
    dst_ip: [u8; 4],
    src_port: u16,
    dst_port: u16,
) -> Vec<u8> {
    let mut pkt = vec![0; 40];
    pkt[0] = 0x45; // IPv4, IHL = 20 bytes
    pkt[9] = proto;
    pkt[12..16].copy_from_slice(&src_ip);
    pkt[16..20].copy_from_slice(&dst_ip);

    // TCP/UDP Ports
    let sp_bytes = src_port.to_be_bytes();
    let dp_bytes = dst_port.to_be_bytes();
    pkt[20..22].copy_from_slice(&sp_bytes);
    pkt[22..24].copy_from_slice(&dp_bytes);
    pkt
}

#[test]
fn test_compile_outbound_and_tcp_port() {
    let insns = compile_bpf("outbound & tcp port 80").unwrap();
    assert!(!insns.is_empty());
    let has_flags_load = insns.iter().any(|insn| insn.k == BPF_ADDR_FLAGS_OFFSET);
    assert!(has_flags_load, "Should load address flags");
    let has_port_80 = insns.iter().any(|insn| insn.k == 80);
    assert!(has_port_80, "Should compile port 80 check");
}

#[test]
fn test_empty_filter() {
    let insns = compile_bpf("").unwrap();
    let addr = create_test_address(0, 0, 0);
    let ctx = BpfContext { packet: &[], address: &addr };
    let res = bpf_run_filter(&insns, &ctx);
    assert_eq!(res, u32::MAX);

    let insns_true = compile_bpf("true").unwrap();
    let res_true = bpf_run_filter(&insns_true, &ctx);
    assert_eq!(res_true, u32::MAX);
}

#[test]
fn test_metadata_flags() {
    // 1. outbound
    let insns_out = compile_bpf("outbound").unwrap();
    let addr_out = create_test_address(1 << 17, 0, 0);
    let ctx_out = BpfContext { packet: &[], address: &addr_out };
    assert_eq!(bpf_run_filter(&insns_out, &ctx_out), u32::MAX);

    let addr_in = create_test_address(0, 0, 0);
    let ctx_in = BpfContext { packet: &[], address: &addr_in };
    assert_eq!(bpf_run_filter(&insns_out, &ctx_in), 0);

    // 2. inbound
    let insns_in = compile_bpf("inbound").unwrap();
    assert_eq!(bpf_run_filter(&insns_in, &ctx_in), u32::MAX);
    assert_eq!(bpf_run_filter(&insns_in, &ctx_out), 0);

    // 3. loopback
    let insns_loop = compile_bpf("loopback").unwrap();
    let addr_loop = create_test_address(1 << 18, 0, 0);
    let ctx_loop = BpfContext { packet: &[], address: &addr_loop };
    assert_eq!(bpf_run_filter(&insns_loop, &ctx_loop), u32::MAX);
    assert_eq!(bpf_run_filter(&insns_loop, &ctx_in), 0);

    // 4. impostor
    let insns_imp = compile_bpf("impostor").unwrap();
    let addr_imp = create_test_address(1 << 19, 0, 0);
    let ctx_imp = BpfContext { packet: &[], address: &addr_imp };
    assert_eq!(bpf_run_filter(&insns_imp, &ctx_imp), u32::MAX);
    assert_eq!(bpf_run_filter(&insns_imp, &ctx_in), 0);
}

#[test]
fn test_interface_index() {
    let insns_if = compile_bpf("ifindex 5").unwrap();
    let addr_match = create_test_address(0, 5, 0);
    let ctx_match = BpfContext { packet: &[], address: &addr_match };
    assert_eq!(bpf_run_filter(&insns_if, &ctx_match), u32::MAX);

    let addr_mismatch = create_test_address(0, 10, 0);
    let ctx_mismatch = BpfContext { packet: &[], address: &addr_mismatch };
    assert_eq!(bpf_run_filter(&insns_if, &ctx_mismatch), 0);

    let insns_sub = compile_bpf("sub_ifindex 2").unwrap();
    let addr_sub_match = create_test_address(0, 0, 2);
    let ctx_sub_match = BpfContext { packet: &[], address: &addr_sub_match };
    assert_eq!(bpf_run_filter(&insns_sub, &ctx_sub_match), u32::MAX);
    assert_eq!(bpf_run_filter(&insns_sub, &ctx_match), 0);
}

#[test]
fn test_protocols() {
    let insns_tcp = compile_bpf("tcp").unwrap();
    let insns_udp = compile_bpf("udp").unwrap();
    let insns_icmp = compile_bpf("icmp").unwrap();
    let insns_ip = compile_bpf("ip").unwrap();

    let tcp_pkt = create_test_ipv4_packet(6, [10, 0, 0, 1], [10, 0, 0, 2], 1234, 80);
    let udp_pkt = create_test_ipv4_packet(17, [10, 0, 0, 1], [10, 0, 0, 2], 1234, 53);
    let icmp_pkt = create_test_ipv4_packet(1, [10, 0, 0, 1], [10, 0, 0, 2], 0, 0);

    let addr = create_test_address(0, 0, 0);

    assert_eq!(bpf_run_filter(&insns_tcp, &BpfContext { packet: &tcp_pkt, address: &addr }), u32::MAX);
    assert_eq!(bpf_run_filter(&insns_tcp, &BpfContext { packet: &udp_pkt, address: &addr }), 0);

    assert_eq!(bpf_run_filter(&insns_udp, &BpfContext { packet: &udp_pkt, address: &addr }), u32::MAX);
    assert_eq!(bpf_run_filter(&insns_udp, &BpfContext { packet: &tcp_pkt, address: &addr }), 0);

    assert_eq!(bpf_run_filter(&insns_icmp, &BpfContext { packet: &icmp_pkt, address: &addr }), u32::MAX);
    assert_eq!(bpf_run_filter(&insns_icmp, &BpfContext { packet: &tcp_pkt, address: &addr }), 0);

    assert_eq!(bpf_run_filter(&insns_ip, &BpfContext { packet: &tcp_pkt, address: &addr }), u32::MAX);
}

#[test]
fn test_hosts() {
    let insns_host = compile_bpf("host 192.168.1.100").unwrap();
    let insns_src = compile_bpf("src host 10.0.0.1").unwrap();
    let insns_dst = compile_bpf("dst host 10.0.0.2").unwrap();

    let pkt1 = create_test_ipv4_packet(6, [192, 168, 1, 100], [10, 0, 0, 2], 1234, 80);
    let pkt2 = create_test_ipv4_packet(6, [10, 0, 0, 1], [192, 168, 1, 100], 1234, 80);
    let pkt3 = create_test_ipv4_packet(6, [10, 0, 0, 1], [10, 0, 0, 2], 1234, 80);

    let addr = create_test_address(0, 0, 0);

    assert_eq!(bpf_run_filter(&insns_host, &BpfContext { packet: &pkt1, address: &addr }), u32::MAX);
    assert_eq!(bpf_run_filter(&insns_host, &BpfContext { packet: &pkt2, address: &addr }), u32::MAX);
    assert_eq!(bpf_run_filter(&insns_host, &BpfContext { packet: &pkt3, address: &addr }), 0);

    assert_eq!(bpf_run_filter(&insns_src, &BpfContext { packet: &pkt3, address: &addr }), u32::MAX);
    assert_eq!(bpf_run_filter(&insns_src, &BpfContext { packet: &pkt1, address: &addr }), 0);

    assert_eq!(bpf_run_filter(&insns_dst, &BpfContext { packet: &pkt3, address: &addr }), u32::MAX);
    assert_eq!(bpf_run_filter(&insns_dst, &BpfContext { packet: &pkt2, address: &addr }), 0);
}

#[test]
fn test_ports() {
    let insns_port = compile_bpf("port 80").unwrap();
    let insns_src = compile_bpf("src port 443").unwrap();
    let insns_dst = compile_bpf("dst port 8080").unwrap();

    let pkt1 = create_test_ipv4_packet(6, [10, 0, 0, 1], [10, 0, 0, 2], 80, 1234);
    let pkt2 = create_test_ipv4_packet(6, [10, 0, 0, 1], [10, 0, 0, 2], 1234, 80);
    let pkt3 = create_test_ipv4_packet(6, [10, 0, 0, 1], [10, 0, 0, 2], 443, 8080);
    let pkt4 = create_test_ipv4_packet(6, [10, 0, 0, 1], [10, 0, 0, 2], 1234, 1234);

    let addr = create_test_address(0, 0, 0);

    assert_eq!(bpf_run_filter(&insns_port, &BpfContext { packet: &pkt1, address: &addr }), u32::MAX);
    assert_eq!(bpf_run_filter(&insns_port, &BpfContext { packet: &pkt2, address: &addr }), u32::MAX);
    assert_eq!(bpf_run_filter(&insns_port, &BpfContext { packet: &pkt4, address: &addr }), 0);

    assert_eq!(bpf_run_filter(&insns_src, &BpfContext { packet: &pkt3, address: &addr }), u32::MAX);
    assert_eq!(bpf_run_filter(&insns_src, &BpfContext { packet: &pkt1, address: &addr }), 0);

    assert_eq!(bpf_run_filter(&insns_dst, &BpfContext { packet: &pkt3, address: &addr }), u32::MAX);
    assert_eq!(bpf_run_filter(&insns_dst, &BpfContext { packet: &pkt2, address: &addr }), 0);
}

#[test]
fn test_complex_expressions() {
    let insns = compile_bpf("outbound & tcp port 80").unwrap();
    let match_pkt = create_test_ipv4_packet(6, [10, 0, 0, 1], [10, 0, 0, 2], 1234, 80);
    let non_match_pkt = create_test_ipv4_packet(17, [10, 0, 0, 1], [10, 0, 0, 2], 1234, 80);

    let addr_out = create_test_address(1 << 17, 0, 0);
    let addr_in = create_test_address(0, 0, 0);

    assert_eq!(bpf_run_filter(&insns, &BpfContext { packet: &match_pkt, address: &addr_out }), u32::MAX);
    assert_eq!(bpf_run_filter(&insns, &BpfContext { packet: &match_pkt, address: &addr_in }), 0);
    assert_eq!(bpf_run_filter(&insns, &BpfContext { packet: &non_match_pkt, address: &addr_out }), 0);

    let insns2 = compile_bpf("(inbound | loopback) & udp port 53").unwrap();
    let udp_dns_pkt = create_test_ipv4_packet(17, [10, 0, 0, 1], [10, 0, 0, 2], 1234, 53);

    let addr_loop = create_test_address(1 << 18, 0, 0);
    let addr_out_only = create_test_address(1 << 17, 0, 0);

    assert_eq!(bpf_run_filter(&insns2, &BpfContext { packet: &udp_dns_pkt, address: &addr_in }), u32::MAX);
    assert_eq!(bpf_run_filter(&insns2, &BpfContext { packet: &udp_dns_pkt, address: &addr_loop }), u32::MAX);
    assert_eq!(bpf_run_filter(&insns2, &BpfContext { packet: &udp_dns_pkt, address: &addr_out_only }), 0);

    // "not outbound and (tcp or udp) and port 443"
    let insns3 = compile_bpf("not outbound and (tcp or udp) and port 443").unwrap();
    let tcp_443 = create_test_ipv4_packet(6, [10, 0, 0, 1], [10, 0, 0, 2], 1234, 443);
    let udp_443 = create_test_ipv4_packet(17, [10, 0, 0, 1], [10, 0, 0, 2], 443, 1234);
    let tcp_80 = create_test_ipv4_packet(6, [10, 0, 0, 1], [10, 0, 0, 2], 1234, 80);

    assert_eq!(bpf_run_filter(&insns3, &BpfContext { packet: &tcp_443, address: &addr_in }), u32::MAX);
    assert_eq!(bpf_run_filter(&insns3, &BpfContext { packet: &udp_443, address: &addr_in }), u32::MAX);
    assert_eq!(bpf_run_filter(&insns3, &BpfContext { packet: &tcp_443, address: &addr_out }), 0); // outbound
    assert_eq!(bpf_run_filter(&insns3, &BpfContext { packet: &tcp_80, address: &addr_in }), 0); // port mismatch
}

#[test]
fn test_safety_div_by_zero() {
    let addr = create_test_address(0, 0, 0);
    let ctx = BpfContext { packet: &[], address: &addr };

    // 1. Division by zero with immediate value
    let insns_div_k = vec![
        BpfInsn { code: 0x00, jt: 0, jf: 0, k: 10 },
        BpfInsn { code: 0x04 | 0x30 | 0x00, jt: 0, jf: 0, k: 0 },
        BpfInsn { code: 0x06, jt: 0, jf: 0, k: u32::MAX },
    ];
    assert_eq!(bpf_run_filter(&insns_div_k, &ctx), 0); // Should safely return 0 (reject) instead of panicking

    // 2. Division by zero with X register
    let insns_div_x = vec![
        BpfInsn { code: 0x00, jt: 0, jf: 0, k: 10 },
        BpfInsn { code: 0x01, jt: 0, jf: 0, k: 0 },
        BpfInsn { code: 0x04 | 0x30 | 0x08, jt: 0, jf: 0, k: 0 },
        BpfInsn { code: 0x06, jt: 0, jf: 0, k: u32::MAX },
    ];
    assert_eq!(bpf_run_filter(&insns_div_x, &ctx), 0); // Should safely return 0
}

#[test]
fn test_safety_oob_packet_reads() {
    let insns = compile_bpf("tcp port 80").unwrap();
    let addr = create_test_address(0, 0, 0);

    // Empty packet buffer
    assert_eq!(bpf_run_filter(&insns, &BpfContext { packet: &[], address: &addr }), 0);

    // Short packet buffer (e.g., only 10 bytes)
    assert_eq!(bpf_run_filter(&insns, &BpfContext { packet: &[0; 10], address: &addr }), 0);
}

#[test]
fn test_safety_jump_out_of_bounds() {
    let addr = create_test_address(0, 0, 0);
    let ctx = BpfContext { packet: &[], address: &addr };

    // 1. Unconditional jump out of bounds (positive overflow/OOB)
    let insns_ja_oob = vec![
        BpfInsn { code: 0x05 | 0x00, jt: 0, jf: 0, k: 100 },
        BpfInsn { code: 0x06, jt: 0, jf: 0, k: u32::MAX },
    ];
    assert_eq!(bpf_run_filter(&insns_ja_oob, &ctx), 0); // Should safely abort with 0

    // 2. Unconditional jump with overflow (u32::MAX)
    let insns_ja_overflow = vec![
        BpfInsn { code: 0x05 | 0x00, jt: 0, jf: 0, k: u32::MAX },
        BpfInsn { code: 0x06, jt: 0, jf: 0, k: u32::MAX },
    ];
    assert_eq!(bpf_run_filter(&insns_ja_overflow, &ctx), 0); // Should safely abort with 0

    // 3. Conditional jump out of bounds
    let insns_jmp_cond_oob = vec![
        BpfInsn { code: 0x00, jt: 0, jf: 0, k: 5 },
        BpfInsn { code: 0x05 | 0x10, jt: 50, jf: 50, k: 5 },
        BpfInsn { code: 0x06, jt: 0, jf: 0, k: u32::MAX },
    ];
    assert_eq!(bpf_run_filter(&insns_jmp_cond_oob, &ctx), 0); // Should safely abort with 0
}

#[test]
fn test_safety_invalid_opcodes() {
    let addr = create_test_address(0, 0, 0);
    let ctx = BpfContext { packet: &[], address: &addr };

    // Bytecode with an invalid instruction class / code (e.g. 0xff)
    let insns_invalid = vec![
        BpfInsn { code: 0xff, jt: 0, jf: 0, k: 0 },
        BpfInsn { code: 0x06, jt: 0, jf: 0, k: u32::MAX },
    ];
    assert_eq!(bpf_run_filter(&insns_invalid, &ctx), 0); // Should safely abort with 0
}

#[test]
fn programs_survive_the_wire() {
    let insns = compile_bpf("src host 10.1.2.3 or udp").unwrap();
    let bytes = encode_program(&insns);
    assert_eq!(bytes.len(), 8 * insns.len());
    assert_eq!(decode_program(&bytes), insns);
    let one = encode_program(&[BpfInsn { code: 0x1234, jt: 5, jf: 6, k: 0x0a0b0c0d }]);
    assert_eq!(one, vec![0x34, 0x12, 5, 6, 0x0d, 0x0c, 0x0b, 0x0a]);
}

#[test]
fn interpreter_computes_and_stores() {
    let addr = create_test_address(0x55, 7, 9);
    let packet = [0x46u8, 1, 2, 3, 4];
    let ctx = BpfContext { packet: &packet, address: &addr };
    let ret_a = |first: Vec<BpfInsn>| {
        let mut p = first;
        // A is compared with what X holds, so that the result shows it.
        p.push(BpfInsn { code: 0x02, jt: 0, jf: 0, k: 1 });
        p.push(BpfInsn { code: 0x61, jt: 0, jf: 0, k: 1 });
        p.push(BpfInsn { code: 0x0e, jt: 0, jf: 0, k: 0 });
        bpf_run_filter(&p, &ctx)
    };
    assert_eq!(ret_a(vec![BpfInsn { code: 0x20, jt: 0, jf: 0, k: 0 }]), 0x46010203);
    assert_eq!(ret_a(vec![BpfInsn { code: 0x28, jt: 0, jf: 0, k: 3 }]), 0x0304);
    assert_eq!(ret_a(vec![BpfInsn { code: 0x30, jt: 0, jf: 0, k: 4 }]), 4);
    assert_eq!(ret_a(vec![BpfInsn { code: 0x20, jt: 0, jf: 0, k: 0xfffff004 }]), 7);
    assert_eq!(ret_a(vec![BpfInsn { code: 0x20, jt: 0, jf: 0, k: 0xfffff008 }]), 9);
    // X becomes four times the low half of the first byte.
    let msh = vec![
        BpfInsn { code: 0xa1, jt: 0, jf: 0, k: 0 },
        BpfInsn { code: 0x0e, jt: 0, jf: 0, k: 0 },
    ];
    assert_eq!(bpf_run_filter(&msh, &ctx), 24);
    let neg = vec![
        BpfInsn { code: 0x00, jt: 0, jf: 0, k: 1 },
        BpfInsn { code: 0x84, jt: 0, jf: 0, k: 0 },
    ];
    assert_eq!(ret_a(neg), u32::MAX);
    assert_eq!(bpf_run_filter(&[], &ctx), u32::MAX);
    // A program that runs off its end rejects.
    assert_eq!(bpf_run_filter(&[BpfInsn { code: 0x00, jt: 0, jf: 0, k: 1 }], &ctx), 0);
}

#[test]
fn filters_are_refused_with_a_reason() {
    for text in ["outbound &", "port", "port x", "host 1.2.3", "ifindex", "(tcp", "tcp )", "@"] {
        assert!(compile_bpf(text).is_err(), "{}", text);
    }
}

#[test]
fn filters_do_not_mind_case_and_space() {
    let a = compile_bpf("  OutBound AND TCP ").unwrap();
    let b = compile_bpf("outbound & tcp").unwrap();
    assert_eq!(a, b);
    let c = compile_bpf("!outbound || not tcp").unwrap();
    let d = compile_bpf("not outbound or !tcp").unwrap();
    assert_eq!(c, d);
}

fn program_of(filter: &str) -> Vec<(u16, u8, u8, u32)> {
    compile_bpf(filter).unwrap().iter().map(|i| (i.code, i.jt, i.jf, i.k)).collect()
}

#[test]
fn spellings_compile_to_the_same_program() {
    let and = program_of("tcp and port 80");
    for filter in ["tcp AND port 80", "tcp && port 80", "tcp & port 80", "tcp port 80"] {
        assert_eq!(program_of(filter), and);
    }
    let mixed = program_of("tcp or udp and outbound");
    assert_eq!(program_of("tcp or udp outbound"), mixed);
    let or = program_of("icmp or host 1.2.3.4");
    for filter in ["icmp OR host 1.2.3.4", "icmp || host 1.2.3.4", "icmp | host 1.2.3.4"] {
        assert_eq!(program_of(filter), or);
    }
    assert_ne!(and, or);
    let not = program_of("not (tcp or udp)");
    assert_eq!(program_of("!(tcp or udp)"), not);
    assert_eq!(program_of("NOT (tcp or udp)"), not);
    assert_eq!(program_of("(tcp or udp)"), program_of("tcp or udp"));
    assert_eq!(program_of("Tcp AnD sRc PORT 80"), program_of("tcp and src port 80"));
    assert_eq!(program_of("inbound"), program_of("not outbound"));
}
