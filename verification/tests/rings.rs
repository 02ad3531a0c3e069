use fastdivert::ringbuffer::cas_queue::LockFreeQueue;
use fastdivert::ringbuffer::cells::{is_power_of_two, read_cells, write_cells};
use fastdivert::ringbuffer::client::{PollMode, RingBufferClient, RingError};
use fastdivert::ringbuffer::data::{MdlSegment, RingBufferData};
use fastdivert::ringbuffer::locked_ring::LockedRingBuffer;
use fastdivert::ringbuffer::per_cpu_ring::{
    Notify, PerCpuRingBuffer, Piece, RingBufferTransaction,
};
use fastdivert::ringbuffer::records::{
    decode_address, encode_address, encode_header, RecordHeader, RecordType, DUMMY_MARKER,
};
use fastdivert::ringbuffer::report::push_packet;
use fastdivert::ringbuffer::scan::{get_packet_data_view, scan_packet, PacketData};
use fastdivert::status::{
    STATUS_INSUFFICIENT_RESOURCES, STATUS_INVALID_DEVICE_STATE,
};
use fastdivert::types::{DivertAddress, DivertAddressData, DivertDataNetwork};

fn address(if_idx: u32) -> DivertAddress {
    DivertAddress {
        timestamp: -7,
        flags: 0x0102_0304,
        reserved2: 9,
        data: DivertAddressData::from_network(DivertDataNetwork { if_idx, sub_if_idx: 1 }),
    }
}

fn client_of(rings: Vec<RingBufferData>, send_size: usize) -> RingBufferClient {
    let size = rings[0].size;
    let send = RingBufferData::new(send_size, false).unwrap();
    match RingBufferClient::new_with_config(rings.len() as u32, rings, send, size) {
        Ok(c) => c,
        Err(e) => panic!("{}", e.message()),
    }
}

fn segment(bytes: &[u8]) -> MdlSegment {
    MdlSegment { byte_count: bytes.len(), bytes: Some(bytes.to_vec()) }
}

#[test]
fn sizes_are_powers_of_two() {
    for n in 0usize..70 {
        assert_eq!(is_power_of_two(n), n.is_power_of_two(), "{}", n);
    }
    assert!(RingBufferData::new(48, false).is_none());
    assert!(RingBufferData::new(0, false).is_none());
    let rb = RingBufferData::new(64, true).unwrap();
    assert_eq!((rb.size(), rb.get_size(), rb.mask(), rb.is_cas()), (64, 64, 63, true));
    assert_eq!((rb.unread_size(), rb.free_space(), rb.has_unread()), (0, 64, false));
    assert!(rb.check_free_space(64));
    assert!(!rb.check_free_space(65));
}

#[test]
fn cells_wrap_around() {
    let mut buf = vec![0u8; 8];
    write_cells(&mut buf, 6, &[1, 2, 3]);
    assert_eq!(buf, vec![3, 0, 0, 0, 0, 0, 1, 2]);
    assert_eq!(read_cells(&buf, 14, 3), vec![1, 2, 3]);
    // Positions run on past the largest number.
    write_cells(&mut buf, usize::MAX, &[8, 9]);
    assert_eq!(buf, vec![9, 0, 0, 0, 0, 0, 1, 8]);
}

#[test]
fn written_bytes_are_read_in_order() {
    let mut rb = RingBufferData::new(16, false).unwrap();
    rb.head = usize::MAX - 3;
    rb.tail = usize::MAX - 3;
    rb.reserved_tail = usize::MAX - 3;
    let start = rb.reserve_space(10).unwrap();
    assert_eq!(start, usize::MAX - 3);
    assert_eq!(rb.push_slice_at(start, &[1, 2, 3, 4], 0), 4);
    assert_eq!(rb.push_slice_at(start, &[5, 6, 7, 8, 9, 10], 4), 6);
    rb.commit_tail(start, 10);
    assert_eq!(rb.tail, 6);
    assert_eq!((rb.unread_size(), rb.free_space()), (10, 6));
    assert!(rb.has_unread());
    let mut dest = vec![0u8; 4];
    assert_eq!(rb.pop_slice(&mut dest, 3), Ok(()));
    assert_eq!(dest, vec![4, 5, 6, 7]);
    assert_eq!(rb.pop_slice(&mut dest, 7), Err(()));
    assert_eq!(dest, vec![4, 5, 6, 7]);
    rb.add_head(9);
    let mut last = vec![0u8; 1];
    assert_eq!(rb.pop_slice(&mut last, 0), Ok(()));
    assert_eq!(last, vec![10]);
    assert_eq!(rb.reserve_space(16), Err(STATUS_INSUFFICIENT_RESOURCES));
    rb.add_tail(2);
    assert_eq!(rb.unread_size(), 3);
    assert_eq!(rb.read_from_rb(start, 2, 3), vec![3, 4, 5]);
}

#[test]
fn a_claim_moves_the_reserved_tail() {
    let mut rb = RingBufferData::new(16, true).unwrap();
    assert_eq!(rb.reserve_space(6), Ok(0));
    assert_eq!((rb.reserved_tail, rb.tail), (6, 0));
    assert_eq!(rb.reserve_space(10), Ok(6));
    assert_eq!(rb.reserve_space(1), Err(STATUS_INSUFFICIENT_RESOURCES));
    rb.commit_tail(0, 6);
    rb.commit_tail(6, 10);
    assert_eq!((rb.reserved_tail, rb.tail), (16, 16));
}

#[test]
fn chains_are_gathered() {
    let mut rb = RingBufferData::new(16, false).unwrap();
    let chain = vec![segment(&[1, 2, 3]), segment(&[]), segment(&[4, 5]), segment(&[6, 7, 8])];
    assert_eq!(rb.push_mdl_at(0, &chain, 2, 4, 1), Ok(4));
    assert_eq!(rb.buf[..6].to_vec(), vec![0, 3, 4, 5, 6, 0]);
    // The chain may end early.
    assert_eq!(rb.push_mdl_at(0, &chain, 6, 9, 0), Ok(2));
    assert_eq!(rb.buf[..3].to_vec(), vec![7, 8, 4]);
    let broken = vec![segment(&[1]), MdlSegment { byte_count: 4, bytes: None }];
    assert_eq!(rb.push_mdl_at(0, &broken, 0, 3, 0), Err(STATUS_INSUFFICIENT_RESOURCES));
}

#[test]
fn queue_keeps_order() {
    let mut q: LockFreeQueue<u32> = LockFreeQueue::new();
    assert!(q.is_empty());
    assert_eq!(q.dequeue(), None);
    q.enqueue(4);
    q.enqueue(5);
    assert!(!q.is_empty());
    assert_eq!(q.dequeue(), Some(4));
    assert_eq!(q.dequeue(), Some(5));
    assert!(q.is_empty());
}

#[test]
fn headers_and_addresses_have_fixed_bytes() {
    let h = encode_header(&RecordHeader { len: 0x0102_0304, ty: 0xA0B0_C0D0 });
    assert_eq!(h, vec![4, 3, 2, 1, 0xD0, 0xC0, 0xB0, 0xA0]);
    let a = address(0x11);
    let b = encode_address(&a);
    assert_eq!(b.len(), 80);
    assert_eq!(b[..8].to_vec(), vec![0xF9, 255, 255, 255, 255, 255, 255, 255]);
    assert_eq!(b[8..16].to_vec(), vec![4, 3, 2, 1, 9, 0, 0, 0]);
    assert_eq!(b[16..24].to_vec(), vec![0x11, 0, 0, 0, 1, 0, 0, 0]);
    assert!(b[24..].iter().all(|x| *x == 0));
    let c = decode_address(&b);
    assert_eq!((c.timestamp, c.flags, c.reserved2), (-7, 0x0102_0304, 9));
    assert_eq!(c.data.network().if_idx, 0x11);
    assert_eq!(RecordType::Invalid.code(), 0);
    assert_eq!(RecordType::PacketData.code(), 1);
    assert_eq!(RecordType::Address.code(), 2);
}

#[test]
fn rings_are_allocated_per_worker() {
    assert_eq!(PerCpuRingBuffer::allocate(100, 1, 1).err(), Some(STATUS_INVALID_DEVICE_STATE));
    assert_eq!(PerCpuRingBuffer::allocate(64, 0, 0).err(), Some(STATUS_INSUFFICIENT_RESOURCES));
    let rb = PerCpuRingBuffer::allocate(64, 0, 3).unwrap();
    assert_eq!(rb.workers_num(), 3);
    assert_eq!(rb.get_ring_buffer_size(), 64);
    let cas: Vec<bool> = rb.rb_datas.iter().map(|r| r.is_cas).collect();
    assert_eq!(cas, vec![false, false, true]);
    // Cores that have no ring of their own share the last one.
    assert_eq!(rb.route_index(0), 0);
    assert_eq!(rb.route_index(1), 1);
    assert_eq!(rb.route_index(2), 2);
    assert_eq!(rb.route_index(77), 2);
    assert!(!rb.has_unread_packets());
    assert_eq!(PerCpuRingBuffer::allocate(64, 2, 9).unwrap().workers_num(), 2);
}

#[test]
fn reported_packets_reach_the_client() {
    let mut rb = PerCpuRingBuffer::allocate(512, 2, 0).unwrap();
    rb.set_notify_callback(Some(70), 71);
    rb.set_watching();
    let chain = vec![segment(b"ab"), segment(b"cdef")];
    let piece = Piece::Mdl { chain, offset: 1, length: 4 };
    let told = push_packet(&mut rb, 0, &address(5), piece, 4);
    assert_eq!(told, Ok(Some(Notify { callback: 70, context: 71 })));
    let again = push_packet(&mut rb, 0, &address(6), Piece::Slice(b"xyz".to_vec()), 3);
    assert_eq!(again, Ok(None));
    assert!(rb.has_unread(0));
    assert!(!rb.has_unread(1));
    assert!(rb.has_unread_packets());
    assert_eq!(rb.get_ring_buffer(0).unread_size(), 92 + 91);

    let mut client = client_of(rb.rb_datas, 256);
    assert_eq!(client.max_cores(), 2);
    let (head, first) = {
        let p = client.next_packet_for_core(0).unwrap();
        assert_eq!((p.core_id, p.record_type, p.record_len), (0, 0, 92));
        assert_eq!(p.address.data.network().if_idx, 5);
        assert_eq!(p.address.timestamp, -7);
        (p.new_head(), p.data.to_vec())
    };
    assert_eq!(first, b"bcde".to_vec());
    // It stays until it is released.
    assert_eq!(client.next_packet_for_core(0).unwrap().data.to_vec(), b"bcde".to_vec());
    client.release(0, head);
    let head2 = {
        let p = client.next_packet().unwrap();
        assert_eq!(p.data.to_vec(), b"xyz".to_vec());
        p.new_head()
    };
    client.release(0, head2);
    assert!(client.next_packet().is_none());
    assert!(client.next_packet_for_core(1).is_none());
    assert!(client.next_packet_for_core(9).is_none());
}

#[test]
fn counters_may_run_over() {
    let mut rb = PerCpuRingBuffer::allocate(64, 2, 0).unwrap();
    assert!(!rb.has_unread_packets());
    rb.rb_datas[0].head = usize::MAX - 7;
    rb.rb_datas[0].tail = 8;
    assert!(rb.rb_datas[0].has_unread());
    assert!(rb.has_unread_packets());
    rb.rb_datas[0].head = 8;
    assert!(!rb.has_unread_packets());
    rb.rb_datas[1].head = 500;
    assert!(rb.has_unread_packets());
}

#[test]
fn new_rings_hold_zeros() {
    let rb = PerCpuRingBuffer::allocate(32, 2, 0).unwrap();
    assert!(rb.rb_datas.iter().all(|ring| ring.buf == vec![0u8; 32]));
    assert_eq!((rb.is_watching, rb.notify_cb, rb.notify_ctx), (false, None, 0));
}

#[test]
fn a_full_ring_refuses_and_stays() {
    let mut rb = PerCpuRingBuffer::allocate(128, 1, 0).unwrap();
    assert_eq!(
        push_packet(&mut rb, 0, &address(1), Piece::Slice(vec![7; 41]), 41),
        Err(STATUS_INSUFFICIENT_RESOURCES)
    );
    assert!(!rb.has_unread(0));
    assert_eq!(push_packet(&mut rb, 0, &address(1), Piece::Slice(vec![7; 40]), 40), Ok(None));
    assert_eq!(rb.get_ring_buffer(0).free_space(), 0);
    assert_eq!(
        push_packet(&mut rb, 0, &address(1), Piece::Slice(vec![]), 0),
        Err(STATUS_INSUFFICIENT_RESOURCES)
    );
}

#[test]
fn a_failed_report_leaves_a_dummy_that_is_skipped() {
    let mut rb = PerCpuRingBuffer::allocate(512, 1, 0).unwrap();
    let broken = vec![MdlSegment { byte_count: 6, bytes: None }];
    let piece = Piece::Mdl { chain: broken, offset: 0, length: 6 };
    assert_eq!(
        push_packet(&mut rb, 0, &address(1), piece, 6),
        Err(STATUS_INSUFFICIENT_RESOURCES)
    );
    assert_eq!(rb.get_ring_buffer(0).unread_size(), 94);
    assert_eq!(rb.rb_datas[0].buf[..4].to_vec(), 86u32.to_le_bytes().to_vec());
    assert_eq!(rb.rb_datas[0].buf[4..8].to_vec(), DUMMY_MARKER.to_le_bytes().to_vec());
    assert_eq!(push_packet(&mut rb, 0, &address(2), Piece::Slice(b"q".to_vec()), 1), Ok(None));
    let mut client = client_of(rb.rb_datas, 256);
    let p = client.next_packet_for_core(0).unwrap();
    assert_eq!((p.old_head, p.record_len), (94, 89));
    assert_eq!(p.data.to_vec(), b"q".to_vec());
    assert_eq!(client.rings[0].head, 94);
}

#[test]
fn a_ring_with_one_producer_leaves_nothing_on_failure() {
    let mut rb = PerCpuRingBuffer::allocate(512, 2, 0).unwrap();
    let broken = vec![MdlSegment { byte_count: 6, bytes: None }];
    let piece = Piece::Mdl { chain: broken, offset: 0, length: 6 };
    assert_eq!(
        push_packet(&mut rb, 0, &address(1), piece, 6),
        Err(STATUS_INSUFFICIENT_RESOURCES)
    );
    assert_eq!(rb.get_ring_buffer(0).unread_size(), 0);
}

#[test]
fn transactions_write_one_piece_behind_the_other() {
    let mut rb = PerCpuRingBuffer::allocate(64, 1, 0).unwrap();
    let pieces = vec![
        Piece::Record(RecordHeader { len: 2, ty: 1 }, vec![9, 8]),
        Piece::Slice(vec![7]),
        Piece::MdlRecord {
            header: RecordHeader { len: 3, ty: 0 },
            chain: vec![segment(&[1, 2]), segment(&[3, 4])],
            offset: 1,
            length: 3,
        },
    ];
    assert_eq!(rb.transaction(0, 22, &pieces), Ok(None));
    let mut dest = vec![0u8; 22];
    assert_eq!(rb.pop_slice(0, &mut dest, 0), Ok(()));
    assert_eq!(
        dest,
        vec![2, 0, 0, 0, 1, 0, 0, 0, 9, 8, 7, 3, 0, 0, 0, 0, 0, 0, 0, 2, 3, 4]
    );
    rb.add_head(0, 22);
    assert!(!rb.has_unread(0));
    assert!(!rb.test_and_clear_watching_flag());
    rb.set_watching();
    assert!(rb.test_and_clear_watching_flag());
    assert!(!rb.test_and_clear_watching_flag());
    rb.set_watching();
    rb.clear_watching();
    assert!(!rb.is_watching);
}

#[test]
fn transaction_steps_move_the_offset() {
    let mut rb = PerCpuRingBuffer::allocate(16, 1, 0).unwrap();
    let mut tx = RingBufferTransaction { core_index: 0, start_tail: 14, offset: 0 };
    tx.push_slice_only(&mut rb, &[1, 2, 3]);
    assert_eq!(tx.offset, 3);
    assert_eq!(rb.rb_datas[0].buf[14..].to_vec(), vec![1, 2]);
    assert_eq!(rb.rb_datas[0].buf[0], 3);
    tx.push_slice(&mut rb, &RecordHeader { len: 1, ty: 0 }, &[5]);
    assert_eq!(tx.offset, 12);
    assert_eq!(rb.rb_datas[0].buf[1..10].to_vec(), vec![1, 0, 0, 0, 0, 0, 0, 0, 5]);
    assert_eq!(tx.push_mdl_only(&mut rb, &vec![segment(&[6, 7])], 0, 2), Ok(()));
    assert_eq!(tx.offset, 14);
    tx.advance_offset(2);
    assert_eq!(tx.offset, 16);
    let back = RingBufferTransaction { core_index: 0, start_tail: 14, offset: 0 };
    // Two cells up to the end, three from the start.
    assert_eq!(back.get_write_ptrs(&rb, 5), (14, 2, 0, 3));
}

#[test]
fn locked_ring_tells_of_records() {
    assert_eq!(LockedRingBuffer::allocate(7).err(), Some(STATUS_INVALID_DEVICE_STATE));
    let mut rb = LockedRingBuffer::allocate(32).unwrap();
    rb.set_notify_callback(Some(1), 2);
    rb.set_watching();
    let told = rb.push_record(&RecordHeader { len: 2, ty: 0 }, &[4, 5]);
    assert_eq!(told, Ok(Some(Notify { callback: 1, context: 2 })));
    assert_eq!(rb.push_slice(&[6]), Ok(None));
    assert_eq!(rb.inner.rb_datas[0].unread_size(), 11);
    let mut dest = vec![0u8; 11];
    assert_eq!(rb.inner.pop_slice(0, &mut dest, 0), Ok(()));
    assert_eq!(dest, vec![2, 0, 0, 0, 0, 0, 0, 0, 4, 5, 6]);
    rb.set_watching();
    rb.clear_watching();
    assert_eq!(rb.push_slice(&[6]), Ok(None));
}

#[test]
fn cores_take_turns() {
    let mut rb = PerCpuRingBuffer::allocate(512, 3, 0).unwrap();
    for core in 0..3u32 {
        for n in 0..2u8 {
            let body = Piece::Slice(vec![core as u8, n]);
            assert_eq!(push_packet(&mut rb, core, &address(core), body, 2), Ok(None));
        }
    }
    let mut client = client_of(rb.rb_datas, 256);
    let mut seen = Vec::new();
    loop {
        let (core, head) = match client.next_packet() {
            Some(p) => {
                seen.push(p.data.to_vec());
                (p.core_id, p.new_head())
            }
            None => break,
        };
        client.release(core, head);
    }
    assert_eq!(
        seen,
        vec![vec![0, 0], vec![1, 0], vec![2, 0], vec![0, 1], vec![1, 1], vec![2, 1]]
    );
}

#[test]
fn packets_that_wrap_come_in_two_parts() {
    let buf = [4u8, 5, 0, 0, 0, 1, 2, 3];
    match get_packet_data_view(&buf, 5, 5) {
        PacketData::Wrapped { part1, part2 } => {
            assert_eq!(part1, &[1, 2, 3]);
            assert_eq!(part2, &[4, 5]);
        }
        PacketData::Contiguous(_) => panic!("one part"),
    }
    let whole = get_packet_data_view(&buf, 5, 3);
    assert!(matches!(whole, PacketData::Contiguous([1, 2, 3])));
    assert_eq!((whole.len(), whole.is_empty()), (3, false));
    assert!(PacketData::Wrapped { part1: &[], part2: &[] }.is_empty());
    assert_eq!(get_packet_data_view(&buf, 13, 5).to_vec(), vec![1, 2, 3, 4, 5]);
}

#[test]
fn corrupted_rings_hold_no_packet() {
    let buf = vec![0u8; 256];
    let scan = scan_packet(&buf, 0, 257);
    assert!(scan.packet.is_none());
    assert_eq!(scan.head, 0);
    // A record that is longer than what is there.
    let mut cut = vec![0u8; 256];
    cut[0] = 200;
    assert!(scan_packet(&cut, 0, 100).packet.is_none());
    // A record that is too short for an address.
    cut[0] = 79;
    assert!(scan_packet(&cut, 0, 100).packet.is_none());
    cut[0] = 80;
    assert!(scan_packet(&cut, 0, 88).packet.is_some());
}

#[test]
fn sent_packets_are_records() {
    let mut client = client_of(vec![RingBufferData::new(128, true).unwrap()], 128);
    assert_eq!(client.push_send_packet(&address(3), b"hi"), Ok(()));
    assert_eq!(client.send.tail, 90);
    {
        let found = scan_packet(&client.send.buf, client.send.head, client.send.tail);
        let p = found.packet.unwrap();
        assert_eq!(p.data.to_vec(), b"hi".to_vec());
        assert_eq!(p.address.data.network().if_idx, 3);
    }
    let full = client.push_send_packet(&address(3), b"hi");
    assert_eq!(full, Err(RingError::Full { required: 90, free: 38 }));
    assert_eq!(
        full.unwrap_err().message(),
        "Send ring buffer is full (required: 90, free: 38)"
    );
    client.send.head = 90;
    let parts = PacketData::Wrapped { part1: b"abc", part2: b"de" };
    assert_eq!(client.push_send_packet_data(&address(4), &parts), Ok(()));
    let found = scan_packet(&client.send.buf, 90, client.send.tail);
    assert_eq!(found.packet.unwrap().data.to_vec(), b"abcde".to_vec());
    let mut long = client_of(vec![RingBufferData::new(256, true).unwrap()], 256);
    assert_eq!(long.push_send_packet(&address(1), b"one"), Ok(()));
    assert_eq!(long.push_send_packet(&address(2), b"two"), Ok(()));
    let first = scan_packet(&long.send.buf, 0, long.send.tail).packet.unwrap();
    assert_eq!((first.data.to_vec(), first.record_len), (b"one".to_vec(), 91));
    let second = scan_packet(&long.send.buf, 91, long.send.tail).packet.unwrap();
    assert_eq!(second.data.to_vec(), b"two".to_vec());
    client.send.head = 1000;
    let bad = client.push_send_packet(&address(3), b"hi");
    assert_eq!(bad, Err(RingError::Corrupted));
    assert_eq!(bad.unwrap_err().message(), "Send ring buffer state corruption detected");
}

#[test]
fn clients_want_a_power_of_two() {
    let ring = RingBufferData::new(64, true).unwrap();
    let send = RingBufferData::new(64, false).unwrap();
    let r = RingBufferClient::new_with_config(1, vec![ring], send, 96);
    match r {
        Err(e) => {
            assert_eq!(e, RingError::BadSize(96));
            assert_eq!(e.message(), "Ring buffer size must be a power of 2, got: 96");
        }
        Ok(_) => panic!("taken"),
    }
    let waits = [PollMode::Default, PollMode::BusyPoll, PollMode::IoctlWait].map(|m| m.waits());
    assert_eq!(waits, [true, false, true]);
}

#[test]
fn bytes_can_be_written_into_a_record() {
    let mut client = client_of(vec![RingBufferData::new(16, true).unwrap()], 16);
    client.write_to_rb(0, 13, 2, &[1, 2, 3]);
    assert_eq!(client.rings[0].buf[15], 1);
    assert_eq!(client.rings[0].buf[..2].to_vec(), vec![2, 3]);
}
