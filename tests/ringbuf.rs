use shm_ringbuf::codec::{crc32_range, encode_frame, encode_header, FLAG_CHECKSUM};
use shm_ringbuf::{Error, Ringbuf};

fn payload(len: usize, seed: u8) -> Vec<u8> {
    (0..len).map(|i| (i as u8).wrapping_mul(31).wrapping_add(seed)).collect()
}

#[test]
fn sixty_four_kib_ring_carries_one_hundred_messages_in_order() {
    let mut rb = Ringbuf::new(64 * 1024, false).unwrap();
    let mut sent = Vec::new();
    for i in 0..100u32 {
        let p = payload(500, i as u8);
        rb.publish(i, &p).unwrap();
        sent.push(p);
    }
    for i in 0..100u32 {
        let m = rb.consume().unwrap().unwrap();
        assert_eq!(m.msg_id, i);
        assert_eq!(m.payload, sent[i as usize]);
    }
    assert!(rb.consume().unwrap().is_none());
    assert_eq!(rb.produce_offset(), rb.consume_offset());
    assert_eq!(rb.produce_offset(), 100 * 516);
}

#[test]
fn four_kib_ring_fills_then_wraps_after_one_consume() {
    let mut rb = Ringbuf::new(4096, false).unwrap();
    let mut ok = 0u32;
    loop {
        match rb.publish(ok, &payload(800, ok as u8)) {
            Ok(()) => ok += 1,
            Err(Error::NotEnoughSpace { remaining, expected }) => {
                assert_eq!(remaining, 16);
                assert_eq!(expected, 816);
                break;
            }
            Err(e) => panic!("unexpected {:?}", e),
        }
    }
    // 816-byte blocks: five fit in 4096 bytes, the sixth does not.
    assert_eq!(ok, 5);
    assert_eq!(rb.produce_offset(), 4080);
    let first = rb.consume().unwrap().unwrap();
    assert_eq!(first.msg_id, 0);
    // The next block skips the 16-byte tail with a wrap sentinel.
    rb.publish(5, &payload(800, 5)).unwrap();
    assert_eq!(rb.produce_offset(), 4080 + 16 + 816);
    assert_eq!(rb.remaining(), 0);
    for i in 1..6u32 {
        let m = rb.consume().unwrap().unwrap();
        assert_eq!(m.msg_id, i);
        assert_eq!(m.payload, payload(800, i as u8));
    }
    assert_eq!(rb.produce_offset(), rb.consume_offset());
}

#[test]
fn corrupted_payload_fails_its_checksum() {
    let mut rb = Ringbuf::new(64, true).unwrap();
    rb.publish(1, &vec![0x01, 0x02, 0x03]).unwrap();
    rb.write_data_byte(16, 0x7f);
    assert!(matches!(rb.consume(), Err(Error::PayloadChecksum { offset: 0 })));
    assert_eq!(rb.consume_offset(), 0);
}

#[test]
fn every_flipped_payload_bit_is_caught() {
    let p = vec![0x01u8, 0x02, 0x03, 0xf0, 0x55];
    for byte in 0..p.len() {
        for bit in 0..8 {
            let mut rb = Ringbuf::new(64, true).unwrap();
            rb.publish(9, &p).unwrap();
            let before = rb.peek().unwrap().unwrap();
            assert_eq!(before.payload, p);
            rb.write_data_byte(16 + byte, p[byte] ^ (1 << bit));
            assert!(matches!(rb.consume(), Err(Error::PayloadChecksum { .. })));
        }
    }
}

#[test]
fn checksum_off_does_not_validate_payload() {
    let mut rb = Ringbuf::new(64, false).unwrap();
    rb.publish(1, &vec![0x01, 0x02, 0x03]).unwrap();
    rb.write_data_byte(16, 0x7f);
    let m = rb.consume().unwrap().unwrap();
    assert_eq!(m.payload, vec![0x7f, 0x02, 0x03]);
}

#[test]
fn corrupted_header_fails_its_checksum() {
    let mut rb = Ringbuf::new(64, false).unwrap();
    rb.publish(1, &vec![9, 9]).unwrap();
    rb.write_data_byte(4, 0xee);
    assert!(matches!(rb.consume(), Err(Error::HeaderChecksum { offset: 0 })));
    assert!(matches!(rb.peek(), Err(Error::HeaderChecksum { .. })));
}

#[test]
fn oversized_length_is_malformed() {
    let mut rb = Ringbuf::new(64, false).unwrap();
    rb.publish(1, &vec![9, 9]).unwrap();
    let forged = encode_header(1000, 1, 0, 0);
    for (i, b) in forged.iter().enumerate() {
        rb.write_data_byte(i, *b);
    }
    assert!(matches!(rb.consume(), Err(Error::Malformed { offset: 0 })));
}

#[test]
fn round_trip_of_largest_payload() {
    let mut rb = Ringbuf::new(64, true).unwrap();
    let p = payload(48, 3);
    rb.publish(42, &p).unwrap();
    assert_eq!(rb.remaining(), 0);
    let m = rb.consume().unwrap().unwrap();
    assert_eq!((m.msg_id, m.payload), (42, p));
    assert_eq!(rb.remaining(), 64);
}

#[test]
fn straddling_block_reports_its_frame_size() {
    let mut rb = Ringbuf::new(64, false).unwrap();
    rb.publish(1, &payload(48, 0)).unwrap();
    rb.consume().unwrap().unwrap();
    assert_eq!(rb.produce_offset(), 64);
    rb.publish(2, &payload(20, 0)).unwrap();
    assert!(matches!(
        rb.publish(3, &payload(64, 0)),
        Err(Error::NotEnoughSpace { remaining: 28, expected: 80 })
    ));
    assert_eq!((rb.produce_offset(), rb.consume_offset()), (100, 64));
}

#[test]
fn round_trip_of_empty_payload() {
    let mut rb = Ringbuf::new(64, true).unwrap();
    rb.publish(7, &Vec::new()).unwrap();
    assert_eq!(rb.produce_offset(), 16);
    let m = rb.consume().unwrap().unwrap();
    assert_eq!(m.msg_id, 7);
    assert!(m.payload.is_empty());
}

#[test]
fn refused_publish_leaves_offsets() {
    let mut rb = Ringbuf::new(64, false).unwrap();
    rb.publish(1, &payload(20, 0)).unwrap();
    let (p, c) = (rb.produce_offset(), rb.consume_offset());
    assert_eq!(p, 36);
    let r = rb.publish(2, &payload(25, 0));
    assert!(matches!(
        r,
        Err(Error::NotEnoughSpace { remaining: 28, expected: 44 })
    ));
    assert_eq!((rb.produce_offset(), rb.consume_offset()), (p, c));
    assert!(matches!(
        rb.publish(3, &payload(100, 0)),
        Err(Error::NotEnoughSpace { remaining: 28, expected: 116 })
    ));
}

#[test]
fn offsets_meet_after_equal_publishes_and_consumes() {
    let mut rb = Ringbuf::new(128, false).unwrap();
    for round in 0..20u32 {
        for k in 0..3u32 {
            rb.publish(round * 3 + k, &payload(13, k as u8)).unwrap();
        }
        assert_eq!(rb.produce_offset() - rb.consume_offset(), 3 * 32);
        for _ in 0..3 {
            rb.consume().unwrap().unwrap();
        }
        assert_eq!(rb.produce_offset(), rb.consume_offset());
    }
}

#[test]
fn short_tail_is_skipped_as_padding() {
    let mut rb = Ringbuf::new(64, false).unwrap();
    rb.publish(1, &payload(40, 1)).unwrap();
    assert_eq!(rb.produce_offset(), 56);
    rb.consume().unwrap().unwrap();
    rb.publish(2, &payload(8, 2)).unwrap();
    // 8 bytes of padding, then a 24-byte block at the start of the area.
    assert_eq!(rb.produce_offset(), 56 + 8 + 24);
    let m = rb.consume().unwrap().unwrap();
    assert_eq!((m.msg_id, m.payload), (2, payload(8, 2)));
    assert_eq!(rb.produce_offset(), rb.consume_offset());
}

#[test]
fn peek_is_idempotent() {
    let mut rb = Ringbuf::new(256, true).unwrap();
    assert!(rb.peek().unwrap().is_none());
    rb.publish(5, &vec![1, 2, 3, 4, 5]).unwrap();
    rb.publish(6, &vec![6]).unwrap();
    let a = rb.peek().unwrap().unwrap();
    let b = rb.peek().unwrap().unwrap();
    assert_eq!((a.msg_id, &a.payload), (b.msg_id, &b.payload));
    assert_eq!(rb.consume_offset(), 0);
    let c = rb.consume().unwrap().unwrap();
    assert_eq!((c.msg_id, c.payload), (5, vec![1, 2, 3, 4, 5]));
    assert_eq!(rb.peek().unwrap().unwrap().msg_id, 6);
}

#[test]
fn bad_capacities_are_refused() {
    for cap in [0u64, 1, 32, 100, 4095, (1 << 30) + 1, (1 << 31) + 2, 1 << 32] {
        assert!(matches!(
            Ringbuf::new(cap, false),
            Err(Error::InvalidParameter { .. })
        ));
    }
    assert!(Ringbuf::new(1 << 30, false).is_ok());
}

#[test]
fn crc32_check_value() {
    let data = b"123456789".to_vec();
    assert_eq!(crc32_range(&data, 0, data.len()), 0xCBF4_3926);
    assert_eq!(crc32_range(&data, 0, 0), 0);
}

#[test]
fn frame_layout_is_little_endian() {
    let f = encode_frame(0x0102_0304, FLAG_CHECKSUM, 0xAABB_CCDD, &vec![7, 8, 9]);
    assert_eq!(f.len(), 20);
    assert_eq!(&f[0..4], &[3, 0, 0, 0]);
    assert_eq!(&f[4..8], &[4, 3, 2, 1]);
    assert_eq!(&f[8..10], &[1, 0]);
    let hcrc = crc32_range(&f, 0, 8) & 0xffff;
    assert_eq!(&f[10..12], &[(hcrc & 0xff) as u8, (hcrc >> 8) as u8]);
    assert_eq!(&f[12..16], &[0xDD, 0xCC, 0xBB, 0xAA]);
    assert_eq!(&f[16..], &[7, 8, 9, 0]);
}
