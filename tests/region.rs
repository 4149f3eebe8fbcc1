use shm_ringbuf::region::{
    decode_fdpass_body, encode_fdpass_body, ring_capacity, stamp_region_header,
    validate_region_header,
};
use shm_ringbuf::Error;

#[test]
fn stamped_region_is_accepted_and_flipped_magic_is_refused() {
    let mut h = stamp_region_header(4096);
    assert_eq!(h.len(), 64);
    assert_eq!(&h[0..4], &0x5242_5546u32.to_le_bytes());
    assert_eq!(&h[4..8], &1u32.to_le_bytes());
    assert_eq!(validate_region_header(&h, 4096).unwrap(), 4096);
    h[0] ^= 0x01;
    assert!(matches!(
        validate_region_header(&h, 4096),
        Err(Error::InvalidParameter { .. })
    ));
}

#[test]
fn region_with_other_version_or_capacity_is_refused() {
    let mut h = stamp_region_header(4096);
    h[4] = 2;
    assert!(matches!(validate_region_header(&h, 4096), Err(Error::InvalidParameter { .. })));
    let h = stamp_region_header(1000);
    assert!(matches!(validate_region_header(&h, 4096), Err(Error::InvalidParameter { .. })));
    let h = vec![0u8; 10];
    assert!(matches!(validate_region_header(&h, 4096), Err(Error::InvalidParameter { .. })));
}

#[test]
fn region_whose_capacity_differs_from_the_announced_one_is_refused() {
    let h = stamp_region_header(4096);
    assert!(matches!(
        validate_region_header(&h, 8192),
        Err(Error::InvalidParameter { .. })
    ));
    let h = stamp_region_header(1 << 31);
    assert_eq!(validate_region_header(&h, 1 << 31).unwrap(), 1 << 31);
}

#[test]
fn fdpass_body_round_trips() {
    let b = encode_fdpass_body(65536, true);
    assert_eq!(&b[0..4], &0x4644_5053u32.to_le_bytes());
    assert_eq!(decode_fdpass_body(&b).unwrap(), (65536, true));
    let b = encode_fdpass_body(64, false);
    assert_eq!(decode_fdpass_body(&b).unwrap(), (64, false));
    let mut bad = b.clone();
    bad[3] = 0;
    assert!(matches!(decode_fdpass_body(&bad), Err(Error::InvalidParameter { .. })));
}

#[test]
fn ring_length_rounds_up_to_a_power_of_two() {
    assert_eq!(ring_capacity(0).unwrap(), 64);
    assert_eq!(ring_capacity(64).unwrap(), 64);
    assert_eq!(ring_capacity(65).unwrap(), 128);
    assert_eq!(ring_capacity(1000).unwrap(), 1024);
    assert_eq!(ring_capacity(1024 * 1024).unwrap(), 1024 * 1024);
    assert_eq!(ring_capacity(1 << 30).unwrap(), 1 << 30);
    assert_eq!(ring_capacity((1 << 30) + 1).unwrap(), 1 << 31);
    assert!(matches!(ring_capacity((1 << 31) + 1), Err(Error::InvalidParameter { .. })));
}
