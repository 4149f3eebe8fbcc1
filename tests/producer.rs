use shm_ringbuf::producer::Producer;
use shm_ringbuf::{Error, Ringbuf};

#[test]
fn ids_count_up_and_survive_a_reset() {
    let mut p = Producer::new(Ringbuf::new(256, true).unwrap());
    assert_eq!(p.send(&vec![1]).unwrap(), 0);
    assert_eq!(p.send(&vec![2]).unwrap(), 1);
    assert_eq!(p.send_and_subscribe(&vec![3], 500).unwrap(), 2);
    assert_eq!(p.send_and_subscribe(&vec![4], 600).unwrap(), 3);
    assert_eq!(p.registry.len(), 2);
    let m = p.ring.consume().unwrap().unwrap();
    assert_eq!((m.msg_id, m.payload), (0, vec![1]));

    let mut dropped = p.reset(Ringbuf::new(256, true).unwrap());
    dropped.sort();
    assert_eq!(dropped, vec![2, 3]);
    assert_eq!(p.registry.len(), 0);
    assert_eq!(p.ring.produce_offset(), 0);
    assert_eq!(p.send(&vec![5]).unwrap(), 4);
}

#[test]
fn full_ring_keeps_the_id() {
    let mut p = Producer::new(Ringbuf::new(64, false).unwrap());
    assert_eq!(p.send(&vec![0; 40]).unwrap(), 0);
    assert!(matches!(
        p.send_and_subscribe(&vec![0; 40], 10),
        Err(Error::NotEnoughSpace { .. })
    ));
    assert_eq!(p.next_id, 1);
    assert_eq!(p.registry.len(), 0);
    p.ring.consume().unwrap().unwrap();
    assert_eq!(p.send(&vec![0; 4]).unwrap(), 1);
}

#[test]
fn exhausted_ids_are_refused() {
    let mut p = Producer::new(Ringbuf::new(64, false).unwrap());
    p.next_id = u32::MAX;
    assert!(matches!(p.send(&vec![1]), Err(Error::InvalidParameter { .. })));
    assert_eq!(p.ring.produce_offset(), 0);
}
