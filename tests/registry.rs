use shm_ringbuf::registry::Registry;
use shm_ringbuf::Error;

#[test]
fn undelivered_subscription_times_out_after_its_ttl() {
    let mut r = Registry::new();
    let now_ms = 1_000u64;
    r.register(7, now_ms + 100).unwrap();
    assert_eq!(r.len(), 1);
    assert!(r.tick(now_ms + 99).is_empty());
    assert_eq!(r.len(), 1);
    assert_eq!(r.tick(now_ms + 100), vec![7]);
    assert_eq!(r.len(), 0);
    assert!(!r.deliver(7));
}

#[test]
fn duplicate_registration_is_refused() {
    let mut r = Registry::new();
    r.register(1, 10).unwrap();
    assert!(matches!(r.register(1, 20), Err(Error::InvalidParameter { .. })));
    assert_eq!(r.len(), 1);
}

#[test]
fn result_is_delivered_once() {
    let mut r = Registry::new();
    r.register(3, 10).unwrap();
    r.register(4, 10).unwrap();
    assert!(r.deliver(3));
    assert!(!r.deliver(3));
    assert!(!r.deliver(99));
    assert_eq!(r.len(), 1);
}

#[test]
fn tick_removes_only_expired() {
    let mut r = Registry::new();
    for id in 0..10u32 {
        r.register(id, 100 + (id as u64) * 10).unwrap();
    }
    let mut gone = r.tick(140);
    gone.sort();
    assert_eq!(gone, vec![0, 1, 2, 3, 4]);
    assert_eq!(r.len(), 5);
    let mut rest = r.drain();
    rest.sort();
    assert_eq!(rest, vec![5, 6, 7, 8, 9]);
    assert_eq!(r.len(), 0);
}
