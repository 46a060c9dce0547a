use mjpeg_relay::UpdateStream;

#[test]
fn subscriber_sees_current_value_immediately() {
    let mut s = UpdateStream::new();
    s.update("A");
    let mut sub = s.stream_updates();
    assert_eq!(sub.poll_update(&s), Some(&"A"));
    assert_eq!(sub.poll_update(&s), None);
}

#[test]
fn empty_store_has_nothing_to_pull() {
    let s: UpdateStream<u32> = UpdateStream::new();
    let mut sub = s.stream_updates();
    assert_eq!(s.version(), 0);
    assert_eq!(sub.poll_update(&s), None);
    assert_eq!(sub.last_seen(), 0);
}

#[test]
fn slow_subscriber_gets_latest_only() {
    let mut s = UpdateStream::new();
    let mut sub = s.stream_updates();
    s.update("A");
    s.update("B");
    s.update("C");
    assert_eq!(sub.poll_update(&s), Some(&"C"));
    assert_eq!(sub.last_seen(), 3);
    assert_eq!(sub.poll_update(&s), None);
}

#[test]
fn versions_seen_strictly_increase() {
    let mut s = UpdateStream::new();
    let mut sub = s.stream_updates();
    let mut seen = Vec::new();
    for i in 0..20u32 {
        s.update(i);
        if i % 3 == 0 {
            if sub.poll_update(&s).is_some() {
                seen.push(sub.last_seen());
            }
        }
        if sub.poll_update(&s).is_some() {
            seen.push(sub.last_seen());
        }
    }
    assert!(seen.windows(2).all(|w| w[0] < w[1]));
    assert_eq!(seen.len(), 20);
    assert_eq!(*seen.last().unwrap(), 20);
}

#[test]
fn writer_never_waits_for_subscribers() {
    let mut s = UpdateStream::new();
    let mut idle = s.stream_updates();
    for i in 0..100_000u64 {
        s.update(i);
    }
    assert_eq!(s.version(), 100_000);
    assert_eq!(idle.poll_update(&s), Some(&99_999));
}

#[test]
fn independent_subscribers() {
    let mut s = UpdateStream::new();
    let mut a = s.stream_updates();
    let mut b = s.stream_updates();
    s.update(1u8);
    assert_eq!(a.poll_update(&s), Some(&1));
    s.update(2u8);
    assert_eq!(a.poll_update(&s), Some(&2));
    assert_eq!(b.poll_update(&s), Some(&2));
    assert_eq!(b.last_seen(), 2);
}
