use forever_safer::instant_bus::InstantBus;

#[test]
fn fan_out_test() {
    let mut bus: InstantBus<u64> = InstantBus::new();
    let mut first = bus.subscribe();
    let mut second = bus.subscribe();
    let mut third = bus.subscribe();
    third.close();
    bus.send(42);
    assert_eq!(first.recv(), Some(42));
    assert_eq!(second.recv(), Some(42));
    // a subscriber that closed before the send never receives the value
    assert_eq!(third.recv(), None);
    // and its registry entry was pruned during the send
    assert_eq!(bus.subscriber_count(), 2);
}

#[test]
fn dropped_subscriber_pruned_test() {
    let mut bus: InstantBus<u64> = InstantBus::new();
    let mut kept = bus.subscribe();
    let dropped = bus.subscribe();
    assert_eq!(bus.subscriber_count(), 2);
    drop(dropped);
    bus.send(7);
    assert_eq!(bus.subscriber_count(), 1);
    assert_eq!(kept.recv(), Some(7));
}

#[test]
fn close_idempotent_test() {
    let mut bus: InstantBus<u64> = InstantBus::new();
    let mut sub = bus.subscribe();
    assert!(!sub.is_closed());
    sub.close();
    assert!(sub.is_closed());
    sub.close();
    assert!(sub.is_closed());
    assert_eq!(sub.recv(), None);
}

#[test]
fn end_of_stream_test() {
    let mut bus: InstantBus<u64> = InstantBus::new();
    let mut sub = bus.subscribe();
    bus.send(1);
    drop(bus);
    // the queued value still arrives, then the stream ends
    assert_eq!(sub.recv(), Some(1));
    assert_eq!(sub.recv(), None);
}

#[test]
fn each_send_received_once_test() {
    let mut bus: InstantBus<u64> = InstantBus::new();
    let mut sub = bus.subscribe();
    bus.send(10);
    bus.send(20);
    drop(bus);
    assert_eq!(sub.recv(), Some(10));
    assert_eq!(sub.recv(), Some(20));
    assert_eq!(sub.recv(), None);
}

#[test]
fn late_subscriber_misses_earlier_send_test() {
    let mut bus: InstantBus<u64> = InstantBus::new();
    let mut early = bus.subscribe();
    bus.send(5);
    let mut late = bus.subscribe();
    drop(bus);
    assert_eq!(early.recv(), Some(5));
    assert_eq!(late.recv(), None);
}

#[test]
fn many_subscribers_fan_out_test() {
    let mut bus: InstantBus<u64> = InstantBus::new();
    let mut subscribers = Vec::new();
    for _ in 0..5 {
        subscribers.push(bus.subscribe());
    }
    bus.send(99);
    assert_eq!(bus.subscriber_count(), 5);
    for subscriber in subscribers.iter_mut() {
        assert_eq!(subscriber.recv(), Some(99));
    }
}
