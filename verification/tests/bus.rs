use linux_bt_proxy::adv::Advertisement;
use linux_bt_proxy::bus::{Bus, RecvOutcome};

fn adv(address: u64) -> Advertisement {
    Advertisement {
        address,
        address_type: 0,
        rssi: -50,
        name: Vec::new(),
        service_uuids: Vec::new(),
        service_data: Vec::new(),
        manufacturer_data: Vec::new(),
    }
}

#[test]
fn fanout_delivers_everything_in_order() {
    // Three subscribers, five publishes within capacity: each observes
    // all five messages in publish order.
    let mut bus = Bus::new(100);
    let mut subs = vec![bus.subscribe(), bus.subscribe(), bus.subscribe()];
    for i in 0..5u64 {
        bus.publish(adv(i));
    }
    for rx in subs.iter_mut() {
        for i in 0..5u64 {
            match bus.try_recv(rx) {
                RecvOutcome::Message(a) => assert_eq!(a.address, i),
                _ => panic!("expected message {} in order", i),
            }
        }
        assert!(matches!(bus.try_recv(rx), RecvOutcome::Empty));
    }
}

#[test]
fn slow_subscriber_lags_by_the_exact_overflow() {
    // One subscriber stalls while 150 messages pass a capacity-100
    // bus: its next read reports the 50 messages it lost, then
    // resumes at the oldest retained message.
    let mut bus = Bus::new(100);
    let mut rx = bus.subscribe();
    for i in 0..150u64 {
        bus.publish(adv(i));
    }
    match bus.try_recv(&mut rx) {
        RecvOutcome::Lagged(n) => assert_eq!(n, 50),
        _ => panic!("expected a lag report"),
    }
    match bus.try_recv(&mut rx) {
        RecvOutcome::Message(a) => assert_eq!(a.address, 50),
        _ => panic!("expected to resume at the head of the retained window"),
    }
    let mut last = 50;
    loop {
        match bus.try_recv(&mut rx) {
            RecvOutcome::Message(a) => {
                assert_eq!(a.address, last + 1);
                last = a.address;
            },
            RecvOutcome::Empty => break,
            _ => panic!("no further lag or close expected"),
        }
    }
    assert_eq!(last, 149);
}

#[test]
fn exactly_capacity_messages_do_not_lag() {
    let mut bus = Bus::new(100);
    let mut rx = bus.subscribe();
    for i in 0..100u64 {
        bus.publish(adv(i));
    }
    match bus.try_recv(&mut rx) {
        RecvOutcome::Message(a) => assert_eq!(a.address, 0),
        _ => panic!("within capacity nothing is lost"),
    }
}

#[test]
fn subscribers_advance_independently() {
    let mut bus = Bus::new(100);
    let mut fast = bus.subscribe();
    let mut slow = bus.subscribe();
    bus.publish(adv(1));
    bus.publish(adv(2));
    assert!(matches!(bus.try_recv(&mut fast), RecvOutcome::Message(_)));
    assert!(matches!(bus.try_recv(&mut fast), RecvOutcome::Message(_)));
    assert!(matches!(bus.try_recv(&mut fast), RecvOutcome::Empty));
    match bus.try_recv(&mut slow) {
        RecvOutcome::Message(a) => assert_eq!(a.address, 1),
        _ => panic!("the slow subscriber still starts at its own cursor"),
    }
}

#[test]
fn late_subscriber_sees_only_later_messages() {
    let mut bus = Bus::new(100);
    bus.publish(adv(1));
    let mut rx = bus.subscribe();
    bus.publish(adv(2));
    match bus.try_recv(&mut rx) {
        RecvOutcome::Message(a) => assert_eq!(a.address, 2),
        _ => panic!("a fresh cursor starts at the head"),
    }
}

#[test]
fn closed_bus_reports_closed_after_draining() {
    let mut bus = Bus::new(100);
    let mut rx = bus.subscribe();
    bus.publish(adv(7));
    bus.close();
    assert!(matches!(bus.try_recv(&mut rx), RecvOutcome::Message(_)));
    assert!(matches!(bus.try_recv(&mut rx), RecvOutcome::Closed));
}

#[test]
fn message_contents_survive_the_bus() {
    let mut bus = Bus::new(100);
    let mut rx = bus.subscribe();
    let mut a = adv(0xAABBCCDDEEFF);
    a.rssi = -42;
    a.name = b"test".to_vec();
    bus.publish(a);
    match bus.try_recv(&mut rx) {
        RecvOutcome::Message(got) => {
            assert_eq!(got.address, 0xAABBCCDDEEFF);
            assert_eq!(got.rssi, -42);
            assert_eq!(got.name, b"test".to_vec());
        },
        _ => panic!("expected the published message"),
    }
}
