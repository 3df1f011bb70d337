use netmap::{DeviceState, OpenError, PollError, Port, PortSpec, RingState, RingType};

fn report(num_slots: u32, head: u32, tail: u32) -> RingState {
    RingState { num_slots, buf_size: 32, head, cur: head, tail }
}

fn device(rx: Vec<RingState>) -> DeviceState {
    let last = rx.len() as u16;
    DeviceState {
        fd: 7,
        first_tx_ring: 0,
        last_tx_ring: 0,
        first_rx_ring: 1,
        last_rx_ring: last,
        tx_rings: vec![report(4, 0, 3)],
        rx_rings: rx,
    }
}

fn open(rx: Vec<RingState>) -> Port {
    PortSpec::from("netmap:eth0").open_port(Some(device(rx))).unwrap()
}

#[test]
fn port_spec_keeps_the_selection_as_it_is() {
    assert_eq!(PortSpec::from("netmap:eth0-1/R").as_str(), "netmap:eth0-1/R");
    assert_eq!(PortSpec::from("").as_str(), "");
}

#[test]
fn open_builds_one_ring_for_each_queue() {
    let port = open(vec![report(8, 6, 2), report(4, 1, 1)]);
    assert_eq!(port.fd(), 7);
    assert_eq!(port.scan_start(), 0);
    let rx = port.rx_rings();
    assert_eq!(rx.len(), 2);
    assert_eq!((rx[0].ring_id(), rx[1].ring_id()), (1, 2));
    assert_eq!(rx[0].ring_type(), RingType::Rx);
    assert_eq!((rx[0].num_slots(), rx[0].head(), rx[0].tail()), (8, 6, 2));
    assert!(rx[1].is_empty());
    let tx = port.tx_rings();
    assert_eq!(tx.len(), 1);
    assert_eq!(tx[0].ring_id(), 0);
    assert_eq!(tx[0].ring_type(), RingType::Tx);
    assert_eq!(tx[0].num_slots(), 4);
}

#[test]
fn open_with_an_empty_queue_range_builds_no_ring() {
    let state = DeviceState {
        fd: 3,
        first_tx_ring: 1,
        last_tx_ring: 0,
        first_rx_ring: 5,
        last_rx_ring: 4,
        tx_rings: vec![],
        rx_rings: vec![],
    };
    let mut port = PortSpec::from("x").open_port(Some(state)).unwrap();
    assert!(port.rx_rings().is_empty());
    assert!(port.tx_rings().is_empty());
    assert!(port.get_rx_slot().is_none());
    assert_eq!(port.poll(Ok(1)).unwrap(), true);
    assert_eq!(port.scan_start(), 0);
}

#[test]
fn open_fails_with_the_selection_when_the_device_did_not_open() {
    let err: OpenError = PortSpec::from("netmap:nope").open_port(None).unwrap_err();
    assert_eq!(err.spec, "netmap:nope");
    assert_eq!(err.message(), "Failed to open: netmap:nope");
}

#[test]
fn open_fails_when_a_report_is_missing_or_unusable() {
    let mut missing = device(vec![report(8, 0, 0)]);
    missing.last_rx_ring = 2;
    let err = PortSpec::from("a").open_port(Some(missing)).unwrap_err();
    assert_eq!(err.message(), "Failed to open: a");

    let unusable = device(vec![report(8, 0, 0), report(8, 8, 0)]);
    assert!(PortSpec::from("b").open_port(Some(unusable)).is_err());

    let mut bad_tx = device(vec![report(8, 0, 0)]);
    bad_tx.tx_rings = vec![report(0, 0, 0)];
    assert!(PortSpec::from("c").open_port(Some(bad_tx)).is_err());
}

#[test]
fn empty_first_ring_is_passed_over_until_the_second_is_drained() {
    let mut port = open(vec![report(8, 3, 3), report(8, 6, 1)]);
    let mut positions = Vec::new();
    for _ in 0..3 {
        positions.push(port.get_rx_slot().unwrap().index());
        assert_eq!(port.scan_start(), 1);
    }
    assert_eq!(positions, vec![6, 7, 0]);
    assert!(port.get_rx_slot().is_none());
    assert_eq!(port.scan_start(), 1);
    assert!(port.rx_rings()[1].is_empty());
    assert_eq!(port.rx_rings()[0].head(), 3);
}

#[test]
fn scan_wraps_once_to_the_rings_before_its_start() {
    let mut port = open(vec![report(4, 0, 1), report(4, 0, 0), report(4, 2, 3)]);
    assert_eq!(port.get_rx_slot().unwrap().index(), 0);
    assert_eq!(port.scan_start(), 0);
    assert_eq!(port.get_rx_slot().unwrap().index(), 2);
    assert_eq!(port.scan_start(), 2);
    assert!(port.sync_rx_ring(0, &report(4, 1, 2)));
    assert_eq!(port.get_rx_slot().unwrap().index(), 1);
    assert_eq!(port.scan_start(), 0);
    assert!(port.get_rx_slot().is_none());
    assert_eq!(port.scan_start(), 0);
}

#[test]
fn scan_stays_on_a_ring_while_it_has_slots_queued() {
    let mut port = open(vec![report(8, 0, 2), report(8, 0, 2)]);
    let mut from = Vec::new();
    while port.get_rx_slot().is_some() {
        from.push(port.scan_start());
    }
    assert_eq!(from, vec![0, 0, 1, 1]);
}

#[test]
fn poll_without_ready_descriptor_is_not_ready() {
    let mut port = open(vec![report(8, 0, 0)]);
    assert_eq!(port.poll(Ok(0)).unwrap(), false);
    assert_eq!(port.poll(Ok(1)).unwrap(), true);
    assert_eq!(port.poll(Ok(3)).unwrap(), true);
}

#[test]
fn poll_hands_the_failure_of_the_wait_back() {
    let mut port = open(vec![report(8, 0, 0), report(8, 1, 2)]);
    assert!(port.get_rx_slot().is_some());
    assert_eq!(port.scan_start(), 1);
    let err = port.poll(Err(PollError { message: String::from("poll failed") })).unwrap_err();
    assert_eq!(err.message, "poll failed");
    assert_eq!(port.scan_start(), 0);
}

#[test]
fn poll_restarts_the_scan_at_the_first_ring_and_changes_no_ring() {
    let mut port = open(vec![report(8, 0, 0), report(8, 1, 3)]);
    assert_eq!(port.get_rx_slot().unwrap().index(), 1);
    assert_eq!(port.scan_start(), 1);
    assert!(port.sync_rx_ring(0, &report(8, 4, 5)));
    assert_eq!(port.poll(Ok(1)).unwrap(), true);
    assert_eq!(port.scan_start(), 0);
    assert_eq!(port.rx_rings()[1].head(), 2);
    assert_eq!(port.get_rx_slot().unwrap().index(), 4);
    assert_eq!(port.scan_start(), 0);
}

#[test]
fn refresh_of_a_ring_that_the_port_lacks_is_refused() {
    let mut port = open(vec![report(8, 0, 0)]);
    assert!(!port.sync_rx_ring(1, &report(8, 0, 1)));
    assert!(!port.sync_rx_ring(0, &report(4, 0, 1)));
    assert!(!port.sync_rx_ring(0, &report(8, 0, 8)));
    assert!(!port.fill_rx_slot(1, 0, b"x"));
    assert!(!port.fill_rx_slot(0, 8, b"x"));
    assert!(!port.fill_rx_slot(0, 0, &[0u8; 33]));
    assert!(port.get_rx_slot().is_none());
}

#[test]
fn consumed_slot_carries_what_the_device_stored() {
    let mut port = open(vec![report(8, 0, 0), report(8, 7, 7)]);
    assert!(port.fill_rx_slot(1, 7, b"ping"));
    assert!(port.fill_rx_slot(1, 0, b"pong!"));
    assert!(port.sync_rx_ring(1, &report(8, 7, 1)));
    assert_eq!(port.poll(Ok(1)).unwrap(), true);
    let first = port.get_rx_slot().unwrap();
    assert_eq!((first.index(), first.len(), first.as_slice()), (7, 4, &b"ping"[..]));
    let second = port.get_rx_slot().unwrap();
    assert_eq!((second.index(), second.as_slice()), (0, &b"pong!"[..]));
    assert!(port.get_rx_slot().is_none());
    assert_eq!(port.rx_rings()[port.scan_start()].ring_id(), 2);
}
