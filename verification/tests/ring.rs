use netmap::{ContractViolation, Ring, RingState, RingType};

fn ring(num_slots: u32, head: u32, tail: u32) -> Ring {
    let state = RingState { num_slots, buf_size: 16, head, cur: head, tail };
    Ring::new(RingType::Rx, &state, 3).unwrap()
}

fn queued_positions(r: &Ring) -> Vec<usize> {
    r.iter().iter().map(|s| s.index()).collect()
}

#[test]
fn new_ring_has_one_blank_slot_for_each_position() {
    let r = ring(8, 6, 2);
    assert_eq!(r.num_slots(), 8);
    assert_eq!(r.ring_id(), 3);
    assert_eq!(r.ring_type(), RingType::Rx);
    assert_eq!((r.head(), r.cur(), r.tail()), (6, 6, 2));
    for i in 0..8 {
        let slot = r.at(i);
        assert_eq!(slot.index(), i);
        assert_eq!(slot.capacity(), 16);
        assert_eq!(slot.len(), 0);
        assert!(slot.is_empty());
        assert!(slot.as_slice().is_empty());
    }
}

#[test]
fn new_ring_is_refused_when_a_position_lies_outside() {
    let ok = RingState { num_slots: 4, buf_size: 8, head: 3, cur: 3, tail: 3 };
    assert!(ok.is_valid());
    assert!(Ring::new(RingType::Tx, &ok, 0).is_some());
    for bad in [
        RingState { head: 4, ..ok },
        RingState { cur: 4, ..ok },
        RingState { tail: 4, ..ok },
        RingState { num_slots: 0, head: 0, cur: 0, tail: 0, ..ok },
    ] {
        assert!(!bad.is_valid());
        assert!(Ring::new(RingType::Tx, &bad, 0).is_none());
    }
}

#[test]
fn next_head_steps_by_one_and_wraps() {
    assert_eq!(Ring::next_head(0, 8), 1);
    assert_eq!(Ring::next_head(6, 8), 7);
    assert_eq!(Ring::next_head(7, 8), 0);
    assert_eq!(Ring::next_head(0, 1), 0);
    assert_eq!(Ring::next_head(5, 0), 0);
    assert_eq!(Ring::next_head(usize::MAX, 8), 0);
    assert_eq!(Ring::next_head(usize::MAX - 1, usize::MAX), 0);
}

#[test]
fn wrapped_window_accepts_exactly_the_queued_positions() {
    let r = ring(8, 6, 2);
    for i in [6usize, 7, 0, 1] {
        assert!(r.valid_index(i), "position {} lies in the window", i);
        assert_eq!(r.index(i).index(), i);
        assert_eq!(r.get(i).unwrap().index(), i);
    }
    for i in [2usize, 3, 4, 5, 8, 100] {
        assert!(!r.valid_index(i), "position {} lies outside the window", i);
        assert_eq!(r.get(i).unwrap_err(), ContractViolation { index: i, head: 6, tail: 2 });
    }
    assert_eq!(queued_positions(&r), vec![6, 7, 0, 1]);
}

#[test]
fn window_that_does_not_wrap_is_one_contiguous_range() {
    let r = ring(8, 2, 5);
    assert_eq!(queued_positions(&r), vec![2, 3, 4]);
    for i in 0..10usize {
        assert_eq!(r.valid_index(i), (2..5).contains(&i));
    }
}

#[test]
fn window_check_gives_the_same_verdict_for_the_same_positions() {
    let a = ring(8, 6, 2);
    let b = ring(8, 6, 2);
    let wider = ring(16, 6, 2);
    for i in 0..8usize {
        assert_eq!(a.valid_index(i), a.valid_index(i));
        assert_eq!(a.valid_index(i), b.valid_index(i));
        assert_eq!(a.valid_index(i), wider.valid_index(i));
    }
}

#[test]
fn empty_ring_yields_no_slot_and_iterates_over_nothing() {
    for head in 0..4u32 {
        let mut r = ring(4, head, head);
        assert!(r.is_empty());
        assert!(r.iter().is_empty());
        assert!(r.get_next_slot().is_none());
        assert_eq!((r.head(), r.cur(), r.tail()), (head as usize, head as usize, head as usize));
    }
}

#[test]
fn window_check_of_an_empty_ring_accepts_every_position_of_the_ring() {
    let r = ring(4, 2, 2);
    for i in 0..4usize {
        assert!(r.valid_index(i));
    }
    assert!(!r.valid_index(4));
    assert!(r.iter().is_empty());
}

#[test]
fn consumption_advances_head_by_one_modulo_the_size() {
    let mut r = ring(4, 2, 1);
    assert!(!r.is_empty());
    let mut seen = Vec::new();
    let mut expected_head = 2usize;
    while let Some(slot) = r.get_next_slot() {
        seen.push(slot.index());
        expected_head = (expected_head + 1) % 4;
        assert_eq!(r.head(), expected_head);
        assert_eq!(r.cur(), expected_head);
        assert!(r.head() < r.num_slots());
        assert_eq!(r.tail(), 1);
    }
    assert_eq!(seen, vec![2, 3, 0]);
    assert!(r.is_empty());
    assert_eq!(r.head(), 1);
    assert!(r.get_next_slot().is_none());
    assert_eq!(r.head(), 1);
}

#[test]
fn iteration_is_a_snapshot_in_consumption_order() {
    let mut r = ring(8, 6, 2);
    let before = queued_positions(&r);
    let first = r.get_next_slot().unwrap().index();
    assert_eq!(first, before[0]);
    assert_eq!(queued_positions(&r), before[1..].to_vec());
}

#[test]
fn cur_follows_head_even_where_the_device_reported_another() {
    let state = RingState { num_slots: 8, buf_size: 4, head: 1, cur: 3, tail: 5 };
    let mut r = Ring::new(RingType::Rx, &state, 0).unwrap();
    assert_eq!(r.cur(), 3);
    assert_eq!(r.get_next_slot().unwrap().index(), 1);
    assert_eq!((r.head(), r.cur()), (2, 2));
}

#[test]
fn sync_takes_over_positions_of_a_ring_of_the_same_size() {
    let mut r = ring(8, 0, 0);
    let report = RingState { num_slots: 8, buf_size: 16, head: 5, cur: 6, tail: 1 };
    assert!(r.sync(&report));
    assert_eq!((r.head(), r.cur(), r.tail()), (5, 6, 1));
    assert_eq!(queued_positions(&r), vec![5, 6, 7, 0]);

    assert!(!r.sync(&RingState { num_slots: 4, head: 1, cur: 1, tail: 1, ..report }));
    assert!(!r.sync(&RingState { tail: 8, ..report }));
    assert!(!r.sync(&RingState { head: 9, ..report }));
    assert_eq!((r.head(), r.cur(), r.tail()), (5, 6, 1));
}

#[test]
fn filled_slot_shows_exactly_the_stored_bytes() {
    let mut r = ring(4, 0, 2);
    assert!(r.fill_slot(1, b"hello"));
    assert_eq!(r.at(1).len(), 5);
    assert!(!r.at(1).is_empty());
    assert_eq!(r.at(1).as_slice(), b"hello");
    assert_eq!(r.at(0).as_slice(), b"");

    assert!(r.fill_slot(1, b"yo"));
    assert_eq!(r.at(1).as_slice(), b"yo");
    assert_eq!(r.at(1).capacity(), 16);

    assert!(r.fill_slot(1, &[7u8; 16]));
    assert_eq!(r.at(1).as_slice(), &[7u8; 16]);
    assert!(r.fill_slot(1, b""));
    assert!(r.at(1).is_empty());
}

#[test]
fn fill_is_refused_outside_the_ring_or_beyond_the_capacity() {
    let mut r = ring(4, 0, 2);
    assert!(r.fill_slot(0, b"abc"));
    assert!(!r.fill_slot(4, b"abc"));
    assert!(!r.fill_slot(0, &[1u8; 17]));
    assert_eq!(r.at(0).as_slice(), b"abc");
}

#[test]
fn consumed_slot_hands_out_its_bytes() {
    let mut r = ring(4, 3, 1);
    assert!(r.fill_slot(3, b"first"));
    assert!(r.fill_slot(0, b"second"));
    assert_eq!(r.get_next_slot().unwrap().as_slice(), b"first");
    assert_eq!(r.get_next_slot().unwrap().as_slice(), b"second");
    assert!(r.get_next_slot().is_none());
}
