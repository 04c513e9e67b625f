use evering::queue::control::{
    canonical, owned, AVAILABLE, BASE_MASK, COMPLETE, CONSUMER, EMPTY, PRODUCER, REAPER_MASK,
    REAPER_SHIFT, RESERVED_MASK, SOURCE_MASK, SOURCE_SHIFT,
};
use evering::queue::lifecycle::{
    close_field, terminal, try_recv, try_reserve, try_send, Route, TryRecvError, TrySendError,
};
use evering::queue::repair::{repair_slot_with, HoldsNothing, Release, Repair};
use evering::queue::ring::{ClaimError, Ring};

const ROUTE: Route = Route { send_field: 0, recv_field: 2, owner: 0 };

struct TestQueue {
    ring: Ring<u64>,
    lifecycle: u8,
}

impl TestQueue {
    fn new(capacity: usize) -> Self {
        TestQueue { ring: Ring::new(capacity).unwrap(), lifecycle: 0 }
    }

    fn close_send(&mut self) {
        close_field(&mut self.lifecycle, ROUTE.send_field);
    }

    fn terminal(&mut self) -> bool {
        terminal(&mut self.lifecycle, ROUTE, &self.ring)
    }

    fn try_send(&mut self, value: u64) -> Result<(), TrySendError<u64>> {
        try_send(&mut self.ring, self.lifecycle, ROUTE, value)
    }

    fn try_recv(&mut self) -> Result<u64, TryRecvError> {
        try_recv(&mut self.ring, &mut self.lifecycle, ROUTE)
    }

    fn repair(&mut self, index: usize, dead: u8, live: u8) -> Repair {
        repair_slot_with(&mut self.ring, index, dead, live, &mut HoldsNothing)
    }
}

#[test]
fn disconnected_send_returns_the_exact_item() {
    let mut queue = TestQueue::new(1);
    queue.close_send();
    match queue.try_send(41) {
        Err(TrySendError::Disconnected(value)) => assert_eq!(value, 41),
        _ => panic!("closed queue must return the submitted item"),
    }
    assert!(matches!(queue.try_recv(), Err(TryRecvError::Disconnected)));
}

#[test]
fn try_send_preserves_local_contention_and_exact_item() {
    let mut queue = TestQueue::new(1);
    queue.ring.slots[0].control = owned(PRODUCER, false, 0);

    match queue.try_send(43) {
        Err(TrySendError::Busy(value)) => assert_eq!(value, 43),
        other => panic!("local producer contention must stay Busy: {other:?}"),
    }
}

#[test]
fn try_recv_preserves_local_contention() {
    let mut queue = TestQueue::new(1);
    queue.ring.slots[0].control = owned(PRODUCER, false, 0);
    queue.ring.header.tail = 1;

    assert!(matches!(queue.try_recv(), Err(TryRecvError::Busy)));
}

#[test]
fn close_becomes_terminal_only_after_drain() {
    let mut empty = TestQueue::new(1);
    empty.close_send();
    assert!(empty.terminal());

    let mut nonempty = TestQueue::new(1);
    nonempty.try_send(7).unwrap();
    nonempty.close_send();
    assert!(!nonempty.terminal());
    assert_eq!(nonempty.try_recv().unwrap(), 7);
    assert!(nonempty.terminal());
}

#[test]
fn cancelled_reservations_commit_ordered_skips() {
    let mut queue = TestQueue::new(2);
    let first = try_reserve(&mut queue.ring, queue.lifecycle, ROUTE).expect("reserve first turn");
    first.skip(&mut queue.ring);
    let second = try_reserve(&mut queue.ring, queue.lifecycle, ROUTE).expect("reserve second turn");
    let staged = second.stage(&mut queue.ring, 17);
    assert_eq!(staged.cancel(&mut queue.ring), 17);

    assert!(matches!(queue.try_recv(), Err(TryRecvError::Busy)));
    queue.try_send(23).unwrap();
    assert!(matches!(queue.try_recv(), Err(TryRecvError::Busy)));
    assert_eq!(queue.try_recv().unwrap(), 23);
}

#[test]
fn items_come_out_in_the_order_of_their_reservations() {
    let mut queue = TestQueue::new(2);
    let first = try_reserve(&mut queue.ring, queue.lifecycle, ROUTE).expect("reserve first turn");
    let first = first.stage(&mut queue.ring, 17);
    let second = try_reserve(&mut queue.ring, queue.lifecycle, ROUTE).expect("reserve second turn");
    let second = second.stage(&mut queue.ring, 23);

    second.publish(&mut queue.ring);
    assert!(matches!(queue.try_recv(), Err(TryRecvError::Busy)));
    assert!(matches!(queue.ring.claim(false, 0), Err(ClaimError::Busy)));
    first.publish(&mut queue.ring);
    assert_eq!(queue.try_recv().unwrap(), 17);
    assert_eq!(queue.try_recv().unwrap(), 23);
    assert!(matches!(queue.try_recv(), Err(TryRecvError::Empty)));
    assert!(matches!(queue.ring.claim(false, 0), Err(ClaimError::Empty)));
}

#[test]
fn rings_tell_whether_they_are_in_order() {
    let mut queue = TestQueue::new(3);
    for value in 0..7 {
        assert!(queue.ring.in_order());
        queue.try_send(value).unwrap();
        assert!(queue.ring.in_order());
        assert_eq!(queue.try_recv().unwrap(), value);
    }
    queue.try_send(7).unwrap();
    let held = try_reserve(&mut queue.ring, queue.lifecycle, ROUTE).unwrap();
    assert!(queue.ring.in_order());
    let index = held.index;
    let turn = queue.ring.slots[index].turn;
    queue.ring.slots[index].turn = turn + 1;
    assert!(!queue.ring.in_order());
    queue.ring.slots[index].turn = turn;
    assert!(queue.ring.in_order());
    held.skip(&mut queue.ring);
    assert!(queue.ring.in_order());

    let tail = queue.ring.header.tail;
    queue.ring.header.tail = queue.ring.header.head;
    assert!(!queue.ring.in_order());
    queue.ring.header.tail = 3;
    assert!(!queue.ring.in_order());
    queue.ring.header.tail = tail;
    assert!(queue.ring.in_order());
    queue.ring.one_lap = 5;
    assert!(!queue.ring.in_order());
    queue.ring.one_lap = 4;
    queue.ring.slots.clear();
    assert!(!queue.ring.in_order());
}

#[test]
fn rings_stay_in_order_where_their_positions_wrap() {
    let mut ring = Ring::<u64>::new(3).unwrap();
    let last = u64::MAX - 3;
    ring.header.head = last;
    ring.header.tail = last;
    for (i, slot) in ring.slots.iter_mut().enumerate() {
        slot.turn = last + i as u64;
    }
    assert!(ring.in_order());
    let mut queue = TestQueue { ring, lifecycle: 0 };
    for value in 0..5 {
        queue.try_send(value).unwrap();
        assert!(queue.ring.in_order());
        let claim = queue.ring.claim(false, 0).unwrap();
        assert!(queue.ring.in_order());
        assert_eq!(claim.take(&mut queue.ring), value);
        assert!(queue.ring.in_order());
    }
    assert_eq!(queue.ring.header.head, 2);
    assert_eq!(queue.ring.header.tail, 2);
}

#[test]
fn non_power_of_two_capacity_wraps_without_reordering() {
    let mut queue = TestQueue::new(3);

    for lap in 0..16 {
        for index in 0..3 {
            queue.try_send(lap * 3 + index).unwrap();
        }
        assert!(matches!(queue.try_send(u64::MAX), Err(TrySendError::Full(u64::MAX))));
        for index in 0..3 {
            assert_eq!(queue.try_recv().unwrap(), lap * 3 + index);
        }
        assert!(matches!(queue.try_recv(), Err(TryRecvError::Empty)));
    }
}

#[test]
fn close_accounts_for_every_racing_sender() {
    const SENDERS: u64 = 64;
    for closing in [0, 1, 31, 64] {
        let mut queue = TestQueue::new(128);
        let mut accepted = 0;
        let mut rejected = 0;
        for value in 0..SENDERS {
            if value == closing {
                queue.close_send();
            }
            match queue.try_send(value) {
                Ok(()) => accepted += 1,
                Err(TrySendError::Disconnected(returned)) => {
                    assert_eq!(returned, value);
                    rejected += 1;
                }
                Err(other) => panic!("unexpected refusal: {other:?}"),
            }
        }
        queue.close_send();

        let mut received = 0;
        loop {
            match queue.try_recv() {
                Ok(_) => received += 1,
                Err(TryRecvError::Disconnected) => break,
                Err(other) => panic!("a closed queue drains at once: {other:?}"),
            }
        }
        assert_eq!(received, accepted);
        assert_eq!(received + rejected, SENDERS);
    }
}

#[test]
fn only_defined_control_encodings_are_canonical() {
    const PARTICIPANT_CAPACITY: usize = 63;
    for control in u16::MIN..=u16::MAX {
        let source = control & SOURCE_MASK;
        let reaper = control & REAPER_MASK;
        let expected = control & RESERVED_MASK == 0
            && match control & BASE_MASK {
                EMPTY => control == EMPTY,
                AVAILABLE => source == 0 && reaper == 0,
                PRODUCER | CONSUMER => {
                    source != 0
                        && (source >> SOURCE_SHIFT) as usize <= PARTICIPANT_CAPACITY
                        && (reaper >> REAPER_SHIFT) as usize <= PARTICIPANT_CAPACITY
                }
                _ => false,
            };
        assert_eq!(canonical(control), expected, "{control:#018b}");
    }
    assert!(canonical(AVAILABLE | COMPLETE));
}

struct Recorder {
    source: Option<u8>,
}

impl Release<u64> for Recorder {
    fn ready(&self) -> bool {
        true
    }

    fn accepts(&self, _: u64, _: u8) -> bool {
        true
    }

    fn released(&self, _: u64, owner: u8, after: &Self) -> bool {
        after.source == Some(owner)
    }

    fn release(&mut self, _: &u64, owner: u8) -> bool {
        self.source = Some(owner);
        true
    }
}

#[test]
fn dead_reaper_is_replaced_without_losing_the_source_phase() {
    let mut queue = TestQueue::new(1);
    queue.ring.slots[0].value = Some(37);
    queue.ring.slots[0].control = owned(PRODUCER, true, 0) | (2 << REAPER_SHIFT);
    queue.ring.header.tail = 1;

    let mut recorder = Recorder { source: None };
    assert_eq!(
        repair_slot_with(&mut queue.ring, 0, 1, 2, &mut recorder),
        Repair::Recovered
    );
    assert_eq!(recorder.source, Some(0));
    assert_eq!(queue.ring.slots[0].control, AVAILABLE);
}

#[test]
fn live_reaper_resumes_its_persisted_claim() {
    let mut queue = TestQueue::new(1);
    queue.ring.slots[0].control = owned(PRODUCER, false, 0) | (2 << REAPER_SHIFT);

    assert_eq!(queue.repair(0, 0, 1), Repair::Recovered);
    assert_eq!(queue.ring.slots[0].control, EMPTY);
}

#[test]
fn another_live_reaper_keeps_its_claim() {
    let mut queue = TestQueue::new(1);
    queue.ring.slots[0].control = owned(PRODUCER, false, 0) | (3 << REAPER_SHIFT);

    assert_eq!(queue.repair(0, 0, 1), Repair::Busy(2));
    assert_eq!(queue.repair(7, 0, 1), Repair::Corrupted);
    queue.ring.slots[0].control = RESERVED_MASK;
    assert_eq!(queue.repair(0, 0, 1), Repair::Corrupted);
}

#[test]
fn repair_cancels_staged_but_unpublished_bytes() {
    let mut before_send = TestQueue::new(1);
    before_send.ring.slots[0].control = owned(PRODUCER, false, 0);
    assert_eq!(before_send.repair(0, 0, 1), Repair::Recovered);
    assert_eq!(before_send.ring.slots[0].control, EMPTY);

    let mut sent = TestQueue::new(1);
    sent.ring.slots[0].value = Some(37);
    sent.ring.slots[0].control = owned(PRODUCER, true, 0);
    sent.ring.header.tail = 2;
    assert_eq!(sent.repair(0, 0, 1), Repair::Recovered);
    assert!(matches!(sent.try_recv(), Err(TryRecvError::Busy)));
    assert!(matches!(sent.try_recv(), Err(TryRecvError::Empty)));

    let mut taking = TestQueue::new(1);
    taking.ring.slots[0].value = Some(37);
    taking.ring.slots[0].control = owned(CONSUMER, true, 0);
    taking.ring.header.head = 1;
    assert_eq!(taking.repair(0, 0, 1), Repair::Recovered);
    assert_eq!(taking.ring.slots[0].turn, 2);
    assert_eq!(taking.ring.slots[0].control, EMPTY);
}
