//! Closing of the two directions of a channel.
//!
//! One byte holds four fields of two bits: for each direction, whether its
//! sender and its receiver are closing, and whether they are closed.

use super::control::{base, CONSUMER, PRODUCER};
use super::ring::{Claim, ClaimError, ReserveError, Reserved, Ring};
use crate::header::PARTICIPANT_CAPACITY;
use vstd::prelude::*;

verus! {

/// Where a direction keeps its two fields, and who acts on it.
#[derive(Clone, Copy, Debug, PartialEq, Eq, Structural)]
pub struct Route {
    pub send_field: u32,
    pub recv_field: u32,
    pub owner: u8,
}

impl Route {
    pub open spec fn wf(self) -> bool {
        &&& is_field(self.send_field)
        &&& is_field(self.recv_field)
        &&& self.owner < PARTICIPANT_CAPACITY
    }
}

pub open spec fn is_field(field: u32) -> bool {
    field == 0 || field == 2 || field == 4 || field == 6
}

/// The two bits of a field: the low one is closing, both are closed.
pub open spec fn field_of(lifecycle: u8, field: u32) -> int {
    if field == 0 {
        lifecycle as int % 4
    } else if field == 2 {
        (lifecycle as int / 4) % 4
    } else if field == 4 {
        (lifecycle as int / 16) % 4
    } else {
        (lifecycle as int / 64) % 4
    }
}

/// The byte with the two bits of a field set to `value`.
pub open spec fn with_field(lifecycle: u8, field: u32, value: int) -> int {
    let change = value - field_of(lifecycle, field);
    if field == 0 {
        lifecycle + change
    } else if field == 2 {
        lifecycle + 4 * change
    } else if field == 4 {
        lifecycle + 16 * change
    } else {
        lifecycle + 64 * change
    }
}

/// Whether either side of a direction is closing.
pub open spec fn route_closed(lifecycle: u8, route: Route) -> bool {
    field_of(lifecycle, route.send_field) != 0 || field_of(lifecycle, route.recv_field) != 0
}

/// The fields do not touch each other.
pub proof fn law_fields_are_independent(lifecycle: u8, field: u32, other: u32, value: int)
    requires
        is_field(field),
        is_field(other),
        0 <= value < 4,
    ensures
        0 <= with_field(lifecycle, field, value) <= 255,
        field_of(with_field(lifecycle, field, value) as u8, other) == (if other == field {
            value
        } else {
            field_of(lifecycle, other)
        }),
{
    let l = lifecycle as int;
    let a = l % 4;
    let b = (l / 4) % 4;
    let c = (l / 16) % 4;
    let d = (l / 64) % 4;
    assert(l == a + 4 * b + 16 * c + 64 * d);
    let n = with_field(lifecycle, field, value);
    if field == 0 {
        lemma_digits(value, b, c, d);
    } else if field == 2 {
        lemma_digits(a, value, c, d);
    } else if field == 4 {
        lemma_digits(a, b, value, d);
    } else {
        lemma_digits(a, b, c, value);
    }
}

/// The four fields of a byte are read back as they were written.
proof fn lemma_digits(a: int, b: int, c: int, d: int)
    requires
        0 <= a < 4,
        0 <= b < 4,
        0 <= c < 4,
        0 <= d < 4,
    ensures
        ({
            let n = a + 4 * b + 16 * c + 64 * d;
            &&& n % 4 == a
            &&& (n / 4) % 4 == b
            &&& (n / 16) % 4 == c
            &&& (n / 64) % 4 == d
            &&& n <= 255
        }),
{
}

pub fn field_state(lifecycle: u8, field: u32) -> (state: u8)
    requires
        is_field(field),
    ensures
        state == field_of(lifecycle, field),
        state < 4,
{
    if field == 0 {
        lifecycle % 4
    } else if field == 2 {
        (lifecycle / 4) % 4
    } else if field == 4 {
        (lifecycle / 16) % 4
    } else {
        (lifecycle / 64) % 4
    }
}

fn set_field(lifecycle: &mut u8, field: u32, value: u8)
    requires
        is_field(field),
        field_of(*old(lifecycle), field) <= value < 4,
    ensures
        *final(lifecycle) == with_field(*old(lifecycle), field, value as int),
{
    let state: u8 = field_state(*lifecycle, field);
    proof {
        law_fields_are_independent(*lifecycle, field, field, value as int);
        law_fields_are_independent(*lifecycle, field, field, state as int);
    }
    if field == 0 {
        *lifecycle = *lifecycle + (value - state);
    } else if field == 2 {
        *lifecycle = *lifecycle + 4 * (value - state);
    } else if field == 4 {
        *lifecycle = *lifecycle + 16 * (value - state);
    } else {
        *lifecycle = *lifecycle + 64 * (value - state);
    }
}

/// Closing sets the low bit and keeps the high one.
pub open spec fn closing(state: int) -> int {
    if state == 0 {
        1
    } else if state == 2 {
        3
    } else {
        state
    }
}

/// Starts to close one side.
pub fn close_field(lifecycle: &mut u8, field: u32)
    requires
        is_field(field),
    ensures
        *final(lifecycle) == with_field(
            *old(lifecycle),
            field,
            closing(field_of(*old(lifecycle), field)),
        ),
{
    let state: u8 = field_state(*lifecycle, field);
    let next: u8 = if state == 0 {
        1
    } else if state == 2 {
        3
    } else {
        state
    };
    set_field(lifecycle, field, next);
}

/// No participant holds a turn on the given side.
pub open spec fn side_idle<T>(slots: Seq<super::ring::Slot<T>>, side: u16) -> bool {
    forall|i: int|
        0 <= i < slots.len() ==> super::control::base_of(#[trigger] slots[i].control) != side
}

/// Finishes closing one side once nobody holds a turn on it.
pub fn finish_field<T>(lifecycle: &mut u8, field: u32, ring: &Ring<T>, side: u16) -> (state: u8)
    requires
        is_field(field),
    ensures
        ({
            let before = field_of(*old(lifecycle), field);
            if before == 1 && side_idle(ring@.slots, side) {
                &&& state == 3
                &&& *final(lifecycle) == with_field(*old(lifecycle), field, 3)
            } else {
                &&& state == before
                &&& *final(lifecycle) == *old(lifecycle)
            }
        }),
{
    let state: u8 = field_state(*lifecycle, field);
    if state != 1 {
        return state;
    }
    let mut i: usize = 0;
    while i < ring.slots.len()
        invariant
            i <= ring.slots@.len(),
            *lifecycle == *old(lifecycle),
            state == field_of(*old(lifecycle), field),
            forall|j: int|
                0 <= j < i ==> super::control::base_of(#[trigger] ring.slots@[j].control) != side,
        decreases ring.slots@.len() - i,
    {
        if base(ring.slots[i].control) == side {
            assert(!side_idle(ring@.slots, side)) by {
                assert(super::control::base_of(ring@.slots[i as int].control) == side);
            }
            return state;
        }
        i = i + 1;
    }
    assert(side_idle(ring@.slots, side));
    set_field(lifecycle, field, 3);
    3
}

/// Whether the sender of a direction is closed, now that it was looked at.
pub open spec fn sender_done<T>(lifecycle: u8, route: Route, slots: Seq<super::ring::Slot<T>>) -> bool {
    let state = field_of(lifecycle, route.send_field);
    state == 3 || (state == 1 && side_idle(slots, PRODUCER))
}

pub open spec fn receiver_done<T>(
    lifecycle: u8,
    route: Route,
    slots: Seq<super::ring::Slot<T>>,
) -> bool {
    let state = field_of(lifecycle, route.recv_field);
    state == 3 || (state == 1 && side_idle(slots, CONSUMER))
}

/// The byte after a side was looked at.
pub open spec fn looked_at(lifecycle: u8, field: u32, done: bool) -> u8 {
    if done {
        with_field(lifecycle, field, 3) as u8
    } else {
        lifecycle
    }
}

pub fn send_closed<T>(lifecycle: &mut u8, route: Route, ring: &Ring<T>) -> (closed: bool)
    requires
        route.wf(),
    ensures
        closed == sender_done(*old(lifecycle), route, ring@.slots),
        *final(lifecycle) == looked_at(*old(lifecycle), route.send_field, closed),
{
    proof {
        lemma_same_field(*lifecycle, route.send_field);
    }
    finish_field(lifecycle, route.send_field, ring, PRODUCER) == 3
}

pub fn recv_closed<T>(lifecycle: &mut u8, route: Route, ring: &Ring<T>) -> (closed: bool)
    requires
        route.wf(),
    ensures
        closed == receiver_done(*old(lifecycle), route, ring@.slots),
        *final(lifecycle) == looked_at(*old(lifecycle), route.recv_field, closed),
{
    proof {
        lemma_same_field(*lifecycle, route.recv_field);
    }
    finish_field(lifecycle, route.recv_field, ring, CONSUMER) == 3
}

proof fn lemma_same_field(lifecycle: u8, field: u32)
    requires
        is_field(field),
    ensures
        field_of(lifecycle, field) == 3 ==> with_field(lifecycle, field, 3) == lifecycle,
{
}

/// The byte after both sides of a direction were looked at: the receiver first,
/// and the sender where the receiver is not done.
pub open spec fn ended_byte<T>(
    lifecycle: u8,
    route: Route,
    slots: Seq<super::ring::Slot<T>>,
) -> u8 {
    let receiver = receiver_done(lifecycle, route, slots);
    let next = looked_at(lifecycle, route.recv_field, receiver);
    if receiver {
        next
    } else {
        looked_at(next, route.send_field, sender_done(next, route, slots))
    }
}

/// Nothing more will ever be received in a direction: its receiver is closed,
/// or its sender is and everything sent was received.
pub fn terminal<T>(lifecycle: &mut u8, route: Route, ring: &Ring<T>) -> (ended: bool)
    requires
        route.wf(),
    ensures
        ({
            let before = *old(lifecycle);
            let receiver = receiver_done(before, route, ring@.slots);
            let next = looked_at(before, route.recv_field, receiver);
            let sender = sender_done(next, route, ring@.slots);
            &&& ended == (receiver || (sender && ring@.head == ring@.tail))
            &&& *final(lifecycle) == ended_byte(before, route, ring@.slots)
        }),
{
    if recv_closed(lifecycle, route, ring) {
        return true;
    }
    send_closed(lifecycle, route, ring) && ring.is_empty()
}

#[derive(Debug)]
pub enum TrySendError<T> {
    /// Shared capacity is exhausted; receiver progress is required.
    Full(T),
    /// Local retry may progress without receiver action.
    Busy(T),
    Disconnected(T),
}

#[derive(Debug, Clone, Copy, PartialEq, Eq, Structural)]
pub enum TryRecvError {
    /// No committed item exists; sender progress is required.
    Empty,
    /// Local retry may progress without sender action.
    Busy,
    Disconnected,
}

/// One attempt to take a turn to send.
pub fn try_reserve<T>(ring: &mut Ring<T>, lifecycle: u8, route: Route) -> (reserved: Result<
    Reserved,
    ReserveError,
>)
    requires
        route.wf(),
        old(ring)@.shaped(),
        old(ring)@.index(old(ring)@.tail) < old(ring)@.capacity(),
    ensures
        ({
            let before = old(ring)@;
            let tail = before.tail;
            let closed = route_closed(lifecycle, route);
            match reserved {
                Ok(reserved) => !closed && before.enters(tail, route.owner) && before.confirms(tail)
                    && reserved.index == before.index(tail) && final(ring)@ == before.entered(
                    tail,
                    route.owner,
                ).reserved(tail),
                Err(error) => final(ring)@ == before && if closed {
                    error == ReserveError::Closed
                } else if before.enters(tail, route.owner) {
                    !before.confirms(tail) && error == ReserveError::Busy
                } else if before.lap_later(before.head) == tail {
                    error == ReserveError::Full
                } else {
                    error == ReserveError::Busy
                },
            }
        }),
{
    let closed: bool = field_state(lifecycle, route.send_field) != 0 || field_state(
        lifecycle,
        route.recv_field,
    ) != 0;
    ring.reserve(closed, route.owner)
}

/// Sends one item, or gives it back with the reason.
pub fn try_send<T>(ring: &mut Ring<T>, lifecycle: u8, route: Route, value: T) -> (sent: Result<
    (),
    TrySendError<T>,
>)
    requires
        route.wf(),
        old(ring)@.shaped(),
        old(ring)@.index(old(ring)@.tail) < old(ring)@.capacity(),
    ensures
        ({
            let before = old(ring)@;
            let tail = before.tail;
            let closed = route_closed(lifecycle, route);
            let i = before.index(tail);
            match sent {
                Ok(()) => !closed && before.enters(tail, route.owner) && before.confirms(tail)
                    && final(ring)@ == before.entered(tail, route.owner).reserved(tail).staged(
                    i,
                    value,
                ).published(i),
                Err(TrySendError::Disconnected(back)) => closed && back == value && final(ring)@
                    == before,
                Err(TrySendError::Full(back)) => !closed && back == value && final(ring)@ == before
                    && !before.enters(tail, route.owner) && before.lap_later(before.head) == tail,
                Err(TrySendError::Busy(back)) => !closed && back == value && final(ring)@ == before
                    && if before.enters(tail, route.owner) {
                    !before.confirms(tail)
                } else {
                    before.lap_later(before.head) != tail
                },
            }
        }),
{
    match try_reserve(ring, lifecycle, route) {
        Ok(reserved) => {
            proof {
                vstd::arithmetic::div_mod::lemma_mod_bound(
                    old(ring)@.tail as int,
                    old(ring)@.lap as int,
                );
            }
            let staged = reserved.stage(ring, value);
            staged.publish(ring);
            Ok(())
        },
        Err(ReserveError::Closed) => Err(TrySendError::Disconnected(value)),
        Err(ReserveError::Full) => Err(TrySendError::Full(value)),
        Err(ReserveError::Busy) => Err(TrySendError::Busy(value)),
    }
}

/// One attempt to take a turn to receive.
pub fn try_claim<T>(ring: &mut Ring<T>, lifecycle: u8, route: Route) -> (claimed: Result<
    Claim,
    ClaimError,
>)
    requires
        route.wf(),
        old(ring)@.shaped(),
        old(ring)@.index(old(ring)@.head) < old(ring)@.capacity(),
    ensures
        ({
            let before = old(ring)@;
            let head = before.head;
            let i = before.index(head);
            let closed = field_of(lifecycle, route.recv_field) != 0;
            let item = super::control::complete_of(before.slots[i].control);
            let took = !closed && before.is_available(head) && before.consumes(head);
            match claimed {
                Ok(claim) => took && item && claim.index == i && claim.next_turn
                    == before.lap_later(head) && claim.initialized && final(ring)@ == before.taken(
                    head,
                    route.owner,
                ).claimed(head),
                Err(error) => if closed {
                    error == ClaimError::Closed && final(ring)@ == before
                } else if took {
                    !item && error == ClaimError::Busy && final(ring)@ == before.claimed(
                        head,
                    ).recycled(i, before.lap_later(head))
                } else if before.is_available(head) {
                    error == ClaimError::Busy && final(ring)@ == before
                } else if before.tail == head {
                    error == ClaimError::Empty && final(ring)@ == before
                } else {
                    error == ClaimError::Busy && final(ring)@ == before
                },
            }
        }),
{
    let closed: bool = field_state(lifecycle, route.recv_field) != 0;
    ring.claim(closed, route.owner)
}

/// Receives one item, or says why there is none.
pub fn try_recv<T>(ring: &mut Ring<T>, lifecycle: &mut u8, route: Route) -> (received: Result<
    T,
    TryRecvError,
>)
    requires
        route.wf(),
        old(ring)@.ordered(),
    ensures
        ({
            let before = old(ring)@;
            let head = before.head;
            let i = before.index(head);
            let closed = field_of(*old(lifecycle), route.recv_field) != 0;
            let slot = before.slots[i];
            let item = super::control::complete_of(slot.control);
            let took = !closed && before.is_available(head) && before.consumes(head);
            let ended = receiver_done(*old(lifecycle), route, before.slots) || (sender_done(
                *old(lifecycle),
                route,
                before.slots,
            ) && before.head == before.tail);
            match received {
                Ok(value) => took && item && slot.value == Some(value) && final(ring)@
                    == before.taken(head, route.owner).claimed(head).recycled(
                    i,
                    before.lap_later(head),
                ),
                Err(TryRecvError::Disconnected) => final(ring)@ == before && (closed || (
                !before.is_available(head) && before.tail == head && ended)),
                Err(TryRecvError::Empty) => final(ring)@ == before && !closed
                    && !before.is_available(head) && before.tail == head && !ended,
                Err(TryRecvError::Busy) => !closed && if took {
                    !item && final(ring)@ == before.claimed(head).recycled(
                        i,
                        before.lap_later(head),
                    )
                } else {
                    final(ring)@ == before && (before.is_available(head) || before.tail != head)
                },
            }
        }),
        final(ring)@.shaped(),
        *final(lifecycle) == (if field_of(*old(lifecycle), route.recv_field) == 0
            && !old(ring)@.is_available(old(ring)@.head) && old(ring)@.tail == old(ring)@.head {
            ended_byte(*old(lifecycle), route, old(ring)@.slots)
        } else {
            *old(lifecycle)
        }),
{
    let ghost before = ring@;
    let ghost i = before.index(before.head);
    proof {
        vstd::arithmetic::div_mod::lemma_mod_bound(before.head as int, before.lap as int);
        assert(before.slot_ok(i));
    }
    match try_claim(ring, *lifecycle, route) {
        Ok(claim) => {
            proof {
                assert(ring@.slots[i].value == before.slots[i].value);
                assert(before.slots[i].value is Some);
            }
            Ok(claim.take(ring))
        },
        Err(ClaimError::Closed) => Err(TryRecvError::Disconnected),
        Err(ClaimError::Empty) => {
            proof {
                law_looking_does_not_close(*lifecycle, route, before.slots);
            }
            if terminal(lifecycle, route, ring) {
                Err(TryRecvError::Disconnected)
            } else {
                Err(TryRecvError::Empty)
            }
        },
        Err(ClaimError::Busy) => Err(TryRecvError::Busy),
    }
}

/// Looking at the receiver does not change what is found of the sender.
pub proof fn law_looking_does_not_close<T>(
    lifecycle: u8,
    route: Route,
    slots: Seq<super::ring::Slot<T>>,
)
    requires
        route.wf(),
    ensures
        ({
            let receiver = receiver_done(lifecycle, route, slots);
            let next = looked_at(lifecycle, route.recv_field, receiver);
            !receiver ==> sender_done(next, route, slots) == sender_done(lifecycle, route, slots)
        }),
{
}

/// Closing becomes terminal only after everything sent was received: with the
/// receiver open, a direction ends exactly when its sender is done and nothing
/// is between the cursors.
pub proof fn law_close_is_terminal_after_drain<T>(
    lifecycle: u8,
    route: Route,
    ring: super::ring::RingView<T>,
)
    requires
        route.wf(),
        ring.ordered(),
        field_of(lifecycle, route.recv_field) == 0,
    ensures
        ({
            let ended = receiver_done(lifecycle, route, ring.slots) || (sender_done(
                lifecycle,
                route,
                ring.slots,
            ) && ring.head == ring.tail);
            ended ==> ring.contents() == Seq::<super::order::Entry<T>>::empty()
        }),
{
    super::order::law_empty_between_equal_cursors(ring);
}

/// What is sent is received in the order of sending: an item that was accepted
/// stands behind all that receivers found before.
pub proof fn law_sent_items_queue_up<T>(ring: super::ring::RingView<T>, owner: u8, value: T)
    requires
        ring.ordered(),
        owner < PARTICIPANT_CAPACITY,
        ring.enters(ring.tail, owner),
        ring.confirms(ring.tail),
    ensures
        ({
            let i = ring.index(ring.tail);
            let after = ring.entered(ring.tail, owner).reserved(ring.tail).staged(
                i,
                value,
            ).published(i);
            &&& after.ordered()
            &&& after.contents() == ring.contents().push(super::order::Entry::Item(value))
        }),
{
    let tail = ring.tail;
    let i = ring.index(tail);
    vstd::arithmetic::div_mod::lemma_mod_bound(tail as int, ring.lap as int);
    super::order::law_entering_keeps_order(ring, tail, owner);
    let r1 = ring.entered(tail, owner);
    super::control::law_control_round_trips(PRODUCER, false, (owner + 1) as u16, 0);
    super::order::law_reserving_takes_the_next_turn(r1, tail);
    let r2 = r1.reserved(tail);
    super::order::law_staging_keeps_order(r2, i, value);
    let r3 = r2.staged(i, value);
    super::order::law_publishing_fills_its_turn(r3, i);
    assert(r3.published(i).contents() =~= ring.contents().push(super::order::Entry::Item(value)));
}

/// The first item is received, and the rest keeps its order.
pub proof fn law_received_items_come_first<T>(ring: super::ring::RingView<T>, owner: u8)
    requires
        ring.ordered(),
        owner < PARTICIPANT_CAPACITY,
        ring.is_available(ring.head),
        ring.consumes(ring.head),
    ensures
        ({
            let i = ring.index(ring.head);
            let after = ring.taken(ring.head, owner).claimed(ring.head).recycled(
                i,
                ring.lap_later(ring.head),
            );
            let skipped = ring.claimed(ring.head).recycled(i, ring.lap_later(ring.head));
            &&& after.ordered()
            &&& skipped == after
            &&& ring.contents().len() > 0
            &&& after.contents() == ring.contents().drop_first()
            &&& ring.contents()[0] == (if super::control::complete_of(ring.slots[i].control) {
                super::order::Entry::Item(ring.slots[i].value->0)
            } else {
                super::order::Entry::<T>::Skip
            })
        }),
{
    let head = ring.head;
    let i = ring.index(head);
    vstd::arithmetic::div_mod::lemma_mod_bound(head as int, ring.lap as int);
    super::order::law_taking_keeps_order(ring, head, owner);
    let full = super::control::complete_of(ring.slots[i].control);
    super::control::law_control_round_trips(CONSUMER, full, (owner + 1) as u16, 0);
    let r1 = ring.taken(head, owner);
    super::order::law_claiming_takes_the_first_turn(r1, head);
    let r2 = r1.claimed(head);
    super::order::law_recycling_keeps_order(r2, i, ring.lap_later(head));
    let after = r2.recycled(i, ring.lap_later(head));
    assert(after.contents() =~= ring.contents().drop_first());
    assert(after.slots =~= ring.claimed(head).recycled(i, ring.lap_later(head)).slots);
    super::order::law_first_entry(ring);
}

/// Starting to close a side closes it for new turns, but ends it only once nobody
/// holds a turn on that side any more; a side that is open has not ended, and one
/// that has ended stays so whatever becomes of the ring.
pub proof fn law_sides_end_once_they_are_idle<T>(
    lifecycle: u8,
    route: Route,
    slots: Seq<super::ring::Slot<T>>,
    later: Seq<super::ring::Slot<T>>,
)
    requires
        route.wf(),
        route.send_field != route.recv_field,
    ensures
        field_of(lifecycle, route.send_field) == 0 ==> {
            let closing = with_field(lifecycle, route.send_field, closing(0)) as u8;
            &&& !sender_done(lifecycle, route, slots)
            &&& route_closed(closing, route)
            &&& sender_done(closing, route, slots) <==> forall|i: int|
                0 <= i < slots.len() ==> super::control::base_of(#[trigger] slots[i].control)
                    != PRODUCER
            &&& sender_done(looked_at(closing, route.send_field, true), route, later)
            &&& receiver_done(closing, route, slots) == receiver_done(lifecycle, route, slots)
        },
        field_of(lifecycle, route.recv_field) == 0 ==> {
            let closing = with_field(lifecycle, route.recv_field, closing(0)) as u8;
            &&& !receiver_done(lifecycle, route, slots)
            &&& route_closed(closing, route)
            &&& receiver_done(closing, route, slots) <==> forall|i: int|
                0 <= i < slots.len() ==> super::control::base_of(#[trigger] slots[i].control)
                    != CONSUMER
            &&& receiver_done(looked_at(closing, route.recv_field, true), route, later)
            &&& sender_done(closing, route, slots) == sender_done(lifecycle, route, slots)
        },
{
    law_fields_are_independent(lifecycle, route.send_field, route.send_field, closing(0));
    law_fields_are_independent(lifecycle, route.send_field, route.recv_field, closing(0));
    law_fields_are_independent(lifecycle, route.recv_field, route.recv_field, closing(0));
    law_fields_are_independent(lifecycle, route.recv_field, route.send_field, closing(0));
    law_fields_are_independent(
        with_field(lifecycle, route.send_field, closing(0)) as u8,
        route.send_field,
        route.send_field,
        3,
    );
    law_fields_are_independent(
        with_field(lifecycle, route.recv_field, closing(0)) as u8,
        route.recv_field,
        route.recv_field,
        3,
    );
}

/// Closing a side twice is closing it once, and no side opens by closing.
pub proof fn law_closing_is_once_and_for_all(state: int)
    requires
        0 <= state < 4,
    ensures
        0 < closing(state) < 4,
        closing(closing(state)) == closing(state),
        closing(state) == 3 <==> state >= 2,
{
}

/// What is found of an end is remembered: a side that was found ended has ended for
/// everybody from then on, and no other field changes.
pub proof fn law_ends_are_remembered<T>(
    lifecycle: u8,
    route: Route,
    slots: Seq<super::ring::Slot<T>>,
    later: Seq<super::ring::Slot<T>>,
    other: u32,
)
    requires
        route.wf(),
        route.send_field != route.recv_field,
        is_field(other),
        other != route.send_field,
        other != route.recv_field,
    ensures
        ({
            let after = ended_byte(lifecycle, route, slots);
            &&& field_of(after, other) == field_of(lifecycle, other)
            &&& receiver_done(lifecycle, route, slots) ==> receiver_done(after, route, later)
            &&& sender_done(lifecycle, route, slots) && !receiver_done(lifecycle, route, slots)
                ==> sender_done(after, route, later)
            &&& !receiver_done(lifecycle, route, slots) ==> field_of(after, route.recv_field)
                == field_of(lifecycle, route.recv_field)
            &&& !sender_done(lifecycle, route, slots) ==> field_of(after, route.send_field)
                == field_of(lifecycle, route.send_field)
        }),
{
    let receiver = receiver_done(lifecycle, route, slots);
    let next = looked_at(lifecycle, route.recv_field, receiver);
    law_fields_are_independent(lifecycle, route.recv_field, route.recv_field, 3);
    law_fields_are_independent(lifecycle, route.recv_field, route.send_field, 3);
    law_fields_are_independent(lifecycle, route.recv_field, other, 3);
    law_fields_are_independent(next, route.send_field, route.send_field, 3);
    law_fields_are_independent(next, route.send_field, route.recv_field, 3);
    law_fields_are_independent(next, route.send_field, other, 3);
}

} // verus!
