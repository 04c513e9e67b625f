//! Items come out in the order in which their turns were reserved.

use super::control::{AVAILABLE, EMPTY, PRODUCER};
use super::order::Entry;
use super::ring::{Claim, ClaimError, ReserveError, Reserved, RingView};
use crate::header::PARTICIPANT_CAPACITY;
use vstd::prelude::*;

verus! {

/// A turn that is still held keeps receivers waiting, whatever lies behind it.
pub proof fn law_held_turns_keep_receivers_waiting<T>(
    ring: RingView<T>,
    owner: u8,
    claimed: Result<Claim, ClaimError>,
    after: RingView<T>,
)
    requires
        ring.ordered(),
        ring.contents().len() > 0,
        ring.contents()[0] is Held,
        ring.claims(false, owner, claimed, after),
    ensures
        claimed == Err::<Claim, ClaimError>(ClaimError::Busy),
        after == ring,
{
    super::order::law_first_entry(ring);
    super::order::law_empty_between_equal_cursors(ring);
}

/// Nothing is claimed from a ring that holds nothing.
pub proof fn law_empty_rings_give_nothing<T>(
    ring: RingView<T>,
    owner: u8,
    claimed: Result<Claim, ClaimError>,
    after: RingView<T>,
)
    requires
        ring.ordered(),
        ring.contents().len() == 0,
        ring.claims(false, owner, claimed, after),
    ensures
        claimed == Err::<Claim, ClaimError>(ClaimError::Empty),
        after == ring,
{
    super::order::law_first_entry(ring);
    super::order::law_empty_between_equal_cursors(ring);
    let i = ring.index(ring.head);
    super::order::lemma_offset(ring, i);
    assert(ring.slot_ok(i));
    super::control::law_control_round_trips(AVAILABLE, false, 0, 0);
    super::control::law_control_round_trips(AVAILABLE, true, 0, 0);
}

/// The first item is what a claim gives, and the turns behind it move up.
pub proof fn law_the_first_item_is_claimed<T>(
    ring: RingView<T>,
    owner: u8,
    claimed: Result<Claim, ClaimError>,
    after: RingView<T>,
)
    requires
        ring.ordered(),
        owner < PARTICIPANT_CAPACITY,
        ring.contents().len() > 0,
        ring.contents()[0] is Item,
        ring.claims(false, owner, claimed, after),
    ensures
        claimed matches Ok(claim) && after.slots[claim.index as int].value == Some(
            ring.contents()[0]->Item_0,
        ) && ({
            let rest = after.recycled(claim.index as int, claim.next_turn);
            rest.ordered() && rest.contents() == ring.contents().drop_first()
        }),
{
    super::order::law_first_entry(ring);
    assert(ring.slot_ok(ring.index(ring.head)));
    super::control::law_control_round_trips(AVAILABLE, true, 0, 0);
    super::lifecycle::law_received_items_come_first(ring, owner);
}

/// A ring in which a producer holds the turn of slot `i` with an item written.
spec fn waits<T>(ring: RingView<T>, i: int, value: T) -> bool {
    &&& ring.ordered()
    &&& ring.producing(i)
    &&& ring.slots[i].value == Some(value)
}

/// A reservation whose item is written holds the turn behind all others.
proof fn lemma_stages<T>(
    ring: RingView<T>,
    owner: u8,
    reserved: Reserved,
    after: RingView<T>,
    value: T,
)
    requires
        ring.ordered(),
        owner < PARTICIPANT_CAPACITY,
        ring.reserves(false, owner, Ok::<Reserved, ReserveError>(reserved), after),
    ensures
        ({
            let i = reserved.index as int;
            let staged = after.staged(i, value);
            &&& waits(staged, i, value)
            &&& staged.contents() == ring.contents().push(Entry::Held)
            &&& staged.offset(i) == ring.contents().len()
            &&& staged.head == ring.head
            &&& staged.lap == ring.lap
            &&& staged.capacity() == ring.capacity()
            &&& ring.slots[i].control == EMPTY
            &&& forall|j: int|
                #![trigger staged.slots[j]]
                0 <= j < ring.capacity() && j != i ==> staged.slots[j] == ring.slots[j]
        }),
{
    let tail = ring.tail;
    let i = ring.index(tail);
    vstd::arithmetic::div_mod::lemma_mod_bound(tail as int, ring.lap as int);
    super::order::law_entering_keeps_order(ring, tail, owner);
    let entered = ring.entered(tail, owner);
    super::control::law_control_round_trips(PRODUCER, false, (owner + 1) as u16, 0);
    super::order::law_reserving_takes_the_next_turn(entered, tail);
    super::order::law_staging_keeps_order(after, i, value);
    assert(after.staged(i, value).contents() =~= ring.contents().push(Entry::Held));
}

/// Items are delivered in the order in which their turns were reserved, not in
/// the order in which they were published. Where two items are reserved on an
/// empty ring and the second is published first, receivers are kept waiting
/// until the first is published; they are then given the first item, then the
/// second, and then find the ring empty.
pub proof fn law_delivery_follows_reservation<T>(
    ring: RingView<T>,
    sender: u8,
    first: Reserved,
    one: RingView<T>,
    x: T,
    other: u8,
    second: Reserved,
    two: RingView<T>,
    y: T,
    receiver: u8,
    early: Result<Claim, ClaimError>,
    unchanged: RingView<T>,
    earlier: Result<Claim, ClaimError>,
    after_earlier: RingView<T>,
    later: Result<Claim, ClaimError>,
    after_later: RingView<T>,
    last: Result<Claim, ClaimError>,
    after_last: RingView<T>,
)
    requires
        ring.ordered(),
        ring.contents().len() == 0,
        sender < PARTICIPANT_CAPACITY,
        other < PARTICIPANT_CAPACITY,
        receiver < PARTICIPANT_CAPACITY,
        ring.reserves(false, sender, Ok::<Reserved, ReserveError>(first), one),
        one.staged(first.index as int, x).reserves(
            false,
            other,
            Ok::<Reserved, ReserveError>(second),
            two,
        ),
        ({
            let staged = two.staged(second.index as int, y);
            let reversed = staged.published(second.index as int);
            let both = reversed.published(first.index as int);
            &&& reversed.claims(false, receiver, early, unchanged)
            &&& both.claims(false, receiver, earlier, after_earlier)
            &&& earlier matches Ok(claim) ==> after_earlier.recycled(
                claim.index as int,
                claim.next_turn,
            ).claims(false, receiver, later, after_later)
            &&& later matches Ok(claim) ==> after_later.recycled(
                claim.index as int,
                claim.next_turn,
            ).claims(false, receiver, last, after_last)
        }),
    ensures
        early == Err::<Claim, ClaimError>(ClaimError::Busy),
        unchanged == two.staged(second.index as int, y).published(second.index as int),
        earlier matches Ok(claim) && after_earlier.slots[claim.index as int].value == Some(x),
        later matches Ok(claim) && after_later.slots[claim.index as int].value == Some(y),
        last == Err::<Claim, ClaimError>(ClaimError::Empty),
{
    let i = first.index as int;
    let j = second.index as int;
    lemma_stages(ring, sender, first, one, x);
    let held = one.staged(i, x);
    lemma_stages(held, other, second, two, y);
    let staged = two.staged(j, y);
    super::control::law_control_round_trips(EMPTY, false, 0, 0);
    assert(i != j);
    assert(staged.slots[i] == held.slots[i]);
    super::order::law_publishing_fills_its_turn(staged, j);
    let reversed = staged.published(j);
    assert(reversed.contents() =~= seq![Entry::Held, Entry::Item(y)]);
    law_held_turns_keep_receivers_waiting(reversed, receiver, early, unchanged);
    super::order::law_publishing_fills_its_turn(reversed, i);
    let both = reversed.published(i);
    assert(both.contents() =~= seq![Entry::Item(x), Entry::Item(y)]);
    law_the_first_item_is_claimed(both, receiver, earlier, after_earlier);
    let claim = earlier->Ok_0;
    let rest = after_earlier.recycled(claim.index as int, claim.next_turn);
    assert(rest.contents() =~= seq![Entry::Item(y)]);
    law_the_first_item_is_claimed(rest, receiver, later, after_later);
    let claim = later->Ok_0;
    let none = after_later.recycled(claim.index as int, claim.next_turn);
    law_empty_rings_give_nothing(none, receiver, last, after_last);
}

} // verus!
