//! One direction of a channel: a ring of slots between two cursors.
//!
//! Every step below is the work of one participant on the shared words. A
//! participant first takes the control word of a slot, then checks that its
//! turn is the cursor that it saw, and then moves the cursor. Between two steps
//! of one participant others may make theirs, so a step takes what its
//! participant saw before as an argument.

use super::control::{
    complete, owned, source, AVAILABLE, COMPLETE, CONSUMER, EMPTY, PRODUCER,
};
use crate::header::PARTICIPANT_CAPACITY;
use crate::numeric::checked_next_power_of_two;
use vstd::prelude::*;

verus! {

/// One shared queue position. Control owns the bytes before a cursor moves.
pub struct Slot<T> {
    pub turn: u64,
    pub control: u16,
    pub value: Option<T>,
}

impl<T> Slot<T> {
    pub fn new(turn: u64) -> (slot: Self)
        ensures
            slot == (Slot::<T> { turn, control: EMPTY, value: None }),
    {
        Slot { turn, control: EMPTY, value: None }
    }
}

/// The two cursors of a ring.
#[derive(Clone, Copy, Debug, PartialEq, Eq, Structural)]
pub struct Header {
    pub head: u64,
    pub tail: u64,
}

impl Header {
    pub fn new() -> (header: Self)
        ensures
            header == (Header { head: 0, tail: 0 }),
    {
        Header { head: 0, tail: 0 }
    }
}

#[derive(Clone, Copy, Debug, PartialEq, Eq, Structural)]
pub enum ReserveError {
    Full,
    Busy,
    Closed,
}

#[derive(Clone, Copy, Debug, PartialEq, Eq, Structural)]
pub enum ClaimError {
    Empty,
    Busy,
    Closed,
}

/// A ring of slots between two cursors.
pub struct Ring<T> {
    pub header: Header,
    pub slots: Vec<Slot<T>>,
    pub one_lap: u64,
}

/// The contents of a ring.
pub ghost struct RingView<T> {
    pub head: u64,
    pub tail: u64,
    pub slots: Seq<Slot<T>>,
    pub lap: u64,
}

impl<T> RingView<T> {
    pub open spec fn capacity(self) -> int {
        self.slots.len() as int
    }

    /// The slot that a position stands for.
    pub open spec fn index(self, position: u64) -> int {
        position as int % self.lap as int
    }

    /// The position behind `position`.
    pub open spec fn next(self, position: u64) -> u64 {
        super::position::next_position(
            self.capacity(),
            self.lap as int,
            position as int,
        ) as u64
    }

    /// The same index one lap later.
    pub open spec fn lap_later(self, position: u64) -> u64 {
        ((position + self.lap) % 0x1_0000_0000_0000_0000) as u64
    }

    /// Capacity and lap belong together.
    pub open spec fn shaped(self) -> bool {
        super::position::laps_ok(self.capacity(), self.lap as int)
    }

    pub open spec fn with_slot(self, i: int, slot: Slot<T>) -> Self {
        RingView { slots: self.slots.update(i, slot), ..self }
    }

    pub open spec fn with_control(self, i: int, control: u16) -> Self {
        self.with_slot(i, Slot { control, ..self.slots[i] })
    }

    /// A producer takes the slot of the position that it saw.
    pub open spec fn enters(self, tail: u64, owner: u8) -> bool {
        self.slots[self.index(tail)].control == EMPTY
    }

    pub open spec fn entered(self, tail: u64, owner: u8) -> Self {
        self.with_control(self.index(tail), super::control::owned_spec(PRODUCER, false, owner))
    }

    /// The producer's position is the slot's turn and the tail.
    pub open spec fn confirms(self, tail: u64) -> bool {
        self.slots[self.index(tail)].turn == tail && self.tail == tail
    }

    /// The ring after the producer moved the tail.
    pub open spec fn reserved(self, tail: u64) -> Self {
        RingView { tail: self.next(tail), ..self }
    }

    /// The ring after a producer let go of a slot before it moved the tail.
    pub open spec fn left(self, tail: u64) -> Self {
        self.with_control(self.index(tail), EMPTY)
    }

    /// A consumer takes the slot of the position that it saw.
    pub open spec fn taken(self, head: u64, owner: u8) -> Self {
        let i = self.index(head);
        self.with_control(
            i,
            super::control::owned_spec(
                CONSUMER,
                super::control::complete_of(self.slots[i].control),
                owner,
            ),
        )
    }

    /// The slot of a position is published, with an item or without.
    pub open spec fn is_available(self, head: u64) -> bool {
        let control = self.slots[self.index(head)].control;
        control == AVAILABLE || control == AVAILABLE + COMPLETE
    }

    pub open spec fn consumes(self, head: u64) -> bool {
        self.slots[self.index(head)].turn == head && self.head == head
    }

    /// The ring after the consumer moved the head.
    pub open spec fn claimed(self, head: u64) -> Self {
        RingView { head: self.next(head), ..self }
    }

    /// The ring after a consumer is done with the slot of a position.
    pub open spec fn recycled(self, i: int, next_turn: u64) -> Self {
        self.with_slot(i, Slot { turn: next_turn, control: EMPTY, value: None })
    }

    pub open spec fn staged(self, i: int, value: T) -> Self {
        self.with_slot(
            i,
            Slot {
                turn: self.slots[i].turn,
                control: super::control::control_of(
                    PRODUCER,
                    true,
                    super::control::source_of(self.slots[i].control),
                    0,
                ),
                value: Some(value),
            },
        )
    }

    pub open spec fn published(self, i: int) -> Self {
        self.with_control(i, (AVAILABLE + COMPLETE) as u16)
    }

    /// The ring after a reservation was given up: its turn stays, without an
    /// item.
    pub open spec fn skipped(self, i: int) -> Self {
        self.with_slot(
            i,
            Slot { turn: self.slots[i].turn, control: AVAILABLE, value: None },
        )
    }

    /// What taking the next turn to send answers, and the ring that it leaves.
    pub open spec fn reserves(
        self,
        closed: bool,
        owner: u8,
        reserved: Result<Reserved, ReserveError>,
        after: Self,
    ) -> bool {
        let tail = self.tail;
        match reserved {
            Ok(reserved) => !closed && self.enters(tail, owner) && self.confirms(tail)
                && reserved.index == self.index(tail) && after == self.entered(
                tail,
                owner,
            ).reserved(tail),
            Err(error) => after == self && if closed {
                error == ReserveError::Closed
            } else if self.enters(tail, owner) {
                !self.confirms(tail) && error == ReserveError::Busy
            } else if self.lap_later(self.head) == tail {
                error == ReserveError::Full
            } else {
                error == ReserveError::Busy
            },
        }
    }

    /// What taking the next turn to receive answers, and the ring that it
    /// leaves.
    pub open spec fn claims(
        self,
        closed: bool,
        owner: u8,
        claimed: Result<Claim, ClaimError>,
        after: Self,
    ) -> bool {
        let head = self.head;
        let i = self.index(head);
        let item = super::control::complete_of(self.slots[i].control);
        let took = !closed && self.is_available(head) && self.consumes(head);
        match claimed {
            Ok(claim) => took && item && claim.index == i && claim.next_turn == self.lap_later(head)
                && claim.initialized && after == self.taken(head, owner).claimed(head),
            Err(error) => if closed {
                error == ClaimError::Closed && after == self
            } else if took {
                !item && error == ClaimError::Busy && after == self.claimed(head).recycled(
                    i,
                    self.lap_later(head),
                )
            } else if self.is_available(head) {
                error == ClaimError::Busy && after == self
            } else if self.tail == head {
                error == ClaimError::Empty && after == self
            } else {
                error == ClaimError::Busy && after == self
            },
        }
    }
}

impl<T> View for Ring<T> {
    type V = RingView<T>;

    open spec fn view(&self) -> RingView<T> {
        RingView {
            head: self.header.head,
            tail: self.header.tail,
            slots: self.slots@,
            lap: self.one_lap,
        }
    }
}

/// A turn that a producer holds; its bytes are not written.
#[must_use]
pub struct Reserved {
    pub index: usize,
}

/// A turn that a producer holds; its bytes are written.
#[must_use]
pub struct Staged {
    pub index: usize,
}

/// A turn that a consumer holds.
#[must_use]
pub struct Claim {
    pub index: usize,
    pub next_turn: u64,
    pub initialized: bool,
}

/// The ring of a capacity before anything was sent: every slot is empty and
/// waits for its first turn.
pub open spec fn fresh<T>(capacity: int, lap: u64) -> RingView<T> {
    RingView {
        head: 0,
        tail: 0,
        slots: Seq::new(
            capacity as nat,
            |i: int| Slot { turn: i as u64, control: EMPTY, value: None },
        ),
        lap,
    }
}

/// The lap of a capacity: the least power of two above it.
pub fn lap_of(capacity: u64) -> (lap: Option<u64>)
    requires
        capacity > 0,
    ensures
        match lap {
            Some(lap) => lap == crate::numeric::power_at_least((capacity + 1) as nat)
                && super::position::laps_ok(capacity as int, lap as int),
            None => crate::numeric::power_at_least((capacity + 1) as nat) > u64::MAX,
        },
{
    if capacity == u64::MAX {
        proof {
            vstd::arithmetic::power2::lemma2_to64_rest();
            crate::numeric::lemma_power_at_least((capacity + 1) as nat);
        }
        return None;
    }
    match checked_next_power_of_two(capacity + 1) {
        Some(lap) => {
            proof {
                crate::numeric::lemma_power_at_least((capacity + 1) as nat);
                vstd::arithmetic::power2::lemma2_to64_rest();
                crate::numeric::lemma_pow2_is_power(64);
                crate::numeric::lemma_pow2_is_power(63);
                crate::extent::lemma_power_divides(lap as int, 0x1_0000_0000_0000_0000);
                if lap > 0x8000_0000_0000_0000 {
                    crate::extent::lemma_power_divides(0x8000_0000_0000_0000, lap as int);
                }
            }
            Some(lap)
        },
        None => None,
    }
}

impl<T> Ring<T> {
    /// A ring of `capacity` empty slots; nothing where no word counts its laps.
    pub fn new(capacity: usize) -> (ring: Option<Self>)
        requires
            capacity > 0,
        ensures
            match ring {
                Some(ring) => ring@ == fresh::<T>(capacity as int, ring.one_lap) && ring.one_lap
                    == crate::numeric::power_at_least((capacity + 1) as nat) && ring@.shaped(),
                None => crate::numeric::power_at_least((capacity + 1) as nat) > u64::MAX,
            },
    {
        let one_lap: u64 = match lap_of(capacity as u64) {
            Some(lap) => lap,
            None => return None,
        };
        let mut slots: Vec<Slot<T>> = Vec::new();
        let mut i: usize = 0;
        while i < capacity
            invariant
                i <= capacity,
                slots@.len() == i,
                forall|j: int|
                    0 <= j < i ==> #[trigger] slots@[j] == (Slot::<T> {
                        turn: j as u64,
                        control: EMPTY,
                        value: None,
                    }),
            decreases capacity - i,
        {
            slots.push(Slot::new(i as u64));
            i = i + 1;
        }
        let ring = Ring { header: Header::new(), slots, one_lap };
        assert(ring@.slots =~= fresh::<T>(capacity as int, one_lap).slots);
        Some(ring)
    }

    pub fn capacity(&self) -> (capacity: usize)
        ensures
            capacity == self@.capacity(),
    {
        self.slots.len()
    }

    pub fn is_empty(&self) -> (empty: bool)
        ensures
            empty == (self@.head == self@.tail),
    {
        self.header.tail == self.header.head
    }

    fn index_of(&self, position: u64) -> (index: usize)
        requires
            self@.shaped(),
            self@.index(position) < self@.capacity(),
        ensures
            index == self@.index(position),
            index < self.slots.len(),
    {
        proof {
            assert(self.slots@.len() == self.slots.len());
        }
        (position % self.one_lap) as usize
    }

    pub(crate) fn next(&self, position: u64) -> (next: u64)
        requires
            self@.shaped(),
            self@.index(position) < self@.capacity(),
        ensures
            next == self@.next(position),
    {
        let index: u64 = position % self.one_lap;
        proof {
            crate::numeric::lemma_align_down(position as int, self.one_lap as int);
            super::position::lemma_next(self@.capacity(), self.one_lap as int, position as int);
            assert(self.slots@.len() == self.slots.len());
        }
        if index + 1 < self.slots.len() as u64 {
            position + 1
        } else {
            (position - index).wrapping_add(self.one_lap)
        }
    }

    /// Takes the slot of the tail that this producer saw.
    pub fn enter_producer(&mut self, tail: u64, owner: u8) -> (entered: Result<(), ReserveError>)
        requires
            old(self)@.shaped(),
            old(self)@.index(tail) < old(self)@.capacity(),
            owner < PARTICIPANT_CAPACITY,
        ensures
            match entered {
                Ok(()) => old(self)@.enters(tail, owner) && final(self)@ == old(self)@.entered(
                    tail,
                    owner,
                ),
                Err(error) => !old(self)@.enters(tail, owner) && *final(self) == *old(self)
                    && error == (if old(self)@.lap_later(old(self)@.head) == tail {
                    ReserveError::Full
                } else {
                    ReserveError::Busy
                }),
            },
    {
        let index: usize = self.index_of(tail);
        if self.slots[index].control != EMPTY {
            return if self.header.head.wrapping_add(self.one_lap) == tail {
                Err(ReserveError::Full)
            } else {
                Err(ReserveError::Busy)
            };
        }
        self.slots[index].control = owned(PRODUCER, false, owner);
        Ok(())
    }

    /// Moves the tail past the slot that this producer took, or lets go of it.
    pub fn confirm_producer(&mut self, tail: u64, closed: bool) -> (confirmed: Result<
        Reserved,
        ReserveError,
    >)
        requires
            old(self)@.shaped(),
            old(self)@.index(tail) < old(self)@.capacity(),
        ensures
            match confirmed {
                Ok(reserved) => old(self)@.confirms(tail) && !closed && reserved.index
                    == old(self)@.index(tail) && final(self)@ == old(self)@.reserved(tail),
                Err(ReserveError::Busy) => !old(self)@.confirms(tail) && final(self)@
                    == old(self)@.left(tail),
                Err(ReserveError::Closed) => old(self)@.confirms(tail) && closed && final(self)@
                    == old(self)@.left(tail),
                Err(ReserveError::Full) => false,
            },
    {
        let index: usize = self.index_of(tail);
        if self.slots[index].turn != tail || self.header.tail != tail {
            self.slots[index].control = EMPTY;
            return Err(ReserveError::Busy);
        }
        if closed {
            self.slots[index].control = EMPTY;
            return Err(ReserveError::Closed);
        }
        self.header.tail = self.next(tail);
        Ok(Reserved { index })
    }

    /// Takes the next turn to send, without anybody between the steps.
    pub fn reserve(&mut self, closed: bool, owner: u8) -> (reserved: Result<Reserved, ReserveError>)
        requires
            old(self)@.shaped(),
            old(self)@.index(old(self)@.tail) < old(self)@.capacity(),
            owner < PARTICIPANT_CAPACITY,
        ensures
            old(self)@.reserves(closed, owner, reserved, final(self)@),
    {
        if closed {
            return Err(ReserveError::Closed);
        }
        let tail: u64 = self.header.tail;
        let ghost ring = self@;
        match self.enter_producer(tail, owner) {
            Ok(()) => {},
            Err(error) => return Err(error),
        }
        match self.confirm_producer(tail, closed) {
            Ok(reserved) => Ok(reserved),
            Err(error) => {
                assert(self@.slots =~= ring.slots);
                Err(error)
            },
        }
    }

    /// Takes the slot of the head that this consumer saw, where it is
    /// published: what its control word was.
    pub fn enter_consumer(&mut self, head: u64, owner: u8) -> (entered: Result<u16, ClaimError>)
        requires
            old(self)@.shaped(),
            old(self)@.index(head) < old(self)@.capacity(),
            owner < PARTICIPANT_CAPACITY,
        ensures
            match entered {
                Ok(available) => old(self)@.is_available(head) && available
                    == old(self)@.slots[old(self)@.index(head)].control && final(self)@
                    == old(self)@.taken(head, owner),
                Err(error) => !old(self)@.is_available(head) && *final(self) == *old(self) && error
                    == (if old(self)@.tail == head {
                    ClaimError::Empty
                } else {
                    ClaimError::Busy
                }),
            },
    {
        let index: usize = self.index_of(head);
        let available: u16 = self.slots[index].control;
        if available != AVAILABLE && available != AVAILABLE + COMPLETE {
            return if self.header.tail == head {
                Err(ClaimError::Empty)
            } else {
                Err(ClaimError::Busy)
            };
        }
        self.slots[index].control = owned(CONSUMER, complete(available), owner);
        Ok(available)
    }

    /// Moves the head past the slot that this consumer took, or puts its
    /// control word back.
    pub fn confirm_consumer(&mut self, head: u64, available: u16) -> (confirmed: Result<
        Claim,
        ClaimError,
    >)
        requires
            old(self)@.shaped(),
            old(self)@.index(head) < old(self)@.capacity(),
        ensures
            match confirmed {
                Ok(claim) => old(self)@.consumes(head) && claim.index == old(self)@.index(head)
                    && claim.next_turn == old(self)@.lap_later(head) && claim.initialized
                    == super::control::complete_of(available) && final(self)@ == old(self)@.claimed(
                    head,
                ),
                Err(error) => !old(self)@.consumes(head) && error == ClaimError::Busy
                    && final(self)@ == old(self)@.with_control(old(self)@.index(head), available),
            },
    {
        let index: usize = self.index_of(head);
        if self.slots[index].turn != head || self.header.head != head {
            self.slots[index].control = available;
            return Err(ClaimError::Busy);
        }
        self.header.head = self.next(head);
        Ok(
            Claim {
                index,
                next_turn: head.wrapping_add(self.one_lap),
                initialized: complete(available),
            },
        )
    }

    /// Takes the next turn to receive, without anybody between the steps. A
    /// turn without an item is passed and reported as contention.
    pub fn claim(&mut self, closed: bool, owner: u8) -> (claimed: Result<Claim, ClaimError>)
        requires
            old(self)@.shaped(),
            old(self)@.index(old(self)@.head) < old(self)@.capacity(),
            owner < PARTICIPANT_CAPACITY,
        ensures
            old(self)@.claims(closed, owner, claimed, final(self)@),
    {
        if closed {
            return Err(ClaimError::Closed);
        }
        let head: u64 = self.header.head;
        let ghost ring = self@;
        let available: u16 = match self.enter_consumer(head, owner) {
            Ok(available) => available,
            Err(error) => return Err(error),
        };
        match self.confirm_consumer(head, available) {
            Ok(claim) => {
                if !claim.initialized {
                    claim.recycle(self);
                    assert(self@.slots =~= ring.claimed(head).recycled(
                        ring.index(head),
                        ring.lap_later(head),
                    ).slots);
                    return Err(ClaimError::Busy);
                }
                Ok(claim)
            },
            Err(error) => {
                assert(self@.slots =~= ring.slots);
                Err(error)
            },
        }
    }
}

impl Reserved {
    /// Writes the item of this turn.
    pub fn stage<T>(self, ring: &mut Ring<T>, value: T) -> (staged: Staged)
        requires
            self.index < old(ring)@.capacity(),
        ensures
            staged.index == self.index,
            final(ring)@ == old(ring)@.staged(self.index as int, value),
    {
        let index: usize = self.index;
        let owner: u16 = source(ring.slots[index].control);
        ring.slots[index].value = Some(value);
        ring.slots[index].control = PRODUCER + COMPLETE + 8 * owner;
        assert(ring@.slots =~= old(ring)@.staged(index as int, value).slots);
        Staged { index }
    }

    /// Gives this turn up: receivers pass it.
    pub fn skip<T>(self, ring: &mut Ring<T>)
        requires
            self.index < old(ring)@.capacity(),
        ensures
            final(ring)@ == old(ring)@.skipped(self.index as int),
    {
        ring.slots[self.index] = Slot {
            turn: ring.slots[self.index].turn,
            control: AVAILABLE,
            value: None,
        };
    }
}

impl Staged {
    /// Hands the item of this turn to receivers.
    pub fn publish<T>(self, ring: &mut Ring<T>)
        requires
            self.index < old(ring)@.capacity(),
        ensures
            final(ring)@ == old(ring)@.published(self.index as int),
    {
        ring.slots[self.index].control = AVAILABLE + COMPLETE;
    }

    /// Takes the item of this turn back and gives the turn up.
    pub fn cancel<T>(self, ring: &mut Ring<T>) -> (value: T)
        requires
            self.index < old(ring)@.capacity(),
            old(ring)@.slots[self.index as int].value is Some,
        ensures
            value == old(ring)@.slots[self.index as int].value->0,
            final(ring)@ == old(ring)@.skipped(self.index as int),
    {
        let index: usize = self.index;
        let mut slot = Slot { turn: ring.slots[index].turn, control: AVAILABLE, value: None };
        core::mem::swap(&mut slot, &mut ring.slots[index]);
        slot.value.unwrap()
    }
}

impl Claim {
    /// The item of this turn.
    pub fn item<'a, T>(&self, ring: &'a Ring<T>) -> (item: Option<&'a T>)
        requires
            self.index < ring@.capacity(),
        ensures
            match item {
                Some(item) => ring@.slots[self.index as int].value == Some(*item),
                None => ring@.slots[self.index as int].value is None,
            },
    {
        ring.slots[self.index].value.as_ref()
    }

    /// Empties the slot and lets it wait for its next turn.
    pub fn recycle<T>(self, ring: &mut Ring<T>)
        requires
            self.index < old(ring)@.capacity(),
        ensures
            final(ring)@ == old(ring)@.recycled(self.index as int, self.next_turn),
    {
        ring.slots[self.index] = Slot { turn: self.next_turn, control: EMPTY, value: None };
    }

    /// Takes the item of this turn out.
    pub fn take<T>(self, ring: &mut Ring<T>) -> (value: T)
        requires
            self.index < old(ring)@.capacity(),
            old(ring)@.slots[self.index as int].value is Some,
        ensures
            value == old(ring)@.slots[self.index as int].value->0,
            final(ring)@ == old(ring)@.recycled(self.index as int, self.next_turn),
    {
        let index: usize = self.index;
        let mut slot = Slot { turn: self.next_turn, control: EMPTY, value: None };
        core::mem::swap(&mut slot, &mut ring.slots[index]);
        slot.value.unwrap()
    }
}

} // verus!
