//! Sending and receiving of blocks through a channel.

use super::duplex::Duplex;
use super::role::{route, Channel};
use super::ReceiveError;
use crate::header::PARTICIPANT_CAPACITY;
use crate::msg::Repr;
use crate::pool::block::{Block, PoolRef, Transfer};
use crate::pool::storage::{AdoptError as PoolError, Allocation, Storage};
use crate::queue::lifecycle::{
    close_field, field_state, terminal, try_claim, try_reserve, TrySendError,
};
use crate::queue::ring::{Claim, ClaimError, ReserveError, Reserved, RingView, Staged};
use crate::token::{Shape, Token};
use core::marker::PhantomData;
use vstd::prelude::*;

verus! {

/// The sending end of a role.
pub struct Tx<H: Repr> {
    direction: u8,
    owner: u8,
    header: PhantomData<H>,
}

/// The receiving end of a role.
pub struct Rx<H: Repr> {
    direction: u8,
    owner: u8,
    header: PhantomData<H>,
}

/// A turn to send.
#[must_use]
pub struct TransferReserved<H: Repr> {
    reserved: Reserved,
    direction: u8,
    header: PhantomData<H>,
}

/// A turn to send with its block; the block is still the sender's.
#[must_use]
pub struct TransferStaged<H: Repr> {
    staged: Staged,
    direction: u8,
    allocation: Allocation,
    header: PhantomData<H>,
}

/// A block that was received: its turn is held until the block is adopted or
/// discarded.
#[must_use]
pub struct Received<H: Repr> {
    claim: Claim,
    direction: u8,
    header: PhantomData<H>,
}

/// Why a received block is not adopted, and the received block.
pub enum AdoptError<H: Repr> {
    Pool(Received<H>),
    Span(Received<H>),
    Type(Received<H>),
    Owned(Received<H>),
}

impl<H: Repr> Channel<H> {
    /// The two ends of this role: it sends in its own direction and receives in
    /// the other.
    pub fn split(&self) -> (ends: (Tx<H>, Rx<H>))
        requires
            self.wf(),
        ensures
            ends.0.direction_spec() == self.index_spec(),
            ends.0.owner_spec() == self.owner_spec(),
            ends.1.direction_spec() == 1 - self.index_spec(),
            ends.1.owner_spec() == self.owner_spec(),
    {
        (
            Tx { direction: self.index(), owner: self.owner(), header: PhantomData },
            Rx { direction: 1 - self.index(), owner: self.owner(), header: PhantomData },
        )
    }
}

/// The channel with another ring in one direction.
pub open spec fn with_ring<H: Repr>(
    before: Duplex<H>,
    after: Duplex<H>,
    direction: int,
    ring: RingView<Token<H>>,
) -> bool {
    &&& after.ring(direction) == ring
    &&& after.ring(1 - direction) == before.ring(1 - direction)
    &&& after.first_role == before.first_role
    &&& after.second_role == before.second_role
}

impl<H: Repr> Clone for Tx<H> {
    fn clone(&self) -> (copy: Self)
        ensures
            copy == *self,
    {
        Tx { direction: self.direction, owner: self.owner, header: PhantomData }
    }
}

impl<H: Repr> Clone for Rx<H> {
    fn clone(&self) -> (copy: Self)
        ensures
            copy == *self,
    {
        Rx { direction: self.direction, owner: self.owner, header: PhantomData }
    }
}

/// What sending a block does: its token is published in the ring and the sender
/// lets it go, or it goes back with the reason.
pub open spec fn sends<H: Repr>(
    tx: Tx<H>,
    before: Duplex<H>,
    after: Duplex<H>,
    storage: crate::pool::storage::StorageView,
    storage_after: crate::pool::storage::StorageView,
    value: Transfer<H>,
    sent: Result<(), TrySendError<Transfer<H>>>,
) -> bool {
    &&& after.lifecycle == before.lifecycle
    &&& match tx.refused(before) {
        Some(error) => {
            &&& sent == Err::<(), TrySendError<Transfer<H>>>(
                match error {
                    ReserveError::Closed => TrySendError::Disconnected(value),
                    ReserveError::Full => TrySendError::Full(value),
                    ReserveError::Busy => TrySendError::Busy(value),
                },
            )
            &&& with_ring(
                before,
                after,
                tx.direction_spec(),
                before.ring(tx.direction_spec()),
            )
            &&& storage_after == storage
        },
        None => {
            let ring = before.ring(tx.direction_spec());
            let i = ring.index(ring.tail);
            &&& sent is Ok
            &&& with_ring(
                before,
                after,
                tx.direction_spec(),
                tx.turn_taken(ring).staged(i, value.token_spec()).published(i),
            )
            &&& storage_after == let_go(storage, value.allocation_spec())
        },
    }
}

impl<H: Repr> Tx<H> {
    pub closed spec fn direction_spec(self) -> int {
        self.direction as int
    }

    pub closed spec fn owner_spec(self) -> u8 {
        self.owner
    }

    pub open spec fn wf(self) -> bool {
        0 <= self.direction_spec() < 2 && self.owner_spec() < PARTICIPANT_CAPACITY
    }

    pub open spec fn route(self) -> crate::queue::lifecycle::Route {
        super::role::route_spec(self.direction_spec(), self.owner_spec())
    }

    /// Why no turn to send is had now.
    pub open spec fn refused(self, duplex: Duplex<H>) -> Option<ReserveError> {
        let ring = duplex.ring(self.direction_spec());
        let owner = self.owner_spec();
        if crate::queue::lifecycle::route_closed(duplex.lifecycle, self.route()) {
            Some(ReserveError::Closed)
        } else if ring.enters(ring.tail, owner) {
            if ring.confirms(ring.tail) {
                None
            } else {
                Some(ReserveError::Busy)
            }
        } else if ring.lap_later(ring.head) == ring.tail {
            Some(ReserveError::Full)
        } else {
            Some(ReserveError::Busy)
        }
    }

    /// The ring once a turn to send was taken.
    pub open spec fn turn_taken(self, ring: RingView<Token<H>>) -> RingView<Token<H>> {
        ring.entered(ring.tail, self.owner_spec()).reserved(ring.tail)
    }

    /// Takes a turn to send.
    pub fn reserve(&self, duplex: &mut Duplex<H>) -> (reserved: Result<
        TransferReserved<H>,
        ReserveError,
    >)
        requires
            self.wf(),
            old(duplex).ring(self.direction_spec()).ordered(),
        ensures
            final(duplex).lifecycle == old(duplex).lifecycle,
            match self.refused(*old(duplex)) {
                Some(error) => reserved == Err::<TransferReserved<H>, ReserveError>(error)
                    && with_ring(
                    *old(duplex),
                    *final(duplex),
                    self.direction_spec(),
                    old(duplex).ring(self.direction_spec()),
                ),
                None => {
                    let ring = old(duplex).ring(self.direction_spec());
                    &&& reserved matches Ok(turn)
                    &&& turn.direction_spec() == self.direction_spec()
                    &&& turn.index_spec() == ring.index(ring.tail)
                    &&& turn.index_spec() < ring.capacity()
                    &&& with_ring(
                        *old(duplex),
                        *final(duplex),
                        self.direction_spec(),
                        self.turn_taken(ring),
                    )
                },
            },
    {
        let lifecycle: u8 = duplex.lifecycle;
        let route = route(self.direction, self.owner);
        proof {
            let ring = duplex.ring(self.direction_spec());
            vstd::arithmetic::div_mod::lemma_mod_bound(ring.tail as int, ring.lap as int);
        }
        let reserved = if self.direction == 0 {
            try_reserve(&mut duplex.left, lifecycle, route)
        } else {
            try_reserve(&mut duplex.right, lifecycle, route)
        };
        match reserved {
            Ok(reserved) => Ok(
                TransferReserved { reserved, direction: self.direction, header: PhantomData },
            ),
            Err(error) => Err(error),
        }
    }

    /// Sends a block, or hands it back with the reason.
    #[verifier::spinoff_prover]
    pub fn try_send(
        &self,
        duplex: &mut Duplex<H>,
        storage: &mut Storage,
        value: Transfer<H>,
    ) -> (sent: Result<(), TrySendError<Transfer<H>>>)
        requires
            self.wf(),
            old(duplex).ring(self.direction_spec()).ordered(),
            old(storage)@.wf(),
            value.allocation_spec().wf(old(storage)@),
            value.allocation_spec().live_spec() ==> value.allocation_spec().holds(old(storage)@),
        ensures
            final(storage)@.wf(),
            sends(
                *self,
                *old(duplex),
                *final(duplex),
                old(storage)@,
                final(storage)@,
                value,
                sent,
            ),
    {
        match self.reserve(duplex) {
            Ok(reserved) => {
                let staged = reserved.stage(duplex, value);
                staged.publish(duplex, storage);
                Ok(())
            },
            Err(ReserveError::Closed) => Err(TrySendError::Disconnected(value)),
            Err(ReserveError::Full) => Err(TrySendError::Full(value)),
            Err(ReserveError::Busy) => Err(TrySendError::Busy(value)),
        }
    }

    /// What closing this end does.
    pub open spec fn closes(self, before: Duplex<H>, after: Duplex<H>) -> bool {
        &&& after.lifecycle == closing_byte(before.lifecycle, self.route().send_field)
        &&& with_ring(before, after, self.direction_spec(), before.ring(self.direction_spec()))
    }

    /// Starts to close this end.
    pub fn close(&self, duplex: &mut Duplex<H>)
        requires
            self.wf(),
        ensures
            self.closes(*old(duplex), *final(duplex)),
            final(duplex).lifecycle == closing_byte(
                old(duplex).lifecycle,
                self.route().send_field,
            ),
            with_ring(
                *old(duplex),
                *final(duplex),
                self.direction_spec(),
                old(duplex).ring(self.direction_spec()),
            ),
    {
        let route = route(self.direction, self.owner);
        close_field(&mut duplex.lifecycle, route.send_field);
    }

    pub fn is_close(&self, duplex: &Duplex<H>) -> (closed: bool)
        requires
            self.wf(),
        ensures
            closed == (crate::queue::lifecycle::field_of(
                duplex.lifecycle,
                self.route().send_field,
            ) != 0),
    {
        field_state(duplex.lifecycle, route(self.direction, self.owner).send_field) != 0
    }

    pub fn capacity(&self, duplex: &Duplex<H>) -> (capacity: usize)
        requires
            self.wf(),
        ensures
            capacity == duplex.ring(self.direction_spec()).capacity(),
    {
        if self.direction == 0 {
            duplex.left.capacity()
        } else {
            duplex.right.capacity()
        }
    }
}

/// The byte once a side began to close.
pub open spec fn closing_byte(lifecycle: u8, field: u32) -> u8 {
    crate::queue::lifecycle::with_field(
        lifecycle,
        field,
        crate::queue::lifecycle::closing(crate::queue::lifecycle::field_of(lifecycle, field)),
    ) as u8
}

/// The pool once a block is nobody's but its token's.
pub open spec fn let_go(
    storage: crate::pool::storage::StorageView,
    allocation: Allocation,
) -> crate::pool::storage::StorageView {
    if allocation.live_spec() {
        crate::pool::laws::sent(storage, allocation)
    } else {
        storage
    }
}

/// What writing a block's token into a turn does.
pub open spec fn stages<H: Repr>(
    reserved: TransferReserved<H>,
    before: Duplex<H>,
    after: Duplex<H>,
    value: Transfer<H>,
    staged: TransferStaged<H>,
) -> bool {
    let direction = reserved.direction_spec();
    &&& staged.direction_spec() == direction
    &&& staged.index_spec() == reserved.index_spec()
    &&& staged.allocation_spec() == value.allocation_spec()
    &&& after.lifecycle == before.lifecycle
    &&& with_ring(
        before,
        after,
        direction,
        before.ring(direction).staged(reserved.index_spec(), value.token_spec()),
    )
}

/// What taking a block back before its turn is published does.
pub open spec fn cancels<H: Repr>(
    staged: TransferStaged<H>,
    before: Duplex<H>,
    after: Duplex<H>,
    value: Transfer<H>,
) -> bool {
    let direction = staged.direction_spec();
    &&& value.allocation_spec() == staged.allocation_spec()
    &&& value.token_spec() == before.ring(direction).slots[staged.index_spec()].value->0
    &&& after.lifecycle == before.lifecycle
    &&& with_ring(
        before,
        after,
        direction,
        before.ring(direction).skipped(staged.index_spec()),
    )
}

impl<H: Repr> TransferReserved<H> {
    pub closed spec fn direction_spec(self) -> int {
        self.direction as int
    }

    pub closed spec fn index_spec(self) -> int {
        self.reserved.index as int
    }

    /// Writes the block's token into this turn.
    pub fn stage(self, duplex: &mut Duplex<H>, value: Transfer<H>) -> (staged: TransferStaged<H>)
        requires
            0 <= self.direction_spec() < 2,
            self.index_spec() < old(duplex).ring(self.direction_spec()).capacity(),
        ensures
            stages(self, *old(duplex), *final(duplex), value, staged),
    {
        let (allocation, token) = value.into_parts();
        let staged = if self.direction == 0 {
            self.reserved.stage(&mut duplex.left, token)
        } else {
            self.reserved.stage(&mut duplex.right, token)
        };
        TransferStaged { staged, direction: self.direction, allocation, header: PhantomData }
    }

    /// Gives this turn up: receivers pass it.
    pub fn skip(self, duplex: &mut Duplex<H>)
        requires
            0 <= self.direction_spec() < 2,
            self.index_spec() < old(duplex).ring(self.direction_spec()).capacity(),
        ensures
            final(duplex).lifecycle == old(duplex).lifecycle,
            with_ring(
                *old(duplex),
                *final(duplex),
                self.direction_spec(),
                old(duplex).ring(self.direction_spec()).skipped(self.index_spec()),
            ),
    {
        if self.direction == 0 {
            self.reserved.skip(&mut duplex.left);
        } else {
            self.reserved.skip(&mut duplex.right);
        }
    }
}

impl<H: Repr> TransferStaged<H> {
    pub closed spec fn direction_spec(self) -> int {
        self.direction as int
    }

    pub closed spec fn index_spec(self) -> int {
        self.staged.index as int
    }

    pub closed spec fn allocation_spec(self) -> Allocation {
        self.allocation
    }

    /// Lets go of the block and hands its token to the receiver.
    pub fn publish(self, duplex: &mut Duplex<H>, storage: &mut Storage)
        requires
            0 <= self.direction_spec() < 2,
            self.index_spec() < old(duplex).ring(self.direction_spec()).capacity(),
            old(storage)@.wf(),
            self.allocation_spec().wf(old(storage)@),
            self.allocation_spec().live_spec() ==> self.allocation_spec().holds(old(storage)@),
        ensures
            final(storage)@.wf(),
            final(storage)@ == let_go(old(storage)@, self.allocation_spec()),
            final(duplex).lifecycle == old(duplex).lifecycle,
            with_ring(
                *old(duplex),
                *final(duplex),
                self.direction_spec(),
                old(duplex).ring(self.direction_spec()).published(self.index_spec()),
            ),
    {
        let mut allocation = self.allocation;
        let detached = allocation.detach(storage);
        assert(detached is Ok);
        if self.direction == 0 {
            self.staged.publish(&mut duplex.left);
        } else {
            self.staged.publish(&mut duplex.right);
        }
    }

    /// Takes the block back and gives the turn up.
    pub fn cancel(self, duplex: &mut Duplex<H>) -> (value: Transfer<H>)
        requires
            0 <= self.direction_spec() < 2,
            self.index_spec() < old(duplex).ring(self.direction_spec()).capacity(),
            old(duplex).ring(self.direction_spec()).slots[self.index_spec()].value is Some,
        ensures
            cancels(self, *old(duplex), *final(duplex), value),
    {
        let token = if self.direction == 0 {
            self.staged.cancel(&mut duplex.left)
        } else {
            self.staged.cancel(&mut duplex.right)
        };
        Transfer::from_parts(self.allocation, token)
    }
}

/// What receiving does: the first turn is taken where it is published. One that
/// holds a block is held until the block is adopted or discarded; one that holds
/// none is passed.
pub open spec fn claims<H: Repr>(
    rx: Rx<H>,
    before: Duplex<H>,
    after: Duplex<H>,
    claimed: Result<Received<H>, ReceiveError>,
) -> bool {
    let ring = before.ring(rx.direction_spec());
    let head = ring.head;
    let i = ring.index(head);
    let closed = rx.is_closed(before);
    let took = !closed && ring.is_available(head) && ring.consumes(head);
    let item = crate::queue::control::complete_of(ring.slots[i].control);
    let drained = !closed && !ring.is_available(head) && ring.tail == head;
    &&& after.lifecycle == (if drained {
        crate::queue::lifecycle::ended_byte(before.lifecycle, rx.route(), ring.slots)
    } else {
        before.lifecycle
    })
    &&& with_ring(
        before,
        after,
        rx.direction_spec(),
        if took {
            if item {
                ring.taken(head, rx.owner_spec()).claimed(head)
            } else {
                ring.claimed(head).recycled(i, ring.lap_later(head))
            }
        } else {
            ring
        },
    )
    &&& match claimed {
        Ok(received) => {
            &&& took && item
            &&& received.direction_spec() == rx.direction_spec()
            &&& received.index_spec() == i
            &&& i < ring.capacity()
            &&& received.next_turn_spec() == ring.lap_later(head)
            &&& ring.slots[i].value is Some
        },
        Err(error) => !(took && item) && error == (if closed || (drained && rx.has_ended(before)) {
            ReceiveError::Closed
        } else if drained {
            ReceiveError::Empty
        } else {
            ReceiveError::Busy
        }),
    }
}

impl<H: Repr> Rx<H> {
    pub closed spec fn direction_spec(self) -> int {
        self.direction as int
    }

    pub closed spec fn owner_spec(self) -> u8 {
        self.owner
    }

    pub open spec fn wf(self) -> bool {
        0 <= self.direction_spec() < 2 && self.owner_spec() < PARTICIPANT_CAPACITY
    }

    pub open spec fn route(self) -> crate::queue::lifecycle::Route {
        super::role::route_spec(self.direction_spec(), self.owner_spec())
    }

    /// This direction takes no more turns to receive.
    pub open spec fn is_closed(self, duplex: Duplex<H>) -> bool {
        crate::queue::lifecycle::field_of(duplex.lifecycle, self.route().recv_field) != 0
    }

    /// Nothing more will ever come in this direction.
    pub open spec fn has_ended(self, duplex: Duplex<H>) -> bool {
        let ring = duplex.ring(self.direction_spec());
        crate::queue::lifecycle::receiver_done(duplex.lifecycle, self.route(), ring.slots) || (
        crate::queue::lifecycle::sender_done(duplex.lifecycle, self.route(), ring.slots)
            && ring.head == ring.tail)
    }

    /// Receives the next block; a turn without one is passed and reported as
    /// contention.
    #[verifier::spinoff_prover]
    pub fn claim(&self, duplex: &mut Duplex<H>) -> (claimed: Result<Received<H>, ReceiveError>)
        requires
            self.wf(),
            old(duplex).ring(self.direction_spec()).ordered(),
        ensures
            claims(*self, *old(duplex), *final(duplex), claimed),
    {
        let lifecycle: u8 = duplex.lifecycle;
        let route = route(self.direction, self.owner);
        let ghost ring = duplex.ring(self.direction_spec());
        proof {
            vstd::arithmetic::div_mod::lemma_mod_bound(ring.head as int, ring.lap as int);
            assert(ring.slot_ok(ring.index(ring.head)));
            crate::queue::lifecycle::law_looking_does_not_close(lifecycle, route, ring.slots);
        }
        let claimed = if self.direction == 0 {
            try_claim(&mut duplex.left, lifecycle, route)
        } else {
            try_claim(&mut duplex.right, lifecycle, route)
        };
        match claimed {
            Ok(claim) => Ok(Received { claim, direction: self.direction, header: PhantomData }),
            Err(ClaimError::Empty) => {
                let ended = if self.direction == 0 {
                    terminal(&mut duplex.lifecycle, route, &duplex.left)
                } else {
                    terminal(&mut duplex.lifecycle, route, &duplex.right)
                };
                if ended {
                    Err(ReceiveError::Closed)
                } else {
                    Err(ReceiveError::Empty)
                }
            },
            Err(ClaimError::Busy) => Err(ReceiveError::Busy),
            Err(ClaimError::Closed) => Err(ReceiveError::Closed),
        }
    }

    /// What closing this end does.
    pub open spec fn closes(self, before: Duplex<H>, after: Duplex<H>) -> bool {
        &&& after.lifecycle == closing_byte(before.lifecycle, self.route().recv_field)
        &&& with_ring(before, after, self.direction_spec(), before.ring(self.direction_spec()))
    }

    /// Starts to close this end.
    pub fn close(&self, duplex: &mut Duplex<H>)
        requires
            self.wf(),
        ensures
            self.closes(*old(duplex), *final(duplex)),
            final(duplex).lifecycle == closing_byte(
                old(duplex).lifecycle,
                self.route().recv_field,
            ),
            with_ring(
                *old(duplex),
                *final(duplex),
                self.direction_spec(),
                old(duplex).ring(self.direction_spec()),
            ),
    {
        let route = route(self.direction, self.owner);
        close_field(&mut duplex.lifecycle, route.recv_field);
    }

    pub fn is_close(&self, duplex: &Duplex<H>) -> (closed: bool)
        requires
            self.wf(),
        ensures
            closed == self.is_closed(*duplex),
    {
        field_state(duplex.lifecycle, route(self.direction, self.owner).recv_field) != 0
    }

    pub fn capacity(&self, duplex: &Duplex<H>) -> (capacity: usize)
        requires
            self.wf(),
        ensures
            capacity == duplex.ring(self.direction_spec()).capacity(),
    {
        if self.direction == 0 {
            duplex.left.capacity()
        } else {
            duplex.right.capacity()
        }
    }
}

impl<H: Repr> AdoptError<H> {
    pub open spec fn received(self) -> Received<H> {
        match self {
            AdoptError::Pool(received) => received,
            AdoptError::Span(received) => received,
            AdoptError::Type(received) => received,
            AdoptError::Owned(received) => received,
        }
    }

    /// The received block, to be tried again or elsewhere.
    pub fn into_received(self) -> (received: Received<H>)
        ensures
            received == self.received(),
    {
        match self {
            AdoptError::Pool(received) => received,
            AdoptError::Span(received) => received,
            AdoptError::Type(received) => received,
            AdoptError::Owned(received) => received,
        }
    }

    pub open spec fn of(error: PoolError, received: Received<H>) -> Self {
        match error {
            PoolError::Pool => AdoptError::Pool(received),
            PoolError::Span => AdoptError::Span(received),
            PoolError::Type => AdoptError::Type(received),
            PoolError::Owned => AdoptError::Owned(received),
        }
    }

    fn from_pool(error: PoolError, received: Received<H>) -> (reported: Self)
        ensures
            reported == Self::of(error, received),
    {
        match error {
            PoolError::Pool => AdoptError::Pool(received),
            PoolError::Span => AdoptError::Span(received),
            PoolError::Type => AdoptError::Type(received),
            PoolError::Owned => AdoptError::Owned(received),
        }
    }
}

/// What adopting a received block does: it is the receiver's and its turn is over,
/// or the received block goes back with the reason.
pub open spec fn adopts<H: Repr, T: Repr + Shape + ?Sized>(
    received: Received<H>,
    before: Duplex<H>,
    after: Duplex<H>,
    storage: crate::pool::storage::StorageView,
    storage_after: crate::pool::storage::StorageView,
    pool: PoolRef,
    adopted: Result<(H, Block<T>), AdoptError<H>>,
) -> bool {
    let token = received.token(before);
    match crate::pool::block::adopt_refused::<H, T>(
        storage,
        pool.id,
        token.token(),
    ) {
        Some(error) => {
            &&& adopted == Err::<(H, Block<T>), AdoptError<H>>(
                AdoptError::of(error, received),
            )
            &&& after == before
            &&& storage_after == storage
        },
        None => {
            &&& adopted matches Ok((header, block))
            &&& header == token.header()
            &&& crate::pool::storage::takes_over(
                storage,
                pool.id,
                pool.owner,
                token.token(),
                block.allocation_spec(),
            )
            &&& token.token().metadata_spec() == Some(block.shape())
            &&& storage_after == block.allocation_spec().taken(storage)
            &&& received.finished(before, after)
        },
    }
}

/// What discarding a received block does: the block is freed and its turn is
/// over, or the received block goes back with the reason.
pub open spec fn discards<H: Repr>(
    received: Received<H>,
    before: Duplex<H>,
    after: Duplex<H>,
    storage: crate::pool::storage::StorageView,
    storage_after: crate::pool::storage::StorageView,
    pool: PoolRef,
    discarded: Result<H, AdoptError<H>>,
) -> bool {
    let token = received.token(before);
    match crate::pool::storage::takeover_refused(
        storage,
        pool.id,
        token.token(),
    ) {
        Some(error) => {
            &&& discarded == Err::<H, AdoptError<H>>(AdoptError::of(error, received))
            &&& after == before
            &&& storage_after == storage
        },
        None => {
            &&& discarded == Ok::<H, AdoptError<H>>(token.header())
            &&& received.finished(before, after)
            &&& exists|taken: Allocation|
                #[trigger] crate::pool::storage::takes_over(
                    storage,
                    pool.id,
                    pool.owner,
                    token.token(),
                    taken,
                ) && storage_after == taken.released(taken.taken(storage))
        },
    }
}

impl<H: Repr> Received<H> {
    pub closed spec fn direction_spec(self) -> int {
        self.direction as int
    }

    pub closed spec fn index_spec(self) -> int {
        self.claim.index as int
    }

    pub closed spec fn next_turn_spec(self) -> u64 {
        self.claim.next_turn
    }

    /// The token that was received.
    pub open spec fn token(self, duplex: Duplex<H>) -> Token<H> {
        duplex.ring(self.direction_spec()).slots[self.index_spec()].value->0
    }

    pub open spec fn wf(self, duplex: Duplex<H>) -> bool {
        &&& 0 <= self.direction_spec() < 2
        &&& self.index_spec() < duplex.ring(self.direction_spec()).capacity()
        &&& duplex.ring(self.direction_spec()).slots[self.index_spec()].value is Some
    }

    /// The channel once this turn is over.
    pub open spec fn finished(self, before: Duplex<H>, after: Duplex<H>) -> bool {
        &&& after.lifecycle == before.lifecycle
        &&& with_ring(
            before,
            after,
            self.direction_spec(),
            before.ring(self.direction_spec()).recycled(self.index_spec(), self.next_turn_spec()),
        )
    }

    fn take(self, duplex: &mut Duplex<H>) -> (token: Token<H>)
        requires
            self.wf(*old(duplex)),
        ensures
            token == self.token(*old(duplex)),
            self.finished(*old(duplex), *final(duplex)),
    {
        if self.direction == 0 {
            self.claim.take(&mut duplex.left)
        } else {
            self.claim.take(&mut duplex.right)
        }
    }

    fn peek<'a>(&self, duplex: &'a Duplex<H>) -> (token: &'a Token<H>)
        requires
            self.wf(*duplex),
        ensures
            *token == self.token(*duplex),
    {
        if self.direction == 0 {
            self.claim.item(&duplex.left).unwrap()
        } else {
            self.claim.item(&duplex.right).unwrap()
        }
    }

    /// Takes the received block over as a block of `T`; hands the received block
    /// back where that cannot be.
    #[verifier::spinoff_prover]
    pub fn adopt<T: Repr + Shape + ?Sized>(
        self,
        duplex: &mut Duplex<H>,
        storage: &mut Storage,
        pool: PoolRef,
    ) -> (adopted: Result<(H, Block<T>), AdoptError<H>>)
        requires
            self.wf(*old(duplex)),
            old(storage)@.wf(),
            pool.wf(),
        ensures
            final(storage)@.wf(),
            adopts::<H, T>(
                self,
                *old(duplex),
                *final(duplex),
                old(storage)@,
                final(storage)@,
                pool,
                adopted,
            ),
    {
        let block = match pool.adopt::<H, T>(storage, self.peek(duplex)) {
            Ok(block) => block,
            Err(error) => return Err(AdoptError::from_pool(error, self)),
        };
        let token = self.take(duplex);
        Ok((token.into_header(), block))
    }

    /// Gives the received block back to its pool.
    #[verifier::spinoff_prover]
    pub fn discard(self, duplex: &mut Duplex<H>, storage: &mut Storage, pool: PoolRef) -> (discarded:
        Result<H, AdoptError<H>>)
        requires
            self.wf(*old(duplex)),
            old(storage)@.wf(),
            pool.wf(),
        ensures
            final(storage)@.wf(),
            discards(
                self,
                *old(duplex),
                *final(duplex),
                old(storage)@,
                final(storage)@,
                pool,
                discarded,
            ),
    {
        let allocation = match storage.takeover(pool.id, pool.owner, self.peek(duplex).get_token()) {
            Ok(allocation) => allocation,
            Err(error) => return Err(AdoptError::from_pool(error, self)),
        };
        let token = self.take(duplex);
        allocation.release(storage);
        Ok(token.into_header())
    }
}

} // verus!
