//! Advisory notification: shared state commits first, and the other side is told
//! afterwards. A notification that fails takes nothing back.

use crate::channel::duplex::Duplex;
use crate::channel::transfer::{AdoptError, Received, Rx, TransferReserved, Tx};
use crate::channel::ReceiveError;
use crate::msg::Repr;
use crate::pool::block::{Block, PoolRef, Transfer};
use crate::pool::storage::Storage;
use crate::queue::lifecycle::TrySendError;
use crate::queue::ring::ReserveError;
use crate::token::Shape;
use vstd::prelude::*;

verus! {

/// Attempts in a row that find the ring busy before one gives up.
pub const LOCAL_RETRY_LIMIT: u32 = 32;

/// Sends an advisory notification after shared state has committed.
pub trait Notify {
    type Error;

    fn notify(&self) -> Result<(), Self::Error>;
}

/// A committed shared operation and the health of its advisory notification.
#[derive(Debug, PartialEq, Eq)]
pub struct Committed<T, E> {
    pub value: T,
    pub notified: Result<(), E>,
}

/// An operation that waited and did not commit.
#[derive(Clone, Copy, Debug, PartialEq, Eq)]
pub enum ProgressError<E> {
    Busy,
    Closed,
    Wait(E),
}

/// One participant's means to tell the other side, and to be told.
pub struct Signals<'a, N, W> {
    notify: &'a N,
    wait: &'a W,
}

/// The other side was told, and this is what came of it.
pub open spec fn told<N: Notify>(notify: N, notified: Result<(), N::Error>) -> bool {
    call_ensures(N::notify, (&notify,), notified)
}

fn committed<N: Notify, T>(notify: &N, value: T) -> (done: Committed<T, N::Error>)
    ensures
        done.value == value,
        told(*notify, done.notified),
{
    Committed { value, notified: notify.notify() }
}

/// A turn to send, and the means to tell the other side.
#[must_use]
pub struct Permit<'n, H: Repr, N> {
    reserved: TransferReserved<H>,
    notify: &'n N,
}

/// What came of one attempt.
#[derive(Clone, Copy, Debug, PartialEq, Eq, Structural)]
pub enum Attempt {
    /// It committed.
    Done,
    /// The other side has to make progress first.
    Blocked,
    /// An attempt made at once may succeed.
    Busy,
    /// The direction is closed.
    Closed,
}

/// What to do after an attempt.
#[derive(Clone, Copy, Debug, PartialEq, Eq, Structural)]
pub enum Advice {
    Finish,
    /// Wait for the other side, then attempt again.
    Wait,
    /// Attempt again at once.
    Spin,
    /// Give up: the ring stayed busy.
    GiveUp,
    /// Give up: the direction is closed.
    Stop,
}

/// How often in a row the ring was busy.
#[derive(Clone, Copy, Debug, PartialEq, Eq)]
pub struct Patience {
    retries: u32,
}

/// The advice after an attempt, and the count after it.
pub open spec fn advice(retries: u32, attempt: Attempt) -> (Advice, u32) {
    match attempt {
        Attempt::Done => (Advice::Finish, retries),
        Attempt::Closed => (Advice::Stop, retries),
        Attempt::Blocked => (Advice::Wait, 0),
        Attempt::Busy => if retries == LOCAL_RETRY_LIMIT - 1 {
            (Advice::GiveUp, retries)
        } else {
            (Advice::Spin, (retries + 1) as u32)
        },
    }
}

impl Patience {
    pub closed spec fn retries_spec(self) -> u32 {
        self.retries
    }

    pub open spec fn wf(self) -> bool {
        self.retries_spec() < LOCAL_RETRY_LIMIT
    }

    pub fn new() -> (patience: Self)
        ensures
            patience.wf(),
            patience.retries_spec() == 0,
    {
        Patience { retries: 0 }
    }

    /// What to do after an attempt: one that finds the ring busy is repeated at
    /// once, up to a limit; one that is blocked waits, and counts anew.
    pub fn advise(&mut self, attempt: Attempt) -> (advised: Advice)
        requires
            old(self).wf(),
        ensures
            final(self).wf(),
            (advised, final(self).retries_spec()) == advice(old(self).retries_spec(), attempt),
    {
        match attempt {
            Attempt::Done => Advice::Finish,
            Attempt::Closed => Advice::Stop,
            Attempt::Blocked => {
                self.retries = 0;
                Advice::Wait
            },
            Attempt::Busy => {
                if self.retries == LOCAL_RETRY_LIMIT - 1 {
                    Advice::GiveUp
                } else {
                    self.retries = self.retries + 1;
                    Advice::Spin
                }
            },
        }
    }
}

/// The count after `n` attempts in a row that found the ring busy.
pub open spec fn busy_run(n: nat) -> u32
    decreases n,
{
    if n == 0 {
        0
    } else {
        advice(busy_run((n - 1) as nat), Attempt::Busy).1
    }
}

/// A ring that stays busy is attempted exactly as often as the limit says: every
/// attempt but the last is repeated at once, and the last gives up.
pub proof fn law_patience_is_bounded(n: nat)
    requires
        n < LOCAL_RETRY_LIMIT,
    ensures
        busy_run(n) == n,
        advice(busy_run(n), Attempt::Busy).0 == (if n + 1 == LOCAL_RETRY_LIMIT {
            Advice::GiveUp
        } else {
            Advice::Spin
        }),
    decreases n,
{
    if n > 0 {
        law_patience_is_bounded((n - 1) as nat);
    }
}

/// What an attempt to take a turn to send came to.
pub open spec fn send_attempt<R>(reserved: Result<R, ReserveError>) -> Attempt {
    match reserved {
        Ok(_) => Attempt::Done,
        Err(ReserveError::Closed) => Attempt::Closed,
        Err(ReserveError::Busy) => Attempt::Busy,
        Err(ReserveError::Full) => Attempt::Blocked,
    }
}

/// What an attempt to take a turn to receive came to.
pub open spec fn receive_attempt<R>(claimed: Result<R, ReceiveError>) -> Attempt {
    match claimed {
        Ok(_) => Attempt::Done,
        Err(ReceiveError::Closed) => Attempt::Closed,
        Err(ReceiveError::Busy) => Attempt::Busy,
        Err(ReceiveError::Empty) => Attempt::Blocked,
    }
}

/// After an attempt to receive one is done exactly where a block was received,
/// stops exactly where the direction is closed, waits exactly where it is open
/// and empty, and else attempts again until patience is at its end.
pub proof fn law_receivers_do_what_they_found<R>(retries: u32, claimed: Result<R, ReceiveError>)
    requires
        retries < LOCAL_RETRY_LIMIT,
    ensures
        ({
            let (advised, left) = advice(retries, receive_attempt(claimed));
            &&& advised == Advice::Finish <==> claimed is Ok
            &&& advised == Advice::Stop <==> claimed == Err::<R, ReceiveError>(
                ReceiveError::Closed,
            )
            &&& advised == Advice::Wait <==> claimed == Err::<R, ReceiveError>(
                ReceiveError::Empty,
            )
            &&& (advised == Advice::Spin || advised == Advice::GiveUp) <==> claimed == Err::<
                R,
                ReceiveError,
            >(ReceiveError::Busy)
            &&& advised == Advice::GiveUp ==> retries + 1 == LOCAL_RETRY_LIMIT
            &&& advised == Advice::Spin ==> left == retries + 1 && left < LOCAL_RETRY_LIMIT
            &&& advised == Advice::Wait ==> left == 0
        }),
{
}

/// After an attempt to send one is done exactly where a turn was had, stops
/// exactly where the direction is closed, waits exactly where the ring is full,
/// and else attempts again until patience is at its end.
pub proof fn law_senders_do_what_they_found<R>(retries: u32, reserved: Result<R, ReserveError>)
    requires
        retries < LOCAL_RETRY_LIMIT,
    ensures
        ({
            let (advised, left) = advice(retries, send_attempt(reserved));
            &&& advised == Advice::Finish <==> reserved is Ok
            &&& advised == Advice::Stop <==> reserved == Err::<R, ReserveError>(
                ReserveError::Closed,
            )
            &&& advised == Advice::Wait <==> reserved == Err::<R, ReserveError>(
                ReserveError::Full,
            )
            &&& (advised == Advice::Spin || advised == Advice::GiveUp) <==> reserved == Err::<
                R,
                ReserveError,
            >(ReserveError::Busy)
            &&& advised == Advice::GiveUp ==> retries + 1 == LOCAL_RETRY_LIMIT
            &&& advised == Advice::Spin ==> left == retries + 1 && left < LOCAL_RETRY_LIMIT
            &&& advised == Advice::Wait ==> left == 0
        }),
{
}

/// A receiver whose peer closed its end does not wait for it: where nothing is
/// left and no sender is in the middle of a turn, the receiver is told to stop,
/// whatever its patience.
pub proof fn law_nobody_waits_for_a_closed_peer<H: Repr>(
    tx: Tx<H>,
    rx: Rx<H>,
    before: Duplex<H>,
    closed: Duplex<H>,
    after: Duplex<H>,
    claimed: Result<Received<H>, ReceiveError>,
    retries: u32,
)
    requires
        tx.wf(),
        rx.wf(),
        rx.direction_spec() == tx.direction_spec(),
        before.lifecycle == 0,
        before.ring(rx.direction_spec()).ordered(),
        before.ring(rx.direction_spec()).contents().len() == 0,
        crate::channel::ending::idle(
            before.ring(rx.direction_spec()),
            crate::queue::control::PRODUCER,
        ),
        tx.closes(before, closed),
        crate::channel::transfer::claims(rx, closed, after, claimed),
        retries < LOCAL_RETRY_LIMIT,
    ensures
        advice(retries, receive_attempt(claimed)).0 == Advice::Stop,
{
    crate::channel::ending::law_closed_directions_are_drained_first(
        tx,
        rx,
        before,
        closed,
        after,
        claimed,
    );
}

/// A sender whose receiver closed its end does not wait for it: it is told to
/// stop.
pub proof fn law_nobody_sends_to_a_closed_peer<H: Repr>(
    rx: Rx<H>,
    tx: Tx<H>,
    before: Duplex<H>,
    closed: Duplex<H>,
    retries: u32,
)
    requires
        rx.wf(),
        tx.wf(),
        tx.direction_spec() == rx.direction_spec(),
        rx.closes(before, closed),
        retries < LOCAL_RETRY_LIMIT,
    ensures
        tx.refused(closed) matches Some(error) && advice(
            retries,
            send_attempt(Err::<(), ReserveError>(error)),
        ).0 == Advice::Stop,
{
    crate::channel::ending::law_refused_once_the_receiver_closed(rx, tx, before, closed);
}

/// The other side was told by a call of what tells it, and by nothing else.
pub proof fn law_told_is_a_call<N: Notify>(notify: N, notified: Result<(), N::Error>)
    requires
        told(notify, notified),
    ensures
        call_ensures(N::notify, (&notify,), notified),
{
}

impl<'a, N, W> Signals<'a, N, W> {
    pub closed spec fn notify_spec(self) -> N {
        *self.notify
    }

    pub closed spec fn wait_spec(self) -> W {
        *self.wait
    }

    pub fn new(notify: &'a N, wait: &'a W) -> (signals: Self)
        ensures
            signals.notify_spec() == *notify,
            signals.wait_spec() == *wait,
    {
        Signals { notify, wait }
    }

    /// The means to be told.
    pub fn waiter(&self) -> (wait: &'a W)
        ensures
            *wait == self.wait_spec(),
    {
        self.wait
    }
}

impl<'a, N: Notify, W> Signals<'a, N, W> {
    /// Sends a block, and tells the other side where it was sent.
    pub fn try_send<H: Repr>(
        &self,
        tx: &Tx<H>,
        duplex: &mut Duplex<H>,
        storage: &mut Storage,
        value: Transfer<H>,
    ) -> (sent: Result<Committed<(), N::Error>, TrySendError<Transfer<H>>>)
        requires
            tx.wf(),
            old(duplex).ring(tx.direction_spec()).ordered(),
            old(storage)@.wf(),
            value.allocation_spec().wf(old(storage)@),
            value.allocation_spec().live_spec() ==> value.allocation_spec().holds(old(storage)@),
        ensures
            final(storage)@.wf(),
            crate::channel::transfer::sends(
                *tx,
                *old(duplex),
                *final(duplex),
                old(storage)@,
                final(storage)@,
                value,
                match sent {
                    Ok(_) => Ok(()),
                    Err(error) => Err(error),
                },
            ),
            sent matches Ok(done) ==> told(self.notify_spec(), done.notified),
    {
        match tx.try_send(duplex, storage, value) {
            Ok(()) => Ok(committed(self.notify, ())),
            Err(error) => Err(error),
        }
    }

    /// One attempt to take a turn to send, and what to do after it.
    pub fn try_reserve<H: Repr>(
        &self,
        tx: &Tx<H>,
        duplex: &mut Duplex<H>,
        patience: &mut Patience,
    ) -> (made: (Option<Permit<'a, H, N>>, Advice))
        requires
            tx.wf(),
            old(duplex).ring(tx.direction_spec()).ordered(),
            old(patience).wf(),
        ensures
            final(patience).wf(),
            final(duplex).lifecycle == old(duplex).lifecycle,
            ({
                let ring = old(duplex).ring(tx.direction_spec());
                let refused = tx.refused(*old(duplex));
                let attempt = match refused {
                    Some(error) => send_attempt(Err::<(), ReserveError>(error)),
                    None => Attempt::Done,
                };
                &&& (made.1, final(patience).retries_spec()) == advice(
                    old(patience).retries_spec(),
                    attempt,
                )
                &&& made.0 is Some <==> refused is None
                &&& made.1 == Advice::Finish <==> refused is None
                &&& made.1 == Advice::Stop <==> refused == Some(ReserveError::Closed)
                &&& made.1 == Advice::Wait <==> refused == Some(ReserveError::Full)
                &&& made.0 matches Some(permit) ==> {
                    &&& permit.direction_spec() == tx.direction_spec()
                    &&& permit.index_spec() == ring.index(ring.tail)
                    &&& permit.index_spec() < ring.capacity()
                    &&& permit.notify_spec() == self.notify_spec()
                }
                &&& crate::channel::transfer::with_ring(
                    *old(duplex),
                    *final(duplex),
                    tx.direction_spec(),
                    if refused is None {
                        tx.turn_taken(ring)
                    } else {
                        ring
                    },
                )
            }),
    {
        match tx.reserve(duplex) {
            Ok(reserved) => (
                Some(Permit { reserved, notify: self.notify }),
                patience.advise(Attempt::Done),
            ),
            Err(ReserveError::Closed) => (None, patience.advise(Attempt::Closed)),
            Err(ReserveError::Busy) => (None, patience.advise(Attempt::Busy)),
            Err(ReserveError::Full) => (None, patience.advise(Attempt::Blocked)),
        }
    }

    /// What to do after an attempt to receive.
    pub fn after_claim<H: Repr>(
        &self,
        claimed: &Result<Received<H>, ReceiveError>,
        patience: &mut Patience,
    ) -> (advised: Advice)
        requires
            old(patience).wf(),
        ensures
            final(patience).wf(),
            (advised, final(patience).retries_spec()) == advice(
                old(patience).retries_spec(),
                receive_attempt(*claimed),
            ),
            advised == Advice::Stop <==> *claimed == Err::<Received<H>, ReceiveError>(
                ReceiveError::Closed,
            ),
            advised == Advice::Finish <==> *claimed is Ok,
            advised == Advice::Wait <==> *claimed == Err::<Received<H>, ReceiveError>(
                ReceiveError::Empty,
            ),
    {
        match claimed {
            Ok(_) => patience.advise(Attempt::Done),
            Err(ReceiveError::Closed) => patience.advise(Attempt::Closed),
            Err(ReceiveError::Busy) => patience.advise(Attempt::Busy),
            Err(ReceiveError::Empty) => patience.advise(Attempt::Blocked),
        }
    }

    /// Adopts a received block, and tells the other side where its turn is over.
    pub fn adopt<H: Repr, T: Repr + Shape + ?Sized>(
        &self,
        received: Received<H>,
        duplex: &mut Duplex<H>,
        storage: &mut Storage,
        pool: PoolRef,
    ) -> (adopted: Result<Committed<(H, Block<T>), N::Error>, AdoptError<H>>)
        requires
            received.wf(*old(duplex)),
            old(storage)@.wf(),
            pool.wf(),
        ensures
            final(storage)@.wf(),
            crate::channel::transfer::adopts::<H, T>(
                received,
                *old(duplex),
                *final(duplex),
                old(storage)@,
                final(storage)@,
                pool,
                match adopted {
                    Ok(done) => Ok(done.value),
                    Err(error) => Err(error),
                },
            ),
            adopted matches Ok(done) ==> told(self.notify_spec(), done.notified),
    {
        match received.adopt::<T>(duplex, storage, pool) {
            Ok(value) => Ok(committed(self.notify, value)),
            Err(error) => Err(error),
        }
    }

    /// Discards a received block, and tells the other side where its turn is
    /// over.
    pub fn discard<H: Repr>(
        &self,
        received: Received<H>,
        duplex: &mut Duplex<H>,
        storage: &mut Storage,
        pool: PoolRef,
    ) -> (discarded: Result<Committed<H, N::Error>, AdoptError<H>>)
        requires
            received.wf(*old(duplex)),
            old(storage)@.wf(),
            pool.wf(),
        ensures
            final(storage)@.wf(),
            crate::channel::transfer::discards(
                received,
                *old(duplex),
                *final(duplex),
                old(storage)@,
                final(storage)@,
                pool,
                match discarded {
                    Ok(done) => Ok(done.value),
                    Err(error) => Err(error),
                },
            ),
            discarded matches Ok(done) ==> told(self.notify_spec(), done.notified),
    {
        match received.discard(duplex, storage, pool) {
            Ok(value) => Ok(committed(self.notify, value)),
            Err(error) => Err(error),
        }
    }

    /// Closes a direction for sending, and tells the other side.
    pub fn close_tx<H: Repr>(&self, tx: &Tx<H>, duplex: &mut Duplex<H>) -> (done: Committed<
        (),
        N::Error,
    >)
        requires
            tx.wf(),
        ensures
            final(duplex).lifecycle == crate::channel::transfer::closing_byte(
                old(duplex).lifecycle,
                tx.route().send_field,
            ),
            crate::channel::transfer::with_ring(
                *old(duplex),
                *final(duplex),
                tx.direction_spec(),
                old(duplex).ring(tx.direction_spec()),
            ),
            told(self.notify_spec(), done.notified),
    {
        tx.close(duplex);
        committed(self.notify, ())
    }

    /// Closes a direction for receiving, and tells the other side.
    pub fn close_rx<H: Repr>(&self, rx: &Rx<H>, duplex: &mut Duplex<H>) -> (done: Committed<
        (),
        N::Error,
    >)
        requires
            rx.wf(),
        ensures
            final(duplex).lifecycle == crate::channel::transfer::closing_byte(
                old(duplex).lifecycle,
                rx.route().recv_field,
            ),
            crate::channel::transfer::with_ring(
                *old(duplex),
                *final(duplex),
                rx.direction_spec(),
                old(duplex).ring(rx.direction_spec()),
            ),
            told(self.notify_spec(), done.notified),
    {
        rx.close(duplex);
        committed(self.notify, ())
    }
}

impl<'n, H: Repr, N> Permit<'n, H, N> {
    pub closed spec fn direction_spec(self) -> int {
        self.reserved.direction_spec()
    }

    pub closed spec fn index_spec(self) -> int {
        self.reserved.index_spec()
    }

    pub closed spec fn notify_spec(self) -> N {
        *self.notify
    }
}

impl<'n, H: Repr, N: Notify> Permit<'n, H, N> {
    /// Sends a block in this turn, and tells the other side.
    pub fn send(self, duplex: &mut Duplex<H>, storage: &mut Storage, value: Transfer<H>) -> (done:
        Committed<(), N::Error>)
        requires
            0 <= self.direction_spec() < 2,
            self.index_spec() < old(duplex).ring(self.direction_spec()).capacity(),
            old(storage)@.wf(),
            value.allocation_spec().wf(old(storage)@),
            value.allocation_spec().live_spec() ==> value.allocation_spec().holds(old(storage)@),
        ensures
            final(storage)@.wf(),
            final(storage)@ == crate::channel::transfer::let_go(
                old(storage)@,
                value.allocation_spec(),
            ),
            final(duplex).lifecycle == old(duplex).lifecycle,
            crate::channel::transfer::with_ring(
                *old(duplex),
                *final(duplex),
                self.direction_spec(),
                old(duplex).ring(self.direction_spec()).staged(
                    self.index_spec(),
                    value.token_spec(),
                ).published(self.index_spec()),
            ),
            told(self.notify_spec(), done.notified),
    {
        let staged = self.reserved.stage(duplex, value);
        staged.publish(duplex, storage);
        committed(self.notify, ())
    }

    /// Gives this turn up, and tells the other side, which passes it.
    pub fn cancel(self, duplex: &mut Duplex<H>) -> (done: Committed<(), N::Error>)
        requires
            0 <= self.direction_spec() < 2,
            self.index_spec() < old(duplex).ring(self.direction_spec()).capacity(),
        ensures
            final(duplex).lifecycle == old(duplex).lifecycle,
            crate::channel::transfer::with_ring(
                *old(duplex),
                *final(duplex),
                self.direction_spec(),
                old(duplex).ring(self.direction_spec()).skipped(self.index_spec()),
            ),
            told(self.notify_spec(), done.notified),
    {
        self.reserved.skip(duplex);
        committed(self.notify, ())
    }
}

/// Whoever had to wait is as patient afterwards as at first; every attempt that is
/// repeated at once uses up some of the patience, and no other does.
pub proof fn law_waiting_renews_patience(retries: u32, attempt: Attempt)
    requires
        retries < LOCAL_RETRY_LIMIT,
    ensures
        ({
            let (advised, left) = advice(retries, attempt);
            &&& advised == Advice::Wait ==> left == busy_run(0)
            &&& advised == Advice::Spin ==> left == retries + 1 && left < LOCAL_RETRY_LIMIT
            &&& advised != Advice::Wait && advised != Advice::Spin ==> left == retries
            &&& advised == Advice::GiveUp ==> attempt == Attempt::Busy && retries + 1
                == LOCAL_RETRY_LIMIT
        }),
{
}

} // verus!
