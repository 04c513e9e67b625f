//! Submission of operations, and their completion from messages.
//!
//! A submission takes an entry of a pool, puts the entry's name into the message
//! and sends it; the completer finds the name in the answer. What a sender or a
//! receiver returned is an argument here.

use super::pool::{CachePool, Op};
use super::{Completion, Id, Waker};
use crate::queue::lifecycle::TrySendError;
use vstd::prelude::*;

verus! {

/// Why a message was not sent.
#[derive(Clone, Copy, Debug, PartialEq, Eq, Structural)]
pub enum SubmitCause {
    Full,
    Disconnected,
}

/// Why an operation was not submitted; the item goes back to the caller.
#[derive(Debug)]
pub enum TrySubmitError<U> {
    SendRejected { cause: SubmitCause, item: U },
    CacheFull(U),
}

/// The refusal of a sender, with the message that it refused.
pub trait SendRejection<T>: Sized {
    spec fn cause_spec(self) -> SubmitCause;

    spec fn item_spec(self) -> T;

    fn into_parts(self) -> (parts: (SubmitCause, T))
        ensures
            parts.0 == self.cause_spec(),
            parts.1 == self.item_spec(),
    ;
}

/// A ring that is busy has no room now, as a full one.
impl<T> SendRejection<T> for TrySendError<T> {
    open spec fn cause_spec(self) -> SubmitCause {
        match self {
            TrySendError::Disconnected(_) => SubmitCause::Disconnected,
            _ => SubmitCause::Full,
        }
    }

    open spec fn item_spec(self) -> T {
        match self {
            TrySendError::Full(item) => item,
            TrySendError::Busy(item) => item,
            TrySendError::Disconnected(item) => item,
        }
    }

    fn into_parts(self) -> (parts: (SubmitCause, T)) {
        match self {
            TrySendError::Full(item) => (SubmitCause::Full, item),
            TrySendError::Busy(item) => (SubmitCause::Full, item),
            TrySendError::Disconnected(item) => (SubmitCause::Disconnected, item),
        }
    }
}

/// A value that goes into a message of type `U` together with the name of an
/// operation, and comes out of it again.
pub trait Identified<U>: Sized {
    spec fn parts(output: U) -> (Self, Id);

    fn compose(self, id: Id) -> (output: U)
        ensures
            Self::parts(output) == (self, id),
    ;

    fn decompose(output: U) -> (parts: (Self, Id))
        ensures
            parts == Self::parts(output),
    ;
}

impl<T> Identified<(T, Id)> for T {
    open spec fn parts(output: (T, Id)) -> (T, Id) {
        output
    }

    fn compose(self, id: Id) -> (output: (T, Id)) {
        (self, id)
    }

    fn decompose(output: (T, Id)) -> (parts: (T, Id)) {
        output
    }
}

/// Takes an entry for the operation and names it in the message to send. Where
/// every entry is in use the item goes back.
pub fn prepare<U: Identified<M>, M, const N: usize>(
    pool: &mut CachePool<U, N>,
    item: U,
) -> (prepared: Result<(Op<U, N>, M), TrySubmitError<U>>)
    requires
        old(pool).wf(),
    ensures
        final(pool).wf(),
        match prepared {
            Ok((op, message)) => {
                let idx = old(pool)@.free[0];
                let live = old(pool)@.entries[idx as int].live;
                &&& old(pool)@.free.len() > 0
                &&& op.idx_spec() == idx
                &&& U::parts(message) == (item, Id { idx, live })
                &&& final(pool)@ == old(pool)@.given()
            },
            Err(error) => {
                &&& old(pool)@.free.len() == 0
                &&& error == TrySubmitError::CacheFull(item)
                &&& final(pool)@ == old(pool)@
            },
        },
{
    match pool.probe() {
        None => Err(TrySubmitError::CacheFull(item)),
        Some((op, id)) => Ok((op, item.compose(id))),
    }
}

/// Ends the submission of an operation with what the sender returned: the
/// operation where the message was sent; else its entry is given back, and the
/// item of the message goes back to the caller.
pub fn settle<U: Identified<M>, M, E: SendRejection<M>, const N: usize>(
    pool: &mut CachePool<U, N>,
    op: Op<U, N>,
    sent: Result<(), E>,
) -> (submitted: Result<Op<U, N>, TrySubmitError<U>>)
    requires
        old(pool).wf(),
        old(pool)@.in_use(op.idx_spec()),
        super::settled(old(pool)@.entries[op.idx_spec() as int].state),
    ensures
        final(pool).wf(),
        match sent {
            Ok(()) => submitted == Ok::<Op<U, N>, TrySubmitError<U>>(op) && final(pool)@
                == old(pool)@,
            Err(error) => {
                &&& submitted == Err::<Op<U, N>, TrySubmitError<U>>(
                    TrySubmitError::SendRejected {
                        cause: error.cause_spec(),
                        item: U::parts(error.item_spec()).0,
                    },
                )
                &&& final(pool)@ == old(pool)@.released(op.idx_spec())
            },
        },
{
    match sent {
        Ok(()) => Ok(op),
        Err(error) => {
            let (cause, returned) = error.into_parts();
            let (item, _) = U::decompose(returned);
            op.release(pool);
            Err(TrySubmitError::SendRejected { cause, item })
        },
    }
}

/// Completes the operation that a received message names, with the message's
/// value; a failure to receive is passed on.
pub fn complete<U: Identified<M>, M, E, const N: usize>(
    pool: &mut CachePool<U, N>,
    received: Result<M, E>,
) -> (done: Result<(Completion<U>, Option<Waker>), E>)
    requires
        old(pool).wf(),
        forall|i: int|
            0 <= i < N ==> super::settled((#[trigger] old(pool)@.entries[i]).state),
    ensures
        final(pool).wf(),
        match received {
            Err(error) => {
                &&& done == Err::<(Completion<U>, Option<Waker>), E>(error)
                &&& final(pool)@ == old(pool)@
            },
            Ok(message) => {
                let (payload, id) = U::parts(message);
                let cache = old(pool)@.entries[id.idx as int];
                &&& done is Ok
                &&& if id.idx < N && cache.rejection(id.live) is None {
                    &&& done->Ok_0 == (
                        super::completion(cache, id.live, payload),
                        cache.waker,
                    )
                    &&& final(pool)@ == old(pool)@.with(id.idx, cache.completed(payload))
                } else {
                    &&& done->Ok_0 == (
                        Completion::Rejected {
                            reason: if id.idx < N {
                                cache.rejection(id.live)->0
                            } else {
                                super::CompletionReject::Outdated
                            },
                            payload,
                        },
                        None::<Waker>,
                    )
                    &&& final(pool)@ == old(pool)@
                }
            },
        },
{
    match received {
        Err(error) => Err(error),
        Ok(message) => {
            let (payload, id) = U::decompose(message);
            Ok(pool.complete(id, payload))
        },
    }
}

/// A submission that the sender refuses returns the item that was given, and
/// takes no entry out of use: the pool has as many free entries as before,
/// unless the entry's generations are used up.
pub proof fn law_refused_submissions_return_the_item<U: Identified<M>, M, E: SendRejection<M>>(
    pool: super::pool::PoolView<U>,
    item: U,
    message: M,
    error: E,
)
    requires
        pool.wf(),
        pool.free.len() > 0,
        U::parts(message) == (
            item,
            Id { idx: pool.free[0], live: pool.entries[pool.free[0] as int].live },
        ),
        error.item_spec() == message,
    ensures
        U::parts(error.item_spec()).0 == item,
        ({
            let cache = pool.entries[pool.free[0] as int];
            cache.state != super::RETIRED && cache.live < u32::MAX ==> pool.given().released(
                pool.free[0],
            ).free == pool.free
        }),
{
    assert(seq![pool.free[0]] + pool.free.skip(1) =~= pool.free);
}

/// A sender is called disconnected only where it is: a ring that is full or busy
/// may take the item later.
pub proof fn law_only_closed_rings_disconnect<T>(error: TrySendError<T>)
    ensures
        error.cause_spec() == SubmitCause::Disconnected <==> error is Disconnected,
        error == TrySendError::Full(error.item_spec()) || error == TrySendError::Busy(
            error.item_spec(),
        ) || error == TrySendError::Disconnected(error.item_spec()),
{
}

} // verus!
