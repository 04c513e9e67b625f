//! Closing of a channel by the holder of a role: both directions are closed for
//! sending, everything in them is given back, and then they are closed for
//! receiving.

use super::duplex::Duplex;
use super::role::{route, Channel};
use super::{CloseError, RoleWord};
use crate::msg::Repr;
use crate::queue::lifecycle::{close_field, recv_closed, send_closed, try_claim, Route};
use crate::queue::repair::Release;
use crate::queue::ring::{ClaimError, Ring, RingView};
use crate::token::Token;
use vstd::prelude::*;

verus! {

/// The slot that is received next.
pub open spec fn first_slot<T>(ring: RingView<T>) -> int {
    ring.index(ring.head)
}

/// The next turn holds an item.
pub open spec fn item_waits<T>(ring: RingView<T>) -> bool {
    &&& ring.is_available(ring.head)
    &&& ring.consumes(ring.head)
    &&& crate::queue::control::complete_of(ring.slots[first_slot(ring)].control)
}

/// One item is received and given back.
pub open spec fn drain_step<T, R: Release<T>>(
    before: RingView<T>,
    owner: u8,
    release: R,
    after: RingView<T>,
    released: R,
) -> bool {
    let i = first_slot(before);
    let item = before.slots[i].value->0;
    &&& item_waits(before)
    &&& release.accepts(item, owner)
    &&& release.released(item, owner, &released)
    &&& after == before.taken(before.head, owner).claimed(before.head).recycled(
        i,
        before.lap_later(before.head),
    )
}

/// So many items are received and given back, one after the other.
pub open spec fn drained<T, R: Release<T>>(
    before: RingView<T>,
    owner: u8,
    n: nat,
    release: R,
    after: RingView<T>,
    released: R,
) -> bool
    decreases n,
{
    if n == 0 {
        after == before && released == release
    } else {
        exists|ring: RingView<T>, middle: R|
            {
                &&& drained(before, owner, (n - 1) as nat, release, ring, middle)
                &&& #[trigger] drain_step(ring, owner, middle, after, released)
            }
    }
}

/// How draining ends at a ring whose next item is not given back: an item that
/// is refused is received all the same, and comes out.
pub open spec fn drain_ends<T, R: Release<T>>(
    ring: RingView<T>,
    closed: bool,
    owner: u8,
    release: R,
    after: RingView<T>,
    released: R,
    result: Result<(), CloseError<T>>,
) -> bool {
    let head = ring.head;
    let i = first_slot(ring);
    let item = ring.slots[i].value->0;
    if !closed && item_waits(ring) {
        &&& !release.accepts(item, owner)
        &&& release.released(item, owner, &released)
        &&& result == Err::<(), CloseError<T>>(CloseError::Evidence(item))
        &&& after == ring.taken(head, owner).claimed(head).recycled(i, ring.lap_later(head))
    } else {
        &&& released == release
        &&& if !closed && !ring.is_available(head) && ring.tail == head {
            result is Ok && after == ring
        } else {
            &&& result == Err::<(), CloseError<T>>(CloseError::Busy)
            &&& after == (if !closed && ring.is_available(head) && ring.consumes(head) {
                ring.claimed(head).recycled(i, ring.lap_later(head))
            } else {
                ring
            })
        }
    }
}

/// Draining ends at `ring`, behind `n` items that were given back.
pub open spec fn drain_run<T, R: Release<T>>(
    before: RingView<T>,
    closed: bool,
    owner: u8,
    n: nat,
    release: R,
    ring: RingView<T>,
    middle: R,
    after: RingView<T>,
    released: R,
    result: Result<(), CloseError<T>>,
) -> bool {
    &&& drained(before, owner, n, release, ring, middle)
    &&& drain_ends(ring, closed, owner, middle, after, released, result)
    &&& n > 0 ==> !closed
}

/// What draining a direction does.
pub open spec fn drains<T, R: Release<T>>(
    before: RingView<T>,
    closed: bool,
    owner: u8,
    release: R,
    after: RingView<T>,
    released: R,
    result: Result<(), CloseError<T>>,
) -> bool {
    exists|n: nat, ring: RingView<T>, middle: R|
        #[trigger] drain_run(
            before,
            closed,
            owner,
            n,
            release,
            ring,
            middle,
            after,
            released,
            result,
        )
}

/// Receives and gives back everything in a direction.
#[verifier::spinoff_prover]
fn drain<T, R: Release<T>>(ring: &mut Ring<T>, lifecycle: u8, route: Route, release: &mut R) -> (
drained_all: Result<(), CloseError<T>>)
    requires
        route.wf(),
        old(ring)@.ordered(),
        old(release).ready(),
    ensures
        final(ring)@.ordered(),
        final(release).ready(),
        drains(
            old(ring)@,
            receiving_closed(lifecycle, route),
            route.owner,
            *old(release),
            final(ring)@,
            *final(release),
            drained_all,
        ),
{
    let ghost before = ring@;
    let ghost start = *release;
    let ghost closed = receiving_closed(lifecycle, route);
    let ghost mut n: nat = 0;
    loop
        invariant
            before == old(ring)@,
            start == *old(release),
            closed == receiving_closed(lifecycle, route),
            route.wf(),
            ring@.ordered(),
            release.ready(),
            drained(before, route.owner, n, start, ring@, *release),
            n > 0 ==> !closed,
        decreases ring@.contents().len(),
    {
        let ghost now = ring@;
        let ghost middle = *release;
        let ghost i = first_slot(now);
        proof {
            vstd::arithmetic::div_mod::lemma_mod_bound(now.head as int, now.lap as int);
            assert(now.slot_ok(i));
            if now.is_available(now.head) && now.consumes(now.head) {
                crate::queue::lifecycle::law_received_items_come_first(now, route.owner);
            }
        }
        match try_claim(ring, lifecycle, route) {
            Ok(claim) => {
                assert(ring@.slots[i].value == now.slots[i].value);
                assert(now.slots[i].value is Some);
                let accepted = match claim.item(ring) {
                    Some(item) => release.release(item, route.owner),
                    None => true,
                };
                if !accepted {
                    let item = claim.take(ring);
                    proof {
                        assert(drain_run(
                            before,
                            closed,
                            route.owner,
                            n,
                            start,
                            now,
                            middle,
                            ring@,
                            *release,
                            Err::<(), CloseError<T>>(CloseError::Evidence(item)),
                        ));
                    }
                    return Err(CloseError::Evidence(item));
                }
                claim.recycle(ring);
                proof {
                    assert(drain_step(now, route.owner, middle, ring@, *release));
                    n = n + 1;
                    assert((n - 1) as nat + 1 == n);
                }
            },
            Err(ClaimError::Empty) => {
                proof {
                    assert(drain_run(
                        before,
                        closed,
                        route.owner,
                        n,
                        start,
                        now,
                        middle,
                        ring@,
                        *release,
                        Ok::<(), CloseError<T>>(()),
                    ));
                }
                return Ok(());
            },
            Err(_) => {
                proof {
                    assert(drain_run(
                        before,
                        closed,
                        route.owner,
                        n,
                        start,
                        now,
                        middle,
                        ring@,
                        *release,
                        Err::<(), CloseError<T>>(CloseError::Busy),
                    ));
                }
                return Err(CloseError::Busy);
            },
        }
    }
}

/// A direction takes no more turns to receive.
pub open spec fn receiving_closed(lifecycle: u8, route: Route) -> bool {
    crate::queue::lifecycle::field_of(lifecycle, route.recv_field) != 0
}

/// A direction is drained, and its sender is found done with nothing left.
pub open spec fn emptied<T, R: Release<T>>(
    before: RingView<T>,
    after: RingView<T>,
    lifecycle: u8,
    lifecycle_after: u8,
    route: Route,
    release: R,
    released: R,
    result: Result<(), CloseError<T>>,
) -> bool {
    let sender = crate::queue::lifecycle::sender_done(lifecycle, route, after.slots);
    exists|all: Result<(), CloseError<T>>|
        {
            &&& #[trigger] drains(
                before,
                receiving_closed(lifecycle, route),
                route.owner,
                release,
                after,
                released,
                all,
            )
            &&& match all {
                Err(error) => result == Err::<(), CloseError<T>>(error) && lifecycle_after
                    == lifecycle,
                Ok(()) => {
                    &&& lifecycle_after == crate::queue::lifecycle::looked_at(
                        lifecycle,
                        route.send_field,
                        sender,
                    )
                    &&& result == (if sender && after.head == after.tail {
                        Ok::<(), CloseError<T>>(())
                    } else {
                        Err::<(), CloseError<T>>(CloseError::Busy)
                    })
                },
            }
        }
}

fn empty<T, R: Release<T>>(ring: &mut Ring<T>, lifecycle: &mut u8, route: Route, release: &mut R) -> (
result: Result<(), CloseError<T>>)
    requires
        route.wf(),
        old(ring)@.ordered(),
        old(release).ready(),
    ensures
        final(ring)@.ordered(),
        final(release).ready(),
        emptied(
            old(ring)@,
            final(ring)@,
            *old(lifecycle),
            *final(lifecycle),
            route,
            *old(release),
            *final(release),
            result,
        ),
{
    let all = drain(ring, *lifecycle, route, release);
    assert(drains(
        old(ring)@,
        receiving_closed(*old(lifecycle), route),
        route.owner,
        *old(release),
        ring@,
        *release,
        all,
    ));
    match all {
        Ok(()) => {},
        Err(error) => return Err(error),
    }
    let sender = send_closed(lifecycle, route, ring);
    if sender && ring.is_empty() {
        Ok(())
    } else {
        Err(CloseError::Busy)
    }
}

/// The byte once both directions are closing for sending.
pub open spec fn senders_closing(lifecycle: u8) -> u8 {
    let first = crate::queue::lifecycle::with_field(
        lifecycle,
        0,
        crate::queue::lifecycle::closing(crate::queue::lifecycle::field_of(lifecycle, 0)),
    ) as u8;
    crate::queue::lifecycle::with_field(
        first,
        4,
        crate::queue::lifecycle::closing(crate::queue::lifecycle::field_of(first, 4)),
    ) as u8
}

/// The byte once a direction is closing for receiving.
pub open spec fn receiver_closing(lifecycle: u8, route: Route) -> u8 {
    crate::queue::lifecycle::with_field(
        lifecycle,
        route.recv_field,
        crate::queue::lifecycle::closing(
            crate::queue::lifecycle::field_of(lifecycle, route.recv_field),
        ),
    ) as u8
}

/// A direction is closed for receiving, where nobody holds a turn of it.
pub open spec fn receiver_ends<T>(
    ring: RingView<T>,
    lifecycle: u8,
    lifecycle_after: u8,
    route: Route,
    ended: bool,
) -> bool {
    let closing = receiver_closing(lifecycle, route);
    &&& ended == crate::queue::lifecycle::receiver_done(closing, route, ring.slots)
    &&& lifecycle_after == crate::queue::lifecycle::looked_at(closing, route.recv_field, ended)
}

fn end_receiver<T>(ring: &Ring<T>, lifecycle: &mut u8, route: Route) -> (ended: bool)
    requires
        route.wf(),
    ensures
        receiver_ends(ring@, *old(lifecycle), *final(lifecycle), route, ended),
{
    proof {
        crate::queue::lifecycle::law_fields_are_independent(
            *lifecycle,
            route.recv_field,
            route.recv_field,
            crate::queue::lifecycle::closing(
                crate::queue::lifecycle::field_of(*lifecycle, route.recv_field),
            ),
        );
    }
    close_field(lifecycle, route.recv_field);
    recv_closed(lifecycle, route, ring)
}

/// Both receivers are closed, one after the other.
pub open spec fn receivers_end<H: Repr>(
    duplex: Duplex<H>,
    lifecycle: u8,
    lifecycle_after: u8,
    owner: u8,
    result: Result<(), CloseError<Token<H>>>,
) -> bool {
    let first = super::role::route_spec(0, owner);
    let second = super::role::route_spec(1, owner);
    exists|middle: u8, one: bool|
        {
            &&& #[trigger] receiver_ends(duplex.left@, lifecycle, middle, first, one)
            &&& if !one {
                lifecycle_after == middle && result == Err::<(), CloseError<Token<H>>>(CloseError::Busy)
            } else {
                receiver_ends(
                    duplex.right@,
                    middle,
                    lifecycle_after,
                    second,
                    result is Ok,
                ) && (result is Err ==> result == Err::<(), CloseError<Token<H>>>(CloseError::Busy))
            }
        }
}

/// What the holder of a role does in closing its channel.
pub open spec fn closes<H: Repr, R: Release<Token<H>>>(
    before: Duplex<H>,
    after: Duplex<H>,
    channel: Channel<H>,
    release: R,
    released: R,
    result: Result<(), CloseError<Token<H>>>,
) -> bool {
    let owner = channel.owner_spec();
    let begun = senders_closing(before.lifecycle);
    exists|middle: u8, half: R, left: Result<(), CloseError<Token<H>>>|
        {
            &&& #[trigger] emptied(
                before.left@,
                after.left@,
                begun,
                middle,
                super::role::route_spec(0, owner),
                release,
                half,
                left,
            )
            &&& match left {
                Err(error) => {
                    &&& result == Err::<(), CloseError<Token<H>>>(error)
                    &&& after.right@ == before.right@
                    &&& after.lifecycle == middle
                    &&& released == half
                },
                Ok(()) => exists|late: u8, right: Result<(), CloseError<Token<H>>>|
                    {
                        &&& #[trigger] emptied(
                            before.right@,
                            after.right@,
                            middle,
                            late,
                            super::role::route_spec(1, owner),
                            half,
                            released,
                            right,
                        )
                        &&& match right {
                            Err(error) => result == Err::<(), CloseError<Token<H>>>(error) && after.lifecycle
                                == late,
                            Ok(()) => receivers_end(after, late, after.lifecycle, owner, result),
                        }
                    },
            }
        }
}

/// What closing a channel does for the one who opened it.
pub open spec fn channel_closes<H: Repr, R: Release<Token<H>>>(
    before: Duplex<H>,
    after: Duplex<H>,
    channel: Channel<H>,
    release: R,
    released: R,
    closed: Result<(), CloseError<Token<H>>>,
) -> bool {
    let index = channel.index_spec();
    let word = before.role(index);
    if !channel.is_held(before) {
        &&& closed == (if super::role_terminal(word) && super::role_owner(word) is None {
            Ok::<(), CloseError<Token<H>>>(())
        } else {
            Err::<(), CloseError<Token<H>>>(CloseError::Busy)
        })
        &&& after == before
        &&& released == release
    } else {
        &&& closes(
            before,
            after,
            channel,
            release,
            released,
            closed,
        )
        &&& after.role(index) == super::role_word(
            channel.generation_spec(),
            if closed is Ok {
                None
            } else {
                Some(channel.owner_spec())
            },
            true,
        )
        &&& after.role(1 - index) == before.role(1 - index)
    }
}

impl<H: Repr> Channel<H> {
    /// Closes the channel for its holder: what was sent and not received is
    /// given back, and the role ends. Where something is in the way the role is
    /// left closing, and closing can be tried again; an item that is not accepted
    /// comes out, and is not in the way any more.
    #[verifier::spinoff_prover]
    pub fn close_with<R: Release<Token<H>>>(&self, duplex: &mut Duplex<H>, release: &mut R) -> (
    closed: Result<(), CloseError<Token<H>>>)
        requires
            self.wf(),
            old(duplex).ordered(),
            old(release).ready(),
        ensures
            final(duplex).ordered(),
            final(release).ready(),
            channel_closes(
                *old(duplex),
                *final(duplex),
                *self,
                *old(release),
                *final(release),
                closed,
            ),
    {
        let ghost before = *duplex;
        let index: u8 = self.index();
        let owner: u8 = self.owner();
        let (generation, holder, terminal) = duplex.get_role(index).parts();
        if generation != self.generation() || holder != Some(owner) {
            return if terminal && holder.is_none() {
                Ok(())
            } else {
                Err(CloseError::Busy)
            };
        }
        duplex.set_role(index, RoleWord::new(generation, Some(owner), true).unwrap());
        let first = route(0, owner);
        let second = route(1, owner);
        proof {
            let one = crate::queue::lifecycle::closing(
                crate::queue::lifecycle::field_of(before.lifecycle, 0),
            );
            crate::queue::lifecycle::law_fields_are_independent(before.lifecycle, 0, 0, one);
        }
        close_field(&mut duplex.lifecycle, first.send_field);
        close_field(&mut duplex.lifecycle, second.send_field);
        assert(duplex.lifecycle == senders_closing(before.lifecycle));
        let left = empty(&mut duplex.left, &mut duplex.lifecycle, first, release);
        let ghost middle = duplex.lifecycle;
        let ghost half = *release;
        assert(emptied(
            before.left@,
            duplex.left@,
            senders_closing(before.lifecycle),
            middle,
            first,
            *old(release),
            half,
            left,
        ));
        match left {
            Ok(()) => {},
            Err(error) => return Err(error),
        }
        let right = empty(&mut duplex.right, &mut duplex.lifecycle, second, release);
        let ghost late = duplex.lifecycle;
        assert(emptied(before.right@, duplex.right@, middle, late, second, half, *release, right));
        match right {
            Ok(()) => {},
            Err(error) => return Err(error),
        }
        let one = end_receiver(&duplex.left, &mut duplex.lifecycle, first);
        assert(receiver_ends(duplex.left@, late, duplex.lifecycle, first, one));
        if !one {
            assert(receivers_end(
                *duplex,
                late,
                duplex.lifecycle,
                owner,
                Err::<(), CloseError<Token<H>>>(CloseError::Busy),
            ));
            return Err(CloseError::Busy);
        }
        let ghost later = duplex.lifecycle;
        let two = end_receiver(&duplex.right, &mut duplex.lifecycle, second);
        assert(receiver_ends(duplex.left@, late, later, first, one));
        assert(receiver_ends(duplex.right@, later, duplex.lifecycle, second, two));
        if !two {
            assert(receiver_ends(duplex.right@, later, duplex.lifecycle, second, false));
            assert(receivers_end(
                *duplex,
                late,
                duplex.lifecycle,
                owner,
                Err::<(), CloseError<Token<H>>>(CloseError::Busy),
            ));
            return Err(CloseError::Busy);
        }
        duplex.set_role(index, RoleWord::new(generation, None, true).unwrap());
        assert(receivers_end(*duplex, late, duplex.lifecycle, owner, Ok::<(), CloseError<Token<H>>>(())));
        Ok(())
    }
}

} // verus!
