//! What holds of closing a channel, whether it succeeds or has to be tried again.

use super::duplex::Duplex;
use super::role::Channel;
use super::CloseError;
use crate::header::PARTICIPANT_CAPACITY;
use crate::msg::Repr;
use crate::queue::lifecycle::Route;
use crate::queue::order::Entry;
use crate::queue::repair::Release;
use crate::queue::ring::RingView;
use crate::token::Token;
use vstd::prelude::*;

verus! {

/// Closing a channel ends its holder's role at once, so that nobody is invited any
/// more; the role is given up only with success, and a holder that did not succeed
/// can try again. The other role is left alone.
pub proof fn law_closing_ends_the_role<H: Repr, R: Release<Token<H>>>(
    before: Duplex<H>,
    after: Duplex<H>,
    channel: Channel<H>,
    release: R,
    released: R,
    closed: Result<(), CloseError<Token<H>>>,
)
    requires
        channel.wf(),
        channel.is_held(before),
        super::close::channel_closes(before, after, channel, release, released, closed),
    ensures
        super::role_terminal(after.role(channel.index_spec())),
        super::role_generation(after.role(channel.index_spec())) == channel.generation_spec(),
        closed is Ok <==> super::role_owner(after.role(channel.index_spec())) is None,
        closed is Err <==> channel.is_held(after),
        after.role(1 - channel.index_spec()) == before.role(1 - channel.index_spec()),
{
    super::law_role_word_round_trips(channel.generation_spec(), None, true);
    super::law_role_word_round_trips(
        channel.generation_spec(),
        Some(channel.owner_spec()),
        true,
    );
}

/// Whoever closed a channel finds it closed; whoever lost its role to another, or
/// left it without closing, does not, and changes nothing.
pub proof fn law_closing_again_finds_it_closed<H: Repr, R: Release<Token<H>>>(
    before: Duplex<H>,
    after: Duplex<H>,
    channel: Channel<H>,
    release: R,
    released: R,
    closed: Result<(), CloseError<Token<H>>>,
)
    requires
        channel.wf(),
        !channel.is_held(before),
        super::close::channel_closes(before, after, channel, release, released, closed),
    ensures
        after == before,
        released == release,
        closed is Ok <==> super::role_terminal(before.role(channel.index_spec()))
            && super::role_owner(before.role(channel.index_spec())) is None,
        closed is Err ==> closed == Err::<(), CloseError<Token<H>>>(CloseError::Busy),
{
}

/// Emptying a direction keeps every field that is not its sender's, and never opens
/// that one.
proof fn lemma_emptied_fields<T, R: Release<T>>(
    before: RingView<T>,
    after: RingView<T>,
    lifecycle: u8,
    lifecycle_after: u8,
    route: Route,
    release: R,
    released: R,
    result: Result<(), CloseError<T>>,
    field: u32,
)
    requires
        crate::queue::lifecycle::is_field(route.send_field),
        crate::queue::lifecycle::is_field(field),
        super::close::emptied(
            before,
            after,
            lifecycle,
            lifecycle_after,
            route,
            release,
            released,
            result,
        ),
    ensures
        crate::queue::lifecycle::field_of(lifecycle, field) != 0
            ==> crate::queue::lifecycle::field_of(lifecycle_after, field) != 0,
{
    super::laws::lemma_field_set(lifecycle, route.send_field, 3);
}

/// Closing a receiver keeps every field that is closed closed.
proof fn lemma_receiver_fields<T>(
    ring: RingView<T>,
    lifecycle: u8,
    after: u8,
    route: Route,
    ended: bool,
    field: u32,
)
    requires
        crate::queue::lifecycle::is_field(route.recv_field),
        crate::queue::lifecycle::is_field(field),
        super::close::receiver_ends(ring, lifecycle, after, route, ended),
    ensures
        crate::queue::lifecycle::field_of(lifecycle, field) != 0
            ==> crate::queue::lifecycle::field_of(after, field) != 0,
{
    let state = crate::queue::lifecycle::field_of(lifecycle, route.recv_field);
    super::laws::lemma_field_set(
        lifecycle,
        route.recv_field,
        crate::queue::lifecycle::closing(state),
    );
    super::laws::lemma_field_set(
        super::close::receiver_closing(lifecycle, route),
        route.recv_field,
        3,
    );
}

/// Once its holder started to close a channel nobody begins to send in it, in
/// either direction, whether the closing succeeds or not.
pub proof fn law_closing_stops_all_senders<H: Repr, R: Release<Token<H>>>(
    before: Duplex<H>,
    after: Duplex<H>,
    channel: Channel<H>,
    release: R,
    released: R,
    closed: Result<(), CloseError<Token<H>>>,
    direction: int,
    sender: u8,
)
    requires
        channel.wf(),
        channel.is_held(before),
        direction == 0 || direction == 1,
        super::close::channel_closes(before, after, channel, release, released, closed),
    ensures
        crate::queue::lifecycle::route_closed(
            after.lifecycle,
            super::role::route_spec(direction, sender),
        ),
{
    let owner = channel.owner_spec();
    let first = super::role::route_spec(0, owner);
    let second = super::role::route_spec(1, owner);
    let begun = super::close::senders_closing(before.lifecycle);
    let field: u32 = super::role::route_spec(direction, sender).send_field;
    assert(field == 0 || field == 4);
    lemma_senders_closing(before.lifecycle);
    let (middle, half, left) = choose|middle: u8, half: R, left: Result<(), CloseError<Token<H>>>|
        {
            &&& #[trigger] super::close::emptied(
                before.left@,
                after.left@,
                begun,
                middle,
                first,
                release,
                half,
                left,
            )
            &&& match left {
                Err(error) => after.lifecycle == middle,
                Ok(()) => exists|late: u8, right: Result<(), CloseError<Token<H>>>|
                    {
                        &&& #[trigger] super::close::emptied(
                            before.right@,
                            after.right@,
                            middle,
                            late,
                            second,
                            half,
                            released,
                            right,
                        )
                        &&& match right {
                            Err(error) => after.lifecycle == late,
                            Ok(()) => super::close::receivers_end(
                                after,
                                late,
                                after.lifecycle,
                                owner,
                                closed,
                            ),
                        }
                    },
            }
        };
    lemma_emptied_fields(
        before.left@,
        after.left@,
        begun,
        middle,
        first,
        release,
        half,
        left,
        field,
    );
    if left is Ok {
        let (late, right) = choose|late: u8, right: Result<(), CloseError<Token<H>>>|
            {
                &&& #[trigger] super::close::emptied(
                    before.right@,
                    after.right@,
                    middle,
                    late,
                    second,
                    half,
                    released,
                    right,
                )
                &&& match right {
                    Err(error) => after.lifecycle == late,
                    Ok(()) => super::close::receivers_end(
                        after,
                        late,
                        after.lifecycle,
                        owner,
                        closed,
                    ),
                }
            };
        lemma_emptied_fields(
            before.right@,
            after.right@,
            middle,
            late,
            second,
            half,
            released,
            right,
            field,
        );
        if right is Ok {
            lemma_receivers_fields(after, late, after.lifecycle, owner, closed, field);
        }
    }
}

proof fn lemma_receivers_fields<H: Repr>(
    duplex: Duplex<H>,
    late: u8,
    after: u8,
    owner: u8,
    closed: Result<(), CloseError<Token<H>>>,
    field: u32,
)
    requires
        crate::queue::lifecycle::is_field(field),
        super::close::receivers_end(duplex, late, after, owner, closed),
    ensures
        crate::queue::lifecycle::field_of(late, field) != 0 ==> crate::queue::lifecycle::field_of(
            after,
            field,
        ) != 0,
{
    let first = super::role::route_spec(0, owner);
    let second = super::role::route_spec(1, owner);
    let (middle, one) = choose|middle: u8, one: bool|
        {
            &&& #[trigger] super::close::receiver_ends(duplex.left@, late, middle, first, one)
            &&& if !one {
                after == middle
            } else {
                super::close::receiver_ends(duplex.right@, middle, after, second, closed is Ok)
            }
        };
    lemma_receiver_fields(duplex.left@, late, middle, first, one, field);
    if one {
        lemma_receiver_fields(duplex.right@, middle, after, second, closed is Ok, field);
    }
}

proof fn lemma_senders_closing(lifecycle: u8)
    ensures
        crate::queue::lifecycle::field_of(super::close::senders_closing(lifecycle), 0) != 0,
        crate::queue::lifecycle::field_of(super::close::senders_closing(lifecycle), 4) != 0,
{
    let state = crate::queue::lifecycle::field_of(lifecycle, 0);
    let first = crate::queue::lifecycle::with_field(
        lifecycle,
        0,
        crate::queue::lifecycle::closing(state),
    ) as u8;
    super::laws::lemma_field_set(lifecycle, 0, crate::queue::lifecycle::closing(state));
    super::laws::lemma_field_set(
        first,
        4,
        crate::queue::lifecycle::closing(crate::queue::lifecycle::field_of(first, 4)),
    );
    assert(crate::queue::lifecycle::is_field(0) && crate::queue::lifecycle::is_field(4));
}

/// An item that cannot be given back ends the draining and comes out of it; what
/// lies behind it stays in the ring.
pub proof fn law_refused_items_come_out<T, R: Release<T>>(
    before: RingView<T>,
    owner: u8,
    release: R,
    after: RingView<T>,
    released: R,
    result: Result<(), CloseError<T>>,
)
    requires
        before.ordered(),
        owner < PARTICIPANT_CAPACITY,
        super::close::drains(before, false, owner, release, after, released, result),
        before.contents().len() > 0,
        before.contents()[0] matches Entry::Item(item) && !release.accepts(item, owner),
    ensures
        before.contents()[0] matches Entry::Item(item) && result == Err::<(), CloseError<T>>(
            CloseError::Evidence(item),
        ),
        after.contents() == before.contents().drop_first(),
{
    let (n, ring, middle) = choose|n: nat, ring: RingView<T>, middle: R|
        #[trigger] super::close::drain_run(
            before,
            false,
            owner,
            n,
            release,
            ring,
            middle,
            after,
            released,
            result,
        );
    lemma_first_waits(before);
    if n > 0 {
        lemma_first_is_given_back(before, owner, n, release, ring, middle);
    }
    crate::queue::lifecycle::law_received_items_come_first(before, owner);
}

/// The first item waits at the head.
proof fn lemma_first_waits<T>(ring: RingView<T>)
    requires
        ring.ordered(),
        ring.contents().len() > 0,
        ring.contents()[0] is Item,
    ensures
        super::close::item_waits(ring),
        ring.contents()[0] == Entry::Item(ring.slots[super::close::first_slot(ring)].value->0),
{
    crate::queue::order::law_first_entry(ring);
}

/// Whatever is drained, the first item is given back first.
proof fn lemma_first_is_given_back<T, R: Release<T>>(
    before: RingView<T>,
    owner: u8,
    n: nat,
    release: R,
    after: RingView<T>,
    released: R,
)
    requires
        n > 0,
        super::close::drained(before, owner, n, release, after, released),
    ensures
        release.accepts(before.slots[super::close::first_slot(before)].value->0, owner),
    decreases n,
{
    let (ring, middle) = choose|ring: RingView<T>, middle: R|
        {
            &&& super::close::drained(before, owner, (n - 1) as nat, release, ring, middle)
            &&& #[trigger] super::close::drain_step(ring, owner, middle, after, released)
        };
    if n > 1 {
        lemma_first_is_given_back(before, owner, (n - 1) as nat, release, ring, middle);
    }
}

/// Nobody holds a turn of a ring, and it holds nothing.
pub open spec fn at_rest<T>(ring: RingView<T>) -> bool {
    &&& ring.ordered()
    &&& ring.contents().len() == 0
    &&& forall|i: int|
        0 <= i < ring.slots.len() ==> {
            let side = crate::queue::control::base_of((#[trigger] ring.slots[i]).control);
            side != crate::queue::control::PRODUCER && side != crate::queue::control::CONSUMER
        }
}

/// A ring that holds nothing is drained as it is.
proof fn lemma_at_rest_drains<T, R: Release<T>>(
    before: RingView<T>,
    owner: u8,
    release: R,
    after: RingView<T>,
    released: R,
    result: Result<(), CloseError<T>>,
)
    requires
        at_rest(before),
        owner < PARTICIPANT_CAPACITY,
        super::close::drains(before, false, owner, release, after, released, result),
    ensures
        result is Ok,
        after == before,
        released == release,
        after.head == after.tail,
{
    let (n, ring, middle) = choose|n: nat, ring: RingView<T>, middle: R|
        #[trigger] super::close::drain_run(
            before,
            false,
            owner,
            n,
            release,
            ring,
            middle,
            after,
            released,
            result,
        );
    super::draining::law_draining_takes_the_first_items(before, owner, n, release, ring, middle);
    crate::queue::order::law_empty_between_equal_cursors(before);
    if before.is_available(before.head) {
        crate::queue::order::lemma_next_free(before);
    }
}

/// A direction at rest is emptied at once, as long as it is closing for its sender
/// alone; only that field changes.
proof fn lemma_at_rest_emptied<T, R: Release<T>>(
    before: RingView<T>,
    after: RingView<T>,
    lifecycle: u8,
    lifecycle_after: u8,
    route: Route,
    release: R,
    released: R,
    result: Result<(), CloseError<T>>,
)
    requires
        at_rest(before),
        route.wf(),
        crate::queue::lifecycle::field_of(lifecycle, route.send_field) == 1,
        crate::queue::lifecycle::field_of(lifecycle, route.recv_field) == 0,
        super::close::emptied(
            before,
            after,
            lifecycle,
            lifecycle_after,
            route,
            release,
            released,
            result,
        ),
    ensures
        result is Ok,
        after == before,
        forall|other: u32| #[trigger]
            crate::queue::lifecycle::is_field(other) ==> crate::queue::lifecycle::field_of(
                lifecycle_after,
                other,
            ) == (if other == route.send_field {
                3
            } else {
                crate::queue::lifecycle::field_of(lifecycle, other)
            }),
{
    let all = choose|all: Result<(), CloseError<T>>|
        #[trigger] super::close::drains(
            before,
            false,
            route.owner,
            release,
            after,
            released,
            all,
        ) && match all {
            Err(error) => result == Err::<(), CloseError<T>>(error) && lifecycle_after == lifecycle,
            Ok(()) => {
                let sender = crate::queue::lifecycle::sender_done(lifecycle, route, after.slots);
                &&& lifecycle_after == crate::queue::lifecycle::looked_at(
                    lifecycle,
                    route.send_field,
                    sender,
                )
                &&& result == (if sender && after.head == after.tail {
                    Ok::<(), CloseError<T>>(())
                } else {
                    Err::<(), CloseError<T>>(CloseError::Busy)
                })
            },
        };
    lemma_at_rest_drains(before, route.owner, release, after, released, all);
    super::laws::lemma_field_set(lifecycle, route.send_field, 3);
}

/// A receiver at rest is closed at once.
proof fn lemma_at_rest_receiver<T>(
    ring: RingView<T>,
    lifecycle: u8,
    after: u8,
    route: Route,
    ended: bool,
)
    requires
        at_rest(ring),
        crate::queue::lifecycle::is_field(route.recv_field),
        crate::queue::lifecycle::field_of(lifecycle, route.recv_field) == 0,
        super::close::receiver_ends(ring, lifecycle, after, route, ended),
    ensures
        ended,
        forall|other: u32| #[trigger]
            crate::queue::lifecycle::is_field(other) && other != route.recv_field
                ==> crate::queue::lifecycle::field_of(after, other)
                == crate::queue::lifecycle::field_of(lifecycle, other),
{
    super::laws::lemma_field_set(
        lifecycle,
        route.recv_field,
        crate::queue::lifecycle::closing(0),
    );
    super::laws::lemma_field_set(
        super::close::receiver_closing(lifecycle, route),
        route.recv_field,
        3,
    );
}

/// The holder of a role can close a channel that is open and at rest: nothing lies
/// in it, and nobody is in the middle of a turn.
pub proof fn law_channels_at_rest_can_be_closed<H: Repr, R: Release<Token<H>>>(
    before: Duplex<H>,
    after: Duplex<H>,
    channel: Channel<H>,
    release: R,
    released: R,
    closed: Result<(), CloseError<Token<H>>>,
)
    requires
        channel.wf(),
        channel.is_held(before),
        before.lifecycle == 0,
        at_rest(before.left@),
        at_rest(before.right@),
        super::close::channel_closes(before, after, channel, release, released, closed),
    ensures
        closed is Ok,
{
    let owner = channel.owner_spec();
    let first = super::role::route_spec(0, owner);
    let second = super::role::route_spec(1, owner);
    let begun = super::close::senders_closing(before.lifecycle);
    let one = crate::queue::lifecycle::with_field(0, 0, crate::queue::lifecycle::closing(0)) as u8;
    super::laws::lemma_field_set(0, 0, crate::queue::lifecycle::closing(0));
    super::laws::lemma_field_set(one, 4, crate::queue::lifecycle::closing(0));
    assert(crate::queue::lifecycle::is_field(0) && crate::queue::lifecycle::is_field(2)
        && crate::queue::lifecycle::is_field(4) && crate::queue::lifecycle::is_field(6));
    let (middle, half, left) = choose|middle: u8, half: R, left: Result<(), CloseError<Token<H>>>|
        {
            &&& #[trigger] super::close::emptied(
                before.left@,
                after.left@,
                begun,
                middle,
                first,
                release,
                half,
                left,
            )
            &&& left is Ok ==> exists|late: u8, right: Result<(), CloseError<Token<H>>>|
                {
                    &&& #[trigger] super::close::emptied(
                        before.right@,
                        after.right@,
                        middle,
                        late,
                        second,
                        half,
                        released,
                        right,
                    )
                    &&& right is Ok ==> super::close::receivers_end(
                        after,
                        late,
                        after.lifecycle,
                        owner,
                        closed,
                    )
                }
        };
    lemma_at_rest_emptied(
        before.left@,
        after.left@,
        begun,
        middle,
        first,
        release,
        half,
        left,
    );
    let (late, right) = choose|late: u8, right: Result<(), CloseError<Token<H>>>|
        {
            &&& #[trigger] super::close::emptied(
                before.right@,
                after.right@,
                middle,
                late,
                second,
                half,
                released,
                right,
            )
            &&& right is Ok ==> super::close::receivers_end(
                after,
                late,
                after.lifecycle,
                owner,
                closed,
            )
        };
    lemma_at_rest_emptied(
        before.right@,
        after.right@,
        middle,
        late,
        second,
        half,
        released,
        right,
    );
    let (last, ended) = choose|last: u8, ended: bool|
        {
            &&& #[trigger] super::close::receiver_ends(after.left@, late, last, first, ended)
            &&& ended ==> super::close::receiver_ends(
                after.right@,
                last,
                after.lifecycle,
                second,
                closed is Ok,
            )
        };
    lemma_at_rest_receiver(after.left@, late, last, first, ended);
    lemma_at_rest_receiver(after.right@, last, after.lifecycle, second, closed is Ok);
}

/// A ring counts as drained only where nothing is left in it; a direction that is
/// closed for receiving is not drained at all. A turn that was given up is passed,
/// and the draining is to be tried again.
pub proof fn law_drained_rings_are_empty<T, R: Release<T>>(
    before: RingView<T>,
    closed: bool,
    owner: u8,
    release: R,
    after: RingView<T>,
    released: R,
    result: Result<(), CloseError<T>>,
)
    requires
        before.ordered(),
        owner < PARTICIPANT_CAPACITY,
        super::close::drains(before, closed, owner, release, after, released, result),
    ensures
        result is Ok ==> !closed && after.head == after.tail && after.contents().len() == 0,
        closed ==> result == Err::<(), CloseError<T>>(CloseError::Busy) && after == before
            && released == release,
        !closed && before.contents().len() > 0 && before.contents()[0] is Skip ==> result == Err::<
            (),
            CloseError<T>,
        >(CloseError::Busy) && after.contents() == before.contents().drop_first(),
{
    let (n, ring, middle) = choose|n: nat, ring: RingView<T>, middle: R|
        #[trigger] super::close::drain_run(
            before,
            closed,
            owner,
            n,
            release,
            ring,
            middle,
            after,
            released,
            result,
        );
    super::draining::law_draining_takes_the_first_items(before, owner, n, release, ring, middle);
    if result is Ok {
        crate::queue::order::law_empty_between_equal_cursors(ring);
    }
    if !closed && before.contents().len() > 0 && before.contents()[0] is Skip {
        assert(n == 0) by {
            if n > 0 {
                assert(before.contents()[0] is Item);
            }
        }
        crate::queue::order::law_first_entry(before);
        crate::queue::lifecycle::law_received_items_come_first(before, owner);
    }
}

} // verus!
