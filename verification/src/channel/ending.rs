//! What the two ends of a direction find once one of them closes, and what they
//! find while both are open.

use super::duplex::Duplex;
use super::transfer::{Received, Rx, Tx};
use super::ReceiveError;
use crate::msg::Repr;
use crate::pool::block::Transfer;
use crate::pool::storage::StorageView;
use crate::queue::control::{CONSUMER, PRODUCER};
use crate::queue::lifecycle::TrySendError;
use crate::queue::order::Entry;
use crate::queue::ring::RingView;
use vstd::prelude::*;

verus! {

/// The fields of a byte in which one side began to close.
proof fn lemma_closing(lifecycle: u8, field: u32)
    requires
        crate::queue::lifecycle::is_field(field),
    ensures
        forall|other: u32| #[trigger]
            crate::queue::lifecycle::is_field(other) && other != field
                ==> crate::queue::lifecycle::field_of(
                super::transfer::closing_byte(lifecycle, field),
                other,
            ) == crate::queue::lifecycle::field_of(lifecycle, other),
        crate::queue::lifecycle::field_of(super::transfer::closing_byte(lifecycle, field), field)
            == crate::queue::lifecycle::closing(
            crate::queue::lifecycle::field_of(lifecycle, field),
        ),
{
    let value = crate::queue::lifecycle::closing(
        crate::queue::lifecycle::field_of(lifecycle, field),
    );
    crate::queue::lifecycle::law_fields_are_independent(lifecycle, field, 0, value);
    crate::queue::lifecycle::law_fields_are_independent(lifecycle, field, 2, value);
    crate::queue::lifecycle::law_fields_are_independent(lifecycle, field, 4, value);
    crate::queue::lifecycle::law_fields_are_independent(lifecycle, field, 6, value);
}

/// Once the receiver of a direction closes, everything that is sent in it goes
/// back to the sender as disconnected: the block is still the sender's, and the
/// rings and the pool are as they were.
pub proof fn law_closed_receivers_refuse_senders<H: Repr>(
    rx: Rx<H>,
    tx: Tx<H>,
    before: Duplex<H>,
    closed: Duplex<H>,
    after: Duplex<H>,
    storage: StorageView,
    storage_after: StorageView,
    value: Transfer<H>,
    sent: Result<(), TrySendError<Transfer<H>>>,
)
    requires
        rx.wf(),
        tx.wf(),
        tx.direction_spec() == rx.direction_spec(),
        rx.closes(before, closed),
        super::transfer::sends(tx, closed, after, storage, storage_after, value, sent),
    ensures
        sent == Err::<(), TrySendError<Transfer<H>>>(TrySendError::Disconnected(value)),
        storage_after == storage,
        after.ring(0) == before.ring(0),
        after.ring(1) == before.ring(1),
        after.role(0) == before.role(0),
        after.role(1) == before.role(1),
{
    lemma_closing(before.lifecycle, rx.route().recv_field);
}

/// Once the receiver of a direction closes, no turn to send is had in it.
pub proof fn law_refused_once_the_receiver_closed<H: Repr>(
    rx: Rx<H>,
    tx: Tx<H>,
    before: Duplex<H>,
    closed: Duplex<H>,
)
    requires
        rx.wf(),
        tx.wf(),
        tx.direction_spec() == rx.direction_spec(),
        rx.closes(before, closed),
    ensures
        is_refused(tx, closed),
{
    lemma_closing(before.lifecycle, rx.route().recv_field);
}

/// Once the sender of a direction closes, whatever sends in it is refused as
/// disconnected, whoever it is.
pub proof fn law_closed_senders_send_nothing<H: Repr>(
    closer: Tx<H>,
    tx: Tx<H>,
    before: Duplex<H>,
    closed: Duplex<H>,
    after: Duplex<H>,
    storage: StorageView,
    storage_after: StorageView,
    value: Transfer<H>,
    sent: Result<(), TrySendError<Transfer<H>>>,
)
    requires
        closer.wf(),
        tx.wf(),
        tx.direction_spec() == closer.direction_spec(),
        closer.closes(before, closed),
        super::transfer::sends(tx, closed, after, storage, storage_after, value, sent),
    ensures
        sent == Err::<(), TrySendError<Transfer<H>>>(TrySendError::Disconnected(value)),
        storage_after == storage,
        after.ring(0) == before.ring(0),
        after.ring(1) == before.ring(1),
        after.role(0) == before.role(0),
        after.role(1) == before.role(1),
{
    lemma_closing(before.lifecycle, closer.route().send_field);
}

/// Once the receiver of a direction closes, nothing more is received in it, and
/// what lies in it stays there.
pub proof fn law_closed_receivers_receive_nothing<H: Repr>(
    closer: Rx<H>,
    rx: Rx<H>,
    before: Duplex<H>,
    closed: Duplex<H>,
    after: Duplex<H>,
    claimed: Result<Received<H>, ReceiveError>,
)
    requires
        closer.wf(),
        rx.wf(),
        rx.direction_spec() == closer.direction_spec(),
        closer.closes(before, closed),
        super::transfer::claims(rx, closed, after, claimed),
    ensures
        claimed == Err::<Received<H>, ReceiveError>(ReceiveError::Closed),
        after.ring(0) == before.ring(0),
        after.ring(1) == before.ring(1),
        after.lifecycle == closed.lifecycle,
{
    lemma_closing(before.lifecycle, closer.route().recv_field);
}

/// No direction is closed by the closing of the other: whoever sends or receives
/// in the other direction finds what was to be found before.
pub proof fn law_directions_close_alone<H: Repr>(
    closer: Tx<H>,
    other: Rx<H>,
    tx: Tx<H>,
    rx: Rx<H>,
    before: Duplex<H>,
    closed: Duplex<H>,
    deaf: Duplex<H>,
)
    requires
        closer.wf(),
        other.wf(),
        tx.wf(),
        rx.wf(),
        other.direction_spec() == closer.direction_spec(),
        tx.direction_spec() != closer.direction_spec(),
        rx.direction_spec() != closer.direction_spec(),
        closer.closes(before, closed),
        other.closes(before, deaf),
    ensures
        tx.refused(closed) == tx.refused(before),
        tx.refused(deaf) == tx.refused(before),
        rx.is_closed(closed) == rx.is_closed(before),
        rx.is_closed(deaf) == rx.is_closed(before),
        rx.has_ended(closed) == rx.has_ended(before),
        rx.has_ended(deaf) == rx.has_ended(before),
        !other.is_closed(before) ==> !other.is_closed(closed),
{
    lemma_closing(before.lifecycle, closer.route().send_field);
    lemma_closing(before.lifecycle, other.route().recv_field);
    assert(crate::queue::lifecycle::is_field(tx.route().send_field));
    assert(crate::queue::lifecycle::is_field(tx.route().recv_field));
    assert(crate::queue::lifecycle::is_field(other.route().recv_field));
}

/// What is left in a direction is still received after its sender closed, and the
/// receiver learns of the end only when nothing is left: a block that stands
/// first is received, an empty direction in which no sender holds a turn has
/// ended.
pub proof fn law_closed_directions_are_drained_first<H: Repr>(
    tx: Tx<H>,
    rx: Rx<H>,
    before: Duplex<H>,
    closed: Duplex<H>,
    after: Duplex<H>,
    claimed: Result<Received<H>, ReceiveError>,
)
    requires
        tx.wf(),
        rx.wf(),
        rx.direction_spec() == tx.direction_spec(),
        before.lifecycle == 0,
        before.ring(rx.direction_spec()).ordered(),
        tx.closes(before, closed),
        super::transfer::claims(rx, closed, after, claimed),
    ensures
        ({
            let ring = before.ring(rx.direction_spec());
            let contents = ring.contents();
            &&& contents.len() > 0 && contents[0] is Item ==> (claimed matches Ok(
                received,
            ) && Entry::Item(received.token(after)) == contents[0])
            &&& contents.len() > 0 ==> claimed != Err::<Received<H>, ReceiveError>(
                ReceiveError::Closed,
            )
            &&& contents.len() == 0 && idle(ring, PRODUCER) ==> claimed == Err::<
                Received<H>,
                ReceiveError,
            >(ReceiveError::Closed)
        }),
{
    let d = rx.direction_spec();
    let ring = before.ring(d);
    lemma_closing(before.lifecycle, tx.route().send_field);
    lemma_open_fields(before.lifecycle);
    assert(crate::queue::lifecycle::is_field(rx.route().recv_field));
    assert(crate::queue::lifecycle::is_field(rx.route().send_field));
    crate::queue::order::law_first_entry(ring);
    crate::queue::order::law_empty_between_equal_cursors(ring);
    lemma_nothing_available(ring);
    if ring.contents().len() > 0 && ring.contents()[0] is Item {
        super::laws::law_the_first_block_is_received(
            rx,
            closed,
            after,
            claimed,
            ring.contents()[0]->Item_0,
        );
    }
    if ring.contents().len() == 0 && idle(ring, PRODUCER) {
        assert(crate::queue::lifecycle::side_idle(ring.slots, PRODUCER));
    }
}

/// No slot is held on a side.
pub open spec fn idle<T>(ring: RingView<T>, side: u16) -> bool {
    forall|i: int|
        0 <= i < ring.capacity() ==> crate::queue::control::base_of(
            (#[trigger] ring.slots[i]).control,
        ) != side
}

proof fn lemma_open_fields(lifecycle: u8)
    requires
        lifecycle == 0,
    ensures
        forall|field: u32| #[trigger]
            crate::queue::lifecycle::is_field(field) ==> crate::queue::lifecycle::field_of(
                lifecycle,
                field,
            ) == 0,
{
}

/// Nothing is published at the head of a ring that holds nothing.
proof fn lemma_nothing_available<T>(ring: RingView<T>)
    requires
        ring.ordered(),
    ensures
        ring.contents().len() == 0 ==> !ring.is_available(ring.head),
{
    if ring.contents().len() == 0 {
        crate::queue::order::law_first_entry(ring);
        let i = ring.index(ring.head);
        crate::queue::order::lemma_offset(ring, i);
        assert(ring.slot_ok(i));
        crate::queue::control::law_control_round_trips(
            crate::queue::control::AVAILABLE,
            false,
            0,
            0,
        );
        crate::queue::control::law_control_round_trips(
            crate::queue::control::AVAILABLE,
            true,
            0,
            0,
        );
    }
}

/// In a direction whose ends are open, whoever sends where nobody is in the
/// middle of a step is told exactly what the ring calls for: where it holds fewer
/// blocks than its capacity the block is sent, and else it comes back with a
/// ring that is full.
pub proof fn law_open_directions_take_what_fits<H: Repr>(
    tx: Tx<H>,
    before: Duplex<H>,
    after: Duplex<H>,
    storage: StorageView,
    storage_after: StorageView,
    value: Transfer<H>,
    sent: Result<(), TrySendError<Transfer<H>>>,
)
    requires
        tx.wf(),
        before.lifecycle == 0,
        before.ring(tx.direction_spec()).ordered(),
        super::transfer::sends(tx, before, after, storage, storage_after, value, sent),
    ensures
        ({
            let ring = before.ring(tx.direction_spec());
            &&& ring.contents().len() == ring.capacity() ==> sent == Err::<
                (),
                TrySendError<Transfer<H>>,
            >(TrySendError::Full(value))
            &&& sent == Err::<(), TrySendError<Transfer<H>>>(TrySendError::Full(value))
                ==> ring.contents().len() == ring.capacity()
            &&& ring.contents().len() < ring.capacity() && idle(ring, PRODUCER) && idle(
                ring,
                CONSUMER,
            ) ==> sent is Ok
        }),
{
    let ring = before.ring(tx.direction_spec());
    lemma_open_fields(before.lifecycle);
    assert(crate::queue::lifecycle::is_field(tx.route().recv_field));
    assert(crate::queue::lifecycle::is_field(tx.route().send_field));
    crate::queue::order::law_full_at_capacity(ring);
    crate::queue::order::lemma_next_free(ring);
}

/// In a direction whose ends are open and that holds nothing, a receiver finds it
/// empty, and not closed.
pub proof fn law_open_directions_are_not_closed<H: Repr>(
    rx: Rx<H>,
    before: Duplex<H>,
    after: Duplex<H>,
    claimed: Result<Received<H>, ReceiveError>,
)
    requires
        rx.wf(),
        before.lifecycle == 0,
        before.ring(rx.direction_spec()).ordered(),
        super::transfer::claims(rx, before, after, claimed),
    ensures
        claimed != Err::<Received<H>, ReceiveError>(ReceiveError::Closed),
        before.ring(rx.direction_spec()).contents().len() == 0 <==> claimed == Err::<
            Received<H>,
            ReceiveError,
        >(ReceiveError::Empty),
        after.lifecycle == 0,
{
    let ring = before.ring(rx.direction_spec());
    lemma_open_fields(before.lifecycle);
    assert(crate::queue::lifecycle::is_field(rx.route().recv_field));
    assert(crate::queue::lifecycle::is_field(rx.route().send_field));
    crate::queue::order::law_first_entry(ring);
    crate::queue::order::law_empty_between_equal_cursors(ring);
    lemma_nothing_available(ring);
}

/// The byte after a direction was looked at keeps every field that was closing.
proof fn lemma_looked_at<T>(
    lifecycle: u8,
    route: crate::queue::lifecycle::Route,
    slots: Seq<crate::queue::ring::Slot<T>>,
)
    requires
        crate::queue::lifecycle::is_field(route.send_field),
        crate::queue::lifecycle::is_field(route.recv_field),
    ensures
        forall|field: u32| #[trigger]
            crate::queue::lifecycle::is_field(field) ==> (crate::queue::lifecycle::field_of(
                crate::queue::lifecycle::ended_byte(lifecycle, route, slots),
                field,
            ) == 0 <==> crate::queue::lifecycle::field_of(lifecycle, field) == 0),
{
    let receiver = crate::queue::lifecycle::receiver_done(lifecycle, route, slots);
    let next = crate::queue::lifecycle::looked_at(lifecycle, route.recv_field, receiver);
    crate::queue::lifecycle::law_fields_are_independent(lifecycle, route.recv_field, 0, 3);
    crate::queue::lifecycle::law_fields_are_independent(lifecycle, route.recv_field, 2, 3);
    crate::queue::lifecycle::law_fields_are_independent(lifecycle, route.recv_field, 4, 3);
    crate::queue::lifecycle::law_fields_are_independent(lifecycle, route.recv_field, 6, 3);
    crate::queue::lifecycle::law_fields_are_independent(next, route.send_field, 0, 3);
    crate::queue::lifecycle::law_fields_are_independent(next, route.send_field, 2, 3);
    crate::queue::lifecycle::law_fields_are_independent(next, route.send_field, 4, 3);
    crate::queue::lifecycle::law_fields_are_independent(next, route.send_field, 6, 3);
}

/// Closing is for good, and receiving closes nothing: whether an end is closed is
/// the same before and after a claim in either direction, and no closing of an
/// end opens another.
pub proof fn law_ends_do_not_open_again<H: Repr>(
    tx: Tx<H>,
    rx: Rx<H>,
    before: Duplex<H>,
    other: Rx<H>,
    after_claim: Duplex<H>,
    claimed: Result<Received<H>, ReceiveError>,
    closing_tx: Tx<H>,
    after_tx: Duplex<H>,
    closing_rx: Rx<H>,
    after_rx: Duplex<H>,
)
    requires
        tx.wf(),
        rx.wf(),
        other.wf(),
        closing_tx.wf(),
        closing_rx.wf(),
        super::transfer::claims(other, before, after_claim, claimed),
        closing_tx.closes(before, after_tx),
        closing_rx.closes(before, after_rx),
    ensures
        is_refused(tx, after_claim) == is_refused(tx, before),
        rx.is_closed(after_claim) == rx.is_closed(before),
        is_refused(tx, before) ==> is_refused(tx, after_tx) && is_refused(tx, after_rx),
        rx.is_closed(before) ==> rx.is_closed(after_tx) && rx.is_closed(after_rx),
{
    lemma_closing(before.lifecycle, closing_tx.route().send_field);
    lemma_closing(before.lifecycle, closing_rx.route().recv_field);
    lemma_looked_at(
        before.lifecycle,
        other.route(),
        before.ring(other.direction_spec()).slots,
    );
    assert(crate::queue::lifecycle::is_field(tx.route().recv_field));
    assert(crate::queue::lifecycle::is_field(tx.route().send_field));
    assert(crate::queue::lifecycle::is_field(rx.route().recv_field));
}

/// What is sent is refused as disconnected.
pub open spec fn is_refused<H: Repr>(tx: Tx<H>, duplex: Duplex<H>) -> bool {
    tx.refused(duplex) == Some(crate::queue::ring::ReserveError::Closed)
}

} // verus!
