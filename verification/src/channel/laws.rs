//! What holds of sending, receiving and closing as a whole.

use super::duplex::Duplex;
use super::transfer::{AdoptError, Received, Rx, TransferReserved, TransferStaged, Tx};
use super::role::Channel;
use super::{CloseError, Info, InviteError, Port, ReceiveError, RoleAdmitError};
use crate::mem::Region;
use crate::msg::Repr;
use crate::plain::Plain;
use crate::pool::block::{Block, PoolRef, Transfer};
use crate::pool::storage::StorageView;
use crate::queue::lifecycle::{Route, TrySendError};
use crate::queue::repair::Release;
use crate::queue::ring::RingView;
use crate::token::{Shape, Token};
use vstd::prelude::*;

verus! {

/// A block that was sent stands behind all that were sent before it, in its own
/// direction, and the other direction is as it was.
pub proof fn law_sent_blocks_queue_up<H: Repr>(
    tx: Tx<H>,
    before: Duplex<H>,
    after: Duplex<H>,
    storage: StorageView,
    storage_after: StorageView,
    value: Transfer<H>,
)
    requires
        tx.wf(),
        before.ring(tx.direction_spec()).ordered(),
        super::transfer::sends(
            tx,
            before,
            after,
            storage,
            storage_after,
            value,
            Ok::<(), TrySendError<Transfer<H>>>(()),
        ),
    ensures
        after.ring(tx.direction_spec()).ordered(),
        after.ring(tx.direction_spec()).contents() == before.ring(
            tx.direction_spec(),
        ).contents().push(crate::queue::order::Entry::Item(value.token_spec())),
        after.ring(1 - tx.direction_spec()) == before.ring(1 - tx.direction_spec()),
{
    crate::queue::lifecycle::law_sent_items_queue_up(
        before.ring(tx.direction_spec()),
        tx.owner_spec(),
        value.token_spec(),
    );
}

/// The first block that was sent and not received is the one that is received,
/// where its direction is open; once it is adopted the rest moves up.
pub proof fn law_the_first_block_is_received<H: Repr>(
    rx: Rx<H>,
    before: Duplex<H>,
    after: Duplex<H>,
    claimed: Result<Received<H>, ReceiveError>,
    token: crate::token::Token<H>,
)
    requires
        rx.wf(),
        before.ring(rx.direction_spec()).ordered(),
        before.ring(rx.direction_spec()).contents().len() > 0,
        before.ring(rx.direction_spec()).contents()[0] == crate::queue::order::Entry::Item(token),
        !rx.is_closed(before),
        super::transfer::claims(rx, before, after, claimed),
    ensures
        claimed matches Ok(received) && {
            &&& received.wf(after)
            &&& received.token(after) == token
            &&& received.direction_spec() == rx.direction_spec()
            &&& forall|end: Duplex<H>| #[trigger]
                received.finished(after, end) ==> {
                    &&& end.ring(rx.direction_spec()).ordered()
                    &&& end.ring(rx.direction_spec()).contents() == before.ring(
                        rx.direction_spec(),
                    ).contents().drop_first()
                }
        },
{
    let ring = before.ring(rx.direction_spec());
    crate::queue::order::law_first_entry(ring);
    crate::queue::lifecycle::law_received_items_come_first(ring, rx.owner_spec());
    let head = ring.head;
    let i = ring.index(head);
    crate::queue::control::law_control_round_trips(
        crate::queue::control::AVAILABLE,
        true,
        0,
        0,
    );
    assert(crate::queue::control::complete_of(ring.slots[i].control));
    assert(claimed is Ok);
}

/// A block that goes through an empty direction: it is sent, received and
/// adopted.
pub open spec fn passes<H: Repr, T: Repr + Shape + ?Sized>(
    ends: (Tx<H>, Rx<H>),
    rings: (Duplex<H>, Duplex<H>, Duplex<H>, Duplex<H>),
    pools: (StorageView, StorageView, StorageView),
    block: Block<T>,
    header: H,
    transfer: Transfer<H>,
    pool: PoolRef,
    claimed: Result<Received<H>, ReceiveError>,
    adopted: Result<(H, Block<T>), AdoptError<H>>,
) -> bool {
    let (tx, rx) = ends;
    let (start, published, held, end) = rings;
    let (before, between, after) = pools;
    let d = tx.direction_spec();
    &&& tx.wf() && rx.wf() && rx.direction_spec() == d
    &&& start.ring(d).ordered() && start.ring(d).contents().len() == 0
    &&& !rx.is_closed(start)
    &&& before.wf()
    &&& crate::pool::laws::fits(block, before)
    &&& transfer.allocation_spec() == block.allocation_spec()
    &&& block.locates(transfer.token_spec(), header)
    &&& pool.wf() && pool.id == block.allocation_spec().pool_spec()
    &&& super::transfer::sends(
        tx,
        start,
        published,
        before,
        between,
        transfer,
        Ok::<(), TrySendError<Transfer<H>>>(()),
    )
    &&& super::transfer::claims(rx, published, held, claimed)
    &&& claimed matches Ok(received) ==> super::transfer::adopts::<H, T>(
        received,
        held,
        end,
        between,
        after,
        pool,
        adopted,
    )
}

/// What one role sends the other receives: the block is received and adopted, its
/// header, its shape and its bytes are those that were sent, and the direction is
/// empty again.
pub proof fn law_transfers_arrive<H: Repr, T: Repr + Shape + ?Sized>(
    ends: (Tx<H>, Rx<H>),
    rings: (Duplex<H>, Duplex<H>, Duplex<H>, Duplex<H>),
    pools: (StorageView, StorageView, StorageView),
    block: Block<T>,
    header: H,
    transfer: Transfer<H>,
    pool: PoolRef,
    claimed: Result<Received<H>, ReceiveError>,
    adopted: Result<(H, Block<T>), AdoptError<H>>,
)
    requires
        passes(ends, rings, pools, block, header, transfer, pool, claimed, adopted),
    ensures
        claimed is Ok,
        adopted matches Ok((received, got)) && {
            &&& received == header
            &&& got.shape() == block.shape()
            &&& got.bytes(pools.2) == block.bytes(pools.0)
        },
        rings.3.ring(ends.0.direction_spec()).ordered(),
        rings.3.ring(ends.0.direction_spec()).contents().len() == 0,
{
    let (tx, rx) = ends;
    let (start, published, held, end) = rings;
    let (before, between, after) = pools;
    let d = tx.direction_spec();
    let token = transfer.token_spec();
    law_sent_blocks_queue_up(tx, start, published, before, between, transfer);
    assert(published.ring(d).contents()[0] == crate::queue::order::Entry::Item(token));
    law_the_first_block_is_received(rx, published, held, claimed, token);
    let received = claimed->Ok_0;
    assert(received.token(held) == token);
    crate::pool::laws::lemma_sent_blocks_are_accepted::<H, T>(before, block, token, header);
    assert(received.finished(held, end));
}

/// The value that was sent is the value that arrives.
pub proof fn law_values_arrive<H: Repr, T: Plain>(
    ends: (Tx<H>, Rx<H>),
    rings: (Duplex<H>, Duplex<H>, Duplex<H>, Duplex<H>),
    pools: (StorageView, StorageView, StorageView),
    block: Block<T>,
    header: H,
    transfer: Transfer<H>,
    pool: PoolRef,
    claimed: Result<Received<H>, ReceiveError>,
    adopted: Result<(H, Block<T>), AdoptError<H>>,
)
    requires
        passes(ends, rings, pools, block, header, transfer, pool, claimed, adopted),
    ensures
        adopted matches Ok((received, got)) && received == header && got.value(pools.2)
            == block.value(pools.0),
{
    law_transfers_arrive(ends, rings, pools, block, header, transfer, pool, claimed, adopted);
}

/// The values of a slice that was sent are those that arrive, in their order.
pub proof fn law_slices_arrive<H: Repr, T: Plain>(
    ends: (Tx<H>, Rx<H>),
    rings: (Duplex<H>, Duplex<H>, Duplex<H>, Duplex<H>),
    pools: (StorageView, StorageView, StorageView),
    block: Block<[T]>,
    header: H,
    transfer: Transfer<H>,
    pool: PoolRef,
    claimed: Result<Received<H>, ReceiveError>,
    adopted: Result<(H, Block<[T]>), AdoptError<H>>,
)
    requires
        passes(ends, rings, pools, block, header, transfer, pool, claimed, adopted),
    ensures
        adopted matches Ok((received, got)) && received == header && got.values(pools.2)
            == block.values(pools.0),
{
    law_transfers_arrive(ends, rings, pools, block, header, transfer, pool, claimed, adopted);
}

/// The four fields of a byte in which one of them was set.
pub(crate) proof fn lemma_field_set(lifecycle: u8, field: u32, value: int)
    requires
        crate::queue::lifecycle::is_field(field),
        0 <= value < 4,
    ensures
        forall|other: u32| #[trigger]
            crate::queue::lifecycle::is_field(other) ==> crate::queue::lifecycle::field_of(
                crate::queue::lifecycle::with_field(lifecycle, field, value) as u8,
                other,
            ) == (if other == field {
                value
            } else {
                crate::queue::lifecycle::field_of(lifecycle, other)
            }),
{
    crate::queue::lifecycle::law_fields_are_independent(lifecycle, field, 0, value);
    crate::queue::lifecycle::law_fields_are_independent(lifecycle, field, 2, value);
    crate::queue::lifecycle::law_fields_are_independent(lifecycle, field, 4, value);
    crate::queue::lifecycle::law_fields_are_independent(lifecycle, field, 6, value);
}

/// A direction that was emptied holds nothing, and its sender is done.
proof fn lemma_emptied<T, R: Release<T>>(
    before: RingView<T>,
    after: RingView<T>,
    lifecycle: u8,
    lifecycle_after: u8,
    route: Route,
    release: R,
    released: R,
)
    requires
        super::close::emptied(
            before,
            after,
            lifecycle,
            lifecycle_after,
            route,
            release,
            released,
            Ok::<(), CloseError<T>>(()),
        ),
    ensures
        after.head == after.tail,
        lifecycle_after == crate::queue::lifecycle::with_field(
            lifecycle,
            route.send_field,
            3,
        ) as u8,
{
}

/// Closing a receiver ends its field, and leaves the others.
proof fn lemma_receiver_ended<T>(ring: RingView<T>, lifecycle: u8, after: u8, route: Route)
    requires
        crate::queue::lifecycle::is_field(route.recv_field),
        super::close::receiver_ends(ring, lifecycle, after, route, true),
    ensures
        forall|other: u32| #[trigger]
            crate::queue::lifecycle::is_field(other) ==> crate::queue::lifecycle::field_of(
                after,
                other,
            ) == (if other == route.recv_field {
                3
            } else {
                crate::queue::lifecycle::field_of(lifecycle, other)
            }),
{
    let state = crate::queue::lifecycle::field_of(lifecycle, route.recv_field);
    lemma_field_set(lifecycle, route.recv_field, crate::queue::lifecycle::closing(state));
    lemma_field_set(super::close::receiver_closing(lifecycle, route), route.recv_field, 3);
}

proof fn lemma_all_closed(lifecycle: u8)
    requires
        crate::queue::lifecycle::field_of(lifecycle, 0) == 3,
        crate::queue::lifecycle::field_of(lifecycle, 2) == 3,
        crate::queue::lifecycle::field_of(lifecycle, 4) == 3,
        crate::queue::lifecycle::field_of(lifecycle, 6) == 3,
    ensures
        lifecycle == 255,
{
    let l = lifecycle as int;
    assert(l == l % 4 + 4 * ((l / 4) % 4) + 16 * ((l / 16) % 4) + 64 * ((l / 64) % 4));
}

/// Closing both receivers ends the fields of both, and leaves the others.
proof fn lemma_receivers_ended<H: Repr>(duplex: Duplex<H>, late: u8, after: u8, owner: u8)
    requires
        super::close::receivers_end(duplex, late, after, owner, Ok::<(), CloseError<Token<H>>>(())),
        crate::queue::lifecycle::field_of(late, 0) == 3,
        crate::queue::lifecycle::field_of(late, 4) == 3,
    ensures
        after == 255,
{
    let first = super::role::route_spec(0, owner);
    let second = super::role::route_spec(1, owner);
    let (last, one) = choose|last: u8, one: bool|
        {
            &&& #[trigger] super::close::receiver_ends(duplex.left@, late, last, first, one)
            &&& one
            &&& super::close::receiver_ends(duplex.right@, last, after, second, true)
        };
    lemma_receiver_ended(duplex.left@, late, last, first);
    lemma_receiver_ended(duplex.right@, last, after, second);
    assert(crate::queue::lifecycle::is_field(0) && crate::queue::lifecycle::is_field(2));
    assert(crate::queue::lifecycle::is_field(4) && crate::queue::lifecycle::is_field(6));
    lemma_all_closed(after);
}

/// A channel that its holder closed is empty in both directions, nobody can send
/// or receive in it any more, and the role is not held again.
pub proof fn law_closed_channels_are_drained<H: Repr, R: Release<Token<H>>>(
    before: Duplex<H>,
    after: Duplex<H>,
    channel: Channel<H>,
    release: R,
    released: R,
)
    requires
        channel.wf(),
        channel.is_held(before),
        after.ordered(),
        super::close::channel_closes(
            before,
            after,
            channel,
            release,
            released,
            Ok::<(), CloseError<Token<H>>>(()),
        ),
    ensures
        after.left@.contents().len() == 0,
        after.right@.contents().len() == 0,
        after.lifecycle == 255,
        super::role_terminal(after.role(channel.index_spec())),
        super::role_owner(after.role(channel.index_spec())) is None,
{
    let owner = channel.owner_spec();
    let first = super::role::route_spec(0, owner);
    let second = super::role::route_spec(1, owner);
    let begun = super::close::senders_closing(before.lifecycle);
    let (middle, half, left) = choose|middle: u8, half: R, left: Result<(), CloseError<Token<H>>>|
        {
            &&& #[trigger] super::close::emptied(
                before.left@,
                after.left@,
                begun,
                middle,
                first,
                release,
                half,
                left,
            )
            &&& left is Ok
            &&& second_closes(before, after, middle, owner, half, released)
        };
    assert(left == Ok::<(), CloseError<Token<H>>>(()));
    lemma_emptied(before.left@, after.left@, begun, middle, first, release, half);
    let (late, right) = choose|late: u8, right: Result<(), CloseError<Token<H>>>|
        {
            &&& #[trigger] super::close::emptied(
                before.right@,
                after.right@,
                middle,
                late,
                second,
                half,
                released,
                right,
            )
            &&& right is Ok
            &&& super::close::receivers_end(
                after,
                late,
                after.lifecycle,
                owner,
                Ok::<(), CloseError<Token<H>>>(()),
            )
        };
    assert(right == Ok::<(), CloseError<Token<H>>>(()));
    lemma_emptied(before.right@, after.right@, middle, late, second, half, released);
    lemma_field_set(begun, 0, 3);
    lemma_field_set(middle, 4, 3);
    assert(crate::queue::lifecycle::is_field(0) && crate::queue::lifecycle::is_field(4));
    lemma_receivers_ended(after, late, after.lifecycle, owner);
    crate::queue::order::law_empty_between_equal_cursors(after.left@);
    crate::queue::order::law_empty_between_equal_cursors(after.right@);
    super::law_role_word_round_trips(channel.generation_spec(), None, true);
}

/// The second direction is emptied, and both receivers are closed.
spec fn second_closes<H: Repr, R: Release<Token<H>>>(
    before: Duplex<H>,
    after: Duplex<H>,
    middle: u8,
    owner: u8,
    half: R,
    released: R,
) -> bool {
    exists|late: u8, right: Result<(), CloseError<Token<H>>>|
        {
            &&& #[trigger] super::close::emptied(
                before.right@,
                after.right@,
                middle,
                late,
                super::role::route_spec(1, owner),
                half,
                released,
                right,
            )
            &&& right is Ok
            &&& super::close::receivers_end(
                after,
                late,
                after.lifecycle,
                owner,
                Ok::<(), CloseError<Token<H>>>(()),
            )
        }
}

/// An invitation gives its role once: whoever comes with it while the role is
/// held is refused, and leaves the channel as it was.
pub proof fn law_a_port_gives_its_role_once<H: Repr>(
    before: Duplex<H>,
    middle: Duplex<H>,
    after: Duplex<H>,
    info: Info,
    region: Region,
    other: Region,
    offset: u64,
    port: Port<H>,
    channel: Channel<H>,
    again: Port<H>,
    adopted: Result<Channel<H>, RoleAdmitError>,
)
    requires
        region.wf(),
        again.role_spec() == port.role_spec(),
        again.generation_spec() == port.generation_spec(),
        super::role::role_adopts(
            before,
            middle,
            info,
            region,
            offset,
            port,
            Ok::<Channel<H>, RoleAdmitError>(channel),
        ),
        super::role::role_adopts(middle, after, info, other, offset, again, adopted),
    ensures
        after == middle,
        adopted == Err::<Channel<H>, RoleAdmitError>(
            if super::role::lies_in(info, other, offset, middle) {
                RoleAdmitError::Occupied
            } else {
                RoleAdmitError::Open
            },
        ),
{
    let generation = port.generation_spec();
    super::law_role_word_round_trips(generation, Some(region.member.slot), false);
    super::law_role_word_round_trips(generation, None, false);
}

/// A new invitation to a role outdates every earlier one: whoever comes with an
/// earlier one is refused, and leaves the channel as it was.
pub proof fn law_invitations_outdate_earlier_ones<H: Repr>(
    before: Duplex<H>,
    middle: Duplex<H>,
    after: Duplex<H>,
    channel: Channel<H>,
    port: Port<H>,
    earlier: Port<H>,
    info: Info,
    region: Region,
    offset: u64,
    adopted: Result<Channel<H>, RoleAdmitError>,
)
    requires
        super::role::invites(channel, before, middle, Ok::<Port<H>, InviteError>(port)),
        earlier.role_spec() == port.role_spec(),
        earlier.generation_spec() <= super::role_generation(before.role(port.role_spec() as int)),
        super::role::role_adopts(middle, after, info, region, offset, earlier, adopted),
    ensures
        earlier.generation_spec() < port.generation_spec(),
        after == middle,
        adopted == Err::<Channel<H>, RoleAdmitError>(
            if super::role::lies_in(info, region, offset, middle) && port.role_spec() < 2 {
                RoleAdmitError::Stale
            } else {
                RoleAdmitError::Open
            },
        ),
{
    super::law_role_word_is_its_parts(before.role(port.role_spec() as int));
    super::law_role_word_round_trips(port.generation_spec(), None, false);
    super::law_role_word_round_trips(earlier.generation_spec(), None, false);
}

/// A turn without a block is passed by the receiver: nothing is received, and the
/// rest moves up.
pub proof fn law_skips_are_passed_over<H: Repr>(
    rx: Rx<H>,
    before: Duplex<H>,
    after: Duplex<H>,
    claimed: Result<Received<H>, ReceiveError>,
)
    requires
        rx.wf(),
        before.ring(rx.direction_spec()).ordered(),
        before.ring(rx.direction_spec()).contents().len() > 0,
        before.ring(rx.direction_spec()).contents()[0] == crate::queue::order::Entry::<
            Token<H>,
        >::Skip,
        !rx.is_closed(before),
        super::transfer::claims(rx, before, after, claimed),
    ensures
        claimed == Err::<Received<H>, ReceiveError>(ReceiveError::Busy),
        after.ring(rx.direction_spec()).ordered(),
        after.ring(rx.direction_spec()).contents() == before.ring(
            rx.direction_spec(),
        ).contents().drop_first(),
{
    let ring = before.ring(rx.direction_spec());
    crate::queue::order::law_first_entry(ring);
    let i = ring.index(ring.head);
    assert(ring.entry(0) == ring.contents()[0]);
    assert(ring.slots[i].control == crate::queue::control::AVAILABLE);
    crate::queue::lifecycle::law_received_items_come_first(ring, rx.owner_spec());
    crate::queue::control::law_control_round_trips(
        crate::queue::control::AVAILABLE,
        false,
        0,
        0,
    );
    assert(!crate::queue::control::complete_of(ring.slots[i].control));
}

/// A transfer that was staged and cancelled comes back as it was given: the same
/// block, the same token and the same header. Its turn is a skip; every other turn
/// holds what it held, and a receiver that comes to the turn passes it and
/// receives nothing.
pub proof fn law_cancelled_turns_are_passed_over<H: Repr>(
    reserved: TransferReserved<H>,
    staged: TransferStaged<H>,
    given: Transfer<H>,
    returned: Transfer<H>,
    before: Duplex<H>,
    middle: Duplex<H>,
    cancelled: Duplex<H>,
    rx: Rx<H>,
    after: Duplex<H>,
    claimed: Result<Received<H>, ReceiveError>,
)
    requires
        0 <= reserved.direction_spec() < 2,
        before.ring(reserved.direction_spec()).ordered(),
        before.ring(reserved.direction_spec()).producing(reserved.index_spec()),
        super::transfer::stages(reserved, before, middle, given, staged),
        super::transfer::cancels(staged, middle, cancelled, returned),
        rx.wf(),
        rx.direction_spec() == reserved.direction_spec(),
        !rx.is_closed(cancelled),
        super::transfer::claims(rx, cancelled, after, claimed),
    ensures
        returned.allocation_spec() == given.allocation_spec(),
        returned.token_spec() == given.token_spec(),
        ({
            let direction = reserved.direction_spec();
            let ring = before.ring(direction);
            let turn = ring.offset(reserved.index_spec());
            &&& 0 <= turn < ring.contents().len()
            &&& cancelled.ring(direction).ordered()
            &&& cancelled.ring(direction).contents() == ring.contents().update(
                turn,
                crate::queue::order::Entry::<Token<H>>::Skip,
            )
            &&& cancelled.ring(1 - direction) == before.ring(1 - direction)
            &&& turn == 0 ==> {
                &&& claimed == Err::<Received<H>, ReceiveError>(ReceiveError::Busy)
                &&& after.ring(direction).contents() == ring.contents().drop_first()
            }
        }),
{
    let direction = reserved.direction_spec();
    let ring = before.ring(direction);
    let i = reserved.index_spec();
    crate::queue::order::law_staging_keeps_order(ring, i, given.token_spec());
    let full = ring.staged(i, given.token_spec());
    assert(full.offset(i) == ring.offset(i));
    crate::queue::order::law_skipping_marks_its_turn(full, i);
    assert(ring.offset(i) >= 0) by {
        crate::queue::order::lemma_offset(ring, i);
    }
    if ring.offset(i) == 0 {
        law_skips_are_passed_over(rx, cancelled, after, claimed);
        assert(ring.contents().update(
            0,
            crate::queue::order::Entry::<Token<H>>::Skip,
        ).drop_first() =~= ring.contents().drop_first());
    }
}

} // verus!
