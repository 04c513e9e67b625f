//! What holds of how a channel is laid out, of how it begins, and of what a
//! refused step gives back.

use super::duplex::{Duplex, GeometryError};
use super::transfer::Tx;
use super::{Info, RoleAdmitError, RoleWord, ROLE_MAX_GENERATION};
use crate::extent::Extent;
use crate::mem::Region;
use crate::msg::Repr;
use crate::pool::block::Transfer;
use crate::queue::lifecycle::TrySendError;
use crate::queue::repair::Release;
use crate::queue::ring::ReserveError;
use crate::token::Token;
use vstd::prelude::*;

verus! {

/// A channel is laid out with its header first and the slots of both directions
/// behind it, at their alignment and without a slot more: it takes no more than
/// rounding adds. Its lap is the least power of two above the capacity. A channel
/// for no items is refused as that.
pub proof fn law_channels_take_their_header_and_their_slots(slot: Extent, capacity: u64)
    requires
        slot.wf(),
    ensures
        match super::duplex::geometry_for(slot, capacity) {
            Ok(geometry) => {
                let header = super::duplex::duplex_header();
                let end = geometry.slots + 2 * (capacity * slot.size);
                &&& geometry.capacity == capacity
                &&& capacity > 0
                &&& header.size <= geometry.slots < header.size + slot.align
                &&& geometry.slots as int % slot.align as int == 0
                &&& end <= geometry.layout.size < end + geometry.layout.align
                &&& geometry.layout.align >= header.align
                &&& geometry.layout.align >= slot.align
                &&& geometry.layout.size as int % geometry.layout.align as int == 0
                &&& capacity < geometry.one_lap <= 2 * capacity
                &&& crate::numeric::is_power_of_two_spec(geometry.one_lap as int)
            },
            Err(error) => error == GeometryError::ZeroCapacity <==> capacity == 0,
        },
{
    let header = super::duplex::duplex_header();
    let align = crate::extent::larger(header.align, slot.align);
    let at = crate::extent::place(header.size as int, slot.align as int);
    let count = 2 * capacity;
    let size = at + slot.size * count;
    crate::extent::lemma_power_positive(slot.align as int);
    crate::numeric::lemma_align_up(header.size as int, slot.align as int);
    assert(slot.size * count == 2 * (capacity * slot.size)) by (nonlinear_arith)
        requires
            count == 2 * capacity,
    ;
    assert(slot.size * count >= 0) by (nonlinear_arith)
        requires
            slot.size >= 0,
            count >= 0,
    ;
    if super::duplex::geometry_for(slot, capacity) is Ok {
        crate::extent::lemma_power_positive(align as int);
        crate::numeric::lemma_align_up(size, align as int);
        crate::extent::lemma_padded_stays_below(size, align as int);
        lemma_lap(capacity);
    }
}

/// The least power of two above a number is at most twice that number.
proof fn lemma_lap(capacity: u64)
    requires
        capacity > 0,
    ensures
        capacity < crate::numeric::power_at_least((capacity + 1) as nat) <= 2 * capacity,
        crate::numeric::is_power_of_two_spec(
            crate::numeric::power_at_least((capacity + 1) as nat) as int,
        ),
{
    let e = crate::numeric::log2(capacity as nat);
    crate::numeric::lemma_power_at_least((capacity + 1) as nat);
    crate::numeric::lemma_log2(capacity as nat);
    vstd::arithmetic::power2::lemma_pow2_unfold(e + 1);
}

/// A channel that was just made is open in both directions, has room for its
/// capacity in each, and nobody holds either role.
pub proof fn law_new_channels_are_open<H: Repr>(duplex: Duplex<H>, capacity: u64, field: u32)
    requires
        super::duplex::is_blank(duplex, capacity),
        crate::queue::lifecycle::is_field(field),
    ensures
        crate::queue::lifecycle::field_of(duplex.lifecycle, field) == 0,
        duplex.left@.capacity() == capacity,
        duplex.right@.capacity() == capacity,
        duplex.left@.head == duplex.left@.tail,
        duplex.right@.head == duplex.right@.tail,
        super::role_owner(duplex.role(0)) is None && !super::role_terminal(duplex.role(0)),
        super::role_owner(duplex.role(1)) is None && !super::role_terminal(duplex.role(1)),
{
}

/// Whoever creates a channel holds its first role, and the invitation that comes
/// with it is to the second, which nobody holds yet: to the same channel, and
/// under the generation that this role has.
pub proof fn law_created_channels_await_their_peer<H: Repr>(
    before: crate::session::Shared,
    after: crate::session::Shared,
    region: Region,
    capacity: u64,
    made: crate::session::work::NewChannel<H>,
)
    requires
        region.wf(),
        crate::session::work::channel_creates(before, after, region, capacity, made),
    ensures
        made matches Ok((channel, port, stored)) ==> {
            &&& stored.header.inner matches Some(duplex)
            &&& channel.is_held(duplex)
            &&& channel.owner_spec() == region.member.slot
            &&& !super::role_terminal(duplex.role(channel.index_spec()))
            &&& port.role_spec() == 1 - channel.index_spec()
            &&& port.id_spec().inner == channel.id_spec().inner
            &&& port.id_spec().capacity == channel.id_spec().capacity
            &&& channel.id_spec().capacity == capacity
            &&& super::role_owner(duplex.role(port.role_spec() as int)) is None
            &&& !super::role_terminal(duplex.role(port.role_spec() as int))
            &&& super::role_generation(duplex.role(port.role_spec() as int))
                == port.generation_spec()
        },
        capacity == 0 ==> made is Err,
{
    super::law_role_word_round_trips(1, Some(region.member.slot), false);
    super::law_role_word_round_trips(1, None, false);
}

/// A role is refused for what stands against it: it has ended, it is of another
/// generation, or somebody holds it; and it is given exactly where it is open
/// under the generation that is asked for.
pub proof fn law_roles_are_refused_for_a_reason(word: RoleWord, generation: u64)
    ensures
        super::role::role_refused(word, generation) is None <==> generation <= ROLE_MAX_GENERATION
            && super::role_generation(word) == generation && super::role_owner(word) is None
            && !super::role_terminal(word),
        super::role::role_refused(word, generation) == Some(RoleAdmitError::Occupied)
            <==> super::role_generation(word) == generation && super::role_owner(word) is Some
            && !super::role_terminal(word),
        super::role::role_refused(word, generation) == Some(RoleAdmitError::Terminal)
            <==> super::role_terminal(word) && generation <= ROLE_MAX_GENERATION,
        super::role::role_refused(word, generation) == Some(RoleAdmitError::Stale) <==> generation
            > ROLE_MAX_GENERATION || (super::role_generation(word) != generation
            && !super::role_terminal(word)),
{
    super::law_role_word_is_its_parts(word);
    if generation <= ROLE_MAX_GENERATION {
        super::law_role_word_round_trips(generation, None, false);
    }
}

/// A channel lies in a region exactly where all that it takes does.
pub proof fn law_channels_lie_in_their_region<H: Repr>(
    info: Info,
    region: Region,
    offset: u64,
    duplex: Duplex<H>,
)
    requires
        region.map.start + region.map.len <= u64::MAX,
    ensures
        super::role::lies_in(info, region, offset, duplex) <==> (Duplex::<H>::geometry_spec(
            info.capacity_spec(),
        ) matches Ok(geometry) && offset + geometry.layout.size <= region.map.len),
{
}

/// A block that is not sent comes back with the reason, and neither the channel nor
/// the pool changes; the other direction changes in no case.
pub proof fn law_refused_blocks_come_back<H: Repr>(
    tx: Tx<H>,
    before: Duplex<H>,
    after: Duplex<H>,
    storage: crate::pool::storage::StorageView,
    storage_after: crate::pool::storage::StorageView,
    value: Transfer<H>,
    sent: Result<(), TrySendError<Transfer<H>>>,
)
    requires
        tx.wf(),
        super::transfer::sends(tx, before, after, storage, storage_after, value, sent),
    ensures
        sent matches Err(error) ==> {
            &&& error == TrySendError::Full(value) || error == TrySendError::Busy(value) || error
                == TrySendError::Disconnected(value)
            &&& after.ring(tx.direction_spec()) == before.ring(tx.direction_spec())
            &&& storage_after == storage
        },
        sent is Ok <==> tx.refused(before) is None,
        sent matches Err(error) ==> (error is Disconnected <==> tx.refused(before) == Some(
            ReserveError::Closed,
        )),
        sent matches Err(error) ==> (error is Full <==> tx.refused(before) == Some(
            ReserveError::Full,
        )),
        after.ring(1 - tx.direction_spec()) == before.ring(1 - tx.direction_spec()),
        after.role(0) == before.role(0) && after.role(1) == before.role(1),
        after.lifecycle == before.lifecycle,
{
}

/// A channel is recovered only as what it is recorded as: one whose record takes
/// another extent is left alone. And one whose recovery stopped has its roles as
/// they were.
pub proof fn law_channels_are_recovered_as_recorded<H: Repr, R: Release<Token<H>>>(
    before: Duplex<H>,
    after: Duplex<H>,
    info: Info,
    extent: u64,
    dead: u8,
    live: u8,
    release: R,
    released: R,
    recovered: bool,
)
    requires
        super::recovery::duplex_recovers(
            before,
            after,
            info,
            extent,
            dead,
            live,
            release,
            released,
            recovered,
        ),
    ensures
        recovered ==> (Duplex::<H>::geometry_spec(info.capacity_spec()) matches Ok(geometry)
            && geometry.layout.size == extent),
        Duplex::<H>::geometry_spec(info.capacity_spec()) matches Ok(geometry) ==> (
        geometry.layout.size != extent ==> !recovered && after == before && released == release),
        !recovered ==> after.role(0) == before.role(0) && after.role(1) == before.role(1),
        after.lifecycle == before.lifecycle,
{
}

} // verus!
