//! How the roles of a channel pass from one participant to another.

use super::duplex::Duplex;
use super::role::Channel;
use super::{Info, InviteError, Port, RoleAdmitError, ROLE_MAX_GENERATION};
use crate::header::PARTICIPANT_CAPACITY;
use crate::mem::Region;
use crate::msg::Repr;
use vstd::prelude::*;

verus! {

/// Whoever comes with an invitation, to a channel that lies in its region, gets
/// the role that it is to: the role is its own from then on, and the inviter's
/// role and the rings are as they were.
pub proof fn law_invitations_are_taken<H: Repr>(
    inviter: Channel<H>,
    before: Duplex<H>,
    offered: Duplex<H>,
    after: Duplex<H>,
    port: Port<H>,
    info: Info,
    region: Region,
    offset: u64,
    adopted: Result<Channel<H>, RoleAdmitError>,
)
    requires
        inviter.wf(),
        region.member.slot < PARTICIPANT_CAPACITY,
        super::role::invites(inviter, before, offered, Ok::<Port<H>, InviteError>(port)),
        super::role::lies_in(info, region, offset, offered),
        super::role::role_adopts(offered, after, info, region, offset, port, adopted),
    ensures
        adopted matches Ok(channel) && {
            &&& channel.is_held(after)
            &&& channel.owner_spec() == region.member.slot
            &&& channel.index_spec() == 1 - inviter.index_spec()
            &&& channel.generation_spec() == port.generation_spec()
            &&& channel.id_spec().inner == inviter.id_spec().inner
            &&& channel.id_spec().capacity == inviter.id_spec().capacity
            &&& !super::role_terminal(after.role(channel.index_spec()))
        },
        inviter.is_held(after),
        after.role(inviter.index_spec()) == before.role(inviter.index_spec()),
        after.same_rings(before),
{
    let peer = 1 - inviter.index_spec();
    let generation = port.generation_spec();
    super::law_role_word_is_its_parts(before.role(peer));
    super::law_role_word_round_trips(generation, None, false);
    super::law_role_word_round_trips(generation, Some(region.member.slot), false);
}

/// A role is taken only where it is open under the invitation's generation and
/// its inviter still holds the other role; it is then held by whoever came, and
/// the other role is as it was.
pub proof fn law_only_open_roles_are_taken<H: Repr>(
    before: Duplex<H>,
    after: Duplex<H>,
    info: Info,
    region: Region,
    offset: u64,
    port: Port<H>,
    adopted: Result<Channel<H>, RoleAdmitError>,
)
    requires
        region.member.slot < PARTICIPANT_CAPACITY,
        port.role_spec() < 2,
        super::role::role_adopts(before, after, info, region, offset, port, adopted),
    ensures
        ({
            let index = port.role_spec() as int;
            &&& adopted matches Ok(channel) ==> {
                &&& super::role_owner(before.role(index)) is None
                &&& !super::role_terminal(before.role(index))
                &&& super::role_generation(before.role(index)) == port.generation_spec()
                &&& super::role_owner(before.role(1 - index)) is Some
                &&& !super::role_terminal(before.role(1 - index))
                &&& super::role_owner(after.role(index)) == Some(region.member.slot)
                &&& super::role_generation(after.role(index)) == port.generation_spec()
            }
            &&& adopted is Err ==> super::role_owner(after.role(index)) == super::role_owner(
                before.role(index),
            )
            &&& after.role(1 - index) == before.role(1 - index)
            &&& after.same_rings(before)
        }),
{
    let index = port.role_spec() as int;
    let generation = port.generation_spec();
    if generation <= ROLE_MAX_GENERATION {
        super::law_role_word_round_trips(generation, None, false);
        super::law_role_word_round_trips(generation, Some(region.member.slot), false);
        super::law_roles_go_forward(
            super::role_word(generation, Some(region.member.slot), false),
        );
    }
}

/// An invitation whose inviter has left gives nothing, and is used up: the role
/// goes on to a generation that it is not to.
pub proof fn law_orphaned_invitations_give_nothing<H: Repr>(
    before: Duplex<H>,
    after: Duplex<H>,
    info: Info,
    region: Region,
    offset: u64,
    port: Port<H>,
    adopted: Result<Channel<H>, RoleAdmitError>,
)
    requires
        region.member.slot < PARTICIPANT_CAPACITY,
        port.role_spec() < 2,
        super::role_owner(before.role(1 - port.role_spec() as int)) is None || super::role_terminal(
            before.role(1 - port.role_spec() as int),
        ),
        super::role::role_adopts(before, after, info, region, offset, port, adopted),
    ensures
        adopted is Err,
        adopted == Err::<Channel<H>, RoleAdmitError>(RoleAdmitError::Orphaned) ==> {
            let index = port.role_spec() as int;
            &&& super::role_owner(after.role(index)) is None
            &&& super::role_terminal(after.role(index)) || super::role_generation(
                after.role(index),
            ) > port.generation_spec()
        },
{
    let generation = port.generation_spec();
    if generation <= ROLE_MAX_GENERATION {
        let claimed = super::role_word(generation, Some(region.member.slot), false);
        super::law_role_word_round_trips(generation, None, false);
        super::law_role_word_round_trips(generation, Some(region.member.slot), false);
        super::law_role_word_round_trips(generation, None, true);
        super::law_roles_go_forward(claimed);
        if generation < ROLE_MAX_GENERATION {
            super::law_role_word_round_trips((generation + 1) as u64, None, false);
        }
    }
}

/// The holder of an open role can invite another to the other role exactly where
/// nobody holds that one and it has not ended: an invitation is to a generation
/// that none before was to, and nothing else changes. Whoever lost its own role
/// invites nobody.
pub proof fn law_holders_invite_to_open_roles<H: Repr>(
    channel: Channel<H>,
    before: Duplex<H>,
    after: Duplex<H>,
    invited: Result<Port<H>, InviteError>,
)
    requires
        channel.wf(),
        super::role::invites(channel, before, after, invited),
    ensures
        ({
            let mine = before.role(channel.index_spec());
            let peer = 1 - channel.index_spec();
            let other = before.role(peer);
            let holds = channel.is_held(before) && !super::role_terminal(mine);
            &&& invited is Ok <==> holds && super::role_owner(other) is None
                && !super::role_terminal(other) && super::role_generation(other)
                < ROLE_MAX_GENERATION
            &&& invited == Err::<Port<H>, InviteError>(InviteError::Occupied) <==> holds
                && !super::role_terminal(other) && super::role_owner(other) is Some
            &&& invited == Err::<Port<H>, InviteError>(InviteError::Terminal) <==> !holds
                || super::role_terminal(other)
            &&& invited matches Ok(port) ==> {
                &&& port.role_spec() == peer
                &&& port.generation_spec() > super::role_generation(other)
                &&& super::role_generation(after.role(peer)) == port.generation_spec()
                &&& super::role_owner(after.role(peer)) is None
                &&& !super::role_terminal(after.role(peer))
            }
            &&& after.role(channel.index_spec()) == mine
            &&& after.same_rings(before)
            &&& super::role_owner(after.role(peer)) == super::role_owner(other)
        }),
{
    let other = before.role(1 - channel.index_spec());
    let generation = super::role_generation(other);
    super::law_role_word_is_its_parts(other);
    super::law_role_word_round_trips(generation, None, true);
    if generation < ROLE_MAX_GENERATION {
        super::law_role_word_round_trips((generation + 1) as u64, None, false);
    }
}

/// A role that its holder left is nobody's: it is open to another, unless it had
/// ended or has no generation left. The other role and the rings are as they
/// were, and whoever left the role does not hold it any more.
pub proof fn law_left_roles_are_open<H: Repr>(
    channel: Channel<H>,
    before: Duplex<H>,
    after: Duplex<H>,
)
    requires
        channel.wf(),
        channel.leaves(before, after),
    ensures
        !channel.is_held(after),
        channel.is_held(before) ==> {
            let word = before.role(channel.index_spec());
            let left = after.role(channel.index_spec());
            &&& super::role_owner(left) is None
            &&& super::role_terminal(left) <==> super::role_terminal(word)
                || super::role_generation(word) == ROLE_MAX_GENERATION
        },
        !channel.is_held(before) ==> after == before,
        after.role(1 - channel.index_spec()) == before.role(1 - channel.index_spec()),
        after.same_rings(before),
{
    let word = before.role(channel.index_spec());
    let generation = super::role_generation(word);
    super::law_roles_go_forward(word);
    super::law_role_word_is_its_parts(word);
    super::law_role_word_round_trips(generation, None, true);
    if generation < ROLE_MAX_GENERATION {
        super::law_role_word_round_trips((generation + 1) as u64, None, false);
    }
}

} // verus!
