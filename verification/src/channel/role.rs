//! The two roles of a channel: who holds them, how they are handed on, and how
//! their holder closes the channel.

use super::duplex::Duplex;
use super::{leave_role, Id, Info, InviteError, Port, RoleAdmitError, RoleWord, ROLE_MAX_GENERATION};
use crate::header::PARTICIPANT_CAPACITY;
use crate::mem::Region;
use crate::msg::Repr;
use crate::queue::lifecycle::Route;
use vstd::prelude::*;

verus! {

/// One role of a channel, as its holder has it.
pub struct Channel<H: Repr> {
    id: Id<H>,
    index: u8,
    generation: u64,
    owner: u8,
}

/// The fields of a direction, as its user acts on them.
pub open spec fn route_spec(direction: int, owner: u8) -> Route {
    if direction == 0 {
        Route { send_field: 0, recv_field: 6, owner }
    } else {
        Route { send_field: 4, recv_field: 2, owner }
    }
}

pub fn route(direction: u8, owner: u8) -> (route: Route)
    ensures
        route == route_spec(direction as int, owner),
{
    if direction == 0 {
        Route { send_field: 0, recv_field: 6, owner }
    } else {
        Route { send_field: 4, recv_field: 2, owner }
    }
}

/// The channel with other words for its roles.
pub open spec fn with_role<H: Repr>(before: Duplex<H>, after: Duplex<H>, index: int, word: RoleWord) -> bool {
    &&& after.same_rings(before)
    &&& after.role(index) == word
    &&& after.role(1 - index) == before.role(1 - index)
}

impl<H: Repr> Duplex<H> {
    pub(crate) fn get_role(&self, index: u8) -> (word: RoleWord)
        requires
            index < 2,
        ensures
            word == self.role(index as int),
    {
        RoleWord(
            if index == 0 {
                self.first_role
            } else {
                self.second_role
            },
        )
    }

    pub(crate) fn set_role(&mut self, index: u8, word: RoleWord)
        requires
            index < 2,
        ensures
            with_role(*old(self), *final(self), index as int, word),
    {
        if index == 0 {
            self.first_role = word.0;
        } else {
            self.second_role = word.0;
        }
    }
}

/// Why an invitation does not give its role, where the role's word was observed.
pub open spec fn role_refused(word: RoleWord, generation: u64) -> Option<RoleAdmitError> {
    if generation > ROLE_MAX_GENERATION {
        Some(RoleAdmitError::Stale)
    } else if word == super::role_word(generation, None, false) {
        None
    } else if super::role_terminal(word) {
        Some(RoleAdmitError::Terminal)
    } else if super::role_generation(word) != generation {
        Some(RoleAdmitError::Stale)
    } else if super::role_owner(word) is Some {
        Some(RoleAdmitError::Occupied)
    } else {
        Some(RoleAdmitError::Open)
    }
}

/// The channel that is recorded lies in the region.
pub open spec fn lies_in<H: Repr>(info: Info, region: Region, offset: u64, duplex: Duplex<H>) -> bool {
    Duplex::<H>::geometry_spec(info.capacity_spec()) matches Ok(geometry) && region.offset_spec(
        region.map.start + offset,
        geometry.layout.size as int,
    ) is Ok
}

/// What inviting a participant to the other role does, where these words of the
/// own and of the other role were observed before.
pub open spec fn invites_seeing<H: Repr>(
    channel: Channel<H>,
    before: Duplex<H>,
    after: Duplex<H>,
    mine: RoleWord,
    seen: RoleWord,
    invited: Result<Port<H>, InviteError>,
) -> bool {
    let peer = 1 - channel.index_spec();
    let generation = super::role_generation(seen);
    if super::role_generation(mine) != channel.generation_spec() || super::role_owner(mine) != Some(
        channel.owner_spec(),
    ) || super::role_terminal(mine) || super::role_terminal(seen) {
        invited == Err::<Port<H>, InviteError>(InviteError::Terminal) && after == before
    } else if super::role_owner(seen) is Some {
        invited == Err::<Port<H>, InviteError>(InviteError::Occupied) && after == before
    } else if before.role(peer) != seen {
        invited == Err::<Port<H>, InviteError>(InviteError::Busy) && after == before
    } else if generation == ROLE_MAX_GENERATION {
        invited == Err::<Port<H>, InviteError>(InviteError::Retired) && with_role(
            before,
            after,
            peer,
            super::role_word(generation, None, true),
        )
    } else {
        &&& invited matches Ok(port)
        &&& port.id_spec().inner == channel.id_spec().inner
        &&& port.id_spec().capacity == channel.id_spec().capacity
        &&& port.role_spec() == peer
        &&& port.generation_spec() == generation + 1
        &&& with_role(
            before,
            after,
            peer,
            super::role_word((generation + 1) as u64, None, false),
        )
    }
}

/// What inviting a participant to the other role of a channel does.
pub open spec fn invites<H: Repr>(
    channel: Channel<H>,
    before: Duplex<H>,
    after: Duplex<H>,
    invited: Result<Port<H>, InviteError>,
) -> bool {
    let index = channel.index_spec();
    invites_seeing(
        channel,
        before,
        after,
        before.role(index),
        before.role(1 - index),
        invited,
    )
}

/// What taking the role of an invitation does.
pub open spec fn role_adopts<H: Repr>(
    before: Duplex<H>,
    after: Duplex<H>,
    info: Info,
    region: Region,
    offset: u64,
    port: Port<H>,
    adopted: Result<Channel<H>, RoleAdmitError>,
) -> bool {
    let index = port.role_spec() as int;
    let generation = port.generation_spec();
    let owner = region.member.slot;
    let word = before.role(index);
    let issuer = before.role(1 - index);
    let claimed = super::role_word(generation, Some(owner), false);
    if index >= 2 || !lies_in(info, region, offset, before) {
        adopted == Err::<Channel<H>, RoleAdmitError>(RoleAdmitError::Open) && after
            == before
    } else {
        match role_refused(word, generation) {
            Some(error) => adopted == Err::<Channel<H>, RoleAdmitError>(error)
                && after == before,
            None => if super::role_terminal(issuer) || super::role_owner(
                issuer,
            ) is None {
                adopted == Err::<Channel<H>, RoleAdmitError>(RoleAdmitError::Orphaned)
                    && with_role(
                    before,
                    after,
                    index,
                    super::role_left(claimed),
                )
            } else {
                &&& adopted matches Ok(channel)
                &&& channel.wf()
                &&& channel.id_spec().inner == port.id_spec().inner
                &&& channel.id_spec().capacity == port.id_spec().capacity
                &&& channel.index_spec() == index
                &&& channel.generation_spec() == generation
                &&& channel.owner_spec() == owner
                &&& with_role(before, after, index, claimed)
            },
        }
    }
}

impl<H: Repr> Channel<H> {
    pub closed spec fn id_spec(self) -> Id<H> {
        self.id
    }

    pub closed spec fn index_spec(self) -> int {
        self.index as int
    }

    pub closed spec fn generation_spec(self) -> u64 {
        self.generation
    }

    pub closed spec fn owner_spec(self) -> u8 {
        self.owner
    }

    pub open spec fn wf(self) -> bool {
        &&& 0 <= self.index_spec() < 2
        &&& self.owner_spec() < PARTICIPANT_CAPACITY
        &&& self.generation_spec() <= ROLE_MAX_GENERATION
    }

    /// The word that says that this role is held and open.
    pub open spec fn held(self) -> RoleWord {
        super::role_word(self.generation_spec(), Some(self.owner_spec()), false)
    }

    /// The role is still the holder's.
    pub open spec fn is_held(self, duplex: Duplex<H>) -> bool {
        let word = duplex.role(self.index_spec());
        &&& super::role_generation(word) == self.generation_spec()
        &&& super::role_owner(word) == Some(self.owner_spec())
    }

    pub fn id(&self) -> (id: Id<H>)
        ensures
            id.inner == self.id_spec().inner,
            id.capacity == self.id_spec().capacity,
    {
        Id::of(self.id.inner, self.id.capacity)
    }

    pub fn index(&self) -> (index: u8)
        ensures
            index == self.index_spec(),
    {
        self.index
    }

    pub fn owner(&self) -> (owner: u8)
        ensures
            owner == self.owner_spec(),
    {
        self.owner
    }

    pub fn generation(&self) -> (generation: u64)
        ensures
            generation == self.generation_spec(),
    {
        self.generation
    }

    /// Whether nobody holds the other role.
    pub fn peer_is_unowned(&self, duplex: &Duplex<H>) -> (unowned: bool)
        requires
            self.wf(),
        ensures
            unowned == (super::role_owner(duplex.role(1 - self.index_spec())) is None),
    {
        duplex.get_role(1 - self.index).parts().1.is_none()
    }

    /// Whether this role has ended and nobody holds it.
    pub fn has_ended(&self, duplex: &Duplex<H>) -> (ended: bool)
        requires
            self.wf(),
        ensures
            ended == (super::role_owner(duplex.role(self.index_spec())) is None
                && super::role_terminal(duplex.role(self.index_spec()))),
    {
        let (_, owner, terminal) = duplex.get_role(self.index).parts();
        owner.is_none() && terminal
    }

    /// Opens a channel that was just made: its maker holds the first role, and
    /// the second is open.
    pub fn creator(duplex: &mut Duplex<H>, id: Id<H>, owner: u8) -> (made: (Self, u64))
        requires
            owner < PARTICIPANT_CAPACITY,
        ensures
            made.0.wf(),
            made.0.id_spec() == id,
            made.0.index_spec() == 0,
            made.0.generation_spec() == 1,
            made.0.owner_spec() == owner,
            made.1 == 1,
            final(duplex).same_rings(*old(duplex)),
            final(duplex).role(0) == super::role_word(1, Some(owner), false),
            final(duplex).role(1) == super::role_word(1, None, false),
    {
        duplex.first_role = RoleWord::new(1, Some(owner), false).unwrap().0;
        duplex.second_role = RoleWord::new(1, None, false).unwrap().0;
        (Channel { id, index: 0, generation: 1, owner }, 1)
    }

    /// Takes the role of an invitation, as long as its issuer still holds the
    /// other.
    #[verifier::spinoff_prover]
    pub fn adopt(
        duplex: &mut Duplex<H>,
        info: &Info,
        region: &Region,
        offset: u64,
        port: &Port<H>,
    ) -> (adopted: Result<Self, RoleAdmitError>)
        requires
            region.wf(),
            region.map.start + region.map.len <= u64::MAX,
        ensures
            role_adopts(*old(duplex), *final(duplex), *info, *region, offset, *port, adopted),
    {
        let index: u8 = port.role();
        let generation: u64 = port.generation();
        if index >= 2 {
            return Err(RoleAdmitError::Open);
        }
        let geometry = match Duplex::<H>::geometry(info.capacity()) {
            Ok(geometry) => geometry,
            Err(_) => return Err(RoleAdmitError::Open),
        };
        match region.offset_behind(region.map.start, offset, geometry.layout.size) {
            Ok(_) => {},
            Err(_) => return Err(RoleAdmitError::Open),
        }
        let owner: u8 = region.member.slot;
        let expected = match RoleWord::new(generation, None, false) {
            Some(expected) => expected,
            None => return Err(RoleAdmitError::Stale),
        };
        let claimed = match RoleWord::new(generation, Some(owner), false) {
            Some(claimed) => claimed,
            None => return Err(RoleAdmitError::Open),
        };
        let observed = duplex.get_role(index);
        if observed != expected {
            let (found, holder, terminal) = observed.parts();
            return Err(
                if terminal {
                    RoleAdmitError::Terminal
                } else if found != generation {
                    RoleAdmitError::Stale
                } else if holder.is_some() {
                    RoleAdmitError::Occupied
                } else {
                    RoleAdmitError::Open
                },
            );
        }
        duplex.set_role(index, claimed);
        let (_, issuer, issuer_terminal) = duplex.get_role(1 - index).parts();
        if issuer_terminal || issuer.is_none() {
            duplex.set_role(index, leave_role(claimed));
            return Err(RoleAdmitError::Orphaned);
        }
        Ok(Channel { id: port.id(), index, generation, owner })
    }

    /// Invites a participant to the other role: every invitation is to a
    /// generation of its own.
    pub fn invite(&self, duplex: &mut Duplex<H>) -> (invited: Result<Port<H>, InviteError>)
        requires
            self.wf(),
        ensures
            invites(*self, *old(duplex), *final(duplex), invited),
    {
        let mine = duplex.get_role(self.index);
        let seen = duplex.get_role(1 - self.index);
        self.invite_seeing(duplex, mine, seen)
    }

    /// Invites a participant to the other role, where these words of the own and
    /// of the other role were observed: the other role is taken forward only if
    /// it is still as it was observed.
    pub fn invite_seeing(&self, duplex: &mut Duplex<H>, mine: RoleWord, seen: RoleWord) -> (invited:
        Result<Port<H>, InviteError>)
        requires
            self.wf(),
        ensures
            invites_seeing(*self, *old(duplex), *final(duplex), mine, seen, invited),
    {
        let (issued, holder, ended) = mine.parts();
        if issued != self.generation || holder != Some(self.owner) || ended {
            return Err(InviteError::Terminal);
        }
        let (generation, owner, terminal) = seen.parts();
        if terminal {
            return Err(InviteError::Terminal);
        }
        if owner.is_some() {
            return Err(InviteError::Occupied);
        }
        let peer: u8 = 1 - self.index;
        if duplex.get_role(peer) != seen {
            return Err(InviteError::Busy);
        }
        match seen.next_unowned(false) {
            None => {
                duplex.set_role(peer, RoleWord::new(generation, None, true).unwrap());
                Err(InviteError::Retired)
            },
            Some(next) => {
                duplex.set_role(peer, next);
                proof {
                    super::law_role_word_round_trips((generation + 1) as u64, None, false);
                }
                Ok(Port::new(self.id(), peer, next.parts().0))
            },
        }
    }

    /// What leaving the role does.
    pub open spec fn leaves(self, before: Duplex<H>, after: Duplex<H>) -> bool {
        if self.is_held(before) {
            with_role(
                before,
                after,
                self.index_spec(),
                super::role_left(before.role(self.index_spec())),
            )
        } else {
            after == before
        }
    }

    /// Leaves the role, where it is still the holder's.
    pub fn leave(self, duplex: &mut Duplex<H>)
        requires
            self.wf(),
        ensures
            self.leaves(*old(duplex), *final(duplex)),
            if self.is_held(*old(duplex)) {
                with_role(
                    *old(duplex),
                    *final(duplex),
                    self.index_spec(),
                    super::role_left(old(duplex).role(self.index_spec())),
                )
            } else {
                *final(duplex) == *old(duplex)
            },
    {
        let current = duplex.get_role(self.index);
        let (generation, owner, _) = current.parts();
        if generation == self.generation && owner == Some(self.owner) {
            duplex.set_role(self.index, leave_role(current));
        }
    }
}

} // verus!
