//! Channels: two rings between two roles, and who may act in which role.

use crate::dir::Id as LayoutName;
use crate::header::PARTICIPANT_CAPACITY;
use crate::msg::Repr;
use crate::schema::{schema_id, LayoutInfo, RegionId, SchemaKey, SharedSchema};
use core::marker::PhantomData;
use vstd::prelude::*;

pub mod duplex;
pub mod recovery;
pub mod role;
pub mod close;
pub mod laws;
pub mod ending;
pub mod holding;
pub mod draining;
pub mod shape;
pub mod closing;
pub mod transfer;
pub mod driver;
pub mod cross;

verus! {

pub const ROLE_MAX_GENERATION: u64 = 0x01ff_ffff_ffff_ffff;

/// The authority word of a role: its generation, the participant that holds it,
/// and whether it has ended.
#[derive(Clone, Copy, Debug, PartialEq, Eq, Structural)]
pub struct RoleWord(pub u64);

pub open spec fn role_generation(word: RoleWord) -> u64 {
    word.0 / 128
}

pub open spec fn role_owner(word: RoleWord) -> Option<u8> {
    let slot = (word.0 / 2) % 64;
    if slot == 0 {
        None
    } else {
        Some((slot - 1) as u8)
    }
}

pub open spec fn role_terminal(word: RoleWord) -> bool {
    word.0 % 2 == 1
}

/// The word of its parts.
pub open spec fn role_word(generation: u64, owner: Option<u8>, terminal: bool) -> RoleWord {
    let slot: int = match owner {
        Some(owner) => owner + 1,
        None => 0,
    };
    let end: int = if terminal {
        1
    } else {
        0
    };
    RoleWord((128 * generation + 2 * slot + end) as u64)
}

impl RoleWord {
    pub fn new(generation: u64, participant: Option<u8>, terminal: bool) -> (word: Option<Self>)
        ensures
            word == (if generation > ROLE_MAX_GENERATION || (participant matches Some(participant)
                && participant >= PARTICIPANT_CAPACITY) {
                None
            } else {
                Some(role_word(generation, participant, terminal))
            }),
    {
        if generation > ROLE_MAX_GENERATION {
            return None;
        }
        let slot: u64 = match participant {
            Some(participant) => {
                if participant as u64 >= PARTICIPANT_CAPACITY {
                    return None;
                }
                participant as u64 + 1
            },
            None => 0,
        };
        let end: u64 = if terminal {
            1
        } else {
            0
        };
        Some(RoleWord(128 * generation + 2 * slot + end))
    }

    pub fn parts(self) -> (parts: (u64, Option<u8>, bool))
        ensures
            parts == (role_generation(self), role_owner(self), role_terminal(self)),
            parts.0 <= ROLE_MAX_GENERATION,
            parts.1 matches Some(owner) ==> owner < PARTICIPANT_CAPACITY,
    {
        let slot: u64 = (self.0 / 2) % 64;
        let owner: Option<u8> = if slot == 0 {
            None
        } else {
            Some((slot - 1) as u8)
        };
        (self.0 / 128, owner, self.0 % 2 == 1)
    }

    /// The unowned word of the next generation, where there is one.
    pub fn next_unowned(self, terminal: bool) -> (next: Option<Self>)
        ensures
            next == (if role_generation(self) == ROLE_MAX_GENERATION {
                None
            } else {
                Some(role_word((role_generation(self) + 1) as u64, None, terminal))
            }),
    {
        let (generation, _, _) = self.parts();
        RoleWord::new(generation + 1, None, terminal)
    }
}

/// A role's word tells what it was made of.
pub proof fn law_role_word_round_trips(generation: u64, owner: Option<u8>, terminal: bool)
    requires
        generation <= ROLE_MAX_GENERATION,
        owner matches Some(owner) ==> owner < PARTICIPANT_CAPACITY,
    ensures
        role_generation(role_word(generation, owner, terminal)) == generation,
        role_owner(role_word(generation, owner, terminal)) == owner,
        role_terminal(role_word(generation, owner, terminal)) == terminal,
{
}

/// Every word is the word of its parts.
pub proof fn law_role_word_is_its_parts(word: RoleWord)
    ensures
        role_word(role_generation(word), role_owner(word), role_terminal(word)) == word,
        role_generation(word) <= ROLE_MAX_GENERATION,
        role_owner(word) matches Some(owner) ==> owner < PARTICIPANT_CAPACITY,
{
}

/// The word of a role that its holder left: the next generation is open, unless
/// the role had ended or has no generation left.
pub open spec fn role_left(word: RoleWord) -> RoleWord {
    let generation = role_generation(word);
    if role_terminal(word) || generation == ROLE_MAX_GENERATION {
        role_word(generation, None, true)
    } else {
        role_word((generation + 1) as u64, None, false)
    }
}

fn leave_role(word: RoleWord) -> (left: RoleWord)
    ensures
        left == role_left(word),
{
    let (generation, _, terminal) = word.parts();
    if terminal {
        return RoleWord::new(generation, None, true).unwrap();
    }
    match word.next_unowned(false) {
        Some(next) => next,
        None => RoleWord::new(generation, None, true).unwrap(),
    }
}

/// Takes a role from a dead participant.
pub fn recover_role(role: &mut u64, dead: u8)
    ensures
        *final(role) == (if role_owner(RoleWord(*old(role))) == Some(dead) {
            role_left(RoleWord(*old(role))).0
        } else {
            *old(role)
        }),
{
    let current = RoleWord(*role);
    let (_, owner, _) = current.parts();
    if owner == Some(dead) {
        *role = leave_role(current).0;
    }
}

/// Once a role has ended it stays so, and its generations never fall.
pub proof fn law_roles_go_forward(word: RoleWord)
    ensures
        role_owner(role_left(word)) is None,
        role_generation(role_left(word)) >= role_generation(word),
        role_terminal(word) ==> role_terminal(role_left(word)) && role_generation(role_left(word))
            == role_generation(word),
        role_left(role_left(word)) == role_left(word) <==> role_terminal(role_left(word)),
{
    law_role_word_is_its_parts(word);
    let generation = role_generation(word);
    law_role_word_round_trips(generation, None, true);
    if generation < ROLE_MAX_GENERATION {
        law_role_word_round_trips((generation + 1) as u64, None, false);
        if generation + 1 < ROLE_MAX_GENERATION {
            law_role_word_round_trips((generation + 2) as u64, None, false);
        } else {
            law_role_word_round_trips((generation + 1) as u64, None, true);
        }
    }
}

/// What the header of a channel records.
#[derive(Clone, Copy, Debug, PartialEq, Eq, Structural)]
pub struct Info {
    pub(crate) capacity: u64,
}

impl Info {
    pub closed spec fn capacity_spec(self) -> u64 {
        self.capacity
    }

    pub fn of(capacity: u64) -> (info: Self)
        ensures
            info == info_of(capacity),
            info.capacity_spec() == capacity,
    {
        Info { capacity }
    }

    pub fn capacity(&self) -> (capacity: u64)
        ensures
            capacity == self.capacity_spec(),
    {
        self.capacity
    }
}

/// The record of a capacity.
pub closed spec fn info_of(capacity: u64) -> Info {
    Info { capacity }
}

impl SharedSchema for Info {
    open spec fn schema_spec() -> SchemaKey {
        crate::msg::named("evering.duplex.info")
    }

    fn schema() -> (key: SchemaKey) {
        SchemaKey::new(schema_id("evering.duplex.info"), 1)
    }
}

impl LayoutInfo for Info {
    fn same(&self, other: &Self) -> (same: bool) {
        *self == *other
    }
}

/// The name of a channel that carries headers of `H`.
pub struct Id<H: Repr> {
    pub inner: LayoutName,
    pub capacity: u64,
    pub header: PhantomData<H>,
}

impl<H: Repr> Id<H> {
    pub fn new(region: RegionId, slab: u32, entry: u32, generation: u64, capacity: u64) -> (id: Self)
        ensures
            id.inner == (LayoutName { region, slab, entry, generation }),
            id.capacity == capacity,
    {
        Id {
            inner: LayoutName::from_parts(region, slab, entry, generation),
            capacity,
            header: PhantomData,
        }
    }

    pub fn of(inner: LayoutName, capacity: u64) -> (id: Self)
        ensures
            id.inner == inner,
            id.capacity == capacity,
    {
        Id { inner, capacity, header: PhantomData }
    }

    pub fn region(&self) -> (region: RegionId)
        ensures
            region == self.inner.region,
    {
        self.inner.region
    }

    pub fn slab(&self) -> (slab: u32)
        ensures
            slab == self.inner.slab,
    {
        self.inner.slab
    }

    pub fn entry(&self) -> (entry: u32)
        ensures
            entry == self.inner.entry,
    {
        self.inner.entry
    }

    pub fn generation(&self) -> (generation: u64)
        ensures
            generation == self.inner.generation,
    {
        self.inner.generation
    }

    pub fn capacity(&self) -> (capacity: u64)
        ensures
            capacity == self.capacity,
    {
        self.capacity
    }
}

/// An invitation to one generation of one role of a channel.
pub struct Port<H: Repr> {
    id: Id<H>,
    role: u8,
    generation: u64,
}

impl<H: Repr> Port<H> {
    pub closed spec fn id_spec(self) -> Id<H> {
        self.id
    }

    pub closed spec fn role_spec(self) -> u8 {
        self.role
    }

    pub closed spec fn generation_spec(self) -> u64 {
        self.generation
    }

    pub(crate) fn new(id: Id<H>, role: u8, generation: u64) -> (port: Self)
        ensures
            port.id_spec() == id,
            port.role_spec() == role,
            port.generation_spec() == generation,
    {
        Port { id, role, generation }
    }

    pub fn region(&self) -> (region: RegionId)
        ensures
            region == self.id_spec().inner.region,
    {
        self.id.region()
    }

    pub fn id(&self) -> (id: Id<H>)
        ensures
            id.inner == self.id_spec().inner,
            id.capacity == self.id_spec().capacity,
    {
        Id::of(self.id.inner, self.id.capacity)
    }

    pub fn role(&self) -> (role: u8)
        ensures
            role == self.role_spec(),
    {
        self.role
    }

    pub fn generation(&self) -> (generation: u64)
        ensures
            generation == self.generation_spec(),
    {
        self.generation
    }

    /// The invitation with these parts, where they can be one.
    pub fn from_parts(id: Id<H>, role: u8, generation: u64) -> (port: Option<Self>)
        ensures
            match port {
                Some(port) => role < 2 && 0 < generation <= ROLE_MAX_GENERATION && port.id_spec()
                    == id && port.role_spec() == role && port.generation_spec() == generation,
                None => role >= 2 || generation == 0 || generation > ROLE_MAX_GENERATION,
            },
    {
        if role >= 2 || generation == 0 || generation > ROLE_MAX_GENERATION {
            return None;
        }
        Some(Port { id, role, generation })
    }
}

#[derive(Clone, Copy, Debug, PartialEq, Eq, Structural)]
pub enum InviteError {
    Occupied,
    Terminal,
    Busy,
    Retired,
}

/// Why a channel is not closed; an item that could not be given back goes to the
/// one who closes.
#[derive(Debug)]
pub enum CloseError<T> {
    Busy,
    Evidence(T),
}

#[derive(Clone, Copy, Debug, PartialEq, Eq, Structural)]
pub enum RoleAdmitError {
    Stale,
    Occupied,
    Terminal,
    Orphaned,
    Open,
}

#[derive(Clone, Copy, Debug, PartialEq, Eq, Structural)]
pub enum ReceiveError {
    Empty,
    Busy,
    Closed,
}

} // verus!
