//! The authority word of a pool slot: who owns it, and which of its uses this
//! is.

use crate::header::PARTICIPANT_CAPACITY;
use vstd::prelude::*;

verus! {

pub const OWNER_BITS: u32 = 6;

pub const ALLOCATED: u32 = 64;

pub const GENERATION_SHIFT: u32 = 7;

pub const MAX_GENERATION: u32 = 0x1ff_ffff;

/// The authority word of a slot.
#[derive(Clone, Copy, Debug, PartialEq, Eq, Structural)]
pub struct State(pub u32);

/// What an authority word says.
pub ghost enum Authority {
    Free,
    Local(u8),
    Detached,
    /// An owner without an allocation: no word that the pool writes.
    Broken,
}

pub open spec fn generation_of(state: State) -> u32 {
    state.0 / 128
}

pub open spec fn authority_of(state: State) -> Authority {
    let owner = state.0 % 64;
    if (state.0 / 64) % 2 == 1 {
        if owner == 0 {
            Authority::Detached
        } else {
            Authority::Local((owner - 1) as u8)
        }
    } else if owner == 0 {
        Authority::Free
    } else {
        Authority::Broken
    }
}

pub open spec fn free_spec(generation: u32) -> State {
    State((generation * 128) as u32)
}

pub open spec fn local_spec(generation: u32, owner: u8) -> State {
    State((generation * 128 + 64 + owner + 1) as u32)
}

pub open spec fn detached_spec(generation: u32) -> State {
    State((generation * 128 + 64) as u32)
}

impl State {
    pub fn free(generation: u32) -> (state: Self)
        requires
            generation <= MAX_GENERATION,
        ensures
            state == free_spec(generation),
    {
        State(generation * 128)
    }

    /// The word of a local use, where the participant and the generation have
    /// one.
    pub fn local(generation: u32, owner: u8) -> (state: Option<Self>)
        ensures
            state == (if generation > MAX_GENERATION || owner >= PARTICIPANT_CAPACITY {
                None
            } else {
                Some(local_spec(generation, owner))
            }),
    {
        if generation > MAX_GENERATION || owner as u64 >= PARTICIPANT_CAPACITY {
            return None;
        }
        Some(State(generation * 128 + 64 + (owner as u32 + 1)))
    }

    pub fn detached(generation: u32) -> (state: Self)
        requires
            generation <= MAX_GENERATION,
        ensures
            state == detached_spec(generation),
    {
        State(generation * 128 + 64)
    }

    pub fn generation(self) -> (generation: u32)
        ensures
            generation == generation_of(self),
            generation <= MAX_GENERATION,
    {
        self.0 / 128
    }

    pub fn owner(self) -> (owner: Option<u8>)
        ensures
            owner == (if self.0 % 64 == 0 {
                None
            } else {
                Some((self.0 % 64 - 1) as u8)
            }),
            authority_of(self) matches Authority::Local(actual) ==> owner == Some(actual),
    {
        let owner: u32 = self.0 % 64;
        if owner == 0 {
            None
        } else {
            Some((owner - 1) as u8)
        }
    }

    pub fn allocated(self) -> (allocated: bool)
        ensures
            allocated == (authority_of(self) is Local || authority_of(self) is Detached),
    {
        (self.0 / 64) % 2 == 1
    }

    pub fn canonical(self) -> (canonical: bool)
        ensures
            canonical == !(authority_of(self) is Broken),
    {
        (self.0 / 64) % 2 == 1 || self.0 % 64 == 0
    }
}

/// Each word is read back as it was written.
pub proof fn law_authority_round_trips(generation: u32, owner: u8)
    requires
        generation <= MAX_GENERATION,
        owner < PARTICIPANT_CAPACITY,
    ensures
        authority_of(free_spec(generation)) == Authority::Free,
        generation_of(free_spec(generation)) == generation,
        authority_of(local_spec(generation, owner)) == Authority::Local(owner),
        generation_of(local_spec(generation, owner)) == generation,
        authority_of(detached_spec(generation)) == Authority::Detached,
        generation_of(detached_spec(generation)) == generation,
{
}

/// A canonical word is the word of what it says.
pub proof fn law_authority_is_its_word(state: State)
    ensures
        match authority_of(state) {
            Authority::Free => state == free_spec(generation_of(state)),
            Authority::Local(owner) => state == local_spec(generation_of(state), owner),
            Authority::Detached => state == detached_spec(generation_of(state)),
            Authority::Broken => true,
        },
        generation_of(state) <= MAX_GENERATION,
{
    let word = state.0 as int;
    let owner = word % 64;
    let half = word / 64;
    assert(word == 64 * half + owner);
    assert(half == 2 * (half / 2) + half % 2);
    assert(half / 2 == word / 128);
}

} // verus!
