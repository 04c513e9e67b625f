//! The word that lets one participant at a time change the heap, and that
//! stays poisoned once a participant died doing so.

use vstd::prelude::*;

verus! {

pub const MUTATION_CLEAN: u64 = 0;

pub const MUTATION_POISONED: u64 = 0xffff_ffff_ffff_ffff;

#[derive(Clone, Copy, Debug, PartialEq, Eq, Structural)]
pub enum MutationError {
    Busy(u8),
    Poisoned,
    Exhausted,
    LayoutOverflow,
}

#[derive(Clone, Copy, Debug, PartialEq, Eq, Structural)]
pub enum MutationState {
    Clean,
    Owned(u8),
    Poisoned,
}

/// What the mutation word says.
pub open spec fn state_of(word: u64) -> MutationState {
    if word == MUTATION_CLEAN {
        MutationState::Clean
    } else if word == MUTATION_POISONED {
        MutationState::Poisoned
    } else {
        MutationState::Owned((word - 1) as u8)
    }
}

/// The word of an owner.
pub open spec fn owner_word_spec(slot: u8) -> u64 {
    (slot + 1) as u64
}

pub fn owner_word(slot: u8) -> (word: u64)
    ensures
        word == owner_word_spec(slot),
{
    slot as u64 + 1
}

pub fn mutation_state(word: u64) -> (state: MutationState)
    ensures
        state == state_of(word),
{
    if word == MUTATION_CLEAN {
        MutationState::Clean
    } else if word == MUTATION_POISONED {
        MutationState::Poisoned
    } else {
        MutationState::Owned((word - 1) as u8)
    }
}

/// The right to change the heap, held by one participant.
pub struct Mutation {
    owner: u8,
}

impl Mutation {
    pub closed spec fn owner_spec(self) -> u8 {
        self.owner
    }

    /// One attempt at the right: taken where nobody holds it, else the holder.
    pub fn claim(state: &mut u64, owner: u8) -> (claimed: Result<Self, MutationError>)
        ensures
            match state_of(*old(state)) {
                MutationState::Clean => claimed matches Ok(mutation) && mutation.owner_spec()
                    == owner && *final(state) == owner_word_spec(owner),
                MutationState::Owned(holder) => claimed == Err::<Mutation, MutationError>(
                    MutationError::Busy(holder),
                ) && *final(state) == *old(state),
                MutationState::Poisoned => claimed == Err::<Mutation, MutationError>(
                    MutationError::Poisoned,
                ) && *final(state) == *old(state),
            },
    {
        if *state == MUTATION_CLEAN {
            *state = owner_word(owner);
            Ok(Mutation { owner })
        } else if *state == MUTATION_POISONED {
            Err(MutationError::Poisoned)
        } else {
            Err(MutationError::Busy((*state - 1) as u8))
        }
    }

    /// Whether this is the right that `owner` holds.
    pub fn owns(&self, owner: u8) -> (owns: bool)
        ensures
            owns == (self.owner_spec() == owner),
    {
        self.owner == owner
    }

    /// Gives the right back after a complete change.
    pub fn commit(self, state: &mut u64)
        ensures
            *final(state) == MUTATION_CLEAN,
    {
        *state = MUTATION_CLEAN;
    }

    /// Gives the right up in the middle of a change: nobody gets it again.
    pub fn abandon(self, state: &mut u64)
        ensures
            *final(state) == MUTATION_POISONED,
    {
        *state = MUTATION_POISONED;
    }
}

/// Poisons the word where `owner` holds it, and only there.
pub fn poison_mutation(state: &mut u64, owner: u8) -> (poisoned: bool)
    ensures
        poisoned == (*old(state) == owner_word_spec(owner)),
        *final(state) == (if poisoned {
            MUTATION_POISONED
        } else {
            *old(state)
        }),
{
    if *state == owner_word(owner) {
        *state = MUTATION_POISONED;
        true
    } else {
        false
    }
}

/// Gives back the right of a participant that died without changing the heap.
pub fn clear_dead_owner(state: &mut u64, owner: u8) -> (clean: bool)
    ensures
        clean == (*old(state) == owner_word_spec(owner) || *old(state) == MUTATION_CLEAN),
        *final(state) == (if clean {
            MUTATION_CLEAN
        } else {
            *old(state)
        }),
{
    if *state == owner_word(owner) {
        *state = MUTATION_CLEAN;
        true
    } else {
        *state == MUTATION_CLEAN
    }
}

/// An owner's word tells the owner, and no owner's word is clean or poisoned.
pub proof fn law_owner_word_round_trips(slot: u8)
    ensures
        state_of(owner_word_spec(slot)) == MutationState::Owned(slot),
{
}

/// No word of one owner is the word of another.
pub proof fn law_owner_words_differ(first: u8, second: u8)
    requires
        first != second,
    ensures
        owner_word_spec(first) != owner_word_spec(second),
{
}

} // verus!
