//! Participants of a region, and the generations that tell their lives apart.

use super::PARTICIPANT_CAPACITY;
use vstd::prelude::*;

verus! {

pub const MEMBER_FREE: u64 = 0;

pub const MEMBER_LIVE: u64 = 1;

pub const MEMBER_DEAD: u64 = 2;

pub const MEMBER_RETIRED: u64 = 3;

pub const MEMBER_GENERATION_MAX: u64 = 0x3fff_ffff_ffff_ffff;

/// One life of one participant.
#[derive(Clone, Copy, Debug, PartialEq, Eq, Structural)]
pub struct Member {
    pub slot: u8,
    pub generation: u64,
}

/// The state of a participant's word: its two low bits.
pub open spec fn state_of(word: u64) -> u64 {
    word % 4
}

/// The generation of a participant's word: the bits above.
pub open spec fn generation_of(word: u64) -> u64 {
    word / 4
}

/// The word of a member in a state.
pub open spec fn word_of(generation: u64, state: u64) -> u64 {
    (4 * generation + state) as u64
}

/// Whether a member's generation can be written into a word.
pub open spec fn in_range(member: Member) -> bool {
    member.generation <= MEMBER_GENERATION_MAX
}

/// The participants of one region.
pub struct Root {
    pub members: Vec<u64>,
}

/// A word that a participant can take: free, with a generation left.
pub open spec fn joinable(word: u64) -> bool {
    state_of(word) == MEMBER_FREE && generation_of(word) < MEMBER_GENERATION_MAX
}

/// What a search leaves of a word that it passes: a free word without a
/// generation left is retired.
pub open spec fn passed(word: u64) -> u64 {
    if word == word_of(MEMBER_GENERATION_MAX, MEMBER_FREE) {
        word_of(MEMBER_GENERATION_MAX, MEMBER_RETIRED)
    } else {
        word
    }
}

/// The words after the first joinable one, at `slot`, was taken.
pub open spec fn joined(words: Seq<u64>, slot: int) -> Seq<u64> {
    Seq::new(
        words.len(),
        |i: int|
            if i < slot {
                passed(words[i])
            } else if i == slot {
                word_of((generation_of(words[i]) + 1) as u64, MEMBER_LIVE)
            } else {
                words[i]
            },
    )
}

impl Root {
    pub open spec fn wf(self) -> bool {
        self.members@.len() == PARTICIPANT_CAPACITY
    }

    /// Nobody has ever joined.
    pub fn new() -> (root: Self)
        ensures
            root.wf(),
            forall|i: int| 0 <= i < root.members@.len() ==> #[trigger] root.members@[i] == 0,
    {
        let mut members: Vec<u64> = Vec::new();
        while members.len() < 63
            invariant
                members@.len() <= 63,
                forall|i: int| 0 <= i < members@.len() ==> #[trigger] members@[i] == 0,
            decreases 63 - members@.len(),
        {
            members.push(0);
        }
        Root { members }
    }

    /// Takes the first free word, under a generation that it never had.
    pub fn join(&mut self) -> (member: Option<Member>)
        requires
            old(self).wf(),
        ensures
            final(self).wf(),
            match member {
                Some(member) => {
                    let words = old(self).members@;
                    let slot = member.slot as int;
                    &&& 0 <= slot < words.len()
                    &&& joinable(words[slot])
                    &&& forall|i: int| 0 <= i < slot ==> !joinable(#[trigger] words[i])
                    &&& member.generation == generation_of(words[slot]) + 1
                    &&& final(self).members@ == joined(words, slot)
                },
                None => {
                    let words = old(self).members@;
                    &&& forall|i: int| 0 <= i < words.len() ==> !joinable(#[trigger] words[i])
                    &&& final(self).members@ == joined(words, words.len() as int)
                },
            },
    {
        let ghost words = self.members@;
        let mut slot: usize = 0;
        while slot < self.members.len()
            invariant
                words == old(self).members@,
                words.len() == 63,
                slot <= words.len(),
                self.members@.len() == words.len(),
                forall|i: int| 0 <= i < slot ==> !joinable(#[trigger] words[i]),
                forall|i: int|
                    0 <= i < words.len() ==> #[trigger] self.members@[i] == (if i < slot {
                        passed(words[i])
                    } else {
                        words[i]
                    }),
            decreases words.len() - slot,
        {
            let observed: u64 = self.members[slot];
            if observed % 4 == MEMBER_FREE {
                let prior: u64 = observed / 4;
                if prior == MEMBER_GENERATION_MAX {
                    self.members[slot] = 4 * prior + MEMBER_RETIRED;
                } else {
                    let generation: u64 = prior + 1;
                    self.members[slot] = 4 * generation + MEMBER_LIVE;
                    assert(self.members@ =~= joined(words, slot as int));
                    return Some(Member { slot: slot as u8, generation });
                }
            }
            slot = slot + 1;
        }
        assert(self.members@ =~= joined(words, words.len() as int));
        None
    }

    fn change(&mut self, member: Member, from: u64, to: u64) -> (changed: bool)
        requires
            old(self).wf(),
            in_range(member),
            from < 4,
            to < 4,
        ensures
            final(self).wf(),
            changed == old(self).is(member, from),
            final(self).members@ == (if changed {
                old(self).members@.update(member.slot as int, word_of(member.generation, to))
            } else {
                old(self).members@
            }),
    {
        let slot: usize = member.slot as usize;
        if slot >= self.members.len() {
            return false;
        }
        if self.members[slot] == 4 * member.generation + from {
            self.members[slot] = 4 * member.generation + to;
            true
        } else {
            false
        }
    }

    /// Whether this very life of a participant is in a state.
    pub open spec fn is(self, member: Member, state: u64) -> bool {
        member.slot < self.members@.len() && self.members@[member.slot as int] == word_of(
            member.generation,
            state,
        )
    }

    /// Ends a life in good order: its word can be taken again.
    pub fn leave(&mut self, member: Member) -> (left: bool)
        requires
            old(self).wf(),
            in_range(member),
        ensures
            final(self).wf(),
            left == old(self).is(member, MEMBER_LIVE),
            final(self).members@ == (if left {
                old(self).members@.update(
                    member.slot as int,
                    word_of(member.generation, MEMBER_FREE),
                )
            } else {
                old(self).members@
            }),
    {
        self.change(member, MEMBER_LIVE, MEMBER_FREE)
    }

    /// Records that a live participant died.
    pub fn mark_dead(&mut self, member: Member) -> (marked: bool)
        requires
            old(self).wf(),
            in_range(member),
        ensures
            final(self).wf(),
            marked == old(self).is(member, MEMBER_LIVE),
            final(self).members@ == (if marked {
                old(self).members@.update(
                    member.slot as int,
                    word_of(member.generation, MEMBER_DEAD),
                )
            } else {
                old(self).members@
            }),
    {
        self.change(member, MEMBER_LIVE, MEMBER_DEAD)
    }

    pub fn is_dead(&self, member: Member) -> (dead: bool)
        requires
            self.wf(),
            in_range(member),
        ensures
            dead == self.is(member, MEMBER_DEAD),
    {
        let slot: usize = member.slot as usize;
        slot < self.members.len() && self.members[slot] == 4 * member.generation + MEMBER_DEAD
    }

    /// Frees the word of a dead participant, or retires it where it has no
    /// generation left.
    pub fn release_dead(&mut self, member: Member) -> (released: bool)
        requires
            old(self).wf(),
            in_range(member),
        ensures
            final(self).wf(),
            released == old(self).is(member, MEMBER_DEAD),
            final(self).members@ == (if released {
                old(self).members@.update(
                    member.slot as int,
                    word_of(
                        member.generation,
                        if member.generation == MEMBER_GENERATION_MAX {
                            MEMBER_RETIRED
                        } else {
                            MEMBER_FREE
                        },
                    ),
                )
            } else {
                old(self).members@
            }),
    {
        let next: u64 = if member.generation == MEMBER_GENERATION_MAX {
            MEMBER_RETIRED
        } else {
            MEMBER_FREE
        };
        self.change(member, MEMBER_DEAD, next)
    }
}

/// A member's word is read back as it was written.
pub proof fn law_member_word_round_trips(generation: u64, state: u64)
    requires
        generation <= MEMBER_GENERATION_MAX,
        state < 4,
    ensures
        state_of(word_of(generation, state)) == state,
        generation_of(word_of(generation, state)) == generation,
{
}

/// A dead participant's word is not taken before it is released.
pub proof fn law_dead_words_are_not_joined(words: Seq<u64>, slot: int, member: Member)
    requires
        0 <= slot <= words.len(),
        member.slot < words.len(),
        in_range(member),
        words[member.slot as int] == word_of(member.generation, MEMBER_DEAD),
        slot < words.len() ==> joinable(words[slot]),
    ensures
        joined(words, slot)[member.slot as int] == word_of(member.generation, MEMBER_DEAD),
{
}

/// A new life has a generation above every one that its word ever showed, so
/// no earlier life of that word can leave, die or be released any more.
pub proof fn law_new_life_outdates_old_ones(words: Seq<u64>, slot: int, stale: Member, state: u64)
    requires
        0 <= slot < words.len(),
        joinable(words[slot]),
        stale.slot == slot,
        stale.generation <= generation_of(words[slot]),
        state < 4,
    ensures
        joined(words, slot)[slot] != word_of(stale.generation, state),
        generation_of(joined(words, slot)[slot]) == generation_of(words[slot]) + 1,
{
}

/// No step lowers the generation of any word.
pub proof fn law_generations_never_fall(words: Seq<u64>, slot: int, i: int)
    requires
        0 <= slot <= words.len(),
        0 <= i < words.len(),
        slot < words.len() ==> joinable(words[slot]),
    ensures
        generation_of(joined(words, slot)[i]) >= generation_of(words[i]),
{
}

/// A word can be taken exactly where nobody has it and a generation is left: one
/// that was never taken, that its participant left or that was released after a
/// death, and never that of a participant that lives or whose death is not
/// settled.
pub proof fn law_words_that_nobody_has_can_be_taken(generation: u64, state: u64)
    requires
        generation <= MEMBER_GENERATION_MAX,
        state < 4,
    ensures
        joinable(word_of(generation, state)) <==> state == MEMBER_FREE && generation
            < MEMBER_GENERATION_MAX,
        joinable(0),
        MEMBER_FREE != MEMBER_LIVE && MEMBER_FREE != MEMBER_DEAD && MEMBER_FREE != MEMBER_RETIRED
            && MEMBER_LIVE != MEMBER_DEAD && MEMBER_LIVE != MEMBER_RETIRED && MEMBER_DEAD
            != MEMBER_RETIRED,
{
}

/// Joining gives the word to a new life, and takes no word from anybody: every
/// other participant that lives or is dead is so afterwards, under its
/// generation, and a word that nobody has is not given to anybody.
pub proof fn law_joining_takes_one_word(words: Seq<u64>, slot: int, other: int)
    requires
        0 <= slot < words.len(),
        joinable(words[slot]),
        0 <= other < words.len(),
        other != slot,
    ensures
        joined(words, slot).len() == words.len(),
        state_of(joined(words, slot)[slot]) == MEMBER_LIVE,
        generation_of(joined(words, slot)[slot]) > generation_of(words[slot]),
        generation_of(joined(words, slot)[other]) == generation_of(words[other]),
        state_of(words[other]) != MEMBER_FREE ==> joined(words, slot)[other] == words[other],
        state_of(words[other]) == MEMBER_FREE ==> state_of(joined(words, slot)[other])
            == MEMBER_FREE || (state_of(joined(words, slot)[other]) == MEMBER_RETIRED
            && !joinable(words[other])),
        joinable(words[other]) ==> joinable(joined(words, slot)[other]),
{
}

/// A life that ended in good order, and one whose death was settled, leave a word
/// that the next life takes under a generation of its own.
pub proof fn law_words_outlive_their_lives(root: Root, member: Member, freed: Seq<u64>)
    requires
        root.wf(),
        in_range(member),
        member.slot < root.members@.len(),
        root.is(member, MEMBER_LIVE) || root.is(member, MEMBER_DEAD),
        member.generation < MEMBER_GENERATION_MAX,
        freed == root.members@.update(
            member.slot as int,
            word_of(member.generation, MEMBER_FREE),
        ),
    ensures
        joinable(freed[member.slot as int]),
        !joinable(root.members@[member.slot as int]),
        generation_of(joined(freed, member.slot as int)[member.slot as int]) == member.generation
            + 1,
{
}

} // verus!
