//! Recovery of the change that a dead participant left behind.

use super::change::Transaction;
use super::{
    entry_word, holder, owner_word, word_owner, Directory, Error, Recovered, CLEAN, CLOSING, CREATE,
    EVIDENCE, GROW, HELD, PENDING, PUBLISHED, QUARANTINED, RELEASED, REMOVE, REMOVING,
    ROLLING_BACK, SLAB_BYTES, VACANT,
};
use crate::mem::Region;
use crate::schema::RegionId;
use crate::talc::lock::{Meta, TalckMeta};
use crate::talc::mutation::{MutationState, MUTATION_CLEAN, MUTATION_POISONED};
use vstd::prelude::*;

verus! {

/// What recovery makes of the directory and of the heap.
pub ghost struct Outcome {
    pub result: Result<Recovered, Error>,
    pub view: super::DirView,
    pub mutation: u64,
    /// The memory of the evidence is given back.
    pub freed: bool,
}

/// The change left evidence.
pub open spec fn evident(word: u64) -> bool {
    super::phase_of(word) == EVIDENCE || super::phase_of(word) == ROLLING_BACK
}

/// The entry that the evidence is about.
pub open spec fn evidence_at(view: super::DirView) -> Option<int> {
    view.position((view.slab % 0x1_0000_0000) as int, view.index as int)
}

/// The entry that a change is about.
pub open spec fn located(view: super::DirView) -> Option<int> {
    if evident(view.word) {
        evidence_at(view)
    } else {
        super::first_changing(view.entries, 0)
    }
}

/// The memory of the evidence is there wherever recovery gives it back.
pub open spec fn sound(view: super::DirView, heap: TalckMeta, heap_size: int) -> bool {
    evident(view.word) ==> {
        let state = super::state_of(view.entries[evidence_at(view)->0].state);
        &&& view.kind == CREATE && evidence_at(view) is Some && state == PENDING && heap.mutation
            == MUTATION_CLEAN ==> crate::talc::lock::holds(heap.talc, view.pending)
        &&& view.kind == REMOVE && evidence_at(view) is Some && state == CLOSING && heap.mutation
            != MUTATION_POISONED ==> crate::talc::lock::holds(heap.talc, view.pending)
        &&& view.kind == REMOVE && evidence_at(view) is Some && state == REMOVING && heap.mutation
            == MUTATION_CLEAN ==> crate::talc::lock::holds(heap.talc, view.pending)
        &&& view.kind == GROW && view.slab > 0 && view.link(view.slab - 1) == 0 && view.cut is None
            && heap.mutation == MUTATION_CLEAN ==> crate::talc::lock::holds(heap.talc, view.pending)
            && view.pending.size() == heap_size
    }
}

/// Nothing is changed, and this is why.
pub open spec fn untouched(view: super::DirView, mutation: u64, error: Error) -> Outcome {
    Outcome { result: Err(error), view, mutation, freed: false }
}

/// The change is over.
pub open spec fn ended(
    view: super::DirView,
    mutation: u64,
    freed: bool,
    result: Recovered,
) -> Outcome {
    Outcome { result: Ok(result), view: view.with_word(CLEAN), mutation, freed }
}

/// The entry is given up for good.
pub open spec fn quarantined(view: super::DirView, p: int, mutation: u64) -> Outcome {
    ended(
        view.with_state(
            p,
            super::entry_word_spec(super::generation_of(view.entries[p].state), QUARANTINED),
        ),
        mutation,
        false,
        Recovered::Quarantined,
    )
}

/// What recovery makes of a slab that was being added.
pub open spec fn growth_outcome(
    view: super::DirView,
    mutation: u64,
    base: int,
    region: Region,
    owner: u8,
    dead: bool,
) -> Outcome {
    let at = region.offset_spec(base + view.pending.start(), SLAB_BYTES as int);
    if view.slab > u32::MAX || view.slab == 0 {
        untouched(view, mutation, Error::Stale)
    } else if at is Err {
        untouched(view, mutation, Error::Admission(at->Err_0))
    } else if view.slab - 1 > view.links.len() {
        untouched(view, mutation, view.missing(view.slab - 1))
    } else if view.link(view.slab - 1) == at->Ok_0 {
        ended(view, mutation, false, Recovered::Retained)
    } else if view.link(view.slab - 1) != 0 || (view.slab - 1 == view.links.len() && view.cut
        is Some) {
        ended(view, mutation, false, Recovered::Quarantined)
    } else {
        let now = if dead && mutation == crate::talc::mutation::owner_word_spec(owner) {
            MUTATION_POISONED
        } else {
            mutation
        };
        match crate::talc::mutation::state_of(now) {
            MutationState::Clean => ended(view, MUTATION_CLEAN, true, Recovered::RolledBack),
            MutationState::Owned(found) => untouched(view, now, Error::Busy(found)),
            MutationState::Poisoned => ended(view, now, false, Recovered::Quarantined),
        }
    }
}

/// What recovery makes of the entry at `p`.
pub open spec fn entry_outcome(
    view: super::DirView,
    mutation: u64,
    dead: u8,
    closed: bool,
    p: int,
) -> Outcome {
    let word = view.entries[p].state;
    let state = super::state_of(word);
    let generation = super::generation_of(word);
    let left = evident(view.word);
    let ours = mutation == crate::talc::mutation::owner_word_spec(dead);
    let vacant = view.with_state(p, super::entry_word_spec(generation, VACANT));
    let before = view.with_state(p, super::entry_word_spec((generation - 1) as u64, VACANT));
    if view.kind == REMOVE && left && (state == CLOSING || state == RELEASED) {
        if !ours && mutation != MUTATION_CLEAN {
            match crate::talc::mutation::state_of(mutation) {
                MutationState::Poisoned => quarantined(view, p, mutation),
                MutationState::Owned(owner) => untouched(view, mutation, Error::Busy(owner)),
                MutationState::Clean => untouched(view, mutation, Error::Stale),
            }
        } else if state == RELEASED {
            ended(vacant, MUTATION_CLEAN, false, Recovered::Released)
        } else if closed {
            ended(vacant, MUTATION_CLEAN, true, Recovered::Released)
        } else {
            ended(
                view.with_state(p, super::entry_word_spec(generation, PUBLISHED)),
                MUTATION_CLEAN,
                false,
                Recovered::RolledBack,
            )
        }
    } else if view.kind == REMOVE && left && state == VACANT {
        match crate::talc::mutation::state_of(mutation) {
            MutationState::Owned(owner) => if owner != dead {
                untouched(view, mutation, Error::Busy(owner))
            } else {
                ended(view, mutation, false, Recovered::Released)
            },
            _ => ended(view, mutation, false, Recovered::Released),
        }
    } else {
        let now = if ours {
            MUTATION_POISONED
        } else {
            mutation
        };
        let creating = view.kind == CREATE && left && state == PENDING;
        let removing = view.kind == REMOVE && left && state == REMOVING;
        if super::phase_of(view.word) == HELD && state == PENDING {
            if generation == 0 {
                quarantined(view, p, now)
            } else {
                ended(before, now, false, Recovered::RolledBack)
            }
        } else if creating || removing {
            match crate::talc::mutation::state_of(now) {
                MutationState::Owned(owner) => untouched(view, now, Error::Busy(owner)),
                MutationState::Poisoned => quarantined(view, p, now),
                MutationState::Clean => if removing {
                    ended(vacant, MUTATION_CLEAN, true, Recovered::Released)
                } else if generation == 0 {
                    quarantined(view, p, now)
                } else {
                    ended(before, MUTATION_CLEAN, true, Recovered::RolledBack)
                },
            }
        } else {
            quarantined(view, p, now)
        }
    }
}

/// What recovery of a dead participant's change makes of a directory.
pub open spec fn outcome(
    view: super::DirView,
    mutation: u64,
    base: int,
    region: Region,
    dead: u8,
    closed: bool,
) -> Outcome {
    let owner = super::owner_of(view.word);
    if view.word == CLEAN {
        untouched(view, mutation, Error::Stale)
    } else if owner != dead {
        untouched(view, mutation, Error::Busy(owner))
    } else if evident(view.word) && view.kind == GROW {
        growth_outcome(view, mutation, base, region, dead, true)
    } else {
        match located(view) {
            Some(p) => entry_outcome(view, mutation, dead, closed, p),
            None => if evident(view.word) {
                untouched(view, mutation, view.missing((view.slab % 0x1_0000_0000) as int))
            } else if view.cut is Some {
                untouched(view, mutation, Error::Admission(view.cut->0))
            } else if super::phase_of(view.word) != HELD {
                untouched(view, mutation, Error::Stale)
            } else if crate::talc::mutation::state_of(mutation) == MutationState::Owned(dead) {
                ended(
                    view,
                    if mutation == crate::talc::mutation::owner_word_spec(dead) {
                        MUTATION_POISONED
                    } else {
                        mutation
                    },
                    false,
                    Recovered::Quarantined,
                )
            } else {
                ended(view, mutation, false, Recovered::RolledBack)
            },
        }
    }
}

/// The heap after recovery.
pub open spec fn heap_follows(before: TalckMeta, after: TalckMeta, pending: Meta, made: Outcome) -> bool {
    &&& after.mutation == made.mutation
    &&& if made.freed {
        crate::talc::lock::releases(before.talc, after.talc, pending)
    } else {
        after.talc == before.talc
    }
}

impl Directory {
    /// Takes the change over from whom the observed word names.
    pub fn transfer(&mut self, word: u64, dead: u8, phase: u64, live: u8) -> (taken: Result<
        Transaction,
        Error,
    >)
        requires
            phase < 4,
        ensures
            if old(self)@.word == word {
                &&& taken matches Ok(transaction)
                &&& transaction.owner_spec() == live
                &&& transaction.phase_spec() == phase
                &&& final(self)@ == old(self)@.with_word(super::owner_word_spec(live, phase))
            } else {
                &&& taken == Err::<Transaction, Error>(
                    Error::Busy(
                        if old(self)@.word == CLEAN {
                            dead
                        } else {
                            super::owner_of(old(self)@.word)
                        },
                    ),
                )
                &&& final(self)@ == old(self)@
            },
    {
        if self.transaction != word {
            return Err(
                Error::Busy(
                    match word_owner(self.transaction) {
                        Some(owner) => owner,
                        None => dead,
                    },
                ),
            );
        }
        self.transaction = owner_word(live, phase);
        Ok(Transaction::resume(live, phase))
    }

    /// Ends a change that was taken over.
    fn settle(&mut self, word: u64, dead: u8, phase: u64, live: u8)
        requires
            phase < 4,
            old(self)@.word == word,
        ensures
            final(self)@ == old(self)@.with_word(CLEAN),
    {
        match self.transfer(word, dead, phase, live) {
            Ok(transaction) => {
                self.commit(transaction);
            },
            Err(_) => {},
        }
    }

    /// Gives an entry up for good, and ends the change.
    fn quarantine(&mut self, word: u64, p: usize, live: u8) -> (given_up: Result<Recovered, Error>)
        requires
            old(self)@.word == word,
            word != CLEAN,
            p < old(self)@.entries.len(),
        ensures
            given_up == Ok::<Recovered, Error>(Recovered::Quarantined),
            final(self)@ == old(self)@.with_state(
                p as int,
                super::entry_word_spec(
                    super::generation_of(old(self)@.entries[p as int].state),
                    QUARANTINED,
                ),
            ).with_word(CLEAN),
    {
        let generation: u64 = self.entries[p].state / 8;
        self.settle(word, holder(word), word % 4, live);
        self.set_state(p, entry_word(generation, QUARANTINED));
        Ok(Recovered::Quarantined)
    }

    /// Gives the memory of the evidence back.
    fn free_pending(&mut self, heap: &mut TalckMeta, live: u8)
        requires
            old(heap).wf(),
            old(heap).mutation == MUTATION_CLEAN,
            crate::talc::lock::holds(old(heap).talc, old(self)@.pending),
        ensures
            final(heap).wf(),
            final(self)@ == old(self)@,
            final(heap).mutation == MUTATION_CLEAN,
            crate::talc::lock::releases(old(heap).talc, final(heap).talc, old(self)@.pending),
    {
        match heap.begin_mutation(live) {
            Ok(mutation) => {
                heap.deallocate_during(&mutation, self.pending);
                heap.commit(mutation);
            },
            Err(_) => {},
        }
    }

    /// Recovers the slab that was being added: it stays where it is linked, and
    /// else its memory is given back.
    pub fn recover_growth(
        &mut self,
        region: &Region,
        heap: &mut TalckMeta,
        owner: u8,
        dead: bool,
    ) -> (recovered: Result<Recovered, Error>)
        requires
            old(self)@.wf(),
            old(heap).wf(),
            region.map.start + region.map.len <= u64::MAX,
            evident(old(self)@.word),
            old(self)@.kind == GROW,
            sound(old(self)@, *old(heap), SLAB_BYTES as int),
        ensures
            final(self)@.wf(),
            final(heap).wf(),
            ({
                let made = growth_outcome(
                    old(self)@,
                    old(heap).mutation,
                    old(heap).talc.base_spec(),
                    *region,
                    owner,
                    dead,
                );
                &&& recovered == made.result
                &&& final(self)@ == made.view
                &&& heap_follows(*old(heap), *final(heap), old(self)@.pending, made)
            }),
    {
        let live: u8 = region.member.slot;
        let word: u64 = self.transaction;
        let phase: u64 = word % 4;
        if self.pending_slab > u32::MAX as u64 || self.pending_slab == 0 {
            return Err(Error::Stale);
        }
        let predecessor: u64 = self.pending_slab - 1;
        let offset: u64 = match region.offset_behind(
            heap.base_ptr(),
            self.pending.start_offset(),
            SLAB_BYTES,
        ) {
            Ok(offset) => offset,
            Err(error) => return Err(Error::Admission(error)),
        };
        let linked: u64 = self.links.len() as u64;
        if predecessor > linked {
            return Err(self.missing(predecessor as u32));
        }
        let link: u64 = if predecessor < linked {
            self.links[predecessor as usize]
        } else {
            0
        };
        if link == offset {
            self.settle(word, owner, phase, live);
            return Ok(Recovered::Retained);
        }
        if link != 0 || (predecessor == linked && self.cut.is_some()) {
            self.settle(word, owner, phase, live);
            return Ok(Recovered::Quarantined);
        }
        if dead {
            heap.poison_owner(owner);
        }
        match heap.mutation_state() {
            MutationState::Clean => {
                self.free_pending(heap, live);
                self.settle(word, owner, phase, live);
                Ok(Recovered::RolledBack)
            },
            MutationState::Owned(found) => Err(Error::Busy(found)),
            MutationState::Poisoned => {
                self.settle(word, owner, phase, live);
                Ok(Recovered::Quarantined)
            },
        }
    }

    /// Recovers a removal that was not sure yet to go through.
    #[verifier::spinoff_prover]
    fn recover_removal(
        &mut self,
        region: &Region,
        heap: &mut TalckMeta,
        dead: u8,
        closed: bool,
        p: usize,
    ) -> (recovered: Result<Recovered, Error>)
        requires
            old(self)@.wf(),
            old(heap).wf(),
            evident(old(self)@.word),
            old(self)@.kind == REMOVE,
            evidence_at(old(self)@) == Some(p as int),
            p < old(self)@.entries.len(),
            ({
                let state = super::state_of(old(self)@.entries[p as int].state);
                state == CLOSING || state == RELEASED || state == VACANT
            }),
            sound(old(self)@, *old(heap), SLAB_BYTES as int),
        ensures
            final(self)@.wf(),
            final(heap).wf(),
            ({
                let made = entry_outcome(old(self)@, old(heap).mutation, dead, closed, p as int);
                &&& recovered == made.result
                &&& final(self)@ == made.view
                &&& heap_follows(*old(heap), *final(heap), old(self)@.pending, made)
            }),
    {
        let live: u8 = region.member.slot;
        let word: u64 = self.transaction;
        let phase: u64 = word % 4;
        let observed: u64 = self.entries[p].state;
        let state: u64 = observed % 8;
        let generation: u64 = observed / 8;
        if state == VACANT {
            match heap.mutation_state() {
                MutationState::Owned(owner) => {
                    if owner != dead {
                        return Err(Error::Busy(owner));
                    }
                },
                _ => {},
            }
            self.settle(word, dead, phase, live);
            return Ok(Recovered::Released);
        }
        if !heap.clear_dead_owner(dead) {
            return match heap.mutation_state() {
                MutationState::Owned(owner) => Err(Error::Busy(owner)),
                MutationState::Poisoned => self.quarantine(word, p, live),
                MutationState::Clean => Err(Error::Stale),
            };
        }
        if state == RELEASED {
            self.settle(word, dead, phase, live);
            self.set_state(p, entry_word(generation, VACANT));
            return Ok(Recovered::Released);
        }
        if !closed {
            self.settle(word, dead, phase, live);
            self.set_state(p, entry_word(generation, PUBLISHED));
            return Ok(Recovered::RolledBack);
        }
        self.free_pending(heap, live);
        self.settle(word, dead, phase, live);
        self.set_state(p, entry_word(generation, VACANT));
        Ok(Recovered::Released)
    }

    /// Recovers the change of a dead participant. `closed` tells whether the
    /// layout that the evidence names was closed.
    #[verifier::spinoff_prover]
    pub fn recover(
        &mut self,
        region: &Region,
        heap: &mut TalckMeta,
        heap_region: RegionId,
        dead: u8,
        closed: bool,
    ) -> (recovered: Result<Recovered, Error>)
        requires
            old(self)@.wf(),
            old(heap).wf(),
            region.map.start + region.map.len <= u64::MAX,
            sound(old(self)@, *old(heap), SLAB_BYTES as int),
        ensures
            final(self)@.wf(),
            final(heap).wf(),
            final(heap).talc.same_heap(old(heap).talc),
            sound(final(self)@, *final(heap), SLAB_BYTES as int),
            if region.region != heap_region {
                &&& recovered == Err::<Recovered, Error>(Error::Stale)
                &&& final(self)@ == old(self)@
                &&& *final(heap) == *old(heap)
            } else {
                let made = outcome(
                    old(self)@,
                    old(heap).mutation,
                    old(heap).talc.base_spec(),
                    *region,
                    dead,
                    closed,
                );
                &&& recovered == made.result
                &&& final(self)@ == made.view
                &&& heap_follows(*old(heap), *final(heap), old(self)@.pending, made)
            },
    {
        if region.region != heap_region {
            return Err(Error::Stale);
        }
        let live: u8 = region.member.slot;
        let word: u64 = self.transaction;
        if word == CLEAN {
            return Err(Error::Stale);
        }
        let owner: u8 = holder(word);
        if owner != dead {
            return Err(Error::Busy(owner));
        }
        let phase: u64 = word % 4;
        let kind: u64 = self.pending_kind;
        let left = phase == EVIDENCE || phase == ROLLING_BACK;
        if left && kind == GROW {
            return self.recover_growth(region, heap, dead, true);
        }
        let location: Option<usize> = if left {
            self.locate((self.pending_slab % 0x1_0000_0000) as u32, self.pending_entry)
        } else {
            self.transition()
        };
        let p: usize = match location {
            Some(p) => p,
            None => {
                if left {
                    return Err(self.missing((self.pending_slab % 0x1_0000_0000) as u32));
                }
                match self.cut {
                    Some(error) => return Err(Error::Admission(error)),
                    None => {},
                }
                if phase != HELD {
                    return Err(Error::Stale);
                }
                let changing = match heap.mutation_state() {
                    MutationState::Owned(found) => found == dead,
                    _ => false,
                };
                if changing {
                    heap.poison_owner(dead);
                }
                self.settle(word, dead, HELD, live);
                return if changing {
                    Ok(Recovered::Quarantined)
                } else {
                    Ok(Recovered::RolledBack)
                };
            },
        };
        let observed: u64 = self.entries[p].state;
        let state: u64 = observed % 8;
        let generation: u64 = observed / 8;
        if kind == REMOVE && left && (state == CLOSING || state == RELEASED || state == VACANT) {
            return self.recover_removal(region, heap, dead, closed, p);
        }
        heap.poison_owner(dead);
        if phase == HELD && state == PENDING {
            if generation == 0 {
                return self.quarantine(word, p, live);
            }
            self.settle(word, dead, phase, live);
            self.set_state(p, entry_word(generation - 1, VACANT));
            return Ok(Recovered::RolledBack);
        }
        let creating = kind == CREATE && left && state == PENDING;
        let removing = kind == REMOVE && left && state == REMOVING;
        if !creating && !removing {
            return self.quarantine(word, p, live);
        }
        match heap.mutation_state() {
            MutationState::Owned(owner) => return Err(Error::Busy(owner)),
            MutationState::Poisoned => return self.quarantine(word, p, live),
            MutationState::Clean => {},
        }
        if creating && generation == 0 {
            return self.quarantine(word, p, live);
        }
        self.free_pending(heap, live);
        self.settle(word, dead, phase, live);
        if creating {
            self.set_state(p, entry_word(generation - 1, VACANT));
            Ok(Recovered::RolledBack)
        } else {
            self.set_state(p, entry_word(generation, VACANT));
            Ok(Recovered::Released)
        }
    }
}

} // verus!
