//! Changes to the directory, and the evidence that they leave behind.

use super::{
    owner_word, word_owner, Directory, Entry, Error, CLEAN, EVIDENCE, GROW, HELD, ROLLING_BACK,
    SLAB_BYTES, VACANT,
};
use crate::extent::Extent;
use crate::mem::Region;
use crate::talc::lock::{Meta, TalckMeta};
use crate::talc::mutation::{MutationError, MUTATION_CLEAN};
use vstd::prelude::*;

verus! {

/// The right to make the one change that may be under way.
pub struct Transaction {
    owner: u8,
    phase: u64,
}

impl Transaction {
    pub closed spec fn owner_spec(self) -> u8 {
        self.owner
    }

    pub closed spec fn phase_spec(self) -> u64 {
        self.phase
    }

    /// The word that the directory has while this change is under way.
    pub open spec fn word(self) -> u64 {
        super::owner_word_spec(self.owner_spec(), self.phase_spec())
    }

    /// This is the change that is under way.
    pub open spec fn holds(self, view: super::DirView) -> bool {
        self.phase_spec() < 4 && view.word == self.word()
    }

    pub fn owner(&self) -> (owner: u8)
        ensures
            owner == self.owner_spec(),
    {
        self.owner
    }

    /// The right to a change that a participant took over.
    pub(crate) fn resume(owner: u8, phase: u64) -> (transaction: Self)
        ensures
            transaction.owner_spec() == owner,
            transaction.phase_spec() == phase,
    {
        Transaction { owner, phase }
    }
}

impl Directory {
    /// One attempt to begin a change.
    pub fn claim(&mut self, owner: u8) -> (claimed: Result<Transaction, Error>)
        ensures
            if old(self)@.word == CLEAN {
                &&& claimed matches Ok(transaction)
                &&& transaction.owner_spec() == owner
                &&& transaction.phase_spec() == HELD
                &&& final(self)@ == old(self)@.with_word(super::owner_word_spec(owner, HELD))
            } else {
                &&& claimed == Err::<Transaction, Error>(
                    Error::Busy(super::owner_of(old(self)@.word)),
                )
                &&& final(self)@ == old(self)@
            },
    {
        match word_owner(self.transaction) {
            None => {
                self.transaction = owner_word(owner, HELD);
                Ok(Transaction { owner, phase: HELD })
            },
            Some(busy) => Err(Error::Busy(busy)),
        }
    }

    /// Writes down which memory the change is about.
    pub fn persist(
        &mut self,
        transaction: &mut Transaction,
        slab: u64,
        entry: u64,
        meta: Meta,
        kind: u64,
    )
        ensures
            final(transaction).owner_spec() == old(transaction).owner_spec(),
            final(transaction).phase_spec() == EVIDENCE,
            final(self)@ == old(self)@.with_evidence(
                slab,
                entry,
                kind,
                meta,
                old(transaction).owner_spec(),
            ),
    {
        self.pending_slab = slab;
        self.pending_entry = entry;
        self.pending_kind = kind;
        self.pending = meta;
        self.transaction = owner_word(transaction.owner, EVIDENCE);
        transaction.phase = EVIDENCE;
    }

    /// Withdraws the evidence.
    pub fn clear_pending(&mut self, transaction: &mut Transaction)
        ensures
            final(transaction).owner_spec() == old(transaction).owner_spec(),
            final(transaction).phase_spec() == HELD,
            final(self)@ == old(self)@.with_word(
                super::owner_word_spec(old(transaction).owner_spec(), HELD),
            ),
    {
        transaction.phase = HELD;
        self.transaction = owner_word(transaction.owner, HELD);
    }

    /// Ends the change.
    pub fn commit(&mut self, transaction: Transaction) -> (committed: bool)
        requires
            transaction.phase_spec() < 4,
        ensures
            committed == transaction.holds(old(self)@),
            final(self)@ == (if committed {
                old(self)@.with_word(CLEAN)
            } else {
                old(self)@
            }),
    {
        if self.transaction == owner_word(transaction.owner, transaction.phase) {
            self.transaction = CLEAN;
            true
        } else {
            false
        }
    }

    /// Gives the change up: one that left evidence has to be undone later.
    pub fn give_up(&mut self, transaction: Transaction)
        ensures
            final(self)@ == (if transaction.phase_spec() == EVIDENCE && transaction.holds(
                old(self)@,
            ) {
                old(self)@.with_word(
                    super::owner_word_spec(transaction.owner_spec(), ROLLING_BACK),
                )
            } else {
                old(self)@
            }),
    {
        if transaction.phase == EVIDENCE && self.transaction == owner_word(
            transaction.owner,
            EVIDENCE,
        ) {
            self.transaction = owner_word(transaction.owner, ROLLING_BACK);
        }
    }

    /// Writes the state of an entry.
    pub fn set_state(&mut self, p: usize, state: u64)
        requires
            p < old(self)@.entries.len(),
        ensures
            final(self)@ == old(self)@.with_state(p as int, state),
    {
        self.entries[p].state = state;
    }
}

/// The extent of a slab.
pub open spec fn slab_extent() -> Extent {
    Extent { size: SLAB_BYTES, align: 8 }
}

/// What growing the directory by a slab does, for the participant `owner` in
/// the middle of a change.
pub open spec fn grows(
    before: super::DirView,
    after: super::DirView,
    heap: TalckMeta,
    heap_after: TalckMeta,
    region: Region,
    owner: u8,
    grown: Result<(), Error>,
) -> bool {
    if before.cut is Some {
        grown == Err::<(), Error>(Error::Admission(before.cut->0)) && after == before
            && heap_after == heap
    } else if before.links.len() >= u32::MAX {
        grown == Err::<(), Error>(Error::Full) && after == before && heap_after == heap
    } else {
        match crate::talc::lock::mutation_refused(heap.mutation) {
            Some(error) => grown == Err::<(), Error>(Error::Heap(error)) && after == before
                && heap_after == heap,
            None => exists|talc: crate::talc::heap::TalcMeta, found: Result<Meta, MutationError>|
                {
                    &&& #[trigger] crate::talc::lock::allocates(
                        heap.talc,
                        talc,
                        slab_extent(),
                        found,
                    )
                    &&& heap_after.mutation == MUTATION_CLEAN
                    &&& match found {
                        Err(error) => grown == Err::<(), Error>(Error::Heap(error)) && after
                            == before && heap_after.talc == talc,
                        Ok(meta) => match region.offset_spec(
                            heap.talc.base_spec() + meta.start(),
                            SLAB_BYTES as int,
                        ) {
                            Err(error) => grown == Err::<(), Error>(Error::Admission(error))
                                && after == before && crate::talc::lock::releases(
                                talc,
                                heap_after.talc,
                                meta,
                            ),
                            Ok(offset) => grown is Ok && heap_after.talc == talc && after
                                == super::DirView {
                                slab: (before.links.len() + 1) as u64,
                                index: 0,
                                kind: GROW,
                                pending: meta,
                                word: super::owner_word_spec(owner, HELD),
                                ..before.linked(offset)
                            },
                        },
                    }
                },
        }
    }
}

/// The heap lies behind the root of its region.
pub open spec fn behind_root(region: Region, heap: TalckMeta) -> bool {
    &&& region.map.start + region.map.len <= u64::MAX
    &&& region.map.start < heap.talc.base_spec()
}

impl Directory {
    fn push_slab(&mut self, offset: u64)
        requires
            old(self)@.wf(),
            old(self)@.links.len() < u32::MAX,
            offset != 0,
        ensures
            final(self)@.wf(),
            final(self)@ == old(self)@.linked(offset),
    {
        let ghost before = self@;
        let mut added: usize = 0;
        while added < 32
            invariant
                added <= 32,
                before == old(self)@,
                self@.word == before.word,
                self@.slab == before.slab,
                self@.index == before.index,
                self@.kind == before.kind,
                self@.pending == before.pending,
                self@.links == before.links,
                self@.cut == before.cut,
                self@.entries == before.entries + Seq::new(
                    added as nat,
                    |i: int| Entry { state: VACANT, offset: 0 },
                ),
            decreases 32 - added,
        {
            self.entries.push(Entry { state: VACANT, offset: 0 });
            added = added + 1;
            assert(self@.entries =~= before.entries + Seq::new(
                added as nat,
                |i: int| Entry { state: VACANT, offset: 0 },
            ));
        }
        self.links.push(offset);
        assert(self@.entries =~= before.linked(offset).entries);
    }

    /// Adds a slab to the directory in the middle of a change.
    #[verifier::spinoff_prover]
    pub fn grow(&mut self, region: &Region, heap: &mut TalckMeta, transaction: &mut Transaction) -> (
    grown: Result<(), Error>)
        requires
            old(self)@.wf(),
            old(heap).wf(),
            behind_root(*region, *old(heap)),
            old(transaction).phase_spec() == HELD,
            old(transaction).holds(old(self)@),
        ensures
            final(self)@.wf(),
            final(heap).wf(),
            final(transaction).owner_spec() == old(transaction).owner_spec(),
            final(transaction).phase_spec() == HELD,
            final(transaction).holds(final(self)@),
            grows(
                old(self)@,
                final(self)@,
                *old(heap),
                *final(heap),
                *region,
                old(transaction).owner_spec(),
                grown,
            ),
    {
        let ghost before = self@;
        let ghost heap0 = *heap;
        match self.cut {
            Some(error) => return Err(Error::Admission(error)),
            None => {},
        }
        let tail: u64 = self.links.len() as u64;
        if tail >= u32::MAX as u64 {
            return Err(Error::Full);
        }
        proof {
            crate::header::layout::lemma_small_alignments();
        }
        let mutation = match heap.begin_mutation(transaction.owner) {
            Ok(mutation) => mutation,
            Err(error) => return Err(Error::Heap(error)),
        };
        let layout = Extent { size: SLAB_BYTES, align: 8 };
        let found = heap.allocate_during(&mutation, layout);
        let ghost talc = heap.talc;
        assert(crate::talc::lock::allocates(heap0.talc, talc, slab_extent(), found));
        let meta = match found {
            Ok(meta) => meta,
            Err(error) => {
                heap.commit(mutation);
                return Err(Error::Heap(error));
            },
        };
        let offset: u64 = match region.offset_behind(
            heap.base_ptr(),
            meta.start_offset(),
            SLAB_BYTES,
        ) {
            Ok(offset) => offset,
            Err(error) => {
                heap.deallocate_during(&mutation, meta);
                heap.commit(mutation);
                return Err(Error::Admission(error));
            },
        };
        self.persist(transaction, tail + 1, 0, meta, GROW);
        heap.commit(mutation);
        self.push_slab(offset);
        self.clear_pending(transaction);
        Ok(())
    }
}

} // verus!
