//! Creation of layouts: their memory is taken, written down, initialized and
//! then published, so that whoever dies on the way leaves a trail.

use super::change::Transaction;
use super::{
    entry_word, owner_word, Directory, Entry, Error, Id, CLEAN, CREATE, EVIDENCE, GROW, HELD,
    PENDING, PUBLISHED, ROLLING_BACK,
};
use crate::extent::Extent;
use crate::header::layout::{Layout, RcHeader};
use crate::mem::{ProjectionError, Region};
use crate::schema::{LayoutContext, RegionId};
use crate::talc::lock::{Meta, TalckMeta};
use crate::talc::mutation::{MutationError, MUTATION_CLEAN};
use vstd::prelude::*;

verus! {

/// Memory of a layout that is not published yet.
#[derive(Clone, Copy, Debug, PartialEq, Eq, Structural)]
pub struct Prepared {
    pub meta: Meta,
    pub offset: u64,
}

/// The directory while the entry `p` waits for its layout.
pub open spec fn prepared(view: super::DirView, p: int, meta: Meta, owner: u8) -> super::DirView {
    view.with_state(
        p,
        super::entry_word_spec(
            (super::generation_of(view.entries[p].state) + 1) as u64,
            PENDING,
        ),
    ).with_evidence((p / 32) as u64, (p % 32) as u64, CREATE, meta, owner)
}

/// What taking the memory of a layout does, for the participant `owner` in the
/// middle of a change.
pub open spec fn prepares(
    before: super::DirView,
    after: super::DirView,
    heap: TalckMeta,
    heap_after: TalckMeta,
    region: Region,
    owner: u8,
    p: int,
    layout: Extent,
    made: Result<Prepared, Error>,
) -> bool {
    match crate::talc::lock::mutation_refused(heap.mutation) {
        Some(error) => made == Err::<Prepared, Error>(Error::Heap(error)) && after == before
            && heap_after == heap,
        None => exists|talc: crate::talc::heap::TalcMeta, found: Result<Meta, MutationError>|
            {
                &&& #[trigger] crate::talc::lock::allocates(heap.talc, talc, layout, found)
                &&& heap_after.mutation == MUTATION_CLEAN
                &&& match found {
                    Err(error) => made == Err::<Prepared, Error>(Error::Heap(error)) && after
                        == before && heap_after.talc == talc,
                    Ok(meta) => match region.offset_spec(
                        heap.talc.base_spec() + meta.start(),
                        layout.size as int,
                    ) {
                        Err(error) => made == Err::<Prepared, Error>(Error::Admission(error))
                            && after == before && crate::talc::lock::releases(
                            talc,
                            heap_after.talc,
                            meta,
                        ),
                        Ok(offset) => made == Ok::<Prepared, Error>(Prepared { meta, offset })
                            && after == prepared(before, p, meta, owner) && heap_after.talc == talc,
                    },
                }
            },
    }
}

/// What admission finds in memory that was just taken: it is made there, or it
/// cannot be reached, or its configuration makes none.
pub open spec fn makes<L: Layout>(
    region: Region,
    offset: u64,
    conf: L::Config,
    made: Result<RcHeader<L>, ProjectionError>,
) -> bool {
    let storage = L::storage_spec(conf);
    match region.projection_refused(offset, storage) {
        Some(error) => made == Err::<RcHeader<L>, ProjectionError>(error),
        None => exists|zero: RcHeader<L>, header: RcHeader<L>, refused: Option<ProjectionError>|
            {
                &&& zero.record@ == crate::header::record::zero_record()
                &&& #[trigger] crate::mem::admission(
                    zero,
                    header,
                    (region.map.start + offset) as u64,
                    conf,
                    LayoutContext { region: region.region, offset, allow_init: true },
                    region.member.slot,
                    storage->0,
                    refused,
                )
                &&& match refused {
                    Some(error) => made == Err::<RcHeader<L>, ProjectionError>(error),
                    None => made == Ok::<RcHeader<L>, ProjectionError>(header),
                }
            },
    }
}

/// What publishing a prepared layout does; where it cannot be made its memory is
/// given back, or is left to be given back later.
pub open spec fn publishes<L: Layout>(
    before: super::DirView,
    after: super::DirView,
    heap: TalckMeta,
    heap_after: TalckMeta,
    region: Region,
    p: int,
    memory: Prepared,
    conf: L::Config,
    made: Result<(Id, RcHeader<L>), Error>,
) -> bool {
    let generation = super::generation_of(before.entries[p].state);
    exists|header: Result<RcHeader<L>, ProjectionError>|
        {
            &&& #[trigger] makes(region, memory.offset, conf, header)
            &&& match header {
                Ok(header) => {
                    &&& made == Ok::<(Id, RcHeader<L>), Error>(
                        (super::id_at(region.region, p, generation), header),
                    )
                    &&& after == before.with_entry(
                        p,
                        Entry {
                            state: super::entry_word_spec(generation, PUBLISHED),
                            offset: memory.offset,
                        },
                    ).with_word(CLEAN)
                    &&& heap_after == heap
                },
                Err(error) => match crate::talc::lock::mutation_refused(heap.mutation) {
                    Some(busy) => {
                        &&& made == Err::<(Id, RcHeader<L>), Error>(Error::Heap(busy))
                        &&& after == before.with_word(
                            super::owner_word_spec(region.member.slot, ROLLING_BACK),
                        )
                        &&& heap_after == heap
                    },
                    None => {
                        &&& made == Err::<(Id, RcHeader<L>), Error>(Error::Admission(error))
                        &&& after == before.with_state(
                            p,
                            super::entry_word_spec((generation - 1) as u64, super::VACANT),
                        ).with_word(CLEAN)
                        &&& heap_after.mutation == MUTATION_CLEAN
                        &&& crate::talc::lock::releases(heap.talc, heap_after.talc, memory.meta)
                    },
                },
            }
        }
}

impl Directory {
    /// Takes the memory of a layout for the entry `p`, and writes it down.
    #[verifier::spinoff_prover]
    pub fn prepare(
        &mut self,
        region: &Region,
        heap: &mut TalckMeta,
        transaction: &mut Transaction,
        p: usize,
        layout: Extent,
    ) -> (made: Result<Prepared, Error>)
        requires
            old(self)@.wf(),
            old(heap).wf(),
            region.map.start + region.map.len <= u64::MAX,
            layout.wf(),
            layout.size > 0,
            old(transaction).phase_spec() == HELD,
            old(transaction).holds(old(self)@),
            p < old(self)@.entries.len(),
            super::is_free(old(self)@.entries[p as int]),
        ensures
            final(self)@.wf(),
            final(heap).wf(),
            final(heap).talc.same_heap(old(heap).talc),
            final(transaction).owner_spec() == old(transaction).owner_spec(),
            final(transaction).phase_spec() == (if made is Ok {
                EVIDENCE
            } else {
                HELD
            }),
            final(transaction).holds(final(self)@),
            made matches Ok(memory) ==> crate::talc::lock::holds(final(heap).talc, memory.meta),
            prepares(
                old(self)@,
                final(self)@,
                *old(heap),
                *final(heap),
                *region,
                old(transaction).owner_spec(),
                p as int,
                layout,
                made,
            ),
    {
        let ghost before = self@;
        let ghost heap0 = *heap;
        let vacant: u64 = self.entries[p].state;
        let generation: u64 = vacant / 8 + 1;
        self.set_state(p, entry_word(generation, PENDING));
        let mutation = match heap.begin_mutation(transaction.owner()) {
            Ok(mutation) => mutation,
            Err(error) => {
                self.set_state(p, vacant);
                assert(self@.entries =~= before.entries);
                return Err(Error::Heap(error));
            },
        };
        let found = heap.allocate_during(&mutation, layout);
        let ghost talc = heap.talc;
        assert(crate::talc::lock::allocates(heap0.talc, talc, layout, found));
        let meta = match found {
            Ok(meta) => meta,
            Err(error) => {
                heap.commit(mutation);
                self.set_state(p, vacant);
                assert(self@.entries =~= before.entries);
                return Err(Error::Heap(error));
            },
        };
        let offset: u64 = match region.offset_behind(
            heap.base_ptr(),
            meta.start_offset(),
            layout.size,
        ) {
            Ok(offset) => offset,
            Err(error) => {
                heap.deallocate_during(&mutation, meta);
                heap.commit(mutation);
                self.set_state(p, vacant);
                assert(self@.entries =~= before.entries);
                return Err(Error::Admission(error));
            },
        };
        self.persist(transaction, (p / 32) as u64, (p % 32) as u64, meta, CREATE);
        heap.commit(mutation);
        Ok(Prepared { meta, offset })
    }

    /// Makes a prepared layout and publishes it.
    #[verifier::spinoff_prover]
    pub fn publish<L: Layout>(
        &mut self,
        region: &Region,
        heap: &mut TalckMeta,
        transaction: Transaction,
        p: usize,
        memory: Prepared,
        conf: L::Config,
    ) -> (made: Result<(Id, RcHeader<L>), Error>)
        requires
            old(self)@.wf(),
            old(heap).wf(),
            region.wf(),
            region.map.start + region.map.len <= u64::MAX,
            crate::header::layout::header_fits(L::info_extent_spec(), L::body_spec()),
            L::storage_spec(conf) matches Some(extent) ==> extent.wf(),
            transaction.phase_spec() == EVIDENCE,
            transaction.owner_spec() == region.member.slot,
            transaction.holds(old(self)@),
            p < old(self)@.entries.len(),
            super::generation_of(old(self)@.entries[p as int].state) > 0,
            crate::talc::lock::holds(old(heap).talc, memory.meta),
        ensures
            final(self)@.wf(),
            final(heap).wf(),
            final(heap).talc.same_heap(old(heap).talc),
            made matches Ok((_, header)) ==> header.wf(),
            publishes::<L>(
                old(self)@,
                final(self)@,
                *old(heap),
                *final(heap),
                *region,
                p as int,
                memory,
                conf,
                made,
            ),
    {
        let ghost before = self@;
        let mut transaction = transaction;
        let generation: u64 = self.entries[p].state / 8;
        let mut header = RcHeader::<L>::zeroed();
        let ghost zero = header;
        let admitted = region.admit_at(&mut header, memory.offset, conf, true);
        match admitted {
            Ok(()) => {
                proof {
                    assert(crate::mem::admission(
                        zero,
                        header,
                        (region.map.start + memory.offset) as u64,
                        conf,
                        LayoutContext {
                            region: region.region,
                            offset: memory.offset,
                            allow_init: true,
                        },
                        region.member.slot,
                        L::storage_spec(conf)->0,
                        None,
                    ));
                    assert(makes(*region, memory.offset, conf, Ok::<RcHeader<L>, ProjectionError>(header)));
                }
                self.entries[p].offset = memory.offset;
                self.set_state(p, entry_word(generation, PUBLISHED));
                self.clear_pending(&mut transaction);
                self.commit(transaction);
                let id = Id {
                    region: region.region,
                    slab: (p / 32) as u32,
                    entry: (p % 32) as u32,
                    generation,
                };
                assert(self@.entries =~= before.with_entry(
                    p as int,
                    Entry {
                        state: super::entry_word_spec(generation, PUBLISHED),
                        offset: memory.offset,
                    },
                ).entries);
                Ok((id, header))
            },
            Err(error) => {
                proof {
                    if region.projection_refused(memory.offset, L::storage_spec(conf)) is None {
                        assert(crate::mem::admission(
                            zero,
                            header,
                            (region.map.start + memory.offset) as u64,
                            conf,
                            LayoutContext {
                                region: region.region,
                                offset: memory.offset,
                                allow_init: true,
                            },
                            region.member.slot,
                            L::storage_spec(conf)->0,
                            Some(error),
                        ));
                    }
                    assert(makes(*region, memory.offset, conf, Err::<RcHeader<L>, ProjectionError>(error)));
                }
                let mutation = match heap.begin_mutation(transaction.owner()) {
                    Ok(mutation) => mutation,
                    Err(busy) => {
                        self.give_up(transaction);
                        return Err(Error::Heap(busy));
                    },
                };
                heap.deallocate_during(&mutation, memory.meta);
                self.set_state(p, entry_word(generation - 1, super::VACANT));
                self.clear_pending(&mut transaction);
                heap.commit(mutation);
                self.commit(transaction);
                Err(Error::Admission(error))
            },
        }
    }
}

/// What undoing a creation that was given up makes of the directory and of the
/// heap.
pub open spec fn undone(
    view: super::DirView,
    mutation: u64,
    base: int,
    region: Region,
) -> super::recover::Outcome {
    let owner = region.member.slot;
    let p = super::recover::evidence_at(view)->0;
    let generation = super::generation_of(view.entries[p].state);
    let back = if generation == 0 {
        0
    } else {
        generation - 1
    };
    if view.kind == GROW {
        super::recover::growth_outcome(view, mutation, base, region, owner, false)
    } else if view.kind == CREATE {
        match crate::talc::lock::mutation_refused(mutation) {
            Some(error) => super::recover::untouched(view, mutation, Error::Heap(error)),
            None => super::recover::ended(
                view.with_state(p, super::entry_word_spec(back as u64, super::VACANT)),
                MUTATION_CLEAN,
                true,
                super::Recovered::RolledBack,
            ),
        }
    } else {
        super::recover::untouched(view, mutation, Error::Busy(owner))
    }
}

/// A creation that was given up, and is still to be undone, left its entry
/// waiting.
pub open spec fn resumable(view: super::DirView) -> bool {
    super::phase_of(view.word) == ROLLING_BACK && view.kind == CREATE ==> {
        &&& view.slab <= u32::MAX
        &&& super::recover::evidence_at(view) matches Some(p) && super::state_of(
            view.entries[p].state,
        ) == PENDING
    }
}

/// A vacant entry is found, or a slab is added for one.
pub open spec fn room(
    before: super::DirView,
    after: super::DirView,
    heap: TalckMeta,
    heap_after: TalckMeta,
    region: Region,
    grown: Result<(), Error>,
) -> bool {
    if super::first_free(before.entries, 0) is Some {
        after == before && heap_after == heap && grown is Ok
    } else {
        super::change::grows(
            before,
            after,
            heap,
            heap_after,
            region,
            region.member.slot,
            grown,
        )
    }
}

/// A vacant entry is given its layout.
pub open spec fn fills<L: Layout>(
    before: super::DirView,
    after: super::DirView,
    heap: TalckMeta,
    heap_after: TalckMeta,
    region: Region,
    p: int,
    conf: L::Config,
    layout: Extent,
    made: Result<(Id, RcHeader<L>), Error>,
) -> bool {
    exists|view: super::DirView, middle: TalckMeta, memory: Result<Prepared, Error>|
        {
            &&& #[trigger] prepares(
                before,
                view,
                heap,
                middle,
                region,
                region.member.slot,
                p,
                layout,
                memory,
            )
            &&& match memory {
                Err(error) => made == Err::<(Id, RcHeader<L>), Error>(error) && after
                    == view.with_word(CLEAN) && heap_after == middle,
                Ok(memory) => publishes::<L>(
                    view,
                    after,
                    middle,
                    heap_after,
                    region,
                    p,
                    memory,
                    conf,
                    made,
                ),
            }
        }
}

/// What creating a layout does.
pub open spec fn creates<L: Layout>(
    before: super::DirView,
    after: super::DirView,
    heap: TalckMeta,
    heap_after: TalckMeta,
    region: Region,
    conf: L::Config,
    layout: Extent,
    made: Result<(Id, RcHeader<L>), Error>,
) -> bool {
    let owner = region.member.slot;
    if before.word == CLEAN {
        exists|ready: super::DirView, middle: TalckMeta, grown: Result<(), Error>|
            {
                &&& #[trigger] room(
                    before.with_word(super::owner_word_spec(owner, HELD)),
                    ready,
                    heap,
                    middle,
                    region,
                    grown,
                )
                &&& match grown {
                    Err(error) => made == Err::<(Id, RcHeader<L>), Error>(error) && after
                        == ready.with_word(CLEAN) && heap_after == middle,
                    Ok(()) => fills::<L>(
                        ready,
                        after,
                        middle,
                        heap_after,
                        region,
                        super::first_free(ready.entries, 0)->0,
                        conf,
                        layout,
                        made,
                    ),
                }
            }
    } else if before.word == super::owner_word_spec(owner, ROLLING_BACK) {
        let undone = undone(before, heap.mutation, heap.talc.base_spec(), region);
        &&& after == undone.view
        &&& super::recover::heap_follows(heap, heap_after, before.pending, undone)
        &&& made == Err::<(Id, RcHeader<L>), Error>(
            match undone.result {
                Ok(_) => Error::RolledBack,
                Err(error) => error,
            },
        )
    } else {
        &&& made == Err::<(Id, RcHeader<L>), Error>(Error::Busy(super::owner_of(before.word)))
        &&& after == before
        &&& heap_after == heap
    }
}

/// A slab that was added has room.
proof fn lemma_linked_has_room(view: super::DirView, offset: u64)
    requires
        view.wf(),
    ensures
        super::first_free(view.linked(offset).entries, 0) is Some,
{
    let entries = view.linked(offset).entries;
    super::lemma_first_free(entries, 0);
    assert(super::is_free(entries[view.entries.len() as int]));
}

impl Directory {
    /// Undoes a creation that this participant gave up before.
    #[verifier::spinoff_prover]
    pub fn resume_rollback(&mut self, region: &Region, heap: &mut TalckMeta) -> (resumed: Result<
        (),
        Error,
    >)
        requires
            old(self)@.wf(),
            old(heap).wf(),
            region.map.start + region.map.len <= u64::MAX,
            old(self)@.word == super::owner_word_spec(region.member.slot, ROLLING_BACK),
            resumable(old(self)@),
            super::recover::sound(old(self)@, *old(heap), super::SLAB_BYTES as int),
        ensures
            final(self)@.wf(),
            final(heap).wf(),
            ({
                let undone = undone(
                    old(self)@,
                    old(heap).mutation,
                    old(heap).talc.base_spec(),
                    *region,
                );
                &&& resumed == (match undone.result {
                    Ok(_) => Ok::<(), Error>(()),
                    Err(error) => Err::<(), Error>(error),
                })
                &&& final(self)@ == undone.view
                &&& super::recover::heap_follows(*old(heap), *final(heap), old(self)@.pending, undone)
            }),
    {
        let owner: u8 = region.member.slot;
        if self.pending_kind == GROW {
            return match self.recover_growth(region, heap, owner, false) {
                Ok(_) => Ok(()),
                Err(error) => Err(error),
            };
        }
        if self.pending_kind != CREATE {
            return Err(Error::Busy(owner));
        }
        let mut transaction = Transaction::resume(owner, ROLLING_BACK);
        let mutation = match heap.begin_mutation(owner) {
            Ok(mutation) => mutation,
            Err(error) => return Err(Error::Heap(error)),
        };
        heap.deallocate_during(&mutation, self.pending);
        let p: usize = match self.locate(self.pending_slab as u32, self.pending_entry) {
            Some(p) => p,
            None => {
                heap.commit(mutation);
                return Err(Error::Stale);
            },
        };
        let generation: u64 = self.entries[p].state / 8;
        self.set_state(
            p,
            entry_word(
                if generation == 0 {
                    0
                } else {
                    generation - 1
                },
                super::VACANT,
            ),
        );
        self.clear_pending(&mut transaction);
        heap.commit(mutation);
        self.commit(transaction);
        Ok(())
    }

    /// Creates a layout in memory of the heap, and publishes it under a new
    /// name.
    #[verifier::spinoff_prover]
    pub fn create_in<L: Layout>(
        &mut self,
        region: &Region,
        heap: &mut TalckMeta,
        heap_region: RegionId,
        conf: L::Config,
        layout: Extent,
    ) -> (made: Result<(Id, RcHeader<L>), Error>)
        requires
            old(self)@.wf(),
            old(heap).wf(),
            region.wf(),
            super::change::behind_root(*region, *old(heap)),
            crate::header::layout::header_fits(L::info_extent_spec(), L::body_spec()),
            layout.wf(),
            layout.size > 0,
            resumable(old(self)@),
            super::recover::sound(old(self)@, *old(heap), super::SLAB_BYTES as int),
        ensures
            final(self)@.wf(),
            final(heap).wf(),
            final(heap).talc.same_heap(old(heap).talc),
            resumable(final(self)@),
            super::recover::sound(final(self)@, *final(heap), super::SLAB_BYTES as int),
            made matches Ok((_, header)) ==> header.wf(),
            if region.region != heap_region || L::storage_spec(conf) != Some(layout) {
                &&& made == Err::<(Id, RcHeader<L>), Error>(Error::Stale)
                &&& final(self)@ == old(self)@
                &&& *final(heap) == *old(heap)
            } else {
                creates::<L>(
                    old(self)@,
                    final(self)@,
                    *old(heap),
                    *final(heap),
                    *region,
                    conf,
                    layout,
                    made,
                )
            },
    {
        if region.region != heap_region {
            return Err(Error::Stale);
        }
        match L::storage(&conf) {
            Some(extent) => {
                if extent != layout {
                    return Err(Error::Stale);
                }
            },
            None => return Err(Error::Stale),
        }
        let owner: u8 = region.member.slot;
        let ghost before = self@;
        let ghost heap0 = *heap;
        proof {
            super::law_owner_word_round_trips(owner, ROLLING_BACK);
        }
        if self.transaction == owner_word(owner, ROLLING_BACK) {
            return match self.resume_rollback(region, heap) {
                Ok(()) => Err(Error::RolledBack),
                Err(error) => Err(error),
            };
        }
        let mut transaction = match self.claim(owner) {
            Ok(transaction) => transaction,
            Err(error) => return Err(error),
        };
        let ghost held = self@;
        let p: usize = match self.reserve() {
            Some(p) => {
                assert(room(held, self@, heap0, *heap, *region, Ok::<(), Error>(())));
                p
            },
            None => {
                let grown = self.grow(region, heap, &mut transaction);
                assert(room(held, self@, heap0, *heap, *region, grown));
                match grown {
                    Ok(()) => {
                        proof {
                            lemma_linked_has_room(held, self@.links.last());
                        }
                    },
                    Err(error) => {
                        self.commit(transaction);
                        return Err(error);
                    },
                }
                match self.reserve() {
                    Some(p) => p,
                    None => {
                        self.commit(transaction);
                        return Err(Error::Full);
                    },
                }
            },
        };
        let ghost ready = self@;
        let ghost middle = *heap;
        match self.prepare(region, heap, &mut transaction, p, layout) {
            Ok(memory) => self.publish::<L>(region, heap, transaction, p, memory, conf),
            Err(error) => {
                self.commit(transaction);
                Err(error)
            },
        }
    }
}

/// A layout that was created is found under its name, at the memory that was
/// taken for it; every other name means what it meant.
pub proof fn law_created_layouts_are_found<L: Layout>(
    before: super::DirView,
    after: super::DirView,
    heap: TalckMeta,
    heap_after: TalckMeta,
    region: Region,
    p: int,
    memory: Prepared,
    conf: L::Config,
    made: (Id, RcHeader<L>),
    other: Id,
)
    requires
        before.wf(),
        0 <= p < before.entries.len(),
        publishes::<L>(
            before,
            after,
            heap,
            heap_after,
            region,
            p,
            memory,
            conf,
            Ok::<(Id, RcHeader<L>), Error>(made),
        ),
    ensures
        after.published(region.region, made.0) == Some(memory.offset),
        made.1.region == region.region,
        made.1.offset == memory.offset,
        made.1.members == crate::header::layout::with_member(0, Some(region.member.slot)),
        before.position(other.slab as int, other.entry as int) != Some(p) ==> after.published(
            region.region,
            other,
        ) == before.published(region.region, other),
{
    let generation = super::generation_of(before.entries[p].state);
    super::law_entry_word_round_trips(generation, PUBLISHED);
    assert(0 <= p / 32 <= before.links.len());
    assert(p == 32 * (p / 32) + p % 32);
}

} // verus!
