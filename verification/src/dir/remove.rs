//! Removal of layouts by their last member.

use super::{entry_word, Directory, Error, Id, CLEAN, CLOSING, RELEASED, REMOVE, REMOVING, VACANT};
use crate::extent::Extent;
use crate::header::layout::{header_extent, CloseError, Layout, RcHeader};
use crate::mem::Region;
use crate::schema::RegionId;
use crate::talc::config::TalcInfo;
use crate::talc::lock::{Meta, TalckMeta};
use crate::talc::mutation::MUTATION_CLEAN;
use vstd::prelude::*;

verus! {

/// The heap's usable memory covers `size` bytes at an address.
pub open spec fn covered(info: TalcInfo, base: int, address: int, size: int) -> bool {
    let offset = address - base;
    let lower = crate::talc::lock::META_BYTES + info.usable_offset_spec();
    let bound = lower + info.usable_length_spec();
    0 <= offset && bound <= u64::MAX && lower <= offset && offset + size <= bound
}

/// Why a removal does not begin.
pub open spec fn removal_refused<L: Layout>(
    view: super::DirView,
    heap: TalckMeta,
    info: TalcInfo,
    region: Region,
    id: Id,
    header: RcHeader<L>,
    layout: Extent,
) -> Option<Error> {
    let least = crate::mem::header_extent_spec::<L>();
    if layout.size < least.size || layout.align < least.align {
        Some(Error::Stale)
    } else {
        match view.published(region.region, id) {
            None => Some(view.unpublished(region.region, id)),
            Some(offset) => if header.region != region.region || header.offset != offset {
                Some(Error::Stale)
            } else if view.word != CLEAN {
                Some(Error::Busy(super::owner_of(view.word)))
            } else if !covered(
                info,
                heap.talc.base_spec(),
                region.map.start + offset,
                layout.size as int,
            ) {
                Some(Error::Stale)
            } else {
                match crate::talc::lock::mutation_refused(heap.mutation) {
                    Some(error) => Some(Error::Heap(error)),
                    None => None,
                }
            },
        }
    }
}

/// Why a layout cannot be closed by a participant.
pub open spec fn close_refused(members: u64, slot: u8) -> Option<CloseError> {
    if members == crate::header::layout::member_bit(slot) {
        None
    } else if crate::header::layout::is_closed(members) {
        Some(CloseError::Closed)
    } else if !crate::header::layout::is_member(members, slot) {
        Some(CloseError::MissingMember)
    } else {
        Some(CloseError::Contention)
    }
}

/// The published layout with this name occupies this memory of the heap.
pub open spec fn occupies(
    view: super::DirView,
    heap: TalckMeta,
    region: Region,
    id: Id,
    layout: Extent,
) -> bool {
    view.published(region.region, id) matches Some(offset) ==> {
        let start = region.map.start + offset - heap.talc.base_spec();
        &&& layout.size > 0
        &&& heap.talc.live().dom().contains(start)
        &&& heap.talc.live()[start] == layout.size
    }
}

/// What removing a layout does.
pub open spec fn removes<L: Layout>(
    before: super::DirView,
    after: super::DirView,
    heap: TalckMeta,
    heap_after: TalckMeta,
    header: RcHeader<L>,
    header_after: RcHeader<L>,
    info: TalcInfo,
    region: Region,
    id: Id,
    layout: Extent,
    removed: Result<(), Error>,
) -> bool {
    let slot = region.member.slot;
    match removal_refused(before, heap, info, region, id, header, layout) {
        Some(error) => {
            &&& removed == Err::<(), Error>(error)
            &&& after == before
            &&& heap_after == heap
            &&& header_after == header
        },
        None => {
            let p = 32 * id.slab + id.entry;
            let offset = before.published(region.region, id)->0;
            exists|meta: Meta|
                {
                    let written = super::DirView {
                        slab: id.slab as u64,
                        index: id.entry as u64,
                        kind: REMOVE,
                        pending: meta,
                        ..before
                    };
                    &&& #[trigger] meta.start() == region.map.start + offset
                        - heap.talc.base_spec()
                    &&& meta.size() == layout.size
                    &&& header_after.same_but_members(header)
                    &&& heap_after.mutation == MUTATION_CLEAN
                    &&& match close_refused(header.members, slot) {
                        Some(error) => {
                            &&& removed == Err::<(), Error>(Error::Close(error))
                            &&& after == written
                            &&& heap_after.talc == heap.talc
                            &&& header_after.members == header.members
                        },
                        None => {
                            &&& removed is Ok
                            &&& after == written.with_state(
                                p,
                                super::entry_word_spec(id.generation, VACANT),
                            )
                            &&& crate::talc::lock::releases(heap.talc, heap_after.talc, meta)
                            &&& header_after.members == crate::header::layout::CLOSED
                        },
                    }
                }
        },
    }
}

impl Directory {
    /// Closes a layout for its last member, gives its memory back and makes its
    /// entry vacant.
    #[verifier::spinoff_prover]
    pub fn remove_in<L: Layout>(
        &mut self,
        region: &Region,
        heap: &mut TalckMeta,
        heap_region: RegionId,
        info: &TalcInfo,
        id: Id,
        header: &mut RcHeader<L>,
        layout: Extent,
    ) -> (removed: Result<(), Error>)
        requires
            old(self)@.wf(),
            old(heap).wf(),
            region.wf(),
            region.map.start + region.map.len <= u64::MAX,
            crate::header::layout::header_fits(L::info_extent_spec(), L::body_spec()),
            occupies(old(self)@, *old(heap), *region, id, layout),
            super::create::resumable(old(self)@),
            super::recover::sound(old(self)@, *old(heap), super::SLAB_BYTES as int),
        ensures
            final(self)@.wf(),
            final(heap).wf(),
            final(heap).talc.same_heap(old(heap).talc),
            super::create::resumable(final(self)@),
            super::recover::sound(final(self)@, *final(heap), super::SLAB_BYTES as int),
            if region.region != heap_region {
                &&& removed == Err::<(), Error>(Error::Stale)
                &&& final(self)@ == old(self)@
                &&& *final(heap) == *old(heap)
                &&& *final(header) == *old(header)
            } else {
                removes(
                    old(self)@,
                    final(self)@,
                    *old(heap),
                    *final(heap),
                    *old(header),
                    *final(header),
                    *info,
                    *region,
                    id,
                    layout,
                    removed,
                )
            },
    {
        if region.region != heap_region {
            return Err(Error::Stale);
        }
        let ghost before = self@;
        let ghost heap0 = *heap;
        let least = match header_extent(L::info_extent(), L::body()) {
            Some(least) => least,
            None => return Err(Error::Stale),
        };
        if layout.size < least.size || layout.align < least.align {
            return Err(Error::Stale);
        }
        let offset: u64 = match self.offset(region.region, id) {
            Ok(offset) => offset,
            Err(error) => return Err(error),
        };
        let found = header.layout_id();
        if found.region != region.region || found.offset != offset {
            return Err(Error::Stale);
        }
        let slot: u8 = region.member.slot;
        let mut transaction = match self.claim(slot) {
            Ok(transaction) => transaction,
            Err(error) => return Err(error),
        };
        let p: usize = match self.locate(id.slab, id.entry as u64) {
            Some(p) => p,
            None => {
                self.commit(transaction);
                return Err(Error::Stale);
            },
        };
        proof {
            crate::talc::heap::law_allocations_stay_inside(
                heap.talc,
                region.map.start + offset - heap.talc.base_spec(),
            );
            crate::talc::heap::law_heaps_are_addressable(heap.talc);
        }
        let meta = match TalckMeta::meta_for(
            info,
            heap.base_ptr(),
            region.map.start + offset,
            layout.size,
        ) {
            Some(meta) => meta,
            None => {
                self.commit(transaction);
                return Err(Error::Stale);
            },
        };
        let mutation = match heap.begin_mutation(slot) {
            Ok(mutation) => mutation,
            Err(error) => {
                self.commit(transaction);
                return Err(Error::Heap(error));
            },
        };
        let published: u64 = self.entries[p].state;
        let generation: u64 = id.generation;
        self.set_state(p, entry_word(generation, CLOSING));
        self.persist(&mut transaction, id.slab as u64, id.entry as u64, meta, REMOVE);
        assert(meta.start() == region.map.start + offset - heap0.talc.base_spec());
        match header.close_unique(slot) {
            Ok(()) => {},
            Err(error) => {
                self.set_state(p, published);
                self.clear_pending(&mut transaction);
                heap.commit(mutation);
                self.commit(transaction);
                assert(self@.entries =~= before.entries);
                return Err(Error::Close(error));
            },
        }
        self.set_state(p, entry_word(generation, REMOVING));
        heap.deallocate_during(&mutation, meta);
        self.set_state(p, entry_word(generation, RELEASED));
        heap.commit(mutation);
        self.set_state(p, entry_word(generation, VACANT));
        self.clear_pending(&mut transaction);
        self.commit(transaction);
        assert(self@.entries =~= before.with_state(
            p as int,
            super::entry_word_spec(generation, VACANT),
        ).entries);
        Ok(())
    }
}

/// A layout that was removed has no name any more; every other name means what
/// it meant.
pub proof fn law_removed_layouts_are_gone<L: Layout>(
    before: super::DirView,
    after: super::DirView,
    heap: TalckMeta,
    heap_after: TalckMeta,
    header: RcHeader<L>,
    header_after: RcHeader<L>,
    info: TalcInfo,
    region: Region,
    id: Id,
    layout: Extent,
    other: Id,
)
    requires
        before.wf(),
        removes(
            before,
            after,
            heap,
            heap_after,
            header,
            header_after,
            info,
            region,
            id,
            layout,
            Ok::<(), Error>(()),
        ),
    ensures
        after.published(region.region, id) is None,
        (other.slab != id.slab || other.entry != id.entry) ==> after.published(
            region.region,
            other,
        ) == before.published(region.region, other),
        crate::header::layout::is_closed(header_after.members),
{
    let p = 32 * id.slab + id.entry;
    super::law_entry_word_round_trips(id.generation, VACANT);
    crate::header::layout::lemma_closed();
    crate::numeric::lemma_mask_bit(header_after.members, crate::header::layout::CLOSED_BIT);
    crate::numeric::lemma_set_bit(0, 63, 63);
    assert(0u64 | 0x8000_0000_0000_0000u64 == 0x8000_0000_0000_0000u64) by (bit_vector);
}

} // verus!
