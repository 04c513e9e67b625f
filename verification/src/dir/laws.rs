//! What creation and removal mean for each other.

use super::{Error, Id, VACANT};
use crate::extent::Extent;
use crate::header::layout::{Layout, RcHeader};
use crate::mem::Region;
use crate::schema::LayoutContext;
use crate::talc::config::TalcInfo;
use crate::talc::lock::TalckMeta;
use vstd::prelude::*;

verus! {

/// Making room for a layout leaves every name as it was, and leaves the entry
/// that it finds vacant.
proof fn lemma_room(
    before: super::DirView,
    after: super::DirView,
    heap: TalckMeta,
    heap_after: TalckMeta,
    region: Region,
)
    requires
        before.wf(),
        super::change::behind_root(region, heap),
        super::create::room(before, after, heap, heap_after, region, Ok::<(), Error>(())),
    ensures
        after.wf(),
        super::first_free(after.entries, 0) matches Some(p) && 0 <= p < after.entries.len()
            && super::is_free(after.entries[p]),
        before.entries.len() <= after.entries.len(),
        forall|q: int|
            0 <= q < before.entries.len() ==> #[trigger] after.entries[q] == before.entries[q],
        forall|q: int|
            before.entries.len() <= q < after.entries.len() ==> super::state_of(
                (#[trigger] after.entries[q]).state,
            ) == VACANT,
        heap_after.talc.base_spec() == heap.talc.base_spec(),
        heap.talc.live().submap_of(heap_after.talc.live()),
{
    super::lemma_first_free(before.entries, 0);
    super::lemma_first_free(after.entries, 0);
    if super::first_free(before.entries, 0) is None {
        let (talc, meta) = choose|
            talc: crate::talc::heap::TalcMeta,
            meta: crate::talc::lock::Meta,
        |
            #[trigger] crate::talc::lock::allocates(
                heap.talc,
                talc,
                super::change::slab_extent(),
                Ok(meta),
            ) && heap_after.talc == talc && region.offset_spec(
                heap.talc.base_spec() + meta.start(),
                super::SLAB_BYTES as int,
            ) == Ok::<u64, crate::mem::ProjectionError>(after.links.last());
        crate::talc::heap::law_allocations_stay_inside(talc, meta.start());
        let offset = after.links.last();
        assert(after.entries == before.linked(offset).entries);
        assert(after.links == before.linked(offset).links);
        let entry = super::Entry { state: VACANT, offset: 0 };
        assert forall|q: int| before.entries.len() <= q < after.entries.len() implies #[trigger] after.entries[q]
            == entry by {}
        assert(super::state_of(VACANT) == VACANT && super::is_free(entry));
        assert(super::is_free(after.entries[before.entries.len() as int]));
    }
}

/// What a creation that succeeds does: it makes room, and fills an entry.
proof fn lemma_steps<L: Layout>(
    before: super::DirView,
    after: super::DirView,
    heap: TalckMeta,
    heap_after: TalckMeta,
    region: Region,
    conf: L::Config,
    layout: Extent,
    made: (Id, RcHeader<L>),
) -> (steps: (super::DirView, TalckMeta))
    requires
        super::create::creates::<L>(
            before,
            after,
            heap,
            heap_after,
            region,
            conf,
            layout,
            Ok::<(Id, RcHeader<L>), Error>(made),
        ),
    ensures
        super::create::room(
            before.with_word(super::owner_word_spec(region.member.slot, super::HELD)),
            steps.0,
            heap,
            steps.1,
            region,
            Ok::<(), Error>(()),
        ),
        super::create::fills::<L>(
            steps.0,
            after,
            steps.1,
            heap_after,
            region,
            super::first_free(steps.0.entries, 0)->0,
            conf,
            layout,
            Ok::<(Id, RcHeader<L>), Error>(made),
        ),
{
    let held = before.with_word(super::owner_word_spec(region.member.slot, super::HELD));
    let (ready, middle, grown) = choose|
        ready: super::DirView,
        middle: TalckMeta,
        grown: Result<(), Error>,
    |
        {
            &&& #[trigger] super::create::room(held, ready, heap, middle, region, grown)
            &&& match grown {
                Err(error) => Ok::<(Id, RcHeader<L>), Error>(made) == Err::<(Id, RcHeader<L>), Error>(
                    error,
                ) && after == ready.with_word(super::CLEAN) && heap_after == middle,
                Ok(()) => super::create::fills::<L>(
                    ready,
                    after,
                    middle,
                    heap_after,
                    region,
                    super::first_free(ready.entries, 0)->0,
                    conf,
                    layout,
                    Ok::<(Id, RcHeader<L>), Error>(made),
                ),
            }
        };
    (ready, middle)
}

/// A layout that was created is as its configuration makes it. It is published
/// where its memory is, and its creator is its only member; its name is new, and every name that was published still
/// means what it meant.
pub proof fn law_created_layouts_occupy_their_memory<L: Layout>(
    before: super::DirView,
    after: super::DirView,
    heap: TalckMeta,
    heap_after: TalckMeta,
    region: Region,
    conf: L::Config,
    layout: Extent,
    made: (Id, RcHeader<L>),
    other: Id,
)
    requires
        before.wf(),
        super::change::behind_root(region, heap),
        layout.size > 0,
        super::create::creates::<L>(
            before,
            after,
            heap,
            heap_after,
            region,
            conf,
            layout,
            Ok::<(Id, RcHeader<L>), Error>(made),
        ),
    ensures
        before.published(region.region, made.0) is None,
        after.published(region.region, made.0) == Some(made.1.offset),
        super::remove::occupies(after, heap_after, region, made.0, layout),
        made.1.region == region.region,
        made.1.members == crate::header::layout::with_member(0, Some(region.member.slot)),
        made.1.inner matches Some(body) && L::init_spec(conf, Ok(body)) && made.1.initialized(
            made.1,
            conf,
            LayoutContext { region: region.region, offset: made.1.offset, allow_init: true },
            Some(region.member.slot),
            L::storage_spec(conf)->0,
            Ok(body),
        ),
        region.projection_refused(made.1.offset, L::storage_spec(conf)) is None,
        before.published(region.region, other) matches Some(offset) ==> after.published(
            region.region,
            other,
        ) == Some(offset),
{
    let held = before.with_word(super::owner_word_spec(region.member.slot, super::HELD));
    let (ready, middle) = lemma_steps::<L>(
        before,
        after,
        heap,
        heap_after,
        region,
        conf,
        layout,
        made,
    );
    lemma_room(held, ready, heap, middle, region);
    let p = super::first_free(ready.entries, 0)->0;
    lemma_filled::<L>(ready, after, middle, heap_after, region, p, conf, layout, made, other);
    let generation = super::generation_of(ready.entries[p].state);
    assert(super::state_of(ready.entries[p].state) == VACANT);
    if before.position(made.0.slab as int, made.0.entry as int) is Some {
        assert(before.entries[p] == ready.entries[p]);
    }
    if before.published(region.region, other) is Some {
        let q = before.position(other.slab as int, other.entry as int)->0;
        assert(ready.entries[q] == before.entries[q]);
        assert(q != p);
    }
}

/// Creating a layout leaves every other one where it was, and takes none of its
/// memory.
pub proof fn law_creation_keeps_other_layouts<L: Layout>(
    before: super::DirView,
    after: super::DirView,
    heap: TalckMeta,
    heap_after: TalckMeta,
    region: Region,
    conf: L::Config,
    layout: Extent,
    made: (Id, RcHeader<L>),
    other: Id,
    extent: Extent,
)
    requires
        before.wf(),
        super::change::behind_root(region, heap),
        layout.size > 0,
        super::create::creates::<L>(
            before,
            after,
            heap,
            heap_after,
            region,
            conf,
            layout,
            Ok::<(Id, RcHeader<L>), Error>(made),
        ),
        before.published(region.region, other) is Some,
        super::remove::occupies(before, heap, region, other, extent),
    ensures
        after.published(region.region, other) == before.published(region.region, other),
        after.published(region.region, other) != Some(made.1.offset),
        super::remove::occupies(after, heap_after, region, other, extent),
{
    law_created_layouts_occupy_their_memory::<L>(
        before,
        after,
        heap,
        heap_after,
        region,
        conf,
        layout,
        made,
        other,
    );
    let held = before.with_word(super::owner_word_spec(region.member.slot, super::HELD));
    let (ready, middle) = lemma_steps::<L>(
        before,
        after,
        heap,
        heap_after,
        region,
        conf,
        layout,
        made,
    );
    lemma_room(held, ready, heap, middle, region);
    let p = super::first_free(ready.entries, 0)->0;
    lemma_filled::<L>(ready, after, middle, heap_after, region, p, conf, layout, made, other);
}

/// Removing a layout leaves every other one, that lies elsewhere, where it was
/// and with the memory that it had.
pub proof fn law_removal_keeps_other_layouts<L: Layout>(
    before: super::DirView,
    after: super::DirView,
    heap: TalckMeta,
    heap_after: TalckMeta,
    header: RcHeader<L>,
    header_after: RcHeader<L>,
    info: TalcInfo,
    region: Region,
    id: Id,
    layout: Extent,
    other: Id,
    extent: Extent,
)
    requires
        before.wf(),
        super::remove::removes(
            before,
            after,
            heap,
            heap_after,
            header,
            header_after,
            info,
            region,
            id,
            layout,
            Ok::<(), Error>(()),
        ),
        before.published(region.region, other) is Some,
        before.published(region.region, other) != before.published(region.region, id),
        super::remove::occupies(before, heap, region, other, extent),
    ensures
        after.published(region.region, other) == before.published(region.region, other),
        super::remove::occupies(after, heap_after, region, other, extent),
{
    super::remove::law_removed_layouts_are_gone(
        before,
        after,
        heap,
        heap_after,
        header,
        header_after,
        info,
        region,
        id,
        layout,
        other,
    );
}

/// An entry that is given its layout is published where its memory is.
proof fn lemma_filled<L: Layout>(
    before: super::DirView,
    after: super::DirView,
    heap: TalckMeta,
    heap_after: TalckMeta,
    region: Region,
    p: int,
    conf: L::Config,
    layout: Extent,
    made: (Id, RcHeader<L>),
    other: Id,
)
    requires
        before.wf(),
        0 <= p < before.entries.len(),
        super::is_free(before.entries[p]),
        layout.size > 0,
        super::create::fills::<L>(
            before,
            after,
            heap,
            heap_after,
            region,
            p,
            conf,
            layout,
            Ok::<(Id, RcHeader<L>), Error>(made),
        ),
    ensures
        32 * made.0.slab + made.0.entry == p,
        made.0.entry < 32,
        after.published(region.region, made.0) == Some(made.1.offset),
        super::remove::occupies(after, heap_after, region, made.0, layout),
        ({
            let start = region.map.start + made.1.offset - heap.talc.base_spec();
            &&& !heap.talc.live().dom().contains(start)
            &&& heap_after.talc.live() == heap.talc.live().insert(start, layout.size as int)
            &&& heap_after.talc.base_spec() == heap.talc.base_spec()
        }),
        made.1.region == region.region,
        made.1.members == crate::header::layout::with_member(0, Some(region.member.slot)),
        made.1.inner matches Some(body) && L::init_spec(conf, Ok(body)) && made.1.initialized(
            made.1,
            conf,
            LayoutContext { region: region.region, offset: made.1.offset, allow_init: true },
            Some(region.member.slot),
            L::storage_spec(conf)->0,
            Ok(body),
        ),
        region.projection_refused(made.1.offset, L::storage_spec(conf)) is None,
        before.position(other.slab as int, other.entry as int) != Some(p) ==> after.published(
            region.region,
            other,
        ) == before.published(region.region, other),
{
    let (view, middle, memory) = choose|
        view: super::DirView,
        middle: TalckMeta,
        memory: Result<super::create::Prepared, Error>,
    |
        {
            &&& #[trigger] super::create::prepares(
                before,
                view,
                heap,
                middle,
                region,
                region.member.slot,
                p,
                layout,
                memory,
            )
            &&& match memory {
                Err(error) => Ok::<(Id, RcHeader<L>), Error>(made) == Err::<(Id, RcHeader<L>), Error>(
                    error,
                ) && after == view.with_word(super::CLEAN) && heap_after == middle,
                Ok(memory) => super::create::publishes::<L>(
                    view,
                    after,
                    middle,
                    heap_after,
                    region,
                    p,
                    memory,
                    conf,
                    Ok::<(Id, RcHeader<L>), Error>(made),
                ),
            }
        };
    let memory = memory->Ok_0;
    super::create::law_created_layouts_are_found::<L>(
        view,
        after,
        middle,
        heap_after,
        region,
        p,
        memory,
        conf,
        made,
        other,
    );
    assert(p == 32 * (p / 32) + p % 32);
}

/// Removing a layout that was just created, in a directory that had room for
/// it, leaves the heap with the allocations and the directory with the names
/// that were there before.
pub proof fn law_removal_undoes_creation<L: Layout>(
    before: super::DirView,
    middle: super::DirView,
    after: super::DirView,
    heap: TalckMeta,
    heap_middle: TalckMeta,
    heap_after: TalckMeta,
    region: Region,
    conf: L::Config,
    layout: Extent,
    made: (Id, RcHeader<L>),
    header_after: RcHeader<L>,
    info: TalcInfo,
    other: Id,
)
    requires
        before.wf(),
        super::first_free(before.entries, 0) is Some,
        super::change::behind_root(region, heap),
        layout.size > 0,
        super::create::creates::<L>(
            before,
            middle,
            heap,
            heap_middle,
            region,
            conf,
            layout,
            Ok::<(Id, RcHeader<L>), Error>(made),
        ),
        super::remove::removes::<L>(
            middle,
            after,
            heap_middle,
            heap_after,
            made.1,
            header_after,
            info,
            region,
            made.0,
            layout,
            Ok::<(), Error>(()),
        ),
    ensures
        heap_after.talc.live() == heap.talc.live(),
        after.published(region.region, made.0) is None,
        after.published(region.region, other) == before.published(region.region, other),
{
    law_created_layouts_occupy_their_memory::<L>(
        before,
        middle,
        heap,
        heap_middle,
        region,
        conf,
        layout,
        made,
        other,
    );
    let held = before.with_word(super::owner_word_spec(region.member.slot, super::HELD));
    let p = super::first_free(before.entries, 0)->0;
    super::lemma_first_free(before.entries, 0);
    lemma_filled::<L>(held, middle, heap, heap_middle, region, p, conf, layout, made, other);
    super::law_entry_word_round_trips(made.0.generation, VACANT);
    let start = region.map.start + made.1.offset - heap.talc.base_spec();
    assert(heap.talc.live().insert(start, layout.size as int).remove(start)
        =~= heap.talc.live());
    assert(before.position(made.0.slab as int, made.0.entry as int) == Some(p));
    if before.position(other.slab as int, other.entry as int) == Some(p) {
        assert(before.published(region.region, other) is None);
        assert(after.published(region.region, other) is None);
    }
}

} // verus!
