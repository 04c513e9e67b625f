//! What holds of the names of a directory: what a walk finds, and what changes
//! that fail, or are recovered, leave of them.

use super::{
    DirView, Entry, Error, Id, CLEAN, PUBLISHED, QUARANTINED, ROLLING_BACK, VACANT,
};
use crate::extent::Extent;
use crate::header::layout::{CloseError, Layout, RcHeader};
use crate::header::PARTICIPANT_CAPACITY;
use crate::mem::Region;
use crate::schema::RegionId;
use crate::talc::config::TalcInfo;
use crate::talc::lock::TalckMeta;
use vstd::prelude::*;

verus! {

/// An entry that a walk passes over: it holds no layout.
pub open spec fn holds_nothing(entry: Entry) -> bool {
    super::state_of(entry.state) == VACANT || super::state_of(entry.state) == QUARANTINED
}

/// A walk stops at the next layout and gives the name under which it is found, and
/// where it lies. It comes to the end only where no layout follows and the chain
/// is not cut; it fails at an entry that is being changed, before which there was
/// nothing to find.
pub proof fn law_walks_find_the_next_name(view: DirView, region: RegionId, from: int)
    requires
        view.wf(),
        0 <= from <= view.entries.len(),
    ensures
        match super::next_found(view, region, from) {
            Ok(Some((p, id, offset))) => {
                &&& from <= p < view.entries.len()
                &&& view.published(region, id) == Some(offset)
                &&& view.position(id.slab as int, id.entry as int) == Some(p)
                &&& id.region == region
                &&& forall|q: int| from <= q < p ==> holds_nothing(#[trigger] view.entries[q])
            },
            Ok(None) => {
                &&& view.cut is None
                &&& forall|q: int|
                    from <= q < view.entries.len() ==> holds_nothing(#[trigger] view.entries[q])
            },
            Err(Error::InUse) => exists|p: int|
                {
                    &&& from <= p < view.entries.len()
                    &&& super::is_changing(#[trigger] view.entries[p])
                    &&& forall|q: int| from <= q < p ==> holds_nothing(#[trigger] view.entries[q])
                },
            Err(Error::Admission(error)) => {
                &&& view.cut == Some(error)
                &&& forall|q: int|
                    from <= q < view.entries.len() ==> holds_nothing(#[trigger] view.entries[q])
            },
            Err(_) => false,
        },
    decreases view.entries.len() - from,
{
    if from < view.entries.len() {
        let entry = view.entries[from];
        if holds_nothing(entry) {
            law_walks_find_the_next_name(view, region, from + 1);
        } else if super::state_of(entry.state) == PUBLISHED {
            assert(0 <= from / 32 <= view.links.len());
            assert(from == 32 * (from / 32) + from % 32);
        } else {
            assert(super::is_changing(view.entries[from]));
        }
    }
}

/// A name leads to one place, and no two places have one: two names that are
/// published at one place are the same. A name of another region is none.
pub proof fn law_names_lead_to_one_place(view: DirView, region: RegionId, id: Id, other: Id)
    requires
        view.wf(),
    ensures
        view.published(region, id) is Some ==> id.region == region,
        view.published(region, id) is Some ==> (view.position(
            id.slab as int,
            id.entry as int,
        ) matches Some(p) && 0 <= p < view.entries.len() && super::state_of(view.entries[p].state)
            == PUBLISHED),
        view.published(region, id) is Some && view.published(region, other) is Some
            && view.position(id.slab as int, id.entry as int) == view.position(
            other.slab as int,
            other.entry as int,
        ) ==> id == other,
        id.slab != other.slab || id.entry != other.entry ==> view.position(
            id.slab as int,
            id.entry as int,
        ) is None || view.position(id.slab as int, id.entry as int) != view.position(
            other.slab as int,
            other.entry as int,
        ),
{
}

/// A name that is not published is stale; unless it lies behind the place at which
/// the chain is cut, where nobody can say.
pub proof fn law_unpublished_names_are_stale(view: DirView, region: RegionId, id: Id)
    ensures
        view.unpublished(region, id) == Error::Stale <==> id.region != region || view.cut is None
            || id.slab <= view.links.len(),
        view.unpublished(region, id) != Error::Stale ==> (view.cut matches Some(error)
            && view.unpublished(region, id) == Error::Admission(error)),
{
}

/// A layout is closed by a participant exactly where that one is its only member
/// and it is not closed yet; it is told why else.
pub proof fn law_layouts_are_closed_by_their_only_member(members: u64, slot: u8)
    requires
        slot < PARTICIPANT_CAPACITY,
    ensures
        super::remove::close_refused(members, slot) is None <==> {
            &&& !crate::header::layout::is_closed(members)
            &&& forall|other: u8|
                other < PARTICIPANT_CAPACITY ==> (#[trigger] crate::header::layout::is_member(
                    members,
                    other,
                ) <==> other == slot)
        },
        super::remove::close_refused(members, slot) == Some(CloseError::Closed)
            <==> crate::header::layout::is_closed(members),
        super::remove::close_refused(members, slot) == Some(CloseError::MissingMember)
            <==> !crate::header::layout::is_closed(members) && !crate::header::layout::is_member(
            members,
            slot,
        ),
        super::remove::close_refused(members, slot) == Some(CloseError::Contention) ==> exists|
            other: u8,
        |
            other < PARTICIPANT_CAPACITY && other != slot
                && #[trigger] crate::header::layout::is_member(members, other),
{
    crate::header::layout::law_only_the_last_member_closes(members, slot);
    if members == crate::header::layout::member_bit(slot) {
        assert(crate::header::layout::is_member(members, slot));
    }
}

/// A removal begins only for a layout that is published under the name, lies where
/// its header says, and is at least as large as its header; and only while nobody
/// changes the directory or the heap. What does not begin changes nothing.
pub proof fn law_removals_begin_for_published_layouts<L: Layout>(
    before: DirView,
    after: DirView,
    heap: TalckMeta,
    heap_after: TalckMeta,
    header: RcHeader<L>,
    header_after: RcHeader<L>,
    info: TalcInfo,
    region: Region,
    id: Id,
    layout: Extent,
    removed: Result<(), Error>,
)
    requires
        super::remove::removes(
            before,
            after,
            heap,
            heap_after,
            header,
            header_after,
            info,
            region,
            id,
            layout,
            removed,
        ),
    ensures
        removed is Ok ==> {
            &&& before.published(region.region, id) == Some(header.offset)
            &&& header.region == region.region
            &&& before.word == CLEAN
            &&& crate::talc::lock::mutation_refused(heap.mutation) is None
            &&& layout.size >= crate::mem::header_extent_spec::<L>().size
            &&& layout.align >= crate::mem::header_extent_spec::<L>().align
            &&& header.members == crate::header::layout::member_bit(region.member.slot)
        },
        before.word != CLEAN || before.published(region.region, id) is None ==> removed is Err
            && after == before && heap_after == heap && header_after == header,
        removed is Err ==> heap_after.talc == heap.talc && header_after.members == header.members
            && after.entries == before.entries && after.word == before.word && after.links
            == before.links,
        removed matches Err(Error::Busy(owner)) ==> before.word != CLEAN && owner
            == super::owner_of(before.word),
{
}

/// While another participant changes a directory nothing is created in it, and
/// nothing changes; whoever gave a creation up before undoes that one first.
pub proof fn law_busy_directories_create_nothing<L: Layout>(
    before: DirView,
    after: DirView,
    heap: TalckMeta,
    heap_after: TalckMeta,
    region: Region,
    conf: L::Config,
    layout: Extent,
    made: Result<(Id, RcHeader<L>), Error>,
)
    requires
        super::create::creates::<L>(
            before,
            after,
            heap,
            heap_after,
            region,
            conf,
            layout,
            made,
        ),
        before.word != CLEAN,
    ensures
        made is Err,
        before.word != super::owner_word_spec(region.member.slot, ROLLING_BACK) ==> {
            &&& made == Err::<(Id, RcHeader<L>), Error>(
                Error::Busy(super::owner_of(before.word)),
            )
            &&& after == before
            &&& heap_after == heap
        },
{
}

/// A creation that fails changes the meaning of no name, and gives up no slab; and
/// it leaves the directory free for others, unless its memory is still to be given
/// back.
#[verifier::spinoff_prover]
pub proof fn law_failed_creations_change_no_name<L: Layout>(
    before: DirView,
    after: DirView,
    heap: TalckMeta,
    heap_after: TalckMeta,
    region: Region,
    conf: L::Config,
    layout: Extent,
    error: Error,
    id: Id,
)
    requires
        before.wf(),
        before.word == CLEAN,
        super::create::creates::<L>(
            before,
            after,
            heap,
            heap_after,
            region,
            conf,
            layout,
            Err::<(Id, RcHeader<L>), Error>(error),
        ),
    ensures
        after.published(region.region, id) == before.published(region.region, id),
        after.word == CLEAN || after.word == super::owner_word_spec(
            region.member.slot,
            ROLLING_BACK,
        ),
        after.links.len() >= before.links.len(),
        after.links.take(before.links.len() as int) == before.links,
{
    let owner = region.member.slot;
    let held = before.with_word(super::owner_word_spec(owner, super::HELD));
    let (ready, middle, grown) = choose|
        ready: DirView,
        middle: TalckMeta,
        grown: Result<(), Error>,
    |
        {
            &&& #[trigger] super::create::room(held, ready, heap, middle, region, grown)
            &&& match grown {
                Err(error) => after == ready.with_word(CLEAN) && heap_after == middle,
                Ok(()) => super::create::fills::<L>(
                    ready,
                    after,
                    middle,
                    heap_after,
                    region,
                    super::first_free(ready.entries, 0)->0,
                    conf,
                    layout,
                    Err::<(Id, RcHeader<L>), Error>(error),
                ),
            }
        };
    lemma_room_keeps_names(held, ready, heap, middle, region, grown, id);
    if grown is Ok {
        let p = super::first_free(ready.entries, 0)->0;
        super::lemma_first_free(ready.entries, 0);
        if super::first_free(ready.entries, 0) is None {
            let last = ready.entries.len() - 32;
            assert(super::is_free(ready.entries[last]));
        }
        let word = ready.entries[p].state;
        let generation = super::generation_of(word);
        super::law_entry_word_round_trips((generation + 1) as u64, super::PENDING);
        super::law_entry_word_round_trips(generation, VACANT);
    }
    assert(before.links.take(before.links.len() as int) =~= before.links);
}

proof fn lemma_room_keeps_names(
    before: DirView,
    after: DirView,
    heap: TalckMeta,
    heap_after: TalckMeta,
    region: Region,
    grown: Result<(), Error>,
    id: Id,
)
    requires
        before.wf(),
        super::create::room(before, after, heap, heap_after, region, grown),
    ensures
        after.published(region.region, id) == before.published(region.region, id),
        after.links.len() >= before.links.len(),
        after.links.take(before.links.len() as int) == before.links,
        after.word == before.word || after.word == super::owner_word_spec(
            region.member.slot,
            super::HELD,
        ),
        grown is Ok ==> super::first_free(after.entries, 0) is Some,
{
    assert(before.links.take(before.links.len() as int) =~= before.links);
    if after.links.len() > before.links.len() {
        assert(after.links.take(before.links.len() as int) =~= before.links);
        super::lemma_first_free(after.entries, 0);
        assert(super::is_free(after.entries[before.entries.len() as int]));
    }
}

/// What recovery makes of one entry changes no other.
proof fn lemma_one_entry(view: DirView, mutation: u64, dead: u8, closed: bool, p: int)
    requires
        0 <= p < view.entries.len(),
    ensures
        ({
            let made = super::recover::entry_outcome(view, mutation, dead, closed, p);
            &&& made.view.links == view.links
            &&& made.view.cut == view.cut
            &&& made.result is Ok ==> made.view.word == CLEAN
            &&& made.result is Err ==> made.view == view && !made.freed
            &&& made.view.entries.len() == view.entries.len()
            &&& forall|q: int|
                0 <= q < view.entries.len() && q != p ==> #[trigger] made.view.entries[q]
                    == view.entries[q]
            &&& made.freed ==> super::recover::evident(view.word) && made.mutation
                == crate::talc::mutation::MUTATION_CLEAN
        }),
{
}

/// What recovery makes of a slab that was being added changes no entry.
proof fn lemma_no_entry(view: DirView, mutation: u64, base: int, region: Region, dead: u8)
    ensures
        ({
            let made = super::recover::growth_outcome(view, mutation, base, region, dead, true);
            &&& made.view.links == view.links
            &&& made.view.cut == view.cut
            &&& made.view.entries == view.entries
            &&& made.result is Ok ==> made.view.word == CLEAN
            &&& made.result is Err ==> made.view == view && !made.freed
            &&& made.freed ==> made.mutation == crate::talc::mutation::MUTATION_CLEAN
        }),
{
}

/// Recovery of a dead participant's change touches one entry at most: every other
/// name means what it meant, and no slab is lost. It ends the change or leaves it
/// as it is, and it touches the change of nobody else.
pub proof fn law_recovery_touches_one_entry(
    view: DirView,
    mutation: u64,
    base: int,
    region: Region,
    dead: u8,
    closed: bool,
    id: Id,
)
    requires
        view.wf(),
    ensures
        ({
            let made = super::recover::outcome(view, mutation, base, region, dead, closed);
            &&& made.view.links == view.links
            &&& made.view.cut == view.cut
            &&& made.result is Ok ==> made.view.word == CLEAN
            &&& made.result is Err ==> made.view == view && !made.freed
            &&& view.word == CLEAN || super::owner_of(view.word) != dead ==> made.result is Err
                && made.mutation == mutation
            &&& view.position(id.slab as int, id.entry as int) != super::recover::located(view)
                ==> made.view.published(region.region, id) == view.published(region.region, id)
            &&& made.freed ==> super::recover::evident(view.word) && made.mutation
                == crate::talc::mutation::MUTATION_CLEAN
        }),
{
    let owner = super::owner_of(view.word);
    if view.word != CLEAN && owner == dead {
        if super::recover::evident(view.word) && view.kind == super::GROW {
            lemma_no_entry(view, mutation, base, region, dead);
        } else {
            match super::recover::located(view) {
                Some(p) => {
                    lemma_located(view);
                    lemma_one_entry(view, mutation, dead, closed, p);
                },
                None => {},
            }
        }
    }
}

/// The entry that a change is about is one of the directory.
proof fn lemma_located(view: DirView)
    requires
        view.wf(),
    ensures
        super::recover::located(view) matches Some(p) ==> 0 <= p < view.entries.len(),
{
    lemma_changing(view.entries, 0);
}

proof fn lemma_changing(entries: Seq<Entry>, from: int)
    requires
        0 <= from,
    ensures
        match super::first_changing(entries, from) {
            Some(p) => from <= p < entries.len() && super::is_changing(entries[p]) && forall|q: int|
                from <= q < p ==> !super::is_changing(#[trigger] entries[q]),
            None => forall|q: int|
                from <= q < entries.len() ==> !super::is_changing(#[trigger] entries[q]),
        },
    decreases entries.len() - from,
{
    if from < entries.len() && !super::is_changing(entries[from]) {
        lemma_changing(entries, from + 1);
    }
}

/// A change that left no trace is over once its participant is known to be dead,
/// and nothing of the directory changes. Where that participant was in the middle
/// of changing the heap, the heap is poisoned.
pub proof fn law_changes_without_a_trace_are_undone(
    view: DirView,
    mutation: u64,
    base: int,
    region: Region,
    dead: u8,
    closed: bool,
)
    requires
        view.word == super::owner_word_spec(dead, super::HELD),
        forall|p: int|
            0 <= p < view.entries.len() ==> !super::is_changing(#[trigger] view.entries[p]),
        view.cut is None,
    ensures
        ({
            let made = super::recover::outcome(view, mutation, base, region, dead, closed);
            let changing = mutation == crate::talc::mutation::owner_word_spec(dead);
            &&& made.view == view.with_word(CLEAN)
            &&& !made.freed
            &&& mutation == crate::talc::mutation::MUTATION_CLEAN ==> made.result == Ok::<
                super::Recovered,
                Error,
            >(super::Recovered::RolledBack) && made.mutation == mutation
            &&& changing ==> made.result == Ok::<super::Recovered, Error>(
                super::Recovered::Quarantined,
            ) && made.mutation == crate::talc::mutation::MUTATION_POISONED
        }),
{
    lemma_changing(view.entries, 0);
    super::law_owner_word_round_trips(dead, super::HELD);
    crate::talc::mutation::law_owner_word_round_trips(dead);
}

/// A creation that was given up is undone once the heap can be changed: its memory
/// goes back, its entry is vacant under the generation before, and the directory
/// is free for others. Until then nothing changes.
pub proof fn law_creations_that_were_given_up_are_undone(
    view: DirView,
    mutation: u64,
    base: int,
    region: Region,
    p: int,
)
    requires
        view.wf(),
        view.kind == super::CREATE,
        super::recover::evidence_at(view) == Some(p),
        super::generation_of(view.entries[p].state) > 0,
    ensures
        ({
            let made = super::create::undone(view, mutation, base, region);
            let generation = super::generation_of(view.entries[p].state);
            let entry = made.view.entries[p];
            if mutation == crate::talc::mutation::MUTATION_CLEAN {
                &&& made.result is Ok
                &&& made.freed
                &&& made.view.word == CLEAN
                &&& super::state_of(entry.state) == VACANT
                &&& super::generation_of(entry.state) == generation - 1
                &&& super::is_free(entry)
            } else {
                made.result is Err && made.view == view && !made.freed && made.mutation == mutation
            }
        }),
{
    let generation = super::generation_of(view.entries[p].state);
    super::law_entry_word_round_trips((generation - 1) as u64, VACANT);
    crate::talc::fitting::law_heaps_are_changed_by_one(mutation, 0);
}

/// A layout that cannot be made gives its memory back, and leaves the directory
/// free for others; where the heap cannot be changed just now the directory says
/// that its memory is still to be given back, and by whom.
pub proof fn law_layouts_that_fail_give_their_memory_back<L: Layout>(
    before: DirView,
    after: DirView,
    heap: TalckMeta,
    heap_after: TalckMeta,
    region: Region,
    p: int,
    memory: super::create::Prepared,
    conf: L::Config,
    error: Error,
)
    requires
        super::create::publishes::<L>(
            before,
            after,
            heap,
            heap_after,
            region,
            p,
            memory,
            conf,
            Err::<(Id, RcHeader<L>), Error>(error),
        ),
    ensures
        heap.mutation == crate::talc::mutation::MUTATION_CLEAN ==> {
            &&& after.word == CLEAN
            &&& !heap_after.talc.live().dom().contains(memory.meta.start())
            &&& error is Admission
        },
        heap.mutation != crate::talc::mutation::MUTATION_CLEAN ==> {
            &&& after.word == super::owner_word_spec(region.member.slot, ROLLING_BACK)
            &&& after.entries == before.entries
            &&& after.pending == before.pending
            &&& heap_after == heap
            &&& error is Heap
        },
{
    crate::talc::fitting::law_heaps_are_changed_by_one(heap.mutation, 0);
}

/// A directory grows by one slab at a time, behind those that it has, until it has
/// as many as can be named; one whose chain is cut does not grow.
pub proof fn law_directories_grow_until_they_are_full(
    before: DirView,
    after: DirView,
    heap: TalckMeta,
    heap_after: TalckMeta,
    region: Region,
    owner: u8,
    grown: Result<(), Error>,
)
    requires
        before.wf(),
        super::change::grows(before, after, heap, heap_after, region, owner, grown),
    ensures
        grown == Err::<(), Error>(Error::Full) <==> before.cut is None && before.links.len()
            >= u32::MAX,
        before.cut matches Some(error) ==> grown == Err::<(), Error>(Error::Admission(error)),
        grown is Ok ==> {
            &&& after.links.len() == before.links.len() + 1
            &&& after.links.drop_last() == before.links
            &&& after.entries.len() == before.entries.len() + super::CAPACITY
            &&& after.entries.take(before.entries.len() as int) == before.entries
            &&& forall|q: int|
                before.entries.len() <= q < after.entries.len() ==> super::is_free(
                    #[trigger] after.entries[q],
                )
        },
        grown is Err ==> after == before,
{
    if grown is Ok {
        assert(after.links.drop_last() =~= before.links);
        assert(after.entries.take(before.entries.len() as int) =~= before.entries);
    }
}

/// Memory counts as the heap's exactly where it lies behind the heap's metadata,
/// inside what the heap records that it uses.
pub proof fn law_the_heap_covers_what_it_uses(info: TalcInfo, base: int, address: int, size: int)
    requires
        crate::talc::lock::META_BYTES + info.usable_offset_spec() + info.usable_length_spec()
            <= u64::MAX,
        size > 0,
    ensures
        super::remove::covered(info, base, address, size) <==> base + crate::talc::lock::META_BYTES
            + info.usable_offset_spec() <= address && address + size <= base
            + crate::talc::lock::META_BYTES + info.usable_offset_spec()
            + info.usable_length_spec(),
{
}

} // verus!
