//! What holds of the recovery after a participant that died.

use super::layouts::Layouts;
use super::Shared;
use crate::header::layout::RecoveryHandler;
use crate::header::root::{Member, MEMBER_DEAD, MEMBER_FREE, MEMBER_LIVE};
use crate::mem::Region;
use crate::talc::lock::TalckMeta;
use crate::talc::mutation::{MUTATION_CLEAN, MUTATION_POISONED};
use vstd::prelude::*;

verus! {

/// Nobody recovers after itself, and nobody recovers after one while another is in
/// the middle of a change of the directory: nothing changes.
pub proof fn law_recovery_waits_for_the_living<S: Layouts>(
    before: Shared,
    after: Shared,
    layouts: S,
    left: S,
    region: Region,
    member: Member,
    given: Seq<RecoveryHandler>,
    done: bool,
)
    requires
        super::reap::reaps(before, after, layouts, left, region, member, given, done),
        member == region.member || (before.dir().word != crate::dir::CLEAN && crate::dir::owner_of(
            before.dir().word,
        ) != member.slot),
    ensures
        !done,
        after == before,
        left == layouts,
{
}

/// A participant that died in the middle of changing the heap costs the heap: it is
/// poisoned, and says so to everybody from then on. One that died without touching
/// the heap, and was not changing the directory, leaves it as it was.
pub proof fn law_unfinished_changes_poison_the_heap<S: Layouts>(
    before: Shared,
    after: Shared,
    layouts: S,
    left: S,
    region: Region,
    member: Member,
    given: Seq<RecoveryHandler>,
    done: bool,
)
    requires
        super::reap::reaps(before, after, layouts, left, region, member, given, done),
        member != region.member,
        before.dir().word == crate::dir::CLEAN,
    ensures
        before.talc().mutation == crate::talc::mutation::owner_word_spec(member.slot)
            ==> after.talc().mutation == MUTATION_POISONED,
        before.talc().mutation != crate::talc::mutation::owner_word_spec(member.slot)
            ==> after.talc().mutation == before.talc().mutation,
        after.talc().talc == before.talc().talc,
        after.dir() == before.dir(),
{
}

/// Recovery is over only once nobody is in the middle of a change, of the directory
/// or of the heap.
pub proof fn law_recovery_ends_all_changes<S: Layouts>(
    before: Shared,
    after: Shared,
    layouts: S,
    left: S,
    region: Region,
    member: Member,
    given: Seq<RecoveryHandler>,
)
    requires
        super::reap::reaps(before, after, layouts, left, region, member, given, true),
        before.dir().wf(),
    ensures
        after.dir().word == crate::dir::CLEAN,
        after.talc().mutation == MUTATION_CLEAN || after.talc().mutation == MUTATION_POISONED,
        member != region.member,
{
    let dead = member.slot;
    reveal(super::reap::resumed);
    crate::dir::names::law_recovery_touches_one_entry(
        before.dir(),
        before.talc().mutation,
        before.talc().talc.base_spec(),
        region,
        dead,
        super::reap::pending_closed(before, layouts, region),
        arbitrary(),
    );
    let heap = choose|heap: TalckMeta|
        {
            &&& #[trigger] super::reap::heap_settled(before, layouts, region, dead, heap)
            &&& after.talc().mutation == super::reap::heap_word(heap, dead)
            &&& !super::reap::heap_busy(heap, dead)
        };
    crate::talc::mutation::law_owner_word_round_trips(dead);
}

/// Recovery that is over frees the word of the participant that died, for the next
/// of its generations, and touches no other: everybody else stands as before.
pub proof fn law_recovery_frees_one_word<S: Layouts>(
    before: Shared,
    after: Shared,
    layouts: S,
    left: S,
    region: Region,
    member: Member,
    given: Seq<RecoveryHandler>,
    other: Member,
    state: u64,
)
    requires
        before.wf(),
        super::reap::reaps(before, after, layouts, left, region, member, given, true),
        crate::header::root::in_range(member),
        crate::header::root::in_range(other),
        state == MEMBER_LIVE || state == MEMBER_DEAD,
    ensures
        !(after.root.inner->0).is(member, MEMBER_DEAD),
        !(after.root.inner->0).is(member, MEMBER_LIVE),
        other.slot != member.slot ==> ((after.root.inner->0).is(other, state) <==> (
        before.root.inner->0).is(other, state)),
        member.generation < crate::header::root::MEMBER_GENERATION_MAX ==> (
        after.root.inner->0).is(member, MEMBER_FREE) && crate::header::root::joinable(
            after.words()[member.slot as int],
        ),
{
    crate::header::root::law_member_word_round_trips(member.generation, MEMBER_FREE);
    crate::header::root::law_member_word_round_trips(member.generation, MEMBER_DEAD);
    crate::header::root::law_member_word_round_trips(member.generation, MEMBER_LIVE);
    crate::header::root::law_member_word_round_trips(
        member.generation,
        crate::header::root::MEMBER_RETIRED,
    );
    crate::header::root::law_words_that_nobody_has_can_be_taken(member.generation, MEMBER_FREE);
}

/// While another participant changes the heap recovery is held up: the participant
/// stays dead and a member of the directory and of the heap.
pub proof fn law_busy_heaps_hold_recovery_up<S: Layouts>(
    before: Shared,
    after: Shared,
    layouts: S,
    left: S,
    region: Region,
    member: Member,
    given: Seq<RecoveryHandler>,
    done: bool,
    other: u8,
)
    requires
        super::reap::reaps(before, after, layouts, left, region, member, given, done),
        before.dir().word == crate::dir::CLEAN,
        other != member.slot,
        before.talc().mutation == crate::talc::mutation::owner_word_spec(other),
    ensures
        !done,
        left == layouts,
        after.words() == before.words(),
        after.heap.members == before.heap.members,
        after.directory.members == before.directory.members,
        after.talc().mutation == before.talc().mutation,
{
    crate::talc::mutation::law_owner_word_round_trips(other);
    crate::talc::mutation::law_owner_words_differ(other, member.slot);
}

/// What is surveyed is what the directory publishes: every offset that it
/// publishes from an entry on, and no other; and there is a survey only where no
/// entry is being changed and every layout can be read.
pub proof fn law_surveys_list_what_is_published<S: Layouts>(
    view: crate::dir::DirView,
    layouts: S,
    region: Region,
    p: int,
    at: u64,
)
    requires
        0 <= p <= view.entries.len(),
    ensures
        match super::scan::offsets_from(view, layouts, region, p) {
            Some(offsets) => {
                &&& view.cut is None
                &&& offsets.contains(at) <==> exists|q: int|
                    p <= q < view.entries.len() && (#[trigger] view.entries[q]).offset == at
                        && crate::dir::state_of(view.entries[q].state) == crate::dir::PUBLISHED
                &&& forall|q: int|
                    p <= q < view.entries.len() && crate::dir::state_of(
                        (#[trigger] view.entries[q]).state,
                    ) == crate::dir::PUBLISHED ==> layouts.recorded_spec(
                        region,
                        view.entries[q].offset,
                    ) is Some
            },
            None => {
                ||| view.cut is Some
                ||| exists|q: int|
                    p <= q < view.entries.len() && {
                        let entry = #[trigger] view.entries[q];
                        crate::dir::is_changing(entry) || (crate::dir::state_of(entry.state)
                            == crate::dir::PUBLISHED && layouts.recorded_spec(
                            region,
                            entry.offset,
                        ) is None)
                    }
            },
        },
    decreases view.entries.len() - p,
{
    if p < view.entries.len() {
        law_surveys_list_what_is_published(view, layouts, region, p + 1, at);
        let entry = view.entries[p];
        let rest = super::scan::offsets_from(view, layouts, region, p + 1);
        let all = super::scan::offsets_from(view, layouts, region, p);
        if all is Some && !super::scan::idle(entry) {
            let offsets = all->0;
            assert(offsets =~= seq![entry.offset] + rest->0);
            if offsets.contains(at) {
                let i = choose|i: int| 0 <= i < offsets.len() && offsets[i] == at;
                if i == 0 {
                    assert(view.entries[p].offset == at);
                } else {
                    assert(rest->0[i - 1] == at);
                }
            }
            if rest->0.contains(at) {
                let i = choose|i: int| 0 <= i < rest->0.len() && rest->0[i] == at;
                assert(offsets[i + 1] == at);
            }
            assert(offsets[0] == entry.offset);
        }
        if all is None && rest is Some {
            assert(crate::dir::is_changing(view.entries[p]) || crate::dir::state_of(
                view.entries[p].state,
            ) == crate::dir::PUBLISHED);
        }
    }
}

/// A layout is found only where all of it lies in the region and its record can be
/// read.
pub proof fn law_found_layouts_lie_in_the_region<L: crate::header::layout::Layout>(
    stored: super::objects::Stored<L>,
    region: Region,
)
    requires
        region.map.start + region.map.len <= u64::MAX,
    ensures
        super::layouts::found(stored, region) matches Some(recorded) ==> {
            &&& recorded == stored.header.record@.layout_value()
            &&& stored.at + recorded.extent <= region.map.len
            &&& stored.header.record@.unreadable((region.map.start + stored.at) as u64) is None
        },
        super::objects::readable(stored, region) matches Some(recorded) ==> recorded
            == stored.header.record@.layout_value() && stored.header.offset == stored.at
            && stored.header.region == region.region,
{
}

/// A layout counts as closed exactly where one lies at the offset and is closed;
/// nothing counts as closed where nothing lies.
pub proof fn law_only_what_is_there_is_closed<H: crate::msg::Repr>(
    objects: super::layouts::Objects<H>,
    region: Region,
    offset: u64,
    i: int,
)
    ensures
        (forall|k: int|
            0 <= k < objects.pools.stored@.len() ==> (#[trigger] objects.pools.stored@[k]).at
                != offset) && (forall|k: int|
            0 <= k < objects.channels@.len() ==> (#[trigger] objects.channels@[k]).at != offset)
            ==> !objects.closed_spec(offset) && objects.recorded_spec(region, offset) is None,
        super::objects::first_at(objects.pools.stored@, offset, 0) == Some(i)
            ==> objects.closed_spec(offset) == crate::header::layout::is_closed(
            objects.pools.stored@[i].header.members,
        ),
        super::objects::first_at(objects.pools.stored@, offset, 0) is None
            && super::objects::first_at(objects.channels@, offset, 0) == Some(i)
            ==> objects.closed_spec(offset) == crate::header::layout::is_closed(
            objects.channels@[i].header.members,
        ),
{
    super::objects::lemma_first_at(objects.pools.stored@, offset, 0);
    super::objects::lemma_first_at(objects.channels@, offset, 0);
}

} // verus!
