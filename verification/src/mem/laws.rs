//! What holds of mapped regions as a whole: where layouts come to lie, what can
//! be reached, and who gets in.

use super::compose::MapLayout;
use super::{Access, Error, Mapping, ProjectionError, Region};
use crate::extent::Extent;
use crate::header::layout::{Layout, RcHeader};
use crate::header::record::Status;
use crate::header::root::{Member, Root};
use crate::header::{AdmitError, PARTICIPANT_CAPACITY};
use crate::schema::{LayoutContext, RegionAdmission, RegionId};
use vstd::prelude::*;

verus! {

/// One access is contained in another exactly where joining the two adds nothing.
pub proof fn law_contained_access_adds_nothing(access: Access, other: Access)
    ensures
        access.contains_spec(other) <==> access == (Access {
            read: access.read || other.read,
            write: access.write || other.write,
            execute: access.execute || other.execute,
        }),
        access.contains_spec(super::write_spec()) <==> access.write,
{
}

/// A span is null exactly where one of its parts is zero; the span of nothing
/// is.
pub proof fn law_null_spans_cover_nothing(span: super::AddrSpan<u64>)
    ensures
        span.is_null_spec() <==> span.start_offset * span.size == 0,
        super::AddrSpan::<u64>::null_spec().is_null_spec(),
        span.size == 0 && span.start_offset == 0 <==> span
            == super::AddrSpan::<u64>::null_spec(),
{
    if span.start_offset != 0 && span.size != 0 {
        assert(span.start_offset * span.size != 0) by (nonlinear_arith)
            requires
                span.start_offset > 0,
                span.size > 0,
        ;
    }
}

/// A place is the first that is aligned for its extent, in memory and not only in
/// the mapping. An extent goes without a place for want of space only where the
/// first such place leaves the mapping, and the refusal says how long the mapping
/// would have to be; and it is too far for addresses only where none fits below
/// their end.
pub proof fn law_extents_get_the_first_place(start: u64, len: u64, offset: u64, extent: Extent, p: int)
    requires
        extent.wf(),
        offset <= p,
        (start + p) % extent.align as int == 0,
    ensures
        match super::placed(start, len, offset, extent) {
            Ok((at, next)) => {
                &&& offset <= at <= p
                &&& at < offset + extent.align
                &&& (start + at) % extent.align as int == 0
                &&& next == at + extent.size
                &&& next <= len
            },
            Err(Error::UnenoughSpace { requested, allocated }) => {
                &&& allocated == len
                &&& requested > len
                &&& requested <= p + extent.size
                &&& requested < offset + extent.align + extent.size
            },
            Err(error) => {
                &&& error == Error::ArithmeticOverflow
                &&& start + p + extent.size > u64::MAX || start + offset + extent.align - 1
                    > u64::MAX
            },
        },
{
    crate::extent::lemma_power_positive(extent.align as int);
    crate::numeric::lemma_align_up(start + offset, extent.align as int);
}

/// An address lies in a region exactly where all its bytes do, at its distance
/// from the beginning.
pub proof fn law_addresses_lie_where_their_bytes_do(region: Region, address: int, size: int)
    requires
        address >= 0,
        size >= 0,
        region.map.start + region.map.len <= u64::MAX,
    ensures
        region.offset_spec(address, size) is Ok <==> region.map.start <= address && address + size
            <= region.map.start + region.map.len,
        region.offset_spec(address, size) matches Ok(offset) ==> region.map.start + offset
            == address,
        region.offset_spec(address, size) == Err::<u64, ProjectionError>(
            ProjectionError::ArithmeticOverflow,
        ) <==> region.map.start <= address && address - region.map.start + size > u64::MAX,
        region.offset_spec(address, size) matches Err(error) ==> error
            == ProjectionError::ArithmeticOverflow || error == ProjectionError::OutOfBounds,
{
}

/// An extent can be reached exactly where all of it lies in the mapping at its
/// alignment. It is called misaligned only where it lies inside.
pub proof fn law_extents_are_reached_where_they_lie(region: Region, offset: u64, extent: Extent)
    requires
        extent.wf(),
    ensures
        region.unreachable_at(offset, extent) is None <==> offset + extent.size <= region.map.len
            && (region.map.start + offset) % extent.align as int == 0,
        region.unreachable_at(offset, extent) == Some(ProjectionError::Misaligned) <==> offset
            + extent.size <= region.map.len && (region.map.start + offset) % extent.align as int
            != 0,
        region.unreachable_at(offset, extent) == Some(ProjectionError::ArithmeticOverflow)
            <==> offset + extent.size > u64::MAX,
        region.unreachable_at(offset, extent) == Some(ProjectionError::OutOfBounds)
            <==> region.map.len < offset + extent.size <= u64::MAX,
{
}

/// What found a place can be reached there.
pub proof fn law_placed_extents_are_reached(region: Region, offset: u64, extent: Extent)
    requires
        extent.wf(),
    ensures
        super::placed(region.map.start, region.map.len, offset, extent) matches Ok((at, _))
            ==> region.unreachable_at(at, extent) is None,
{
    crate::extent::lemma_power_positive(extent.align as int);
    crate::numeric::lemma_align_up(region.map.start + offset, extent.align as int);
}

/// Each reason for which a layout does not admit somebody is reported as what it
/// is, and only then.
pub proof fn law_refusals_are_reported_as_what_they_are(error: AdmitError)
    ensures
        super::admission_error(error) == Error::Contention <==> error == AdmitError::Contention,
        super::admission_error(error) == Error::LayoutClosed <==> error == AdmitError::Closed,
        super::admission_error(error) == Error::DuplicateAttachment <==> error
            == AdmitError::DuplicateMember,
        super::admission_error(error) == Error::InvalidHeader <==> error
            == AdmitError::InvalidHeader,
        super::admission_error(error) is LayoutMismatch <==> error is Mismatch,
        error matches AdmitError::Mismatch(field) ==> super::admission_error(error)
            == Error::LayoutMismatch(field),
{
}

/// A composition goes on exactly where the layout admitted the participant.
pub proof fn law_compositions_end_with_a_refusal(refused: Option<ProjectionError>)
    ensures
        super::compose::reported(refused) is Ok <==> refused is None,
        refused matches Some(ProjectionError::Admission(error)) ==> super::compose::reported(refused)
            == Err::<(), Error>(super::admission_error(error)),
{
}

/// A root takes in its region what its header and its body take, at the alignment
/// that they need.
pub proof fn law_roots_take_what_they_need()
    ensures
        super::root_extent() == super::header_extent_spec::<Root>(),
        super::root_extent().wf(),
{
    crate::header::layout::law_root_extent();
    crate::header::layout::lemma_small_alignments();
}

/// Only who may write enters a region, whose root lies in the mapping at its
/// alignment.
pub proof fn law_writers_enter(map: Mapping, admission: RegionAdmission, root: RcHeader<Root>)
    ensures
        super::entry_refused(map, admission, root) is None ==> map.access.write && (super::placed(
            map.start,
            map.len,
            0,
            super::root_extent(),
        ) is Ok),
        !map.access.write ==> super::entry_refused(map, admission, root) == Some(
            Error::PermissionDenied { requested: super::write_spec() },
        ),
{
}

/// Memory in which no region was made becomes a region for the one who creates
/// it, as soon as the root has a place; and for nobody else.
pub proof fn law_regions_are_made_by_their_creators(
    map: Mapping,
    id: RegionId,
    root: RcHeader<Root>,
)
    requires
        root.status_spec() == Status::Uninitialized,
        map.access.write,
        super::placed(map.start, map.len, 0, super::root_extent()) is Ok,
    ensures
        super::entry_refused(map, RegionAdmission::Create(id), root) is None,
        super::entry_refused(map, RegionAdmission::Expect(id), root) is Some,
        super::entry_refused(map, RegionAdmission::Discover, root) is Some,
{
}

/// A region that is in place is entered by its identity, whoever asks for it:
/// under any other, nobody gets in. Who asks for none gets the region that is
/// there.
pub proof fn law_regions_are_entered_by_their_identity(
    map: Mapping,
    admission: RegionAdmission,
    root: RcHeader<Root>,
    address: u64,
)
    requires
        root.status_spec() == Status::Initialized,
        super::placed(map.start, map.len, 0, super::root_extent()) matches Ok((at, _)) && address
            == map.start + at,
        super::entry_refused(map, admission, root) is None,
    ensures
        super::entered(admission, address, root) == Some(root.region),
        admission matches RegionAdmission::Create(id) ==> id == root.region,
        admission matches RegionAdmission::Expect(id) ==> id == root.region,
        root.record@.unreadable(address) is None,
{
}

/// Two who may both write enter a region that is in place alike, whether they ask
/// for it by its identity, for whichever it is, or as one who would have made it.
pub proof fn law_regions_admit_alike(map: Mapping, root: RcHeader<Root>)
    requires
        root.status_spec() == Status::Initialized,
    ensures
        super::entry_refused(map, RegionAdmission::Create(root.region), root)
            == super::entry_refused(map, RegionAdmission::Expect(root.region), root),
        super::entry_refused(map, RegionAdmission::Discover, root) is None
            <==> super::entry_refused(map, RegionAdmission::Expect(root.region), root) is None,
{
}

/// A region is full exactly where every word is somebody's, or without a
/// generation left; and one that is full lets nobody in.
pub proof fn law_full_regions_let_nobody_in(map: Mapping, admission: RegionAdmission, root: RcHeader<Root>)
    requires
        root.status_spec() == Status::Initialized,
        forall|i: int|
            0 <= i < (root.inner->0).members@.len() ==> !crate::header::root::joinable(
                #[trigger] (root.inner->0).members@[i],
            ),
    ensures
        super::entry_refused(map, admission, root) is Some,
{
}

/// Who enters a region lives in it from then on; and everybody who lived in it, or
/// whose death is not settled, still does.
pub proof fn law_newcomers_join_those_who_are_there(
    before: RcHeader<Root>,
    after: RcHeader<Root>,
    region: RegionId,
    allow_init: bool,
    member: Member,
    other: Member,
    state: u64,
)
    requires
        before.status_spec() == Status::Initialized,
        before.inner matches Some(root) && root.wf(),
        super::joins(before, after, region, allow_init, member),
        crate::header::root::in_range(other),
        state == crate::header::root::MEMBER_LIVE || state == crate::header::root::MEMBER_DEAD,
        (before.inner->0).is(other, state),
    ensures
        after.inner is Some,
        (after.inner->0).is(member, crate::header::root::MEMBER_LIVE),
        !(before.inner->0).is(member, crate::header::root::MEMBER_LIVE),
        (after.inner->0).is(other, state),
        other.slot != member.slot,
{
    let words = (before.inner->0).members@;
    crate::header::root::law_member_word_round_trips(other.generation, state);
    assert(crate::header::root::joinable(words[member.slot as int]));
    crate::header::root::law_joining_takes_one_word(words, member.slot as int, other.slot as int);
}

/// Who does not get into a region changes nobody's standing in it.
pub proof fn law_refused_newcomers_change_nobody(
    before: RcHeader<Root>,
    after: RcHeader<Root>,
    error: Error,
    other: Member,
    state: u64,
)
    requires
        before.inner matches Some(root) && root.wf(),
        super::stays_out(before, after, error),
        crate::header::root::in_range(other),
        state == crate::header::root::MEMBER_LIVE || state == crate::header::root::MEMBER_DEAD,
    ensures
        after.inner is Some,
        (before.inner->0).is(other, state) ==> (after.inner->0).is(other, state),
        after.status_spec() == before.status_spec(),
        after.members == before.members,
{
    crate::header::root::law_member_word_round_trips(other.generation, state);
    crate::header::root::law_member_word_round_trips(
        crate::header::root::MEMBER_GENERATION_MAX,
        crate::header::root::MEMBER_FREE,
    );
}

/// Who is admitted to a layout is a member of it from then on, and was none
/// before; nobody else becomes one or stops being one, and the layout is in
/// place.
pub proof fn law_admission_makes_a_member<T: Layout>(
    before: RcHeader<T>,
    after: RcHeader<T>,
    address: u64,
    conf: T::Config,
    ctx: LayoutContext,
    slot: u8,
    storage: Extent,
    other: u8,
)
    requires
        slot < PARTICIPANT_CAPACITY,
        other < PARTICIPANT_CAPACITY,
        other != slot,
        super::admission(before, after, address, conf, ctx, slot, storage, None),
    ensures
        crate::header::layout::is_member(after.members, slot),
        after.status_spec() == Status::Initialized,
        after.region == ctx.region,
        after.offset == ctx.offset,
        before.status_spec() == Status::Initialized ==> {
            &&& !crate::header::layout::is_member(before.members, slot)
            &&& !crate::header::layout::is_closed(before.members)
            &&& crate::header::layout::is_member(after.members, other)
                == crate::header::layout::is_member(before.members, other)
            &&& after.inner == before.inner
        },
        before.status_spec() != Status::Initialized ==> {
            &&& before.status_spec() == Status::Uninitialized
            &&& ctx.allow_init
            &&& !crate::header::layout::is_member(after.members, other)
        },
{
    crate::header::layout::law_members_are_independent(before.members, slot, slot);
    crate::header::layout::law_members_are_independent(before.members, slot, other);
    crate::header::layout::law_members_are_independent(0, slot, slot);
    crate::header::layout::law_members_are_independent(0, slot, other);
    crate::numeric::lemma_zero_word(0);
    assert(!crate::numeric::bit_is_set(0, other as u64));
}

/// Who is refused by a layout changes nothing of one that is in place, being made
/// or broken.
pub proof fn law_refused_admissions_change_nothing<T: Layout>(
    before: RcHeader<T>,
    after: RcHeader<T>,
    address: u64,
    conf: T::Config,
    ctx: LayoutContext,
    slot: u8,
    storage: Extent,
    error: ProjectionError,
)
    requires
        super::admission(before, after, address, conf, ctx, slot, storage, Some(error)),
        before.status_spec() != Status::Uninitialized || !ctx.allow_init,
    ensures
        after.same_but_members(before),
        after.members == before.members,
        error is Admission,
        before.status_spec() == Status::Initializing <==> error == ProjectionError::Admission(
            AdmitError::Contention,
        ) && before.status_spec() != Status::Initialized,
{
}

/// A composition that got a layout goes on right behind it; one that was refused a
/// layout gets none any more.
pub proof fn law_compositions_go_on_behind<T: Layout>(
    before: MapLayout,
    after: MapLayout,
    header: RcHeader<T>,
    admitted: RcHeader<T>,
    conf: T::Config,
    pushed: Result<(), Error>,
    extent: Extent,
)
    requires
        super::compose::pushes(before, after, header, admitted, conf, pushed),
        extent == super::header_extent_spec::<T>(),
        extent.wf(),
    ensures
        after.area == before.area,
        pushed is Ok ==> {
            &&& !before.poisoned && !after.poisoned
            &&& before.area.map.access.write
            &&& before.offset <= after.offset - extent.size
            &&& after.offset <= before.area.map.len
            &&& (before.area.map.start + after.offset - extent.size) % extent.align as int == 0
        },
        pushed is Err ==> after.offset == before.offset && (admitted.members == header.members
            || header.status_spec() == Status::Uninitialized),
        before.poisoned ==> after.poisoned && pushed is Err && admitted == header,
        pushed is Err && before.next_place::<T>() is Ok ==> after.poisoned,
        before.next_place::<T>() is Err ==> pushed is Err && after.poisoned == before.poisoned
            && admitted == header,
{
    crate::extent::lemma_power_positive(extent.align as int);
    crate::numeric::lemma_align_up(
        before.area.map.start + before.offset,
        extent.align as int,
    );
}

/// A root refuses for the reason that there is: it is being made, it is broken, it
/// was never made and may not be, or it is another.
pub proof fn law_roots_refuse_for_a_reason(root: RcHeader<Root>, address: u64, ctx: LayoutContext)
    ensures
        ({
            let refused = super::root_refused(root, address, ctx);
            &&& refused == Some(AdmitError::Contention) <==> root.status_spec()
                == Status::Initializing
            &&& refused == Some(AdmitError::InvalidHeader) <==> root.status_spec()
                == Status::Corrupted
            &&& root.status_spec() == Status::Uninitialized ==> (refused is None <==> ctx.allow_init)
            &&& refused is Some && refused->0 is Mismatch ==> root.status_spec()
                == Status::Initialized || (root.status_spec() == Status::Uninitialized
                && !ctx.allow_init)
        }),
{
}

/// A layout cannot be admitted to at all for the reason that there is: the mapping
/// may not be written to, the configuration makes no layout, or what it takes
/// cannot be reached.
pub proof fn law_projections_are_refused_for_a_reason(
    region: Region,
    offset: u64,
    storage: Option<Extent>,
)
    ensures
        region.projection_refused(offset, storage) == Some(ProjectionError::ReadOnly)
            <==> !region.map.access.write,
        region.projection_refused(offset, storage) is None <==> region.map.access.write && (
        storage matches Some(extent) && region.unreachable_at(offset, extent) is None),
        region.map.access.write && storage is None ==> region.projection_refused(offset, storage)
            == Some(ProjectionError::Admission(AdmitError::InvalidHeader)),
        region.map.access.write ==> (storage matches Some(extent) ==> region.projection_refused(
            offset,
            storage,
        ) == region.unreachable_at(offset, extent)),
{
}

} // verus!
