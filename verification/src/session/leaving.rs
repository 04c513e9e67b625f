//! What holds of the beginning and the end of sessions.

use super::open::SessionError;
use super::{Session, Shared};
use crate::header::layout::RcHeader;
use crate::header::root::{Member, Root, MEMBER_DEAD, MEMBER_FREE, MEMBER_LIVE};
use crate::header::PARTICIPANT_CAPACITY;
use crate::mem::compose::MapLayout;
use crate::mem::{Error, Region};
use crate::talc::config::Config;
use vstd::prelude::*;

verus! {

/// A membership that ended ended for one participant alone.
pub proof fn law_memberships_end_alone(members: u64, slot: u8, other: u8)
    requires
        slot < PARTICIPANT_CAPACITY,
        other < PARTICIPANT_CAPACITY,
    ensures
        crate::header::layout::is_member(super::without(members, slot), other) <==> other != slot
            && crate::header::layout::is_member(members, other),
        crate::header::layout::is_closed(super::without(members, slot))
            == crate::header::layout::is_closed(members),
{
    crate::header::layout::law_members_are_independent(members, slot, other);
}

/// Whoever leaves a region does not live in it any more, and its word can be taken
/// by another; everybody else stands as before. Whoever had left already, or is
/// known to be dead, changes nothing.
pub proof fn law_participants_leave_alone(
    before: RcHeader<Root>,
    after: RcHeader<Root>,
    region: Region,
    other: Member,
    state: u64,
)
    requires
        region.wf(),
        super::departs(before, after, region),
        before.inner is Some,
        other.slot != region.member.slot || other.generation != region.member.generation,
        crate::header::root::in_range(other),
        state == MEMBER_LIVE || state == MEMBER_DEAD,
    ensures
        after.inner is Some,
        !region.detached ==> !(after.inner->0).is(region.member, MEMBER_LIVE),
        (before.inner->0).is(other, state) ==> (after.inner->0).is(other, state),
        (after.inner->0).is(other, state) ==> (before.inner->0).is(other, state),
        !region.detached && (before.inner->0).is(region.member, MEMBER_LIVE) ==> (
        after.inner->0).is(region.member, MEMBER_FREE),
        region.detached || !(before.inner->0).is(region.member, MEMBER_LIVE) ==> (
        after.inner->0).members@ == (before.inner->0).members@,
        after.members == before.members,
        after.status_spec() == before.status_spec(),
{
    crate::header::root::law_member_word_round_trips(other.generation, state);
    crate::header::root::law_member_word_round_trips(region.member.generation, MEMBER_LIVE);
    crate::header::root::law_member_word_round_trips(region.member.generation, MEMBER_FREE);
}

/// Each reason for which a region is not entered, or a layout not composed, is
/// reported of the session as what it is.
pub proof fn law_sessions_report_what_happened<E>(error: Error)
    ensures
        ({
            let reported = super::open::session_error::<E>(error);
            &&& !(reported is Source)
            &&& reported is PermissionDenied <==> error is PermissionDenied
            &&& reported is InsufficientSpace <==> error is UnenoughSpace || error is OutofSize
            &&& reported is Busy <==> error is Contention
            &&& reported is Closed <==> error is LayoutClosed
            &&& reported is DuplicateAttachment <==> error is DuplicateAttachment
            &&& reported is InvalidHeader <==> error is InvalidHeader
            &&& reported is LayoutMismatch <==> error is LayoutMismatch
            &&& reported is Poisoned <==> error is PoisonedComposition
            &&& reported is Overflow <==> error is ArithmeticOverflow
            &&& reported is ParticipantExhausted <==> error is ParticipantExhausted
            &&& error matches Error::PermissionDenied { requested } ==> reported
                == SessionError::<E>::PermissionDenied { requested }
            &&& error matches Error::UnenoughSpace { requested, allocated } ==> reported
                == SessionError::<E>::InsufficientSpace { requested, allocated }
            &&& error matches Error::OutofSize { requested, bound } ==> reported
                == SessionError::<E>::InsufficientSpace { requested, allocated: bound }
            &&& error matches Error::LayoutMismatch(field) ==> reported
                == SessionError::<E>::LayoutMismatch(field)
        }),
{
}

/// A participant that does not get its session leaves nothing of itself behind:
/// it does not live in the region any more, and it is no member of the directory
/// or of the heap unless it was one before.
#[verifier::spinoff_prover]
pub proof fn law_refused_sessions_leave_nothing_behind(
    area: MapLayout,
    before: Shared,
    after: Shared,
    conf: Config,
    error: Error,
)
    requires
        area.wf(),
        !area.area.detached,
        before.root.inner is Some,
        super::open::opens(area, before, after, conf, Err::<Session, Error>(error)),
    ensures
        after.root.inner matches Some(root) && !root.is(area.area.member, MEMBER_LIVE),
        crate::header::layout::is_member(after.directory.members, area.area.member.slot)
            ==> crate::header::layout::is_member(before.directory.members, area.area.member.slot),
        crate::header::layout::is_member(after.heap.members, area.area.member.slot)
            ==> crate::header::layout::is_member(before.heap.members, area.area.member.slot),
{
    let region = area.area;
    let slot = region.member.slot;
    crate::header::root::law_member_word_round_trips(region.member.generation, MEMBER_LIVE);
    crate::header::root::law_member_word_round_trips(region.member.generation, MEMBER_FREE);
    crate::numeric::lemma_zero_word(0);
    assert(!crate::numeric::bit_is_set(0, slot as u64));
    let (middle, admitted, pushed) = choose|
        middle: MapLayout,
        admitted: RcHeader<crate::dir::Directory>,
        pushed: Result<(), Error>,
    |
        {
            &&& #[trigger] crate::mem::compose::pushes(
                area,
                middle,
                before.directory,
                admitted,
                (),
                pushed,
            )
            &&& match pushed {
                Err(error) => {
                    &&& after.directory == admitted
                    &&& after.heap == before.heap
                },
                Ok(()) => {
                    &&& super::open::heap_opens(
                        middle,
                        before,
                        after,
                        conf,
                        Err::<Session, Error>(error),
                    )
                    &&& after.directory.members == super::without(admitted.members, slot)
                },
            }
        };
    law_memberships_end_alone(admitted.members, slot, slot);
    if pushed is Ok {
        lemma_heap_left(middle, before, after, conf, error);
    }
}

proof fn lemma_heap_left(
    area: MapLayout,
    before: Shared,
    after: Shared,
    conf: Config,
    error: Error,
)
    requires
        area.area.wf(),
        super::open::heap_opens(area, before, after, conf, Err::<Session, Error>(error)),
    ensures
        crate::header::layout::is_member(after.heap.members, area.area.member.slot)
            ==> crate::header::layout::is_member(before.heap.members, area.area.member.slot),
{
    let slot = area.area.member.slot;
    crate::numeric::lemma_zero_word(0);
    assert(!crate::numeric::bit_is_set(0, slot as u64));
    assert forall|members: u64| !#[trigger] crate::header::layout::is_member(
        super::without(members, slot),
        slot,
    ) by {
        law_memberships_end_alone(members, slot, slot);
    }
}

/// A participant that gets its session is a member of the directory and of the
/// heap, and the root is as it was.
#[verifier::spinoff_prover]
pub proof fn law_sessions_have_directory_and_heap(
    area: MapLayout,
    before: Shared,
    after: Shared,
    conf: Config,
    session: Session,
    other: u8,
)
    requires
        area.wf(),
        other < PARTICIPANT_CAPACITY,
        other != area.area.member.slot,
        super::open::opens(area, before, after, conf, Ok::<Session, Error>(session)),
    ensures
        session.region_spec() == area.area,
        after.root == before.root,
        crate::header::layout::is_member(after.directory.members, area.area.member.slot),
        crate::header::layout::is_member(after.heap.members, area.area.member.slot),
        before.directory.status_spec() == crate::header::record::Status::Initialized
            ==> crate::header::layout::is_member(after.directory.members, other)
            == crate::header::layout::is_member(before.directory.members, other),
        after.heap.inner is Some,
{
    let slot = area.area.member.slot;
    let region = area.area;
    let (middle, admitted) = choose|middle: MapLayout, admitted: RcHeader<crate::dir::Directory>|
        {
            &&& #[trigger] crate::mem::compose::pushes(
                area,
                middle,
                before.directory,
                admitted,
                (),
                Ok::<(), Error>(()),
            )
            &&& super::open::heap_opens(
                middle,
                before,
                after,
                conf,
                Ok::<Session, Error>(session),
            )
            &&& after.directory.members == admitted.members
        };
    let (at, next) = area.next_place::<crate::dir::Directory>()->Ok_0;
    crate::mem::laws::law_admission_makes_a_member(
        before.directory,
        admitted,
        (region.map.start + at) as u64,
        (),
        crate::schema::LayoutContext {
            region: region.region,
            offset: at,
            allow_init: region.allow_init,
        },
        slot,
        <crate::dir::Directory as crate::header::layout::Layout>::storage_spec(())->0,
        other,
    );
    lemma_heap_joined(middle, before, after, conf, session, other);
}

proof fn lemma_heap_joined(
    area: MapLayout,
    before: Shared,
    after: Shared,
    conf: Config,
    session: Session,
    other: u8,
)
    requires
        area.area.wf(),
        other < PARTICIPANT_CAPACITY,
        other != area.area.member.slot,
        super::open::heap_opens(area, before, after, conf, Ok::<Session, Error>(session)),
    ensures
        session.region_spec() == area.area,
        crate::header::layout::is_member(after.heap.members, area.area.member.slot),
        after.heap.inner is Some,
{
    let slot = area.area.member.slot;
    let region = area.area;
    let (at, next) = area.next_place::<crate::talc::lock::TalckMeta>()->Ok_0;
    let len = region.map.len;
    let base = region.map.start + at + super::open::HEAP_BASE;
    let placed = crate::talc::lock::Placed {
        base: base as u64,
        conf: conf.bounded((len - next) as u64),
    };
    let (admitted, done) = choose|
        admitted: RcHeader<crate::talc::lock::TalckMeta>,
        done: MapLayout,
    |
        {
            &&& #[trigger] crate::mem::compose::pushes(
                area,
                done,
                before.heap,
                admitted,
                placed,
                Ok::<(), Error>(()),
            )
            &&& after.heap.members == admitted.members
        };
    crate::mem::laws::law_admission_makes_a_member(
        before.heap,
        admitted,
        (region.map.start + at) as u64,
        placed,
        crate::schema::LayoutContext {
            region: region.region,
            offset: at,
            allow_init: region.allow_init,
        },
        slot,
        <crate::talc::lock::TalckMeta as crate::header::layout::Layout>::storage_spec(placed)->0,
        other,
    );
}

} // verus!
