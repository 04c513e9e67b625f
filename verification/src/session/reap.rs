//! What a session does after another participant died.

use super::layouts::Layouts;
use super::scan::scan_recovery;
use super::{Session, Shared};
use crate::header::layout::RecoveryHandler;
use crate::header::root::Member;
use crate::header::PARTICIPANT_CAPACITY;
use crate::mem::{Peer, Region};
use crate::talc::lock::{finish_recovery, TalckMeta};
use vstd::prelude::*;

verus! {

/// The authority to recover after one participant.
#[must_use]
#[derive(Clone, Copy, Debug, PartialEq, Eq)]
pub struct Recovery {
    member: Member,
}

/// Where what the directory has pending lies in the region.
pub open spec fn pending_at(shared: Shared, region: Region) -> int {
    shared.talc().talc.base_spec() + shared.dir().pending.start() - region.map.start
}

/// Whether the layout that the directory has pending is closed for good.
pub open spec fn pending_closed<S: Layouts>(shared: Shared, layouts: S, region: Region) -> bool {
    let at = pending_at(shared, region);
    &&& shared.talc().talc.base_spec() + shared.dir().pending.start() <= u64::MAX
    &&& 0 <= at
    &&& layouts.closed_spec(at as u64)
}

/// What becomes of the change that a dead participant was in the middle of.
#[verifier::opaque]
pub open spec fn resumed<S: Layouts>(
    shared: Shared,
    layouts: S,
    region: Region,
    dead: u8,
) -> crate::dir::recover::Outcome {
    crate::dir::recover::outcome(
        shared.dir(),
        shared.talc().mutation,
        shared.talc().talc.base_spec(),
        region,
        dead,
        pending_closed(shared, layouts, region),
    )
}

/// Somebody else is in the middle of a change.
pub open spec fn others_change(shared: Shared, dead: u8) -> bool {
    shared.dir().word != crate::dir::CLEAN && crate::dir::owner_of(shared.dir().word) != dead
}

/// The directory once the dead participant's change is over.
pub open spec fn dir_settled<S: Layouts>(
    shared: Shared,
    layouts: S,
    region: Region,
    dead: u8,
) -> crate::dir::DirView {
    if shared.dir().word == crate::dir::CLEAN {
        shared.dir()
    } else {
        resumed(shared, layouts, region, dead).view
    }
}

/// The heap once the dead participant's change of the directory is over.
pub open spec fn heap_settled<S: Layouts>(
    shared: Shared,
    layouts: S,
    region: Region,
    dead: u8,
    heap: TalckMeta,
) -> bool {
    if shared.dir().word == crate::dir::CLEAN {
        heap == shared.talc()
    } else {
        crate::dir::recover::heap_follows(
            shared.talc(),
            heap,
            shared.dir().pending,
            resumed(shared, layouts, region, dead),
        )
    }
}

/// Another participant is changing the heap.
pub open spec fn heap_busy(heap: TalckMeta, dead: u8) -> bool {
    match crate::talc::mutation::state_of(heap.mutation) {
        crate::talc::mutation::MutationState::Owned(owner) => owner != dead || heap.mutation
            != crate::talc::mutation::owner_word_spec(dead),
        _ => false,
    }
}

/// The heap's word once the dead participant cannot change it: a change that it
/// left unfinished poisons the heap.
pub open spec fn heap_word(heap: TalckMeta, dead: u8) -> u64 {
    if heap.mutation == crate::talc::mutation::owner_word_spec(dead) {
        crate::talc::mutation::MUTATION_POISONED
    } else {
        heap.mutation
    }
}

/// Root, directory and heap have the same headers.
pub open spec fn same_headers(before: Shared, after: Shared) -> bool {
    &&& super::same_header(before.root, after.root)
    &&& super::same_header(before.directory, after.directory)
    &&& super::same_header(before.heap, after.heap)
    &&& after.root.members == before.root.members
}

/// Recovery got this far and no further: the participant stays dead, and its
/// membership of the directory stays.
pub open spec fn held_up(before: Shared, after: Shared) -> bool {
    &&& same_headers(before, after)
    &&& after.words() == before.words()
    &&& after.directory.members == before.directory.members
}

/// What reaping a dead participant answers and leaves.
pub open spec fn reaps<S: Layouts>(
    before: Shared,
    after: Shared,
    layouts: S,
    left: S,
    region: Region,
    member: Member,
    given: Seq<RecoveryHandler>,
    done: bool,
) -> bool {
    let dead = member.slot;
    if member == region.member || others_change(before, dead) {
        !done && after == before && left == layouts
    } else if before.dir().word != crate::dir::CLEAN && resumed(
        before,
        layouts,
        region,
        dead,
    ).result is Err {
        &&& !done
        &&& left == layouts
        &&& held_up(before, after)
        &&& after.dir() == dir_settled(before, layouts, region, dead)
        &&& heap_settled(before, layouts, region, dead, after.talc())
        &&& after.heap.members == before.heap.members
    } else {
        &&& after.dir() == dir_settled(before, layouts, region, dead)
        &&& exists|heap: TalckMeta|
            {
                &&& #[trigger] heap_settled(before, layouts, region, dead, heap)
                &&& after.talc().talc == heap.talc
                &&& after.talc().mutation == heap_word(heap, dead)
                &&& if heap_busy(heap, dead) {
                    &&& !done
                    &&& left == layouts
                    &&& held_up(before, after)
                    &&& after.heap.members == before.heap.members
                } else {
                    &&& after.heap.members == before.heap.members
                        & !crate::header::layout::member_bit(dead)
                    &&& !crate::header::layout::is_member(after.heap.members, dead)
                    &&& recovers_all(before, after, layouts, left, region, member, given, done)
                }
            }
    }
}

/// The two scans over all layouts, and the release of the participant after
/// them.
pub open spec fn recovers_all<S: Layouts>(
    before: Shared,
    after: Shared,
    layouts: S,
    left: S,
    region: Region,
    member: Member,
    given: Seq<RecoveryHandler>,
    done: bool,
) -> bool {
    let view = after.dir();
    let live = region.member.slot;
    if done {
        &&& same_headers(before, after)
        &&& twice_scanned(view, layouts, left, given, region, member.slot, live)
        &&& released(before, after, member)
    } else {
        &&& same_headers(before, after)
        &&& (held_up(before, after) && stopped(
            view,
            layouts,
            left,
            given,
            region,
            member.slot,
            live,
        )) || (!(before.root.inner->0).is(member, crate::header::root::MEMBER_DEAD)
            && after.words() == before.words() && after.directory.members
            == before.directory.members & !crate::header::layout::member_bit(member.slot)
            && twice_scanned(view, layouts, left, given, region, member.slot, live))
    }
}

/// Two scans in turn recovered every layout.
pub open spec fn twice_scanned<S: Layouts>(
    view: crate::dir::DirView,
    layouts: S,
    left: S,
    given: Seq<RecoveryHandler>,
    region: Region,
    dead: u8,
    live: u8,
) -> bool {
    exists|middle: S|
        {
            &&& #[trigger] super::scan::scans(
                view,
                layouts,
                middle,
                given,
                region,
                dead,
                live,
                true,
            )
            &&& super::scan::scans(view, middle, left, given, region, dead, live, true)
        }
}

/// The first or the second scan did not recover every layout.
pub open spec fn stopped<S: Layouts>(
    view: crate::dir::DirView,
    layouts: S,
    left: S,
    given: Seq<RecoveryHandler>,
    region: Region,
    dead: u8,
    live: u8,
) -> bool {
    super::scan::scans(view, layouts, left, given, region, dead, live, false) || exists|middle: S|
        {
            &&& #[trigger] super::scan::scans(
                view,
                layouts,
                middle,
                given,
                region,
                dead,
                live,
                true,
            )
            &&& super::scan::scans(view, middle, left, given, region, dead, live, false)
        }
}

/// The participant's word is free, or retired where it has no generation left.
pub open spec fn released(before: Shared, after: Shared, member: Member) -> bool {
    &&& (before.root.inner->0).is(member, crate::header::root::MEMBER_DEAD)
    &&& after.words() == before.words().update(
        member.slot as int,
        crate::header::root::word_of(
            member.generation,
            if member.generation == crate::header::root::MEMBER_GENERATION_MAX {
                crate::header::root::MEMBER_RETIRED
            } else {
                crate::header::root::MEMBER_FREE
            },
        ),
    )
    &&& after.directory.members == before.directory.members & !crate::header::layout::member_bit(
        member.slot,
    )
    &&& !crate::header::layout::is_member(after.directory.members, member.slot)
}

impl Session {
    /// Records that a participant can never reach the region again, and gives
    /// the authority to recover after it. A participant that is neither live nor
    /// dead under this generation is unknown.
    pub fn assume_dead(&self, shared: &mut Shared, peer: Peer) -> (recovery: Option<Recovery>)
        requires
            old(shared).wf(),
        ensures
            final(shared).wf(),
            same_headers(*old(shared), *final(shared)),
            final(shared).directory == old(shared).directory,
            final(shared).heap == old(shared).heap,
            ({
                let member = peer.member_spec();
                let root = old(shared).root.inner->0;
                let known = crate::header::root::in_range(member);
                let live = known && root.is(member, crate::header::root::MEMBER_LIVE);
                let dead = known && root.is(member, crate::header::root::MEMBER_DEAD);
                &&& recovery is Some <==> live || dead
                &&& recovery matches Some(recovery) ==> recovery.member_spec() == member
                    && recovery.wf()
                &&& final(shared).words() == (if live {
                    old(shared).words().update(
                        member.slot as int,
                        crate::header::root::word_of(
                            member.generation,
                            crate::header::root::MEMBER_DEAD,
                        ),
                    )
                } else {
                    old(shared).words()
                })
            }),
    {
        let mut root: Option<crate::header::root::Root> = None;
        core::mem::swap(&mut root, &mut shared.root.inner);
        match root {
            None => None,
            Some(mut inner) => {
                let dead = Region::mark_dead(&mut inner, peer);
                shared.root.inner = Some(inner);
                match dead {
                    Some(member) => Some(Recovery { member }),
                    None => None,
                }
            },
        }
    }
}

impl Recovery {
    pub closed spec fn member_spec(self) -> Member {
        self.member
    }

    pub open spec fn wf(self) -> bool {
        &&& crate::header::root::in_range(self.member_spec())
        &&& self.member_spec().slot < PARTICIPANT_CAPACITY
    }

    /// The participant that died.
    pub fn peer(&self) -> (peer: Peer)
        ensures
            peer.member_spec() == self.member_spec(),
    {
        Peer::from_parts(self.member.slot, self.member.generation)
    }

    /// Recovers after the participant, where the region holds only pools.
    pub fn reap<S: Layouts>(self, session: &Session, shared: &mut Shared, layouts: &mut S) -> (
    reaped: Result<(), Self>)
        requires
            self.wf(),
            session.wf(),
            old(shared).wf(),
            old(layouts).wf(),
            crate::dir::recover::sound(
                old(shared).dir(),
                old(shared).talc(),
                crate::dir::SLAB_BYTES as int,
            ),
        ensures
            final(shared).wf(),
            final(layouts).wf(),
            reaped is Ok || reaped == Err::<(), Self>(self),
            reaps(
                *old(shared),
                *final(shared),
                *old(layouts),
                *final(layouts),
                session.region_spec(),
                self.member_spec(),
                Seq::<RecoveryHandler>::empty(),
                reaped is Ok,
            ),
    {
        let none: Vec<RecoveryHandler> = Vec::new();
        assert(none@ =~= Seq::<RecoveryHandler>::empty());
        self.reap_with(session, shared, layouts, none.as_slice())
    }

    /// Recovers after the participant: ends the change of the directory that it
    /// was in the middle of, recovers every layout with the one handler that is
    /// for it, and frees the participant's word only when a second scan found
    /// every layout recovered. Where that is not possible the authority is given
    /// back.
    #[verifier::spinoff_prover]
    pub fn reap_with<S: Layouts>(
        self,
        session: &Session,
        shared: &mut Shared,
        layouts: &mut S,
        handlers: &[RecoveryHandler],
    ) -> (reaped: Result<(), Self>)
        requires
            self.wf(),
            session.wf(),
            old(shared).wf(),
            old(layouts).wf(),
            crate::dir::recover::sound(
                old(shared).dir(),
                old(shared).talc(),
                crate::dir::SLAB_BYTES as int,
            ),
        ensures
            final(shared).wf(),
            final(layouts).wf(),
            reaped is Ok || reaped == Err::<(), Self>(self),
            reaps(
                *old(shared),
                *final(shared),
                *old(layouts),
                *final(layouts),
                session.region_spec(),
                self.member_spec(),
                handlers@,
                reaped is Ok,
            ),
    {
        let region = session.region;
        if self.member == region.member {
            return Err(self);
        }
        let dead: u8 = self.member.slot;
        if !settle(&region, shared, layouts, dead) {
            return Err(self);
        }
        if finish(&region, shared, layouts, handlers, self.member) {
            Ok(())
        } else {
            Err(self)
        }
    }
}

/// The part of reaping that follows the end of the dead participant's change.
pub open spec fn finishes<S: Layouts>(
    before: Shared,
    after: Shared,
    layouts: S,
    left: S,
    region: Region,
    member: Member,
    given: Seq<RecoveryHandler>,
    done: bool,
) -> bool {
    let dead = member.slot;
    let heap = before.talc();
    &&& after.dir() == before.dir()
    &&& after.talc().talc == heap.talc
    &&& after.talc().mutation == heap_word(heap, dead)
    &&& if heap_busy(heap, dead) {
        &&& !done
        &&& left == layouts
        &&& held_up(before, after)
        &&& after.heap.members == before.heap.members
    } else {
        &&& after.heap.members == before.heap.members & !crate::header::layout::member_bit(dead)
        &&& !crate::header::layout::is_member(after.heap.members, dead)
        &&& recovers_all(before, after, layouts, left, region, member, given, done)
    }
}

#[verifier::spinoff_prover]
fn finish<S: Layouts>(
    region: &Region,
    shared: &mut Shared,
    layouts: &mut S,
    handlers: &[RecoveryHandler],
    member: Member,
) -> (done: bool)
    requires
        crate::header::root::in_range(member),
        member.slot < PARTICIPANT_CAPACITY,
        region.wf(),
        old(shared).wf(),
        old(layouts).wf(),
    ensures
        final(shared).wf(),
        final(layouts).wf(),
        finishes(
            *old(shared),
            *final(shared),
            *old(layouts),
            *final(layouts),
            *region,
            member,
            handlers@,
            done,
        ),
{
    let dead: u8 = member.slot;
    let live: u8 = region.member.slot;
    if !finish_recovery(&mut shared.heap, dead) {
        return false;
    }
    let ghost view = shared.dir();
    let ghost start = *layouts;
    let first = match &shared.directory.inner {
        None => false,
        Some(directory) => scan_recovery(directory, layouts, region, handlers, dead, live),
    };
    if !first {
        assert(stopped(view, start, *layouts, handlers@, *region, dead, live));
        return false;
    }
    let ghost middle = *layouts;
    assert(super::scan::scans(view, start, middle, handlers@, *region, dead, live, true));
    let second = match &shared.directory.inner {
        None => false,
        Some(directory) => scan_recovery(directory, layouts, region, handlers, dead, live),
    };
    if !second {
        assert(super::scan::scans(view, middle, *layouts, handlers@, *region, dead, live, false));
        assert(stopped(view, start, *layouts, handlers@, *region, dead, live));
        return false;
    }
    assert(twice_scanned(view, start, *layouts, handlers@, *region, dead, live));
    shared.directory.recover_member(dead);
    !shared.directory.has_member(dead) && release(shared, member)
}

/// Frees the word of a dead participant.
fn release(shared: &mut Shared, member: Member) -> (freed: bool)
    requires
        old(shared).wf(),
        crate::header::root::in_range(member),
    ensures
        final(shared).wf(),
        final(shared).directory == old(shared).directory,
        final(shared).heap == old(shared).heap,
        super::same_header(old(shared).root, final(shared).root),
        final(shared).root.members == old(shared).root.members,
        freed == (old(shared).root.inner->0).is(member, crate::header::root::MEMBER_DEAD),
        final(shared).words() == (if freed {
            old(shared).words().update(
                member.slot as int,
                crate::header::root::word_of(
                    member.generation,
                    if member.generation == crate::header::root::MEMBER_GENERATION_MAX {
                        crate::header::root::MEMBER_RETIRED
                    } else {
                        crate::header::root::MEMBER_FREE
                    },
                ),
            )
        } else {
            old(shared).words()
        }),
{
    let mut root: Option<crate::header::root::Root> = None;
    core::mem::swap(&mut root, &mut shared.root.inner);
    match root {
        None => false,
        Some(mut inner) => {
            let freed = inner.release_dead(member);
            shared.root.inner = Some(inner);
            freed
        },
    }
}

/// Ends the change of the directory that the dead participant was in the middle
/// of, if there is one.
#[verifier::spinoff_prover]
fn settle<S: Layouts>(region: &Region, shared: &mut Shared, layouts: &S, dead: u8) -> (ended: bool)
    requires
        old(shared).wf(),
        layouts.wf(),
        region.map.start + region.map.len <= u64::MAX,
        crate::dir::recover::sound(
            old(shared).dir(),
            old(shared).talc(),
            crate::dir::SLAB_BYTES as int,
        ),
    ensures
        final(shared).wf(),
        if others_change(*old(shared), dead) {
            !ended && *final(shared) == *old(shared)
        } else {
            &&& ended == (old(shared).dir().word == crate::dir::CLEAN || resumed(
                *old(shared),
                *layouts,
                *region,
                dead,
            ).result is Ok)
            &&& final(shared).root == old(shared).root
            &&& same_headers(*old(shared), *final(shared))
            &&& final(shared).directory.members == old(shared).directory.members
            &&& final(shared).heap.members == old(shared).heap.members
            &&& final(shared).dir() == dir_settled(*old(shared), *layouts, *region, dead)
            &&& heap_settled(*old(shared), *layouts, *region, dead, final(shared).talc())
        },
{
    let mut directory: Option<crate::dir::Directory> = None;
    core::mem::swap(&mut directory, &mut shared.directory.inner);
    let mut heap: Option<TalckMeta> = None;
    core::mem::swap(&mut heap, &mut shared.heap.inner);
    match (directory, heap) {
        (Some(mut directory), Some(mut heap)) => {
            let ended = match directory.transaction_owner() {
                None => true,
                Some(owner) => {
                    if owner != dead {
                        false
                    } else {
                        let closed = is_closed(&directory, &heap, region, layouts);
                        proof {
                            reveal(resumed);
                        }
                        directory.recover(region, &mut heap, region.region, dead, closed).is_ok()
                    }
                },
            };
            shared.directory.inner = Some(directory);
            shared.heap.inner = Some(heap);
            ended
        },
        _ => false,
    }
}

/// Whether the layout that the directory has pending is closed for good.
fn is_closed<S: Layouts>(
    directory: &crate::dir::Directory,
    heap: &TalckMeta,
    region: &Region,
    layouts: &S,
) -> (closed: bool)
    requires
        layouts.wf(),
    ensures
        ({
            let address = heap.talc.base_spec() + directory@.pending.start();
            closed == (address <= u64::MAX && address - region.map.start >= 0
                && layouts.closed_spec((address - region.map.start) as u64))
        }),
{
    match heap.base_ptr().checked_add(directory.pending.start_offset()) {
        Some(address) => match address.checked_sub(region.map.start) {
            Some(at) => layouts.closed(at),
            None => false,
        },
        None => false,
    }
}

} // verus!
