//! Mapped regions: where a participant may place and reach layouts, and as
//! whom.

use crate::extent::Extent;
use crate::header::layout::{Layout, RcHeader};
use crate::header::root::{Member, Root, MEMBER_GENERATION_MAX};
use crate::header::{AdmitError, LayoutField, PARTICIPANT_CAPACITY};
use crate::numeric::align_up;
use crate::schema::{LayoutContext, RegionAdmission, RegionId};
use vstd::prelude::*;

pub mod compose;
pub mod laws;

verus! {

/// What a mapping may be used for.
#[derive(Clone, Copy, Debug, PartialEq, Eq, Structural)]
pub struct Access {
    pub read: bool,
    pub write: bool,
    pub execute: bool,
}

/// Access for writing alone.
pub open spec fn write_spec() -> Access {
    Access { read: false, write: true, execute: false }
}

impl Access {
    /// Access for reading alone.
    pub fn reading() -> (access: Access)
        ensures
            access == (Access { read: true, write: false, execute: false }),
    {
        Access { read: true, write: false, execute: false }
    }

    /// Access for writing alone.
    pub fn writing() -> (access: Access)
        ensures
            access == write_spec(),
    {
        Access { read: false, write: true, execute: false }
    }

    /// Access for execution alone.
    pub fn executing() -> (access: Access)
        ensures
            access == (Access { read: false, write: false, execute: true }),
    {
        Access { read: false, write: false, execute: true }
    }

    pub open spec fn contains_spec(self, other: Access) -> bool {
        (other.read ==> self.read) && (other.write ==> self.write) && (other.execute ==> self.execute)
    }

    /// Whether everything that `other` allows is allowed.
    pub fn contains(self, other: Access) -> (contains: bool)
        ensures
            contains == self.contains_spec(other),
    {
        (self.read || !other.read) && (self.write || !other.write) && (self.execute || !other.execute)
    }

    /// Everything that either allows.
    pub fn union(self, other: Access) -> (both: Access)
        ensures
            both == (Access {
                read: self.read || other.read,
                write: self.write || other.write,
                execute: self.execute || other.execute,
            }),
    {
        Access {
            read: self.read || other.read,
            write: self.write || other.write,
            execute: self.execute || other.execute,
        }
    }
}

/// What is asked of a mapping.
#[derive(Clone, Copy, Debug, PartialEq, Eq, Structural)]
pub struct Request {
    pub len: u64,
    pub access: Access,
}

impl Request {
    pub fn new(len: u64, access: Access) -> (request: Self)
        ensures
            request == (Request { len, access }),
    {
        Request { len, access }
    }
}

#[allow(inconsistent_fields)]
#[derive(Clone, Copy, Debug, PartialEq, Eq, Structural)]
pub enum Error {
    PermissionDenied { requested: Access },
    UnenoughSpace { requested: u64, allocated: u64 },
    OutofSize { requested: u64, bound: u64 },
    Contention,
    LayoutClosed,
    DuplicateAttachment,
    InvalidHeader,
    LayoutMismatch(LayoutField),
    PoisonedComposition,
    ArithmeticOverflow,
    ParticipantExhausted,
}

/// How a refused admission is reported of a mapping.
pub open spec fn admission_error(error: AdmitError) -> Error {
    match error {
        AdmitError::Contention => Error::Contention,
        AdmitError::Closed => Error::LayoutClosed,
        AdmitError::DuplicateMember => Error::DuplicateAttachment,
        AdmitError::InvalidHeader => Error::InvalidHeader,
        AdmitError::Mismatch(field) => Error::LayoutMismatch(field),
    }
}

impl Error {
    pub fn of_admission(error: AdmitError) -> (reported: Self)
        ensures
            reported == admission_error(error),
    {
        match error {
            AdmitError::Contention => Error::Contention,
            AdmitError::Closed => Error::LayoutClosed,
            AdmitError::DuplicateMember => Error::DuplicateAttachment,
            AdmitError::InvalidHeader => Error::InvalidHeader,
            AdmitError::Mismatch(field) => Error::LayoutMismatch(field),
        }
    }
}

/// A run of memory behind a base.
#[derive(Clone, Copy, Debug, PartialEq, Eq, Structural)]
pub struct AddrSpan<T> {
    pub start_offset: T,
    pub size: T,
}

impl<T> AddrSpan<T> {
    pub fn new(start_offset: T, size: T) -> (span: Self)
        ensures
            span == (AddrSpan { start_offset, size }),
    {
        AddrSpan { start_offset, size }
    }
}

impl AddrSpan<u64> {
    pub open spec fn null_spec() -> Self {
        AddrSpan { start_offset: 0, size: 0 }
    }

    /// The span of nothing.
    pub fn null() -> (span: Self)
        ensures
            span == Self::null_spec(),
    {
        AddrSpan { start_offset: 0, size: 0 }
    }

    pub open spec fn is_null_spec(self) -> bool {
        self.start_offset == 0 || self.size == 0
    }

    pub fn is_null(&self) -> (null: bool)
        ensures
            null == self.is_null_spec(),
    {
        self.start_offset == 0 || self.size == 0
    }
}

/// A mapping into this process: where it starts, how long it is, and what it
/// may be used for.
#[derive(Clone, Copy, Debug, PartialEq, Eq, Structural)]
pub struct Mapping {
    pub start: u64,
    pub len: u64,
    pub access: Access,
}

/// A refusal, and the mapping that it was about, where there is one: nobody uses
/// its memory, and the one who gets it back has to release it.
#[derive(Debug, PartialEq, Eq)]
pub struct Refused<E> {
    pub error: E,
    pub mapping: Option<Mapping>,
}

/// The answer, without the mapping that comes with a refusal.
pub open spec fn answer<T, E>(result: Result<T, Refused<E>>) -> Result<T, E> {
    match result {
        Ok(value) => Ok(value),
        Err(refused) => Err(refused.error),
    }
}

/// A refusal gives this mapping back.
pub open spec fn gives_back<T, E>(result: Result<T, Refused<E>>, map: Mapping) -> bool {
    result matches Err(refused) ==> refused.mapping == Some(map)
}

/// Where an extent is placed in a mapping at or behind `offset`, and where the
/// next can begin.
pub open spec fn placed(start: u64, len: u64, offset: u64, extent: Extent) -> Result<
    (u64, u64),
    Error,
> {
    let aligned = crate::numeric::align_up_spec(start + offset, extent.align as int);
    let next = aligned + extent.size - start;
    if start + offset + extent.align - 1 > u64::MAX || aligned + extent.size > u64::MAX {
        Err(Error::ArithmeticOverflow)
    } else if next > len {
        Err(Error::UnenoughSpace { requested: next as u64, allocated: len })
    } else {
        Ok(((aligned - start) as u64, next as u64))
    }
}

fn place_in(start: u64, len: u64, offset: u64, extent: Extent) -> (at: Result<(u64, u64), Error>)
    requires
        extent.wf(),
    ensures
        at == placed(start, len, offset, extent),
        at matches Ok((at, next)) ==> offset <= at && at + extent.size == next && next <= len,
{
    proof {
        crate::extent::lemma_power_positive(extent.align as int);
        crate::numeric::lemma_align_up(start + offset, extent.align as int);
    }
    let candidate: u64 = match start.checked_add(offset) {
        Some(candidate) => candidate,
        None => return Err(Error::ArithmeticOverflow),
    };
    if candidate.checked_add(extent.align - 1).is_none() {
        return Err(Error::ArithmeticOverflow);
    }
    let aligned: u64 = align_up(candidate, extent.align);
    let end: u64 = match aligned.checked_add(extent.size) {
        Some(end) => end,
        None => return Err(Error::ArithmeticOverflow),
    };
    let next: u64 = end - start;
    if next > len {
        return Err(Error::UnenoughSpace { requested: next, allocated: len });
    }
    Ok((aligned - start, next))
}

impl Mapping {
    pub fn permits(&self, access: Access) -> (permitted: Result<(), Error>)
        ensures
            permitted == (if self.access.contains_spec(access) {
                Ok::<(), Error>(())
            } else {
                Err::<(), Error>(Error::PermissionDenied { requested: access })
            }),
    {
        if !self.access.contains(access) {
            return Err(Error::PermissionDenied { requested: access });
        }
        Ok(())
    }

    /// Finds the place of an extent at or behind `offset`.
    pub fn reserve(&self, offset: u64, extent: Extent) -> (reserved: Result<(u64, u64), Error>)
        requires
            extent.wf(),
        ensures
            reserved == (if !self.access.contains_spec(write_spec()) {
                Err::<(u64, u64), Error>(Error::PermissionDenied { requested: write_spec() })
            } else {
                placed(self.start, self.len, offset, extent)
            }),
    {
        match self.permits(Access::writing()) {
            Ok(()) => place_in(self.start, self.len, offset, extent),
            Err(error) => Err(error),
        }
    }
}

#[derive(Clone, Copy, Debug, PartialEq, Eq, Structural)]
pub enum CloseError {
    InUse,
    UnmapFailed,
}

#[derive(Clone, Copy, Debug, PartialEq, Eq, Structural)]
pub enum ProjectionError {
    ReadOnly,
    ArithmeticOverflow,
    OutOfBounds,
    Misaligned,
    Admission(AdmitError),
}

/// One participant of a region.
#[derive(Clone, Copy, Debug, PartialEq, Eq, Structural)]
pub struct Peer {
    pub(crate) member: Member,
}

impl Peer {
    pub closed spec fn member_spec(self) -> Member {
        self.member
    }

    pub fn from_parts(slot: u8, generation: u64) -> (peer: Self)
        ensures
            peer.member_spec() == (Member { slot, generation }),
    {
        Peer { member: Member { slot, generation } }
    }

    pub fn slot(self) -> (slot: u8)
        ensures
            slot == self.member_spec().slot,
    {
        self.member.slot
    }

    pub fn generation(self) -> (generation: u64)
        ensures
            generation == self.member_spec().generation,
    {
        self.member.generation
    }
}

/// A participant's standing in a mapped region.
#[derive(Clone, Copy, Debug, PartialEq, Eq, Structural)]
pub struct Region {
    pub map: Mapping,
    pub member: Member,
    pub region: RegionId,
    pub allow_init: bool,
    pub detached: bool,
}

/// The extent of a root with its header.
pub open spec fn root_extent() -> Extent {
    Extent { size: 640, align: 8 }
}

/// The identity of the region that is entered, where there is one.
pub open spec fn entered(admission: RegionAdmission, address: u64, root: RcHeader<Root>) -> Option<
    RegionId,
> {
    match admission {
        RegionAdmission::Create(id) => Some(id),
        RegionAdmission::Expect(id) => Some(id),
        RegionAdmission::Discover => if root.record@.unreadable(address) is None {
            Some(root.region)
        } else {
            None
        },
    }
}

impl Region {
    /// The participant is one that the region can hold.
    pub open spec fn wf(self) -> bool {
        &&& self.member.slot < PARTICIPANT_CAPACITY
        &&& self.member.generation <= MEMBER_GENERATION_MAX
    }

    pub fn peer(&self) -> (peer: Peer)
        ensures
            peer.member_spec() == self.member,
    {
        Peer { member: self.member }
    }

    /// Where an address lies in the region, if `size` bytes from it do.
    pub open spec fn offset_spec(self, address: int, size: int) -> Result<u64, ProjectionError> {
        let offset = address - self.map.start;
        if offset < 0 {
            Err(ProjectionError::OutOfBounds)
        } else if offset + size > u64::MAX {
            Err(ProjectionError::ArithmeticOverflow)
        } else if offset + size > self.map.len {
            Err(ProjectionError::OutOfBounds)
        } else {
            Ok(offset as u64)
        }
    }

    pub fn offset_of(&self, address: u64, size: u64) -> (offset: Result<u64, ProjectionError>)
        ensures
            offset == self.offset_spec(address as int, size as int),
    {
        let offset: u64 = match address.checked_sub(self.map.start) {
            Some(offset) => offset,
            None => return Err(ProjectionError::OutOfBounds),
        };
        let end: u64 = match offset.checked_add(size) {
            Some(end) => end,
            None => return Err(ProjectionError::ArithmeticOverflow),
        };
        if end <= self.map.len {
            Ok(offset)
        } else {
            Err(ProjectionError::OutOfBounds)
        }
    }

    /// Where `start` bytes behind a base lie in the region.
    pub fn offset_behind(&self, base: u64, start: u64, size: u64) -> (offset: Result<
        u64,
        ProjectionError,
    >)
        requires
            self.map.start + self.map.len <= u64::MAX,
        ensures
            offset == self.offset_spec(base + start, size as int),
    {
        let address: u128 = base as u128 + start as u128;
        let first: u128 = self.map.start as u128;
        if address < first {
            return Err(ProjectionError::OutOfBounds);
        }
        let offset: u128 = address - first;
        let end: u128 = offset + size as u128;
        if end > u64::MAX as u128 {
            return Err(ProjectionError::ArithmeticOverflow);
        }
        if end > self.map.len as u128 {
            return Err(ProjectionError::OutOfBounds);
        }
        Ok(offset as u64)
    }

    /// Why an extent cannot be reached at an offset.
    pub open spec fn unreachable_at(self, offset: u64, extent: Extent) -> Option<ProjectionError> {
        if offset + extent.size > u64::MAX {
            Some(ProjectionError::ArithmeticOverflow)
        } else if offset + extent.size > self.map.len {
            Some(ProjectionError::OutOfBounds)
        } else if (self.map.start + offset) % extent.align as int != 0 {
            Some(ProjectionError::Misaligned)
        } else {
            None
        }
    }

    /// Checks that an extent can be reached at an offset.
    pub fn reach(&self, offset: u64, extent: Extent) -> (reached: Result<(), ProjectionError>)
        requires
            extent.wf(),
            self.map.start + self.map.len <= u64::MAX,
        ensures
            reached == (match self.unreachable_at(offset, extent) {
                Some(error) => Err::<(), ProjectionError>(error),
                None => Ok::<(), ProjectionError>(()),
            }),
    {
        proof {
            crate::extent::lemma_power_positive(extent.align as int);
        }
        let end: u64 = match offset.checked_add(extent.size) {
            Some(end) => end,
            None => return Err(ProjectionError::ArithmeticOverflow),
        };
        if end > self.map.len {
            return Err(ProjectionError::OutOfBounds);
        }
        if (self.map.start + offset) % extent.align != 0 {
            return Err(ProjectionError::Misaligned);
        }
        Ok(())
    }
}

/// The header's size and alignment in the region, or those of nothing where it
/// has none.
pub open spec fn header_extent_spec<T: Layout>() -> Extent {
    Extent {
        size: crate::header::layout::header_size_spec(T::info_extent_spec(), T::body_spec()) as u64,
        align: crate::header::layout::header_align_spec(T::info_extent_spec(), T::body_spec()),
    }
}

/// A root that was admitted, before its new participant joined.
pub open spec fn root_admitted(
    before: RcHeader<Root>,
    after: RcHeader<Root>,
    ctx: LayoutContext,
) -> bool {
    if before.status_spec() == crate::header::record::Status::Uninitialized {
        exists|made: Result<Root, crate::header::record::Status>|
            #[trigger] Root::init_spec((), made) && made is Ok && after.initialized(
                before,
                (),
                ctx,
                None,
                root_extent(),
                made,
            )
    } else {
        after.same_but_members(before) && after.members == before.members
    }
}

/// Why a root does not admit a mapping.
pub open spec fn root_refused(before: RcHeader<Root>, address: u64, ctx: LayoutContext) -> Option<
    AdmitError,
> {
    match before.status_spec() {
        crate::header::record::Status::Uninitialized => if ctx.allow_init {
            None
        } else {
            Some(AdmitError::Mismatch(LayoutField::State))
        },
        crate::header::record::Status::Initializing => Some(AdmitError::Contention),
        crate::header::record::Status::Corrupted => Some(AdmitError::InvalidHeader),
        crate::header::record::Status::Initialized => match before.differs(
            address,
            (),
            ctx,
            root_extent(),
        ) {
            Some(field) => Some(AdmitError::Mismatch(field)),
            None => None,
        },
    }
}

/// Nobody can join a root any more.
pub open spec fn root_full(root: RcHeader<Root>) -> bool {
    &&& root.status_spec() == crate::header::record::Status::Initialized
    &&& forall|i: int|
        0 <= i < (root.inner->0).members@.len() ==> !crate::header::root::joinable(
            #[trigger] (root.inner->0).members@[i],
        )
}

/// What entering a region is refused for.
pub open spec fn entry_refused(map: Mapping, admission: RegionAdmission, root: RcHeader<Root>) -> Option<
    Error,
> {
    if !map.access.contains_spec(write_spec()) {
        Some(Error::PermissionDenied { requested: write_spec() })
    } else {
        match placed(map.start, map.len, 0, root_extent()) {
            Err(error) => Some(error),
            Ok((offset, _)) => {
                let address = (map.start + offset) as u64;
                match entered(admission, address, root) {
                    None => Some(Error::InvalidHeader),
                    Some(region) => {
                        let ctx = LayoutContext {
                            region,
                            offset: 0,
                            allow_init: admission is Create,
                        };
                        match root_refused(root, address, ctx) {
                            Some(error) => Some(admission_error(error)),
                            None => if root_full(root) {
                                Some(Error::ParticipantExhausted)
                            } else {
                                None
                            },
                        }
                    },
                }
            },
        }
    }
}

/// A root that a participant did not join is what it was; but for the words that
/// nobody can join any more, which are marked so where none was left.
pub open spec fn stays_out(before: RcHeader<Root>, after: RcHeader<Root>, error: Error) -> bool {
    &&& after.same_fields(before)
    &&& after.record@ == before.record@
    &&& after.members == before.members
    &&& if error == Error::ParticipantExhausted {
        let words = (before.inner->0).members@;
        &&& after.inner is Some
        &&& (after.inner->0).members@ == crate::header::root::joined(words, words.len() as int)
    } else {
        after.inner == before.inner
    }
}

impl Region {
    /// Enters a region as a new participant: its root is made, or compared, and
    /// joined. Says where the next layout can begin.
    #[verifier::spinoff_prover]
    pub(crate) fn enter(map: Mapping, admission: RegionAdmission, root: &mut RcHeader<Root>) -> (entry: Result<
        (Self, u64),
        Error,
    >)
        requires
            old(root).wf(),
            old(root).inner matches Some(inner) ==> inner.wf(),
        ensures
            final(root).wf(),
            final(root).inner matches Some(inner) ==> inner.wf(),
            match entry_refused(map, admission, *old(root)) {
                Some(error) => entry == Err::<(Self, u64), Error>(error) && stays_out(
                    *old(root),
                    *final(root),
                    error,
                ),
                None => {
                    let (offset, next) = placed(map.start, map.len, 0, root_extent())->Ok_0;
                    let id = entered(admission, (map.start + offset) as u64, *old(root))->0;
                    &&& entry matches Ok((region, after))
                    &&& after == next
                    &&& region.wf()
                    &&& region.map == map
                    &&& region.region == id
                    &&& region.allow_init == (admission is Create)
                    &&& !region.detached
                    &&& joins(*old(root), *final(root), id, admission is Create, region.member)
                },
            },
    {
        proof {
            crate::header::layout::lemma_small_alignments();
            crate::header::layout::law_root_extent();
        }
        let extent = Extent { size: 640, align: 8 };
        let (offset, next): (u64, u64) = match map.reserve(0, extent) {
            Ok(at) => at,
            Err(error) => return Err(error),
        };
        assert(placed(map.start, map.len, 0, root_extent()) == Ok::<(u64, u64), Error>(
            (offset, next),
        ));
        proof {
            crate::numeric::lemma_align_up(map.start as int, 8);
        }
        let address: u64 = map.start + offset;
        let region = match admission {
            RegionAdmission::Create(id) => id,
            RegionAdmission::Expect(id) => id,
            RegionAdmission::Discover => match root.published_region(address) {
                Some(region) => region,
                None => return Err(Error::InvalidHeader),
            },
        };
        let allow_init = match admission {
            RegionAdmission::Create(_) => true,
            _ => false,
        };
        let ctx = LayoutContext { region, offset: 0, allow_init };
        match root.admit_at(address, (), ctx, None) {
            Ok(()) => {},
            Err(error) => return Err(Error::of_admission(error)),
        }
        let ghost admitted = *root;
        assert(root_admitted(*old(root), admitted, ctx));
        let mut body = match root.inner.take() {
            Some(body) => body,
            None => return Err(Error::InvalidHeader),
        };
        let joined = body.join();
        root.inner = Some(body);
        match joined {
            None => {
                proof {
                    if old(root).status_spec() == crate::header::record::Status::Uninitialized {
                        lemma_fresh_root_has_room(*old(root), admitted, ctx);
                    }
                }
                Err(Error::ParticipantExhausted)
            },
            Some(member) => Ok(
                (Region { map, member, region, allow_init, detached: false }, next),
            ),
        }
    }

    /// Leaves the region; leaving twice is leaving once.
    pub fn detach(&mut self, root: &mut Root)
        requires
            old(self).wf(),
            old(root).wf(),
        ensures
            final(root).wf(),
            *final(self) == (Region { detached: true, ..*old(self) }),
            final(root).members@ == (if !old(self).detached && old(root).is(
                old(self).member,
                crate::header::root::MEMBER_LIVE,
            ) {
                old(root).members@.update(
                    old(self).member.slot as int,
                    crate::header::root::word_of(
                        old(self).member.generation,
                        crate::header::root::MEMBER_FREE,
                    ),
                )
            } else {
                old(root).members@
            }),
    {
        if self.detached {
            return;
        }
        root.leave(self.member);
        self.detached = true;
    }

    /// Leaves the region and gives the mapping up, unless something else still
    /// uses it; `unmapped` tells how that went.
    pub fn close(self, root: &mut Root, shared: bool, unmapped: bool) -> (closed: Result<
        (),
        CloseError,
    >)
        requires
            self.wf(),
            old(root).wf(),
        ensures
            final(root).wf(),
            closed == (if shared {
                Err::<(), CloseError>(CloseError::InUse)
            } else if unmapped {
                Ok::<(), CloseError>(())
            } else {
                Err::<(), CloseError>(CloseError::UnmapFailed)
            }),
            final(root).members@ == (if !shared && !self.detached && old(root).is(
                self.member,
                crate::header::root::MEMBER_LIVE,
            ) {
                old(root).members@.update(
                    self.member.slot as int,
                    crate::header::root::word_of(
                        self.member.generation,
                        crate::header::root::MEMBER_FREE,
                    ),
                )
            } else {
                old(root).members@
            }),
    {
        if shared {
            return Err(CloseError::InUse);
        }
        let mut region = self;
        region.detach(root);
        if unmapped {
            Ok(())
        } else {
            Err(CloseError::UnmapFailed)
        }
    }

    /// Records that one life of a participant ended; tells it again where that
    /// was recorded already.
    pub fn mark_dead(root: &mut Root, peer: Peer) -> (dead: Option<Member>)
        requires
            old(root).wf(),
        ensures
            final(root).wf(),
            ({
                let member = peer.member_spec();
                let live = crate::header::root::in_range(member) && old(root).is(
                    member,
                    crate::header::root::MEMBER_LIVE,
                );
                let was = crate::header::root::in_range(member) && old(root).is(
                    member,
                    crate::header::root::MEMBER_DEAD,
                );
                &&& dead == (if live || was {
                    Some(member)
                } else {
                    None
                })
                &&& final(root).members@ == (if live {
                    old(root).members@.update(
                        member.slot as int,
                        crate::header::root::word_of(
                            member.generation,
                            crate::header::root::MEMBER_DEAD,
                        ),
                    )
                } else {
                    old(root).members@
                })
            }),
    {
        if peer.member.generation > MEMBER_GENERATION_MAX {
            return None;
        }
        if root.mark_dead(peer.member) || root.is_dead(peer.member) {
            Some(peer.member)
        } else {
            None
        }
    }

    /// Why a layout at an offset cannot be admitted to at all.
    pub open spec fn projection_refused(self, offset: u64, storage: Option<Extent>) -> Option<
        ProjectionError,
    > {
        if !self.map.access.contains_spec(write_spec()) {
            Some(ProjectionError::ReadOnly)
        } else {
            match storage {
                None => Some(ProjectionError::Admission(AdmitError::InvalidHeader)),
                Some(extent) => self.unreachable_at(offset, extent),
            }
        }
    }

    /// Admits this participant to the layout at an offset.
    pub fn admit_at<T: Layout>(
        &self,
        header: &mut RcHeader<T>,
        offset: u64,
        conf: T::Config,
        allow_init: bool,
    ) -> (admitted: Result<(), ProjectionError>)
        requires
            self.wf(),
            old(header).wf(),
            self.map.start + self.map.len <= u64::MAX,
            crate::header::layout::header_fits(T::info_extent_spec(), T::body_spec()),
            T::storage_spec(conf) matches Some(extent) ==> extent.wf(),
        ensures
            final(header).wf(),
            match self.projection_refused(offset, T::storage_spec(conf)) {
                Some(error) => admitted == Err::<(), ProjectionError>(error) && *final(header)
                    == *old(header),
                None => admission(
                    *old(header),
                    *final(header),
                    (self.map.start + offset) as u64,
                    conf,
                    LayoutContext { region: self.region, offset, allow_init },
                    self.member.slot,
                    T::storage_spec(conf)->0,
                    match admitted {
                        Ok(()) => None,
                        Err(error) => Some(error),
                    },
                ),
            },
    {
        if !self.map.access.contains(Access::writing()) {
            return Err(ProjectionError::ReadOnly);
        }
        let extent = match T::storage(&conf) {
            Some(extent) => extent,
            None => return Err(ProjectionError::Admission(AdmitError::InvalidHeader)),
        };
        match self.reach(offset, extent) {
            Ok(()) => {},
            Err(error) => return Err(error),
        }
        let ctx = LayoutContext { region: self.region, offset, allow_init };
        proof {
            let slot = self.member.slot;
            if crate::header::layout::claimable(header.members, Some(slot)) is None {
                crate::header::layout::law_refused_member_leaves_no_trace(header.members, slot);
            }
        }
        match header.admit_at(self.map.start + offset, conf, ctx, Some(self.member.slot)) {
            Ok(()) => Ok(()),
            Err(error) => Err(ProjectionError::Admission(error)),
        }
    }
}

/// What admission does to a header that can be reached.
pub open spec fn admission<T: Layout>(
    before: RcHeader<T>,
    after: RcHeader<T>,
    address: u64,
    conf: T::Config,
    ctx: LayoutContext,
    slot: u8,
    storage: Extent,
    refused: Option<ProjectionError>,
) -> bool {
    match before.status_spec() {
        crate::header::record::Status::Uninitialized => if ctx.allow_init {
            exists|made: Result<T, crate::header::record::Status>|
                {
                    &&& #[trigger] T::init_spec(conf, made)
                    &&& after.initialized(before, conf, ctx, Some(slot), storage, made)
                    &&& refused == (if made is Ok {
                        None
                    } else {
                        Some(ProjectionError::Admission(AdmitError::InvalidHeader))
                    })
                }
        } else {
            refused == Some(ProjectionError::Admission(AdmitError::Mismatch(LayoutField::State)))
                && after == before
        },
        crate::header::record::Status::Initializing => refused == Some(
            ProjectionError::Admission(AdmitError::Contention),
        ) && after == before,
        crate::header::record::Status::Corrupted => refused == Some(
            ProjectionError::Admission(AdmitError::InvalidHeader),
        ) && after == before,
        crate::header::record::Status::Initialized => after.same_but_members(before)
            && match before.refuses(address, conf, ctx, Some(slot), storage) {
            Some(error) => refused == Some(ProjectionError::Admission(error)) && after.members
                == before.members,
            None => refused is None && after.members == crate::header::layout::with_member(
                before.members,
                Some(slot),
            ),
        },
    }
}

/// A participant joined the root that was admitted.
pub open spec fn joins(
    before: RcHeader<Root>,
    after: RcHeader<Root>,
    region: RegionId,
    allow_init: bool,
    member: Member,
) -> bool {
    exists|admitted: RcHeader<Root>|
        {
            let words = (admitted.inner->0).members@;
            let slot = member.slot as int;
            &&& #[trigger] root_admitted(
                before,
                admitted,
                LayoutContext { region, offset: 0, allow_init },
            )
            &&& 0 <= slot < words.len()
            &&& crate::header::root::joinable(words[slot])
            &&& forall|i: int|
                0 <= i < slot ==> !crate::header::root::joinable(#[trigger] words[i])
            &&& member.generation == crate::header::root::generation_of(words[slot]) + 1
            &&& after.inner is Some
            &&& (after.inner->0).members@ == crate::header::root::joined(words, slot)
            &&& after.record@ == admitted.record@
            &&& after.same_fields(admitted)
            &&& after.members == admitted.members
        }
}

/// A root that was just made has room for everybody.
proof fn lemma_fresh_root_has_room(
    before: RcHeader<Root>,
    admitted: RcHeader<Root>,
    ctx: LayoutContext,
)
    requires
        root_admitted(before, admitted, ctx),
        before.status_spec() == crate::header::record::Status::Uninitialized,
    ensures
        admitted.inner is Some,
        crate::header::root::joinable((admitted.inner->0).members@[0]),
        (admitted.inner->0).members@.len() > 0,
{
}

} // verus!
