//! How a session comes into being: its region is entered, and its directory and
//! its heap are composed.

use super::{depart, Session, Shared};
use crate::dir::Directory;
use crate::header::root::Root;
use crate::header::LayoutField;
use crate::mem::compose::{MapLayout, Source};
use crate::mem::{Access, Error, Mapping, Refused, Request};
use crate::schema::{RegionAdmission, RegionId};
use crate::talc::config::Config;
use crate::talc::geometry::Geometry;
use crate::talc::lock::{Placed, TalckMeta};
use vstd::prelude::*;

verus! {

/// Choices for a session that is created.
#[derive(Clone, Copy, Debug, PartialEq, Eq)]
pub struct SessionOptions {
    heap: Option<Geometry>,
}

impl SessionOptions {
    pub closed spec fn heap_spec(self) -> Option<Geometry> {
        self.heap
    }

    /// The heap with this geometry, in place of one that is chosen by its size.
    pub fn with_heap_geometry(self, geometry: Geometry) -> (options: Self)
        ensures
            options.heap_spec() == Some(geometry),
    {
        SessionOptions { heap: Some(geometry) }
    }
}

impl Default for SessionOptions {
    fn default() -> (options: Self)
        ensures
            options.heap_spec() is None,
    {
        SessionOptions { heap: None }
    }
}

/// Why there is no session.
#[derive(Debug)]
#[allow(inconsistent_fields)]
pub enum SessionError<E> {
    Source(E),
    PermissionDenied { requested: Access },
    InsufficientSpace { requested: u64, allocated: u64 },
    Busy,
    Closed,
    DuplicateAttachment,
    InvalidHeader,
    LayoutMismatch(LayoutField),
    Poisoned,
    Overflow,
    ParticipantExhausted,
}

/// How a session reports that a region does not admit it.
pub open spec fn session_error<E>(error: Error) -> SessionError<E> {
    match error {
        Error::PermissionDenied { requested } => SessionError::PermissionDenied { requested },
        Error::UnenoughSpace { requested, allocated } => SessionError::InsufficientSpace {
            requested,
            allocated,
        },
        Error::OutofSize { requested, bound } => SessionError::InsufficientSpace {
            requested,
            allocated: bound,
        },
        Error::Contention => SessionError::Busy,
        Error::LayoutClosed => SessionError::Closed,
        Error::DuplicateAttachment => SessionError::DuplicateAttachment,
        Error::InvalidHeader => SessionError::InvalidHeader,
        Error::LayoutMismatch(field) => SessionError::LayoutMismatch(field),
        Error::PoisonedComposition => SessionError::Poisoned,
        Error::ArithmeticOverflow => SessionError::Overflow,
        Error::ParticipantExhausted => SessionError::ParticipantExhausted,
    }
}

impl<E> SessionError<E> {
    pub fn admission(error: Error) -> (reported: Self)
        ensures
            reported == session_error::<E>(error),
    {
        match error {
            Error::PermissionDenied { requested } => SessionError::PermissionDenied { requested },
            Error::UnenoughSpace { requested, allocated } => SessionError::InsufficientSpace {
                requested,
                allocated,
            },
            Error::OutofSize { requested, bound } => SessionError::InsufficientSpace {
                requested,
                allocated: bound,
            },
            Error::Contention => SessionError::Busy,
            Error::LayoutClosed => SessionError::Closed,
            Error::DuplicateAttachment => SessionError::DuplicateAttachment,
            Error::InvalidHeader => SessionError::InvalidHeader,
            Error::LayoutMismatch(field) => SessionError::LayoutMismatch(field),
            Error::PoisonedComposition => SessionError::Poisoned,
            Error::ArithmeticOverflow => SessionError::Overflow,
            Error::ParticipantExhausted => SessionError::ParticipantExhausted,
        }
    }
}

/// Whatever of the region is in place is consistent.
pub open spec fn consistent(shared: Shared) -> bool {
    &&& shared.root.wf()
    &&& shared.root.inner matches Some(root) ==> root.wf()
    &&& composable(shared)
}

/// Whatever is in place of the directory and of the heap is consistent.
pub open spec fn composable(shared: Shared) -> bool {
    &&& shared.directory.wf()
    &&& shared.directory.inner matches Some(directory) ==> directory@.wf()
    &&& shared.heap.wf()
    &&& shared.heap.inner matches Some(heap) ==> heap.wf()
}

/// Bytes from the beginning of a heap's header to where the heap counts from.
pub const HEAP_BASE: u64 = 168;

/// The heap as it is mapped at an address: every word of it is the same.
pub open spec fn mapped_at(before: TalckMeta, after: TalckMeta, base: u64) -> bool {
    &&& after.wf()
    &&& after.mutation == before.mutation
    &&& after.talc.base_spec() == base
    &&& after.talc.extent_spec() == before.talc.extent_spec()
    &&& after.talc.geometry_spec() == before.talc.geometry_spec()
    &&& after.talc.chunks() == before.talc.chunks()
    &&& after.talc.bins_spec() == before.talc.bins_spec()
    &&& after.talc.live() == before.talc.live()
}

/// What composing the heap behind the directory does. What is left of the region
/// behind the heap's header is the heap's, up to what the configuration asks
/// for.
pub open spec fn heap_opens(
    area: MapLayout,
    before: Shared,
    after: Shared,
    conf: Config,
    opened: Result<Session, Error>,
) -> bool {
    match area.next_place::<TalckMeta>() {
        Err(error) => opened == Err::<Session, Error>(error) && after.heap == before.heap,
        Ok((at, next)) => {
            let len = area.area.map.len;
            let base = area.area.map.start + at + HEAP_BASE;
            if next >= len {
                &&& opened == Err::<Session, Error>(
                    Error::UnenoughSpace { requested: next, allocated: len },
                )
                &&& after.heap == before.heap
            } else {
                let placed = Placed { base: base as u64, conf: conf.bounded((len - next) as u64) };
                exists|admitted: crate::header::layout::RcHeader<TalckMeta>,
                    done: MapLayout,
                    pushed: Result<(), Error>,
                |
                    {
                        &&& #[trigger] crate::mem::compose::pushes(
                            area,
                            done,
                            before.heap,
                            admitted,
                            placed,
                            pushed,
                        )
                        &&& super::same_header(admitted, after.heap)
                        &&& match pushed {
                            Err(error) => {
                                &&& opened == Err::<Session, Error>(error)
                                &&& after.heap == admitted
                            },
                            Ok(()) => if base % 8 == 0 && base + 8
                                * (admitted.inner->0).talc.extent_spec() <= u64::MAX {
                                &&& opened matches Ok(session) && session.region_spec()
                                    == area.area
                                &&& after.heap.members == admitted.members
                                &&& after.heap.inner matches Some(heap) && mapped_at(
                                    admitted.inner->0,
                                    heap,
                                    base as u64,
                                )
                            } else {
                                &&& opened == Err::<Session, Error>(Error::InvalidHeader)
                                &&& after.heap.members == super::without(
                                    admitted.members,
                                    area.area.member.slot,
                                )
                            },
                        }
                    }
            }
        },
    }
}

/// What composing directory and heap does. A participant that does not get both
/// leaves what it was admitted to, and the region.
pub open spec fn opens(
    area: MapLayout,
    before: Shared,
    after: Shared,
    conf: Config,
    opened: Result<Session, Error>,
) -> bool {
    let region = area.area;
    &&& match opened {
        Ok(_) => after.root == before.root,
        Err(_) => super::departs(before.root, after.root, region),
    }
    &&& exists|
        middle: MapLayout,
        admitted: crate::header::layout::RcHeader<Directory>,
        pushed: Result<(), Error>,
    |
        {
            &&& #[trigger] crate::mem::compose::pushes(
                area,
                middle,
                before.directory,
                admitted,
                (),
                pushed,
            )
            &&& match pushed {
                Err(error) => {
                    &&& opened == Err::<Session, Error>(error)
                    &&& after.directory == admitted
                    &&& after.heap == before.heap
                },
                Ok(()) => {
                    &&& heap_opens(middle, before, after, conf, opened)
                    &&& after.directory.same_but_members(admitted)
                    &&& after.directory.members == (if opened is Ok {
                        admitted.members
                    } else {
                        super::without(admitted.members, region.member.slot)
                    })
                },
            }
        }
}

impl Session {
    /// The session in a region whose heap takes what is left of it.
    pub fn from(area: MapLayout, shared: &mut Shared) -> (opened: Result<
        Self,
        Refused<Error>,
    >)
        requires
            area.wf(),
            area.area.map.start + area.area.map.len <= u64::MAX,
            consistent(*old(shared)),
        ensures
            consistent(*final(shared)),
            opened matches Ok(session) ==> session.wf() && final(shared).directory.inner is Some
                && final(shared).heap.inner is Some,
            opens(
                area,
                *old(shared),
                *final(shared),
                Config::of_size(area.area.map.len),
                crate::mem::answer(opened),
            ),
            crate::mem::gives_back(opened, area.area.map),
    {
        let conf = Config::new(area.area.map.len);
        Self::from_config(area, shared, conf)
    }

    /// The session in a region whose heap has this geometry.
    pub fn from_geometry(area: MapLayout, shared: &mut Shared, geometry: Geometry) -> (opened: Result<
        Self,
        Refused<Error>,
    >)
        requires
            area.wf(),
            area.area.map.start + area.area.map.len <= u64::MAX,
            consistent(*old(shared)),
        ensures
            consistent(*final(shared)),
            opened matches Ok(session) ==> session.wf() && final(shared).directory.inner is Some
                && final(shared).heap.inner is Some,
            opens(
                area,
                *old(shared),
                *final(shared),
                Config::of_size(area.area.map.len).of_geometry(geometry),
                crate::mem::answer(opened),
            ),
            crate::mem::gives_back(opened, area.area.map),
    {
        let conf = Config::new(area.area.map.len).with_geometry(geometry);
        Self::from_config(area, shared, conf)
    }

    /// Composes the directory, and the heap behind it.
    #[verifier::spinoff_prover]
    pub fn from_config(area: MapLayout, shared: &mut Shared, conf: Config) -> (opened: Result<
        Self,
        Refused<Error>,
    >)
        requires
            area.wf(),
            area.area.map.start + area.area.map.len <= u64::MAX,
            conf.forward_spec() == 0,
            consistent(*old(shared)),
        ensures
            consistent(*final(shared)),
            opened matches Ok(session) ==> session.wf() && final(shared).directory.inner is Some
                && final(shared).heap.inner is Some,
            opens(area, *old(shared), *final(shared), conf, crate::mem::answer(opened)),
            crate::mem::gives_back(opened, area.area.map),
    {
        let region = area.area;
        let mut layout = area;
        proof {
            crate::dir::law_directory_extent();
            crate::talc::lock::law_heap_extent();
        }
        let pushed = layout.push::<Directory>(&mut shared.directory, ());
        let ghost middle = layout;
        let ghost admitted = shared.directory;
        match pushed {
            Ok(()) => {},
            Err(error) => {
                depart(region, &mut shared.root);
                assert(crate::mem::compose::pushes(
                    area,
                    middle,
                    old(shared).directory,
                    admitted,
                    (),
                    pushed,
                ));
                return Err(Refused { error, mapping: Some(region.map) });
            },
        }
        let opened = compose_heap(layout, shared, conf);
        if opened.is_err() {
            shared.directory.leave(region.member.slot);
            depart(region, &mut shared.root);
        }
        assert(crate::mem::compose::pushes(
            area,
            middle,
            old(shared).directory,
            admitted,
            (),
            pushed,
        ));
        match opened {
            Ok(session) => Ok(session),
            Err(error) => Err(Refused { error, mapping: Some(region.map) }),
        }
    }
}

#[verifier::spinoff_prover]
fn compose_heap(area: MapLayout, shared: &mut Shared, conf: Config) -> (opened: Result<
    Session,
    Error,
>)
    requires
        area.wf(),
        area.area.map.start + area.area.map.len <= u64::MAX,
        !area.poisoned,
        conf.forward_spec() == 0,
        composable(*old(shared)),
    ensures
        composable(*final(shared)),
        final(shared).root == old(shared).root,
        final(shared).directory == old(shared).directory,
        opened matches Ok(session) ==> session.wf() && final(shared).heap.inner is Some,
        heap_opens(area, *old(shared), *final(shared), conf, opened),
{
    let region = area.area;
    let mut layout = area;
    proof {
        crate::talc::lock::law_heap_extent();
    }
    let reservation = match layout.reserve::<TalckMeta>() {
        Ok(reservation) => reservation,
        Err(error) => return Err(error),
    };
    let at: u64 = reservation.offset();
    let bound: u64 = reservation.remaining_after();
    let len: u64 = layout.area.map.len;
    if bound == 0 {
        let next: u64 = at + reservation.size();
        return Err(Error::UnenoughSpace { requested: next, allocated: len });
    }
    let base: u64 = layout.area.map.start + at + HEAP_BASE;
    let placed = Placed { base, conf: conf.with_bound(bound) };
    match layout.push::<TalckMeta>(&mut shared.heap, placed) {
        Ok(()) => {},
        Err(error) => return Err(error),
    }
    let mut heap: Option<TalckMeta> = None;
    core::mem::swap(&mut heap, &mut shared.heap.inner);
    match heap {
        None => Err(Error::InvalidHeader),
        Some(mut inner) => {
            let mapped = inner.talc.rebase(base);
            shared.heap.inner = Some(inner);
            if mapped {
                Ok(Session { region })
            } else {
                shared.heap.leave(region.member.slot);
                Err(Error::InvalidHeader)
            }
        },
    }
}

/// The configuration of the heap of a mapping.
pub open spec fn heap_config(map: Mapping, geometry: Option<Geometry>) -> Config {
    match geometry {
        Some(geometry) => Config::of_size(map.len).of_geometry(geometry),
        None => Config::of_size(map.len),
    }
}

/// What opening a session in a mapping does.
pub open spec fn admits(
    before: Shared,
    after: Shared,
    map: Mapping,
    admission: RegionAdmission,
    geometry: Option<Geometry>,
    opened: Result<Session, Error>,
) -> bool {
    match crate::mem::entry_refused(map, admission, before.root) {
        Some(error) => {
            &&& opened == Err::<Session, Error>(error)
            &&& crate::mem::stays_out(before.root, after.root, error)
            &&& after.directory == before.directory
            &&& after.heap == before.heap
        },
        None => exists|area: MapLayout, root: crate::header::layout::RcHeader<Root>|
            {
                &&& #[trigger] crate::mem::compose::enters(
                    before.root,
                    root,
                    map,
                    admission,
                    area,
                )
                &&& opens(
                    area,
                    Shared { root, ..before },
                    after,
                    heap_config(map, geometry),
                    opened,
                )
            },
    }
}

impl Session {
    /// Opens a session in a mapping. Where there is none the mapping comes back.
    pub fn admit_mapped(
        map: Mapping,
        admission: RegionAdmission,
        geometry: Option<Geometry>,
        shared: &mut Shared,
    ) -> (opened: Result<Self, Refused<Error>>)
        requires
            map.start + map.len <= u64::MAX,
            consistent(*old(shared)),
        ensures
            consistent(*final(shared)),
            opened matches Ok(session) ==> session.wf() && final(shared).directory.inner is Some
                && final(shared).heap.inner is Some,
            admits(
                *old(shared),
                *final(shared),
                map,
                admission,
                geometry,
                crate::mem::answer(opened),
            ),
            crate::mem::gives_back(opened, map),
    {
        let ghost before = *shared;
        let area = match MapLayout::new(map, admission, &mut shared.root) {
            Ok(area) => area,
            Err(refused) => return Err(refused),
        };
        assert(crate::mem::compose::enters(before.root, shared.root, map, admission, area));
        match geometry {
            Some(geometry) => Self::from_geometry(area, shared, geometry),
            None => Self::from(area, shared),
        }
    }

    fn admit_from<S: Source>(
        source: S,
        request: Request,
        admission: RegionAdmission,
        geometry: Option<Geometry>,
        shared: &mut Shared,
    ) -> (opened: Result<Self, Refused<SessionError<S::Error>>>)
        requires
            consistent(*old(shared)),
        ensures
            consistent(*final(shared)),
            opened matches Ok(session) ==> session.wf() && final(shared).directory.inner is Some
                && final(shared).heap.inner is Some,
            opens_from(
                source,
                request,
                *old(shared),
                *final(shared),
                admission,
                geometry,
                opened,
            ),
    {
        let map = match source.map(request) {
            Ok(map) => map,
            Err(error) => return Err(
                Refused { error: SessionError::Source(error), mapping: None },
            ),
        };
        let opened = Self::admit_mapped(map, admission, geometry, shared);
        assert(admits(
            *old(shared),
            *shared,
            map,
            admission,
            geometry,
            crate::mem::answer(opened),
        ));
        match opened {
            Ok(session) => Ok(session),
            Err(refused) => Err(
                Refused {
                    error: SessionError::admission(refused.error),
                    mapping: refused.mapping,
                },
            ),
        }
    }

    /// Creates a region in what the source maps, with a heap of a geometry that
    /// its size decides.
    pub fn create<S: Source>(source: S, request: Request, region: RegionId, shared: &mut Shared) -> (
    opened: Result<Self, Refused<SessionError<S::Error>>>)
        requires
            consistent(*old(shared)),
        ensures
            consistent(*final(shared)),
            opened matches Ok(session) ==> session.wf() && final(shared).directory.inner is Some
                && final(shared).heap.inner is Some,
            opens_from(
                source,
                request,
                *old(shared),
                *final(shared),
                RegionAdmission::Create(region),
                None,
                opened,
            ),
    {
        Self::create_with(source, request, region, SessionOptions::default(), shared)
    }

    /// Creates a region in what the source maps, with the given choices.
    pub fn create_with<S: Source>(
        source: S,
        request: Request,
        region: RegionId,
        options: SessionOptions,
        shared: &mut Shared,
    ) -> (opened: Result<Self, Refused<SessionError<S::Error>>>)
        requires
            consistent(*old(shared)),
        ensures
            consistent(*final(shared)),
            opened matches Ok(session) ==> session.wf() && final(shared).directory.inner is Some
                && final(shared).heap.inner is Some,
            opens_from(
                source,
                request,
                *old(shared),
                *final(shared),
                RegionAdmission::Create(region),
                options.heap_spec(),
                opened,
            ),
    {
        Self::admit_from(source, request, RegionAdmission::Create(region), options.heap, shared)
    }

    /// Opens the region with this name in what the source maps.
    pub fn open<S: Source>(source: S, request: Request, region: RegionId, shared: &mut Shared) -> (
    opened: Result<Self, Refused<SessionError<S::Error>>>)
        requires
            consistent(*old(shared)),
        ensures
            consistent(*final(shared)),
            opened matches Ok(session) ==> session.wf() && final(shared).directory.inner is Some
                && final(shared).heap.inner is Some,
            opens_from(
                source,
                request,
                *old(shared),
                *final(shared),
                RegionAdmission::Expect(region),
                None,
                opened,
            ),
    {
        Self::admit_from(source, request, RegionAdmission::Expect(region), None, shared)
    }
}

/// What opening a session in what a source maps does: nothing, where the source
/// fails; else what opening it in that mapping does. The mapping of a region
/// that refuses comes back with the refusal.
pub open spec fn opens_from<S: Source>(
    source: S,
    request: Request,
    before: Shared,
    after: Shared,
    admission: RegionAdmission,
    geometry: Option<Geometry>,
    opened: Result<Session, Refused<SessionError<S::Error>>>,
) -> bool {
    if opened matches Err(refused) && refused.error is Source {
        &&& opened matches Err(refused)
        &&& refused.error matches SessionError::Source(error)
        &&& crate::mem::compose::mapped(source, request, Err(error))
        &&& refused.mapping is None
        &&& after == before
    } else {
        exists|map: Mapping, inner: Result<Session, Error>|
            {
                &&& crate::mem::compose::mapped(source, request, Ok(map))
                &&& #[trigger] admits(before, after, map, admission, geometry, inner)
                &&& opened == (match inner {
                    Ok(session) => Ok::<Session, Refused<SessionError<S::Error>>>(session),
                    Err(error) => Err::<Session, Refused<SessionError<S::Error>>>(
                        Refused {
                            error: session_error::<S::Error>(error),
                            mapping: Some(map),
                        },
                    ),
                })
            }
    }
}

/// The directory that was composed is a new one, or the one that was there.
proof fn lemma_directory_composed(
    area: MapLayout,
    after: MapLayout,
    header: crate::header::layout::RcHeader<Directory>,
    admitted: crate::header::layout::RcHeader<Directory>,
)
    requires
        crate::mem::compose::pushes(area, after, header, admitted, (), Ok::<(), Error>(())),
    ensures
        after.area == area.area,
        !after.poisoned,
        header.status_spec() is Uninitialized ==> (admitted.inner->0)@.word == crate::dir::CLEAN,
        header.status_spec() is Initialized ==> admitted.inner == header.inner,
        header.status_spec() is Uninitialized || header.status_spec() is Initialized,
{
}

/// The heap that was composed is an empty one, or the one that was there.
proof fn lemma_heap_composed(
    area: MapLayout,
    before: Shared,
    after: Shared,
    conf: Config,
    session: Session,
)
    requires
        !area.poisoned,
        area.area.map.start + area.area.map.len <= u64::MAX,
        heap_opens(area, before, after, conf, Ok::<Session, Error>(session)),
    ensures
        session.region_spec() == area.area,
        after.heap.inner matches Some(heap) && heap.talc.base_spec() > area.area.map.start,
        before.heap.status_spec() is Uninitialized ==> crate::talc::lock::is_unused(after.talc()),
        before.heap.status_spec() is Initialized ==> after.talc().talc.live()
            == before.talc().talc.live() && after.talc().mutation == before.talc().mutation,
        before.heap.status_spec() is Uninitialized || before.heap.status_spec() is Initialized,
{
    let (at, next) = area.next_place::<TalckMeta>()->Ok_0;
    let len = area.area.map.len;
    let placed = Placed {
        base: (area.area.map.start + at + HEAP_BASE) as u64,
        conf: conf.bounded((len - next) as u64),
    };
    crate::talc::lock::law_heap_extent();
    let (admitted, done, pushed) = choose|
        admitted: crate::header::layout::RcHeader<TalckMeta>,
        done: MapLayout,
        pushed: Result<(), Error>,
    |
        {
            &&& #[trigger] crate::mem::compose::pushes(
                area,
                done,
                before.heap,
                admitted,
                placed,
                pushed,
            )
            &&& super::same_header(admitted, after.heap)
            &&& match pushed {
                Err(error) => false,
                Ok(()) => if placed.base % 8 == 0 && placed.base + 8
                    * (admitted.inner->0).talc.extent_spec() <= u64::MAX {
                    &&& session.region_spec() == area.area
                    &&& after.heap.members == admitted.members
                    &&& after.heap.inner matches Some(heap) && mapped_at(
                        admitted.inner->0,
                        heap,
                        placed.base,
                    )
                } else {
                    false
                },
            }
        };
    assert(crate::mem::compose::pushes(area, done, before.heap, admitted, placed, pushed));
}

proof fn lemma_composed(
    area: MapLayout,
    before: Shared,
    after: Shared,
    conf: Config,
    session: Session,
)
    requires
        !area.poisoned,
        area.area.map.start + area.area.map.len <= u64::MAX,
        opens(area, before, after, conf, Ok::<Session, Error>(session)),
    ensures
        session.region_spec() == area.area,
        after.talc().talc.base_spec() > area.area.map.start,
        before.heap.status_spec() is Uninitialized ==> crate::talc::lock::is_unused(after.talc()),
        before.heap.status_spec() is Initialized ==> after.talc().talc.live()
            == before.talc().talc.live() && after.talc().mutation == before.talc().mutation,
        before.heap.status_spec() is Uninitialized || before.heap.status_spec() is Initialized,
        before.directory.status_spec() is Uninitialized ==> after.dir().word == crate::dir::CLEAN,
        before.directory.status_spec() is Initialized ==> after.dir() == before.dir(),
        before.directory.status_spec() is Uninitialized || before.directory.status_spec()
            is Initialized,
{
    let (middle, admitted, pushed) = choose|
        middle: MapLayout,
        admitted: crate::header::layout::RcHeader<Directory>,
        pushed: Result<(), Error>,
    |
        {
            &&& #[trigger] crate::mem::compose::pushes(
                area,
                middle,
                before.directory,
                admitted,
                (),
                pushed,
            )
            &&& match pushed {
                Err(error) => false,
                Ok(()) => {
                    &&& heap_opens(middle, before, after, conf, Ok::<Session, Error>(session))
                    &&& after.directory.same_but_members(admitted)
                    &&& after.directory.members == admitted.members
                },
            }
        };
    lemma_directory_composed(area, middle, before.directory, admitted);
    lemma_heap_composed(middle, before, after, conf, session);
}

proof fn lemma_steady(before: Shared, after: Shared, region: crate::mem::Region)
    requires
        region.map.start + region.map.len <= u64::MAX,
        consistent(after),
        after.root.inner is Some,
        after.directory.inner is Some,
        after.heap.inner is Some,
        after.talc().talc.base_spec() > region.map.start,
        after.dir().word == crate::dir::CLEAN || super::workable(before) && after.dir()
            == before.dir() && after.talc().talc.live() == before.talc().talc.live()
            && after.talc().mutation == before.talc().mutation,
    ensures
        super::steady(after, region),
{
}

/// A session in fresh memory, or in a region that can be worked with, can be
/// worked with; and the heap of a region that was created is empty.
#[verifier::spinoff_prover]
pub proof fn law_opened_regions_are_steady(
    before: Shared,
    after: Shared,
    map: Mapping,
    admission: RegionAdmission,
    geometry: Option<Geometry>,
    session: Session,
)
    requires
        map.start + map.len <= u64::MAX,
        consistent(before),
        consistent(after),
        after.directory.inner is Some,
        after.heap.inner is Some,
        admits(before, after, map, admission, geometry, Ok::<Session, Error>(session)),
        (before.directory.status_spec() is Uninitialized && before.heap.status_spec()
            is Uninitialized) || (before.directory.status_spec() is Initialized
            && before.heap.status_spec() is Initialized && super::workable(before)),
    ensures
        super::steady(after, session.region_spec()),
        before.heap.status_spec() is Uninitialized ==> crate::talc::lock::is_unused(after.talc()),
        before.directory.status_spec() is Uninitialized ==> after.dir().word == crate::dir::CLEAN,
        before.directory.status_spec() is Initialized ==> after.dir() == before.dir(),
        before.heap.status_spec() is Initialized ==> after.talc().talc.live()
            == before.talc().talc.live() && after.talc().mutation == before.talc().mutation,
{
    let (area, root) = choose|area: MapLayout, root: crate::header::layout::RcHeader<Root>|
        {
            &&& #[trigger] crate::mem::compose::enters(before.root, root, map, admission, area)
            &&& opens(
                area,
                Shared { root, ..before },
                after,
                heap_config(map, geometry),
                Ok::<Session, Error>(session),
            )
        };
    let entered = Shared { root, ..before };
    lemma_composed(area, entered, after, heap_config(map, geometry), session);
    lemma_steady(before, after, session.region_spec());
}

/// Creating a region with default choices is creating it: the same outcomes are
/// the outcomes of both.
pub proof fn law_default_choices_create_alike<S: Source>(
    options: SessionOptions,
    source: S,
    request: Request,
    region: RegionId,
    before: Shared,
    after: Shared,
    opened: Result<Session, Refused<SessionError<S::Error>>>,
)
    requires
        call_ensures(SessionOptions::default, (), options),
    ensures
        opens_from(
            source,
            request,
            before,
            after,
            RegionAdmission::Create(region),
            options.heap_spec(),
            opened,
        ) == opens_from(
            source,
            request,
            before,
            after,
            RegionAdmission::Create(region),
            None,
            opened,
        ),
{
}

/// A mapping that a region refuses comes back with the refusal, whatever the
/// refusal is: it is the one that the source made.
pub proof fn law_refused_mappings_come_back<S: Source>(
    source: S,
    request: Request,
    before: Shared,
    after: Shared,
    admission: RegionAdmission,
    geometry: Option<Geometry>,
    refused: Refused<SessionError<S::Error>>,
)
    requires
        opens_from(
            source,
            request,
            before,
            after,
            admission,
            geometry,
            Err::<Session, Refused<SessionError<S::Error>>>(refused),
        ),
    ensures
        match refused.mapping {
            Some(map) => crate::mem::compose::mapped(source, request, Ok(map)),
            None => refused.error matches SessionError::Source(error)
                && crate::mem::compose::mapped(source, request, Err(error)),
        },
{
}

} // verus!
