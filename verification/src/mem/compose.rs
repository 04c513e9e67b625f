//! Composition of a region: one layout behind the other.

use super::{Error, Mapping, Refused, Region, Request};
use crate::extent::Extent;
use crate::header::layout::{header_extent, Layout, RcHeader};
use crate::header::root::Root;
use crate::schema::{LayoutContext, RegionAdmission, RegionId};
use core::marker::PhantomData;
use vstd::prelude::*;

verus! {

/// Produces a mapping that nobody else owns, with the extent and the access
/// that are asked for.
pub trait Source: Sized {
    type Error;

    /// A mapping lies in the address space as a whole.
    fn map(self, request: Request) -> (mapped: Result<Mapping, Self::Error>)
        ensures
            mapped matches Ok(mapping) ==> mapping.start + mapping.len <= u64::MAX,
    ;
}

/// The source was asked for a mapping, and this is what came of it.
pub open spec fn mapped<S: Source>(
    source: S,
    request: Request,
    mapping: Result<Mapping, S::Error>,
) -> bool {
    call_ensures(S::map, (source, request), mapping)
}

/// Why a region could not be opened.
#[derive(Debug)]
pub enum OpenError<E> {
    Source(E),
    Admission(Error),
}

/// How far a region has been composed.
pub struct MapLayout {
    pub area: Region,
    pub offset: u64,
    pub poisoned: bool,
}

/// The place that a layout would get.
pub struct Reservation<T> {
    offset: u64,
    next: u64,
    bound: u64,
    layout: PhantomData<T>,
}

impl<T> Reservation<T> {
    pub closed spec fn offset_spec(self) -> u64 {
        self.offset
    }

    pub closed spec fn next_spec(self) -> u64 {
        self.next
    }

    pub closed spec fn bound_spec(self) -> u64 {
        self.bound
    }

    pub fn offset(&self) -> (offset: u64)
        ensures
            offset == self.offset_spec(),
    {
        self.offset
    }

    /// Bytes of the region from the place on.
    pub fn available_from_offset(&self) -> (available: u64)
        ensures
            available == (if self.bound_spec() < self.offset_spec() {
                0
            } else {
                self.bound_spec() - self.offset_spec()
            }),
    {
        self.bound.saturating_sub(self.offset)
    }

    /// Bytes of the region behind the place.
    pub fn remaining_after(&self) -> (remaining: u64)
        ensures
            remaining == (if self.bound_spec() < self.next_spec() {
                0
            } else {
                self.bound_spec() - self.next_spec()
            }),
    {
        self.bound.saturating_sub(self.next)
    }

    /// Bytes of the place.
    pub fn size(&self) -> (size: u64)
        requires
            self.offset_spec() <= self.next_spec(),
        ensures
            size == self.next_spec() - self.offset_spec(),
    {
        self.next - self.offset
    }
}

/// What entering a mapped region does: the participant joins its root, and the
/// composition goes on behind it.
pub open spec fn enters(
    before: RcHeader<Root>,
    after: RcHeader<Root>,
    map: Mapping,
    admission: RegionAdmission,
    layout: MapLayout,
) -> bool {
    let (at, next) = super::placed(map.start, map.len, 0, super::root_extent())->Ok_0;
    let id = super::entered(admission, (map.start + at) as u64, before)->0;
    &&& layout.wf()
    &&& !layout.poisoned
    &&& layout.offset == next
    &&& layout.area.map == map
    &&& layout.area.region == id
    &&& layout.area.allow_init == (admission is Create)
    &&& !layout.area.detached
    &&& super::joins(before, after, id, admission is Create, layout.area.member)
}

impl MapLayout {
    pub open spec fn wf(self) -> bool {
        &&& self.area.wf()
        &&& self.offset <= self.area.map.len
    }

    /// Enters a region that a source maps. The mapping of a region that refuses to
    /// be entered comes back.
    pub fn map<S: Source>(
        source: S,
        request: Request,
        admission: RegionAdmission,
        root: &mut RcHeader<Root>,
    ) -> (opened: Result<Self, Refused<OpenError<S::Error>>>)
        requires
            old(root).wf(),
            old(root).inner matches Some(inner) ==> inner.wf(),
        ensures
            final(root).wf(),
            final(root).inner matches Some(inner) ==> inner.wf(),
            match opened {
                Ok(layout) => {
                    let map = layout.area.map;
                    &&& mapped(source, request, Ok(map))
                    &&& map.start + map.len <= u64::MAX
                    &&& super::entry_refused(map, admission, *old(root)) is None
                    &&& enters(*old(root), *final(root), map, admission, layout)
                },
                Err(refused) => match refused.error {
                    OpenError::Source(error) => {
                        &&& mapped(source, request, Err(error))
                        &&& refused.mapping is None
                        &&& *final(root) == *old(root)
                    },
                    OpenError::Admission(error) => {
                        &&& refused.mapping matches Some(mapping)
                        &&& mapped(source, request, Ok(mapping))
                        &&& super::entry_refused(mapping, admission, *old(root)) == Some(error)
                        &&& super::stays_out(*old(root), *final(root), error)
                    },
                },
            },
    {
        let asked = source.map(request);
        assert(mapped(source, request, asked));
        match asked {
            Ok(mapping) => match MapLayout::new(mapping, admission, root) {
                Ok(layout) => {
                    assert(asked == Ok::<Mapping, S::Error>(layout.area.map));
                    Ok(layout)
                },
                Err(refused) => Err(
                    Refused {
                        error: OpenError::Admission(refused.error),
                        mapping: refused.mapping,
                    },
                ),
            },
            Err(error) => Err(Refused { error: OpenError::Source(error), mapping: None }),
        }
    }

    /// Enters a region that is mapped; its composition goes on behind its root.
    /// The mapping of a region that refuses to be entered comes back.
    pub fn new(map: Mapping, admission: RegionAdmission, root: &mut RcHeader<Root>) -> (made: Result<
        Self,
        Refused<Error>,
    >)
        requires
            old(root).wf(),
            old(root).inner matches Some(inner) ==> inner.wf(),
        ensures
            final(root).wf(),
            final(root).inner matches Some(inner) ==> inner.wf(),
            match super::entry_refused(map, admission, *old(root)) {
                Some(error) => made == Err::<Self, Refused<Error>>(
                    Refused { error, mapping: Some(map) },
                ) && super::stays_out(*old(root), *final(root), error),
                None => made matches Ok(layout) && enters(
                    *old(root),
                    *final(root),
                    map,
                    admission,
                    layout,
                ),
            },
    {
        match Region::enter(map, admission, root) {
            Ok((area, offset)) => Ok(MapLayout { area, offset, poisoned: false }),
            Err(error) => Err(Refused { error, mapping: Some(map) }),
        }
    }

    /// Leaves `forward` bytes out.
    pub fn forward(&mut self, forward: u64) -> (moved: Result<(), Error>)
        requires
            old(self).wf(),
        ensures
            final(self).wf(),
            final(self).area == old(self).area,
            final(self).poisoned == old(self).poisoned,
            ({
                let offset = old(self).offset + forward;
                let bound = old(self).area.map.len;
                if old(self).poisoned {
                    moved == Err::<(), Error>(Error::PoisonedComposition) && final(self).offset
                        == old(self).offset
                } else if offset > u64::MAX {
                    moved == Err::<(), Error>(Error::ArithmeticOverflow) && final(self).offset
                        == old(self).offset
                } else if offset > bound {
                    moved == Err::<(), Error>(
                        Error::OutofSize { requested: offset as u64, bound },
                    ) && final(self).offset == old(self).offset
                } else {
                    moved is Ok && final(self).offset == offset
                }
            }),
    {
        if self.poisoned {
            return Err(Error::PoisonedComposition);
        }
        let offset: u64 = match self.offset.checked_add(forward) {
            Some(offset) => offset,
            None => return Err(Error::ArithmeticOverflow),
        };
        if offset > self.area.map.len {
            return Err(Error::OutofSize { requested: offset, bound: self.area.map.len });
        }
        self.offset = offset;
        Ok(())
    }

    pub fn cur_offset(&self) -> (offset: u64)
        ensures
            offset == self.offset,
    {
        self.offset
    }

    pub fn region_id(&self) -> (region: RegionId)
        ensures
            region == self.area.region,
    {
        self.area.region
    }

    pub fn rest_size(&self) -> (rest: u64)
        ensures
            rest == (if self.area.map.len < self.offset {
                0
            } else {
                self.area.map.len - self.offset
            }),
    {
        self.area.map.len.saturating_sub(self.offset)
    }

    /// The place of the next layout, if it is a `T`.
    pub open spec fn next_place<T: Layout>(self) -> Result<(u64, u64), Error> {
        if !self.area.map.access.contains_spec(super::write_spec()) {
            Err(Error::PermissionDenied { requested: super::write_spec() })
        } else {
            super::placed(
                self.area.map.start,
                self.area.map.len,
                self.offset,
                super::header_extent_spec::<T>(),
            )
        }
    }

    fn find_place<T: Layout>(&self) -> (found: Result<(u64, u64), Error>)
        requires
            self.wf(),
            crate::header::layout::header_fits(T::info_extent_spec(), T::body_spec()),
        ensures
            found == self.next_place::<T>(),
            found matches Ok((at, next)) ==> self.offset <= at <= next <= self.area.map.len
                && self.area.map.start + next <= u64::MAX,
    {
        let extent = match header_extent(T::info_extent(), T::body()) {
            Some(extent) => extent,
            None => return Err(Error::InvalidHeader),
        };
        proof {
            crate::extent::lemma_power_positive(extent.align as int);
            crate::numeric::lemma_align_up(
                self.area.map.start + self.offset,
                extent.align as int,
            );
        }
        self.area.map.reserve(self.offset, extent)
    }

    /// Finds the place of a layout.
    pub fn reserve<T: Layout>(&self) -> (reserved: Result<Reservation<T>, Error>)
        requires
            self.wf(),
            crate::header::layout::header_fits(T::info_extent_spec(), T::body_spec()),
        ensures
            if self.poisoned {
                reserved == Err::<Reservation<T>, Error>(Error::PoisonedComposition)
            } else {
                match self.next_place::<T>() {
                    Err(error) => reserved == Err::<Reservation<T>, Error>(error),
                    Ok((at, next)) => reserved matches Ok(reservation) && reservation.offset_spec()
                        == at && reservation.next_spec() == next && reservation.bound_spec()
                        == self.area.map.len && at <= next,
                }
            },
    {
        if self.poisoned {
            return Err(Error::PoisonedComposition);
        }
        match self.find_place::<T>() {
            Ok((offset, next)) => Ok(
                Reservation { offset, next, bound: self.area.map.len, layout: PhantomData },
            ),
            Err(error) => Err(error),
        }
    }

    /// Admits this participant to the layout at a place that was found. A
    /// composition that fails here cannot go on.
    #[verifier::spinoff_prover]
    pub fn commit<T: Layout>(
        &mut self,
        reservation: Reservation<T>,
        header: &mut RcHeader<T>,
        conf: T::Config,
    ) -> (committed: Result<(), Error>)
        requires
            old(self).wf(),
            old(header).wf(),
            crate::header::layout::header_fits(T::info_extent_spec(), T::body_spec()),
        ensures
            final(self).wf(),
            final(header).wf(),
            final(self).area == old(self).area,
            final(self).poisoned == (committed is Err),
            committed is Err ==> final(self).offset == old(self).offset,
            if old(self).poisoned {
                committed == Err::<(), Error>(Error::PoisonedComposition) && *final(header)
                    == *old(header)
            } else {
                match old(self).next_place::<T>() {
                    Err(error) => committed == Err::<(), Error>(error) && *final(header) == *old(header),
                    Ok((at, next)) => if reservation.offset_spec() != at || reservation.next_spec()
                        != next {
                        committed == Err::<(), Error>(Error::InvalidHeader) && *final(header)
                            == *old(header)
                    } else {
                        (committed is Ok ==> final(self).offset == next) && match T::storage_spec(
                            conf,
                        ) {
                            None => committed == Err::<(), Error>(Error::InvalidHeader)
                                && *final(header) == *old(header),
                            Some(storage) => exists|refused: Option<super::ProjectionError>|
                                {
                                    &&& #[trigger] super::admission(
                                        *old(header),
                                        *final(header),
                                        (old(self).area.map.start + at) as u64,
                                        conf,
                                        LayoutContext {
                                            region: old(self).area.region,
                                            offset: at,
                                            allow_init: old(self).area.allow_init,
                                        },
                                        old(self).area.member.slot,
                                        storage,
                                        refused,
                                    )
                                    &&& committed == reported(refused)
                                },
                        }
                    },
                }
            },
    {
        if self.poisoned {
            return Err(Error::PoisonedComposition);
        }
        let (at, next): (u64, u64) = match self.find_place::<T>() {
            Ok(place) => place,
            Err(error) => {
                self.poisoned = true;
                return Err(error);
            },
        };
        if at != reservation.offset || next != reservation.next {
            self.poisoned = true;
            return Err(Error::InvalidHeader);
        }
        let ctx = LayoutContext {
            region: self.area.region,
            offset: at,
            allow_init: self.area.allow_init,
        };
        let slot: u8 = self.area.member.slot;
        proof {
            if crate::header::layout::claimable(header.members, Some(slot)) is None {
                crate::header::layout::law_refused_member_leaves_no_trace(header.members, slot);
            }
        }
        let ghost before = *header;
        let ghost storage = T::storage_spec(conf);
        let ghost address = (self.area.map.start + at) as u64;
        match header.admit_at(self.area.map.start + at, conf, ctx, Some(slot)) {
            Ok(()) => {
                self.offset = next;
                proof {
                    assert(super::admission(
                        before,
                        *header,
                        address,
                        conf,
                        ctx,
                        slot,
                        storage->0,
                        None,
                    ));
                }
                Ok(())
            },
            Err(error) => {
                self.poisoned = true;
                proof {
                    if storage is Some {
                        assert(super::admission(
                            before,
                            *header,
                            address,
                            conf,
                            ctx,
                            slot,
                            storage->0,
                            Some(super::ProjectionError::Admission(error)),
                        ));
                    }
                }
                Err(Error::of_admission(error))
            },
        }
    }

    /// How far the region is used.
    pub fn finish(self) -> (offset: u64)
        ensures
            offset == self.offset,
    {
        self.offset
    }
}

/// How a refused projection is reported of a composition.
pub open spec fn reported(refused: Option<super::ProjectionError>) -> Result<(), Error> {
    match refused {
        Some(super::ProjectionError::Admission(error)) => Err(super::admission_error(error)),
        Some(_) => Err(Error::InvalidHeader),
        None => Ok(()),
    }
}

/// What composing the next layout does: a place that cannot be had leaves the
/// composition as it was, and a layout that does not admit the participant ends
/// it.
pub open spec fn pushes<T: Layout>(
    before: MapLayout,
    after: MapLayout,
    header: RcHeader<T>,
    admitted: RcHeader<T>,
    conf: T::Config,
    pushed: Result<(), Error>,
) -> bool {
    if before.poisoned {
        pushed == Err::<(), Error>(Error::PoisonedComposition) && admitted == header && after
            == before
    } else {
        match before.next_place::<T>() {
            Err(error) => pushed == Err::<(), Error>(error) && admitted == header && after
                == before,
            Ok((at, next)) => match T::storage_spec(conf) {
                None => {
                    &&& pushed == Err::<(), Error>(Error::InvalidHeader)
                    &&& admitted == header
                    &&& after == (MapLayout { poisoned: true, ..before })
                },
                Some(storage) => exists|refused: Option<super::ProjectionError>|
                    {
                        &&& #[trigger] super::admission(
                            header,
                            admitted,
                            (before.area.map.start + at) as u64,
                            conf,
                            LayoutContext {
                                region: before.area.region,
                                offset: at,
                                allow_init: before.area.allow_init,
                            },
                            before.area.member.slot,
                            storage,
                            refused,
                        )
                        &&& pushed == reported(refused)
                        &&& after == (if pushed is Ok {
                            MapLayout { offset: next, ..before }
                        } else {
                            MapLayout { poisoned: true, ..before }
                        })
                    },
            },
        }
    }
}

impl MapLayout {
    /// Composes the next layout and admits this participant to it.
    pub fn push<T: Layout>(&mut self, header: &mut RcHeader<T>, conf: T::Config) -> (pushed: Result<
        (),
        Error,
    >)
        requires
            old(self).wf(),
            old(header).wf(),
            crate::header::layout::header_fits(T::info_extent_spec(), T::body_spec()),
        ensures
            final(self).wf(),
            final(header).wf(),
            pushes(*old(self), *final(self), *old(header), *final(header), conf, pushed),
    {
        match self.reserve::<T>() {
            Ok(reservation) => self.commit(reservation, header, conf),
            Err(error) => Err(error),
        }
    }
}

/// Layouts that are composed one behind the other share no byte, and the later
/// begins at its alignment.
pub proof fn law_composed_layouts_are_disjoint(start: u64, len: u64, offset: u64, extent: Extent)
    requires
        extent.wf(),
    ensures
        super::placed(start, len, offset, extent) matches Ok((at, next)) ==> offset <= at && at
            + extent.size == next && next <= len && (start + at) % extent.align as int == 0,
{
    crate::extent::lemma_power_positive(extent.align as int);
    crate::numeric::lemma_align_up(start + offset, extent.align as int);
}

} // verus!
