//! Live values in the heap of a region.

use crate::extent::Extent;
use crate::talc::lock::{Meta, TalckMeta};
use crate::talc::mutation::MutationError;
use vstd::prelude::*;

verus! {

/// A value and the memory of the heap that is its own. A value of no bytes has
/// no memory.
#[must_use]
pub struct PBox<T> {
    value: T,
    meta: Meta,
    size: u64,
}

/// What taking memory for a value of this extent does: nothing for no bytes,
/// else an allocation, unless the heap is being changed or is poisoned.
pub open spec fn takes(
    before: TalckMeta,
    after: TalckMeta,
    layout: Extent,
    found: Result<Meta, MutationError>,
) -> bool {
    if layout.size == 0 {
        &&& found matches Ok(meta) && meta.start() == 0 && meta.size() == 0
        &&& after == before
    } else {
        match crate::talc::lock::mutation_refused(before.mutation) {
            Some(error) => found == Err::<Meta, MutationError>(error) && after == before,
            None => {
                &&& after.mutation == crate::talc::mutation::MUTATION_CLEAN
                &&& crate::talc::lock::allocates(before.talc, after.talc, layout, found)
            },
        }
    }
}

/// Takes memory for a value of this extent.
pub fn take(heap: &mut TalckMeta, owner: u8, layout: Extent) -> (found: Result<Meta, MutationError>)
    requires
        old(heap).wf(),
        layout.wf(),
    ensures
        final(heap).wf(),
        takes(*old(heap), *final(heap), layout, found),
{
    if layout.size == 0 {
        Ok(Meta::null())
    } else {
        heap.allocate(owner, layout)
    }
}

impl<T> PBox<T> {
    pub closed spec fn value_spec(self) -> T {
        self.value
    }

    pub closed spec fn meta_spec(self) -> Meta {
        self.meta
    }

    /// Bytes of the value.
    pub closed spec fn size_spec(self) -> u64 {
        self.size
    }

    /// The memory of the value is in use in the heap.
    pub open spec fn held(self, heap: TalckMeta) -> bool {
        self.size_spec() > 0 ==> crate::talc::lock::holds(heap.talc, self.meta_spec())
    }

    /// The value in memory that was taken for it.
    pub(crate) fn from_meta(value: T, meta: Meta, size: u64) -> (made: Self)
        ensures
            made.value_spec() == value,
            made.meta_spec() == meta,
            made.size_spec() == size,
    {
        PBox { value, meta, size }
    }

    /// The value.
    pub fn get(&self) -> (value: &T)
        ensures
            *value == self.value_spec(),
    {
        &self.value
    }

    /// Where the value lies, if it has memory.
    pub fn as_ptr(&self, heap: &TalckMeta) -> (address: Option<u64>)
        requires
            heap.wf(),
            self.held(*heap),
        ensures
            address == (if self.size_spec() == 0 {
                None
            } else {
                Some((heap.talc.base_spec() + self.meta_spec().start()) as u64)
            }),
    {
        if self.size == 0 {
            None
        } else {
            Some(heap.address(&self.meta))
        }
    }

    /// Puts another value in the place of this one.
    pub fn set(&mut self, value: T)
        ensures
            final(self).value_spec() == value,
            final(self).meta_spec() == old(self).meta_spec(),
            final(self).size_spec() == old(self).size_spec(),
    {
        self.value = value;
    }

    /// Drops the value and gives its memory back; where the heap is being
    /// changed, or is poisoned, the value stays.
    pub fn release(self, heap: &mut TalckMeta, owner: u8) -> (released: Result<(), Self>)
        requires
            old(heap).wf(),
            self.held(*old(heap)),
        ensures
            final(heap).wf(),
            if self.size_spec() == 0 {
                released is Ok && *final(heap) == *old(heap)
            } else {
                match crate::talc::lock::mutation_refused(old(heap).mutation) {
                    Some(_) => released == Err::<(), Self>(self) && *final(heap) == *old(heap),
                    None => {
                        &&& released is Ok
                        &&& final(heap).mutation == crate::talc::mutation::MUTATION_CLEAN
                        &&& crate::talc::lock::releases(
                            old(heap).talc,
                            final(heap).talc,
                            self.meta_spec(),
                        )
                    },
                }
            },
    {
        if self.size == 0 {
            return Ok(());
        }
        match heap.release_value(owner, self.meta) {
            Ok(()) => Ok(()),
            Err(meta) => Err(PBox { value: self.value, meta, size: self.size }),
        }
    }
}

} // verus!
