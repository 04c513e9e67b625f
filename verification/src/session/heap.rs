//! The heap of a session, for values that stay in the region.

use super::Session;
use crate::boxed::{take, PBox};
use crate::extent::Extent;
use crate::msg::Repr;
use crate::talc::lock::{Meta, TalckMeta};
use crate::talc::mutation::MutationError;
use vstd::prelude::*;

verus! {

/// A participant's way to the heap.
#[derive(Clone, Copy, Debug, PartialEq, Eq)]
pub struct GeneralHeap {
    owner: u8,
}

/// Why a value is not put; the value goes back.
pub struct PutError<T> {
    pub error: MutationError,
    pub value: T,
}

impl Session {
    /// The heap of this session.
    pub fn heap(&self) -> (heap: GeneralHeap)
        ensures
            heap.owner_spec() == self.region_spec().member.slot,
    {
        GeneralHeap { owner: self.region.member.slot }
    }
}

/// The extent of `len` values of a type, where there is one.
pub open spec fn slice_extent<T>(len: usize) -> Option<Extent> {
    let element = crate::token::extent_of::<T>();
    if crate::extent::is_extent(element.size * len, element.align as int) {
        Some(Extent { size: (element.size * len) as u64, align: element.align })
    } else {
        None
    }
}

/// What taking memory for `len` values does.
pub open spec fn takes_slice<T>(
    before: TalckMeta,
    after: TalckMeta,
    len: usize,
    found: Result<Meta, MutationError>,
) -> bool {
    match slice_extent::<T>(len) {
        None => found == Err::<Meta, MutationError>(MutationError::LayoutOverflow) && after
            == before,
        Some(layout) => crate::boxed::takes(before, after, layout, found),
    }
}

impl GeneralHeap {
    pub closed spec fn owner_spec(self) -> u8 {
        self.owner
    }

    fn uninit_slice<T>(&self, heap: &mut TalckMeta, len: usize) -> (found: Result<
        (Meta, u64),
        MutationError,
    >)
        requires
            old(heap).wf(),
        ensures
            final(heap).wf(),
            takes_slice::<T>(
                *old(heap),
                *final(heap),
                len,
                match found {
                    Ok((meta, _)) => Ok(meta),
                    Err(error) => Err(error),
                },
            ),
            found matches Ok((_, size)) ==> slice_extent::<T>(len) matches Some(layout)
                && layout.size == size,
    {
        let element = Extent::of::<T>();
        match Extent::array(element, len as u64) {
            None => Err(MutationError::LayoutOverflow),
            Some(layout) => match take(heap, self.owner, layout) {
                Ok(meta) => Ok((meta, layout.size)),
                Err(error) => Err(error),
            },
        }
    }

    /// Puts a value into the heap.
    pub fn put<T: Repr>(&self, heap: &mut TalckMeta, value: T) -> (put: Result<
        PBox<T>,
        PutError<T>,
    >)
        requires
            old(heap).wf(),
        ensures
            final(heap).wf(),
            crate::boxed::takes(
                *old(heap),
                *final(heap),
                crate::token::extent_of::<T>(),
                match put {
                    Ok(boxed) => Ok(boxed.meta_spec()),
                    Err(refused) => Err(refused.error),
                },
            ),
            match put {
                Ok(boxed) => boxed.value_spec() == value && boxed.size_spec()
                    == crate::token::extent_of::<T>().size && boxed.held(*final(heap)),
                Err(refused) => refused.value == value,
            },
    {
        let layout = Extent::of::<T>();
        match take(heap, self.owner, layout) {
            Ok(meta) => Ok(PBox::from_meta(value, meta, layout.size)),
            Err(error) => Err(PutError { error, value }),
        }
    }

    /// Copies values into the heap.
    pub fn copy<T: Repr + Copy>(&self, heap: &mut TalckMeta, values: &[T]) -> (put: Result<
        PBox<Vec<T>>,
        MutationError,
    >)
        requires
            old(heap).wf(),
        ensures
            final(heap).wf(),
            takes_slice::<T>(
                *old(heap),
                *final(heap),
                values.len(),
                match put {
                    Ok(boxed) => Ok(boxed.meta_spec()),
                    Err(error) => Err(error),
                },
            ),
            put matches Ok(boxed) ==> boxed.value_spec()@ == values@ && boxed.held(*final(heap))
                && boxed.size_spec() == (slice_extent::<T>(values.len())->0).size,
    {
        let (meta, size) = match self.uninit_slice::<T>(heap, values.len()) {
            Ok(found) => found,
            Err(error) => return Err(error),
        };
        let mut copied: Vec<T> = Vec::new();
        let mut i: usize = 0;
        while i < values.len()
            invariant
                i <= values@.len(),
                copied@ == values@.subrange(0, i as int),
            decreases values@.len() - i,
        {
            copied.push(values[i]);
            i = i + 1;
            assert(copied@ =~= values@.subrange(0, i as int));
        }
        assert(values@.subrange(0, values@.len() as int) =~= values@);
        Ok(PBox::from_meta(copied, meta, size))
    }

    /// Makes `len` values in the heap, each from its index.
    pub fn init<T: Repr, F: Fn(usize) -> T>(&self, heap: &mut TalckMeta, len: usize, make: F) -> (
    put: Result<PBox<Vec<T>>, MutationError>)
        requires
            old(heap).wf(),
            forall|i: usize| i < len ==> #[trigger] call_requires(make, (i,)),
        ensures
            final(heap).wf(),
            takes_slice::<T>(
                *old(heap),
                *final(heap),
                len,
                match put {
                    Ok(boxed) => Ok(boxed.meta_spec()),
                    Err(error) => Err(error),
                },
            ),
            put matches Ok(boxed) ==> {
                &&& boxed.value_spec()@.len() == len
                &&& forall|i: usize|
                    i < len ==> call_ensures(make, (i,), #[trigger] boxed.value_spec()@[i as int])
                &&& boxed.held(*final(heap))
                &&& boxed.size_spec() == (slice_extent::<T>(len)->0).size
            },
    {
        let (meta, size) = match self.uninit_slice::<T>(heap, len) {
            Ok(found) => found,
            Err(error) => return Err(error),
        };
        let mut made: Vec<T> = Vec::new();
        let mut i: usize = 0;
        while i < len
            invariant
                i <= len,
                made@.len() == i,
                forall|k: usize| k < len ==> #[trigger] call_requires(make, (k,)),
                forall|k: usize| k < i ==> call_ensures(make, (k,), #[trigger] made@[k as int]),
            decreases len - i,
        {
            made.push(make(i));
            i = i + 1;
        }
        Ok(PBox::from_meta(made, meta, size))
    }
}

/// A value that was put and released leaves the heap's allocations as they were.
pub proof fn law_released_values_leave_nothing(
    before: TalckMeta,
    middle: TalckMeta,
    after: TalckMeta,
    layout: Extent,
    meta: Meta,
)
    requires
        before.wf(),
        layout.size > 0,
        crate::boxed::takes(before, middle, layout, Ok::<Meta, MutationError>(meta)),
        crate::talc::lock::releases(middle.talc, after.talc, meta),
    ensures
        after.talc.live() =~= before.talc.live(),
{
}

/// Memory is refused for the reason that there is, and a refusal leaves the heap as
/// it was: another participant is changing the heap, and is named; it is poisoned;
/// or it has no room. What takes no bytes is never refused.
pub proof fn law_memory_is_refused_for_a_reason(
    before: TalckMeta,
    after: TalckMeta,
    layout: Extent,
    found: Result<Meta, MutationError>,
    owner: u8,
)
    requires
        crate::boxed::takes(before, after, layout, found),
    ensures
        layout.size == 0 ==> found is Ok && after == before,
        layout.size > 0 && before.mutation == crate::talc::mutation::owner_word_spec(owner)
            ==> found == Err::<Meta, MutationError>(MutationError::Busy(owner)) && after == before,
        layout.size > 0 && before.mutation == crate::talc::mutation::MUTATION_POISONED ==> found
            == Err::<Meta, MutationError>(MutationError::Poisoned) && after == before,
        layout.size > 0 && before.mutation == crate::talc::mutation::MUTATION_CLEAN ==> {
            &&& found matches Err(error) ==> error == MutationError::Exhausted
            &&& found matches Ok(meta) ==> meta.size() == layout.size
            &&& after.mutation == before.mutation
        },
        found is Err ==> after.talc == before.talc,
{
}

/// Values that make no extent are refused as that, whatever the heap holds; all
/// others are refused as their extent is.
pub proof fn law_slices_are_refused_as_their_extent<T>(
    before: TalckMeta,
    after: TalckMeta,
    len: usize,
    found: Result<Meta, MutationError>,
)
    requires
        takes_slice::<T>(before, after, len, found),
    ensures
        ({
            let element = crate::token::extent_of::<T>();
            let makes = crate::extent::is_extent(element.size * len, element.align as int);
            &&& !makes ==> found == Err::<Meta, MutationError>(MutationError::LayoutOverflow)
                && after == before
            &&& makes ==> crate::boxed::takes(
                before,
                after,
                Extent { size: (element.size * len) as u64, align: element.align },
                found,
            )
        }),
{
}

} // verus!
