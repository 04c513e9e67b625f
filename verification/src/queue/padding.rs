//! The lines that keep the cursors of a ring apart.

use crate::extent::Extent;
use core::sync::atomic::AtomicUsize;
use crossbeam_utils::CachePadded;
use vstd::prelude::*;

verus! {

/// A value of `crossbeam_utils`, padded to the cache lines of the target.
#[verifier::external_type_specification]
#[verifier::external_body]
#[verifier::reject_recursive_types(T)]
pub struct ExCachePadded<T>(CachePadded<T>);

/// Bytes of the line that one cursor lies on.
pub open spec fn line_spec() -> u64 {
    vstd::layout::align_of::<CachePadded<AtomicUsize>>() as u64
}

/// Bytes of the line that `crossbeam_utils::CachePadded` gives an `AtomicUsize`,
/// as `core::mem::align_of` tells them. The crate takes them from the target, and
/// no target has lines of fewer than 16 or more than 256 bytes. The word takes no
/// more than one line, so the padded word is as large as it is aligned.
#[verifier::external_body]
fn padded_align() -> (align: u64)
    ensures
        align == vstd::layout::align_of::<CachePadded<AtomicUsize>>(),
        align == vstd::layout::size_of::<CachePadded<AtomicUsize>>(),
        16 <= align <= 256,
{
    core::mem::align_of::<CachePadded<AtomicUsize>>() as u64
}

/// The line of this target.
pub fn line() -> (extent: Extent)
    ensures
        extent == (Extent { size: line_spec(), align: line_spec() }),
        extent.size == vstd::layout::size_of::<CachePadded<AtomicUsize>>(),
        16 <= line_spec() <= 256,
        extent.wf(),
{
    let align: u64 = padded_align();
    vstd::layout::layout_for_type_is_valid::<CachePadded<AtomicUsize>>();
    Extent { size: align, align }
}

} // verus!
