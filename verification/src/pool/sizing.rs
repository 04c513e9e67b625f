//! What holds of how the classes of a pool are counted and laid out.

use super::geometry::{Info, Laid};
use super::storage::{ReserveError, StorageView};
use vstd::prelude::*;

verus! {

/// The two smallest classes have all the blocks that a pool begins with, and every
/// class has half as many as the one two before it.
pub proof fn law_every_second_class_has_half_the_blocks(base: u64, i: int)
    requires
        0 <= i,
    ensures
        super::geometry::class_slots(base, 0) == base,
        super::geometry::class_slots(base, 1) == base,
        super::geometry::class_slots(base, i + 2) == super::geometry::class_slots(base, i) / 2,
{
    vstd::arithmetic::power2::lemma2_to64();
    assert((0int / 2) as nat == 0 && (1int / 2) as nat == 0);
    assert(vstd::arithmetic::power2::pow2(0) == 1);
    assert(base as int / 1 == base as int);
    let k = (i / 2) as nat;
    let p = vstd::arithmetic::power2::pow2(k) as int;
    vstd::arithmetic::power2::lemma_pow2_pos(k);
    vstd::arithmetic::power2::lemma_pow2_unfold(k + 1);
    assert((i + 2) / 2 == k + 1);
    vstd::arithmetic::div_mod::lemma_div_denominator(base as int, p, 2);
    assert(p * 2 == 2 * p);
}

/// A class lies right behind the classes before it: its words at the next place for
/// words, its blocks at the next multiple of their size, and the next class begins
/// where they end. No room is left but what alignment asks for.
pub proof fn law_classes_lie_close(laid: Laid, bytes: int, slots: int)
    requires
        laid.size >= 0,
        laid.size <= crate::extent::MAX_EXTENT,
        bytes > 0,
        slots >= 0,
    ensures
        super::geometry::lay(laid, bytes, slots) matches Some(more) ==> {
            let class = more.classes.last();
            &&& more.classes.drop_last() == laid.classes
            &&& class.bytes == bytes
            &&& class.slots == slots
            &&& laid.size <= class.controls < laid.size + 4
            &&& class.controls as int % 4 == 0
            &&& class.controls + 4 * slots <= class.payload
            &&& class.payload < class.controls + 4 * slots + bytes
            &&& class.payload as int % bytes == 0
            &&& more.size == class.payload + slots * bytes
            &&& more.align >= laid.align
            &&& more.align >= 4
            &&& more.align >= bytes
        },
{
    if super::geometry::lay(laid, bytes, slots) is Some {
        let controls = crate::extent::place(laid.size, 4);
        crate::numeric::lemma_align_up(laid.size, 4);
        crate::numeric::lemma_align_up(controls + 4 * slots, bytes);
        crate::extent::lemma_power_positive(bytes);
        let more = super::geometry::lay(laid, bytes, slots)->0;
        assert(more.classes.drop_last() =~= laid.classes);
        assert(bytes * slots == slots * bytes) by (nonlinear_arith);
        assert(bytes * slots >= 0) by (nonlinear_arith)
            requires
                bytes > 0,
                slots >= 0,
        ;
        assert(bytes * slots >= bytes || slots == 0) by (nonlinear_arith)
            requires
                bytes > 0,
                slots >= 0,
        ;
    }
}

/// A pool takes what its classes take, rounded up to its alignment.
pub proof fn law_pools_take_what_their_classes_take(laid: Laid)
    requires
        laid.size >= 0,
        laid.align > 0,
    ensures
        laid.size <= super::geometry::pool_size(laid) < laid.size + laid.align,
        super::geometry::pool_size(laid) % laid.align as int == 0,
{
    crate::numeric::lemma_align_up(laid.size, laid.align as int);
}

/// What a pool records fixes how large it is, and no pool is without classes.
pub proof fn law_records_fix_the_extent(info: Info, extent: u64, other: u64)
    ensures
        super::geometry::records(info, extent) && super::geometry::records(info, other) ==> extent
            == other,
        super::geometry::records(info, extent) ==> info.classes > 0 && (super::geometry::laid_out(
            info.min,
            info.base,
            info.classes as nat,
        ) matches Some(laid) && laid.size <= extent),
{
    if super::geometry::records(info, extent) {
        let laid = super::geometry::laid_out(info.min, info.base, info.classes as nat)->0;
        lemma_laid(info.min, info.base, info.classes as nat);
        law_pools_take_what_their_classes_take(laid);
    }
}

proof fn lemma_laid(min: u64, base: u64, count: nat)
    ensures
        super::geometry::laid_out(min, base, count) matches Some(laid) ==> laid.size >= 0
            && laid.align > 0,
{
}

/// Values that make no extent are too large for every pool, and values that take no
/// bytes are refused by none.
pub proof fn law_slices_are_refused_as_their_extents<T>(storage: StorageView, len: usize)
    ensures
        super::block::slice_extent::<T>(len) is None ==> super::block::slice_error::<T>(
            storage,
            len,
        ) == Some(ReserveError::BlockTooLarge(())),
        super::block::slice_extent::<T>(len) matches Some(extent) ==> {
            &&& extent.size == len * crate::token::extent_of::<T>().size
            &&& super::block::slice_error::<T>(storage, len) == super::storage::claim_error(
                storage,
                extent,
            )
            &&& extent.size == 0 ==> super::block::slice_error::<T>(storage, len) is None
        },
{
    crate::token::law_slices_are_laid_out_as_their_elements::<T>(len);
}

} // verus!
