//! Size and alignment of memory, and how extents are laid one after another.

use crate::numeric::{align_up, is_power_of_two};
use vstd::prelude::*;

verus! {

/// The largest size, rounded up to its alignment, that an extent may have.
pub const MAX_EXTENT: u64 = 0x7fff_ffff_ffff_ffff;

/// A number of bytes and the alignment of their first address.
#[derive(Clone, Copy, Debug, PartialEq, Eq, Structural)]
pub struct Extent {
    pub size: u64,
    pub align: u64,
}

/// Whether `size` bytes at an alignment of `align` are an extent at all.
pub open spec fn is_extent(size: int, align: int) -> bool {
    &&& crate::numeric::is_power_of_two_spec(align)
    &&& 0 <= size <= MAX_EXTENT + 1 - align
}

/// Where the next part starts behind `size` bytes.
pub open spec fn place(size: int, align: int) -> int {
    crate::numeric::align_up_spec(size, align)
}

pub open spec fn larger(a: u64, b: u64) -> u64 {
    if a < b {
        b
    } else {
        a
    }
}

impl Extent {
    pub open spec fn wf(self) -> bool {
        is_extent(self.size as int, self.align as int)
    }

    /// An extent of the given size and alignment, unless it is none.
    pub fn from_size_align(size: u64, align: u64) -> (extent: Option<Self>)
        ensures
            match extent {
                Some(found) => found == (Extent { size, align }) && found.wf(),
                None => !is_extent(size as int, align as int),
            },
    {
        if !is_power_of_two(align) {
            return None;
        }
        if align > MAX_EXTENT + 1 || size > MAX_EXTENT + 1 - align {
            return None;
        }
        Some(Extent { size, align })
    }

    /// The extent of one value of `T`.
    pub fn of<T>() -> (extent: Self)
        ensures
            extent.size == vstd::layout::size_of::<T>(),
            extent.align == vstd::layout::align_of::<T>(),
            extent.wf(),
    {
        vstd::layout::layout_for_type_is_valid::<T>();
        let size: usize = core::mem::size_of::<T>();
        let align: usize = core::mem::align_of::<T>();
        proof {
            lemma_room_below_limit(size as int, align as int, isize::MAX as int);
        }
        Extent { size: size as u64, align: align as u64 }
    }

    /// `count` values one after another; nothing where they are no extent.
    pub fn array(element: Extent, count: u64) -> (extent: Option<Self>)
        requires
            element.wf(),
        ensures
            match extent {
                Some(found) => found.wf() && found.size == element.size * count && found.align
                    == element.align,
                None => !is_extent(element.size * count, element.align as int),
            },
    {
        match element.size.checked_mul(count) {
            Some(size) => Extent::from_size_align(size, element.align),
            None => None,
        }
    }

    /// This extent with `next` behind it, and the offset of `next`.
    pub fn extend(self, next: Extent) -> (joined: Option<(Self, u64)>)
        requires
            self.wf(),
            next.wf(),
        ensures
            ({
                let offset = place(self.size as int, next.align as int);
                let align = larger(self.align, next.align);
                match joined {
                    Some((extent, at)) => {
                        &&& extent.wf()
                        &&& at == offset
                        &&& extent.size == offset + next.size
                        &&& extent.align == align
                    },
                    None => !is_extent(offset + next.size, align as int),
                }
            }),
    {
        proof {
            lemma_power_positive(next.align as int);
            lemma_power_positive(self.align as int);
            crate::numeric::lemma_align_up(self.size as int, next.align as int);
        }
        let align: u64 = if self.align < next.align {
            next.align
        } else {
            self.align
        };
        let offset: u64 = align_up(self.size, next.align);
        let size: u64 = match offset.checked_add(next.size) {
            Some(size) => size,
            None => return None,
        };
        match Extent::from_size_align(size, align) {
            Some(extent) => Some((extent, offset)),
            None => None,
        }
    }

    /// This extent with its size rounded up to its alignment.
    pub fn pad_to_align(self) -> (padded: Self)
        requires
            self.wf(),
        ensures
            padded.wf(),
            padded.align == self.align,
            padded.size == place(self.size as int, self.align as int),
    {
        proof {
            lemma_power_positive(self.align as int);
            crate::numeric::lemma_align_up(self.size as int, self.align as int);
            lemma_padded_stays_below(self.size as int, self.align as int);
        }
        Extent { size: align_up(self.size, self.align), align: self.align }
    }
}

pub proof fn lemma_power_positive(n: int)
    requires
        crate::numeric::is_power_of_two_spec(n),
    ensures
        n > 0,
{
    reveal(vstd::arithmetic::power2::is_pow2);
}

/// A power of two not above a power of two divides it.
pub proof fn lemma_power_divides(small: int, large: int)
    requires
        crate::numeric::is_power_of_two_spec(small),
        crate::numeric::is_power_of_two_spec(large),
        small <= large,
    ensures
        large % small == 0,
    decreases large,
{
    reveal(vstd::arithmetic::power2::is_pow2);
    if small == 1 {
    } else {
        lemma_power_divides(small / 2, large / 2);
        let s = small / 2;
        let l = large / 2;
        vstd::arithmetic::div_mod::lemma_fundamental_div_mod(l, s);
        let k = l / s;
        assert(large == small * k) by (nonlinear_arith)
            requires
                l == s * k,
                large == 2 * l,
                small == 2 * s,
        ;
        vstd::arithmetic::div_mod::lemma_mod_multiples_basic(k, small);
        assert(k * small == small * k) by (nonlinear_arith);
    }
}

pub proof fn lemma_padded_stays_below(size: int, align: int)
    requires
        is_extent(size, align),
    ensures
        place(size, align) <= MAX_EXTENT + 1 - align,
{
    lemma_power_positive(align);
    let limit: int = 0x8000000000000000;
    vstd::arithmetic::power2::lemma2_to64_rest();
    crate::numeric::lemma_pow2_is_power(63);
    lemma_power_divides(align, limit);
    crate::numeric::lemma_align_up(size, align);
    let top = limit - align;
    vstd::arithmetic::div_mod::lemma_mod_sub_multiples_vanish(limit, align);
    assert(top % align == 0);
    assert(top >= size);
}

proof fn lemma_room_below_limit(size: int, align: int, limit: int)
    requires
        crate::numeric::is_power_of_two_spec(align),
        limit == isize::MAX,
        0 <= size <= limit - limit % align,
        0 < align <= usize::MAX,
        size % align == 0,
    ensures
        size <= MAX_EXTENT + 1 - align,
{
    // Sizes are multiples of the alignment, and so is the power above the limit.
    let power = limit + 1;
    vstd::arithmetic::power2::lemma2_to64();
    vstd::arithmetic::power2::lemma2_to64_rest();
    crate::numeric::lemma_pow2_is_power(63);
    crate::numeric::lemma_pow2_is_power(31);
    assert(crate::numeric::is_power_of_two_spec(power));
    vstd::arithmetic::div_mod::lemma_mod_bound(limit, align);
    if align <= power {
        lemma_power_divides(align, power);
        vstd::arithmetic::div_mod::lemma_fundamental_div_mod(size, align);
        vstd::arithmetic::div_mod::lemma_fundamental_div_mod(power, align);
        let a = size / align;
        let b = power / align;
        assert(a <= b - 1) by (nonlinear_arith)
            requires
                size == align * a,
                power == align * b,
                size < power,
                align > 0,
        ;
        assert(size <= power - align) by (nonlinear_arith)
            requires
                size == align * a,
                power == align * b,
                a <= b - 1,
                align > 0,
        ;
    } else {
        lemma_power_divides(power, align);
        vstd::arithmetic::div_mod::lemma_fundamental_div_mod(align, power);
        let k = align / power;
        assert(align >= 2 * power) by (nonlinear_arith)
            requires
                align == power * k,
                align > power,
                power > 0,
        ;
    }
}

} // verus!
