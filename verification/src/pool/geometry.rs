//! Size classes of a pool and where their words and blocks lie.

use crate::extent::Extent;
use crate::numeric::{checked_next_power_of_two, ilog2, two_to};
use crate::schema::{schema_id, LayoutInfo, SchemaKey, SharedSchema};
use vstd::prelude::*;

verus! {

pub const MIN_BLOCK: u64 = 64;

pub const DEFAULT_MAX: u64 = 65536;

/// Bytes of a pool's header.
pub const POOL_HEADER: u64 = 160;

/// The smallest and the largest block of a pool.
#[derive(Clone, Copy, Debug, PartialEq, Eq, Structural)]
pub struct BlockRange {
    pub(crate) min: u64,
    pub(crate) max: u64,
}

#[derive(Clone, Copy, Debug, PartialEq, Eq, Structural)]
pub struct RangeError;

/// The block size that serves a wish.
pub open spec fn block_size(wish: u64) -> nat {
    crate::numeric::power_at_least(
        if wish < MIN_BLOCK {
            MIN_BLOCK as nat
        } else {
            wish as nat
        },
    )
}

impl BlockRange {
    pub closed spec fn min_spec(self) -> u64 {
        self.min
    }

    pub closed spec fn max_spec(self) -> u64 {
        self.max
    }

    /// Both ends are powers of two of at least the smallest block, in order.
    pub open spec fn wf(self) -> bool {
        &&& MIN_BLOCK <= self.min_spec() <= self.max_spec()
        &&& crate::numeric::is_power_of_two_spec(self.min_spec() as int)
        &&& crate::numeric::is_power_of_two_spec(self.max_spec() as int)
    }

    /// The range of powers of two that covers `min` to `max`.
    pub fn new(min: u64, max: u64) -> (range: Result<Self, RangeError>)
        ensures
            match range {
                Ok(range) => range.wf() && range.min_spec() == block_size(min) && range.max_spec()
                    == block_size(max),
                Err(_) => block_size(min) > u64::MAX || block_size(max) > u64::MAX || block_size(
                    min,
                ) > block_size(max),
            },
    {
        proof {
            crate::numeric::lemma_power_at_least(
                if min < MIN_BLOCK {
                    MIN_BLOCK as nat
                } else {
                    min as nat
                },
            );
            crate::numeric::lemma_power_at_least(
                if max < MIN_BLOCK {
                    MIN_BLOCK as nat
                } else {
                    max as nat
                },
            );
        }
        let min: u64 = match checked_next_power_of_two(
            if min < MIN_BLOCK {
                MIN_BLOCK
            } else {
                min
            },
        ) {
            Some(min) => min,
            None => return Err(RangeError),
        };
        let max: u64 = match checked_next_power_of_two(
            if max < MIN_BLOCK {
                MIN_BLOCK
            } else {
                max
            },
        ) {
            Some(max) => max,
            None => return Err(RangeError),
        };
        if min <= max {
            Ok(BlockRange { min, max })
        } else {
            Err(RangeError)
        }
    }

    pub(crate) fn between(min: u64, max: u64) -> (range: Self)
        ensures
            range.min_spec() == min,
            range.max_spec() == max,
    {
        BlockRange { min, max }
    }

    pub fn min(self) -> (min: u64)
        ensures
            min == self.min_spec(),
    {
        self.min
    }

    pub fn max(self) -> (max: u64)
        ensures
            max == self.max_spec(),
    {
        self.max
    }
}

#[derive(Clone, Copy, Debug, PartialEq, Eq, Structural)]
pub enum PoolCreateError {
    InvalidExtent,
    RequiredExtent { required: u64, available: u64 },
    Storage,
}

/// What the header of a pool records.
#[derive(Clone, Copy, Debug, PartialEq, Eq, Structural)]
pub struct Info {
    pub min: u64,
    pub base: u64,
    pub classes: u64,
}

impl SharedSchema for Info {
    open spec fn schema_spec() -> SchemaKey {
        crate::msg::named("evering.pool.info")
    }

    fn schema() -> (key: SchemaKey) {
        SchemaKey::new(schema_id("evering.pool.info"), 1)
    }
}

impl LayoutInfo for Info {
    fn same(&self, other: &Self) -> (same: bool) {
        *self == *other
    }
}

#[derive(Clone, Copy, Debug, PartialEq, Eq, Structural)]
pub struct Config {
    pub info: Info,
    pub layout: Extent,
}

/// One size class: its blocks, how many there are, and where its authority
/// words and its blocks begin.
#[derive(Clone, Copy, Debug, PartialEq, Eq, Structural)]
pub struct Class {
    pub bytes: u64,
    pub slots: u64,
    pub controls: u64,
    pub payload: u64,
}

/// The size classes of a pool and the extent of the whole.
pub struct Geometry {
    pub layout: Extent,
    pub classes: Vec<Class>,
}

/// Classes that were laid out, and how far they reach.
pub ghost struct Laid {
    pub size: int,
    pub align: u64,
    pub classes: Seq<Class>,
}

/// Bytes of a block of class `i`, as a word holds them.
pub open spec fn class_bytes(min: u64, i: int) -> int {
    (min * vstd::arithmetic::power2::pow2(i as nat)) % 0x1_0000_0000_0000_0000
}

/// Blocks of class `i`: every second class halves them.
pub open spec fn class_slots(base: u64, i: int) -> int {
    base as int / vstd::arithmetic::power2::pow2((i / 2) as nat) as int
}

/// One more class behind those that were laid out: its authority words first,
/// then its blocks at a multiple of their size.
pub open spec fn lay(laid: Laid, bytes: int, slots: int) -> Option<Laid> {
    let controls = crate::extent::place(laid.size, 4);
    let words_end = controls + 4 * slots;
    let words_align = crate::extent::larger(laid.align, 4);
    let payload = crate::extent::place(words_end, bytes);
    let end = payload + bytes * slots;
    let align = crate::extent::larger(words_align, bytes as u64);
    if crate::extent::is_extent(4 * slots, 4) && crate::extent::is_extent(
        words_end,
        words_align as int,
    ) && crate::extent::is_extent(bytes * slots, bytes) && crate::extent::is_extent(
        end,
        align as int,
    ) {
        Some(
            Laid {
                size: end,
                align,
                classes: laid.classes.push(
                    Class {
                        bytes: bytes as u64,
                        slots: slots as u64,
                        controls: controls as u64,
                        payload: payload as u64,
                    },
                ),
            },
        )
    } else {
        None
    }
}

/// The first `count` classes, where they can be laid out.
pub open spec fn laid_out(min: u64, base: u64, count: nat) -> Option<Laid>
    decreases count,
{
    if count == 0 {
        Some(Laid { size: POOL_HEADER as int, align: 8, classes: Seq::empty() })
    } else {
        match laid_out(min, base, (count - 1) as nat) {
            None => None,
            Some(laid) => if count - 1 >= 64 {
                None
            } else {
                lay(laid, class_bytes(min, count - 1), class_slots(base, count - 1))
            },
        }
    }
}

/// The size of a pool with its end rounded up to its alignment.
pub open spec fn pool_size(laid: Laid) -> int {
    crate::extent::place(laid.size, laid.align as int)
}

/// Whether a pool of these classes fits into `bound` bytes.
pub open spec fn pool_fits(min: u64, count: nat, base: u64, bound: u64) -> bool {
    laid_out(min, base, count) is Some && pool_size(laid_out(min, base, count)->0) <= bound
}

/// Blocks of the smallest class that `count` classes need.
pub open spec fn least_base(count: int) -> int {
    64 * vstd::arithmetic::power2::pow2(((count - 1) / 2) as nat) as int
}

impl Geometry {
    /// This is the geometry of the given classes.
    pub open spec fn is_of(self, min: u64, count: nat, base: u64) -> bool {
        laid_out(min, base, count) matches Some(laid) && self.layout == (Extent {
            size: pool_size(laid) as u64,
            align: laid.align,
        }) && self.layout.size == pool_size(laid) && self.classes@ == laid.classes
            && self.layout.wf()
    }

    /// Lays out `count` classes from blocks of `min` bytes, `base` of them.
    pub fn build(min: u64, count: u32, base: u64) -> (built: Result<Self, PoolCreateError>)
        ensures
            match built {
                Ok(geometry) => geometry.is_of(min, count as nat, base),
                Err(error) => error == PoolCreateError::InvalidExtent && laid_out(
                    min,
                    base,
                    count as nat,
                ) is None,
            },
    {
        proof {
            crate::header::layout::lemma_small_alignments();
        }
        let mut layout = Extent { size: POOL_HEADER, align: 8 };
        let mut classes: Vec<Class> = Vec::new();
        let mut index: u32 = 0;
        assert(classes@ =~= laid_out(min, base, 0)->0.classes);
        while index < count
            invariant
                index <= count,
                layout.wf(),
                laid_out(min, base, index as nat) == Some(
                    Laid { size: layout.size as int, align: layout.align, classes: classes@ },
                ),
            decreases count - index,
        {
            let ghost laid = laid_out(min, base, index as nat)->0;
            let ghost next = laid_out(min, base, (index + 1) as nat);
            if index >= 64 {
                proof {
                    lemma_laid_out_prefix(min, base, (index + 1) as nat, count as nat);
                }
                return Err(PoolCreateError::InvalidExtent);
            }
            let bytes: u64 = min.wrapping_mul(two_to(index));
            let slots: u64 = base / two_to(index / 2);
            proof {
                assert(bytes == class_bytes(min, index as int));
                assert(slots == class_slots(base, index as int));
                crate::header::layout::lemma_small_alignments();
                crate::extent::lemma_power_positive(4);
            }
            let words = match Extent::array(Extent { size: 4, align: 4 }, slots) {
                Some(words) => words,
                None => {
                    proof {
                        lemma_laid_out_prefix(min, base, (index + 1) as nat, count as nat);
                    }
                    return Err(PoolCreateError::InvalidExtent);
                },
            };
            let (with_words, controls): (Extent, u64) = match layout.extend(words) {
                Some(joined) => joined,
                None => {
                    proof {
                        lemma_laid_out_prefix(min, base, (index + 1) as nat, count as nat);
                    }
                    return Err(PoolCreateError::InvalidExtent);
                },
            };
            let blocks = match bytes.checked_mul(slots) {
                Some(size) => Extent::from_size_align(size, bytes),
                None => None,
            };
            let blocks = match blocks {
                Some(blocks) => blocks,
                None => {
                    proof {
                        lemma_laid_out_prefix(min, base, (index + 1) as nat, count as nat);
                    }
                    return Err(PoolCreateError::InvalidExtent);
                },
            };
            let (with_blocks, payload): (Extent, u64) = match with_words.extend(blocks) {
                Some(joined) => joined,
                None => {
                    proof {
                        lemma_laid_out_prefix(min, base, (index + 1) as nat, count as nat);
                    }
                    return Err(PoolCreateError::InvalidExtent);
                },
            };
            layout = with_blocks;
            classes.push(Class { bytes, slots, controls, payload });
            index = index + 1;
        }
        Ok(Geometry { layout: layout.pad_to_align(), classes })
    }

    /// What is recorded of the pool.
    pub fn info(&self) -> (info: Info)
        requires
            self.classes@.len() > 0,
        ensures
            info == (Info {
                min: self.classes@[0].bytes,
                base: self.classes@[0].slots,
                classes: self.classes@.len() as u64,
            }),
    {
        let first = self.classes[0];
        Info { min: first.bytes, base: first.slots, classes: self.classes.len() as u64 }
    }

    /// The geometry that a header records, where its extent is the recorded
    /// one.
    pub fn recorded(info: Info, extent: u64) -> (geometry: Option<Self>)
        ensures
            match geometry {
                Some(geometry) => records(info, extent) && geometry.is_of(
                    info.min,
                    info.classes as nat,
                    info.base,
                ) && geometry.layout.size == extent && geometry.classes@.len() == info.classes
                    && info.classes > 0,
                None => !records(info, extent),
            },
    {
        if info.classes == 0 || info.classes > 0xffff_ffff {
            proof {
                if info.classes > 0xffff_ffff {
                    lemma_laid_out_limit(info.min, info.base, info.classes as nat);
                }
            }
            return None;
        }
        match Geometry::build(info.min, info.classes as u32, info.base) {
            Ok(geometry) => {
                proof {
                    lemma_laid_out_classes(info.min, info.base, info.classes as nat);
                }
                let found = geometry.info();
                if geometry.layout.size == extent {
                    assert(found == info);
                    Some(geometry)
                } else {
                    None
                }
            },
            Err(_) => None,
        }
    }

    pub fn config(&self) -> (config: Config)
        requires
            self.classes@.len() > 0,
        ensures
            config.layout == self.layout,
            config.info == (Info {
                min: self.classes@[0].bytes,
                base: self.classes@[0].slots,
                classes: self.classes@.len() as u64,
            }),
    {
        Config { info: self.info(), layout: self.layout }
    }

    /// The most blocks that `bound` bytes hold, in the most classes of the range
    /// that they hold at all. An explicit range is served whole or not at all.
    #[verifier::spinoff_prover]
    #[verifier::rlimit(20)]
    pub fn create(bound: u64, range: Option<BlockRange>) -> (created: Result<Self, PoolCreateError>)
        requires
            range matches Some(range) ==> range.wf(),
        ensures
            creates(bound, range, created),
    {
        let exact: bool = range.is_some();
        let (min, max): (u64, u64) = match range {
            Some(range) => (range.min, range.max),
            None => (MIN_BLOCK, DEFAULT_MAX),
        };
        proof {
            vstd::arithmetic::power2::lemma2_to64();
            crate::numeric::lemma_log2_monotone(min as nat, max as nat);
        }
        let mut count: u32 = ilog2(max) - ilog2(min) + 1;
        let ghost all = count as nat;
        loop
            invariant
                1 <= count <= all,
                all <= 64,
                all == range_count(range),
                min == range_min(range),
                exact == (range is Some),
                min >= MIN_BLOCK,
                exact ==> count == all,
                forall|more: nat|
                    count < more <= all ==> !#[trigger] pool_fits(
                        min,
                        more,
                        least_base(more as int) as u64,
                        bound,
                    ),
            decreases count,
        {
            proof {
                lemma_least_base(count as int);
            }
            let minimum: u64 = 64 * two_to((count - 1) / 2);
            let required = match Geometry::build(min, count, minimum) {
                Ok(required) => required,
                Err(error) => {
                    proof {
                        assert(laid_out(min, least_base(count as int) as u64, count as nat) is None);
                    }
                    return Err(error);
                },
            };
            if required.layout.size <= bound {
                let base: u64 = Self::most(min, count, minimum, bound);
                return match Geometry::build(min, count, base) {
                    Ok(geometry) => {
                        assert(geometry.is_of(min, count as nat, base));
                        Ok(geometry)
                    },
                    Err(error) => Err(error),
                };
            }
            assert(!pool_fits(min, count as nat, least_base(count as int) as u64, bound));
            if exact || count == 1 {
                return Err(
                    PoolCreateError::RequiredExtent {
                        required: required.layout.size,
                        available: bound,
                    },
                );
            }
            count = count - 1;
        }
    }

    /// The largest base that fits, found by halving; `minimum` is known to fit.
    fn most(min: u64, count: u32, minimum: u64, bound: u64) -> (base: u64)
        requires
            min >= MIN_BLOCK,
            1 <= count,
            pool_fits(min, count as nat, minimum, bound),
        ensures
            minimum <= base < u64::MAX,
            pool_fits(min, count as nat, base, bound),
            !pool_fits(min, count as nat, (base + 1) as u64, bound),
    {
        let mut low: u64 = minimum;
        let mut high: u64 = bound / (MIN_BLOCK + 1) + 1;
        proof {
            lemma_pool_needs(min, count as nat, minimum, bound);
            if pool_fits(min, count as nat, high, bound) {
                lemma_pool_needs(min, count as nat, high, bound);
            }
        }
        while low + 1 < high
            invariant
                minimum <= low < high,
                high < u64::MAX,
                pool_fits(min, count as nat, low, bound),
                !pool_fits(min, count as nat, high, bound),
            decreases high - low,
        {
            let middle: u64 = low + (high - low) / 2;
            let fits: bool = match Geometry::build(min, count, middle) {
                Ok(geometry) => geometry.layout.size <= bound,
                Err(_) => false,
            };
            if fits {
                low = middle;
            } else {
                high = middle;
            }
        }
        low
    }
}

/// What is created for a bound and a range: the most blocks, in the most classes
/// that fit; or why nothing is.
pub open spec fn creates(
    bound: u64,
    range: Option<BlockRange>,
    created: Result<Geometry, PoolCreateError>,
) -> bool {
    let min = range_min(range);
    let all = range_count(range);
    match created {
        Ok(geometry) => exists|count: nat, base: u64|
            {
                &&& #[trigger] geometry.is_of(min, count, base)
                &&& 1 <= count <= all
                &&& range is Some ==> count == all
                &&& least_base(count as int) <= base
                &&& pool_fits(min, count, base, bound)
                &&& !pool_fits(min, count, (base + 1) as u64, bound)
                &&& forall|more: nat|
                    count < more <= all ==> !#[trigger] pool_fits(
                        min,
                        more,
                        least_base(more as int) as u64,
                        bound,
                    )
            },
        Err(PoolCreateError::InvalidExtent) => exists|count: nat|
            1 <= count <= all && #[trigger] laid_out(
                min,
                least_base(count as int) as u64,
                count,
            ) is None,
        Err(PoolCreateError::RequiredExtent { required, available }) => {
            let count = if range is Some {
                all
            } else {
                1
            };
            &&& available == bound
            &&& laid_out(min, least_base(count as int) as u64, count) matches Some(laid)
                && required == pool_size(laid)
            &&& required > bound
        },
        Err(PoolCreateError::Storage) => false,
    }
}

/// A geometry that was created is one that a header can record.
pub proof fn lemma_created(bound: u64, range: Option<BlockRange>, geometry: Geometry)
    requires
        creates(bound, range, Ok::<Geometry, PoolCreateError>(geometry)),
    ensures
        geometry.classes@.len() > 0,
        geometry.layout.wf(),
        geometry.layout.size > 0,
{
    let (count, base) = choose|count: nat, base: u64|
        #[trigger] geometry.is_of(range_min(range), count, base) && 1 <= count;
    lemma_laid_out_classes(range_min(range), base, count);
    let laid = laid_out(range_min(range), base, count)->0;
    crate::extent::lemma_power_positive(laid.align as int);
    crate::numeric::lemma_align_up(laid.size, laid.align as int);
}

pub open spec fn range_min(range: Option<BlockRange>) -> u64 {
    match range {
        Some(range) => range.min_spec(),
        None => MIN_BLOCK,
    }
}

/// How many powers of two a range spans.
pub open spec fn range_count(range: Option<BlockRange>) -> nat {
    let (min, max) = match range {
        Some(range) => (range.min_spec(), range.max_spec()),
        None => (MIN_BLOCK, DEFAULT_MAX),
    };
    (crate::numeric::log2(max as nat) - crate::numeric::log2(min as nat) + 1) as nat
}

/// Whether a header's information and extent are those of a pool.
pub open spec fn records(info: Info, extent: u64) -> bool {
    &&& info.classes > 0
    &&& laid_out(info.min, info.base, info.classes as nat) matches Some(laid) && pool_size(laid)
        == extent
}

proof fn lemma_least_base(count: int)
    requires
        1 <= count <= 64,
    ensures
        64 <= least_base(count) <= 0x20_0000_0000,
{
    vstd::arithmetic::power2::lemma2_to64();
    vstd::arithmetic::power2::lemma_pow2_pos(((count - 1) / 2) as nat);
    crate::numeric::lemma_pow2_ordered(((count - 1) / 2) as nat, 31);
    assert(vstd::arithmetic::power2::pow2(31) == 0x80000000);
}

/// Classes that cannot be laid out keep more of them from being laid out.
proof fn lemma_laid_out_prefix(min: u64, base: u64, fewer: nat, more: nat)
    requires
        fewer <= more,
        laid_out(min, base, fewer) is None,
    ensures
        laid_out(min, base, more) is None,
    decreases more,
{
    if fewer < more {
        lemma_laid_out_prefix(min, base, fewer, (more - 1) as nat);
    }
}

proof fn lemma_laid_out_limit(min: u64, base: u64, count: nat)
    requires
        count > 64,
    ensures
        laid_out(min, base, count) is None,
{
    lemma_laid_out_prefix(min, base, 65, count);
}

/// What the classes of a pool are.
pub proof fn lemma_laid_out_classes(min: u64, base: u64, count: nat)
    requires
        laid_out(min, base, count) is Some,
    ensures
        ({
            let laid = laid_out(min, base, count)->0;
            &&& laid.classes.len() == count
            &&& count <= 64
            &&& laid.size >= POOL_HEADER
            &&& crate::extent::is_extent(laid.size, laid.align as int)
            &&& count > 0 ==> laid.classes[0].bytes == min && laid.classes[0].slots == base && min > 0
            &&& forall|i: int|
                0 <= i < count ==> (#[trigger] laid.classes[i]).bytes == class_bytes(min, i)
                    && laid.classes[i].slots == class_slots(base, i)
        }),
    decreases count,
{
    crate::header::layout::lemma_small_alignments();
    if count > 0 {
        let fewer = (count - 1) as nat;
        lemma_laid_out_classes(min, base, fewer);
        let before = laid_out(min, base, fewer)->0;
        let i = count - 1;
        let bytes = class_bytes(min, i);
        let slots = class_slots(base, i);
        let controls = crate::extent::place(before.size, 4);
        crate::numeric::lemma_align_up(before.size, 4);
        crate::extent::lemma_power_positive(bytes);
        lemma_slots(base, i);
        crate::numeric::lemma_align_up(controls + 4 * slots, bytes);
        assert(bytes * slots >= 0) by (nonlinear_arith)
            requires
                bytes >= 0,
                slots >= 0,
        ;
        if count == 1 {
            vstd::arithmetic::power2::lemma2_to64();
            assert(min * vstd::arithmetic::power2::pow2(0) == min) by (nonlinear_arith)
                requires
                    vstd::arithmetic::power2::pow2(0) == 1,
            ;
            assert(base as int / 1 == base);
        }
        let laid = laid_out(min, base, count)->0;
        assert forall|j: int| 0 <= j < count implies (#[trigger] laid.classes[j]).bytes
            == class_bytes(min, j) && laid.classes[j].slots == class_slots(base, j) by {
            if j < count - 1 {
                assert(laid.classes[j] == before.classes[j]);
            }
        }
        if count > 1 {
            assert(laid.classes[0] == before.classes[0]);
        }
    }
}

proof fn lemma_slots(base: u64, i: int)
    requires
        i >= 0,
    ensures
        0 <= class_slots(base, i) <= base,
{
    vstd::arithmetic::power2::lemma_pow2_pos((i / 2) as nat);
    let d = vstd::arithmetic::power2::pow2((i / 2) as nat) as int;
    vstd::arithmetic::div_mod::lemma_div_pos_is_pos(base as int, d);
    vstd::arithmetic::div_mod::lemma_div_is_ordered_by_denominator(base as int, 1, d);
    assert(base as int / 1 == base);
}

/// Every class has as many blocks as the fewest that there are of any.
pub proof fn lemma_least_slots(base: u64, count: int, c: int)
    requires
        1 <= count,
        least_base(count) <= base,
        0 <= c < count,
    ensures
        class_slots(base, c) >= 64,
{
    let d = vstd::arithmetic::power2::pow2((c / 2) as nat) as int;
    vstd::arithmetic::power2::lemma_pow2_pos((c / 2) as nat);
    crate::numeric::lemma_pow2_ordered((c / 2) as nat, ((count - 1) / 2) as nat);
    vstd::arithmetic::div_mod::lemma_div_multiples_vanish(64, d);
    assert(64 * d <= base);
    vstd::arithmetic::div_mod::lemma_div_is_ordered(d * 64, base as int, d);
}

/// Where two classes of one pool lie: behind the header, in order, blocks at a
/// multiple of their size.
pub proof fn law_classes_are_disjoint(min: u64, base: u64, count: nat, i: int, j: int)
    requires
        laid_out(min, base, count) is Some,
        0 <= i <= j < count,
    ensures
        ({
            let laid = laid_out(min, base, count)->0;
            let a = laid.classes[i];
            let b = laid.classes[j];
            &&& POOL_HEADER <= a.controls
            &&& a.controls % 4 == 0
            &&& a.controls + 4 * a.slots <= a.payload
            &&& a.bytes > 0
            &&& a.payload as int % a.bytes as int == 0
            &&& i < j ==> a.payload + a.bytes * a.slots <= b.controls
            &&& b.payload + b.bytes * b.slots <= pool_size(laid)
        }),
    decreases count,
{
    lemma_laid_out_classes(min, base, count);
    crate::header::layout::lemma_small_alignments();
    let fewer = (count - 1) as nat;
    lemma_laid_out_classes(min, base, fewer);
    let before = laid_out(min, base, fewer)->0;
    let laid = laid_out(min, base, count)->0;
    let k = count - 1;
    let bytes = class_bytes(min, k);
    let slots = class_slots(base, k);
    let controls = crate::extent::place(before.size, 4);
    crate::numeric::lemma_align_up(before.size, 4);
    crate::extent::lemma_power_positive(bytes);
    lemma_slots(base, k);
    crate::numeric::lemma_align_up(controls + 4 * slots, bytes);
    assert(bytes * slots >= 0) by (nonlinear_arith)
        requires
            bytes >= 0,
            slots >= 0,
    ;
    crate::extent::lemma_power_positive(laid.align as int);
    crate::numeric::lemma_align_up(laid.size, laid.align as int);
    if j < k {
        crate::extent::lemma_power_positive(before.align as int);
        crate::numeric::lemma_align_up(before.size, before.align as int);
        law_classes_are_disjoint_inside(min, base, fewer, i, j);
        assert(laid.classes[i] == before.classes[i]);
        assert(laid.classes[j] == before.classes[j]);
    } else if i < k {
        law_classes_are_disjoint_inside(min, base, fewer, i, fewer - 1);
        assert(laid.classes[i] == before.classes[i]);
    }
}

/// As above, with the end of the last class before it is rounded up.
proof fn law_classes_are_disjoint_inside(min: u64, base: u64, count: nat, i: int, j: int)
    requires
        laid_out(min, base, count) is Some,
        0 <= i <= j < count,
    ensures
        ({
            let laid = laid_out(min, base, count)->0;
            let a = laid.classes[i];
            let b = laid.classes[j];
            &&& POOL_HEADER <= a.controls
            &&& a.controls % 4 == 0
            &&& a.controls + 4 * a.slots <= a.payload
            &&& a.bytes > 0
            &&& a.payload as int % a.bytes as int == 0
            &&& i < j ==> a.payload + a.bytes * a.slots <= b.controls
            &&& b.payload + b.bytes * b.slots <= laid.size
            &&& a.payload + a.bytes * a.slots <= laid.size
        }),
    decreases count,
{
    lemma_laid_out_classes(min, base, count);
    crate::header::layout::lemma_small_alignments();
    let fewer = (count - 1) as nat;
    lemma_laid_out_classes(min, base, fewer);
    let before = laid_out(min, base, fewer)->0;
    let laid = laid_out(min, base, count)->0;
    let k = count - 1;
    let bytes = class_bytes(min, k);
    let slots = class_slots(base, k);
    let controls = crate::extent::place(before.size, 4);
    crate::numeric::lemma_align_up(before.size, 4);
    crate::extent::lemma_power_positive(bytes);
    lemma_slots(base, k);
    crate::numeric::lemma_align_up(controls + 4 * slots, bytes);
    assert(bytes * slots >= 0) by (nonlinear_arith)
        requires
            bytes >= 0,
            slots >= 0,
    ;
    if j < k {
        law_classes_are_disjoint_inside(min, base, fewer, i, j);
        assert(laid.classes[i] == before.classes[i]);
        assert(laid.classes[j] == before.classes[j]);
    } else if i < k {
        law_classes_are_disjoint_inside(min, base, fewer, i, fewer - 1);
        assert(laid.classes[i] == before.classes[i]);
    }
}

/// A pool needs more than its smallest blocks.
proof fn lemma_pool_needs(min: u64, count: nat, base: u64, bound: u64)
    requires
        min >= MIN_BLOCK,
        count >= 1,
        pool_fits(min, count, base, bound),
    ensures
        (MIN_BLOCK + 1) * base < bound,
        base < bound / 65 + 1,
{
    law_classes_are_disjoint(min, base, count, 0, 0);
    law_classes_are_disjoint(min, base, count, 0, count - 1);
    lemma_laid_out_classes(min, base, count);
    assert(min * base >= 64 * base) by (nonlinear_arith)
        requires
            min >= 64,
            base >= 0,
    ;
    let laid = laid_out(min, base, count)->0;
    let a = laid.classes[0];
    let b = laid.classes[count - 1];
    assert(b.bytes * b.slots >= 0) by (nonlinear_arith)
        requires
            b.bytes >= 0,
            b.slots >= 0,
    ;
}

/// The blocks of each class are twice as large as those of the one before.
pub open spec fn graded(classes: Seq<Class>) -> bool {
    forall|c: int|
        0 <= c < classes.len() ==> (#[trigger] classes[c]).bytes == vstd::arithmetic::power2::pow2(
            (crate::numeric::log2(classes[0].bytes as nat) + c) as nat,
        )
}

/// Classes that were laid out are graded.
pub proof fn law_classes_are_graded(min: u64, base: u64, count: nat)
    requires
        laid_out(min, base, count) is Some,
    ensures
        graded((laid_out(min, base, count)->0).classes),
    decreases count,
{
    lemma_laid_out_classes(min, base, count);
    let classes = (laid_out(min, base, count)->0).classes;
    if count > 0 {
        let a = crate::numeric::log2(min as nat);
        assert forall|c: int| 0 <= c < count implies (#[trigger] classes[c]).bytes
            == vstd::arithmetic::power2::pow2((a + c) as nat) by {
            lemma_class_bytes(min, base, count, c);
        }
    }
}

proof fn lemma_class_bytes(min: u64, base: u64, count: nat, c: int)
    requires
        laid_out(min, base, count) is Some,
        0 <= c < count,
    ensures
        class_bytes(min, c) == vstd::arithmetic::power2::pow2(
            (crate::numeric::log2(min as nat) + c) as nat,
        ),
        crate::numeric::is_power_of_two_spec(class_bytes(min, c)),
    decreases count,
{
    if c < count - 1 {
        lemma_class_bytes(min, base, (count - 1) as nat, c);
    } else {
        let a = crate::numeric::log2(min as nat);
        let bytes = class_bytes(min, c);
        assert(crate::numeric::is_power_of_two_spec(bytes));
        crate::extent::lemma_power_positive(bytes);
        vstd::arithmetic::power2::lemma2_to64();
        vstd::arithmetic::power2::lemma2_to64_rest();
        if c == 0 {
            assert(min * vstd::arithmetic::power2::pow2(0) == min) by (nonlinear_arith)
                requires
                    vstd::arithmetic::power2::pow2(0) == 1,
            ;
            crate::numeric::lemma_power_of_log2(min as nat);
        } else {
            lemma_class_bytes(min, base, (count - 1) as nat, 0);
            assert(min * vstd::arithmetic::power2::pow2(0) == min) by (nonlinear_arith)
                requires
                    vstd::arithmetic::power2::pow2(0) == 1,
            ;
            crate::numeric::lemma_power_of_log2(min as nat);
            let n = c as nat;
            vstd::arithmetic::power2::lemma_pow2_adds(a, n);
            let whole = vstd::arithmetic::power2::pow2(a + n) as int;
            assert(min * vstd::arithmetic::power2::pow2(n) == whole);
            if a + n >= 64 {
                let rest = (a + n - 64) as nat;
                vstd::arithmetic::power2::lemma_pow2_adds(64, rest);
                assert(whole == 0x1_0000_0000_0000_0000
                    * vstd::arithmetic::power2::pow2(rest) as int);
                vstd::arithmetic::div_mod::lemma_mod_multiples_basic(
                    vstd::arithmetic::power2::pow2(rest) as int,
                    0x1_0000_0000_0000_0000,
                );
                assert(whole % 0x1_0000_0000_0000_0000 == 0) by {
                    assert(0x1_0000_0000_0000_0000
                        * vstd::arithmetic::power2::pow2(rest) as int
                        == vstd::arithmetic::power2::pow2(rest) as int
                        * 0x1_0000_0000_0000_0000);
                }
                assert(false);
            } else {
                crate::numeric::lemma_pow2_ordered(a + n, 63);
                vstd::arithmetic::div_mod::lemma_small_mod(
                    whole as nat,
                    0x1_0000_0000_0000_0000,
                );
            }
        }
    }
}

} // verus!
