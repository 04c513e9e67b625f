//! Size classes of the general heap.

use crate::numeric::{ilog2, two_to};
use vstd::prelude::*;

verus! {

/// The smallest chunk: a free-list node and the tag behind it.
pub const MIN_CHUNK_SIZE: u64 = 32;

/// Metadata that every heap may spend.
pub const MIN_METADATA: u64 = 512;

/// Metadata that no heap may exceed.
pub const MAX_METADATA: u64 = 16384;

/// A heap spends one byte of metadata on this many bytes.
pub const METADATA_RATIO: u64 = 1024;

pub const MIN_LINEAR_SHIFT: u8 = 4;

pub const MAX_DIVISIONS_LOG: u8 = 3;

pub const DEFAULT_EXPONENTIAL_LOG: u8 = 10;

/// Bits that one bin is budgeted: a nullable relative head takes two words of
/// 64 bits in the portable format, and one availability bit.
pub const CANONICAL_BIN_BITS: u64 = 129;

/// Bytes of a nullable relative bin head.
pub const LINK_SIZE: u64 = 16;

/// Bytes of a word.
pub const WORD_SIZE: u64 = 8;

pub const WORD_BITS: u64 = 64;

#[derive(Clone, Copy, Debug, PartialEq, Eq, Structural)]
pub enum GeometryError {
    TooSmall,
    TooManyBins,
    Invalid,
}

/// Immutable size-class geometry that every participant of one heap shares.
#[derive(Clone, Copy, Debug, PartialEq, Eq, Structural)]
pub struct Geometry {
    pub(crate) bins: u16,
    pub(crate) linear: u16,
    pub(crate) linear_shift: u8,
    pub(crate) exponential_log: u8,
    pub(crate) divisions_log: u8,
    pub(crate) reserved: u8,
}

pub open spec fn div_ceil_spec(n: int, d: int) -> int {
    (n + d - 1) / d
}

/// Bytes of metadata that a heap of `extent` bytes may spend.
pub open spec fn budget_spec(extent: int) -> int {
    let share = extent / METADATA_RATIO as int;
    if share < MIN_METADATA {
        MIN_METADATA as int
    } else if share > MAX_METADATA {
        MAX_METADATA as int
    } else {
        share
    }
}

/// Bins that the budget of an extent pays for.
pub open spec fn max_bins_spec(extent: int) -> int {
    let paid = budget_spec(extent) * 8 / CANONICAL_BIN_BITS as int;
    if paid < 4096 {
        paid
    } else {
        4096
    }
}

pub open spec fn min_int(a: int, b: int) -> int {
    if a < b {
        a
    } else {
        b
    }
}

/// Bytes of `bins` heads and their availability words.
pub open spec fn metadata_spec(bins: int) -> int {
    bins * LINK_SIZE + div_ceil_spec(bins, WORD_BITS as int) * WORD_SIZE
}

/// Bins of the geometry with the given shape that reaches the octave `max_log`.
pub open spec fn shaped(
    max_log: int,
    linear_shift: int,
    exponential_log: int,
    divisions_log: int,
) -> int {
    vstd::arithmetic::power2::pow2((exponential_log - linear_shift) as nat) + (max_log
        - exponential_log + 1) * vstd::arithmetic::power2::pow2(divisions_log as nat)
}

impl Geometry {
    pub closed spec fn bins_spec(self) -> int {
        self.bins as int
    }

    pub closed spec fn linear_spec(self) -> int {
        self.linear as int
    }

    pub closed spec fn linear_shift_spec(self) -> int {
        self.linear_shift as int
    }

    pub closed spec fn exponential_log_spec(self) -> int {
        self.exponential_log as int
    }

    pub closed spec fn divisions_log_spec(self) -> int {
        self.divisions_log as int
    }

    /// What is kept for later revisions.
    pub closed spec fn reserved_spec(self) -> int {
        self.reserved as int
    }

    /// Classes in each octave.
    pub open spec fn divisions_spec(self) -> int {
        vstd::arithmetic::power2::pow2(self.divisions_log_spec() as nat) as int
    }

    /// The size where classes stop growing linearly.
    pub open spec fn exponential_start(self) -> int {
        vstd::arithmetic::power2::pow2(self.exponential_log_spec() as nat) as int
    }

    /// The class that a size would have if there were no last class.
    pub open spec fn index_spec(self, size: int) -> int {
        if size < self.exponential_start() {
            (size - 1) / vstd::arithmetic::power2::pow2(self.linear_shift_spec() as nat) as int
        } else {
            let octave = crate::numeric::log2(size as nat) as int;
            let base = vstd::arithmetic::power2::pow2(octave as nat) as int;
            self.linear_spec() + (octave - self.exponential_log_spec()) * self.divisions_spec()
                + (((size - base) * self.divisions_spec()) % 0x10000000000000000) / base
        }
    }

    /// Whether finding the class of a size inside its octave goes over the machine
    /// word.
    pub open spec fn wraps(self, size: int) -> bool {
        let base = vstd::arithmetic::power2::pow2(crate::numeric::log2(size as nat)) as int;
        size >= self.exponential_start() && (size - base) * self.divisions_spec()
            >= 0x10000000000000000
    }

    /// The class of a size.
    pub open spec fn bin_spec(self, size: int) -> int {
        min_int(
            self.index_spec(
                if size < 1 {
                    1
                } else {
                    size
                },
            ),
            self.bins_spec() - 1,
        )
    }

    pub open spec fn metadata_bytes_spec(self) -> int {
        metadata_spec(self.bins_spec())
    }

    /// The shape that every geometry has, whatever heap it serves.
    pub open spec fn wf(self) -> bool {
        &&& self.reserved_spec() == 0
        &&& self.bins_spec() > 0
        &&& 0 <= self.linear_shift_spec() <= self.exponential_log_spec() < 64
        &&& 0 <= self.divisions_log_spec() <= MAX_DIVISIONS_LOG
        &&& self.linear_spec() == vstd::arithmetic::power2::pow2(
            (self.exponential_log_spec() - self.linear_shift_spec()) as nat,
        )
        &&& self.linear_spec() <= self.bins_spec() <= 4096
    }

    /// Whether this geometry serves a heap of `extent` bytes.
    pub open spec fn valid(self, extent: int) -> bool {
        let exponential = self.bins_spec() - self.linear_spec();
        let max_log = crate::numeric::log2(extent as nat) as int;
        &&& extent >= MIN_CHUNK_SIZE
        &&& self.wf()
        &&& self.metadata_bytes_spec() + MIN_METADATA <= extent
        &&& max_log >= self.exponential_log_spec()
        &&& exponential % self.divisions_spec() == 0
        &&& self.exponential_log_spec() + exponential / self.divisions_spec() - 1 >= max_log
    }

    /// Whether this geometry has the given shape and reaches `max_log`.
    pub open spec fn is_shaped(
        self,
        max_log: int,
        linear_shift: int,
        exponential_log: int,
        divisions_log: int,
    ) -> bool {
        &&& self.linear_shift_spec() == linear_shift
        &&& self.exponential_log_spec() == exponential_log
        &&& self.divisions_log_spec() == divisions_log
        &&& self.linear_spec() == vstd::arithmetic::power2::pow2(
            (exponential_log - linear_shift) as nat,
        )
        &&& self.bins_spec() == shaped(max_log, linear_shift, exponential_log, divisions_log)
        &&& self.reserved_spec() == 0
    }

    /// An explicit geometry that covers every allocation up to `extent`.
    pub fn new(extent: u64, linear_shift: u8, exponential_log: u8, divisions_log: u8) -> (made:
        Result<Self, GeometryError>)
        ensures
            is_explicit(extent, linear_shift, exponential_log, divisions_log, made),
    {
        if extent < MIN_CHUNK_SIZE || linear_shift > exponential_log || exponential_log >= 64
            || exponential_log as u32 > ilog2(extent) || divisions_log > MAX_DIVISIONS_LOG {
            return Err(GeometryError::Invalid);
        }
        let linear: u64 = two_to((exponential_log - linear_shift) as u32);
        let octaves: u64 = (ilog2(extent) - exponential_log as u32) as u64 + 1;
        let divisions: u64 = two_to(divisions_log as u32);
        proof {
            lemma_divisions(divisions_log as nat);
            lemma_power_below_half((exponential_log - linear_shift) as nat);
            assert(octaves * divisions <= 64 * 8) by (nonlinear_arith)
                requires
                    octaves <= 64,
                    divisions <= 8,
            ;
        }
        let exponential: u64 = octaves * divisions;
        let bins: u64 = linear + exponential;
        if bins > 0xffff {
            return Err(GeometryError::TooManyBins);
        }
        let geometry = Geometry {
            bins: bins as u16,
            linear: linear as u16,
            linear_shift,
            exponential_log,
            divisions_log,
            reserved: 0,
        };
        match geometry.validate(extent) {
            Ok(()) => Ok(geometry),
            Err(error) => {
                proof {
                    assert forall|other: Geometry|
                        other.is_shaped(
                            crate::numeric::log2(extent as nat) as int,
                            linear_shift as int,
                            exponential_log as int,
                            divisions_log as int,
                        ) implies !#[trigger] other.valid(extent as int) by {
                        assert(other == geometry);
                    }
                }
                Err(error)
            },
        }
    }

    /// The finest geometry that the metadata budget of `extent` pays for: the
    /// narrowest linear classes first, then the most classes in an octave.
    pub fn auto(extent: u64) -> (made: Result<Self, GeometryError>)
        ensures
            match made {
                Ok(geometry) => extent >= MIN_CHUNK_SIZE && auto_choice(
                    extent as int,
                    geometry.linear_shift_spec(),
                    geometry.divisions_log_spec(),
                ) && geometry.is_shaped(
                    crate::numeric::log2(extent as nat) as int,
                    geometry.linear_shift_spec(),
                    auto_log(extent as int),
                    geometry.divisions_log_spec(),
                ) && geometry.valid(extent as int),
                Err(GeometryError::TooSmall) => extent < MIN_CHUNK_SIZE,
                Err(GeometryError::TooManyBins) => extent >= MIN_CHUNK_SIZE && forall|
                    shift: int,
                    divisions: int,
                |
                    auto_range(extent as int, shift, divisions) ==> !#[trigger] auto_fits(
                        extent as int,
                        shift,
                        divisions,
                    ),
                Err(GeometryError::Invalid) => extent >= MIN_CHUNK_SIZE && exists|
                    shift: int,
                    divisions: int,
                |
                    #[trigger] auto_choice(extent as int, shift, divisions) && forall|
                        geometry: Geometry,
                    |
                        geometry.is_shaped(
                            crate::numeric::log2(extent as nat) as int,
                            shift,
                            auto_log(extent as int),
                            divisions,
                        ) ==> !#[trigger] geometry.valid(extent as int),
            },
            extent >= 1024 ==> made is Ok,
    {
        if extent < MIN_CHUNK_SIZE {
            return Err(GeometryError::TooSmall);
        }
        let max_log: u64 = ilog2(extent) as u64;
        let exponential_log: u8 = if max_log < DEFAULT_EXPONENTIAL_LOG as u64 {
            max_log as u8
        } else {
            DEFAULT_EXPONENTIAL_LOG
        };
        let paid: u64 = Self::budget(extent) * 8 / CANONICAL_BIN_BITS;
        let max_bins: u64 = if paid < 4096 {
            paid
        } else {
            4096
        };
        let mut linear_shift: u8 = if MIN_LINEAR_SHIFT < exponential_log {
            MIN_LINEAR_SHIFT
        } else {
            exponential_log
        };
        while linear_shift <= exponential_log
            invariant
                extent >= MIN_CHUNK_SIZE,
                max_log == crate::numeric::log2(extent as nat),
                max_log < 64,
                exponential_log == auto_log(extent as int),
                exponential_log <= 10,
                max_bins == max_bins_spec(extent as int),
                max_bins <= 4096,
                min_int(MIN_LINEAR_SHIFT as int, exponential_log as int) <= linear_shift
                    <= exponential_log + 1,
                forall|shift: int, divisions: int|
                    auto_range(extent as int, shift, divisions) && shift < linear_shift
                        ==> !#[trigger] auto_fits(extent as int, shift, divisions),
            decreases exponential_log + 1 - linear_shift,
        {
            let linear: u64 = two_to((exponential_log - linear_shift) as u32);
            let mut divisions_log: u8 = MAX_DIVISIONS_LOG;
            loop
                invariant_except_break
                    forall|shift: int, divisions: int|
                        auto_range(extent as int, shift, divisions) && shift == linear_shift
                            && divisions > divisions_log ==> !#[trigger] auto_fits(
                            extent as int,
                            shift,
                            divisions,
                        ),
                invariant
                    extent >= MIN_CHUNK_SIZE,
                    max_log == crate::numeric::log2(extent as nat),
                    max_log < 64,
                    exponential_log == auto_log(extent as int),
                    exponential_log <= 10,
                    max_bins == max_bins_spec(extent as int),
                    max_bins <= 4096,
                    min_int(MIN_LINEAR_SHIFT as int, exponential_log as int) <= linear_shift
                        <= exponential_log,
                    linear == vstd::arithmetic::power2::pow2(
                        (exponential_log - linear_shift) as nat,
                    ),
                    divisions_log <= MAX_DIVISIONS_LOG,
                    forall|shift: int, divisions: int|
                        auto_range(extent as int, shift, divisions) && shift < linear_shift
                            ==> !#[trigger] auto_fits(extent as int, shift, divisions),
                ensures
                    forall|shift: int, divisions: int|
                        auto_range(extent as int, shift, divisions) && shift == linear_shift
                            ==> !#[trigger] auto_fits(extent as int, shift, divisions),
                decreases divisions_log,
            {
                let divisions: u64 = two_to(divisions_log as u32);
                let octaves: u64 = max_log - exponential_log as u64 + 1;
                proof {
                    lemma_divisions(divisions_log as nat);
                    lemma_power_below_half((exponential_log - linear_shift) as nat);
                    assert(octaves * divisions <= 64 * 8) by (nonlinear_arith)
                        requires
                            octaves <= 64,
                            divisions <= 8,
                    ;
                }
                let exponential: u64 = octaves * divisions;
                let bins: u64 = linear + exponential;
                assert(bins == shaped(
                    max_log as int,
                    linear_shift as int,
                    exponential_log as int,
                    divisions_log as int,
                ));
                if bins <= max_bins {
                    let geometry = Geometry {
                        bins: bins as u16,
                        linear: linear as u16,
                        linear_shift,
                        exponential_log,
                        divisions_log,
                        reserved: 0,
                    };
                    proof {
                        assert(auto_fits(
                            extent as int,
                            linear_shift as int,
                            divisions_log as int,
                        ));
                        assert(auto_choice(
                            extent as int,
                            linear_shift as int,
                            divisions_log as int,
                        ));
                    }
                    return match geometry.validate(extent) {
                        Ok(()) => Ok(geometry),
                        Err(error) => {
                            proof {
                                assert forall|other: Geometry|
                                    other.is_shaped(
                                        max_log as int,
                                        linear_shift as int,
                                        auto_log(extent as int),
                                        divisions_log as int,
                                    ) implies !#[trigger] other.valid(extent as int) by {
                                    assert(other == geometry);
                                }
                                if extent >= 1024 {
                                    lemma_automatic_geometry(
                                        extent as int,
                                        linear_shift as int,
                                        divisions_log as int,
                                        geometry,
                                    );
                                }
                            }
                            Err(error)
                        },
                    };
                }
                assert(!auto_fits(extent as int, linear_shift as int, divisions_log as int));
                if divisions_log == 0 {
                    break;
                }
                divisions_log = divisions_log - 1;
            }
            linear_shift = linear_shift + 1;
        }
        proof {
            if extent >= 1024 {
                lemma_automatic_geometry(extent as int, 0, 0, arbitrary());
            }
        }
        Err(GeometryError::TooManyBins)
    }

    /// Succeeds exactly on the extents that this geometry serves.
    pub fn validate(self, extent: u64) -> (checked: Result<(), GeometryError>)
        ensures
            checked is Ok <==> self.valid(extent as int),
            checked matches Err(error) ==> error == GeometryError::Invalid,
    {
        if extent < MIN_CHUNK_SIZE || self.reserved != 0 || self.bins == 0 || self.linear == 0
            || self.linear_shift > self.exponential_log || self.exponential_log >= 64
            || self.divisions_log > MAX_DIVISIONS_LOG || self.availability_words(WORD_BITS)
            > WORD_BITS || self.metadata_bytes() + MIN_METADATA > extent {
            proof {
                lemma_power_positive_nat((self.exponential_log - self.linear_shift) as nat);
            }
            return Err(GeometryError::Invalid);
        }
        let expected_linear: u64 = two_to((self.exponential_log - self.linear_shift) as u32);
        if self.linear as u64 != expected_linear || self.bin_count() < expected_linear {
            return Err(GeometryError::Invalid);
        }
        let max_log: u64 = ilog2(extent) as u64;
        if max_log < self.exponential_log as u64 {
            return Err(GeometryError::Invalid);
        }
        let exponential: u64 = self.bin_count() - self.linear as u64;
        let divisions: u64 = self.divisions();
        if exponential % divisions != 0 {
            return Err(GeometryError::Invalid);
        }
        if (self.exponential_log as u64) + exponential / divisions < max_log + 1 {
            return Err(GeometryError::Invalid);
        }
        Ok(())
    }

    /// Bytes of metadata that a heap of `extent` bytes may spend.
    pub fn budget(extent: u64) -> (budget: u64)
        ensures
            budget == budget_spec(extent as int),
    {
        let budget: u64 = extent / METADATA_RATIO;
        if budget < MIN_METADATA {
            MIN_METADATA
        } else if budget > MAX_METADATA {
            MAX_METADATA
        } else {
            budget
        }
    }

    /// The class of a size.
    pub fn bin(self, size: u64) -> (bin: u64)
        requires
            self.wf(),
        ensures
            bin == self.bin_spec(size as int),
            bin < self.bins_spec(),
    {
        let size: u64 = if size < 1 {
            1
        } else {
            size
        };
        let exponential_start: u64 = two_to(self.exponential_log as u32);
        let index: u64 = if size < exponential_start {
            (size - 1) / two_to(self.linear_shift as u32)
        } else {
            let octave: u32 = ilog2(size);
            let base: u64 = two_to(octave);
            proof {
                crate::numeric::lemma_log2(size as nat);
                vstd::arithmetic::power2::lemma_pow2_unfold((self.exponential_log + 1) as nat);
                crate::numeric::lemma_log2_unique(
                    exponential_start as nat,
                    self.exponential_log as nat,
                );
                crate::numeric::lemma_log2_monotone(exponential_start as nat, size as nat);
            }
            let division: u64 = (size - base).wrapping_mul(self.divisions()) / base;
            let octaves: u64 = (octave - self.exponential_log as u32) as u64;
            let divisions: u64 = self.divisions();
            proof {
                lemma_divisions(self.divisions_log as nat);
                assert(octaves * divisions <= 64 * 8) by (nonlinear_arith)
                    requires
                        octaves <= 64,
                        divisions <= 8,
                ;
                vstd::arithmetic::power2::lemma_pow2_unfold((octave + 1) as nat);
                lemma_division_small(size as int, base as int, divisions as int);
            }
            self.linear as u64 + octaves * divisions + division
        };
        let last: u64 = self.bin_count() - 1;
        if index < last {
            index
        } else {
            last
        }
    }

    pub fn bin_count(self) -> (count: u64)
        ensures
            count == self.bins_spec(),
    {
        self.bins as u64
    }

    fn divisions(self) -> (divisions: u64)
        requires
            self.divisions_log <= MAX_DIVISIONS_LOG,
        ensures
            divisions == self.divisions_spec(),
            divisions > 0,
    {
        two_to(self.divisions_log as u32)
    }

    /// Words that hold one availability bit for each bin.
    pub fn availability_words(self, word_bits: u64) -> (words: u64)
        requires
            word_bits > 0,
        ensures
            words == div_ceil_spec(self.bins_spec(), word_bits as int),
            words <= self.bins_spec(),
    {
        let count: u64 = self.bin_count();
        let whole: u64 = count / word_bits;
        proof {
            lemma_div_ceil(count as int, word_bits as int);
        }
        if count % word_bits == 0 {
            whole
        } else {
            whole + 1
        }
    }

    /// Bytes of the bin heads and their availability words.
    pub fn metadata_bytes(self) -> (bytes: u64)
        ensures
            bytes == self.metadata_bytes_spec(),
            bytes <= 0xffff * 24,
    {
        self.bin_count() * LINK_SIZE + self.availability_words(WORD_BITS) * WORD_SIZE
    }
}

/// What making a geometry of a given shape for an extent answers.
pub open spec fn is_explicit(
    extent: u64,
    linear_shift: u8,
    exponential_log: u8,
    divisions_log: u8,
    made: Result<Geometry, GeometryError>,
) -> bool {
    let max_log = crate::numeric::log2(extent as nat) as int;
    let shift = linear_shift as int;
    let log = exponential_log as int;
    let divisions = divisions_log as int;
    let shape_ok = extent >= MIN_CHUNK_SIZE && shift <= log && log < 64 && log <= max_log
        && divisions <= MAX_DIVISIONS_LOG;
    let bins = shaped(max_log, shift, log, divisions);
    match made {
        Ok(geometry) => shape_ok && bins <= 0xffff && geometry.is_shaped(
            max_log,
            shift,
            log,
            divisions,
        ) && geometry.valid(extent as int),
        Err(GeometryError::TooManyBins) => shape_ok && bins > 0xffff,
        Err(GeometryError::Invalid) => !shape_ok || (bins <= 0xffff && forall|geometry: Geometry|
            geometry.is_shaped(max_log, shift, log, divisions) ==> !#[trigger] geometry.valid(
                extent as int,
            )),
        Err(GeometryError::TooSmall) => false,
    }
}

/// The octave where an automatic geometry stops growing linearly.
pub open spec fn auto_log(extent: int) -> int {
    min_int(crate::numeric::log2(extent as nat) as int, DEFAULT_EXPONENTIAL_LOG as int)
}

/// The shapes that an automatic geometry may have.
pub open spec fn auto_range(extent: int, shift: int, divisions: int) -> bool {
    &&& min_int(MIN_LINEAR_SHIFT as int, auto_log(extent)) <= shift <= auto_log(extent)
    &&& 0 <= divisions <= MAX_DIVISIONS_LOG
}

/// Whether the budget pays for a shape.
pub open spec fn auto_fits(extent: int, shift: int, divisions: int) -> bool {
    shaped(crate::numeric::log2(extent as nat) as int, shift, auto_log(extent), divisions)
        <= max_bins_spec(extent)
}

/// The finest shape that the budget pays for.
pub open spec fn auto_choice(extent: int, shift: int, divisions: int) -> bool {
    &&& auto_range(extent, shift, divisions)
    &&& auto_fits(extent, shift, divisions)
    &&& forall|other: int, fewer: int|
        auto_range(extent, other, fewer) && (other < shift || (other == shift && fewer > divisions))
            ==> !#[trigger] auto_fits(extent, other, fewer)
}

/// The geometry that an extent gets where none is given.
pub open spec fn is_auto(extent: int, geometry: Geometry) -> bool {
    &&& extent >= MIN_CHUNK_SIZE
    &&& auto_choice(extent, geometry.linear_shift_spec(), geometry.divisions_log_spec())
    &&& geometry.is_shaped(
        crate::numeric::log2(extent as nat) as int,
        geometry.linear_shift_spec(),
        auto_log(extent),
        geometry.divisions_log_spec(),
    )
    &&& geometry.valid(extent)
}

/// An extent has one finest shape, and one geometry of that shape.
pub proof fn law_auto_is_unique(extent: int, one: Geometry, other: Geometry)
    requires
        is_auto(extent, one),
        is_auto(extent, other),
    ensures
        one == other,
{
    lemma_choice_is_unique(
        extent,
        one.linear_shift_spec(),
        one.divisions_log_spec(),
        other.linear_shift_spec(),
        other.divisions_log_spec(),
    );
}

pub(crate) proof fn lemma_choice_is_unique(
    extent: int,
    shift: int,
    divisions: int,
    other_shift: int,
    other_divisions: int,
)
    requires
        auto_choice(extent, shift, divisions),
        auto_choice(extent, other_shift, other_divisions),
    ensures
        shift == other_shift,
        divisions == other_divisions,
{
    assert(auto_fits(extent, shift, divisions));
    assert(auto_fits(extent, other_shift, other_divisions));
}

/// Larger sizes never have a lower class.
pub proof fn law_bins_are_monotone(geometry: Geometry, small: int, large: int)
    requires
        geometry.wf(),
        0 <= small <= large,
        !geometry.wraps(small),
        !geometry.wraps(large),
    ensures
        geometry.bin_spec(small) <= geometry.bin_spec(large),
        0 <= geometry.bin_spec(small) < geometry.bins_spec(),
{
    let a: int = if small < 1 {
        1
    } else {
        small
    };
    let b: int = if large < 1 {
        1
    } else {
        large
    };
    law_ordinary_sizes_do_not_wrap(geometry, 1);
    let e = geometry.exponential_log_spec() as nat;
    let shift = geometry.linear_shift_spec() as nat;
    let d = geometry.divisions_spec();
    let start = geometry.exponential_start();
    let step = vstd::arithmetic::power2::pow2(shift) as int;
    vstd::arithmetic::power2::lemma_pow2_pos(shift);
    vstd::arithmetic::power2::lemma_pow2_pos(e);
    vstd::arithmetic::power2::lemma_pow2_adds(shift, (e - shift) as nat);
    lemma_divisions(geometry.divisions_log_spec() as nat);
    let linear = geometry.linear_spec();
    assert(start == step * linear);
    vstd::arithmetic::div_mod::lemma_div_pos_is_pos(a - 1, step);
    if b < start {
        vstd::arithmetic::div_mod::lemma_div_is_ordered(a - 1, b - 1, step);
    } else {
        lemma_octave(geometry, b);
        if a < start {
            vstd::arithmetic::div_mod::lemma_fundamental_div_mod(a - 1, step);
            vstd::arithmetic::div_mod::lemma_mod_bound(a - 1, step);
            let q = (a - 1) / step;
            assert(q < linear) by (nonlinear_arith)
                requires
                    a - 1 < step * linear,
                    a - 1 >= step * q,
                    step > 0,
            ;
        } else {
            lemma_octave(geometry, a);
            let oa = crate::numeric::log2(a as nat) as int;
            let ob = crate::numeric::log2(b as nat) as int;
            crate::numeric::lemma_log2_monotone(a as nat, b as nat);
            if oa == ob {
                let base = vstd::arithmetic::power2::pow2(oa as nat) as int;
                vstd::arithmetic::power2::lemma_pow2_pos(oa as nat);
                assert((a - base) * d <= (b - base) * d) by (nonlinear_arith)
                    requires
                        a <= b,
                        d > 0,
                ;
                vstd::arithmetic::div_mod::lemma_div_is_ordered((a - base) * d, (b - base) * d, base);
            } else {
                assert((oa - e + 1) * d <= (ob - e) * d) by (nonlinear_arith)
                    requires
                        oa + 1 <= ob,
                        d > 0,
                ;
                assert((oa - e + 1) * d == (oa - e) * d + d) by (nonlinear_arith);
            }
        }
    }
}

/// Sizes below the given bound have a class without going over the word.
pub(crate) proof fn lemma_bins_are_monotone(geometry: Geometry, small: int, large: int)
    requires
        geometry.wf(),
        0 <= small <= large < 0x2000000000000000,
    ensures
        geometry.bin_spec(small) <= geometry.bin_spec(large),
        0 <= geometry.bin_spec(small) < geometry.bins_spec(),
{
    law_ordinary_sizes_do_not_wrap(geometry, small);
    law_ordinary_sizes_do_not_wrap(geometry, large);
    law_bins_are_monotone(geometry, small, large);
}

/// Finding the class of a size below the eighth part of the address space stays
/// inside the machine word.
pub proof fn law_ordinary_sizes_do_not_wrap(geometry: Geometry, size: int)
    requires
        geometry.wf(),
        0 <= size < 0x2000000000000000,
    ensures
        !geometry.wraps(size),
{
    let base = vstd::arithmetic::power2::pow2(crate::numeric::log2(size as nat)) as int;
    let d = geometry.divisions_spec();
    lemma_divisions(geometry.divisions_log_spec() as nat);
    vstd::arithmetic::power2::lemma_pow2_pos(crate::numeric::log2(size as nat));
    assert((size - base) * d < 0x10000000000000000) by (nonlinear_arith)
        requires
            size - base < 0x2000000000000000,
            1 <= d <= 8,
    ;
}

/// Where a size of the exponential range falls inside its octave.
proof fn lemma_octave(geometry: Geometry, size: int)
    requires
        geometry.wf(),
        geometry.exponential_start() <= size,
        !geometry.wraps(size),
    ensures
        ({
            let octave = crate::numeric::log2(size as nat) as int;
            let base = vstd::arithmetic::power2::pow2(octave as nat) as int;
            let d = geometry.divisions_spec();
            let inside = ((size - base) * d) / base;
            &&& octave >= geometry.exponential_log_spec()
            &&& base > 0
            &&& 0 <= inside < d
            &&& geometry.index_spec(size) == geometry.linear_spec() + (octave
                - geometry.exponential_log_spec()) * d + inside
            &&& (octave - geometry.exponential_log_spec()) * d >= 0
        }),
{
    let octave = crate::numeric::log2(size as nat) as int;
    let base = vstd::arithmetic::power2::pow2(octave as nat) as int;
    let d = geometry.divisions_spec();
    let e = geometry.exponential_log_spec() as nat;
    vstd::arithmetic::power2::lemma_pow2_pos(e);
    vstd::arithmetic::power2::lemma_pow2_pos(octave as nat);
    crate::numeric::lemma_log2(size as nat);
    vstd::arithmetic::power2::lemma_pow2_unfold((octave + 1) as nat);
    vstd::arithmetic::power2::lemma_pow2_unfold(e + 1);
    crate::numeric::lemma_log2_unique(geometry.exponential_start() as nat, e);
    crate::numeric::lemma_log2_monotone(geometry.exponential_start() as nat, size as nat);
    lemma_divisions(geometry.divisions_log_spec() as nat);
    lemma_division_small(size, base, d);
    assert(0 <= (size - base) * d) by (nonlinear_arith)
        requires
            0 <= size - base,
            1 <= d <= 8,
    ;
    vstd::arithmetic::div_mod::lemma_small_mod(((size - base) * d) as nat, 0x10000000000000000);
    assert((octave - e) * d >= 0) by (nonlinear_arith)
        requires
            octave >= e,
            d >= 1,
    ;
}

proof fn lemma_division_small(size: int, base: int, d: int)
    requires
        base <= size < 2 * base,
        1 <= d <= 8,
        base > 0,
    ensures
        0 <= ((size - base) * d) / base < d,
        0 <= (((size - base) * d) % 0x10000000000000000) / base < d,
{
    let product = (size - base) * d;
    assert(0 <= product < base * d) by (nonlinear_arith)
        requires
            0 <= size - base < base,
            d >= 1,
            product == (size - base) * d,
    ;
    let wrapped = product % 0x10000000000000000;
    assert(0 <= wrapped <= product) by {
        vstd::arithmetic::div_mod::lemma_mod_decreases(product as nat, 0x10000000000000000);
    }
    vstd::arithmetic::div_mod::lemma_div_pos_is_pos(product, base);
    vstd::arithmetic::div_mod::lemma_div_pos_is_pos(wrapped, base);
    lemma_quotient_below(product, base, d);
    lemma_quotient_below(wrapped, base, d);
}

proof fn lemma_quotient_below(n: int, base: int, d: int)
    requires
        0 <= n < base * d,
        base > 0,
    ensures
        n / base < d,
{
    vstd::arithmetic::div_mod::lemma_fundamental_div_mod(n, base);
    vstd::arithmetic::div_mod::lemma_mod_bound(n, base);
    let q = n / base;
    assert(q < d) by (nonlinear_arith)
        requires
            n >= base * q,
            n < base * d,
            base > 0,
    ;
}

/// A geometry also serves a smaller heap that still reaches its exponential
/// range and holds its metadata.
pub proof fn law_geometry_covers_smaller_extents(geometry: Geometry, extent: int, smaller: int)
    requires
        geometry.valid(extent),
        MIN_CHUNK_SIZE <= smaller <= extent,
        geometry.exponential_start() <= smaller,
        geometry.metadata_bytes_spec() + MIN_METADATA <= smaller,
    ensures
        geometry.valid(smaller),
{
    let e = geometry.exponential_log_spec() as nat;
    crate::numeric::lemma_log2_monotone(smaller as nat, extent as nat);
    crate::numeric::lemma_log2_monotone(geometry.exponential_start() as nat, smaller as nat);
    vstd::arithmetic::power2::lemma_pow2_pos(e);
    vstd::arithmetic::power2::lemma_pow2_unfold(e + 1);
    crate::numeric::lemma_log2_unique(geometry.exponential_start() as nat, e);
}

/// A geometry that was made for an extent also serves every smaller heap that
/// reaches its exponential range and holds its metadata.
pub proof fn law_explicit_geometry_covers_smaller_extents(
    extent: u64,
    linear_shift: u8,
    exponential_log: u8,
    divisions_log: u8,
    geometry: Geometry,
    smaller: u64,
)
    requires
        is_explicit(
            extent,
            linear_shift,
            exponential_log,
            divisions_log,
            Ok::<Geometry, GeometryError>(geometry),
        ),
        smaller <= extent,
        geometry.metadata_bytes_spec() + MIN_METADATA <= smaller,
        crate::numeric::log2(smaller as nat) >= exponential_log,
    ensures
        geometry.valid(smaller as int),
        forall|checked: Result<(), GeometryError>|
            #[trigger] call_ensures(Geometry::validate, (geometry, smaller), checked)
                ==> checked is Ok,
{
    let e = geometry.exponential_log_spec() as nat;
    assert(e == exponential_log);
    crate::numeric::lemma_log2(smaller as nat);
    crate::numeric::lemma_pow2_ordered(e, crate::numeric::log2(smaller as nat));
    assert(geometry.metadata_bytes_spec() >= 0);
    law_geometry_covers_smaller_extents(geometry, extent as int, smaller as int);
}

/// A geometry that serves a heap has a class for every size up to its extent: none
/// is only put into the last one.
pub proof fn law_valid_geometry_covers_its_extent(geometry: Geometry, extent: int, size: int)
    requires
        geometry.valid(extent),
        0 < size <= extent,
        !geometry.wraps(size),
    ensures
        0 <= geometry.index_spec(size) < geometry.bins_spec(),
        geometry.bin_spec(size) == geometry.index_spec(size),
{
    let e = geometry.exponential_log_spec();
    let d = geometry.divisions_spec();
    let linear = geometry.linear_spec();
    vstd::arithmetic::power2::lemma_pow2_pos(e as nat);
    lemma_divisions(geometry.divisions_log_spec() as nat);
    if size >= geometry.exponential_start() {
        lemma_octave(geometry, size);
        let octave = crate::numeric::log2(size as nat) as int;
        let last = crate::numeric::log2(extent as nat) as int;
        let exponential = geometry.bins_spec() - linear;
        let octaves = exponential / d;
        crate::numeric::lemma_log2_monotone(size as nat, extent as nat);
        vstd::arithmetic::div_mod::lemma_fundamental_div_mod(exponential, d);
        assert((octave - e) * d + d <= d * octaves) by (nonlinear_arith)
            requires
                octave - e + 1 <= octaves,
                d > 0,
        ;
    } else {
        let shift = geometry.linear_shift_spec();
        let step = vstd::arithmetic::power2::pow2(shift as nat) as int;
        vstd::arithmetic::power2::lemma_pow2_pos(shift as nat);
        vstd::arithmetic::power2::lemma_pow2_adds(shift as nat, (e - shift) as nat);
        lemma_quotient_below(size - 1, step, linear);
        vstd::arithmetic::div_mod::lemma_div_pos_is_pos(size - 1, step);
    }
}

/// The metadata of an automatic geometry takes no more words than its budget
/// pays for or begins to pay for: it is within a budget of whole words.
pub proof fn law_automatic_metadata_is_paid_for(extent: int, geometry: Geometry)
    requires
        is_auto(extent, geometry),
    ensures
        geometry.metadata_bytes_spec() < budget_spec(extent) + WORD_SIZE,
        budget_spec(extent) % WORD_SIZE as int == 0 ==> geometry.metadata_bytes_spec()
            <= budget_spec(extent),
{
    let bins = geometry.bins_spec();
    let budget = budget_spec(extent);
    assert(129 * bins <= 8 * budget);
    let words = div_ceil_spec(bins, 64);
    assert(64 * words <= bins + 63);
    assert(geometry.metadata_bytes_spec() == 16 * bins + 8 * words);
}

/// An automatic geometry serves its extent: classes never fall with the size,
/// every size up to the extent has one, and a budget of whole words pays for the
/// metadata.
pub proof fn law_automatic_geometry_covers_its_extent(
    extent: int,
    geometry: Geometry,
    small: int,
    large: int,
)
    requires
        is_auto(extent, geometry),
        MIN_CHUNK_SIZE <= small <= large <= extent,
        !geometry.wraps(small),
        !geometry.wraps(large),
    ensures
        geometry.valid(extent),
        geometry.bin_spec(small) <= geometry.bin_spec(large) < geometry.bins_spec(),
        geometry.index_spec(large) < geometry.bins_spec(),
        budget_spec(extent) % WORD_SIZE as int == 0 ==> geometry.metadata_bytes_spec()
            <= budget_spec(extent),
{
    law_bins_are_monotone(geometry, small, large);
    law_automatic_metadata_is_paid_for(extent, geometry);
    law_valid_geometry_covers_its_extent(geometry, extent, large);
}

/// From a kilobyte on, the budget pays for some shape, and the finest one that
/// it pays for serves the heap.
proof fn lemma_automatic_geometry(extent: int, shift: int, divisions: int, geometry: Geometry)
    requires
        1024 <= extent <= u64::MAX,
    ensures
        auto_range(extent, auto_log(extent), 0),
        auto_fits(extent, auto_log(extent), 0),
        auto_choice(extent, shift, divisions) && geometry.is_shaped(
            crate::numeric::log2(extent as nat) as int,
            shift,
            auto_log(extent),
            divisions,
        ) ==> geometry.valid(extent),
{
    let max_log = crate::numeric::log2(extent as nat) as int;
    vstd::arithmetic::power2::lemma2_to64();
    vstd::arithmetic::power2::lemma2_to64_rest();
    crate::numeric::lemma_log2_unique(1024, 10);
    crate::numeric::lemma_log2_monotone(1024, extent as nat);
    crate::numeric::lemma_log2(extent as nat);
    assert(max_log <= 63) by {
        if max_log > 63 {
            crate::numeric::lemma_pow2_ordered(64, max_log as nat);
        }
    }
    assert(auto_log(extent) == 10);
    if max_log >= 20 {
        crate::numeric::lemma_pow2_ordered(20, max_log as nat);
    }
    assert((max_log - 10 + 1) * vstd::arithmetic::power2::pow2(0) == max_log - 9)
        by (nonlinear_arith)
        requires
            vstd::arithmetic::power2::pow2(0) == 1,
    ;
    assert(auto_fits(extent, 10, 0));
    if auto_choice(extent, shift, divisions) && geometry.is_shaped(
        max_log,
        shift,
        auto_log(extent),
        divisions,
    ) {
        let d = vstd::arithmetic::power2::pow2(divisions as nat) as int;
        lemma_divisions(divisions as nat);
        let octaves = max_log - 10 + 1;
        assert(geometry.bins_spec() - geometry.linear_spec() == octaves * d);
        vstd::arithmetic::power2::lemma_pow2_pos((10 - shift) as nat);
        vstd::arithmetic::div_mod::lemma_mod_multiples_basic(octaves, d);
        vstd::arithmetic::div_mod::lemma_div_multiples_vanish(octaves, d);
        assert(octaves * d == d * octaves) by (nonlinear_arith);
        assert(octaves * d >= octaves) by (nonlinear_arith)
            requires
                octaves >= 1,
                d >= 1,
        ;
    }
}

/// The fields of a geometry, as its parts.
pub(crate) proof fn lemma_parts(geometry: Geometry)
    ensures
        geometry.bins_spec() == geometry.bins,
        geometry.linear_spec() == geometry.linear,
        geometry.linear_shift_spec() == geometry.linear_shift,
        geometry.exponential_log_spec() == geometry.exponential_log,
        geometry.divisions_log_spec() == geometry.divisions_log,
        geometry.reserved_spec() == geometry.reserved,
{
}

/// What the shape of a geometry bounds.
pub proof fn lemma_wf(geometry: Geometry)
    requires
        geometry.wf(),
    ensures
        0 < geometry.bins_spec() <= 4096,
        0 < div_ceil_spec(geometry.bins_spec(), 64) <= 64,
        64 * div_ceil_spec(geometry.bins_spec(), 64) >= geometry.bins_spec(),
{
}

proof fn lemma_div_ceil(n: int, d: int)
    requires
        n >= 0,
        d > 0,
    ensures
        n % d == 0 ==> div_ceil_spec(n, d) == n / d,
        n % d != 0 ==> div_ceil_spec(n, d) == n / d + 1,
        0 <= n / d <= n,
        div_ceil_spec(n, d) <= n,
{
    vstd::arithmetic::div_mod::lemma_fundamental_div_mod(n, d);
    vstd::arithmetic::div_mod::lemma_mod_bound(n, d);
    let q = n / d;
    let r = n % d;
    if r == 0 {
        assert(n + d - 1 == q * d + (d - 1)) by (nonlinear_arith)
            requires
                n == d * q + r,
                r == 0,
        ;
        vstd::arithmetic::div_mod::lemma_fundamental_div_mod_converse(n + d - 1, d, q, d - 1);
    } else {
        assert(n + d - 1 == (q + 1) * d + (r - 1)) by (nonlinear_arith)
            requires
                n == d * q + r,
        ;
        vstd::arithmetic::div_mod::lemma_fundamental_div_mod_converse(n + d - 1, d, q + 1, r - 1);
    }
    assert(q >= 0 && q <= n && (r != 0 ==> q + 1 <= n)) by (nonlinear_arith)
        requires
            n == d * q + r,
            0 <= r < d,
            n >= 0,
            d > 0,
    ;
}

proof fn lemma_divisions(log: nat)
    requires
        log <= MAX_DIVISIONS_LOG,
    ensures
        1 <= vstd::arithmetic::power2::pow2(log) <= 8,
{
    vstd::arithmetic::power2::lemma2_to64();
}

proof fn lemma_power_positive_nat(e: nat)
    ensures
        vstd::arithmetic::power2::pow2(e) > 0,
{
    vstd::arithmetic::power2::lemma_pow2_pos(e);
}

proof fn lemma_power_below_half(e: nat)
    requires
        e < 64,
    ensures
        vstd::arithmetic::power2::pow2(e) <= 0x8000000000000000,
{
    vstd::arithmetic::power2::lemma2_to64_rest();
    crate::numeric::lemma_pow2_ordered(e, 63);
}

/// A heap spends its share on metadata: no more than one byte on so many, and not
/// a byte less than that allows, between the least and the most that any heap may
/// spend. It has as many bins as that pays for, up to the most that there are.
pub proof fn law_budgets_follow_the_extent(extent: int)
    requires
        extent >= 0,
    ensures
        MIN_METADATA <= budget_spec(extent) <= MAX_METADATA,
        budget_spec(extent) > MIN_METADATA ==> METADATA_RATIO * budget_spec(extent) <= extent,
        budget_spec(extent) < MAX_METADATA ==> METADATA_RATIO * (budget_spec(extent) + 1) > extent,
        max_bins_spec(extent) <= 4096,
        CANONICAL_BIN_BITS * max_bins_spec(extent) <= 8 * budget_spec(extent),
        max_bins_spec(extent) < 4096 ==> CANONICAL_BIN_BITS * (max_bins_spec(extent) + 1) > 8
            * budget_spec(extent),
{
}

/// The metadata of some bins is a head for each and a bit for each, in whole words.
pub proof fn law_metadata_holds_heads_and_bits(bins: int)
    requires
        bins >= 0,
    ensures
        metadata_spec(bins) % WORD_SIZE as int == 0,
        8 * metadata_spec(bins) >= CANONICAL_BIN_BITS * bins,
        8 * metadata_spec(bins) < CANONICAL_BIN_BITS * bins + WORD_BITS,
{
}

/// Every octave of the exponential range has as many classes as it is divided
/// into: twice the size is that many classes further.
pub proof fn law_octaves_are_divided_alike(geometry: Geometry, size: int)
    requires
        geometry.wf(),
        geometry.exponential_start() <= size,
        !geometry.wraps(size),
        !geometry.wraps(2 * size),
    ensures
        geometry.index_spec(2 * size) == geometry.index_spec(size) + geometry.divisions_spec(),
{
    let octave = crate::numeric::log2(size as nat);
    let base = vstd::arithmetic::power2::pow2(octave) as int;
    let d = geometry.divisions_spec();
    let e = geometry.exponential_log_spec();
    vstd::arithmetic::power2::lemma_pow2_pos(geometry.exponential_log_spec() as nat);
    lemma_octave(geometry, size);
    lemma_octave(geometry, 2 * size);
    crate::numeric::lemma_log2(size as nat);
    vstd::arithmetic::power2::lemma_pow2_unfold(octave + 1);
    vstd::arithmetic::power2::lemma_pow2_unfold(octave + 2);
    crate::numeric::lemma_log2_unique((2 * size) as nat, octave + 1);
    let n = (size - base) * d;
    assert((2 * size - 2 * base) * d == 2 * n) by (nonlinear_arith)
        requires
            n == (size - base) * d,
    ;
    vstd::arithmetic::div_mod::lemma_fundamental_div_mod(n, base);
    vstd::arithmetic::div_mod::lemma_mod_bound(n, base);
    let q = n / base;
    let r = n % base;
    assert(2 * n == q * (2 * base) + 2 * r) by (nonlinear_arith)
        requires
            n == base * q + r,
    ;
    vstd::arithmetic::div_mod::lemma_fundamental_div_mod_converse(2 * n, 2 * base, q, 2 * r);
    assert((octave + 1 - e) * d == (octave - e) * d + d) by (nonlinear_arith);
}

/// The classes of the linear range are steps of one width: the smallest size is in
/// the first, a step further is the next class, and the exponential range begins
/// behind the last of them.
pub proof fn law_linear_classes_are_steps(geometry: Geometry, size: int)
    requires
        geometry.wf(),
        1 <= size,
        size + vstd::arithmetic::power2::pow2(geometry.linear_shift_spec() as nat)
            < geometry.exponential_start(),
    ensures
        geometry.index_spec(
            size + vstd::arithmetic::power2::pow2(geometry.linear_shift_spec() as nat),
        ) == geometry.index_spec(size) + 1,
        geometry.index_spec(1) == 0,
        geometry.index_spec(geometry.exponential_start()) == geometry.linear_spec(),
{
    let step = vstd::arithmetic::power2::pow2(geometry.linear_shift_spec() as nat) as int;
    let start = geometry.exponential_start();
    let e = geometry.exponential_log_spec() as nat;
    vstd::arithmetic::power2::lemma_pow2_pos(geometry.linear_shift_spec() as nat);
    vstd::arithmetic::div_mod::lemma_fundamental_div_mod(size - 1, step);
    vstd::arithmetic::div_mod::lemma_mod_bound(size - 1, step);
    let q = (size - 1) / step;
    let r = (size - 1) % step;
    assert(size - 1 + step == (q + 1) * step + r) by (nonlinear_arith)
        requires
            size - 1 == step * q + r,
    ;
    vstd::arithmetic::div_mod::lemma_fundamental_div_mod_converse(size - 1 + step, step, q + 1, r);
    vstd::arithmetic::div_mod::lemma_basic_div(0, step);
    vstd::arithmetic::power2::lemma_pow2_pos(e);
    vstd::arithmetic::power2::lemma_pow2_unfold(e + 1);
    crate::numeric::lemma_log2_unique(start as nat, e);
    lemma_divisions(geometry.divisions_log_spec() as nat);
    let d = geometry.divisions_spec();
    assert((start - start) * d == 0) by (nonlinear_arith);
    assert((e - e) * d == 0) by (nonlinear_arith);
    vstd::arithmetic::div_mod::lemma_basic_div(0, start);
}

/// An automatic geometry is the finest that the budget pays for: the linear range
/// ends at a kilobyte, or at the extent's own octave where that is below; no
/// narrower steps would be paid for, and no more divisions at the same steps.
pub proof fn law_automatic_geometry_is_the_finest(
    extent: int,
    geometry: Geometry,
    shift: int,
    divisions: int,
)
    requires
        is_auto(extent, geometry),
        0 <= divisions <= MAX_DIVISIONS_LOG,
    ensures
        ({
            let octave = crate::numeric::log2(extent as nat) as int;
            let end = geometry.exponential_log_spec();
            &&& end <= octave && end <= DEFAULT_EXPONENTIAL_LOG
            &&& end == octave || end == DEFAULT_EXPONENTIAL_LOG
            &&& geometry.linear_shift_spec() >= MIN_LINEAR_SHIFT || geometry.linear_shift_spec()
                == end
            &&& geometry.bins_spec() <= max_bins_spec(extent)
            &&& divisions > geometry.divisions_log_spec() ==> shaped(
                octave,
                geometry.linear_shift_spec(),
                end,
                divisions,
            ) > max_bins_spec(extent)
            &&& MIN_LINEAR_SHIFT <= shift < geometry.linear_shift_spec() ==> shaped(
                octave,
                shift,
                end,
                divisions,
            ) > max_bins_spec(extent)
        }),
{
    let here = geometry.linear_shift_spec();
    assert(auto_range(extent, here, divisions) ==> (divisions > geometry.divisions_log_spec()
        ==> !auto_fits(extent, here, divisions)));
    assert(auto_range(extent, shift, divisions) ==> (shift < here ==> !auto_fits(
        extent,
        shift,
        divisions,
    )));
}

/// A geometry serves a heap only where the heap has room for its metadata and for
/// as much again as every heap may spend, and where its classes begin below the
/// heap's own octave and reach it.
pub proof fn law_served_heaps_have_room(geometry: Geometry, extent: int)
    requires
        geometry.valid(extent),
    ensures
        extent >= geometry.metadata_bytes_spec() + MIN_METADATA,
        extent >= MIN_CHUNK_SIZE,
        vstd::arithmetic::power2::pow2(geometry.exponential_log_spec() as nat) <= extent,
        geometry.wf(),
{
    let octave = crate::numeric::log2(extent as nat);
    crate::numeric::lemma_log2(extent as nat);
    crate::numeric::lemma_pow2_ordered(geometry.exponential_log_spec() as nat, octave);
}

} // verus!
