//! Word, bit and alignment arithmetic.

use vstd::prelude::*;

verus! {

pub type Word = u64;

pub type Bit = u64;

/// Alignment of a machine word in bytes.
pub const WORD_ALIGN: u64 = 8;

/// Bits of a machine word.
pub const WORD_BITS: u64 = 64;

/// Whether bit `bit` of `word` is one.
pub open spec fn bit_is_set(word: u64, bit: u64) -> bool {
    ((word >> bit) & 1) != 0
}

/// Powers of two, as the alignment of an address demands them.
pub open spec fn is_power_of_two_spec(n: int) -> bool {
    vstd::arithmetic::power2::is_pow2(n)
}

pub fn bit_check(word: Word, bit: Bit) -> (set: bool)
    requires
        bit < WORD_BITS,
    ensures
        set == bit_is_set(word, bit),
{
    ((word >> bit) & 1) != 0
}

/// Inverts one bit and keeps every other.
pub fn bit_flip(word: &mut Word, bit: Bit)
    requires
        bit < WORD_BITS,
    ensures
        forall|other: u64|
            other < WORD_BITS ==> #[trigger] bit_is_set(*final(word), other) == (bit_is_set(
                *old(word),
                other,
            ) != (other == bit)),
{
    let before: u64 = *word;
    *word = before ^ (1u64 << bit);
    let after: u64 = *word;
    proof {
        assert forall|other: u64| other < WORD_BITS implies #[trigger] bit_is_set(after, other)
            == (bit_is_set(before, other) != (other == bit)) by {
            lemma_flip(before, bit, other);
        }
    }
}

proof fn lemma_flip(word: u64, bit: u64, other: u64)
    by (bit_vector)
    requires
        bit < 64,
        other < 64,
    ensures
        ((((word ^ (1u64 << bit)) >> other) & 1) != 0) == ((((word >> other) & 1) != 0) != (other
            == bit)),
{
}

/// A word without a set bit is zero, and the other way round.
pub proof fn lemma_zero_word(word: u64)
    ensures
        word == 0 <==> (forall|bit: u64| bit < WORD_BITS ==> !#[trigger] bit_is_set(word, bit)),
{
    if word == 0 {
        assert forall|bit: u64| bit < WORD_BITS implies !#[trigger] bit_is_set(word, bit) by {
            assert(((0u64 >> bit) & 1) == 0) by (bit_vector);
        }
    } else {
        lemma_lowest_bit(word);
    }
}

/// Setting and clearing one bit keeps every other.
pub proof fn lemma_set_bit(word: u64, bit: u64, other: u64)
    by (bit_vector)
    requires
        bit < 64,
        other < 64,
    ensures
        (((word | (1u64 << bit)) >> other) & 1) != 0 <==> (((word >> other) & 1) != 0 || other
            == bit),
        (((word & !(1u64 << bit)) >> other) & 1) != 0 <==> (((word >> other) & 1) != 0 && other
            != bit),
        (((1u64 << bit) >> other) & 1) != 0 <==> other == bit,
{
}

/// Masking with one bit tells whether it is set.
pub proof fn lemma_mask_bit(word: u64, bit: u64)
    by (bit_vector)
    requires
        bit < 64,
    ensures
        (word & (1u64 << bit)) != 0 <==> ((word >> bit) & 1) != 0,
{
}

/// Words with the same bits are the same.
pub proof fn lemma_same_bits(a: u64, b: u64)
    requires
        forall|bit: u64| bit < WORD_BITS ==> #[trigger] bit_is_set(a, bit) == bit_is_set(b, bit),
    ensures
        a == b,
{
    let difference = a ^ b;
    if difference != 0 {
        lemma_lowest_bit(difference);
        let bit = vstd::std_specs::bits::u64_trailing_zeros(difference) as u64;
        assert(bit_is_set(a, bit) == bit_is_set(b, bit));
        assert((((a ^ b) >> bit) & 1) != 0 <==> (((a >> bit) & 1) != 0) != (((b >> bit) & 1) != 0))
            by (bit_vector)
            requires
                bit < 64,
        ;
    } else {
        assert(a ^ b == 0 ==> a == b) by (bit_vector);
    }
}

/// What `trailing_zeros` finds in a word that is not zero: the lowest set bit.
pub proof fn lemma_lowest_bit(word: u64)
    requires
        word != 0,
    ensures
        ({
            let low = vstd::std_specs::bits::u64_trailing_zeros(word);
            &&& low < WORD_BITS
            &&& bit_is_set(word, low as u64)
            &&& forall|bit: u64| bit < low ==> !#[trigger] bit_is_set(word, bit)
        }),
{
    vstd::std_specs::bits::axiom_u64_trailing_zeros(word);
    let low = vstd::std_specs::bits::u64_trailing_zeros(word);
    assert(bit_is_set(word, low as u64));
    assert forall|bit: u64| bit < low implies !#[trigger] bit_is_set(word, bit) by {
        assert((word >> bit) & 1u64 == 0u64);
    }
}

/// Position of the lowest set bit of a word that is not zero.
pub fn lowest_bit(word: u64) -> (low: u64)
    requires
        word != 0,
    ensures
        low < WORD_BITS,
        bit_is_set(word, low),
        forall|bit: u64| bit < low ==> !#[trigger] bit_is_set(word, bit),
{
    proof {
        lemma_lowest_bit(word);
    }
    word.trailing_zeros() as u64
}

/// The largest exponent of two not above `n`; zero for zero.
pub open spec fn log2(n: nat) -> nat
    decreases n,
{
    if n < 2 {
        0
    } else {
        1 + log2(n / 2)
    }
}

pub proof fn lemma_log2(n: nat)
    requires
        n > 0,
    ensures
        vstd::arithmetic::power2::pow2(log2(n)) <= n,
        n < vstd::arithmetic::power2::pow2(log2(n) + 1),
    decreases n,
{
    vstd::arithmetic::power2::lemma2_to64();
    if n >= 2 {
        lemma_log2(n / 2);
        vstd::arithmetic::power2::lemma_pow2_unfold(log2(n));
        vstd::arithmetic::power2::lemma_pow2_unfold(log2(n) + 1);
    }
}

pub proof fn lemma_log2_monotone(a: nat, b: nat)
    requires
        a <= b,
    ensures
        log2(a) <= log2(b),
    decreases b,
{
    if a >= 2 {
        lemma_log2_monotone(a / 2, b / 2);
    }
}

/// The exponent is fixed by the two powers around the number.
pub proof fn lemma_log2_unique(n: nat, e: nat)
    requires
        vstd::arithmetic::power2::pow2(e) <= n < vstd::arithmetic::power2::pow2(e + 1),
    ensures
        log2(n) == e,
{
    vstd::arithmetic::power2::lemma_pow2_pos(e);
    lemma_log2(n);
    if log2(n) < e {
        lemma_pow2_ordered(log2(n) + 1, e);
    } else if log2(n) > e {
        lemma_pow2_ordered(e + 1, log2(n));
    }
}

pub proof fn lemma_pow2_ordered(a: nat, b: nat)
    requires
        a <= b,
    ensures
        vstd::arithmetic::power2::pow2(a) <= vstd::arithmetic::power2::pow2(b),
{
    if a < b {
        vstd::arithmetic::power2::lemma_pow2_strictly_increases(a, b);
    }
}

pub fn ilog2(n: u64) -> (log: u32)
    requires
        n > 0,
    ensures
        log == log2(n as nat),
        log < WORD_BITS,
{
    let mut rest: u64 = n;
    let mut log: u32 = 0;
    proof {
        vstd::arithmetic::power2::lemma2_to64();
        vstd::arithmetic::power2::lemma2_to64_rest();
        lemma_log2(n as nat);
        if log2(n as nat) >= 64 {
            lemma_pow2_ordered(64, log2(n as nat));
        }
    }
    while rest > 1
        invariant
            rest > 0,
            log + log2(rest as nat) == log2(n as nat),
            log2(n as nat) < 64,
        decreases rest,
    {
        rest = rest / 2;
        log = log + 1;
    }
    log
}

/// `two_to(e)` is two raised to `e`.
pub fn two_to(e: u32) -> (power: u64)
    requires
        e < WORD_BITS,
    ensures
        power == vstd::arithmetic::power2::pow2(e as nat),
        power > 0,
{
    let mut power: u64 = 1;
    let mut i: u32 = 0;
    proof {
        vstd::arithmetic::power2::lemma2_to64();
        vstd::arithmetic::power2::lemma2_to64_rest();
    }
    while i < e
        invariant
            i <= e < 64,
            power == vstd::arithmetic::power2::pow2(i as nat),
            power > 0,
            vstd::arithmetic::power2::pow2(63) == 0x8000000000000000,
        decreases e - i,
    {
        proof {
            vstd::arithmetic::power2::lemma_pow2_unfold((i + 1) as nat);
            lemma_pow2_ordered((i + 1) as nat, 63);
        }
        power = power * 2;
        i = i + 1;
    }
    power
}

pub fn is_power_of_two(n: u64) -> (yes: bool)
    ensures
        yes == is_power_of_two_spec(n as int),
{
    reveal(vstd::arithmetic::power2::is_pow2);
    let mut rest: u64 = n;
    while rest > 1
        invariant
            is_power_of_two_spec(n as int) == is_power_of_two_spec(rest as int),
        decreases rest,
    {
        proof {
            reveal(vstd::arithmetic::power2::is_pow2);
        }
        if rest % 2 != 0 {
            return false;
        }
        rest = rest / 2;
    }
    rest == 1
}

/// The least power of two not below `n`.
pub open spec fn power_at_least(n: nat) -> nat {
    if n <= 1 {
        1
    } else {
        vstd::arithmetic::power2::pow2(log2((n - 1) as nat) + 1)
    }
}

pub proof fn lemma_power_at_least(n: nat)
    ensures
        power_at_least(n) >= n,
        power_at_least(n) >= 1,
        is_power_of_two_spec(power_at_least(n) as int),
        forall|e: nat|
            #[trigger] vstd::arithmetic::power2::pow2(e) >= n ==> power_at_least(n)
                <= vstd::arithmetic::power2::pow2(e),
{
    vstd::arithmetic::power2::lemma2_to64();
    if n > 1 {
        let e = log2((n - 1) as nat) + 1;
        lemma_log2((n - 1) as nat);
        vstd::arithmetic::power2::lemma_pow2_pos(e);
        lemma_pow2_is_power(e);
        assert forall|f: nat| #[trigger] vstd::arithmetic::power2::pow2(f) >= n implies
            power_at_least(n) <= vstd::arithmetic::power2::pow2(f) by {
            if f < e {
                lemma_pow2_ordered(f, (e - 1) as nat);
            } else {
                lemma_pow2_ordered(e, f);
            }
        }
    } else {
        lemma_pow2_is_power(0);
        assert forall|f: nat| #[trigger] vstd::arithmetic::power2::pow2(f) >= n implies
            power_at_least(n) <= vstd::arithmetic::power2::pow2(f) by {
            vstd::arithmetic::power2::lemma_pow2_pos(f);
        }
    }
}

pub proof fn lemma_pow2_is_power(e: nat)
    ensures
        is_power_of_two_spec(vstd::arithmetic::power2::pow2(e) as int),
{
    vstd::arithmetic::power2::is_pow2_equiv(vstd::arithmetic::power2::pow2(e) as int);
    vstd::arithmetic::power::lemma_pow_positive(2, e);
    assert(vstd::arithmetic::power::pow(2, e) == vstd::arithmetic::power2::pow2(e) as int);
}

/// A power of two is the power of its logarithm.
pub proof fn lemma_power_of_log2(n: nat)
    requires
        is_power_of_two_spec(n as int),
    ensures
        n == vstd::arithmetic::power2::pow2(log2(n)),
        n > 0,
{
    vstd::arithmetic::power2::is_pow2_equiv(n as int);
    let e = choose|e: nat| vstd::arithmetic::power::pow(2, e) == n as int;
    assert(vstd::arithmetic::power2::pow2(e) == n);
    vstd::arithmetic::power2::lemma_pow2_pos(e);
    vstd::arithmetic::power2::lemma_pow2_unfold(e + 1);
    lemma_log2_unique(n, e);
}

/// The least power of two not below `n`, where a word can hold it.
pub fn checked_next_power_of_two(n: u64) -> (power: Option<u64>)
    ensures
        match power {
            Some(value) => value == power_at_least(n as nat),
            None => power_at_least(n as nat) > u64::MAX,
        },
{
    if n <= 1 {
        return Some(1);
    }
    let log: u32 = ilog2(n - 1);
    if log == 63 {
        proof {
            vstd::arithmetic::power2::lemma2_to64_rest();
        }
        return None;
    }
    Some(two_to(log + 1))
}

pub open spec fn align_down_spec(n: int, align: int) -> int {
    n - n % align
}

pub open spec fn align_up_spec(n: int, align: int) -> int {
    align_down_spec(n + align - 1, align)
}

/// The least multiple of `align` not below `n` is what aligning up gives.
pub proof fn lemma_align_up(n: int, align: int)
    requires
        align > 0,
        n >= 0,
    ensures
        n <= align_up_spec(n, align) < n + align,
        align_up_spec(n, align) % align == 0,
        forall|m: int| m >= n && #[trigger] (m % align) == 0 ==> align_up_spec(n, align) <= m,
        n % align == 0 ==> align_up_spec(n, align) == n,
        n % align != 0 ==> align_up_spec(n, align) == n - n % align + align,
{
    let up = align_up_spec(n, align);
    let top = n + align - 1;
    vstd::arithmetic::div_mod::lemma_fundamental_div_mod(top, align);
    vstd::arithmetic::div_mod::lemma_mod_bound(top, align);
    let q = top / align;
    assert(up == align * q);
    vstd::arithmetic::div_mod::lemma_mod_multiples_basic(q, align);
    assert(q * align == align * q) by (nonlinear_arith);
    if n % align != 0 {
        vstd::arithmetic::div_mod::lemma_fundamental_div_mod(n, align);
        vstd::arithmetic::div_mod::lemma_mod_bound(n, align);
        let p = n / align;
        assert(top == align * (p + 1) + (n % align - 1)) by (nonlinear_arith)
            requires
                top == n + align - 1,
                n == align * p + n % align,
        ;
        assert(align * (p + 1) == (p + 1) * align) by (nonlinear_arith);
        vstd::arithmetic::div_mod::lemma_fundamental_div_mod_converse(
            top,
            align,
            p + 1,
            n % align - 1,
        );
    }
    assert forall|m: int| m >= n && #[trigger] (m % align) == 0 implies up <= m by {
        vstd::arithmetic::div_mod::lemma_fundamental_div_mod(m, align);
        let k = m / align;
        assert(k >= q) by (nonlinear_arith)
            requires
                m == align * k,
                up == align * q,
                m >= n,
                up < n + align,
                align > 0,
        ;
        assert(up <= m) by (nonlinear_arith)
            requires
                k >= q,
                m == align * k,
                up == align * q,
                align > 0,
        ;
    }
}

pub proof fn lemma_align_down(n: int, align: int)
    requires
        align > 0,
        n >= 0,
    ensures
        n - align < align_down_spec(n, align) <= n,
        align_down_spec(n, align) >= 0,
        align_down_spec(n, align) % align == 0,
{
    vstd::arithmetic::div_mod::lemma_fundamental_div_mod(n, align);
    vstd::arithmetic::div_mod::lemma_mod_bound(n, align);
    let q = n / align;
    assert(align_down_spec(n, align) == align * q);
    vstd::arithmetic::div_mod::lemma_mod_multiples_basic(q, align);
    assert(q * align == align * q) by (nonlinear_arith);
    assert(q >= 0) by (nonlinear_arith)
        requires
            n >= 0,
            align > 0,
            q == n / align,
    ;
    assert(align * q >= 0) by (nonlinear_arith)
        requires
            q >= 0,
            align > 0,
    ;
}

pub fn align_down(n: u64, align: u64) -> (down: u64)
    requires
        is_power_of_two_spec(align as int),
    ensures
        down == align_down_spec(n as int, align as int),
{
    proof {
        reveal(vstd::arithmetic::power2::is_pow2);
        lemma_align_down(n as int, align as int);
    }
    n - n % align
}

pub fn align_up(n: u64, align: u64) -> (up: u64)
    requires
        is_power_of_two_spec(align as int),
        n + align - 1 <= u64::MAX,
    ensures
        up == align_up_spec(n as int, align as int),
{
    proof {
        reveal(vstd::arithmetic::power2::is_pow2);
        lemma_align_down(n + align - 1, align as int);
    }
    let top: u64 = n + (align - 1);
    top - top % align
}

} // verus!
