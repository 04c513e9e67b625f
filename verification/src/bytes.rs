//! Little-endian numbers.

use vstd::prelude::*;

verus! {

/// The number that bytes write, lowest byte first.
pub open spec fn le(bytes: Seq<u8>) -> nat
    decreases bytes.len(),
{
    if bytes.len() == 0 {
        0
    } else {
        (bytes[0] + 256 * le(bytes.drop_first())) as nat
    }
}

/// The lowest `count` bytes of a number.
pub open spec fn le_bytes(value: nat, count: nat) -> Seq<u8>
    decreases count,
{
    if count == 0 {
        Seq::empty()
    } else {
        seq![(value % 256) as u8] + le_bytes(value / 256, (count - 1) as nat)
    }
}

/// Two hundred and fifty-six, `count` times multiplied with itself.
pub open spec fn byte_range(count: nat) -> nat
    decreases count,
{
    if count == 0 {
        1
    } else {
        256 * byte_range((count - 1) as nat)
    }
}

/// Reading gives back what writing wrote, where it fits.
pub proof fn law_le_round_trips(value: nat, count: nat)
    requires
        value < byte_range(count),
    ensures
        le(le_bytes(value, count)) == value,
        le_bytes(value, count).len() == count,
    decreases count,
{
    if count > 0 {
        let rest = le_bytes(value / 256, (count - 1) as nat);
        law_le_round_trips(value / 256, (count - 1) as nat);
        let whole = le_bytes(value, count);
        assert(whole.drop_first() =~= rest);
    }
}

/// Writing gives back what reading read.
pub proof fn law_le_bytes_round_trip(bytes: Seq<u8>)
    ensures
        le_bytes(le(bytes), bytes.len()) == bytes,
        le(bytes) < byte_range(bytes.len()),
    decreases bytes.len(),
{
    if bytes.len() > 0 {
        let rest = bytes.drop_first();
        law_le_bytes_round_trip(rest);
        let value = le(bytes);
        assert(value % 256 == bytes[0] && value / 256 == le(rest));
        assert(le_bytes(value, bytes.len()) =~= bytes);
    } else {
        assert(le_bytes(le(bytes), bytes.len()) =~= bytes);
    }
}

proof fn lemma_ranges()
    ensures
        byte_range(2) == 0x1_0000,
        byte_range(4) == 0x1_0000_0000,
        byte_range(8) == 0x1_0000_0000_0000_0000,
{
    reveal_with_fuel(byte_range, 9);
}

pub fn write_le(value: u64, count: usize) -> (bytes: Vec<u8>)
    ensures
        bytes@ == le_bytes(value as nat, count as nat),
        bytes@.len() == count,
{
    let mut bytes: Vec<u8> = Vec::new();
    let mut rest: u64 = value;
    let mut i: usize = 0;
    while i < count
        invariant
            i <= count,
            bytes@.len() == i,
            bytes@ + le_bytes(rest as nat, (count - i) as nat) == le_bytes(
                value as nat,
                count as nat,
            ),
        decreases count - i,
    {
        let ghost before = bytes@;
        bytes.push((rest % 256) as u8);
        proof {
            let tail = le_bytes((rest / 256) as nat, (count - i - 1) as nat);
            assert(le_bytes(rest as nat, (count - i) as nat) == seq![(rest % 256) as u8] + tail);
            assert(before + (seq![(rest % 256) as u8] + tail) =~= before.push((rest % 256) as u8)
                + tail);
        }
        rest = rest / 256;
        i = i + 1;
    }
    assert(bytes@ + le_bytes(rest as nat, 0) =~= bytes@);
    bytes
}

/// The number of up to eight bytes.
pub fn read_le(bytes: &[u8]) -> (value: u64)
    requires
        bytes@.len() <= 8,
    ensures
        value == le(bytes@),
{
    let mut value: u64 = 0;
    let mut i: usize = bytes.len();
    proof {
        lemma_small_range(0);
    }
    assert(bytes@.skip(i as int) =~= Seq::<u8>::empty());
    while i > 0
        invariant
            i <= bytes@.len() <= 8,
            value == le(bytes@.skip(i as int)),
        decreases i,
    {
        let ghost rest = bytes@.skip(i as int);
        i = i - 1;
        proof {
            let now = bytes@.skip(i as int);
            assert(now.drop_first() =~= rest);
            assert(now[0] == bytes@[i as int]);
            law_le_bytes_round_trip(rest);
            lemma_small_range(rest.len());
        }
        value = bytes[i] as u64 + 256 * value;
    }
    assert(bytes@.skip(0) =~= bytes@);
    value
}

proof fn lemma_small_range(count: nat)
    ensures
        count <= 7 ==> byte_range(count) <= 0x100_0000_0000_0000,
{
    reveal_with_fuel(byte_range, 8);
}

/// Eight bytes hold every word, four every 32 bits, two every 16 bits.
pub proof fn law_words_fit(word: u64, half: u32, quarter: u16)
    ensures
        word < byte_range(8),
        half < byte_range(4),
        quarter < byte_range(2),
{
    lemma_ranges();
}

/// The bytes behind are the higher ones: zeros behind add nothing to a number,
/// and a byte in front multiplies what is behind it.
pub proof fn law_higher_bytes_come_later(bytes: Seq<u8>, first: u8)
    ensures
        le(bytes.push(0)) == le(bytes),
        le(seq![first] + bytes) == first + 256 * le(bytes),
    decreases bytes.len(),
{
    let longer = bytes.push(0);
    if bytes.len() > 0 {
        law_higher_bytes_come_later(bytes.drop_first(), first);
        assert(longer.drop_first() =~= bytes.drop_first().push(0));
    } else {
        assert(longer.drop_first() =~= bytes);
    }
    assert((seq![first] + bytes).drop_first() =~= bytes);
}

} // verus!
