//! The bytes of values that may cross a process boundary.

use crate::bytes::{read_le, write_le};
use crate::msg::Repr;
use vstd::prelude::*;

verus! {

/// A representation that is given by its bytes alone.
pub trait Plain: Repr + Sized {
    spec fn bytes_of(self) -> Seq<u8>;

    spec fn value_of(bytes: Seq<u8>) -> Self;

    /// A value is read back from its bytes, and all values take the same
    /// number of them.
    proof fn law_round_trips(self)
        ensures
            Self::value_of(self.bytes_of()) == self,
            self.bytes_of().len() == vstd::layout::size_of::<Self>(),
    ;

    fn encode(&self) -> (bytes: Vec<u8>)
        ensures
            bytes@ == self.bytes_of(),
    ;

    fn decode(bytes: &[u8]) -> (value: Self)
        requires
            bytes@.len() == vstd::layout::size_of::<Self>(),
        ensures
            value == Self::value_of(bytes@),
    ;
}

impl Plain for u8 {
    open spec fn bytes_of(self) -> Seq<u8> {
        crate::bytes::le_bytes(self as nat, 1)
    }

    open spec fn value_of(bytes: Seq<u8>) -> Self {
        crate::bytes::le(bytes) as u8
    }

    proof fn law_round_trips(self) {
        broadcast use vstd::layout::layout_of_primitives;

        reveal_with_fuel(crate::bytes::byte_range, 2);
        crate::bytes::law_le_round_trips(self as nat, 1);
    }

    fn encode(&self) -> (bytes: Vec<u8>) {
        write_le(*self as u64, 1)
    }

    fn decode(bytes: &[u8]) -> (value: Self) {
        broadcast use vstd::layout::layout_of_primitives;

        proof {
            reveal_with_fuel(crate::bytes::byte_range, 2);
            crate::bytes::law_le_bytes_round_trip(bytes@);
        }
        read_le(bytes) as u8
    }
}

impl Plain for u16 {
    open spec fn bytes_of(self) -> Seq<u8> {
        crate::bytes::le_bytes(self as nat, 2)
    }

    open spec fn value_of(bytes: Seq<u8>) -> Self {
        crate::bytes::le(bytes) as u16
    }

    proof fn law_round_trips(self) {
        broadcast use vstd::layout::layout_of_primitives;

        reveal_with_fuel(crate::bytes::byte_range, 3);
        crate::bytes::law_le_round_trips(self as nat, 2);
    }

    fn encode(&self) -> (bytes: Vec<u8>) {
        write_le(*self as u64, 2)
    }

    fn decode(bytes: &[u8]) -> (value: Self) {
        broadcast use vstd::layout::layout_of_primitives;

        proof {
            reveal_with_fuel(crate::bytes::byte_range, 3);
            crate::bytes::law_le_bytes_round_trip(bytes@);
        }
        read_le(bytes) as u16
    }
}

impl Plain for u32 {
    open spec fn bytes_of(self) -> Seq<u8> {
        crate::bytes::le_bytes(self as nat, 4)
    }

    open spec fn value_of(bytes: Seq<u8>) -> Self {
        crate::bytes::le(bytes) as u32
    }

    proof fn law_round_trips(self) {
        broadcast use vstd::layout::layout_of_primitives;

        reveal_with_fuel(crate::bytes::byte_range, 5);
        crate::bytes::law_le_round_trips(self as nat, 4);
    }

    fn encode(&self) -> (bytes: Vec<u8>) {
        write_le(*self as u64, 4)
    }

    fn decode(bytes: &[u8]) -> (value: Self) {
        broadcast use vstd::layout::layout_of_primitives;

        proof {
            reveal_with_fuel(crate::bytes::byte_range, 5);
            crate::bytes::law_le_bytes_round_trip(bytes@);
        }
        read_le(bytes) as u32
    }
}

impl Plain for u64 {
    open spec fn bytes_of(self) -> Seq<u8> {
        crate::bytes::le_bytes(self as nat, 8)
    }

    open spec fn value_of(bytes: Seq<u8>) -> Self {
        crate::bytes::le(bytes) as u64
    }

    proof fn law_round_trips(self) {
        broadcast use vstd::layout::layout_of_primitives;

        reveal_with_fuel(crate::bytes::byte_range, 9);
        crate::bytes::law_le_round_trips(self as nat, 8);
    }

    fn encode(&self) -> (bytes: Vec<u8>) {
        write_le(*self, 8)
    }

    fn decode(bytes: &[u8]) -> (value: Self) {
        broadcast use vstd::layout::layout_of_primitives;

        proof {
            reveal_with_fuel(crate::bytes::byte_range, 9);
            crate::bytes::law_le_bytes_round_trip(bytes@);
        }
        read_le(bytes)
    }
}

impl Plain for i8 {
    open spec fn bytes_of(self) -> Seq<u8> {
        crate::bytes::le_bytes((self as u8) as nat, 1)
    }

    open spec fn value_of(bytes: Seq<u8>) -> Self {
        (crate::bytes::le(bytes) as u8) as i8
    }

    proof fn law_round_trips(self) {
        broadcast use vstd::layout::layout_of_primitives;

        reveal_with_fuel(crate::bytes::byte_range, 2);
        assert((self as u8) as i8 == self) by (bit_vector);
        crate::bytes::law_le_round_trips((self as u8) as nat, 1);
    }

    fn encode(&self) -> (bytes: Vec<u8>) {
        write_le((*self as u8) as u64, 1)
    }

    fn decode(bytes: &[u8]) -> (value: Self) {
        broadcast use vstd::layout::layout_of_primitives;

        proof {
            reveal_with_fuel(crate::bytes::byte_range, 2);
            crate::bytes::law_le_bytes_round_trip(bytes@);
        }
        (read_le(bytes) as u8) as i8
    }
}

impl Plain for i16 {
    open spec fn bytes_of(self) -> Seq<u8> {
        crate::bytes::le_bytes((self as u16) as nat, 2)
    }

    open spec fn value_of(bytes: Seq<u8>) -> Self {
        (crate::bytes::le(bytes) as u16) as i16
    }

    proof fn law_round_trips(self) {
        broadcast use vstd::layout::layout_of_primitives;

        reveal_with_fuel(crate::bytes::byte_range, 3);
        assert((self as u16) as i16 == self) by (bit_vector);
        crate::bytes::law_le_round_trips((self as u16) as nat, 2);
    }

    fn encode(&self) -> (bytes: Vec<u8>) {
        write_le((*self as u16) as u64, 2)
    }

    fn decode(bytes: &[u8]) -> (value: Self) {
        broadcast use vstd::layout::layout_of_primitives;

        proof {
            reveal_with_fuel(crate::bytes::byte_range, 3);
            crate::bytes::law_le_bytes_round_trip(bytes@);
        }
        (read_le(bytes) as u16) as i16
    }
}

impl Plain for i32 {
    open spec fn bytes_of(self) -> Seq<u8> {
        crate::bytes::le_bytes((self as u32) as nat, 4)
    }

    open spec fn value_of(bytes: Seq<u8>) -> Self {
        (crate::bytes::le(bytes) as u32) as i32
    }

    proof fn law_round_trips(self) {
        broadcast use vstd::layout::layout_of_primitives;

        reveal_with_fuel(crate::bytes::byte_range, 5);
        assert((self as u32) as i32 == self) by (bit_vector);
        crate::bytes::law_le_round_trips((self as u32) as nat, 4);
    }

    fn encode(&self) -> (bytes: Vec<u8>) {
        write_le((*self as u32) as u64, 4)
    }

    fn decode(bytes: &[u8]) -> (value: Self) {
        broadcast use vstd::layout::layout_of_primitives;

        proof {
            reveal_with_fuel(crate::bytes::byte_range, 5);
            crate::bytes::law_le_bytes_round_trip(bytes@);
        }
        (read_le(bytes) as u32) as i32
    }
}

impl Plain for i64 {
    open spec fn bytes_of(self) -> Seq<u8> {
        crate::bytes::le_bytes((self as u64) as nat, 8)
    }

    open spec fn value_of(bytes: Seq<u8>) -> Self {
        (crate::bytes::le(bytes) as u64) as i64
    }

    proof fn law_round_trips(self) {
        broadcast use vstd::layout::layout_of_primitives;

        reveal_with_fuel(crate::bytes::byte_range, 9);
        assert((self as u64) as i64 == self) by (bit_vector);
        crate::bytes::law_le_round_trips((self as u64) as nat, 8);
    }

    fn encode(&self) -> (bytes: Vec<u8>) {
        write_le((*self as u64) as u64, 8)
    }

    fn decode(bytes: &[u8]) -> (value: Self) {
        broadcast use vstd::layout::layout_of_primitives;

        proof {
            reveal_with_fuel(crate::bytes::byte_range, 9);
            crate::bytes::law_le_bytes_round_trip(bytes@);
        }
        (read_le(bytes) as u64) as i64
    }
}

impl Plain for bool {
    open spec fn bytes_of(self) -> Seq<u8> {
        seq![
            if self {
                1u8
            } else {
                0u8
            },
        ]
    }

    open spec fn value_of(bytes: Seq<u8>) -> Self {
        bytes[0] != 0
    }

    proof fn law_round_trips(self) {
        broadcast use vstd::layout::layout_of_primitives;

    }

    fn encode(&self) -> (bytes: Vec<u8>) {
        let mut bytes: Vec<u8> = Vec::new();
        bytes.push(
            if *self {
                1
            } else {
                0
            },
        );
        bytes
    }

    fn decode(bytes: &[u8]) -> (value: Self) {
        broadcast use vstd::layout::layout_of_primitives;

        bytes[0] != 0
    }
}

impl Plain for () {
    open spec fn bytes_of(self) -> Seq<u8> {
        Seq::empty()
    }

    open spec fn value_of(bytes: Seq<u8>) -> Self {
        ()
    }

    proof fn law_round_trips(self) {
        broadcast use vstd::layout::layout_of_unit_tuple;

    }

    fn encode(&self) -> (bytes: Vec<u8>) {
        Vec::new()
    }

    fn decode(bytes: &[u8]) -> (value: Self) {
    }
}

/// The bytes of values that lie one behind the other.
pub open spec fn bytes_of_all<T: Plain>(values: Seq<T>) -> Seq<u8>
    decreases values.len(),
{
    if values.len() == 0 {
        Seq::empty()
    } else {
        bytes_of_all(values.drop_last()) + values.last().bytes_of()
    }
}

/// The values that lie one behind the other in `bytes`.
#[verifier::opaque]
pub open spec fn values_of<T: Plain>(bytes: Seq<u8>, len: nat) -> Seq<T> {
    let width = vstd::layout::size_of::<T>() as int;
    Seq::new(len, |i: int| T::value_of(bytes.subrange(i * width, i * width + width)))
}

/// Values that lie one behind the other are read back as they were written.
pub proof fn law_all_round_trip<T: Plain>(values: Seq<T>)
    ensures
        values_of::<T>(bytes_of_all(values), values.len()) == values,
        bytes_of_all(values).len() == values.len() * vstd::layout::size_of::<T>(),
    decreases values.len(),
{
    reveal(values_of);
    let width = vstd::layout::size_of::<T>() as int;
    if values.len() > 0 {
        let rest = values.drop_last();
        law_all_round_trip(rest);
        values.last().law_round_trips();
        let n = values.len() as int;
        assert((n - 1) * width + width == n * width) by (nonlinear_arith);
        let bytes = bytes_of_all(values);
        let before = bytes_of_all(rest);
        let read = values_of::<T>(bytes, values.len());
        assert forall|i: int| 0 <= i < values.len() implies #[trigger] read[i] == values[i] by {
            let part = bytes.subrange(i * width, i * width + width);
            if i < n - 1 {
                assert(0 <= i * width && i * width + width <= (n - 1) * width) by (nonlinear_arith)
                    requires
                        0 <= i < n - 1,
                        width >= 0,
                ;
                assert(part =~= before.subrange(i * width, i * width + width));
                assert(values_of::<T>(before, rest.len())[i] == rest[i]);
            } else {
                assert(0 <= (n - 1) * width) by (nonlinear_arith)
                    requires
                        n > 0,
                        width >= 0,
                ;
                assert(part =~= values.last().bytes_of());
            }
        }
        assert(read =~= values);
    } else {
        assert(values_of::<T>(bytes_of_all(values), 0) =~= values);
        assert(0 * width == 0) by (nonlinear_arith);
    }
}

/// The bytes that `len` values of `T` take.
#[verifier::opaque]
pub open spec fn width_of_all<T>(len: nat) -> nat {
    len * vstd::layout::size_of::<T>()
}

/// The bytes that `len` values take, where the machine can count them.
pub fn count_bytes<T>(len: usize) -> (bytes: Option<usize>)
    ensures
        match bytes {
            Some(bytes) => bytes == width_of_all::<T>(len as nat),
            None => width_of_all::<T>(len as nat) > usize::MAX,
        },
{
    proof {
        reveal(width_of_all);
    }
    len.checked_mul(core::mem::size_of::<T>())
}

/// Encodes values one behind the other.
pub fn encode_all<T: Plain>(values: &[T]) -> (bytes: Vec<u8>)
    ensures
        bytes@ == bytes_of_all(values@),
{
    let mut bytes: Vec<u8> = Vec::new();
    let mut i: usize = 0;
    while i < values.len()
        invariant
            i <= values@.len(),
            bytes@ == bytes_of_all(values@.take(i as int)),
        decreases values@.len() - i,
    {
        let mut more = values[i].encode();
        proof {
            let now = values@.take(i + 1);
            assert(now.drop_last() =~= values@.take(i as int));
            assert(now.last() == values@[i as int]);
        }
        bytes.append(&mut more);
        i = i + 1;
    }
    assert(values@.take(i as int) =~= values@);
    bytes
}

/// Decodes `len` values that lie one behind the other.
pub fn decode_all<T: Plain>(bytes: &[u8], len: usize) -> (values: Vec<T>)
    requires
        bytes@.len() == width_of_all::<T>(len as nat),
    ensures
        values@ == values_of::<T>(bytes@, len as nat),
{
    let width: usize = core::mem::size_of::<T>();
    let mut values: Vec<T> = Vec::new();
    let mut at: usize = 0;
    proof {
        reveal(width_of_all);
        reveal(values_of);
    }
    assert(0 * width == 0) by (nonlinear_arith);
    while values.len() < len
        invariant
            values@.len() <= len,
            width == vstd::layout::size_of::<T>(),
            bytes@.len() == len * width,
            at == values@.len() * width,
            forall|i: int|
                0 <= i < values@.len() ==> #[trigger] values@[i] == values_of::<T>(
                    bytes@,
                    len as nat,
                )[i],
        decreases len - values@.len(),
    {
        proof {
            reveal(values_of);
            let i = values@.len() as int;
            let n = len as int;
            let w = width as int;
            assert(i * w + w <= n * w && (i + 1) * w == i * w + w) by (nonlinear_arith)
                requires
                    0 <= i < n,
                    w >= 0,
            ;
            assert(bytes@.len() == bytes.len());
        }
        let part = vstd::slice::slice_subrange(bytes, at, at + width);
        values.push(T::decode(part));
        at = at + width;
    }
    assert(values@ =~= values_of::<T>(bytes@, len as nat));
    values
}

} // verus!
