//! Typed blocks of a pool and their transfer from one participant to another.

use super::geometry::BlockRange;
use super::storage::{AdoptError, Allocation, ReserveError, Storage};
use crate::extent::Extent;
use crate::header::PARTICIPANT_CAPACITY;
use crate::msg::{type_id, Repr};
use crate::plain::{count_bytes, decode_all, encode_all, Plain};
use crate::schema::LayoutId;
use crate::token::{Metadata, PoolToken, Shape, Span, Token};
use core::marker::PhantomData;
use vstd::prelude::*;

verus! {

/// One size class of a pool.
#[derive(Clone, Copy, Debug, PartialEq, Eq, Structural)]
pub struct ClassInfo {
    pub bytes: u64,
    pub slots: u64,
}

impl Storage {
    /// The smallest and the largest block.
    pub fn range(&self) -> (range: BlockRange)
        requires
            self@.wf(),
        ensures
            range.min_spec() == self@.classes[0].bytes,
            range.max_spec() == self@.classes.last().bytes,
    {
        let count: usize = self.class_count();
        BlockRange::between(
            self.class(0).unwrap().bytes,
            self.class(count - 1).unwrap().bytes,
        )
    }

    /// The size class with the given number, as its users see it.
    pub fn class_info(&self, index: usize) -> (info: Option<ClassInfo>)
        ensures
            info == (if index < self@.classes.len() {
                Some(
                    ClassInfo {
                        bytes: self@.classes[index as int].bytes,
                        slots: self@.classes[index as int].slots,
                    },
                )
            } else {
                None
            }),
    {
        match self.class(index) {
            Some(class) => Some(ClassInfo { bytes: class.bytes, slots: class.slots }),
            None => None,
        }
    }
}

/// One participant's way to a pool.
#[derive(Clone, Copy, Debug, PartialEq, Eq, Structural)]
pub struct PoolRef {
    pub id: LayoutId,
    pub owner: u8,
}

/// A block that was taken and holds no value yet.
pub struct Vacant<T: ?Sized> {
    allocation: Allocation,
    metadata: Metadata,
    value: PhantomData<T>,
}

/// A block with a value.
pub struct Block<T: ?Sized> {
    allocation: Allocation,
    metadata: Metadata,
    value: PhantomData<T>,
}

/// A block on its way to another participant. It stays the sender's until the
/// queue that carries its locator lets it go.
pub struct Transfer<H: Repr> {
    allocation: Allocation,
    token: Token<H>,
}

impl<T: ?Sized> Vacant<T> {
    pub closed spec fn allocation_spec(self) -> Allocation {
        self.allocation
    }

    pub closed spec fn shape(self) -> Metadata {
        self.metadata
    }

    /// Gives the block back unwritten.
    pub fn release(self, storage: &mut Storage)
        requires
            old(storage)@.wf(),
            self.allocation_spec().wf(old(storage)@),
        ensures
            final(storage)@.wf(),
            final(storage)@ == self.allocation_spec().released(old(storage)@),
    {
        self.allocation.release(storage)
    }
}

impl<T: ?Sized> Block<T> {
    pub closed spec fn allocation_spec(self) -> Allocation {
        self.allocation
    }

    pub closed spec fn shape(self) -> Metadata {
        self.metadata
    }

    /// The bytes of this block.
    pub open spec fn bytes(self, storage: super::storage::StorageView) -> Seq<u8> {
        let allocation = self.allocation_spec();
        if allocation.live_spec() {
            storage.bytes[allocation.class_spec()][allocation.slot_spec()]
        } else {
            Seq::empty()
        }
    }

    /// Gives the block back.
    pub fn release(self, storage: &mut Storage)
        requires
            old(storage)@.wf(),
            self.allocation_spec().wf(old(storage)@),
        ensures
            final(storage)@.wf(),
            final(storage)@ == self.allocation_spec().released(old(storage)@),
    {
        self.allocation.release(storage)
    }
}

/// The pool after `bytes` were written to a block.
pub open spec fn stored(
    storage: super::storage::StorageView,
    allocation: Allocation,
    bytes: Seq<u8>,
) -> super::storage::StorageView {
    if allocation.live_spec() {
        storage.with_bytes(allocation.class_spec(), allocation.slot_spec(), bytes)
    } else {
        storage
    }
}

/// What was written to a block is in it.
proof fn lemma_stored(
    storage: super::storage::StorageView,
    allocation: Allocation,
    bytes: Seq<u8>,
)
    requires
        storage.wf(),
        allocation.wf(storage),
    ensures
        allocation.live_spec() ==> stored(
            storage,
            allocation,
            bytes,
        ).bytes[allocation.class_spec()][allocation.slot_spec()] == bytes,
{
    if allocation.live_spec() {
        assert(storage.words[allocation.class_spec()].len()
            == storage.classes[allocation.class_spec()].slots);
    }
}

fn store(storage: &mut Storage, allocation: &Allocation, bytes: Vec<u8>)
    requires
        old(storage)@.wf(),
        allocation.wf(old(storage)@),
    ensures
        final(storage)@.wf(),
        final(storage)@ == stored(old(storage)@, *allocation, bytes@),
{
    if allocation.is_live() {
        storage.write(allocation, bytes);
    }
}

impl PoolRef {
    pub open spec fn wf(self) -> bool {
        self.owner < PARTICIPANT_CAPACITY
    }

    /// Takes a block for one value.
    pub fn reserve<T: Repr>(&self, storage: &mut Storage) -> (reserved: Result<
        Vacant<T>,
        ReserveError<()>,
    >)
        requires
            old(storage)@.wf(),
            self.wf(),
        ensures
            final(storage)@.wf(),
            match super::storage::claim_error(old(storage)@, crate::token::extent_of::<T>()) {
                Some(error) => reserved == Err::<Vacant<T>, ReserveError<()>>(error)
                    && final(storage)@ == old(storage)@,
                None => reserved matches Ok(vacant) && super::storage::claims(
                    old(storage)@,
                    self.id,
                    self.owner,
                    crate::token::extent_of::<T>(),
                    vacant.allocation_spec(),
                ) && vacant.shape() == Metadata::Sized
                    && vacant.allocation_spec().live_spec() == (vstd::layout::size_of::<T>() > 0)
                    && final(storage)@ == vacant.allocation_spec().taken(old(storage)@),
            },
    {
        match storage.claim(self.id, self.owner, Extent::of::<T>()) {
            Ok(allocation) => Ok(
                Vacant { allocation, metadata: Metadata::Sized, value: PhantomData },
            ),
            Err(error) => Err(error),
        }
    }

    /// Puts a value into a block of its own; hands it back where there is none.
    pub fn put<T: Plain>(&self, storage: &mut Storage, value: T) -> (put: Result<
        Block<T>,
        ReserveError<T>,
    >)
        requires
            old(storage)@.wf(),
            self.wf(),
        ensures
            final(storage)@.wf(),
            match super::storage::claim_error(old(storage)@, crate::token::extent_of::<T>()) {
                Some(ReserveError::BlockTooLarge(_)) => put == Err::<Block<T>, ReserveError<T>>(
                    ReserveError::BlockTooLarge(value),
                ) && final(storage)@ == old(storage)@,
                Some(ReserveError::Unavailable(_)) => put == Err::<Block<T>, ReserveError<T>>(
                    ReserveError::Unavailable(value),
                ) && final(storage)@ == old(storage)@,
                None => put matches Ok(block) && super::storage::claims(
                    old(storage)@,
                    self.id,
                    self.owner,
                    crate::token::extent_of::<T>(),
                    block.allocation_spec(),
                ) && block.shape() == Metadata::Sized && block.keeps(final(storage)@, value)
                    && final(storage)@ == stored(
                    block.allocation_spec().taken(old(storage)@),
                    block.allocation_spec(),
                    value.bytes_of(),
                ),
            },
    {
        match self.reserve::<T>(storage) {
            Ok(vacant) => Ok(vacant.write(storage, value)),
            Err(ReserveError::BlockTooLarge(())) => Err(ReserveError::BlockTooLarge(value)),
            Err(ReserveError::Unavailable(())) => Err(ReserveError::Unavailable(value)),
        }
    }
}

impl<T: Plain> Block<T> {
    /// The value in this block.
    pub open spec fn value(self, storage: super::storage::StorageView) -> T {
        T::value_of(self.bytes(storage))
    }

    /// This block can be read, and the value is in it.
    pub open spec fn keeps(self, storage: super::storage::StorageView, value: T) -> bool {
        &&& self.allocation_spec().wf(storage)
        &&& self.bytes(storage).len() == vstd::layout::size_of::<T>()
        &&& self.value(storage) == value
    }

    /// Reads the value, where the block holds as many bytes as one takes.
    pub fn read(&self, storage: &Storage) -> (value: Option<T>)
        requires
            storage@.wf(),
            self.allocation_spec().wf(storage@),
        ensures
            value == (if self.bytes(storage@).len() == vstd::layout::size_of::<T>() {
                Some(self.value(storage@))
            } else {
                None
            }),
    {
        let size: usize = core::mem::size_of::<T>();
        if self.allocation.is_live() {
            let bytes = storage.read(&self.allocation);
            if bytes.len() == size {
                Some(T::decode(bytes.as_slice()))
            } else {
                None
            }
        } else {
            let bytes: Vec<u8> = Vec::new();
            assert(bytes@ =~= Seq::<u8>::empty());
            if size == 0 {
                Some(T::decode(bytes.as_slice()))
            } else {
                None
            }
        }
    }

    /// Replaces the value.
    pub fn set(&self, storage: &mut Storage, value: T)
        requires
            old(storage)@.wf(),
            self.allocation_spec().wf(old(storage)@),
            self.allocation_spec().live_spec() == (vstd::layout::size_of::<T>() > 0),
        ensures
            final(storage)@.wf(),
            self.keeps(final(storage)@, value),
            final(storage)@ == stored(old(storage)@, self.allocation_spec(), value.bytes_of()),
    {
        proof {
            value.law_round_trips();
            if vstd::layout::size_of::<T>() == 0 {
                assert(value.bytes_of() =~= Seq::<u8>::empty());
            }
            lemma_stored(old(storage)@, self.allocation, value.bytes_of());
        }
        store(storage, &self.allocation, value.encode());
    }
}

/// The extent of `len` values, where there is one.
pub open spec fn slice_extent<T>(len: usize) -> Option<Extent> {
    match <[T] as Shape>::layout_spec(Metadata::Slice(len)) {
        Ok(extent) => Some(extent),
        Err(_) => None,
    }
}

/// Why `len` values get no block.
pub open spec fn slice_error<T>(
    storage: super::storage::StorageView,
    len: usize,
) -> Option<ReserveError<()>> {
    match slice_extent::<T>(len) {
        None => Some(ReserveError::BlockTooLarge(())),
        Some(extent) => super::storage::claim_error(storage, extent),
    }
}

impl PoolRef {
    /// Takes a block for `len` values.
    pub fn reserve_slice<T: Repr>(&self, storage: &mut Storage, len: usize) -> (reserved: Result<
        Vacant<[T]>,
        ReserveError<()>,
    >)
        requires
            old(storage)@.wf(),
            self.wf(),
        ensures
            final(storage)@.wf(),
            match slice_error::<T>(old(storage)@, len) {
                Some(error) => reserved == Err::<Vacant<[T]>, ReserveError<()>>(error)
                    && final(storage)@ == old(storage)@,
                None => reserved matches Ok(vacant) && super::storage::claims(
                    old(storage)@,
                    self.id,
                    self.owner,
                    slice_extent::<T>(len)->0,
                    vacant.allocation_spec(),
                ) && vacant.shape() == Metadata::Slice(len)
                    && vacant.allocation_spec().live_spec() == (len * vstd::layout::size_of::<T>()
                    > 0) && final(storage)@ == vacant.allocation_spec().taken(old(storage)@),
            },
    {
        let one = Extent::of::<T>();
        let layout = match <[T] as Shape>::layout(Metadata::Slice(len)) {
            Ok(layout) => layout,
            Err(_) => return Err(ReserveError::BlockTooLarge(())),
        };
        proof {
            assert(one == crate::token::extent_of::<T>());
            assert(layout.size == one.size * len);
            assert(one.size * len == len * one.size) by (nonlinear_arith);
        }
        match storage.claim(self.id, self.owner, layout) {
            Ok(allocation) => Ok(
                Vacant { allocation, metadata: Metadata::Slice(len), value: PhantomData },
            ),
            Err(error) => Err(error),
        }
    }

    /// Takes a block for `len` bytes.
    pub fn reserve_bytes(&self, storage: &mut Storage, len: usize) -> (reserved: Result<
        Vacant<[u8]>,
        ReserveError<()>,
    >)
        requires
            old(storage)@.wf(),
            self.wf(),
        ensures
            final(storage)@.wf(),
            match slice_error::<u8>(old(storage)@, len) {
                Some(error) => reserved == Err::<Vacant<[u8]>, ReserveError<()>>(error)
                    && final(storage)@ == old(storage)@,
                None => reserved matches Ok(vacant) && super::storage::claims(
                    old(storage)@,
                    self.id,
                    self.owner,
                    slice_extent::<u8>(len)->0,
                    vacant.allocation_spec(),
                ) && vacant.shape() == Metadata::Slice(len)
                    && vacant.allocation_spec().live_spec() == (len > 0) && final(storage)@
                    == vacant.allocation_spec().taken(old(storage)@),
            },
    {
        broadcast use vstd::layout::layout_of_primitives;

        self.reserve_slice::<u8>(storage, len)
    }

    /// Copies values into a block of their own.
    pub fn copy<T: Plain>(&self, storage: &mut Storage, values: &[T]) -> (copied: Result<
        Block<[T]>,
        ReserveError<()>,
    >)
        requires
            old(storage)@.wf(),
            self.wf(),
        ensures
            final(storage)@.wf(),
            match slice_error::<T>(old(storage)@, values@.len() as usize) {
                Some(error) => copied == Err::<Block<[T]>, ReserveError<()>>(error)
                    && final(storage)@ == old(storage)@,
                None => copied matches Ok(block) && super::storage::claims(
                    old(storage)@,
                    self.id,
                    self.owner,
                    slice_extent::<T>(values@.len() as usize)->0,
                    block.allocation_spec(),
                ) && block.keeps_all(final(storage)@, values@) && final(storage)@ == stored(
                    block.allocation_spec().taken(old(storage)@),
                    block.allocation_spec(),
                    crate::plain::bytes_of_all(values@),
                ),
            },
    {
        let vacant = match self.reserve_slice::<T>(storage, values.len()) {
            Ok(vacant) => vacant,
            Err(error) => return Err(error),
        };
        Ok(vacant.write_all(storage, values))
    }

    /// Fills a block with `len` values that `make` makes.
    pub fn init<T: Plain, F: Fn(usize) -> T>(&self, storage: &mut Storage, len: usize, make: F) -> (
    made: Result<Block<[T]>, ReserveError<()>>)
        requires
            old(storage)@.wf(),
            self.wf(),
            forall|index: usize| index < len ==> make.requires((index,)),
        ensures
            final(storage)@.wf(),
            match slice_error::<T>(old(storage)@, len) {
                Some(error) => made == Err::<Block<[T]>, ReserveError<()>>(error)
                    && final(storage)@ == old(storage)@,
                None => made matches Ok(block) && super::storage::claims(
                    old(storage)@,
                    self.id,
                    self.owner,
                    slice_extent::<T>(len)->0,
                    block.allocation_spec(),
                ) && block.shape() == Metadata::Slice(len) && block.values(
                    final(storage)@,
                ).len() == len && block.keeps_all(
                    final(storage)@,
                    block.values(final(storage)@),
                ) && (forall|i: usize|
                    i < len ==> make.ensures(
                        (i,),
                        #[trigger] block.values(final(storage)@)[i as int],
                    )) && final(storage)@ == stored(
                    block.allocation_spec().taken(old(storage)@),
                    block.allocation_spec(),
                    crate::plain::bytes_of_all(block.values(final(storage)@)),
                ),
            },
    {
        let vacant = match self.reserve_slice::<T>(storage, len) {
            Ok(vacant) => vacant,
            Err(error) => return Err(error),
        };
        let mut values: Vec<T> = Vec::new();
        while values.len() < len
            invariant
                values@.len() <= len,
                forall|index: usize| index < len ==> make.requires((index,)),
                forall|i: usize|
                    i < values@.len() ==> make.ensures((i,), #[trigger] values@[i as int]),
            decreases len - values@.len(),
        {
            let index: usize = values.len();
            values.push(make(index));
        }
        Ok(vacant.write_all(storage, values.as_slice()))
    }
}

impl<T: Plain> Vacant<[T]> {
    fn write_all(self, storage: &mut Storage, values: &[T]) -> (block: Block<[T]>)
        requires
            old(storage)@.wf(),
            self.allocation_spec().wf(old(storage)@),
            self.shape() == Metadata::Slice(values@.len() as usize),
            self.allocation_spec().live_spec() == (values@.len() * vstd::layout::size_of::<T>()
                > 0),
        ensures
            final(storage)@.wf(),
            block.allocation_spec() == self.allocation_spec(),
            block.keeps_all(final(storage)@, values@),
            final(storage)@ == stored(
                old(storage)@,
                self.allocation_spec(),
                crate::plain::bytes_of_all(values@),
            ),
    {
        store(storage, &self.allocation, encode_all(values));
        let block = Block { allocation: self.allocation, metadata: self.metadata, value: PhantomData };
        proof {
            assert(values@.len() == values.len());
            lemma_kept::<T>(block, old(storage)@, values@);
        }
        block
    }
}

/// Values that were written to a block can be read in it.
proof fn lemma_kept<T: Plain>(
    block: Block<[T]>,
    storage: super::storage::StorageView,
    values: Seq<T>,
)
    requires
        storage.wf(),
        block.allocation_spec().wf(storage),
        values.len() <= usize::MAX,
        block.shape() == Metadata::Slice(values.len() as usize),
        block.allocation_spec().live_spec() == (values.len() * vstd::layout::size_of::<T>() > 0),
    ensures
        block.keeps_all(
            stored(storage, block.allocation_spec(), crate::plain::bytes_of_all(values)),
            values,
        ),
{
    let bytes = crate::plain::bytes_of_all(values);
    let after = stored(storage, block.allocation_spec(), bytes);
    crate::plain::law_all_round_trip(values);
    lemma_stored(storage, block.allocation_spec(), bytes);
    if !block.allocation_spec().live_spec() {
        assert(bytes =~= Seq::<u8>::empty());
    }
    assert(block.bytes(after) == bytes);
    assert(bytes.len() == crate::plain::width_of_all::<T>(values.len())) by {
        reveal(crate::plain::width_of_all);
    }
}

impl Vacant<[u8]> {
    /// How many bytes this block is for.
    pub open spec fn capacity(self) -> int {
        match self.shape() {
            Metadata::Slice(len) => len as int,
            Metadata::Sized => 0,
        }
    }

    /// Keeps the first bytes that were written, as many as were written; hands
    /// the block back where it was made for fewer.
    pub fn written(self, storage: &mut Storage, bytes: Vec<u8>) -> (filled: Result<Block<[u8]>, Self>)
        requires
            old(storage)@.wf(),
            self.allocation_spec().wf(old(storage)@),
            self.allocation_spec().live_spec() == (self.capacity() > 0),
        ensures
            final(storage)@.wf(),
            if bytes@.len() > self.capacity() {
                filled == Err::<Block<[u8]>, Self>(self) && final(storage)@ == old(storage)@
            } else {
                filled matches Ok(block) && block.allocation_spec() == self.allocation_spec()
                    && block.allocation_spec().wf(final(storage)@) && block.shape()
                    == Metadata::Slice(bytes@.len() as usize)
                    && block.bytes(final(storage)@) == bytes@ && final(storage)@ == stored(
                    old(storage)@,
                    self.allocation_spec(),
                    bytes@,
                )
            },
    {
        let capacity: usize = match self.metadata {
            Metadata::Slice(len) => len,
            Metadata::Sized => 0,
        };
        let written: usize = bytes.len();
        if written > capacity {
            return Err(self);
        }
        proof {
            lemma_stored(old(storage)@, self.allocation, bytes@);
            if !self.allocation.live_spec() {
                assert(bytes@ =~= Seq::<u8>::empty());
            }
        }
        store(storage, &self.allocation, bytes);
        Ok(
            Block {
                allocation: self.allocation,
                metadata: Metadata::Slice(written),
                value: PhantomData,
            },
        )
    }
}

impl<T: Plain> Block<[T]> {
    /// The values in this block.
    pub open spec fn values(self, storage: super::storage::StorageView) -> Seq<T> {
        match self.shape() {
            Metadata::Slice(len) => crate::plain::values_of::<T>(self.bytes(storage), len as nat),
            Metadata::Sized => Seq::empty(),
        }
    }

    /// This block can be read, and the values are in it.
    pub open spec fn keeps_all(self, storage: super::storage::StorageView, values: Seq<T>) -> bool {
        &&& self.allocation_spec().wf(storage)
        &&& self.shape() == Metadata::Slice(values.len() as usize)
        &&& self.bytes(storage).len() == crate::plain::width_of_all::<T>(values.len())
        &&& self.values(storage) == values
    }

    /// Reads the values, where the block holds as many bytes as they take.
    pub fn read_all(&self, storage: &Storage) -> (values: Option<Vec<T>>)
        requires
            storage@.wf(),
            self.allocation_spec().wf(storage@),
        ensures
            match self.shape() {
                Metadata::Slice(len) => if self.bytes(storage@).len()
                    == crate::plain::width_of_all::<T>(len as nat) {
                    values matches Some(values) && values@ == self.values(storage@)
                } else {
                    values is None
                },
                Metadata::Sized => values is None,
            },
    {
        let len: usize = match self.metadata {
            Metadata::Slice(len) => len,
            Metadata::Sized => return None,
        };
        if self.allocation.is_live() {
            read_values::<T>(storage.read(&self.allocation), len)
        } else {
            let bytes: Vec<u8> = Vec::new();
            proof {
                assert(bytes@ =~= Seq::<u8>::empty());
            }
            read_values::<T>(&bytes, len)
        }
    }
}

/// The values that `bytes` hold, where they hold `len` of them.
fn read_values<T: Plain>(bytes: &Vec<u8>, len: usize) -> (values: Option<Vec<T>>)
    ensures
        match values {
            Some(values) => values@ == crate::plain::values_of::<T>(bytes@, len as nat),
            None => true,
        },
        values is Some <==> bytes@.len() == crate::plain::width_of_all::<T>(len as nat),
{
    match count_bytes::<T>(len) {
        Some(expected) => {
            if bytes.len() == expected {
                Some(decode_all::<T>(bytes.as_slice(), len))
            } else {
                None
            }
        },
        None => {
            assert(bytes@.len() == bytes.len());
            None
        },
    }
}

impl<T: Repr + Shape + ?Sized> Block<T> {
    /// The locator of this block under a protocol's header.
    pub open spec fn locates<H: Repr>(self, token: Token<H>, header: H) -> bool {
        let allocation = self.allocation_spec();
        &&& token.header() == header
        &&& token.token().pool() == allocation.pool_spec()
        &&& token.token().span().class == allocation.class_spec()
        &&& token.token().span().slot == allocation.slot_spec()
        &&& token.token().generation() == allocation.generation_spec()
        &&& token.token().metadata_spec() == Some(self.shape())
        &&& token.token().id() == crate::msg::type_id_spec(H::repr_spec(), T::repr_spec())
    }

    /// Makes the block ready to be sent.
    pub fn transfer<H: Repr>(self, header: H) -> (transfer: Transfer<H>)
        ensures
            transfer.allocation_spec() == self.allocation_spec(),
            self.locates(transfer.token_spec(), header),
    {
        let token = PoolToken::new(
            self.allocation.pool(),
            Span { class: self.allocation.class(), slot: self.allocation.slot() },
            self.allocation.generation(),
            self.metadata,
            type_id::<H, T>(),
        );
        Transfer { allocation: self.allocation, token: Token::new(token, header) }
    }
}

impl<H: Repr> Transfer<H> {
    pub closed spec fn allocation_spec(self) -> Allocation {
        self.allocation
    }

    pub closed spec fn token_spec(self) -> Token<H> {
        self.token
    }

    /// The same block with the header that `map` makes of the present one.
    pub fn map<T: Repr, F: FnOnce(H) -> T>(self, map: F) -> (mapped: Transfer<T>)
        requires
            map.requires((self.token_spec().header(),)),
        ensures
            mapped.allocation_spec() == self.allocation_spec(),
            mapped.token_spec().token() == self.token_spec().token(),
            map.ensures((self.token_spec().header(),), mapped.token_spec().header()),
    {
        Transfer { allocation: self.allocation, token: self.token.map(map) }
    }

    /// The same block with a header that was worked on.
    pub fn update<F: FnOnce(&mut H)>(&mut self, update: F)
        requires
            forall|header: &mut H|
                *header == old(self).token_spec().header() ==> #[trigger] call_requires(
                    update,
                    (header,),
                ),
        ensures
            final(self).allocation_spec() == old(self).allocation_spec(),
            final(self).token_spec().token() == old(self).token_spec().token(),
            exists|header: &mut H|
                *header == old(self).token_spec().header() && *final(header)
                    == final(self).token_spec().header() && #[trigger] call_ensures(
                    update,
                    (header,),
                    (),
                ),
    {
        self.token.update(update);
    }

    pub fn into_parts(self) -> (parts: (Allocation, Token<H>))
        ensures
            parts == (self.allocation_spec(), self.token_spec()),
    {
        (self.allocation, self.token)
    }

    pub fn from_parts(allocation: Allocation, token: Token<H>) -> (transfer: Self)
        ensures
            transfer.allocation_spec() == allocation,
            transfer.token_spec() == token,
    {
        Transfer { allocation, token }
    }
}

/// Why a locator is not adopted as a block of `T`.
pub open spec fn adopt_refused<H: Repr, T: Repr + Shape + ?Sized>(
    storage: super::storage::StorageView,
    pool: LayoutId,
    token: PoolToken,
) -> Option<AdoptError> {
    let layout = T::layout_spec(token.metadata_spec()->0);
    let class = storage.classes[token.span().class as int];
    let id = crate::msg::type_id_spec(H::repr_spec(), T::repr_spec());
    if token.id() != id || token.metadata_spec() is None || layout is Err {
        Some(AdoptError::Type)
    } else if (layout->Ok_0).size > 0 && (token.span().class >= storage.classes.len()
        || token.generation() == 0 || token.span().slot >= class.slots || (layout->Ok_0).size
        > class.bytes || (layout->Ok_0).align > class.bytes) {
        Some(AdoptError::Span)
    } else {
        super::storage::takeover_refused(storage, pool, token)
    }
}

impl PoolRef {
    /// Takes over the block of a locator that somebody sent, as a block of `T`.
    pub fn adopt<H: Repr, T: Repr + Shape + ?Sized>(
        &self,
        storage: &mut Storage,
        transfer: &Token<H>,
    ) -> (adopted: Result<Block<T>, AdoptError>)
        requires
            old(storage)@.wf(),
            self.wf(),
        ensures
            final(storage)@.wf(),
            match adopt_refused::<H, T>(old(storage)@, self.id, transfer.token()) {
                Some(error) => adopted == Err::<Block<T>, AdoptError>(error) && final(storage)@
                    == old(storage)@,
                None => adopted matches Ok(block) && super::storage::takes_over(
                    old(storage)@,
                    self.id,
                    self.owner,
                    transfer.token(),
                    block.allocation_spec(),
                ) && transfer.token().metadata_spec() == Some(block.shape())
                    && final(storage)@ == block.allocation_spec().taken(old(storage)@),
            },
    {
        let token = transfer.get_token();
        if token.get_id() != type_id::<H, T>() {
            return Err(AdoptError::Type);
        }
        let metadata = match token.metadata() {
            Some(metadata) => metadata,
            None => return Err(AdoptError::Type),
        };
        let layout = match T::layout(metadata) {
            Ok(layout) => layout,
            Err(_) => return Err(AdoptError::Type),
        };
        if layout.size > 0 {
            let class = match storage.class(token.get_span().class) {
                Some(class) => class,
                None => return Err(AdoptError::Span),
            };
            if token.get_generation() == 0 || token.get_span().slot as u64 >= class.slots
                || layout.size > class.bytes || layout.align > class.bytes {
                return Err(AdoptError::Span);
            }
        }
        match storage.takeover(self.id, self.owner, token) {
            Ok(allocation) => Ok(Block { allocation, metadata, value: PhantomData }),
            Err(error) => Err(error),
        }
    }
}

impl<T: Plain> Vacant<T> {
    /// Writes the value.
    pub fn write(self, storage: &mut Storage, value: T) -> (block: Block<T>)
        requires
            old(storage)@.wf(),
            self.allocation_spec().wf(old(storage)@),
            self.allocation_spec().live_spec() == (vstd::layout::size_of::<T>() > 0),
        ensures
            final(storage)@.wf(),
            block.allocation_spec() == self.allocation_spec(),
            block.shape() == self.shape(),
            block.keeps(final(storage)@, value),
            final(storage)@ == stored(old(storage)@, self.allocation_spec(), value.bytes_of()),
    {
        proof {
            value.law_round_trips();
            if vstd::layout::size_of::<T>() == 0 {
                assert(value.bytes_of() =~= Seq::<u8>::empty());
            }
        }
        store(storage, &self.allocation, value.encode());
        proof {
            lemma_stored(old(storage)@, self.allocation, value.bytes_of());
        }
        Block { allocation: self.allocation, metadata: self.metadata, value: PhantomData }
    }
}

} // verus!
