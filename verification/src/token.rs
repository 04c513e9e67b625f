//! Locators that a queue carries in place of a value.

use crate::extent::Extent;
use crate::msg::{Repr, TypeId};
use crate::schema::{compose_schema, schema_id, LayoutId, SchemaKey, SharedSchema};
use vstd::prelude::*;

verus! {

/// A slot of one size class of a pool.
#[derive(Clone, Copy, Debug, PartialEq, Eq, Structural)]
pub struct Span {
    pub class: usize,
    pub slot: usize,
}

/// Mechanical metadata of sized values and slices.
#[derive(Clone, Copy, Debug, PartialEq, Eq, Structural)]
pub enum Metadata {
    Sized,
    Slice(usize),
}

#[derive(Clone, Copy, Debug, PartialEq, Eq, Structural)]
pub enum MetadataError {
    WrongKind,
    Overflow,
}

/// A locator carried by the queue. It never authorizes reconstruction.
#[derive(Debug)]
pub struct PoolToken {
    pub(crate) pool: LayoutId,
    pub(crate) id: TypeId,
    pub(crate) span: Span,
    pub(crate) generation: u32,
    pub(crate) metadata_kind: u64,
    pub(crate) metadata_len: usize,
}

impl PoolToken {
    pub closed spec fn pool(&self) -> LayoutId {
        self.pool
    }

    pub closed spec fn id(&self) -> TypeId {
        self.id
    }

    pub closed spec fn span(&self) -> Span {
        self.span
    }

    pub closed spec fn generation(&self) -> u32 {
        self.generation
    }

    /// What the two metadata words say, where they say anything.
    pub closed spec fn metadata_spec(&self) -> Option<Metadata> {
        if self.metadata_kind == 0 && self.metadata_len == 0 {
            Some(Metadata::Sized)
        } else if self.metadata_kind == 1 {
            Some(Metadata::Slice(self.metadata_len))
        } else {
            None
        }
    }

    pub fn new(pool: LayoutId, span: Span, generation: u32, metadata: Metadata, id: TypeId) -> (token:
        Self)
        ensures
            token.pool() == pool,
            token.span() == span,
            token.generation() == generation,
            token.id() == id,
            token.metadata_spec() == Some(metadata),
    {
        let (metadata_kind, metadata_len): (u64, usize) = match metadata {
            Metadata::Sized => (0, 0),
            Metadata::Slice(len) => (1, len),
        };
        PoolToken { pool, id, span, generation, metadata_kind, metadata_len }
    }

    pub fn get_pool(&self) -> (pool: LayoutId)
        ensures
            pool == self.pool(),
    {
        self.pool
    }

    pub fn get_id(&self) -> (id: TypeId)
        ensures
            id == self.id(),
    {
        self.id
    }

    pub fn get_span(&self) -> (span: Span)
        ensures
            span == self.span(),
    {
        self.span
    }

    pub fn get_generation(&self) -> (generation: u32)
        ensures
            generation == self.generation(),
    {
        self.generation
    }

    pub fn metadata(&self) -> (metadata: Option<Metadata>)
        ensures
            metadata == self.metadata_spec(),
    {
        if self.metadata_kind == 0 && self.metadata_len == 0 {
            Some(Metadata::Sized)
        } else if self.metadata_kind == 1 {
            Some(Metadata::Slice(self.metadata_len))
        } else {
            None
        }
    }
}

/// A locator together with the user's header.
#[derive(Debug)]
pub struct Token<H: Repr> {
    pub(crate) token: PoolToken,
    pub(crate) header: H,
}

impl<H: Repr> Token<H> {
    pub closed spec fn token(&self) -> PoolToken {
        self.token
    }

    pub closed spec fn header(&self) -> H {
        self.header
    }

    pub fn new(token: PoolToken, header: H) -> (made: Self)
        ensures
            made.token() == token,
            made.header() == header,
    {
        Token { token, header }
    }

    pub fn get_token(&self) -> (token: &PoolToken)
        ensures
            *token == self.token(),
    {
        &self.token
    }

    pub fn into_header(self) -> (header: H)
        ensures
            header == self.header(),
    {
        self.header
    }

    /// The same locator with the header that `map` makes of the present one.
    pub fn map<T: Repr, F: FnOnce(H) -> T>(self, map: F) -> (mapped: Token<T>)
        requires
            map.requires((self.header(),)),
        ensures
            mapped.token() == self.token(),
            map.ensures((self.header(),), mapped.header()),
    {
        Token { token: self.token, header: map(self.header) }
    }

    /// The same locator with a header that was worked on.
    pub fn update<F: FnOnce(&mut H)>(&mut self, update: F)
        requires
            forall|header: &mut H|
                *header == old(self).header() ==> #[trigger] call_requires(update, (header,)),
        ensures
            final(self).token() == old(self).token(),
            exists|header: &mut H|
                *header == old(self).header() && *final(header) == final(self).header()
                    && #[trigger] call_ensures(update, (header,), ()),
    {
        update(&mut self.header);
    }
}

impl<H: Repr> SharedSchema for Token<H> {
    open spec fn schema_spec() -> SchemaKey {
        crate::schema::compose_spec(crate::msg::named("evering.transfer"), H::repr_spec())
    }

    fn schema() -> (key: SchemaKey) {
        compose_schema(SchemaKey::new(schema_id("evering.transfer"), 1), H::repr_schema())
    }
}

impl<H: Repr> Repr for Token<H> {
    open spec fn repr_spec() -> SchemaKey {
        <Self as SharedSchema>::schema_spec()
    }

    fn repr_schema() -> (key: SchemaKey) {
        <Self as SharedSchema>::schema()
    }
}

/// Mechanical metadata of sized values and slices.
pub trait Shape {
    spec fn metadata_spec(&self) -> Metadata;

    spec fn layout_spec(metadata: Metadata) -> Result<Extent, MetadataError>;

    fn metadata(&self) -> (metadata: Metadata)
        ensures
            metadata == self.metadata_spec(),
    ;

    /// The extent that `metadata` gives a value of this type.
    fn layout(metadata: Metadata) -> (layout: Result<Extent, MetadataError>)
        ensures
            layout == Self::layout_spec(metadata),
    ;
}

/// The extent of one value of `T`, as the compiler lays it out.
pub open spec fn extent_of<T>() -> Extent {
    Extent {
        size: vstd::layout::size_of::<T>() as u64,
        align: vstd::layout::align_of::<T>() as u64,
    }
}

impl<T> Shape for T {
    open spec fn metadata_spec(&self) -> Metadata {
        Metadata::Sized
    }

    open spec fn layout_spec(metadata: Metadata) -> Result<Extent, MetadataError> {
        match metadata {
            Metadata::Sized => Ok(extent_of::<T>()),
            Metadata::Slice(_) => Err(MetadataError::WrongKind),
        }
    }

    fn metadata(&self) -> (metadata: Metadata) {
        Metadata::Sized
    }

    fn layout(metadata: Metadata) -> (layout: Result<Extent, MetadataError>) {
        match metadata {
            Metadata::Sized => Ok(Extent::of::<T>()),
            Metadata::Slice(_) => Err(MetadataError::WrongKind),
        }
    }
}

impl<T> Shape for [T] {
    open spec fn metadata_spec(&self) -> Metadata {
        Metadata::Slice(self@.len() as usize)
    }

    open spec fn layout_spec(metadata: Metadata) -> Result<Extent, MetadataError> {
        match metadata {
            Metadata::Slice(len) => {
                let one = extent_of::<T>();
                if crate::extent::is_extent(one.size * len, one.align as int) {
                    Ok(Extent { size: (one.size * len) as u64, align: one.align })
                } else {
                    Err(MetadataError::Overflow)
                }
            },
            Metadata::Sized => Err(MetadataError::WrongKind),
        }
    }

    fn metadata(&self) -> (metadata: Metadata) {
        Metadata::Slice(self.len())
    }

    fn layout(metadata: Metadata) -> (layout: Result<Extent, MetadataError>) {
        match metadata {
            Metadata::Slice(len) => {
                match Extent::array(Extent::of::<T>(), len as u64) {
                    Some(extent) => Ok(extent),
                    None => Err(MetadataError::Overflow),
                }
            },
            Metadata::Sized => Err(MetadataError::WrongKind),
        }
    }
}

/// A slice is laid out as its elements are, one after the other, as long as they
/// make an extent; the metadata of one shape is none of the other.
pub proof fn law_slices_are_laid_out_as_their_elements<T>(len: usize)
    ensures
        <[T] as Shape>::layout_spec(Metadata::Slice(len)) matches Ok(extent) ==> {
            &&& extent.size == len * extent_of::<T>().size
            &&& extent.align == extent_of::<T>().align
            &&& extent.wf()
        },
        <[T] as Shape>::layout_spec(Metadata::Slice(len)) is Err ==> !crate::extent::is_extent(
            len * extent_of::<T>().size,
            extent_of::<T>().align as int,
        ),
        <T as Shape>::layout_spec(Metadata::Sized) == Ok::<Extent, MetadataError>(extent_of::<T>()),
        <[T] as Shape>::layout_spec(Metadata::Sized) is Err,
        <T as Shape>::layout_spec(Metadata::Slice(len)) is Err,
{
    let size = extent_of::<T>().size;
    assert(size * len == len * size) by (nonlinear_arith);
}

} // verus!
