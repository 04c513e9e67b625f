//! The shared body of a channel: a ring for each direction, a word for each
//! role, and the byte that closes them.

use super::{Info, RoleWord};
use crate::extent::Extent;
use crate::header::layout::{header_extent, Layout};
use crate::header::record::{Magic, Status};
use crate::msg::Repr;
use crate::numeric::align_up;
use crate::queue::ring::{lap_of, Ring, RingView, Slot};
use crate::schema::{compose_schema, schema_id, LayoutContext, SchemaKey, SharedSchema};
use crate::token::Token;
use vstd::prelude::*;

verus! {

#[derive(Clone, Copy, Debug, PartialEq, Eq, Structural)]
pub enum GeometryError {
    ZeroCapacity,
    Overflow,
}

/// How a channel of a capacity lies in its region.
#[derive(Clone, Copy, Debug, PartialEq, Eq, Structural)]
pub struct Geometry {
    pub layout: Extent,
    pub slots: u64,
    pub capacity: u64,
    pub one_lap: u64,
}

/// The body's size and alignment: a byte that closes the channel, a word for
/// each role, and lines of their own for the two cursors of each ring.
pub open spec fn duplex_body() -> Extent {
    let line = crate::queue::padding::line_spec();
    let word = vstd::layout::size_of::<usize>();
    let roles = crate::extent::place(1, word as int) + 2 * word;
    Extent {
        size: (crate::extent::place(roles, line as int) + 4 * line) as u64,
        align: line,
    }
}

pub open spec fn duplex_info() -> Extent {
    Extent { size: 8, align: 8 }
}

/// The header of a channel.
pub open spec fn duplex_header() -> Extent {
    Extent {
        size: crate::header::layout::header_size_spec(duplex_info(), duplex_body()) as u64,
        align: crate::header::layout::header_align_spec(duplex_info(), duplex_body()),
    }
}

/// The header of a channel is an extent.
pub open spec fn has_header() -> bool {
    &&& duplex_body().wf()
    &&& crate::header::layout::header_fits(duplex_info(), duplex_body())
    &&& crate::header::layout::header_size_spec(duplex_info(), duplex_body())
        == duplex_header().size
    &&& duplex_header().wf()
    &&& duplex_header().size > 0
}

/// The body's extent on this target.
fn body_extent() -> (extent: Extent)
    ensures
        extent == duplex_body(),
        extent.wf(),
        extent.size <= 2048,
        16 <= extent.align <= 256,
{
    let line: u64 = crate::queue::padding::line().align;
    let word: u64 = core::mem::size_of::<usize>() as u64;
    proof {
        broadcast use vstd::layout::layout_of_primitives;

        crate::header::layout::lemma_small_alignments();
        crate::numeric::lemma_align_up(1, word as int);
        crate::extent::lemma_power_positive(line as int);
        crate::numeric::lemma_align_up(word + 2 * word, line as int);
    }
    let roles: u64 = align_up(1, word) + 2 * word;
    let rings: u64 = align_up(roles, line);
    Extent { size: rings + 4 * line, align: line }
}

/// The extent that every channel sets aside for its header.
pub fn channel_header() -> (extent: Extent)
    ensures
        extent == duplex_header(),
        has_header(),
{
    let body: Extent = body_extent();
    let info = Extent { size: 8, align: 8 };
    proof {
        crate::header::layout::lemma_small_alignments();
        lemma_header(body);
    }
    match header_extent(info, body) {
        Some(extent) => extent,
        // The header fits, so this does not happen.
        None => info,
    }
}

/// The geometry of a capacity, for slots of the given extent. The header is an
/// extent on every target, as [`channel_header`] shows.
pub open spec fn geometry_for(slot: Extent, capacity: u64) -> Result<Geometry, GeometryError> {
    let count = 2 * capacity;
    let header = duplex_header();
    let at = crate::extent::place(header.size as int, slot.align as int);
    let align = crate::extent::larger(header.align, slot.align);
    let size = at + slot.size * count;
    let lap = crate::numeric::power_at_least((capacity + 1) as nat);
    if capacity == 0 {
        Err(GeometryError::ZeroCapacity)
    } else if !has_header() || count > u64::MAX || !crate::extent::is_extent(
        slot.size * count,
        slot.align as int,
    ) || !crate::extent::is_extent(size, align as int) || lap > u64::MAX {
        Err(GeometryError::Overflow)
    } else {
        Ok(
            Geometry {
                layout: Extent {
                    size: crate::extent::place(size, align as int) as u64,
                    align,
                },
                slots: at as u64,
                capacity,
                one_lap: lap as u64,
            },
        )
    }
}

/// The shared body of a channel that carries headers of `H`.
pub struct Duplex<H: Repr> {
    pub lifecycle: u8,
    pub first_role: u64,
    pub second_role: u64,
    pub left: Ring<Token<H>>,
    pub right: Ring<Token<H>>,
}

/// The extent of one slot of a channel.
pub open spec fn slot_extent<H: Repr>() -> Extent {
    crate::token::extent_of::<Slot<Token<H>>>()
}

impl<H: Repr> Duplex<H> {
    pub open spec fn geometry_spec(capacity: u64) -> Result<Geometry, GeometryError> {
        geometry_for(slot_extent::<H>(), capacity)
    }

    /// The word of a role.
    pub open spec fn role(self, index: int) -> RoleWord {
        RoleWord(
            if index == 0 {
                self.first_role
            } else {
                self.second_role
            },
        )
    }

    /// The ring of a direction.
    pub open spec fn ring(self, direction: int) -> RingView<Token<H>> {
        if direction == 0 {
            self.left@
        } else {
            self.right@
        }
    }

    /// Everything but the roles is as in `other`.
    pub open spec fn same_rings(self, other: Self) -> bool {
        &&& self.lifecycle == other.lifecycle
        &&& self.left == other.left
        &&& self.right == other.right
    }

    /// Both rings are ones that the steps of any number of participants lead to.
    pub open spec fn ordered(self) -> bool {
        self.left@.ordered() && self.right@.ordered()
    }

    /// Whether both rings are in order.
    pub fn in_order(&self) -> (ordered: bool)
        ensures
            ordered == self.ordered(),
    {
        self.left.in_order() && self.right.in_order()
    }

    /// Lays out a channel of `capacity` items for each direction.
    pub fn geometry(capacity: u64) -> (geometry: Result<Geometry, GeometryError>)
        ensures
            geometry == Self::geometry_spec(capacity),
            has_header(),
            geometry matches Ok(geometry) ==> geometry.layout.wf() && geometry.layout.size > 0
                && geometry.slots as int % slot_extent::<H>().align as int == 0
                && geometry.layout.size as int % geometry.layout.align as int == 0,
    {
        let header: Extent = channel_header();
        if capacity == 0 {
            return Err(GeometryError::ZeroCapacity);
        }
        let count: u64 = match capacity.checked_mul(2) {
            Some(count) => count,
            None => return Err(GeometryError::Overflow),
        };
        let slot = Extent::of::<Slot<Token<H>>>();
        proof {
            crate::header::layout::lemma_small_alignments();
            crate::extent::lemma_power_positive(slot.align as int);
            crate::numeric::lemma_align_up(header.size as int, slot.align as int);
        }
        let slots = match Extent::array(slot, count) {
            Some(slots) => slots,
            None => return Err(GeometryError::Overflow),
        };
        let (layout, at): (Extent, u64) = match header.extend(slots) {
            Some(joined) => joined,
            None => return Err(GeometryError::Overflow),
        };
        let one_lap: u64 = match lap_of(capacity) {
            Some(lap) => lap,
            None => return Err(GeometryError::Overflow),
        };
        proof {
            crate::extent::lemma_power_positive(layout.align as int);
            crate::numeric::lemma_align_up(layout.size as int, layout.align as int);
        }
        Ok(Geometry { layout: layout.pad_to_align(), slots: at, capacity, one_lap })
    }

    /// A channel of empty rings whose roles nobody holds.
    pub fn blank(capacity: usize) -> (made: Option<Self>)
        requires
            capacity > 0,
        ensures
            match made {
                Some(duplex) => is_blank(duplex, capacity as u64),
                None => crate::numeric::power_at_least((capacity + 1) as nat) > u64::MAX,
            },
    {
        match (Ring::new(capacity), Ring::new(capacity)) {
            (Some(left), Some(right)) => Some(
                Duplex { lifecycle: 0, first_role: 0, second_role: 0, left, right },
            ),
            _ => None,
        }
    }
}

/// Nothing was ever sent in the channel, and nobody ever held a role.
pub open spec fn is_blank<H: Repr>(duplex: Duplex<H>, capacity: u64) -> bool {
    let lap = crate::numeric::power_at_least((capacity + 1) as nat);
    &&& duplex.lifecycle == 0
    &&& duplex.first_role == 0
    &&& duplex.second_role == 0
    &&& duplex.left@ == crate::queue::ring::fresh::<Token<H>>(capacity as int, lap as u64)
    &&& duplex.right@ == crate::queue::ring::fresh::<Token<H>>(capacity as int, lap as u64)
    &&& duplex.left@.shaped()
    &&& duplex.right@.shaped()
}

impl<H: Repr> SharedSchema for Duplex<H> {
    open spec fn schema_spec() -> SchemaKey {
        crate::schema::compose_spec(
            SchemaKey { id: crate::schema::schema_id_spec("evering.duplex"), revision: 5 },
            <Token<H> as SharedSchema>::schema_spec(),
        )
    }

    fn schema() -> (key: SchemaKey) {
        compose_schema(
            SchemaKey::new(schema_id("evering.duplex"), 5),
            <Token<H> as SharedSchema>::schema(),
        )
    }
}

impl<H: Repr> Layout for Duplex<H> {
    type Config = u64;

    type Info = Info;

    open spec fn magic_spec() -> Magic {
        0xD0A1
    }

    open spec fn body_spec() -> Extent {
        duplex_body()
    }

    open spec fn info_extent_spec() -> Extent {
        duplex_info()
    }

    open spec fn storage_spec(conf: u64) -> Option<Extent> {
        match Self::geometry_spec(conf) {
            Ok(geometry) => Some(geometry.layout),
            Err(_) => None,
        }
    }

    open spec fn info_spec(conf: u64, ctx: LayoutContext) -> Info {
        super::info_of(
            if Self::geometry_spec(conf) is Ok {
                conf
            } else {
                0
            },
        )
    }

    open spec fn init_spec(conf: u64, made: Result<Self, Status>) -> bool {
        if Self::geometry_spec(conf) is Ok && conf <= usize::MAX {
            made matches Ok(duplex) && is_blank(duplex, conf)
        } else {
            made == Err::<Self, Status>(Status::Corrupted)
        }
    }

    open spec fn attach_spec(&self, conf: u64) -> Status {
        if Self::geometry_spec(conf) is Ok {
            Status::Initialized
        } else {
            Status::Corrupted
        }
    }

    fn magic() -> (magic: Magic) {
        0xD0A1
    }

    fn body() -> (extent: Extent) {
        body_extent()
    }

    fn info_extent() -> (extent: Extent) {
        proof {
            crate::header::layout::lemma_small_alignments();
        }
        Extent { size: 8, align: 8 }
    }

    fn storage(conf: &u64) -> (extent: Option<Extent>) {
        match Self::geometry(*conf) {
            Ok(geometry) => Some(geometry.layout),
            Err(_) => None,
        }
    }

    fn info(conf: &u64, ctx: LayoutContext) -> (info: Info) {
        match Self::geometry(*conf) {
            Ok(_) => Info::of(*conf),
            Err(_) => Info::of(0),
        }
    }

    fn init(conf: u64) -> (made: Result<Self, Status>) {
        match Self::geometry(conf) {
            Ok(_) => {},
            Err(_) => return Err(Status::Corrupted),
        }
        if conf > usize::MAX as u64 {
            return Err(Status::Corrupted);
        }
        match Self::blank(conf as usize) {
            Some(duplex) => Ok(duplex),
            None => Err(Status::Corrupted),
        }
    }

    fn attach(&self, conf: &u64) -> (status: Status) {
        match Self::geometry(*conf) {
            Ok(_) => Status::Initialized,
            Err(_) => Status::Corrupted,
        }
    }
}

proof fn lemma_header(body: Extent)
    requires
        body.wf(),
        body == duplex_body(),
        body.size <= 2048,
        16 <= body.align <= 256,
    ensures
        has_header(),
{
    crate::header::layout::lemma_small_alignments();
    crate::extent::lemma_power_positive(body.align as int);
    crate::numeric::lemma_align_up(144, body.align as int);
    let inner = crate::extent::place(144, body.align as int);
    crate::numeric::lemma_align_up(inner + body.size, body.align as int);
    crate::extent::lemma_padded_stays_below(inner + body.size, body.align as int);
}

/// Nothing is in the rings of a channel in which nothing was ever sent.
pub proof fn law_blank_channels_are_empty<H: Repr>(duplex: Duplex<H>, capacity: u64)
    requires
        is_blank(duplex, capacity),
    ensures
        duplex.ordered(),
        duplex.left@.contents().len() == 0,
        duplex.right@.contents().len() == 0,
{
    crate::queue::order::law_fresh_ring_is_ordered::<Token<H>>(
        capacity as int,
        duplex.left@.lap,
    );
}

/// A channel that can be laid out takes an extent that is not empty.
pub proof fn lemma_channel_extent<H: Repr>(capacity: u64)
    ensures
        Duplex::<H>::geometry_spec(capacity) matches Ok(geometry) ==> geometry.layout.wf()
            && geometry.layout.size > 0,
{
    let slot = slot_extent::<H>();
    let header = duplex_header();
    let at = crate::extent::place(header.size as int, slot.align as int);
    let align = crate::extent::larger(header.align, slot.align);
    let size = at + slot.size * (2 * capacity);
    if crate::extent::is_extent(size, align as int) {
        crate::extent::lemma_power_positive(align as int);
        crate::numeric::lemma_align_up(size, align as int);
        crate::extent::lemma_padded_stays_below(size, align as int);
        if crate::extent::is_extent(slot.size * (2 * capacity), slot.align as int) {
            crate::extent::lemma_power_positive(slot.align as int);
            crate::numeric::lemma_align_up(header.size as int, slot.align as int);
            assert(0 <= slot.size * (2 * capacity));
        }
    }
}

} // verus!
