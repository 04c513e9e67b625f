//! The heap behind its mutation word: only who holds the word changes it.

use super::config::{Config, TalcInfo};
use super::heap::TalcMeta;
use super::mutation::{
    clear_dead_owner, mutation_state, poison_mutation, Mutation, MutationError, MutationState,
    MUTATION_CLEAN,
};
use crate::extent::Extent;
use crate::header::layout::{Layout, RcHeader};
use crate::header::record::{Magic, Status};
use crate::header::PARTICIPANT_CAPACITY;
use crate::mem::AddrSpan;
use crate::msg::Repr;
use crate::schema::{schema_id, LayoutContext, SchemaKey, SharedSchema};
use vstd::prelude::*;

verus! {

/// Bytes of the heap's own words before its memory.
pub const META_BYTES: u64 = 24;

/// Where an allocation lies, behind the heap's base, and how long it is.
#[derive(Clone, Copy, Debug, PartialEq, Eq, Structural)]
pub struct Meta {
    pub(crate) view: AddrSpan<u64>,
}

impl Meta {
    pub closed spec fn start(self) -> int {
        self.view.start_offset as int
    }

    pub closed spec fn size(self) -> int {
        self.view.size as int
    }

    /// The allocation of nothing.
    pub fn null() -> (meta: Self)
        ensures
            meta.start() == 0,
            meta.size() == 0,
    {
        Meta { view: AddrSpan::null() }
    }

    pub fn is_null(&self) -> (null: bool)
        ensures
            null == (self.start() == 0 || self.size() == 0),
    {
        self.view.is_null()
    }

    pub fn at(start: u64, size: u64) -> (meta: Self)
        ensures
            meta.start() == start,
            meta.size() == size,
    {
        Meta { view: AddrSpan::new(start, size) }
    }

    pub fn start_offset(&self) -> (start: u64)
        ensures
            start == self.start(),
    {
        self.view.start_offset
    }

    pub fn length(&self) -> (size: u64)
        ensures
            size == self.size(),
    {
        self.view.size
    }
}

impl SharedSchema for Meta {
    open spec fn schema_spec() -> SchemaKey {
        crate::msg::named("evering.talc.meta")
    }

    fn schema() -> (key: SchemaKey) {
        SchemaKey::new(schema_id("evering.talc.meta"), 1)
    }
}

impl Repr for Meta {
    open spec fn repr_spec() -> SchemaKey {
        <Self as SharedSchema>::schema_spec()
    }

    fn repr_schema() -> (key: SchemaKey) {
        <Self as SharedSchema>::schema()
    }
}

/// A heap and the word of who may change it.
pub struct TalckMeta {
    pub mutation: u64,
    pub talc: TalcMeta,
}

/// What one allocation does to a heap.
pub open spec fn allocates(
    before: TalcMeta,
    after: TalcMeta,
    layout: Extent,
    found: Result<Meta, MutationError>,
) -> bool {
    let size = layout.size as int;
    let align = layout.align as int;
    if size == 0 {
        &&& found matches Ok(meta) && meta.start() == 0 && meta.size() == 0
        &&& after == before
    } else {
        takes_memory(before, after, size, align, found)
    }
}

/// What finding some memory does to a heap.
pub open spec fn takes_memory(
    before: TalcMeta,
    after: TalcMeta,
    size: int,
    align: int,
    found: Result<Meta, MutationError>,
) -> bool {
    &&& after.wf()
    &&& after.same_heap(before)
    &&& match found {
        Err(error) => {
            &&& error == MutationError::Exhausted
            &&& after == before
            &&& forall|c: int|
                !#[trigger] super::heap::fits(before.base_spec(), before.chunks(), c, size, align)
        },
        Ok(meta) => {
            &&& meta.size() == size
            &&& exists|b: int|
                {
                    let at = super::heap::fit_at(before.base_spec(), b, align);
                    &&& #[trigger] before.chosen(b, size, align)
                    &&& meta.start() == 8 * at
                    &&& after.chunks() == super::heap::carve(
                        before.chunks(),
                        before.extent_spec(),
                        b,
                        at,
                        size,
                    )
                    &&& after.bins_spec() == super::heap::carve_lists(
                        before.bins_spec(),
                        before.geometry_spec(),
                        before.chunks(),
                        b,
                        at,
                        size,
                    )
                }
            &&& (before.base_spec() + meta.start()) % align == 0
            &&& meta.start() + size <= 8 * before.extent_spec()
            &&& !before.live().dom().contains(meta.start())
            &&& after.live() == before.live().insert(meta.start(), size)
        },
    }
}

/// What giving an allocation back does to a heap.
pub open spec fn releases(before: TalcMeta, after: TalcMeta, meta: Meta) -> bool {
    let b = before.chunk_of(meta.start());
    &&& after.wf()
    &&& after.same_heap(before)
    &&& after.chunks() == super::heap::release(before.chunks(), before.extent_spec(), b)
    &&& after.bins_spec() == super::heap::release_lists(
        before.bins_spec(),
        before.geometry_spec(),
        before.chunks(),
        b,
    )
    &&& after.live() == before.live().remove(meta.start())
}

/// The heap holds this allocation.
pub open spec fn holds(heap: TalcMeta, meta: Meta) -> bool {
    &&& meta.size() > 0
    &&& heap.live().dom().contains(meta.start())
    &&& heap.live()[meta.start()] == meta.size()
}

/// How a failed attempt at the mutation word is reported.
pub open spec fn mutation_refused(word: u64) -> Option<MutationError> {
    match super::mutation::state_of(word) {
        MutationState::Clean => None,
        MutationState::Owned(holder) => Some(MutationError::Busy(holder)),
        MutationState::Poisoned => Some(MutationError::Poisoned),
    }
}

impl TalckMeta {
    pub open spec fn wf(self) -> bool {
        self.talc.wf()
    }

    /// The address that the heap is mapped at.
    pub fn base_ptr(&self) -> (base: u64)
        ensures
            base == self.talc.base_spec(),
    {
        self.talc.base_ptr()
    }

    /// One attempt to become the one who changes the heap.
    pub fn begin_mutation(&mut self, owner: u8) -> (begun: Result<Mutation, MutationError>)
        ensures
            final(self).talc == old(self).talc,
            match mutation_refused(old(self).mutation) {
                Some(error) => begun == Err::<Mutation, MutationError>(error)
                    && final(self).mutation == old(self).mutation,
                None => begun matches Ok(mutation) && mutation.owner_spec() == owner
                    && final(self).mutation == super::mutation::owner_word_spec(owner),
            },
    {
        Mutation::claim(&mut self.mutation, owner)
    }

    /// Ends a change that is complete.
    pub fn commit(&mut self, mutation: Mutation)
        ensures
            final(self).talc == old(self).talc,
            final(self).mutation == MUTATION_CLEAN,
    {
        mutation.commit(&mut self.mutation)
    }

    /// Takes memory under a mutation that has begun.
    pub fn allocate_during(&mut self, mutation: &Mutation, layout: Extent) -> (found: Result<
        Meta,
        MutationError,
    >)
        requires
            old(self).wf(),
            layout.wf(),
        ensures
            final(self).wf(),
            final(self).mutation == old(self).mutation,
            allocates(old(self).talc, final(self).talc, layout, found),
    {
        if layout.size == 0 {
            return Ok(Meta::null());
        }
        match self.talc.allocate(layout.size, layout.align) {
            Ok(offset) => Ok(Meta::at(offset, layout.size)),
            Err(()) => Err(MutationError::Exhausted),
        }
    }

    /// Gives memory back under a mutation that has begun. The allocation of
    /// nothing leaves the heap as it is.
    pub fn deallocate_during(&mut self, mutation: &Mutation, meta: Meta)
        requires
            old(self).wf(),
            meta.size() == 0 || holds(old(self).talc, meta),
        ensures
            final(self).wf(),
            final(self).mutation == old(self).mutation,
            if meta.size() == 0 {
                final(self).talc == old(self).talc
            } else {
                releases(old(self).talc, final(self).talc, meta)
            },
    {
        if meta.length() == 0 {
            return;
        }
        self.talc.deallocate(meta.start_offset(), meta.length());
    }

    /// Takes memory in a change of its own: one attempt, which a heap that is
    /// being changed, or is poisoned, refuses whatever the extent is.
    pub fn allocate(&mut self, owner: u8, layout: Extent) -> (found: Result<Meta, MutationError>)
        requires
            old(self).wf(),
            layout.wf(),
        ensures
            final(self).wf(),
            match mutation_refused(old(self).mutation) {
                Some(error) => found == Err::<Meta, MutationError>(error) && *final(self) == *old(self),
                None => final(self).mutation == MUTATION_CLEAN && allocates(
                    old(self).talc,
                    final(self).talc,
                    layout,
                    found,
                ),
            },
    {
        let mutation = match self.begin_mutation(owner) {
            Ok(mutation) => mutation,
            Err(error) => return Err(error),
        };
        let found = self.allocate_during(&mutation, layout);
        self.commit(mutation);
        found
    }

    /// Gives memory back in a change of its own; hands it back where the heap
    /// cannot be changed now.
    pub fn release_value(&mut self, owner: u8, meta: Meta) -> (released: Result<(), Meta>)
        requires
            old(self).wf(),
            meta.size() == 0 || holds(old(self).talc, meta),
        ensures
            final(self).wf(),
            match mutation_refused(old(self).mutation) {
                Some(_) => released == Err::<(), Meta>(meta) && *final(self) == *old(self),
                None => {
                    &&& released is Ok
                    &&& final(self).mutation == MUTATION_CLEAN
                    &&& if meta.size() == 0 {
                        final(self).talc == old(self).talc
                    } else {
                        releases(old(self).talc, final(self).talc, meta)
                    }
                },
            },
    {
        let mutation = match self.begin_mutation(owner) {
            Ok(mutation) => mutation,
            Err(_) => return Err(meta),
        };
        self.deallocate_during(&mutation, meta);
        self.commit(mutation);
        Ok(())
    }

    /// The allocation at an address, where the heap's usable memory covers it.
    pub fn meta_for(info: &TalcInfo, base: u64, address: u64, size: u64) -> (meta: Option<Meta>)
        ensures
            ({
                let offset = address - base;
                let lower = META_BYTES + info.usable_offset_spec();
                let bound = lower + info.usable_length_spec();
                let covered = 0 <= offset && bound <= u64::MAX && lower <= offset && offset + size
                    <= bound;
                match meta {
                    Some(meta) => covered && meta.start() == offset && meta.size() == size,
                    None => !covered,
                }
            }),
    {
        let offset: u64 = match address.checked_sub(base) {
            Some(offset) => offset,
            None => return None,
        };
        let lower: u64 = match META_BYTES.checked_add(info.usable_offset()) {
            Some(lower) => lower,
            None => return None,
        };
        let bound: u64 = match lower.checked_add(info.usable_length()) {
            Some(bound) => bound,
            None => return None,
        };
        let end: u64 = match offset.checked_add(size) {
            Some(end) => end,
            None => return None,
        };
        if offset >= lower && end <= bound {
            Some(Meta::at(offset, size))
        } else {
            None
        }
    }

    /// The address of an allocation.
    pub fn address(&self, meta: &Meta) -> (address: u64)
        requires
            self.wf(),
            holds(self.talc, *meta),
        ensures
            address == self.talc.base_spec() + meta.start(),
    {
        proof {
            super::heap::law_allocations_stay_inside(self.talc, meta.start());
            super::heap::law_heaps_are_addressable(self.talc);
        }
        self.base_ptr() + meta.start_offset()
    }

    pub fn mutation_state(&self) -> (state: MutationState)
        ensures
            state == super::mutation::state_of(self.mutation),
    {
        mutation_state(self.mutation)
    }

    /// Poisons the heap where `owner` was changing it.
    pub fn poison_owner(&mut self, owner: u8) -> (poisoned: bool)
        ensures
            final(self).talc == old(self).talc,
            poisoned == (old(self).mutation == super::mutation::owner_word_spec(owner)),
            final(self).mutation == (if poisoned {
                super::mutation::MUTATION_POISONED
            } else {
                old(self).mutation
            }),
    {
        poison_mutation(&mut self.mutation, owner)
    }

    /// Takes the word back from a participant that died without changing the
    /// heap.
    pub fn clear_dead_owner(&mut self, owner: u8) -> (clean: bool)
        ensures
            final(self).talc == old(self).talc,
            clean == (old(self).mutation == super::mutation::owner_word_spec(owner)
                || old(self).mutation == MUTATION_CLEAN),
            final(self).mutation == (if clean {
                MUTATION_CLEAN
            } else {
                old(self).mutation
            }),
    {
        clear_dead_owner(&mut self.mutation, owner)
    }
}

/// Ends a dead participant's membership of the heap: it must not be in the
/// middle of somebody else's change, and the dead's own change poisons it.
pub fn finish_recovery(header: &mut RcHeader<TalckMeta>, dead: u8) -> (finished: bool)
    requires
        old(header).inner is Some,
        dead < PARTICIPANT_CAPACITY,
    ensures
        final(header).record@ == old(header).record@,
        final(header).same_fields(*old(header)),
        final(header).inner is Some,
        (final(header).inner->0).talc == (old(header).inner->0).talc,
        ({
            let word = (old(header).inner->0).mutation;
            let busy = super::mutation::state_of(word) matches MutationState::Owned(owner)
                && owner != dead;
            let stuck = super::mutation::state_of(word) == MutationState::Owned(dead) && word
                != super::mutation::owner_word_spec(dead);
            &&& finished == !(busy || stuck)
            &&& (final(header).inner->0).mutation == (if word
                == super::mutation::owner_word_spec(dead) {
                super::mutation::MUTATION_POISONED
            } else {
                word
            })
            &&& final(header).members == (if finished {
                old(header).members & !crate::header::layout::member_bit(dead)
            } else {
                old(header).members
            })
            &&& finished ==> !crate::header::layout::is_member(final(header).members, dead)
        }),
{
    let mut body = match header.inner.take() {
        Some(body) => body,
        None => return false,
    };
    let free = match body.mutation_state() {
        MutationState::Clean => true,
        MutationState::Poisoned => true,
        MutationState::Owned(owner) => owner == dead && body.poison_owner(dead),
    };
    header.inner = Some(body);
    if !free {
        return false;
    }
    header.recover_member(dead);
    !header.has_member(dead)
}

impl SharedSchema for TalckMeta {
    open spec fn schema_spec() -> SchemaKey {
        SchemaKey { id: crate::schema::schema_id_spec("evering.talc"), revision: 2 }
    }

    fn schema() -> (key: SchemaKey) {
        SchemaKey::new(schema_id("evering.talc"), 2)
    }
}

/// Where a heap is mapped, and how it is configured.
pub struct Placed {
    pub base: u64,
    pub conf: Config,
}

/// Nobody is changing the heap, and nothing was ever taken of it: all of it but
/// its metadata is one free chunk.
pub open spec fn is_unused(heap: TalckMeta) -> bool {
    &&& heap.mutation == MUTATION_CLEAN
    &&& heap.talc.live() == Map::<int, int>::empty()
    &&& heap.talc.chunks() == super::heap::one_free_chunk(
        heap.talc.geometry_spec(),
        heap.talc.extent_spec(),
    )
}

/// A heap of this size can stand at this address.
pub open spec fn addressable(base: u64, size: u64) -> bool {
    &&& base % 8 == 0
    &&& base + META_BYTES + size <= u64::MAX
    &&& size / 8 + 3 <= super::links::MAX_WORDS
    &&& size / 8 + 3 <= usize::MAX
}

impl Layout for TalckMeta {
    type Config = Placed;

    type Info = TalcInfo;

    open spec fn magic_spec() -> Magic {
        0x1234
    }

    open spec fn body_spec() -> Extent {
        Extent { size: 32, align: 8 }
    }

    open spec fn info_extent_spec() -> Extent {
        Extent { size: 24, align: 8 }
    }

    open spec fn storage_spec(conf: Placed) -> Option<Extent> {
        Some(Extent { size: 192, align: 8 })
    }

    open spec fn info_spec(conf: Placed, ctx: LayoutContext) -> TalcInfo {
        super::config::info_of(conf.conf)
    }

    open spec fn init_spec(conf: Placed, made: Result<Self, Status>) -> bool {
        let size = conf.conf.size_spec();
        let geometry = super::config::geometry_of(conf.conf);
        if addressable(conf.base, size) && geometry is Some {
            &&& made matches Ok(heap)
            &&& is_unused(heap)
            &&& heap.talc.wf()
            &&& heap.talc.base_spec() == conf.base
            &&& heap.talc.extent_spec() == 3 + size / 8
            &&& heap.talc.geometry_spec() == geometry->0
            &&& super::heap::first_chunk(geometry->0) + 60 <= heap.talc.extent_spec()
        } else {
            made == Err::<Self, Status>(Status::Corrupted)
        }
    }

    open spec fn attach_spec(&self, conf: Placed) -> Status {
        Status::Initialized
    }

    fn magic() -> (magic: Magic) {
        0x1234
    }

    fn body() -> (extent: Extent) {
        proof {
            crate::header::layout::lemma_small_alignments();
        }
        Extent { size: 32, align: 8 }
    }

    fn info_extent() -> (extent: Extent) {
        proof {
            crate::header::layout::lemma_small_alignments();
        }
        Extent { size: 24, align: 8 }
    }

    fn storage(conf: &Placed) -> (extent: Option<Extent>) {
        Some(Extent { size: 192, align: 8 })
    }

    fn info(conf: &Placed, ctx: LayoutContext) -> (info: TalcInfo) {
        conf.conf.info()
    }

    fn init(conf: Placed) -> (made: Result<Self, Status>) {
        let size: u64 = conf.conf.size();
        let fits = conf.base % 8 == 0 && size <= u64::MAX - META_BYTES && conf.base <= u64::MAX
            - META_BYTES - size && size / 8 + 3 <= super::links::MAX_WORDS && size / 8 + 3
            <= usize::MAX as u64;
        if !fits {
            return Err(Status::Corrupted);
        }
        match conf.conf.geometry() {
            Ok(geometry) => Ok(
                TalckMeta {
                    mutation: MUTATION_CLEAN,
                    talc: TalcMeta::claim(conf.base, size, geometry),
                },
            ),
            Err(_) => Err(Status::Corrupted),
        }
    }

    fn attach(&self, conf: &Placed) -> (status: Status) {
        Status::Initialized
    }
}

/// A heap with its header takes what it records.
pub proof fn law_heap_extent()
    ensures
        crate::header::layout::header_fits(TalckMeta::info_extent_spec(), TalckMeta::body_spec()),
        crate::header::layout::header_size_spec(
            TalckMeta::info_extent_spec(),
            TalckMeta::body_spec(),
        ) == 192,
{
    crate::header::layout::lemma_small_alignments();
}

/// A heap of which nothing was taken has room for all that fits behind its
/// metadata.
pub proof fn law_unused_heaps_have_room(
    heap: TalckMeta,
    after: TalcMeta,
    layout: Extent,
    found: Result<Meta, MutationError>,
)
    requires
        is_unused(heap),
        super::heap::fit_at(
            heap.talc.base_spec(),
            super::heap::first_chunk(heap.talc.geometry_spec()),
            layout.align as int,
        ) + super::heap::need(layout.size as int) <= heap.talc.extent_spec(),
        allocates(heap.talc, after, layout, found),
    ensures
        found is Ok,
{
    let first = super::heap::first_chunk(heap.talc.geometry_spec());
    if found is Err {
        assert(super::heap::fits(
            heap.talc.base_spec(),
            heap.talc.chunks(),
            first,
            layout.size as int,
            layout.align as int,
        ));
    }
}

/// A heap that somebody died changing is never changed again.
pub proof fn law_poisoned_heaps_are_not_changed(owner: u8)
    ensures
        mutation_refused(super::mutation::MUTATION_POISONED) == Some(MutationError::Poisoned),
        super::mutation::MUTATION_POISONED != super::mutation::owner_word_spec(owner),
{
}

} // verus!
