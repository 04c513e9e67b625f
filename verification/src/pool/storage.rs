//! The shared body of a pool, and the steps that take, hand over and give back
//! its blocks.

use super::geometry::{Class, Config, Geometry, Info};
use super::state::{State, MAX_GENERATION};
use crate::extent::Extent;
use crate::header::layout::Layout;
use crate::header::record::{Magic, Status};
use crate::header::PARTICIPANT_CAPACITY;
use crate::numeric::{checked_next_power_of_two, ilog2};
use crate::schema::{schema_id, LayoutContext, LayoutId, SchemaKey, SharedSchema};
use crate::token::PoolToken;
use vstd::prelude::*;

verus! {

#[derive(Clone, Copy, Debug, PartialEq, Eq, Structural)]
pub enum AdoptError {
    Pool,
    Span,
    Type,
    Owned,
}

#[derive(Debug, PartialEq, Eq)]
pub enum ReserveError<T> {
    BlockTooLarge(T),
    Unavailable(T),
}

/// Authority words and bytes of every block of a pool.
pub struct Storage {
    pub(crate) classes: Vec<Class>,
    pub(crate) controls: Vec<Vec<State>>,
    pub(crate) payload: Vec<Vec<Vec<u8>>>,
}

/// The contents of a pool: what each block's word says and what it holds.
pub ghost struct StorageView {
    pub classes: Seq<Class>,
    pub words: Seq<Seq<State>>,
    pub bytes: Seq<Seq<Seq<u8>>>,
}

impl StorageView {
    pub open spec fn wf(self) -> bool {
        &&& self.classes.len() > 0
        &&& self.words.len() == self.classes.len()
        &&& self.bytes.len() == self.classes.len()
        &&& self.classes[0].bytes > 0
        &&& forall|c: int|
            0 <= c < self.classes.len() ==> (#[trigger] self.words[c]).len()
                == self.classes[c].slots && self.bytes[c].len() == self.classes[c].slots
    }

    /// There is a block `s` of class `c`.
    pub open spec fn has(self, c: int, s: int) -> bool {
        0 <= c < self.classes.len() && 0 <= s < self.classes[c].slots
    }

    pub open spec fn word(self, c: int, s: int) -> State {
        self.words[c][s]
    }

    /// The pool with another word for one block.
    pub open spec fn with_word(self, c: int, s: int, word: State) -> Self {
        StorageView { words: self.words.update(c, self.words[c].update(s, word)), ..self }
    }

    /// The pool with other bytes in one block.
    pub open spec fn with_bytes(self, c: int, s: int, bytes: Seq<u8>) -> Self {
        StorageView { bytes: self.bytes.update(c, self.bytes[c].update(s, bytes)), ..self }
    }

    /// The smallest class whose blocks hold an extent, where there is one.
    pub open spec fn preferred(self, size: int, align: int) -> int {
        let first = self.classes[0].bytes as nat;
        let needed = needed_block(size, align);
        crate::numeric::log2(
            if needed < first {
                first
            } else {
                needed
            },
        ) - crate::numeric::log2(first)
    }

    /// No block of this pool holds an extent.
    pub open spec fn too_large(self, size: int, align: int) -> bool {
        needed_block(size, align) > u64::MAX || self.preferred(size, align) >= self.classes.len()
    }

    /// The block that a search of class `c` looks at in its `p`th step.
    pub open spec fn probed(self, c: int, p: int) -> int {
        (probe_start(c, self.classes[c].slots as int) + p) % self.classes[c].slots as int
    }
}

/// The block size that holds an extent.
pub open spec fn needed_block(size: int, align: int) -> nat {
    crate::numeric::power_at_least(
        (if size < align {
            align
        } else {
            size
        }) as nat,
    )
}

/// Where a search of class `c` begins.
pub open spec fn probe_start(c: int, slots: int) -> int {
    ((c * 0x9e37) % 0x1_0000_0000_0000_0000) % slots
}

/// Why an extent gets no block.
pub open spec fn claim_error(storage: StorageView, layout: Extent) -> Option<ReserveError<()>> {
    let first = storage.preferred(layout.size as int, layout.align as int);
    if layout.size == 0 {
        None
    } else if storage.too_large(layout.size as int, layout.align as int) {
        Some(ReserveError::BlockTooLarge(()))
    } else if forall|d: int, t: int|
        first <= d && storage.has(d, t) ==> !claimable(#[trigger] storage.word(d, t)) {
        Some(ReserveError::Unavailable(()))
    } else {
        None
    }
}

/// This is the block that an extent gets: the first that can be taken in the
/// search of the smallest class that has one.
pub open spec fn claims(
    storage: StorageView,
    pool: LayoutId,
    owner: u8,
    layout: Extent,
    allocation: Allocation,
) -> bool {
    let first = storage.preferred(layout.size as int, layout.align as int);
    let c = allocation.class_spec();
    let s = allocation.slot_spec();
    &&& allocation.pool_spec() == pool
    &&& allocation.owner_spec() == owner
    &&& allocation.wf(storage)
    &&& allocation.live_spec() == (layout.size > 0)
    &&& if layout.size == 0 {
        &&& allocation.generation_spec() == 0
        &&& c == 0
        &&& s == 0
    } else {
        &&& first <= c
        &&& storage.has(c, s)
        &&& claimable(storage.word(c, s))
        &&& allocation.generation_spec() == super::state::generation_of(storage.word(c, s)) + 1
        &&& forall|d: int, t: int|
            first <= d < c && storage.has(d, t) ==> !claimable(#[trigger] storage.word(d, t))
        &&& exists|p: int|
            0 <= p < storage.classes[c].slots && s == #[trigger] storage.probed(c, p)
                && forall|q: int|
                0 <= q < p ==> !claimable(storage.word(c, #[trigger] storage.probed(c, q)))
    }
}

/// A block that can be taken: free, with a generation left.
pub open spec fn claimable(word: State) -> bool {
    super::state::authority_of(word) is Free && super::state::generation_of(word) < MAX_GENERATION
}

impl View for Storage {
    type V = StorageView;

    closed spec fn view(&self) -> StorageView {
        StorageView {
            classes: self.classes@,
            words: self.controls@.map_values(|words: Vec<State>| words@),
            bytes: self.payload@.map_values(
                |blocks: Vec<Vec<u8>>| blocks@.map_values(|bytes: Vec<u8>| bytes@),
            ),
        }
    }
}

/// The right to one block, as its owner holds it.
pub struct Allocation {
    pub(crate) pool: LayoutId,
    pub(crate) owner: u8,
    pub(crate) class: usize,
    pub(crate) slot: usize,
    pub(crate) generation: u32,
    pub(crate) live: bool,
}

impl Allocation {
    pub closed spec fn pool_spec(self) -> LayoutId {
        self.pool
    }

    pub closed spec fn owner_spec(self) -> u8 {
        self.owner
    }

    pub closed spec fn class_spec(self) -> int {
        self.class as int
    }

    pub closed spec fn slot_spec(self) -> int {
        self.slot as int
    }

    pub closed spec fn generation_spec(self) -> u32 {
        self.generation
    }

    /// Whether this is a right to a block at all, and not to nothing.
    pub closed spec fn live_spec(self) -> bool {
        self.live
    }

    /// A live right is to a block of the pool, under a generation in range.
    pub open spec fn wf(self, storage: StorageView) -> bool {
        &&& self.owner_spec() < PARTICIPANT_CAPACITY
        &&& self.live_spec() ==> storage.has(self.class_spec(), self.slot_spec())
            && self.generation_spec() <= MAX_GENERATION
    }

    /// The word that this right holds on to.
    pub open spec fn held(self) -> State {
        super::state::local_spec(self.generation_spec(), self.owner_spec())
    }

    /// The block's word says that this right holds.
    pub open spec fn holds(self, storage: StorageView) -> bool {
        self.live_spec() && storage.word(self.class_spec(), self.slot_spec()) == self.held()
    }

    /// The pool once this right was taken.
    pub open spec fn taken(self, storage: StorageView) -> StorageView {
        if self.live_spec() {
            storage.with_word(self.class_spec(), self.slot_spec(), self.held())
        } else {
            storage
        }
    }

    /// The pool once this right was given up.
    pub open spec fn released(self, storage: StorageView) -> StorageView {
        if self.holds(storage) {
            storage.with_word(
                self.class_spec(),
                self.slot_spec(),
                super::state::free_spec(self.generation_spec()),
            )
        } else {
            storage
        }
    }

    pub fn pool(&self) -> (pool: LayoutId)
        ensures
            pool == self.pool_spec(),
    {
        self.pool
    }

    pub fn class(&self) -> (class: usize)
        ensures
            class == self.class_spec(),
    {
        self.class
    }

    pub fn slot(&self) -> (slot: usize)
        ensures
            slot == self.slot_spec(),
    {
        self.slot
    }

    pub fn generation(&self) -> (generation: u32)
        ensures
            generation == self.generation_spec(),
    {
        self.generation
    }

    pub fn is_live(&self) -> (live: bool)
        ensures
            live == self.live_spec(),
    {
        self.live
    }

    /// A right to nothing.
    pub fn empty(pool: LayoutId, owner: u8) -> (allocation: Self)
        ensures
            allocation.pool_spec() == pool,
            allocation.owner_spec() == owner,
            allocation.class_spec() == 0,
            allocation.slot_spec() == 0,
            allocation.generation_spec() == 0,
            !allocation.live_spec(),
    {
        Allocation { pool, owner, class: 0, slot: 0, generation: 0, live: false }
    }

    /// Lets go of the block without giving it back: whoever shows its
    /// generation may take it over.
    pub fn detach(&mut self, storage: &mut Storage) -> (detached: Result<(), AdoptError>)
        requires
            old(storage)@.wf(),
            old(self).wf(old(storage)@),
        ensures
            final(storage)@.wf(),
            final(self).same_block(*old(self)),
            if !old(self).live_spec() {
                &&& detached is Ok
                &&& !final(self).live_spec()
                &&& final(storage)@ == old(storage)@
            } else if old(self).holds(old(storage)@) {
                &&& detached is Ok
                &&& !final(self).live_spec()
                &&& final(storage)@ == old(storage)@.with_word(
                    old(self).class_spec(),
                    old(self).slot_spec(),
                    super::state::detached_spec(old(self).generation_spec()),
                )
            } else {
                &&& detached == Err::<(), AdoptError>(AdoptError::Owned)
                &&& final(self).live_spec()
                &&& final(storage)@ == old(storage)@
            },
    {
        if !self.live {
            return Ok(());
        }
        let local = State::local(self.generation, self.owner).unwrap();
        if storage.exchange(self.class, self.slot, local, State::detached(self.generation)) {
            self.live = false;
            Ok(())
        } else {
            Err(AdoptError::Owned)
        }
    }

    /// Both rights are to the same use of the same block.
    pub open spec fn same_block(self, other: Self) -> bool {
        &&& self.pool_spec() == other.pool_spec()
        &&& self.owner_spec() == other.owner_spec()
        &&& self.class_spec() == other.class_spec()
        &&& self.slot_spec() == other.slot_spec()
        &&& self.generation_spec() == other.generation_spec()
    }

    /// Gives the block back.
    pub fn release(self, storage: &mut Storage)
        requires
            old(storage)@.wf(),
            self.wf(old(storage)@),
        ensures
            final(storage)@.wf(),
            final(storage)@ == self.released(old(storage)@),
    {
        if !self.live {
            return;
        }
        let local = State::local(self.generation, self.owner).unwrap();
        storage.exchange(self.class, self.slot, local, State::free(self.generation));
    }
}

impl Storage {
    spec fn shaped(self) -> bool {
        &&& self.classes@.len() > 0
        &&& self.classes@[0].bytes > 0
        &&& self.controls@.len() == self.classes@.len()
        &&& self.payload@.len() == self.classes@.len()
        &&& forall|c: int|
            0 <= c < self.classes@.len() ==> (#[trigger] self.controls@[c])@.len()
                == self.classes@[c].slots && self.payload@[c]@.len() == self.classes@[c].slots
    }

    proof fn lemma_shape(self)
        ensures
            self@.wf() == self.shaped(),
            forall|c: int, s: int|
                self.shaped() && self@.has(c, s) ==> #[trigger] self@.word(c, s)
                    == self.controls@[c]@[s],
            forall|c: int, s: int|
                self.shaped() && self@.has(c, s) ==> #[trigger] self@.bytes[c][s]
                    == self.payload@[c]@[s]@,
    {
        if self@.wf() {
            assert forall|c: int| 0 <= c < self.classes@.len() implies (
            #[trigger] self.controls@[c])@.len() == self.classes@[c].slots
                && self.payload@[c]@.len() == self.classes@[c].slots by {
                assert(self@.words[c].len() == self@.classes[c].slots);
                assert(self@.bytes[c].len() == self@.classes[c].slots);
            }
        }
        if self.shaped() {
            assert forall|c: int| 0 <= c < self@.classes.len() implies (
            #[trigger] self@.words[c]).len() == self@.classes[c].slots && self@.bytes[c].len()
                == self@.classes[c].slots by {
                assert(self.controls@[c]@.len() == self.classes@[c].slots);
            }
            assert forall|c: int, s: int| self@.has(c, s) implies #[trigger] self@.bytes[c][s]
                == self.payload@[c]@[s]@ by {
                assert(self.controls@[c]@.len() == self.classes@[c].slots);
                assert(self@.bytes[c] == self.payload@[c]@.map_values(|bytes: Vec<u8>| bytes@));
            }
        }
    }

    /// Changes a block's word from one value to another.
    fn exchange(&mut self, class: usize, slot: usize, from: State, to: State) -> (changed: bool)
        requires
            old(self)@.wf(),
            old(self)@.has(class as int, slot as int),
        ensures
            final(self)@.wf(),
            changed == (old(self)@.word(class as int, slot as int) == from),
            final(self)@ == (if changed {
                old(self)@.with_word(class as int, slot as int, to)
            } else {
                old(self)@
            }),
    {
        let ghost before = *self;
        proof {
            before.lemma_shape();
            assert(self.controls@[class as int]@.len() == self.classes@[class as int].slots);
        }
        if self.controls[class][slot] != from {
            return false;
        }
        self.controls[class][slot] = to;
        proof {
            assert(self@.words =~= before@.words.update(
                class as int,
                before@.words[class as int].update(slot as int, to),
            )) by {
                assert forall|c: int| 0 <= c < self@.words.len() implies #[trigger] self@.words[c]
                    =~= before@.words.update(
                    class as int,
                    before@.words[class as int].update(slot as int, to),
                )[c] by {}
            }
            assert(self.shaped()) by {
                assert forall|c: int| 0 <= c < self.classes@.len() implies (
                #[trigger] self.controls@[c])@.len() == self.classes@[c].slots
                    && self.payload@[c]@.len() == self.classes@[c].slots by {
                    assert(before.controls@[c]@.len() == before.classes@[c].slots);
                }
            }
            self.lemma_shape();
        }
        true
    }

    /// Takes a block that holds an extent: the smallest class with one left, and
    /// of that class the first that its search meets.
    #[verifier::spinoff_prover]
    pub fn claim(&mut self, pool: LayoutId, owner: u8, layout: Extent) -> (claimed: Result<
        Allocation,
        ReserveError<()>,
    >)
        requires
            old(self)@.wf(),
            owner < PARTICIPANT_CAPACITY,
        ensures
            final(self)@.wf(),
            match claim_error(old(self)@, layout) {
                Some(error) => claimed == Err::<Allocation, ReserveError<()>>(error) && final(self)@
                    == old(self)@,
                None => claimed matches Ok(allocation) && claims(
                    old(self)@,
                    pool,
                    owner,
                    layout,
                    allocation,
                ) && final(self)@ == allocation.taken(old(self)@),
            },
    {
        if layout.size == 0 {
            return Ok(Allocation::empty(pool, owner));
        }
        let ghost before = self@;
        let ghost size = layout.size as int;
        let ghost align = layout.align as int;
        proof {
            self.lemma_shape();
        }
        let wish: u64 = if layout.size < layout.align {
            layout.align
        } else {
            layout.size
        };
        let needed: u64 = match checked_next_power_of_two(wish) {
            Some(needed) => needed,
            None => return Err(ReserveError::BlockTooLarge(())),
        };
        let first: u64 = self.classes[0].bytes;
        let larger: u64 = if needed < first {
            first
        } else {
            needed
        };
        proof {
            crate::numeric::lemma_log2_monotone(first as nat, larger as nat);
        }
        let preferred: u32 = ilog2(larger) - ilog2(first);
        if preferred as usize >= self.classes.len() {
            return Err(ReserveError::BlockTooLarge(()));
        }
        let mut class: usize = preferred as usize;
        while class < self.classes.len()
            invariant
                before == old(self)@,
                self@ == before,
                before.wf(),
                self.shaped(),
                owner < PARTICIPANT_CAPACITY,
                size == layout.size,
                align == layout.align,
                size > 0,
                !before.too_large(size, align),
                before.preferred(size, align) == preferred,
                preferred <= class <= self.classes@.len(),
                forall|d: int, t: int|
                    preferred <= d < class && before.has(d, t) ==> !claimable(
                        #[trigger] before.word(d, t),
                    ),
            decreases self.classes@.len() - class,
        {
            match self.search(class, owner) {
                Some((slot, generation)) => {
                    let ghost s = slot as int;
                    proof {
                        self.lemma_shape();
                        super::state::law_authority_is_its_word(before.word(class as int, s));
                    }
                    let free = State::free(generation - 1);
                    let local = State::local(generation, owner).unwrap();
                    self.exchange(class, slot, free, local);
                    return Ok(Allocation { pool, owner, class, slot, generation, live: true });
                },
                None => {},
            }
            class = class + 1;
        }
        Err(ReserveError::Unavailable(()))
    }

    /// The first block of a class that can be taken, in the order of its
    /// search, and the generation that it would be taken under.
    fn search(&self, class: usize, owner: u8) -> (found: Option<(usize, u32)>)
        requires
            self@.wf(),
            class < self@.classes.len(),
        ensures
            match found {
                Some((slot, generation)) => {
                    &&& self@.has(class as int, slot as int)
                    &&& claimable(self@.word(class as int, slot as int))
                    &&& generation == super::state::generation_of(
                        self@.word(class as int, slot as int),
                    ) + 1
                    &&& exists|p: int|
                        0 <= p < self@.classes[class as int].slots && slot
                            == #[trigger] self@.probed(class as int, p) && forall|q: int|
                            0 <= q < p ==> !claimable(
                                self@.word(
                                    class as int,
                                    #[trigger] self@.probed(class as int, q),
                                ),
                            )
                },
                None => forall|t: int|
                    self@.has(class as int, t) ==> !claimable(
                        #[trigger] self@.word(class as int, t),
                    ),
            },
    {
        proof {
            self.lemma_shape();
            assert(self.controls@[class as int]@.len() == self.classes@[class as int].slots);
            assert(self.controls@[class as int]@.len() == self.controls@[class as int].len());
        }
        let slots: u64 = self.classes[class].slots;
        if slots == 0 {
            return None;
        }
        let start: u64 = (class as u64).wrapping_mul(0x9e37) % slots;
        let ghost c = class as int;
        let mut probe: u64 = 0;
        while probe < slots
            invariant
                self@.wf(),
                self.shaped(),
                c == class,
                class < self@.classes.len(),
                slots == self@.classes[c].slots,
                slots == self.controls@[c].len(),
                slots > 0,
                start == probe_start(c, slots as int),
                start < slots,
                probe <= slots,
                forall|q: int|
                    0 <= q < probe ==> !claimable(self@.word(c, #[trigger] self@.probed(c, q))),
            decreases slots - probe,
        {
            let rest: u64 = slots - start;
            let slot: u64 = if probe < rest {
                start + probe
            } else {
                probe - rest
            };
            proof {
                self.lemma_shape();
                lemma_wrap(start as int, probe as int, slots as int);
                assert(slot == self@.probed(c, probe as int));
            }
            let word = self.controls[class][slot as usize];
            assert(word == self@.word(c, slot as int));
            if word.canonical() && !word.allocated() && word.generation() < MAX_GENERATION {
                return Some((slot as usize, word.generation() + 1));
            }
            probe = probe + 1;
        }
        proof {
            assert forall|t: int| self@.has(c, t) implies !claimable(#[trigger] self@.word(c, t)) by {
                lemma_probe_reaches(start as int, t, slots as int);
                let p = (t - start) % slots as int;
                assert(self@.probed(c, p) == t);
                assert(0 <= p < probe);
            }
        }
        None
    }

    /// Takes a block over that its sender let go of.
    pub fn takeover(&mut self, pool: LayoutId, owner: u8, token: &PoolToken) -> (taken: Result<
        Allocation,
        AdoptError,
    >)
        requires
            old(self)@.wf(),
            owner < PARTICIPANT_CAPACITY,
        ensures
            final(self)@.wf(),
            match takeover_refused(old(self)@, pool, *token) {
                Some(error) => taken == Err::<Allocation, AdoptError>(error) && final(self)@ == old(self)@,
                None => taken matches Ok(allocation) && takes_over(
                    old(self)@,
                    pool,
                    owner,
                    *token,
                    allocation,
                ) && final(self)@ == allocation.taken(old(self)@),
            },
    {
        if token.get_generation() == 0 {
            if token.get_pool() != pool {
                return Err(AdoptError::Pool);
            }
            return Ok(Allocation::empty(pool, owner));
        }
        if token.get_generation() > MAX_GENERATION {
            return Err(AdoptError::Owned);
        }
        if token.get_pool() != pool {
            return Err(AdoptError::Pool);
        }
        let span = token.get_span();
        if span.class >= self.classes.len() {
            return Err(AdoptError::Span);
        }
        if span.slot as u64 >= self.classes[span.class].slots {
            return Err(AdoptError::Span);
        }
        let detached = State::detached(token.get_generation());
        let local = State::local(token.get_generation(), owner).unwrap();
        if !self.exchange(span.class, span.slot, detached, local) {
            return Err(AdoptError::Owned);
        }
        Ok(
            Allocation {
                pool,
                owner,
                class: span.class,
                slot: span.slot,
                generation: token.get_generation(),
                live: true,
            },
        )
    }

    /// Gives back the block that a token stands for: one that nobody holds, or
    /// that `owner` holds.
    pub fn release_token(&mut self, token: &PoolToken, owner: Option<u8>) -> (released: bool)
        requires
            old(self)@.wf(),
        ensures
            final(self)@.wf(),
            released == token_releasable(old(self)@, *token, owner),
            final(self)@ == (if released && token_holds(old(self)@, *token) {
                old(self)@.with_word(
                    token.span().class as int,
                    token.span().slot as int,
                    super::state::free_spec(token.generation()),
                )
            } else {
                old(self)@
            }),
    {
        if token.get_generation() == 0 {
            return true;
        }
        if token.get_generation() > MAX_GENERATION || token.metadata().is_none() {
            return false;
        }
        let span = token.get_span();
        if span.class >= self.classes.len() || span.slot as u64 >= self.classes[span.class].slots {
            return false;
        }
        proof {
            self.lemma_shape();
            assert(self.controls@[span.class as int]@.len()
                == self.classes@[span.class as int].slots);
        }
        let state = self.controls[span.class][span.slot];
        assert(state == self@.word(span.class as int, span.slot as int));
        if !state.canonical() || state.generation() < token.get_generation() {
            return false;
        }
        if state.generation() > token.get_generation() || !state.allocated() {
            return true;
        }
        match state.owner() {
            Some(actual) => {
                match owner {
                    Some(owner) => {
                        if actual != owner {
                            return false;
                        }
                    },
                    None => return false,
                }
            },
            None => {},
        }
        self.exchange(span.class, span.slot, state, State::free(token.get_generation()));
        true
    }

    /// Frees every block that a dead participant holds, class by class and slot by
    /// slot; stops at the first word that no pool writes.
    #[verifier::spinoff_prover]
    pub fn recover(&mut self, dead: u8) -> (recovered: bool)
        requires
            old(self)@.wf(),
            dead < PARTICIPANT_CAPACITY,
        ensures
            final(self)@.wf(),
            final(self)@.classes == old(self)@.classes,
            final(self)@.bytes == old(self)@.bytes,
            recovered == all_canonical(old(self)@),
            recovered ==> forall|c: int, s: int|
                old(self)@.has(c, s) ==> #[trigger] final(self)@.word(c, s) == freed(
                    old(self)@.word(c, s),
                    dead,
                ),
            forall|c: int, s: int|
                old(self)@.has(c, s) ==> #[trigger] final(self)@.word(c, s) == (if canonical_to(
                    old(self)@,
                    c,
                    s,
                ) {
                    freed(old(self)@.word(c, s), dead)
                } else {
                    old(self)@.word(c, s)
                }),
    {
        let ghost before = self@;
        let mut class: usize = 0;
        while class < self.classes.len()
            invariant
                before == old(self)@,
                before.wf(),
                self@.wf(),
                self@.classes == before.classes,
                self@.bytes == before.bytes,
                self.classes@ == before.classes,
                dead < PARTICIPANT_CAPACITY,
                class <= before.classes.len(),
                forall|c: int, s: int|
                    before.has(c, s) ==> #[trigger] self@.word(c, s) == (if c < class {
                        freed(before.word(c, s), dead)
                    } else {
                        before.word(c, s)
                    }),
                forall|c: int, s: int|
                    0 <= c < class && before.has(c, s) ==> !(super::state::authority_of(
                        #[trigger] before.word(c, s),
                    ) is Broken),
            decreases before.classes.len() - class,
        {
            let mut slot: u64 = 0;
            let slots: u64 = self.classes[class].slots;
            while slot < slots
                invariant
                    before == old(self)@,
                    before.wf(),
                    self@.wf(),
                    self@.classes == before.classes,
                    self@.bytes == before.bytes,
                    self.classes@ == before.classes,
                    dead < PARTICIPANT_CAPACITY,
                    class < before.classes.len(),
                    slots == before.classes[class as int].slots,
                    slot <= slots,
                    forall|c: int, s: int|
                        before.has(c, s) ==> #[trigger] self@.word(c, s) == (if c < class || (c
                            == class && s < slot) {
                            freed(before.word(c, s), dead)
                        } else {
                            before.word(c, s)
                        }),
                    forall|c: int, s: int|
                        0 <= c < class && before.has(c, s) ==> !(super::state::authority_of(
                            #[trigger] before.word(c, s),
                        ) is Broken),
                    forall|s: int|
                        0 <= s < slot ==> !(super::state::authority_of(
                            #[trigger] before.word(class as int, s),
                        ) is Broken),
                decreases slots - slot,
            {
                proof {
                    self.lemma_shape();
                    assert(self.controls@[class as int]@.len() == self.classes@[class as int].slots);
                    assert(self.controls@[class as int]@.len()
                        == self.controls@[class as int].len());
                }
                let at: usize = slot as usize;
                let state = self.controls[class][at];
                assert(state == self@.word(class as int, at as int));
                assert(state == before.word(class as int, at as int));
                if !state.canonical() {
                    proof {
                        assert(before.has(class as int, at as int));
                        assert(!all_canonical(before));
                        assert forall|c: int, s: int| before.has(c, s) implies #[trigger] self@.word(
                            c,
                            s,
                        ) == (if canonical_to(before, c, s) {
                            freed(before.word(c, s), dead)
                        } else {
                            before.word(c, s)
                        }) by {
                            if c < class || (c == class && s < slot) {
                                assert(canonical_to(before, c, s));
                            } else {
                                assert(!canonical_to(before, c, s));
                            }
                        }
                    }
                    return false;
                }
                if state.allocated() && state.owner() == Some(dead) {
                    let ghost middle = self@;
                    proof {
                        super::state::law_authority_is_its_word(state);
                    }
                    self.exchange(class, at, state, State::free(state.generation()));
                    proof {
                        assert forall|c: int, s: int| before.has(c, s) implies #[trigger] self@.word(
                            c,
                            s,
                        ) == (if c < class || (c == class && s < slot + 1) {
                            freed(before.word(c, s), dead)
                        } else {
                            before.word(c, s)
                        }) by {
                            assert(middle.word(c, s) == (if c < class || (c == class && s < slot) {
                                freed(before.word(c, s), dead)
                            } else {
                                before.word(c, s)
                            }));
                        }
                    }
                }
                slot = slot + 1;
            }
            class = class + 1;
        }
        assert(forall|c: int, s: int| before.has(c, s) ==> #[trigger] canonical_to(before, c, s));
        true
    }

    /// Writes the bytes of a block.
    pub fn write(&mut self, allocation: &Allocation, bytes: Vec<u8>)
        requires
            old(self)@.wf(),
            allocation.wf(old(self)@),
            allocation.live_spec(),
        ensures
            final(self)@.wf(),
            final(self)@ == old(self)@.with_bytes(
                allocation.class_spec(),
                allocation.slot_spec(),
                bytes@,
            ),
    {
        let ghost before = *self;
        let class: usize = allocation.class;
        let slot: usize = allocation.slot;
        proof {
            before.lemma_shape();
            assert(self.controls@[class as int]@.len() == self.classes@[class as int].slots);
        }
        self.payload[class][slot] = bytes;
        proof {
            let expected = before@.with_bytes(class as int, slot as int, bytes@);
            assert(self@.bytes =~= expected.bytes) by {
                assert forall|c: int| 0 <= c < self@.bytes.len() implies #[trigger] self@.bytes[c]
                    =~= expected.bytes[c] by {}
            }
            assert(self.shaped()) by {
                assert forall|c: int| 0 <= c < self.classes@.len() implies (
                #[trigger] self.controls@[c])@.len() == self.classes@[c].slots
                    && self.payload@[c]@.len() == self.classes@[c].slots by {
                    assert(before.controls@[c]@.len() == before.classes@[c].slots);
                }
            }
            self.lemma_shape();
        }
    }

    /// The bytes of a block.
    pub fn read(&self, allocation: &Allocation) -> (bytes: &Vec<u8>)
        requires
            self@.wf(),
            allocation.wf(self@),
            allocation.live_spec(),
        ensures
            bytes@ == self@.bytes[allocation.class_spec()][allocation.slot_spec()],
    {
        proof {
            self.lemma_shape();
            assert(self.controls@[allocation.class as int]@.len()
                == self.classes@[allocation.class as int].slots);
        }
        &self.payload[allocation.class][allocation.slot]
    }

    /// The size class with the given number.
    pub fn class(&self, index: usize) -> (class: Option<Class>)
        ensures
            class == (if index < self@.classes.len() {
                Some(self@.classes[index as int])
            } else {
                None
            }),
    {
        if index < self.classes.len() {
            Some(self.classes[index])
        } else {
            None
        }
    }

    pub fn class_count(&self) -> (count: usize)
        ensures
            count == self@.classes.len(),
    {
        self.classes.len()
    }

    /// A pool of the given classes, with every block free and never used.
    #[verifier::spinoff_prover]
    #[verifier::rlimit(20)]
    pub fn fresh(classes: Vec<Class>) -> (storage: Self)
        requires
            classes@.len() > 0,
            classes@[0].bytes > 0,
            forall|c: int| 0 <= c < classes@.len() ==> (#[trigger] classes@[c]).slots <= usize::MAX,
        ensures
            storage@.wf(),
            storage@.classes == classes@,
            forall|c: int, s: int|
                storage@.has(c, s) ==> #[trigger] storage@.word(c, s) == super::state::free_spec(0),
            forall|c: int, s: int|
                storage@.has(c, s) ==> #[trigger] storage@.bytes[c][s] == Seq::<u8>::empty(),
    {
        let mut controls: Vec<Vec<State>> = Vec::new();
        let mut payload: Vec<Vec<Vec<u8>>> = Vec::new();
        let mut class: usize = 0;
        while class < classes.len()
            invariant
                class <= classes@.len(),
                controls@.len() == class,
                payload@.len() == class,
                forall|c: int|
                    0 <= c < classes@.len() ==> (#[trigger] classes@[c]).slots <= usize::MAX,
                forall|c: int|
                    0 <= c < class ==> (#[trigger] controls@[c])@.len() == classes@[c].slots
                        && payload@[c]@.len() == classes@[c].slots,
                forall|c: int, s: int|
                    0 <= c < class && 0 <= s < classes@[c].slots ==> #[trigger] controls@[c]@[s]
                        == super::state::free_spec(0),
                forall|c: int, s: int|
                    0 <= c < class && 0 <= s < classes@[c].slots ==> (
                    #[trigger] payload@[c]@[s])@ == Seq::<u8>::empty(),
            decreases classes@.len() - class,
        {
            let slots: usize = classes[class].slots as usize;
            let (words, blocks) = fresh_class(slots);
            controls.push(words);
            payload.push(blocks);
            class = class + 1;
        }
        let storage = Storage { classes, controls, payload };
        proof {
            assert(storage.shaped());
            storage.lemma_shape();
            assert forall|c: int, s: int| storage@.has(c, s) implies #[trigger] storage@.word(c, s)
                == super::state::free_spec(0) by {
                assert(storage.controls@[c]@[s] == super::state::free_spec(0));
            }
            assert forall|c: int, s: int| storage@.has(c, s) implies #[trigger] storage@.bytes[c][s]
                == Seq::<u8>::empty() by {
                assert(storage.payload@[c]@[s]@ == Seq::<u8>::empty());
            }
        }
        storage
    }
}

impl SharedSchema for Storage {
    open spec fn schema_spec() -> SchemaKey {
        crate::msg::named("evering.pool")
    }

    fn schema() -> (key: SchemaKey) {
        SchemaKey::new(schema_id("evering.pool"), 1)
    }
}

/// The pool of the given classes with every block free and never used.
pub open spec fn untouched(storage: StorageView, classes: Seq<Class>) -> bool {
    &&& storage.wf()
    &&& storage.classes == classes
    &&& forall|c: int, s: int|
        storage.has(c, s) ==> #[trigger] storage.word(c, s) == super::state::free_spec(0)
}

/// The machine can count the blocks of every class.
pub open spec fn countable(classes: Seq<Class>) -> bool {
    forall|c: int| 0 <= c < classes.len() ==> (#[trigger] classes[c]).slots <= usize::MAX
}

fn is_countable(classes: &Vec<Class>) -> (all: bool)
    ensures
        all == countable(classes@),
{
    let mut i: usize = 0;
    while i < classes.len()
        invariant
            i <= classes@.len(),
            forall|c: int| 0 <= c < i ==> (#[trigger] classes@[c]).slots <= usize::MAX,
        decreases classes@.len() - i,
    {
        if classes[i].slots > usize::MAX as u64 {
            assert(!countable(classes@));
            return false;
        }
        i = i + 1;
    }
    true
}

impl Layout for Storage {
    type Config = Config;

    type Info = Info;

    open spec fn magic_spec() -> Magic {
        0xB100
    }

    open spec fn body_spec() -> Extent {
        Extent { size: 0, align: 1 }
    }

    open spec fn info_extent_spec() -> Extent {
        Extent { size: 24, align: 8 }
    }

    open spec fn storage_spec(conf: Config) -> Option<Extent> {
        Some(conf.layout)
    }

    open spec fn info_spec(conf: Config, ctx: LayoutContext) -> Info {
        conf.info
    }

    open spec fn init_spec(conf: Config, made: Result<Self, Status>) -> bool {
        let laid = super::geometry::laid_out(
            conf.info.min,
            conf.info.base,
            conf.info.classes as nat,
        );
        if super::geometry::records(conf.info, conf.layout.size) && countable((laid->0).classes) {
            made matches Ok(storage) && untouched(storage@, (laid->0).classes)
        } else {
            made == Err::<Self, Status>(Status::Corrupted)
        }
    }

    open spec fn attach_spec(&self, conf: Config) -> Status {
        if super::geometry::records(conf.info, conf.layout.size) {
            Status::Initialized
        } else {
            Status::Corrupted
        }
    }

    fn magic() -> (magic: Magic) {
        0xB100
    }

    fn body() -> (extent: Extent) {
        proof {
            crate::header::layout::lemma_small_alignments();
        }
        Extent { size: 0, align: 1 }
    }

    fn info_extent() -> (extent: Extent) {
        proof {
            crate::header::layout::lemma_small_alignments();
        }
        Extent { size: 24, align: 8 }
    }

    fn storage(conf: &Config) -> (extent: Option<Extent>) {
        Some(conf.layout)
    }

    fn info(conf: &Config, ctx: LayoutContext) -> (info: Info) {
        conf.info
    }

    fn init(conf: Config) -> (made: Result<Self, Status>) {
        match Geometry::recorded(conf.info, conf.layout.size) {
            Some(geometry) => {
                proof {
                    super::geometry::lemma_laid_out_classes(
                        conf.info.min,
                        conf.info.base,
                        conf.info.classes as nat,
                    );
                }
                if is_countable(&geometry.classes) {
                    Ok(Storage::fresh(geometry.classes))
                } else {
                    Err(Status::Corrupted)
                }
            },
            None => Err(Status::Corrupted),
        }
    }

    fn attach(&self, conf: &Config) -> (status: Status) {
        match Geometry::recorded(conf.info, conf.layout.size) {
            Some(_) => Status::Initialized,
            None => Status::Corrupted,
        }
    }
}

/// The header of a pool takes what every pool sets aside for it.
pub proof fn law_pool_header()
    ensures
        crate::header::layout::header_fits(Storage::info_extent_spec(), Storage::body_spec()),
        crate::header::layout::header_size_spec(
            Storage::info_extent_spec(),
            Storage::body_spec(),
        ) == super::geometry::POOL_HEADER,
{
    crate::header::layout::lemma_small_alignments();
}

/// The words and the bytes of a class whose blocks were never used.
fn fresh_class(slots: usize) -> (made: (Vec<State>, Vec<Vec<u8>>))
    ensures
        made.0@.len() == slots,
        made.1@.len() == slots,
        forall|s: int|
            0 <= s < slots ==> #[trigger] made.0@[s] == super::state::free_spec(0),
        forall|s: int| 0 <= s < slots ==> (#[trigger] made.1@[s])@ == Seq::<u8>::empty(),
{
    let mut words: Vec<State> = Vec::new();
    let mut blocks: Vec<Vec<u8>> = Vec::new();
    while words.len() < slots
        invariant
            words@.len() <= slots,
            blocks@.len() == words@.len(),
            forall|s: int|
                0 <= s < words@.len() ==> #[trigger] words@[s] == super::state::free_spec(0),
            forall|s: int|
                0 <= s < words@.len() ==> (#[trigger] blocks@[s])@ == Seq::<u8>::empty(),
        decreases slots - words@.len(),
    {
        words.push(State::free(0));
        blocks.push(Vec::new());
    }
    (words, blocks)
}

/// Steps that wrap around once.
proof fn lemma_wrap(start: int, probe: int, slots: int)
    requires
        0 <= start < slots,
        0 <= probe < slots,
    ensures
        (start + probe) % slots == (if probe < slots - start {
            start + probe
        } else {
            probe - (slots - start)
        }),
{
    if probe < slots - start {
        vstd::arithmetic::div_mod::lemma_small_mod((start + probe) as nat, slots as nat);
    } else {
        vstd::arithmetic::div_mod::lemma_mod_add_multiples_vanish(start + probe - slots, slots);
        vstd::arithmetic::div_mod::lemma_small_mod((start + probe - slots) as nat, slots as nat);
    }
}

/// Every block is met by a search that goes around once.
proof fn lemma_probe_reaches(start: int, t: int, slots: int)
    requires
        0 <= start < slots,
        0 <= t < slots,
    ensures
        0 <= (t - start) % slots < slots,
        (start + (t - start) % slots) % slots == t,
{
    vstd::arithmetic::div_mod::lemma_mod_bound(t - start, slots);
    vstd::arithmetic::div_mod::lemma_add_mod_noop_right(start, t - start, slots);
    vstd::arithmetic::div_mod::lemma_small_mod(t as nat, slots as nat);
}

/// Why a token does not give its block away.
pub open spec fn takeover_refused(storage: StorageView, pool: LayoutId, token: PoolToken) -> Option<
    AdoptError,
> {
    let span = token.span();
    if token.generation() > MAX_GENERATION {
        Some(AdoptError::Owned)
    } else if token.pool() != pool {
        Some(AdoptError::Pool)
    } else if token.generation() == 0 {
        None
    } else if !storage.has(span.class as int, span.slot as int) {
        Some(AdoptError::Span)
    } else if storage.word(span.class as int, span.slot as int) != super::state::detached_spec(
        token.generation(),
    ) {
        Some(AdoptError::Owned)
    } else {
        None
    }
}

/// The right that a token gives: to the use of the block that it names.
pub open spec fn takes_over(
    storage: StorageView,
    pool: LayoutId,
    owner: u8,
    token: PoolToken,
    allocation: Allocation,
) -> bool {
    &&& allocation.pool_spec() == pool
    &&& allocation.owner_spec() == owner
    &&& allocation.wf(storage)
    &&& allocation.generation_spec() == token.generation()
    &&& allocation.live_spec() == (token.generation() != 0)
    &&& if token.generation() == 0 {
        &&& allocation.class_spec() == 0
        &&& allocation.slot_spec() == 0
    } else {
        &&& allocation.class_spec() == token.span().class
        &&& allocation.slot_spec() == token.span().slot
    }
}

/// The block of a token is still in the token's use.
pub open spec fn token_holds(storage: StorageView, token: PoolToken) -> bool {
    let word = storage.word(token.span().class as int, token.span().slot as int);
    &&& token.generation() != 0
    &&& storage.has(token.span().class as int, token.span().slot as int)
    &&& super::state::generation_of(word) == token.generation()
    &&& super::state::authority_of(word) is Local || super::state::authority_of(word) is Detached
}

/// Whether a token's block can be given back, or already was.
pub open spec fn token_releasable(
    storage: StorageView,
    token: PoolToken,
    owner: Option<u8>,
) -> bool {
    let word = storage.word(token.span().class as int, token.span().slot as int);
    let authority = super::state::authority_of(word);
    token.generation() == 0 || {
        &&& token.generation() <= MAX_GENERATION
        &&& token.metadata_spec() is Some
        &&& storage.has(token.span().class as int, token.span().slot as int)
        &&& !(authority is Broken)
        &&& super::state::generation_of(word) >= token.generation()
        &&& super::state::generation_of(word) > token.generation() || authority is Free
            || authority is Detached || (authority matches super::state::Authority::Local(actual)
            && owner == Some(actual))
    }
}

/// The word of a block after the blocks of `dead` were freed.
pub open spec fn freed(word: State, dead: u8) -> State {
    if super::state::authority_of(word) == super::state::Authority::Local(dead) {
        super::state::free_spec(super::state::generation_of(word))
    } else {
        word
    }
}

/// Every word up to a block, in the order of classes and slots, is one that a
/// pool writes.
pub open spec fn canonical_to(storage: StorageView, class: int, slot: int) -> bool {
    forall|c: int, s: int|
        storage.has(c, s) && (c < class || (c == class && s <= slot)) ==> !(
        super::state::authority_of(#[trigger] storage.word(c, s)) is Broken)
}

/// Every word is one that a pool writes.
pub open spec fn all_canonical(storage: StorageView) -> bool {
    forall|c: int, s: int|
        storage.has(c, s) ==> !(super::state::authority_of(#[trigger] storage.word(c, s)) is Broken)
}

} // verus!
