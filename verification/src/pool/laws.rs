//! What holds of a pool over several steps.

use super::state::MAX_GENERATION;
use super::storage::{AdoptError, Allocation, StorageView};
use crate::extent::Extent;
use crate::header::PARTICIPANT_CAPACITY;
use crate::schema::LayoutId;
use crate::token::PoolToken;
use crate::msg::Repr;
use crate::token::Shape;
use vstd::prelude::*;

verus! {

/// A token names the use of a block that a right is to.
pub open spec fn names(token: PoolToken, allocation: Allocation) -> bool {
    &&& token.pool() == allocation.pool_spec()
    &&& token.span().class == allocation.class_spec()
    &&& token.span().slot == allocation.slot_spec()
    &&& token.generation() == allocation.generation_spec()
}

/// The pool after the holder of a right let its block go.
pub open spec fn sent(storage: StorageView, allocation: Allocation) -> StorageView {
    storage.with_word(
        allocation.class_spec(),
        allocation.slot_spec(),
        super::state::detached_spec(allocation.generation_spec()),
    )
}

proof fn lemma_word_set(storage: StorageView, c: int, s: int, word: super::state::State)
    requires
        storage.wf(),
        storage.has(c, s),
    ensures
        storage.with_word(c, s, word).word(c, s) == word,
        storage.with_word(c, s, word).wf(),
        forall|d: int, t: int|
            storage.has(d, t) && (d != c || t != s) ==> #[trigger] storage.with_word(
                c,
                s,
                word,
            ).word(d, t) == storage.word(d, t),
{
    assert(storage.words[c].len() == storage.classes[c].slots);
    let after = storage.with_word(c, s, word);
    assert forall|d: int| 0 <= d < after.classes.len() implies (#[trigger] after.words[d]).len()
        == after.classes[d].slots && after.bytes[d].len() == after.classes[d].slots by {
        assert(storage.words[d].len() == storage.classes[d].slots);
    }
}

/// Each block has one owner at a time: two rights that hold the same block are
/// one and the same.
pub proof fn law_a_block_has_one_owner(storage: StorageView, one: Allocation, other: Allocation)
    requires
        one.wf(storage),
        other.wf(storage),
        one.holds(storage),
        other.holds(storage),
        one.class_spec() == other.class_spec(),
        one.slot_spec() == other.slot_spec(),
    ensures
        one.owner_spec() == other.owner_spec(),
        one.generation_spec() == other.generation_spec(),
{
    super::state::law_authority_round_trips(one.generation_spec(), one.owner_spec());
    super::state::law_authority_round_trips(other.generation_spec(), other.owner_spec());
}

/// A block that is taken was nobody's: its taker holds it from then on, and
/// everybody else holds what they held.
pub proof fn law_taking_a_block_takes_it_from_nobody(
    storage: StorageView,
    pool: LayoutId,
    owner: u8,
    layout: Extent,
    taken: Allocation,
    other: Allocation,
)
    requires
        storage.wf(),
        layout.size > 0,
        super::storage::claims(storage, pool, owner, layout, taken),
        other.wf(storage),
        other.holds(storage),
    ensures
        taken.holds(taken.taken(storage)),
        other.holds(taken.taken(storage)),
        other.class_spec() != taken.class_spec() || other.slot_spec() != taken.slot_spec(),
{
    super::state::law_authority_round_trips(other.generation_spec(), other.owner_spec());
    lemma_word_set(storage, taken.class_spec(), taken.slot_spec(), taken.held());
}

/// A block that was given back is free, and what comes after it has another
/// generation: no token of an earlier use takes it over.
pub proof fn law_tokens_of_earlier_uses_are_void(
    storage: StorageView,
    pool: LayoutId,
    token: PoolToken,
)
    requires
        storage.wf(),
        token.pool() == pool,
        token.generation() > 0,
        storage.has(token.span().class as int, token.span().slot as int),
        super::state::generation_of(
            storage.word(token.span().class as int, token.span().slot as int),
        ) > token.generation() || super::state::authority_of(
            storage.word(token.span().class as int, token.span().slot as int),
        ) is Free,
    ensures
        super::storage::takeover_refused(storage, pool, token) == Some(AdoptError::Owned),
{
    if token.generation() <= MAX_GENERATION {
        super::state::law_authority_round_trips(token.generation(), 0);
    }
}

/// A block that its holder let go of is taken over by whoever shows its token
/// first, with the bytes that it had; the second who shows the token is
/// refused, and so is the sender.
pub proof fn law_a_token_gives_its_block_away_once(
    storage: StorageView,
    sender: Allocation,
    token: PoolToken,
    receiver: u8,
    adopted: Allocation,
)
    requires
        storage.wf(),
        sender.wf(storage),
        sender.holds(storage),
        sender.generation_spec() > 0,
        names(token, sender),
        receiver < PARTICIPANT_CAPACITY,
        super::storage::takes_over(
            sent(storage, sender),
            sender.pool_spec(),
            receiver,
            token,
            adopted,
        ),
    ensures
        super::storage::takeover_refused(sent(storage, sender), sender.pool_spec(), token) is None,
        ({
            let received = adopted.taken(sent(storage, sender));
            &&& adopted.holds(received)
            &&& received.bytes == storage.bytes
            &&& receiver != sender.owner_spec() ==> !sender.holds(received)
            &&& super::storage::takeover_refused(received, sender.pool_spec(), token) == Some(
                AdoptError::Owned,
            )
            &&& forall|other: Allocation|
                other.wf(storage) && #[trigger] other.holds(storage) && (other.class_spec()
                    != sender.class_spec() || other.slot_spec() != sender.slot_spec())
                    ==> other.holds(received)
        }),
{
    let c = sender.class_spec();
    let s = sender.slot_spec();
    let g = sender.generation_spec();
    super::state::law_authority_round_trips(g, sender.owner_spec());
    super::state::law_authority_round_trips(g, receiver);
    lemma_word_set(storage, c, s, super::state::detached_spec(g));
    lemma_word_set(sent(storage, sender), c, s, adopted.held());
}

/// Recovery takes from the dead what they held, and from nobody else.
pub proof fn law_recovery_spares_the_living(
    before: StorageView,
    after: StorageView,
    dead: u8,
    holder: Allocation,
)
    requires
        before.wf(),
        after.wf(),
        after.classes == before.classes,
        forall|c: int, s: int|
            before.has(c, s) ==> #[trigger] after.word(c, s) == super::storage::freed(
                before.word(c, s),
                dead,
            ),
        dead < PARTICIPANT_CAPACITY,
        holder.wf(before),
        holder.live_spec(),
    ensures
        holder.owner_spec() != dead ==> holder.holds(after) == holder.holds(before),
        holder.owner_spec() == dead ==> !holder.holds(after),
        holder.owner_spec() == dead && holder.holds(before) ==> after.word(
            holder.class_spec(),
            holder.slot_spec(),
        ) == super::state::free_spec(holder.generation_spec()),
{
    let c = holder.class_spec();
    let s = holder.slot_spec();
    super::state::law_authority_round_trips(holder.generation_spec(), holder.owner_spec());
    super::state::law_authority_is_its_word(before.word(c, s));
    let generation = super::state::generation_of(before.word(c, s));
    super::state::law_authority_round_trips(generation, dead);
    assert(after.word(c, s) == super::storage::freed(before.word(c, s), dead));
}

/// A block that is taken is large enough for what it was taken for.
pub proof fn law_blocks_are_large_enough(
    storage: StorageView,
    pool: LayoutId,
    owner: u8,
    layout: Extent,
    taken: Allocation,
)
    requires
        storage.wf(),
        super::geometry::graded(storage.classes),
        layout.size > 0,
        super::storage::claim_error(storage, layout) is None,
        super::storage::claims(storage, pool, owner, layout, taken),
    ensures
        storage.classes[taken.class_spec()].bytes >= layout.size,
        storage.classes[taken.class_spec()].bytes >= layout.align,
{
    let c = taken.class_spec();
    let size = layout.size as int;
    let align = layout.align as int;
    let wish = (if size < align {
        align
    } else {
        size
    }) as nat;
    let first = storage.classes[0].bytes as nat;
    let needed = super::storage::needed_block(size, align);
    let a = crate::numeric::log2(first);
    crate::numeric::lemma_power_at_least(wish);
    crate::numeric::lemma_power_of_log2(needed);
    assert(storage.classes[c].bytes == vstd::arithmetic::power2::pow2((a + c) as nat));
    assert(storage.classes[0].bytes == vstd::arithmetic::power2::pow2((a + 0) as nat));
    if needed < first {
        crate::numeric::lemma_pow2_ordered(a, (a + c) as nat);
    } else {
        let b = crate::numeric::log2(needed);
        assert(storage.preferred(size, align) == b - a);
        crate::numeric::lemma_pow2_ordered(b, (a + c) as nat);
    }
}

/// The blocks of a class hold an extent: they are as large as it is, and as large
/// as it is aligned.
pub open spec fn class_holds(storage: StorageView, c: int, layout: Extent) -> bool {
    &&& 0 <= c < storage.classes.len()
    &&& storage.classes[c].bytes >= layout.size
    &&& storage.classes[c].bytes >= layout.align
}

/// A block that is nobody's, and that can be taken once more.
pub open spec fn is_free(storage: StorageView, c: int, s: int) -> bool {
    &&& storage.has(c, s)
    &&& super::state::authority_of(storage.word(c, s)) is Free
    &&& super::state::generation_of(storage.word(c, s)) < MAX_GENERATION
}

/// In a graded pool the classes from the preferred one on are those that hold the
/// extent.
proof fn lemma_preferred(storage: StorageView, layout: Extent, c: int)
    requires
        storage.wf(),
        super::geometry::graded(storage.classes),
        layout.size > 0,
        0 <= c < storage.classes.len(),
    ensures
        class_holds(storage, c, layout) <==> {
            &&& super::storage::needed_block(layout.size as int, layout.align as int) <= u64::MAX
            &&& storage.preferred(layout.size as int, layout.align as int) <= c
        },
        storage.preferred(layout.size as int, layout.align as int) >= 0,
{
    let size = layout.size as int;
    let align = layout.align as int;
    let wish = (if size < align {
        align
    } else {
        size
    }) as nat;
    let first = storage.classes[0].bytes as nat;
    let needed = super::storage::needed_block(size, align);
    let a = crate::numeric::log2(first);
    crate::numeric::lemma_power_at_least(wish);
    crate::numeric::lemma_power_of_log2(needed);
    let b = crate::numeric::log2(needed);
    let e = (a + c) as nat;
    assert(storage.classes[c].bytes == vstd::arithmetic::power2::pow2(e));
    assert(storage.classes[0].bytes == vstd::arithmetic::power2::pow2((a + 0) as nat));
    crate::numeric::lemma_pow2_ordered(a, e);
    if needed < first {
    } else {
        crate::numeric::lemma_log2_monotone(first, needed);
        assert(storage.preferred(size, align) == b - a);
        if b <= e {
            crate::numeric::lemma_pow2_ordered(b, e);
        } else {
            vstd::arithmetic::power2::lemma_pow2_strictly_increases(e, b);
            // No power below the needed one holds the extent.
            if vstd::arithmetic::power2::pow2(e) >= wish {
                assert(needed <= vstd::arithmetic::power2::pow2(e));
            }
        }
    }
}

/// An extent is refused for exactly the reason that the pool gives: as too large
/// where no class has blocks that hold it, as unavailable where every block that
/// holds it is taken or used up, and else it gets a block. An extent of no bytes
/// is never refused.
pub proof fn law_extents_are_refused_for_want_of_blocks(storage: StorageView, layout: Extent)
    requires
        storage.wf(),
        super::geometry::graded(storage.classes),
    ensures
        layout.size == 0 ==> super::storage::claim_error(storage, layout) is None,
        layout.size > 0 ==> (super::storage::claim_error(storage, layout) == Some(
            super::storage::ReserveError::BlockTooLarge(()),
        ) <==> forall|c: int| !#[trigger] class_holds(storage, c, layout)),
        layout.size > 0 ==> (super::storage::claim_error(storage, layout) is None <==> exists|
            c: int,
            s: int,
        |
            class_holds(storage, c, layout) && #[trigger] is_free(storage, c, s)),
        super::storage::claim_error(storage, layout) is None || super::storage::claim_error(
            storage,
            layout,
        ) == Some(super::storage::ReserveError::BlockTooLarge(())) || super::storage::claim_error(
            storage,
            layout,
        ) == Some(super::storage::ReserveError::Unavailable(())),
{
    if layout.size > 0 {
        let size = layout.size as int;
        let align = layout.align as int;
        let first = storage.preferred(size, align);
        assert forall|c: int| 0 <= c < storage.classes.len() implies (#[trigger] class_holds(
            storage,
            c,
            layout,
        ) <==> super::storage::needed_block(size, align) <= u64::MAX && first <= c) by {
            lemma_preferred(storage, layout, c);
        }
        lemma_preferred(storage, layout, 0);
        if storage.too_large(size, align) {
            assert forall|c: int| !#[trigger] class_holds(storage, c, layout) by {}
        } else {
            assert(class_holds(storage, first, layout));
            if super::storage::claim_error(storage, layout) is None {
                let (d, t) = choose|d: int, t: int|
                    first <= d && storage.has(d, t) && super::storage::claimable(
                        #[trigger] storage.word(d, t),
                    );
                assert(class_holds(storage, d, layout));
                assert(is_free(storage, d, t));
            } else {
                assert forall|c: int, s: int| #[trigger] is_free(storage, c, s) implies !class_holds(
                    storage,
                    c,
                    layout,
                ) by {
                    if class_holds(storage, c, layout) {
                        assert(!super::storage::claimable(storage.word(c, s)));
                    }
                }
            }
        }
    }
}

/// An extent gets a block of the smallest blocks that hold it and of which one is
/// free: the block was free, it holds the extent, and no smaller block that holds
/// it was free.
pub proof fn law_extents_get_the_smallest_free_block(
    storage: StorageView,
    pool: LayoutId,
    owner: u8,
    layout: Extent,
    taken: Allocation,
    c: int,
    s: int,
)
    requires
        storage.wf(),
        super::geometry::graded(storage.classes),
        layout.size > 0,
        super::storage::claim_error(storage, layout) is None,
        super::storage::claims(storage, pool, owner, layout, taken),
    ensures
        class_holds(storage, taken.class_spec(), layout),
        is_free(storage, taken.class_spec(), taken.slot_spec()),
        class_holds(storage, c, layout) && is_free(storage, c, s)
            ==> storage.classes[taken.class_spec()].bytes <= storage.classes[c].bytes,
        taken.owner_spec() == owner,
        taken.pool_spec() == pool,
        taken.generation_spec() == super::state::generation_of(
            storage.word(taken.class_spec(), taken.slot_spec()),
        ) + 1,
{
    let d = taken.class_spec();
    lemma_preferred(storage, layout, d);
    if class_holds(storage, c, layout) && is_free(storage, c, s) {
        lemma_preferred(storage, layout, c);
        let a = crate::numeric::log2(storage.classes[0].bytes as nat);
        assert(storage.classes[c].bytes == vstd::arithmetic::power2::pow2((a + c) as nat));
        assert(storage.classes[d].bytes == vstd::arithmetic::power2::pow2((a + d) as nat));
        if c < d {
            assert(!super::storage::claimable(storage.word(c, s)));
        }
        crate::numeric::lemma_pow2_ordered((a + d) as nat, (a + c) as nat);
    }
}

/// A pool that was created for a range of blocks has them all: its smallest and
/// its largest blocks are those of the range, there are many of each size, and
/// the pool takes no more than it was given. Without a range its smallest blocks
/// are the smallest there are.
pub proof fn law_pools_serve_their_range(
    bound: u64,
    range: Option<super::geometry::BlockRange>,
    geometry: super::geometry::Geometry,
)
    requires
        range matches Some(range) ==> range.wf(),
        super::geometry::creates(
            bound,
            range,
            Ok::<super::geometry::Geometry, super::geometry::PoolCreateError>(geometry),
        ),
    ensures
        geometry.classes@.len() > 0,
        super::geometry::graded(geometry.classes@),
        geometry.layout.size <= bound,
        forall|c: int|
            0 <= c < geometry.classes@.len() ==> (#[trigger] geometry.classes@[c]).slots >= 64,
        range matches Some(range) ==> geometry.classes@[0].bytes == range.min_spec()
            && geometry.classes@.last().bytes == range.max_spec(),
        range is None ==> geometry.classes@[0].bytes == super::geometry::MIN_BLOCK
            && geometry.classes@.last().bytes <= super::geometry::DEFAULT_MAX,
{
    let min = super::geometry::range_min(range);
    let all = super::geometry::range_count(range);
    let (count, base) = choose|count: nat, base: u64|
        {
            &&& #[trigger] geometry.is_of(min, count, base)
            &&& 1 <= count <= all
            &&& range is Some ==> count == all
            &&& super::geometry::least_base(count as int) <= base
            &&& super::geometry::pool_fits(min, count, base, bound)
        };
    super::geometry::lemma_laid_out_classes(min, base, count);
    super::geometry::law_classes_are_graded(min, base, count);
    let classes = geometry.classes@;
    assert forall|c: int| 0 <= c < classes.len() implies (#[trigger] classes[c]).slots >= 64 by {
        super::geometry::lemma_least_slots(base, count as int, c);
    }
    let (low, high) = match range {
        Some(range) => (range.min_spec(), range.max_spec()),
        None => (super::geometry::MIN_BLOCK, super::geometry::DEFAULT_MAX),
    };
    vstd::arithmetic::power2::lemma2_to64();
    crate::numeric::lemma_pow2_is_power(6);
    crate::numeric::lemma_power_of_log2(low as nat);
    crate::numeric::lemma_log2(high as nat);
    if range is Some {
        crate::numeric::lemma_power_of_log2(high as nat);
    }
    crate::numeric::lemma_log2_monotone(low as nat, high as nat);
    let a = crate::numeric::log2(low as nat);
    assert(classes.last().bytes == vstd::arithmetic::power2::pow2((a + (count - 1)) as nat));
    crate::numeric::lemma_pow2_ordered(
        (a + (count - 1)) as nat,
        crate::numeric::log2(high as nat),
    );
}

/// A block size serves a wish with the smallest block there is for it: a power of
/// two, no smaller than the wish nor than the smallest block, and no larger than
/// any other such power.
pub proof fn law_block_sizes_serve_wishes(wish: u64, other: nat)
    requires
        crate::numeric::is_power_of_two_spec(other as int),
    ensures
        crate::numeric::is_power_of_two_spec(super::geometry::block_size(wish) as int),
        super::geometry::block_size(wish) >= wish,
        super::geometry::block_size(wish) >= super::geometry::MIN_BLOCK,
        other >= wish && other >= super::geometry::MIN_BLOCK ==> super::geometry::block_size(wish)
            <= other,
{
    let least = if wish < super::geometry::MIN_BLOCK {
        super::geometry::MIN_BLOCK as nat
    } else {
        wish as nat
    };
    crate::numeric::lemma_power_at_least(least);
    crate::numeric::lemma_power_of_log2(other);
}

/// A pool of which nothing was taken serves every extent that its largest blocks
/// hold.
pub proof fn law_untouched_pools_serve_what_they_hold(
    bound: u64,
    range: Option<super::geometry::BlockRange>,
    geometry: super::geometry::Geometry,
    storage: StorageView,
    layout: Extent,
)
    requires
        range matches Some(range) ==> range.wf(),
        super::geometry::creates(
            bound,
            range,
            Ok::<super::geometry::Geometry, super::geometry::PoolCreateError>(geometry),
        ),
        super::storage::untouched(storage, geometry.classes@),
    ensures
        super::storage::claim_error(storage, layout) is None <==> layout.size == 0 || (layout.size
            <= geometry.classes@.last().bytes && layout.align <= geometry.classes@.last().bytes),
        super::storage::claim_error(storage, layout) is Some ==> super::storage::claim_error(
            storage,
            layout,
        ) == Some(super::storage::ReserveError::BlockTooLarge(())),
{
    law_pools_serve_their_range(bound, range, geometry);
    law_extents_are_refused_for_want_of_blocks(storage, layout);
    if layout.size > 0 {
        let last = storage.classes.len() - 1;
        assert(storage.has(last, 0)) by {
            assert(geometry.classes@[last].slots >= 64);
        }
        super::state::law_authority_round_trips(0, 0);
        assert(storage.word(last, 0) == super::state::free_spec(0));
        assert(is_free(storage, last, 0));
        assert forall|c: int| #[trigger] class_holds(storage, c, layout) implies class_holds(
            storage,
            last,
            layout,
        ) by {
            let a = crate::numeric::log2(storage.classes[0].bytes as nat);
            assert(storage.classes[c].bytes == vstd::arithmetic::power2::pow2((a + c) as nat));
            assert(storage.classes[last].bytes == vstd::arithmetic::power2::pow2(
                (a + last) as nat,
            ));
            crate::numeric::lemma_pow2_ordered((a + c) as nat, (a + last) as nat);
        }
    }
}

/// A block that its holder gives back is nobody's and can be taken again, and
/// every other block is as it was. Whoever does not hold a block gives nothing
/// back.
pub proof fn law_released_blocks_are_free(storage: StorageView, holder: Allocation, other: Allocation)
    requires
        storage.wf(),
        holder.wf(storage),
        other.wf(storage),
    ensures
        ({
            let after = holder.released(storage);
            &&& after.wf()
            &&& after.classes == storage.classes
            &&& after.bytes == storage.bytes
            &&& !holder.holds(after)
            &&& holder.holds(storage) && holder.generation_spec() < MAX_GENERATION ==> is_free(
                after,
                holder.class_spec(),
                holder.slot_spec(),
            )
            &&& !holder.holds(storage) ==> after == storage
            &&& other.holds(storage) && (other.class_spec() != holder.class_spec()
                || other.slot_spec() != holder.slot_spec()) ==> other.holds(after)
        }),
{
    let c = holder.class_spec();
    let s = holder.slot_spec();
    if holder.holds(storage) {
        super::state::law_authority_round_trips(holder.generation_spec(), holder.owner_spec());
        lemma_word_set(storage, c, s, super::state::free_spec(holder.generation_spec()));
    }
}

/// A token gives its block away only in its own pool, and only the use that it
/// names: the block is nobody's, and was let go of under the token's generation.
/// A token that names nothing gives nothing.
pub proof fn law_tokens_give_what_they_name(
    storage: StorageView,
    pool: LayoutId,
    owner: u8,
    token: PoolToken,
    adopted: Allocation,
)
    requires
        storage.wf(),
        owner < PARTICIPANT_CAPACITY,
    ensures
        super::storage::takeover_refused(storage, pool, token) is None ==> token.pool() == pool,
        super::storage::takeover_refused(storage, pool, token) is None && token.generation() != 0
            ==> {
            let c = token.span().class as int;
            let s = token.span().slot as int;
            &&& storage.has(c, s)
            &&& super::state::authority_of(storage.word(c, s)) is Detached
            &&& super::state::generation_of(storage.word(c, s)) == token.generation()
        },
        super::storage::takes_over(storage, pool, owner, token, adopted) ==> {
            &&& adopted.owner_spec() == owner
            &&& adopted.live_spec() <==> token.generation() != 0
            &&& adopted.live_spec() ==> names(token, adopted) || token.pool() != pool
        },
{
    if token.generation() <= MAX_GENERATION {
        super::state::law_authority_round_trips(token.generation(), 0);
    }
}

/// A block is adopted only as what it was sent as, and only where it holds it:
/// under the same protocol and the same type, and in a block as large as the
/// value and as its alignment.
pub proof fn law_blocks_are_adopted_as_what_they_are<H: Repr, T: Repr + Shape + ?Sized>(
    storage: StorageView,
    pool: LayoutId,
    token: PoolToken,
)
    requires
        super::block::adopt_refused::<H, T>(storage, pool, token) is None,
    ensures
        token.pool() == pool,
        token.id() == crate::msg::type_id_spec(H::repr_spec(), T::repr_spec()),
        token.metadata_spec() matches Some(shape) && T::layout_spec(shape) matches Ok(layout) && (
        layout.size > 0 ==> {
            let c = token.span().class as int;
            &&& storage.has(c, token.span().slot as int)
            &&& storage.classes[c].bytes >= layout.size
            &&& storage.classes[c].bytes >= layout.align
            &&& token.generation() != 0
        }),
{
}

/// What a token's block can be given back by: whoever holds it, or anybody where
/// nobody does. A block that is another's stays so; one that was given back
/// already counts as given back, and a token of a later use than the block had
/// gives nothing back.
pub proof fn law_blocks_are_given_back_by_their_holders(
    storage: StorageView,
    token: PoolToken,
    owner: Option<u8>,
)
    requires
        storage.wf(),
        0 < token.generation() <= MAX_GENERATION,
        token.metadata_spec() is Some,
        storage.has(token.span().class as int, token.span().slot as int),
    ensures
        ({
            let word = storage.word(token.span().class as int, token.span().slot as int);
            let used = super::state::generation_of(word);
            let may = super::storage::token_releasable(storage, token, owner);
            let holds = super::storage::token_holds(storage, token);
            &&& word == super::state::detached_spec(token.generation()) ==> may && holds
            &&& forall|holder: u8|
                holder < PARTICIPANT_CAPACITY && word == #[trigger] super::state::local_spec(
                    token.generation(),
                    holder,
                ) ==> holds && (may <==> owner == Some(holder))
            &&& word == super::state::free_spec(token.generation()) ==> may && !holds
            &&& used > token.generation() && !(super::state::authority_of(word) is Broken) ==> may
                && !holds
            &&& used < token.generation() ==> !may && !holds
        }),
{
    super::state::law_authority_round_trips(token.generation(), 0);
    let word = storage.word(token.span().class as int, token.span().slot as int);
    assert forall|holder: u8|
        holder < PARTICIPANT_CAPACITY && word == #[trigger] super::state::local_spec(
            token.generation(),
            holder,
        ) implies super::storage::token_holds(storage, token) && (super::storage::token_releasable(
        storage,
        token,
        owner,
    ) <==> owner == Some(holder)) by {
        super::state::law_authority_round_trips(token.generation(), holder);
    }
}

/// What the sender put into a block is what the receiver of its token finds in
/// it: the token is accepted under its protocol and its type, and the adopted
/// block holds the value.
pub proof fn law_adopted_blocks_hold_what_was_put<H: Repr, T: crate::plain::Plain>(
    storage: StorageView,
    block: super::block::Block<T>,
    token: crate::token::Token<H>,
    header: H,
    receiver: u8,
    adopted: super::block::Block<T>,
)
    requires
        storage.wf(),
        block.allocation_spec().wf(storage),
        block.allocation_spec().holds(storage),
        block.allocation_spec().generation_spec() > 0,
        block.shape() == crate::token::Metadata::Sized,
        block.locates(token, header),
        storage.classes[block.allocation_spec().class_spec()].bytes
            >= crate::token::extent_of::<T>().size,
        storage.classes[block.allocation_spec().class_spec()].bytes
            >= crate::token::extent_of::<T>().align,
        receiver < PARTICIPANT_CAPACITY,
        super::storage::takes_over(
            sent(storage, block.allocation_spec()),
            block.allocation_spec().pool_spec(),
            receiver,
            token.token(),
            adopted.allocation_spec(),
        ),
    ensures
        super::block::adopt_refused::<H, T>(
            sent(storage, block.allocation_spec()),
            block.allocation_spec().pool_spec(),
            token.token(),
        ) is None,
        adopted.value(
            adopted.allocation_spec().taken(sent(storage, block.allocation_spec())),
        ) == block.value(storage),
{
    let allocation = block.allocation_spec();
    law_a_token_gives_its_block_away_once(
        storage,
        allocation,
        token.token(),
        receiver,
        adopted.allocation_spec(),
    );
}

/// A block has memory exactly where its value has bytes; that memory is its
/// holder's and is large enough.
pub open spec fn fits<T: Repr + Shape + ?Sized>(
    block: super::block::Block<T>,
    storage: StorageView,
) -> bool {
    let allocation = block.allocation_spec();
    let layout = T::layout_spec(block.shape());
    &&& allocation.wf(storage)
    &&& layout is Ok
    &&& if (layout->Ok_0).size > 0 {
        &&& allocation.holds(storage)
        &&& allocation.generation_spec() > 0
        &&& storage.classes[allocation.class_spec()].bytes >= (layout->Ok_0).size
        &&& storage.classes[allocation.class_spec()].bytes >= (layout->Ok_0).align
    } else {
        allocation.live_spec() ==> allocation.holds(storage) && allocation.generation_spec() > 0
    }
    &&& !allocation.live_spec() ==> allocation.generation_spec() == 0
}

/// A block that was taken for a value and filled fits that value.
pub proof fn law_taken_blocks_fit<T: Repr + Shape + ?Sized>(
    storage: StorageView,
    pool: LayoutId,
    owner: u8,
    block: super::block::Block<T>,
    bytes: Seq<u8>,
)
    requires
        storage.wf(),
        super::geometry::graded(storage.classes),
        T::layout_spec(block.shape()) is Ok,
        super::storage::claim_error(storage, T::layout_spec(block.shape())->Ok_0) is None,
        super::storage::claims(
            storage,
            pool,
            owner,
            T::layout_spec(block.shape())->Ok_0,
            block.allocation_spec(),
        ),
    ensures
        fits(
            block,
            super::block::stored(
                block.allocation_spec().taken(storage),
                block.allocation_spec(),
                bytes,
            ),
        ),
{
    let layout = T::layout_spec(block.shape())->Ok_0;
    let allocation = block.allocation_spec();
    if layout.size > 0 {
        law_blocks_are_large_enough(storage, pool, owner, layout, allocation);
        lemma_word_set(
            storage,
            allocation.class_spec(),
            allocation.slot_spec(),
            allocation.held(),
        );
    }
}

/// A receiver accepts the token of a block that was let go of, and finds the
/// bytes in it that its sender left there.
pub proof fn lemma_sent_blocks_are_accepted<H: Repr, T: Repr + Shape + ?Sized>(
    storage: StorageView,
    block: super::block::Block<T>,
    token: crate::token::Token<H>,
    header: H,
)
    requires
        storage.wf(),
        fits(block, storage),
        block.locates(token, header),
    ensures
        ({
            let sender = block.allocation_spec();
            let after = if sender.live_spec() {
                sent(storage, sender)
            } else {
                storage
            };
            &&& super::block::adopt_refused::<H, T>(
                after,
                sender.pool_spec(),
                token.token(),
            ) is None
            &&& forall|owner: u8, adopted: super::block::Block<T>|
                owner < PARTICIPANT_CAPACITY && #[trigger] super::storage::takes_over(
                    after,
                    sender.pool_spec(),
                    owner,
                    token.token(),
                    adopted.allocation_spec(),
                ) ==> adopted.bytes(adopted.allocation_spec().taken(after)) == block.bytes(storage)
        }),
{
    let sender = block.allocation_spec();
    if sender.live_spec() {
        super::state::law_authority_round_trips(sender.generation_spec(), sender.owner_spec());
        lemma_word_set(
            storage,
            sender.class_spec(),
            sender.slot_spec(),
            super::state::detached_spec(sender.generation_spec()),
        );
    }
}

/// A token is refused for what is wrong with it: it is of another pool, it names no
/// block of this one, or its block is not to be had under it.
pub proof fn law_tokens_are_refused_for_a_reason(
    storage: StorageView,
    pool: LayoutId,
    token: PoolToken,
)
    requires
        token.generation() <= MAX_GENERATION,
    ensures
        ({
            let refused = super::storage::takeover_refused(storage, pool, token);
            let named = storage.has(token.span().class as int, token.span().slot as int);
            &&& refused == Some(AdoptError::Pool) <==> token.pool() != pool
            &&& refused == Some(AdoptError::Span) <==> token.pool() == pool
                && token.generation() != 0 && !named
            &&& refused == Some(AdoptError::Owned) ==> token.pool() == pool && named
            &&& token.pool() == pool && token.generation() == 0 ==> refused is None
        }),
{
}

/// A search of a class looks at each of its blocks once, one after the other and
/// round the end; the search of the next class begins a fixed way further.
pub proof fn law_searches_look_at_every_block(storage: StorageView, c: int, p: int, q: int)
    requires
        storage.has(c, 0),
        0 <= p < q < storage.classes[c].slots,
        (c + 1) * 0x9e37 < 0x1_0000_0000_0000_0000,
    ensures
        storage.has(c, storage.probed(c, p)),
        storage.probed(c, p) != storage.probed(c, q),
        storage.probed(c, p + 1) == (storage.probed(c, p) + 1) % storage.classes[c].slots as int,
        super::storage::probe_start(c + 1, storage.classes[c].slots as int) == (
        super::storage::probe_start(c, storage.classes[c].slots as int) + 0x9e37)
            % storage.classes[c].slots as int,
        super::storage::probe_start(0, storage.classes[c].slots as int) == 0,
{
    let slots = storage.classes[c].slots as int;
    let start = super::storage::probe_start(c, slots);
    vstd::arithmetic::div_mod::lemma_mod_bound(start + p, slots);
    vstd::arithmetic::div_mod::lemma_add_mod_noop(start + p, 1, slots);
    vstd::arithmetic::div_mod::lemma_add_mod_noop(c * 0x9e37, 0x9e37, slots);
    vstd::arithmetic::div_mod::lemma_add_mod_noop_right(start, 0x9e37, slots);
    vstd::arithmetic::div_mod::lemma_mod_twice(c * 0x9e37, slots);
    vstd::arithmetic::div_mod::lemma_mod_twice(start + p, slots);
    vstd::arithmetic::div_mod::lemma_add_mod_noop_right(1, start + p, slots);
    vstd::arithmetic::div_mod::lemma_small_mod(0, slots as nat);
    if storage.probed(c, p) == storage.probed(c, q) {
        vstd::arithmetic::div_mod::lemma_fundamental_div_mod(start + p, slots);
        vstd::arithmetic::div_mod::lemma_fundamental_div_mod(start + q, slots);
        let a = (start + p) / slots;
        let b = (start + q) / slots;
        assert(false) by (nonlinear_arith)
            requires
                slots > 0,
                start + p == slots * a + (start + p) % slots,
                start + q == slots * b + (start + q) % slots,
                (start + p) % slots == (start + q) % slots,
                0 < q - p < slots,
        ;
    }
}

} // verus!
