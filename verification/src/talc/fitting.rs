//! What holds of the memory that a heap finds: how large it is, where it begins,
//! what is left of the chunk it is taken from, and which chunk that is.

use super::geometry::Geometry;
use super::heap::TalcMeta;
use super::mutation::{MutationError, MUTATION_CLEAN};
use vstd::prelude::*;

verus! {

/// A chunk for some bytes is the smallest that holds them and a tag, and that can
/// hold the links and the sizes of a free chunk once it is one.
pub proof fn law_chunks_are_as_small_as_they_can_be(bytes: int, words: int)
    requires
        bytes >= 0,
        words >= 4,
        8 * words >= bytes + 8,
    ensures
        8 * super::heap::need(bytes) >= bytes + 8,
        super::heap::need(bytes) >= 4,
        super::heap::need(bytes) <= words,
        8 * super::heap::words_for(bytes) >= bytes,
        8 * super::heap::words_for(bytes) < bytes + 8,
{
}

/// An allocation begins at the first word of its chunk whose address is aligned.
pub proof fn law_allocations_begin_at_the_first_aligned_word(
    base: int,
    chunk: int,
    align: int,
    word: int,
)
    requires
        base >= 0,
        base % 8 == 0,
        chunk >= 0,
        crate::numeric::is_power_of_two_spec(align),
        word >= chunk,
        (base + 8 * word) % align == 0,
    ensures
        chunk <= super::heap::fit_at(base, chunk, align) <= word,
        (base + 8 * super::heap::fit_at(base, chunk, align)) % align == 0,
{
    crate::extent::lemma_power_positive(align);
    if align <= 8 {
        crate::numeric::lemma_pow2_is_power(3);
        vstd::arithmetic::power2::lemma2_to64();
        crate::extent::lemma_power_divides(align, 8);
        let here = base + 8 * chunk;
        vstd::arithmetic::div_mod::lemma_fundamental_div_mod(here, 8);
        vstd::arithmetic::div_mod::lemma_fundamental_div_mod(8, align);
        let k = 8int / align;
        let m = here / 8;
        assert(here == align * (k * m)) by (nonlinear_arith)
            requires
                here == 8 * m,
                8 == align * k,
        ;
        vstd::arithmetic::div_mod::lemma_mod_multiples_basic(k * m, align);
        assert((k * m) * align == align * (k * m)) by (nonlinear_arith);
    } else {
        crate::numeric::lemma_pow2_is_power(3);
        vstd::arithmetic::power2::lemma2_to64();
        crate::extent::lemma_power_divides(8, align);
        crate::numeric::lemma_align_up(base + 8 * chunk, align);
        let up = crate::numeric::align_up_spec(base + 8 * chunk, align);
        vstd::arithmetic::div_mod::lemma_fundamental_div_mod(up, align);
        vstd::arithmetic::div_mod::lemma_fundamental_div_mod(align, 8);
        let k = align / 8;
        let m = up / align;
        assert(up == 8 * (k * m)) by (nonlinear_arith)
            requires
                up == align * m,
                align == 8 * k,
        ;
        assert(up % 8 == 0);
        assert((up - base) % 8 == 0);
        assert(base + 8 * super::heap::fit_at(base, chunk, align) == up);
    }
}

/// Of the chunk from which memory is taken, what lies below and above stays free
/// wherever it makes a chunk: an allocation keeps fewer words than that, and it
/// keeps its own.
pub proof fn law_allocations_keep_no_chunk_they_do_not_need(b: int, e: int, at: int, size: int)
    requires
        b <= at,
        size > 0,
        at + super::heap::need(size) <= e,
    ensures
        ({
            let from = super::heap::carved_base(b, at);
            let to = super::heap::carved_end(b, e, at, size);
            let least = if at + super::heap::words_for(size) + 1 < from + 4 {
                from + 4
            } else {
                at + super::heap::words_for(size) + 1
            };
            &&& b <= from <= at < to <= e
            &&& at - from < 4
            &&& from == b || from - b >= 4
            &&& to >= least
            &&& to < least + 4
            &&& to == e || e - to >= 4
            &&& to == e || to == least
        }),
{
}

/// Memory is taken from a chunk of the lowest size class that has one with room
/// for it, and there from the one that stands first.
pub proof fn law_memory_is_taken_from_the_lowest_class(
    heap: TalcMeta,
    b: int,
    c: int,
    size: int,
    align: int,
)
    requires
        heap.chosen(b, size, align),
        super::heap::fits(heap.base_spec(), heap.chunks(), c, size, align),
    ensures
        ({
            let class = heap.geometry_spec().bin_spec(8 * heap.chunks()[b].size);
            let other = heap.geometry_spec().bin_spec(8 * heap.chunks()[c].size);
            let list = heap.bins_spec()[class];
            &&& class <= other
            &&& class == other ==> list.index_of(b) <= list.index_of(c)
        }),
        heap.chunks()[b].used is None,
        super::heap::fit_at(heap.base_spec(), b, align) + super::heap::need(size) <= b
            + heap.chunks()[b].size,
{
}

/// A chunk that becomes free stands first in its class, before those that were
/// there; one that is taken leaves the others of its class in their order, and no
/// other class changes.
pub proof fn law_freed_chunks_come_first(
    lists: Seq<Seq<int>>,
    geometry: Geometry,
    b: int,
    size: int,
    other: int,
)
    requires
        0 <= geometry.bin_spec(8 * size) < lists.len(),
        !lists[geometry.bin_spec(8 * size)].contains(b),
        0 <= other < lists.len(),
        other != geometry.bin_spec(8 * size),
    ensures
        ({
            let class = geometry.bin_spec(8 * size);
            let freed = super::heap::listed(lists, geometry, b, size);
            &&& freed.len() == lists.len()
            &&& freed[other] == lists[other]
            &&& freed[class].first() == b
            &&& freed[class].skip(1) == lists[class]
            &&& super::heap::unlisted(freed, geometry, b, size) == lists
        }),
{
    let class = geometry.bin_spec(8 * size);
    let freed = super::heap::listed(lists, geometry, b, size);
    let list = freed[class];
    assert(list.skip(1) =~= lists[class]);
    assert(list[0] == b);
    assert(list.contains(b));
    let at = list.index_of(b);
    assert(list[at] == b);
    if at != 0 {
        assert(lists[class][at - 1] == b);
    }
    assert(list.remove(0) =~= lists[class]);
    assert(super::heap::unlisted(freed, geometry, b, size) =~= lists);
}

/// A heap is changed by one participant at a time: it takes a change exactly
/// where nobody is in the middle of one, and says who is.
pub proof fn law_heaps_are_changed_by_one(word: u64, owner: u8)
    ensures
        super::lock::mutation_refused(word) is None <==> word == MUTATION_CLEAN,
        super::lock::mutation_refused(super::mutation::owner_word_spec(owner)) == Some(
            MutationError::Busy(owner),
        ),
        super::lock::mutation_refused(super::mutation::MUTATION_POISONED) == Some(
            MutationError::Poisoned,
        ),
        super::lock::mutation_refused(word) == Some(MutationError::Poisoned) <==> word
            == super::mutation::MUTATION_POISONED,
{
}

} // verus!
