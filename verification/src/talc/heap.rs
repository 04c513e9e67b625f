//! Chunks of the general heap: boundary tags, bins of free chunks, splitting
//! and coalescing.
//!
//! The heap is a run of words. Chunks tile it: each is free or holds one
//! allocation. A free chunk starts with a list node and its size in bytes, and
//! ends with its size again. A chunk in use ends with a tag: the byte offset of
//! the chunk, a bit that says it is in use, and a bit that says whether the
//! chunk above it is free. Where bytes are left between the end of an
//! allocation and that tag, the first word there leads to the tag.

use super::avail::Availability;
use super::geometry::Geometry;
use super::links::{insert_front, read_link, remove_node, MAX_WORDS};
use vstd::prelude::*;

verus! {

/// Words before the first tag: the summary and two relative pointers.
pub const META_WORDS: usize = 3;

/// The smallest chunk in words.
pub const MIN_CHUNK_WORDS: usize = 4;

/// An allocation: its first word and its size in bytes.
pub ghost struct Allocation {
    pub at: int,
    pub size: int,
}

/// A chunk: its words, the chunk below it, and what it holds.
pub ghost struct ChunkView {
    pub size: int,
    pub prev: int,
    pub used: Option<Allocation>,
}

/// Words that hold `bytes` bytes.
pub open spec fn words_for(bytes: int) -> int {
    (bytes + 7) / 8
}

/// Words of the smallest chunk that holds `bytes` bytes and a tag.
pub open spec fn need(bytes: int) -> int {
    if bytes <= 24 {
        4
    } else {
        words_for(bytes) + 1
    }
}

/// The tag of a chunk in use.
pub open spec fn tag_word(chunk: int, above_free: bool) -> int {
    8 * chunk + 1 + if above_free {
        2int
    } else {
        0int
    }
}

/// The word where an allocation of alignment `align` starts in a chunk whose
/// first word is `chunk`, in a heap mapped at `base`.
pub open spec fn fit_at(base: int, chunk: int, align: int) -> int {
    if align <= 8 {
        chunk
    } else {
        (crate::numeric::align_up_spec(base + 8 * chunk, align) - base) / 8
    }
}

pub open spec fn is_free(chunks: Map<int, ChunkView>, b: int) -> bool {
    chunks.dom().contains(b) && chunks[b].used is None
}

/// The free chunks and their sizes in words.
pub open spec fn free_of(chunks: Map<int, ChunkView>) -> Map<int, int> {
    Map::new(|b: int| is_free(chunks, b), |b: int| chunks[b].size)
}

/// The bins with one more free chunk, in front of the others of its size class.
pub open spec fn listed(lists: Seq<Seq<int>>, geometry: Geometry, b: int, size: int) -> Seq<
    Seq<int>,
> {
    let bin = geometry.bin_spec(8 * size);
    lists.update(bin, seq![b] + lists[bin])
}

/// The bins without one free chunk.
pub open spec fn unlisted(lists: Seq<Seq<int>>, geometry: Geometry, b: int, size: int) -> Seq<
    Seq<int>,
> {
    let bin = geometry.bin_spec(8 * size);
    lists.update(bin, lists[bin].remove(lists[bin].index_of(b)))
}

/// The free chunk `b` has room for `size` bytes at an alignment of `align`.
pub open spec fn fits(
    base: int,
    chunks: Map<int, ChunkView>,
    b: int,
    size: int,
    align: int,
) -> bool {
    is_free(chunks, b) && fit_at(base, b, align) + need(size) <= b + chunks[b].size
}

/// Chunk `c` comes before chunk `b` when the bins are searched: a lower size
/// class first, then the one that was freed last.
pub open spec fn ranks_before(
    lists: Seq<Seq<int>>,
    geometry: Geometry,
    chunks: Map<int, ChunkView>,
    c: int,
    b: int,
) -> bool {
    let bin_c = geometry.bin_spec(8 * chunks[c].size);
    let bin_b = geometry.bin_spec(8 * chunks[b].size);
    bin_c < bin_b || (bin_c == bin_b && lists[bin_c].index_of(c) < lists[bin_b].index_of(b))
}

/// Whether the words below an allocation make a free chunk of their own.
pub open spec fn splits_below(b: int, at: int) -> bool {
    at - b >= 4
}

/// The first word of the chunk that is left below the allocation's end.
pub open spec fn carved_base(b: int, at: int) -> int {
    if splits_below(b, at) {
        at
    } else {
        b
    }
}

/// The lowest word that the tag of the allocation's chunk may take.
pub open spec fn lowest_tag(b: int, at: int, size: int) -> int {
    let post = at + words_for(size);
    if carved_base(b, at) + 3 < post {
        post
    } else {
        carved_base(b, at) + 3
    }
}

/// Whether the words above the allocation make a free chunk of their own.
pub open spec fn splits_above(b: int, e: int, at: int, size: int) -> bool {
    e - (lowest_tag(b, at, size) + 1) >= 4
}

/// The end of the allocation's chunk.
pub open spec fn carved_end(b: int, e: int, at: int, size: int) -> int {
    if splits_above(b, e, at, size) {
        lowest_tag(b, at, size) + 1
    } else {
        e
    }
}

/// The chunk `b` cut in two at word `m`.
pub open spec fn split(chunks: Map<int, ChunkView>, end: int, b: int, m: int) -> Map<
    int,
    ChunkView,
> {
    let c = chunks[b];
    let e = b + c.size;
    let cut = chunks.insert(b, ChunkView { size: m - b, prev: c.prev, used: c.used }).insert(
        m,
        ChunkView { size: e - m, prev: b, used: c.used },
    );
    if e < end {
        cut.insert(e, ChunkView { size: chunks[e].size, prev: m, used: chunks[e].used })
    } else {
        cut
    }
}

/// The chunk `b` and the one above it made one, which holds what `b` held.
pub open spec fn join(chunks: Map<int, ChunkView>, end: int, b: int) -> Map<int, ChunkView> {
    let c = chunks[b];
    let m = b + c.size;
    let e = m + chunks[m].size;
    let joined = chunks.remove(m).insert(b, ChunkView { size: e - b, prev: c.prev, used: c.used });
    if e < end {
        joined.insert(e, ChunkView { size: chunks[e].size, prev: b, used: chunks[e].used })
    } else {
        joined
    }
}

/// The chunk `b` holding `used`.
pub open spec fn set_used(
    chunks: Map<int, ChunkView>,
    b: int,
    used: Option<Allocation>,
) -> Map<int, ChunkView> {
    chunks.insert(b, ChunkView { size: chunks[b].size, prev: chunks[b].prev, used })
}

/// The chunks after `size` bytes at word `at` were taken from the free chunk
/// `b`: what is left below and above stays free where it makes a chunk.
pub open spec fn carve(
    chunks: Map<int, ChunkView>,
    end: int,
    b: int,
    at: int,
    size: int,
) -> Map<int, ChunkView> {
    let e = b + chunks[b].size;
    let m1 = if splits_below(b, at) {
        split(chunks, end, b, at)
    } else {
        chunks
    };
    let cb = carved_base(b, at);
    let m2 = if splits_above(b, e, at, size) {
        split(m1, end, cb, carved_end(b, e, at, size))
    } else {
        m1
    };
    set_used(m2, cb, Some(Allocation { at, size }))
}

/// Whether the chunk below `b` is free.
pub open spec fn free_below(chunks: Map<int, ChunkView>, b: int) -> bool {
    let p = chunks[b].prev;
    is_free(chunks, p) && p + chunks[p].size == b
}

/// Whether the chunk above `b` is free.
pub open spec fn free_above(chunks: Map<int, ChunkView>, b: int) -> bool {
    is_free(chunks, b + chunks[b].size)
}

/// The first word of the free chunk that giving `b` back makes.
pub open spec fn released_base(chunks: Map<int, ChunkView>, b: int) -> int {
    if free_below(chunks, b) {
        chunks[b].prev
    } else {
        b
    }
}

/// The end of that free chunk.
pub open spec fn released_end(chunks: Map<int, ChunkView>, b: int) -> int {
    let e = b + chunks[b].size;
    if free_above(chunks, b) {
        e + chunks[e].size
    } else {
        e
    }
}

/// The chunks after `b` was given back: it is one with its free neighbours.
pub open spec fn release(chunks: Map<int, ChunkView>, end: int, b: int) -> Map<int, ChunkView> {
    let m0 = set_used(chunks, b, None);
    let m1 = if free_above(chunks, b) {
        join(m0, end, b)
    } else {
        m0
    };
    if free_below(chunks, b) {
        join(m1, end, chunks[b].prev)
    } else {
        m1
    }
}

/// The bins after the same step.
pub open spec fn release_lists(
    lists: Seq<Seq<int>>,
    geometry: Geometry,
    chunks: Map<int, ChunkView>,
    b: int,
) -> Seq<Seq<int>> {
    let e = b + chunks[b].size;
    let l1 = if free_below(chunks, b) {
        unlisted(lists, geometry, chunks[b].prev, chunks[chunks[b].prev].size)
    } else {
        lists
    };
    let l2 = if free_above(chunks, b) {
        unlisted(l1, geometry, e, chunks[e].size)
    } else {
        l1
    };
    let lo = released_base(chunks, b);
    listed(l2, geometry, lo, released_end(chunks, b) - lo)
}

/// The bins after an allocation was carved.
pub open spec fn carve_lists(
    lists: Seq<Seq<int>>,
    geometry: Geometry,
    chunks: Map<int, ChunkView>,
    b: int,
    at: int,
    size: int,
) -> Seq<Seq<int>> {
    let e = b + chunks[b].size;
    let l0 = unlisted(lists, geometry, b, chunks[b].size);
    let l1 = if splits_below(b, at) {
        listed(l0, geometry, b, at - b)
    } else {
        l0
    };
    if splits_above(b, e, at, size) {
        let ce = carved_end(b, e, at, size);
        listed(l1, geometry, ce, e - ce)
    } else {
        l1
    }
}

spec fn chunk_tiles(chunks: Map<int, ChunkView>, start: int, end: int, b: int) -> bool {
    let c = chunks[b];
    &&& start <= b
    &&& c.size >= 4
    &&& b + c.size <= end
    &&& b + c.size < end ==> chunks.dom().contains(b + c.size) && chunks[b + c.size].prev == b
    &&& b > start ==> chunks.dom().contains(c.prev) && c.prev < b && c.prev + chunks[c.prev].size
        == b
}

/// No two free chunks touch.
spec fn coalesced(chunks: Map<int, ChunkView>) -> bool {
    forall|b: int| #[trigger]
        chunks.dom().contains(b) && chunks[b].used is None ==> !is_free(chunks, b + chunks[b].size)
}

/// Chunks lie end to end from `start` to `end`.
#[verifier::opaque]
spec fn tiles(chunks: Map<int, ChunkView>, start: int, end: int) -> bool {
    &&& chunks.dom().contains(start)
    &&& forall|b: int| #[trigger]
        chunks.dom().contains(b) ==> chunk_tiles(chunks, start, end, b)
    &&& forall|b: int, c: int|
        #![trigger chunks.dom().contains(b), chunks.dom().contains(c)]
        chunks.dom().contains(b) && chunks.dom().contains(c) && b < c ==> b + chunks[b].size <= c
}

spec fn chunk_tagged(words: Seq<u64>, chunks: Map<int, ChunkView>, b: int) -> bool {
    match chunks[b].used {
        Some(a) => {
            let tag = b + chunks[b].size - 1;
            let post = a.at + words_for(a.size);
            &&& a.size > 0
            &&& b <= a.at
            &&& post <= tag
            &&& words[tag] == tag_word(b, is_free(chunks, b + chunks[b].size))
            &&& post != tag ==> words[post] == 8 * tag
        },
        None => true,
    }
}

/// Every chunk in use has its tag, and the tag below the first chunk tells
/// whether that one is free.
#[verifier::opaque]
spec fn tagged(words: Seq<u64>, chunks: Map<int, ChunkView>, start: int) -> bool {
    &&& words[start - 1] == tag_word(META_WORDS as int, is_free(chunks, start))
    &&& forall|b: int| #[trigger] chunks.dom().contains(b) ==> chunk_tagged(words, chunks, b)
}

spec fn bin_list_ok(words: Seq<u64>, bins: int, lists: Seq<Seq<int>>, i: int) -> bool {
    super::links::list_ok(words, bins + 2 * i, lists[i])
}

spec fn members_ok(geometry: Geometry, lists: Seq<Seq<int>>, free: Map<int, int>, i: int) -> bool {
    &&& lists[i].no_duplicates()
    &&& forall|k: int|
        0 <= k < lists[i].len() ==> free.dom().contains(#[trigger] lists[i][k])
            && geometry.bin_spec(8 * free[lists[i][k]]) == i
}

spec fn free_ok(
    words: Seq<u64>,
    start: int,
    geometry: Geometry,
    lists: Seq<Seq<int>>,
    free: Map<int, int>,
    b: int,
) -> bool {
    let size = free[b];
    &&& start <= b
    &&& size >= 4
    &&& b + size <= words.len()
    &&& lists[geometry.bin_spec(8 * size)].contains(b)
    &&& words[b + 3] == 8 * size
    &&& words[b + size - 1] == 8 * size
}

spec fn disjoint(free: Map<int, int>) -> bool {
    forall|b: int, c: int|
        #![trigger free.dom().contains(b), free.dom().contains(c)]
        free.dom().contains(b) && free.dom().contains(c) && b < c ==> b + free[b] <= c
}

/// Word `i` belongs to the list node of a free chunk.
spec fn in_nodes(free: Map<int, int>, i: int) -> bool {
    exists|b: int| #[trigger] free.dom().contains(b) && b <= i < b + 3
}

/// The bins hold exactly the free chunks, each in the bin of its size.
#[verifier::opaque]
spec fn lists_ok(
    words: Seq<u64>,
    bins: int,
    geometry: Geometry,
    avail: Availability,
    lists: Seq<Seq<int>>,
    free: Map<int, int>,
) -> bool {
    let count = geometry.bins_spec();
    let start = bins + 2 * count + 1;
    &&& geometry.wf()
    &&& avail.wf()
    &&& avail.count() == count
    &&& META_WORDS < bins
    &&& start <= words.len() <= MAX_WORDS
    &&& lists.len() == count
    &&& forall|i: int| 0 <= i < count ==> #[trigger] bin_list_ok(words, bins, lists, i)
    &&& forall|i: int| 0 <= i < count ==> #[trigger] avail.has(i) == (lists[i].len() > 0)
    &&& forall|i: int| 0 <= i < count ==> #[trigger] members_ok(geometry, lists, free, i)
    &&& forall|b: int| #[trigger]
        free.dom().contains(b) ==> free_ok(words, start, geometry, lists, free, b)
    &&& disjoint(free)
}

/// Head and nodes of one bin do not touch each other.
proof fn lemma_bin_apart(
    words: Seq<u64>,
    bins: int,
    geometry: Geometry,
    avail: Availability,
    lists: Seq<Seq<int>>,
    free: Map<int, int>,
    i: int,
)
    requires
        lists_ok(words, bins, geometry, avail, lists, free),
        0 <= i < geometry.bins_spec(),
    ensures
        super::links::apart(words.len() as int, bins + 2 * i, lists[i]),
{
    reveal(lists_ok);
    let list = lists[i];
    assert(members_ok(geometry, lists, free, i));
    assert forall|k: int| 0 <= k < list.len() implies bins + 2 * i + 2 <= #[trigger] list[k]
        && list[k] + 4 <= words.len() by {
        assert(free.dom().contains(lists[i][k]));
    }
    assert forall|j: int, k: int|
        0 <= j < list.len() && 0 <= k < list.len() && j != k implies #[trigger] list[j] + 4
        <= #[trigger] list[k] || list[k] + 4 <= list[j] by {
        assert(free.dom().contains(lists[i][j]));
        assert(free.dom().contains(lists[i][k]));
        assert(list[j] != list[k]);
    }
}

/// Lists other than bin `i` do not notice changes to the words of bin `i` and
/// of a chunk that is not free.
proof fn lemma_other_bin(
    w0: Seq<u64>,
    w1: Seq<u64>,
    bins: int,
    geometry: Geometry,
    avail: Availability,
    lists: Seq<Seq<int>>,
    free: Map<int, int>,
    i: int,
    j: int,
    lo: int,
    hi: int,
)
    requires
        lists_ok(w0, bins, geometry, avail, lists, free),
        0 <= i < geometry.bins_spec(),
        0 <= j < geometry.bins_spec(),
        i != j,
        w1.len() == w0.len(),
        bins + 2 * geometry.bins_spec() < lo,
        forall|c: int| #[trigger]
            free.dom().contains(c) && geometry.bin_spec(8 * free[c]) == j ==> c + free[c] <= lo || hi
                <= c,
        forall|x: int|
            0 <= x < w0.len() && !(bins + 2 * i <= x < bins + 2 * i + 2) && !(lo <= x < hi) && !(exists|
                k: int,
            |
                0 <= k < lists[i].len() && #[trigger] lists[i][k] <= x < lists[i][k] + 3)
                ==> #[trigger] w1[x] == w0[x],
    ensures
        bin_list_ok(w1, bins, lists, j),
{
    reveal(lists_ok);
    assert(bin_list_ok(w0, bins, lists, j));
    assert(members_ok(geometry, lists, free, i));
    assert(members_ok(geometry, lists, free, j));
    let head = bins + 2 * j;
    let list = lists[j];
    assert forall|x: int| head <= x < head + 2 implies w1[x] == w0[x] by {
        if exists|k: int| 0 <= k < lists[i].len() && #[trigger] lists[i][k] <= x < lists[i][k] + 3 {
            let k = choose|k: int| 0 <= k < lists[i].len() && #[trigger] lists[i][k] <= x < lists[i][k] + 3;
            assert(free.dom().contains(lists[i][k]));
        }
    }
    assert forall|k: int| 0 <= k < list.len() implies w0[#[trigger] list[k]] == w1[list[k]]
        && w0[list[k] + 1] == w1[list[k] + 1] && w0[list[k] + 2] == w1[list[k] + 2] by {
        assert(free.dom().contains(lists[j][k]));
        assert forall|x: int| list[k] <= x < list[k] + 3 implies w1[x] == w0[x] by {
            if exists|m: int|
                0 <= m < lists[i].len() && #[trigger] lists[i][m] <= x < lists[i][m] + 3 {
                let m = choose|m: int|
                    0 <= m < lists[i].len() && #[trigger] lists[i][m] <= x < lists[i][m] + 3;
                assert(free.dom().contains(lists[i][m]));
                assert(lists[i][m] != lists[j][k]);
            }
        }
    }
    super::links::lemma_list_frame(w0, w1, head, list);
}

/// The general heap of a region.
pub struct TalcMeta {
    base: u64,
    words: Vec<u64>,
    avail: Availability,
    bins: usize,
    geometry: Geometry,
    lists: Ghost<Seq<Seq<int>>>,
    chunks: Ghost<Map<int, ChunkView>>,
    live: Ghost<Map<int, int>>,
}

impl TalcMeta {
    spec fn start(self) -> int {
        self.bins + 2 * self.geometry.bins_spec() + 1
    }

    spec fn lists_inv(self, free: Map<int, int>) -> bool {
        lists_ok(self.words@, self.bins as int, self.geometry, self.avail, self.lists@, free)
    }

    /// Everything but the words and the lists is as in `other`.
    spec fn same_frame(self, other: Self) -> bool {
        &&& self.base == other.base
        &&& self.words@.len() == other.words@.len()
        &&& self.bins == other.bins
        &&& self.geometry == other.geometry
        &&& self.chunks == other.chunks
        &&& self.live == other.live
    }

    spec fn free(self) -> Map<int, int> {
        free_of(self.chunks@)
    }

    /// Allocations are known by the byte offset of their first word.
    spec fn live_ok(self) -> bool {
        &&& forall|o: int| #[trigger]
            self.live@.dom().contains(o) ==> self.chunks@.dom().contains(self.live@[o])
                && self.chunks@[self.live@[o]].used is Some && 8
                * self.chunks@[self.live@[o]].used->0.at == o
        &&& forall|b: int| #[trigger]
            self.chunks@.dom().contains(b) && self.chunks@[b].used is Some
                ==> self.live@.dom().contains(8 * self.chunks@[b].used->0.at) && self.live@[8
                * self.chunks@[b].used->0.at] == b
    }

    /// The heap is consistent: chunks tile it, tags and bins say what they are.
    pub closed spec fn wf(self) -> bool {
        &&& self.lists_inv(self.free())
        &&& tiles(self.chunks@, self.start(), self.words@.len() as int)
        &&& coalesced(self.chunks@)
        &&& tagged(self.words@, self.chunks@, self.start())
        &&& self.live_ok()
        &&& self.base % 8 == 0
        &&& self.base + 8 * self.words@.len() <= u64::MAX
    }

    /// Chunks by their first word.
    pub closed spec fn chunks(self) -> Map<int, ChunkView> {
        self.chunks@
    }

    /// Free chunks of each bin, in the order in which they are searched.
    pub closed spec fn bins_spec(self) -> Seq<Seq<int>> {
        self.lists@
    }

    pub closed spec fn geometry_spec(self) -> Geometry {
        self.geometry
    }

    /// The address that the first word is mapped at.
    pub closed spec fn base_spec(self) -> int {
        self.base as int
    }

    /// Words of the heap, its metadata among them.
    pub closed spec fn extent_spec(self) -> int {
        self.words@.len() as int
    }

    /// The byte offset and size of every live allocation.
    pub closed spec fn live(self) -> Map<int, int> {
        Map::new(
            |o: int| self.live@.dom().contains(o),
            |o: int| self.chunks@[self.live@[o]].used->0.size,
        )
    }

    fn bin_head(&self, bin: u64) -> (head: usize)
        requires
            self.bins + 2 * self.geometry.bins_spec() < self.words.len(),
            bin < self.geometry.bins_spec(),
        ensures
            head == self.bins + 2 * bin,
    {
        self.bins + 2 * bin as usize
    }

    /// Makes the words `[b, b + size)` a free chunk of its bin.
    #[verifier::spinoff_prover]
    #[verifier::rlimit(30)]
    fn insert_free(&mut self, b: usize, size: usize, Ghost(free): Ghost<Map<int, int>>)
        requires
            old(self).lists_inv(free),
            !free.dom().contains(b as int),
            size >= MIN_CHUNK_WORDS,
            old(self).start() <= b,
            b + size <= old(self).words.len(),
            forall|c: int| #[trigger]
                free.dom().contains(c) ==> c + free[c] <= b || b + size <= c,
        ensures
            final(self).same_frame(*old(self)),
            final(self).lists_inv(free.insert(b as int, size as int)),
            final(self).lists@ == listed(
                old(self).lists@,
                old(self).geometry,
                b as int,
                size as int,
            ),
            forall|x: int|
                0 <= x < old(self).words@.len() && !(old(self).bins <= x < old(self).start() - 1)
                    && !(b <= x < b + 4) && x != b + size - 1 && !in_nodes(free, x)
                    ==> #[trigger] final(self).words@[x] == old(self).words@[x],
    {
        proof {
            reveal(lists_ok);
        }
        let ghost before = *self;
        let ghost w0 = self.words@;
        let bin: u64 = self.geometry.bin(8 * size as u64);
        let head: usize = self.bin_head(bin);
        let ghost i = bin as int;
        let ghost list = self.lists@[i];
        proof {
            assert(bin_list_ok(w0, self.bins as int, self.lists@, i));
            assert(members_ok(self.geometry, self.lists@, free, i));
            lemma_bin_apart(w0, self.bins as int, self.geometry, self.avail, self.lists@, free, i);
            let longer = seq![b as int] + list;
            assert forall|k: int| 0 <= k < longer.len() implies head + 2 <= #[trigger] longer[k]
                && longer[k] + 4 <= w0.len() by {
                if k > 0 {
                    assert(longer[k] == list[k - 1]);
                }
            }
            assert forall|j: int, k: int|
                0 <= j < longer.len() && 0 <= k < longer.len() && j != k implies #[trigger] longer[j]
                + 4 <= #[trigger] longer[k] || longer[k] + 4 <= longer[j] by {
                if j > 0 {
                    assert(longer[j] == list[j - 1]);
                    assert(free.dom().contains(list[j - 1]));
                }
                if k > 0 {
                    assert(longer[k] == list[k - 1]);
                    assert(free.dom().contains(list[k - 1]));
                }
            }
        }
        if read_link(&self.words, head).is_none() {
            self.avail.set_avail(bin);
        }
        insert_front(&mut self.words, head, b, Ghost(list));
        let ghost w1 = self.words@;
        self.words[b + 3] = 8 * size as u64;
        self.words[b + size - 1] = 8 * size as u64;
        self.lists = Ghost(self.lists@.update(i, seq![b as int] + list));
        proof {
            let w2 = self.words@;
            let more = free.insert(b as int, size as int);
            let lists = self.lists@;
            let count = self.geometry.bins_spec();
            let longer = seq![b as int] + list;
            assert forall|x: int| 0 <= x < w0.len() && !(head <= x < head + 2) && !(b <= x < b
                + size) && !(exists|k: int|
                0 <= k < before.lists@[i].len() && #[trigger] before.lists@[i][k] <= x
                    < before.lists@[i][k] + 3) implies #[trigger] w2[x] == w0[x] by {
                if list.len() > 0 && x == list[0] + 2 {
                    assert(before.lists@[i][0] <= x < before.lists@[i][0] + 3);
                }
            }
            assert forall|j: int| 0 <= j < count implies #[trigger] bin_list_ok(
                w2,
                self.bins as int,
                lists,
                j,
            ) by {
                if j == i {
                    assert(lists[i] == longer);
                    assert forall|k: int| 0 <= k < longer.len() implies w1[#[trigger] longer[k]]
                        == w2[longer[k]] && w1[longer[k] + 1] == w2[longer[k] + 1] && w1[longer[k]
                        + 2] == w2[longer[k] + 2] by {
                        if k > 0 {
                            assert(longer[k] == list[k - 1]);
                            assert(free.dom().contains(list[k - 1]));
                        }
                    }
                    super::links::lemma_list_frame(w1, w2, head as int, longer);
                } else {
                    assert(lists[j] == before.lists@[j]);
                    lemma_other_bin(
                        w0,
                        w2,
                        self.bins as int,
                        self.geometry,
                        before.avail,
                        before.lists@,
                        free,
                        i,
                        j,
                        b as int,
                        b + size,
                    );
                }
            }
            assert forall|j: int| 0 <= j < count implies #[trigger] self.avail.has(j) == (
            lists[j].len() > 0) by {
                assert(before.avail.has(j) == (before.lists@[j].len() > 0));
            }
            assert forall|j: int| 0 <= j < count implies #[trigger] members_ok(
                self.geometry,
                lists,
                more,
                j,
            ) by {
                assert(members_ok(self.geometry, before.lists@, free, j));
                if j == i {
                    assert forall|k: int| 0 <= k < longer.len() implies more.dom().contains(
                        #[trigger] longer[k],
                    ) && self.geometry.bin_spec(8 * more[longer[k]]) == i by {
                        if k > 0 {
                            assert(longer[k] == list[k - 1]);
                            assert(free.dom().contains(before.lists@[i][k - 1]));
                        }
                    }
                    assert(longer.no_duplicates()) by {
                        assert forall|p: int, q: int|
                            0 <= p < longer.len() && 0 <= q < longer.len() && p
                                != q implies longer[p] != longer[q] by {
                            if p > 0 {
                                assert(longer[p] == list[p - 1]);
                                assert(free.dom().contains(before.lists@[i][p - 1]));
                            }
                            if q > 0 {
                                assert(longer[q] == list[q - 1]);
                                assert(free.dom().contains(before.lists@[i][q - 1]));
                            }
                        }
                    }
                } else {
                    assert(lists[j] == before.lists@[j]);
                    assert forall|k: int| 0 <= k < lists[j].len() implies more.dom().contains(
                        #[trigger] lists[j][k],
                    ) && self.geometry.bin_spec(8 * more[lists[j][k]]) == j by {
                        assert(free.dom().contains(before.lists@[j][k]));
                    }
                }
            }
            assert forall|c: int| #[trigger] more.dom().contains(c) implies free_ok(
                w2,
                self.start(),
                self.geometry,
                lists,
                more,
                c,
            ) by {
                if c == b {
                    assert(longer[0] == b);
                    assert(lists[i].contains(b as int));
                } else {
                    assert(free.dom().contains(c));
                    assert(free_ok(w0, self.start(), self.geometry, before.lists@, free, c));
                    let j = self.geometry.bin_spec(8 * free[c]);
                    super::geometry::lemma_bins_are_monotone(self.geometry, 8 * free[c], 8 * free[c]);
                    let k = choose|k: int| 0 <= k < before.lists@[j].len() && before.lists@[j][k] == c;
                    if j == i {
                        assert(longer[k + 1] == c);
                    }
                    assert(lists[j].contains(c));
                    lemma_not_node(free, c, c + 3);
                    lemma_not_node(free, c, c + free[c] - 1);
                }
            }
            assert(disjoint(more));
            assert forall|x: int| 0 <= x < w0.len() && !(self.bins <= x < self.start() - 1) && !(b
                <= x < b + 4) && x != b + size - 1 && !in_nodes(free, x) implies #[trigger] w2[x]
                == w0[x] by {
                if list.len() > 0 && x == list[0] + 2 {
                    assert(free.dom().contains(before.lists@[i][0]));
                }
            }
        }
    }
}

impl TalcMeta {
    /// Takes the free chunk `b` out of its bin.
    #[verifier::spinoff_prover]
    #[verifier::rlimit(30)]
    fn remove_free(&mut self, b: usize, bin: u64, Ghost(free): Ghost<Map<int, int>>)
        requires
            old(self).lists_inv(free),
            free.dom().contains(b as int),
            bin == old(self).geometry.bin_spec(8 * free[b as int]),
        ensures
            final(self).same_frame(*old(self)),
            final(self).lists_inv(free.remove(b as int)),
            final(self).lists@ == unlisted(
                old(self).lists@,
                old(self).geometry,
                b as int,
                free[b as int],
            ),
            forall|x: int|
                0 <= x < old(self).words@.len() && !(old(self).bins <= x < old(self).start() - 1)
                    && !in_nodes(free.remove(b as int), x) ==> #[trigger] final(self).words@[x]
                    == old(self).words@[x],
    {
        proof {
            reveal(lists_ok);
        }
        let ghost before = *self;
        let ghost w0 = self.words@;
        let ghost i = bin as int;
        let ghost list = self.lists@[i];
        let ghost k = list.index_of(b as int);
        proof {
            assert(free_ok(w0, self.start(), self.geometry, self.lists@, free, b as int));
            super::geometry::lemma_bins_are_monotone(
                self.geometry,
                8 * free[b as int],
                8 * free[b as int],
            );
            assert(bin_list_ok(w0, self.bins as int, self.lists@, i));
            assert(members_ok(self.geometry, self.lists@, free, i));
            lemma_bin_apart(w0, self.bins as int, self.geometry, self.avail, self.lists@, free, i);
            assert(list.contains(b as int));
            assert(0 <= k < list.len() && list[k] == b);
            assert(self.words@.len() == self.words.len());
        }
        let head: usize = self.bin_head(bin);
        remove_node(&mut self.words, b, Ghost(head as int), Ghost(list), Ghost(k));
        self.lists = Ghost(self.lists@.update(i, list.remove(k)));
        if read_link(&self.words, head).is_none() {
            proof {
                assert(before.avail.has(i) == (before.lists@[i].len() > 0));
            }
            self.avail.clear_avail(bin);
        }
        proof {
            let w1 = self.words@;
            let less = free.remove(b as int);
            let lists = self.lists@;
            let count = self.geometry.bins_spec();
            let shorter = list.remove(k);
            assert(lists[i] == shorter);
            assert(super::links::list_ok(w1, head as int, shorter));
            assert forall|j: int| 0 <= j < shorter.len() implies #[trigger] shorter[j] == list[if j
                < k {
                j
            } else {
                j + 1
            }] by {}
            assert forall|x: int| 0 <= x < w0.len() && !(head <= x < head + 2) && !(exists|m: int|
                0 <= m < before.lists@[i].len() && #[trigger] before.lists@[i][m] <= x
                    < before.lists@[i][m] + 3) implies #[trigger] w1[x] == w0[x] by {
                if k > 0 && list[k - 1] <= x < list[k - 1] + 2 {
                    assert(before.lists@[i][k - 1] <= x < before.lists@[i][k - 1] + 3);
                }
                if k + 1 < list.len() && x == list[k + 1] + 2 {
                    assert(before.lists@[i][k + 1] <= x < before.lists@[i][k + 1] + 3);
                }
            }
            assert forall|j: int| 0 <= j < count implies #[trigger] bin_list_ok(
                w1,
                self.bins as int,
                lists,
                j,
            ) by {
                if j != i {
                    assert(lists[j] == before.lists@[j]);
                    lemma_other_bin(
                        w0,
                        w1,
                        self.bins as int,
                        self.geometry,
                        before.avail,
                        before.lists@,
                        free,
                        i,
                        j,
                        w0.len() as int,
                        w0.len() as int,
                    );
                }
            }
            assert forall|j: int| 0 <= j < count implies #[trigger] self.avail.has(j) == (
            lists[j].len() > 0) by {
                assert(before.avail.has(j) == (before.lists@[j].len() > 0));
            }
            assert forall|j: int| 0 <= j < count implies #[trigger] members_ok(
                self.geometry,
                lists,
                less,
                j,
            ) by {
                assert(members_ok(self.geometry, before.lists@, free, j));
                if j == i {
                    assert forall|m: int| 0 <= m < shorter.len() implies less.dom().contains(
                        #[trigger] shorter[m],
                    ) && self.geometry.bin_spec(8 * less[shorter[m]]) == i by {
                        let at = if m < k {
                            m
                        } else {
                            m + 1
                        };
                        assert(shorter[m] == list[at]);
                        assert(free.dom().contains(before.lists@[i][at]));
                        assert(list[at] != list[k]);
                    }
                    assert(shorter.no_duplicates()) by {
                        assert forall|p: int, q: int|
                            0 <= p < shorter.len() && 0 <= q < shorter.len() && p
                                != q implies shorter[p] != shorter[q] by {
                            let pp = if p < k { p } else { p + 1 };
                            let qq = if q < k { q } else { q + 1 };
                            assert(shorter[p] == list[pp]);
                            assert(shorter[q] == list[qq]);
                        }
                    }
                } else {
                    assert(lists[j] == before.lists@[j]);
                    assert forall|m: int| 0 <= m < lists[j].len() implies less.dom().contains(
                        #[trigger] lists[j][m],
                    ) && self.geometry.bin_spec(8 * less[lists[j][m]]) == j by {
                        assert(free.dom().contains(before.lists@[j][m]));
                    }
                }
            }
            assert forall|c: int| #[trigger] less.dom().contains(c) implies free_ok(
                w1,
                self.start(),
                self.geometry,
                lists,
                less,
                c,
            ) by {
                assert(free.dom().contains(c));
                assert(free_ok(w0, self.start(), self.geometry, before.lists@, free, c));
                let j = self.geometry.bin_spec(8 * free[c]);
                super::geometry::lemma_bins_are_monotone(self.geometry, 8 * free[c], 8 * free[c]);
                let m = choose|m: int| 0 <= m < before.lists@[j].len() && before.lists@[j][m] == c;
                if j == i {
                    let at = if m < k { m } else { m - 1 };
                    assert(shorter[at] == c);
                }
                assert(lists[j].contains(c));
                lemma_not_node(free, c, c + 3);
                lemma_not_node(free, c, c + free[c] - 1);
                lemma_frame_of_remove(before, w1, free, b as int, i, k, c + 3);
                lemma_frame_of_remove(before, w1, free, b as int, i, k, c + free[c] - 1);
            }
            assert(disjoint(less));
            assert forall|x: int| 0 <= x < w0.len() && !(self.bins <= x < self.start() - 1)
                && !in_nodes(less, x) implies #[trigger] w1[x] == w0[x] by {
                lemma_frame_of_remove(before, w1, free, b as int, i, k, x);
            }
        }
    }
}

impl TalcMeta {
    /// Where `size` bytes fit into the free chunk `b` of `n` words.
    fn fit(&self, b: usize, n: usize, words: u64, align: u64) -> (at: Option<usize>)
        requires
            self.base % 8 == 0,
            self.base + 8 * self.words.len() <= u64::MAX,
            b + n <= self.words.len(),
            crate::numeric::is_power_of_two_spec(align as int),
            words > 0,
        ensures
            match at {
                Some(word) => word == fit_at(self.base as int, b as int, align as int) && word + words
                    <= b + n && b <= word,
                None => fit_at(self.base as int, b as int, align as int) + words > b + n,
            },
            at is Some && align > 8 ==> (self.base + 8 * at->0) % align as int == 0,
    {
        if align <= 8 {
            if n as u64 >= words {
                Some(b)
            } else {
                None
            }
        } else {
            let addr: u64 = self.base + 8 * b as u64;
            let limit: u64 = self.base + 8 * (b + n) as u64;
            proof {
                crate::extent::lemma_power_positive(align as int);
                crate::numeric::lemma_align_up(addr as int, align as int);
                crate::numeric::lemma_pow2_is_power(3);
                vstd::arithmetic::power2::lemma2_to64();
                crate::extent::lemma_power_divides(8, align as int);
                let up = crate::numeric::align_up_spec(addr as int, align as int);
                lemma_multiple_of_eight(up, align as int);
            }
            let rest: u64 = addr % align;
            let up: u64 = if rest == 0 {
                addr
            } else {
                match addr.checked_add(align - rest) {
                    Some(up) => up,
                    None => return None,
                }
            };
            assert(up == crate::numeric::align_up_spec(addr as int, align as int));
            if up >= limit {
                return None;
            }
            let at: usize = ((up - self.base) / 8) as usize;
            assert(up == self.base + 8 * at);
            if words <= (b + n - at) as u64 {
                Some(at)
            } else {
                None
            }
        }
    }

    /// Finds the first free chunk with room and takes it out of its bin.
    #[verifier::spinoff_prover]
    #[verifier::rlimit(30)]
    fn acquire_chunk(&mut self, size: u64, align: u64) -> (found: Option<(usize, usize, usize)>)
        requires
            old(self).wf(),
            0 < size <= crate::extent::MAX_EXTENT,
            crate::numeric::is_power_of_two_spec(align as int),
        ensures
            match found {
                None => *final(self) == *old(self) && forall|c: int|
                    !#[trigger] fits(
                        old(self).base as int,
                        old(self).chunks@,
                        c,
                        size as int,
                        align as int,
                    ),
                Some((b, n, at)) => {
                    &&& fits(old(self).base as int, old(self).chunks@, b as int, size as int, align as int)
                    &&& n == old(self).chunks@[b as int].size
                    &&& at == fit_at(old(self).base as int, b as int, align as int)
                    &&& b <= at
                    &&& align > 8 ==> (old(self).base + 8 * at) % align as int == 0
                    &&& forall|c: int|
                        #[trigger] fits(
                            old(self).base as int,
                            old(self).chunks@,
                            c,
                            size as int,
                            align as int,
                        ) ==> !ranks_before(
                            old(self).lists@,
                            old(self).geometry,
                            old(self).chunks@,
                            c,
                            b as int,
                        )
                    &&& final(self).same_frame(*old(self))
                    &&& final(self).lists_inv(old(self).free().remove(b as int))
                    &&& final(self).lists@ == unlisted(
                        old(self).lists@,
                        old(self).geometry,
                        b as int,
                        n as int,
                    )
                    &&& forall|x: int|
                        0 <= x < old(self).words@.len() && !(old(self).bins <= x
                            < old(self).start() - 1) && !in_nodes(
                            old(self).free().remove(b as int),
                            x,
                        ) ==> #[trigger] final(self).words@[x] == old(self).words@[x]
                },
            },
    {
        let ghost free = self.free();
        let words: u64 = if size <= 24 {
            4
        } else {
            (size + 7) / 8 + 1
        };
        assert(words == need(size as int));
        proof {
            reveal(lists_ok);
        }
        let lowest: u64 = self.geometry.bin(8 * words);
        let mut bin: u64 = match self.avail.next_avail_bin_idx(lowest) {
            Some(bin) => {
                proof {
                    assert forall|c: int| #[trigger] fits(
                        self.base as int,
                        self.chunks@,
                        c,
                        size as int,
                        align as int,
                    ) implies self.geometry.bin_spec(8 * self.chunks@[c].size) >= bin by {
                        lemma_fitting_bin(*self, c, size as int, align as int);
                    }
                }
                bin
            },
            None => {
                proof {
                    assert forall|c: int| !#[trigger] fits(
                        self.base as int,
                        self.chunks@,
                        c,
                        size as int,
                        align as int,
                    ) by {
                        if fits(self.base as int, self.chunks@, c, size as int, align as int) {
                            lemma_fitting_bin(*self, c, size as int, align as int);
                        }
                    }
                }
                return None;
            },
        };
        loop
            invariant
                self.wf(),
                *self == *old(self),
                free == self.free(),
                crate::numeric::is_power_of_two_spec(align as int),
                0 < size <= crate::extent::MAX_EXTENT,
                words == need(size as int),
                lowest == self.geometry.bin_spec(8 * words),
                lowest <= bin < self.geometry.bins_spec(),
                self.avail.has(bin as int),
                forall|c: int|
                    #[trigger] fits(self.base as int, self.chunks@, c, size as int, align as int)
                        ==> self.geometry.bin_spec(8 * self.chunks@[c].size) >= bin,
            decreases self.geometry.bins_spec() - bin,
        {
            let ghost i = bin as int;
            let ghost list = self.lists@[i];
            proof {
                lemma_head(*self, i);
                assert(self.words@.len() == self.words.len());
            }
            let head: usize = self.bin_head(bin);
            let mut cur: Option<usize> = read_link(&self.words, head);
            let ghost mut k: int = 0;
            loop
                invariant_except_break
                    0 <= k <= list.len(),
                    match cur {
                        Some(node) => k < list.len() && node == list[k],
                        None => k == list.len(),
                    },
                    forall|j: int|
                        0 <= j < k ==> !fits(
                            self.base as int,
                            self.chunks@,
                            #[trigger] list[j],
                            size as int,
                            align as int,
                        ),
                invariant
                    self.wf(),
                    *self == *old(self),
                    free == self.free(),
                    crate::numeric::is_power_of_two_spec(align as int),
                    0 < size <= crate::extent::MAX_EXTENT,
                    words == need(size as int),
                    i == bin,
                    0 <= i < self.geometry.bins_spec(),
                    list == self.lists@[i],
                    forall|c: int|
                        #[trigger] fits(
                            self.base as int,
                            self.chunks@,
                            c,
                            size as int,
                            align as int,
                        ) ==> self.geometry.bin_spec(8 * self.chunks@[c].size) >= bin,
                ensures
                    forall|j: int|
                        0 <= j < list.len() ==> !fits(
                            self.base as int,
                            self.chunks@,
                            #[trigger] list[j],
                            size as int,
                            align as int,
                        ),
                decreases list.len() - k,
            {
                match cur {
                    None => {
                        break;
                    },
                    Some(node) => {
                        proof {
                            lemma_node(*self, i, k);
                            lemma_position(*self, i, k);
                            assert(self.words@.len() == self.words.len());
                        }
                        let n: usize = (self.words[node + 3] / 8) as usize;
                        match self.fit(node, n, words, align) {
                            Some(at) => {
                                proof {
                                    lemma_first_fit(*self, i, k, size as int, align as int);
                                }
                                self.remove_free(node, bin, Ghost(free));
                                return Some((node, n, at));
                            },
                            None => {},
                        }
                        cur = read_link(&self.words, node);
                        proof {
                            k = k + 1;
                        }
                    },
                }
            }
            proof {
                assert forall|c: int| #[trigger] fits(
                    self.base as int,
                    self.chunks@,
                    c,
                    size as int,
                    align as int,
                ) implies self.geometry.bin_spec(8 * self.chunks@[c].size) > bin by {
                    if self.geometry.bin_spec(8 * self.chunks@[c].size) == bin {
                        lemma_fitting_bin(*self, c, size as int, align as int);
                        let j = list.index_of(c);
                        assert(list[j] == c);
                    }
                }
            }
            match self.avail.next_avail_bin_idx(bin + 1) {
                Some(next) => {
                    proof {
                        assert forall|c: int| #[trigger] fits(
                            self.base as int,
                            self.chunks@,
                            c,
                            size as int,
                            align as int,
                        ) implies self.geometry.bin_spec(8 * self.chunks@[c].size) >= next by {
                            lemma_fitting_bin(*self, c, size as int, align as int);
                        }
                    }
                    bin = next;
                },
                None => {
                    proof {
                        assert forall|c: int| !#[trigger] fits(
                            self.base as int,
                            self.chunks@,
                            c,
                            size as int,
                            align as int,
                        ) by {
                            if fits(self.base as int, self.chunks@, c, size as int, align as int) {
                                lemma_fitting_bin(*self, c, size as int, align as int);
                            }
                        }
                    }
                    return None;
                },
            }
        }
    }
}

/// A multiple of a multiple of eight is a multiple of eight.
proof fn lemma_multiple_of_eight(n: int, align: int)
    requires
        align > 0,
        align % 8 == 0,
        n % align == 0,
    ensures
        n % 8 == 0,
{
    vstd::arithmetic::div_mod::lemma_fundamental_div_mod(n, align);
    vstd::arithmetic::div_mod::lemma_fundamental_div_mod(align, 8);
    let q = n / align;
    let r = align / 8;
    assert(n == 8 * (r * q)) by (nonlinear_arith)
        requires
            n == align * q,
            align == 8 * r,
    ;
}

/// Where a chunk that has room stands among the bins.
proof fn lemma_fitting_bin(heap: TalcMeta, c: int, size: int, align: int)
    requires
        heap.wf(),
        fits(heap.base as int, heap.chunks@, c, size, align),
        0 < size <= crate::extent::MAX_EXTENT,
        crate::numeric::is_power_of_two_spec(align),
    ensures
        ({
            let bin = heap.geometry.bin_spec(8 * heap.chunks@[c].size);
            &&& heap.geometry.bin_spec(8 * need(size)) <= bin
            &&& 0 <= bin < heap.geometry.bins_spec()
            &&& heap.avail.has(bin)
            &&& heap.lists@[bin].contains(c)
        }),
{
    reveal(lists_ok);
    let free = heap.free();
    assert(free.dom().contains(c));
    assert(free_ok(heap.words@, heap.start(), heap.geometry, heap.lists@, free, c));
    crate::extent::lemma_power_positive(align);
    crate::numeric::lemma_align_up(heap.base + 8 * c, align);
    assert(fit_at(heap.base as int, c, align) >= c);
    super::geometry::lemma_bins_are_monotone(heap.geometry, 8 * need(size), 8 * free[c]);
    super::geometry::lemma_bins_are_monotone(heap.geometry, 8 * free[c], 8 * free[c]);
    let bin = heap.geometry.bin_spec(8 * free[c]);
    assert(heap.avail.has(bin) == (heap.lists@[bin].len() > 0));
}

/// What the words of a listed chunk say.
proof fn lemma_node(heap: TalcMeta, i: int, k: int)
    requires
        heap.lists_inv(heap.free()),
        0 <= i < heap.geometry.bins_spec(),
        0 <= k < heap.lists@[i].len(),
    ensures
        ({
            let node = heap.lists@[i][k];
            let size = heap.chunks@[node].size;
            &&& is_free(heap.chunks@, node)
            &&& 0 <= node
            &&& size >= 4
            &&& node + size <= heap.words@.len() <= MAX_WORDS
            &&& heap.words@[node + 3] == 8 * size
            &&& super::links::link_is(
                heap.words@,
                node,
                super::links::after(heap.lists@[i], k),
            )
            &&& k + 1 < heap.lists@[i].len() ==> 0 <= heap.lists@[i][k + 1] < heap.words@.len()
        }),
{
    reveal(lists_ok);
    assert(members_ok(heap.geometry, heap.lists@, heap.free(), i));
    let node = heap.lists@[i][k];
    assert(heap.free().dom().contains(node));
    assert(free_ok(heap.words@, heap.start(), heap.geometry, heap.lists@, heap.free(), node));
    assert(bin_list_ok(heap.words@, heap.bins as int, heap.lists@, i));
    assert(super::links::node_ok(heap.words@, heap.bins + 2 * i, heap.lists@[i], k));
    if k + 1 < heap.lists@[i].len() {
        assert(heap.free().dom().contains(heap.lists@[i][k + 1]));
    }
}

/// What the head of a bin says.
proof fn lemma_head(heap: TalcMeta, i: int)
    requires
        heap.lists_inv(heap.free()),
        0 <= i < heap.geometry.bins_spec(),
    ensures
        heap.geometry.wf(),
        heap.avail.wf(),
        heap.avail.count() == heap.geometry.bins_spec(),
        heap.start() <= heap.words@.len() <= MAX_WORDS,
        super::links::link_is(
            heap.words@,
            heap.bins + 2 * i,
            super::links::first(heap.lists@[i]),
        ),
        heap.lists@[i].len() > 0 ==> 0 <= heap.lists@[i][0] < heap.words@.len(),
{
    reveal(lists_ok);
    assert(bin_list_ok(heap.words@, heap.bins as int, heap.lists@, i));
    if heap.lists@[i].len() > 0 {
        lemma_node(heap, i, 0);
    }
}

/// The first chunk of the lowest bin that has room ranks before every other.
proof fn lemma_first_fit(heap: TalcMeta, i: int, k: int, size: int, align: int)
    requires
        heap.wf(),
        0 < size <= crate::extent::MAX_EXTENT,
        crate::numeric::is_power_of_two_spec(align),
        0 <= i < heap.geometry.bins_spec(),
        0 <= k < heap.lists@[i].len(),
        forall|j: int|
            0 <= j < k ==> !fits(
                heap.base as int,
                heap.chunks@,
                #[trigger] heap.lists@[i][j],
                size,
                align,
            ),
        forall|c: int|
            #[trigger] fits(heap.base as int, heap.chunks@, c, size, align)
                ==> heap.geometry.bin_spec(8 * heap.chunks@[c].size) >= i,
    ensures
        forall|c: int|
            #[trigger] fits(heap.base as int, heap.chunks@, c, size, align) ==> !ranks_before(
                heap.lists@,
                heap.geometry,
                heap.chunks@,
                c,
                heap.lists@[i][k],
            ),
{
    assert forall|c: int| #[trigger]
        fits(heap.base as int, heap.chunks@, c, size, align) implies !ranks_before(
        heap.lists@,
        heap.geometry,
        heap.chunks@,
        c,
        heap.lists@[i][k],
    ) by {
        lemma_position(heap, i, k);
        lemma_fitting_bin(heap, c, size, align);
        let list = heap.lists@[i];
        if heap.geometry.bin_spec(8 * heap.chunks@[c].size) == i {
            let j = list.index_of(c);
            assert(list[j] == c);
        }
    }
}

/// Without duplicates a member stands where it is found.
proof fn lemma_position(heap: TalcMeta, i: int, k: int)
    requires
        heap.lists_inv(heap.free()),
        0 <= i < heap.geometry.bins_spec(),
        0 <= k < heap.lists@[i].len(),
    ensures
        heap.lists@[i].index_of(heap.lists@[i][k]) == k,
        heap.geometry.bin_spec(8 * heap.chunks@[heap.lists@[i][k]].size) == i,
        is_free(heap.chunks@, heap.lists@[i][k]),
{
    reveal(lists_ok);
    assert(members_ok(heap.geometry, heap.lists@, heap.free(), i));
    assert(heap.free().dom().contains(heap.lists@[i][k]));
    let j = heap.lists@[i].index_of(heap.lists@[i][k]);
    assert(heap.lists@[i].contains(heap.lists@[i][k]));
    assert(heap.lists@[i][j] == heap.lists@[i][k]);
}

/// Lists do not notice changes outside the heads and the free chunks.
proof fn lemma_lists_frame(
    w0: Seq<u64>,
    w1: Seq<u64>,
    bins: int,
    geometry: Geometry,
    avail: Availability,
    lists: Seq<Seq<int>>,
    free: Map<int, int>,
)
    requires
        lists_ok(w0, bins, geometry, avail, lists, free),
        w1.len() == w0.len(),
        forall|x: int| bins <= x < bins + 2 * geometry.bins_spec() ==> #[trigger] w1[x] == w0[x],
        forall|c: int, x: int|
            #![trigger free.dom().contains(c), w1[x]]
            free.dom().contains(c) && c <= x < c + free[c] ==> w1[x] == w0[x],
    ensures
        lists_ok(w1, bins, geometry, avail, lists, free),
{
    reveal(lists_ok);
    let count = geometry.bins_spec();
    assert forall|i: int| 0 <= i < count implies #[trigger] bin_list_ok(w1, bins, lists, i) by {
        assert(bin_list_ok(w0, bins, lists, i));
        assert(members_ok(geometry, lists, free, i));
        let list = lists[i];
        assert forall|k: int| 0 <= k < list.len() implies w0[#[trigger] list[k]] == w1[list[k]]
            && w0[list[k] + 1] == w1[list[k] + 1] && w0[list[k] + 2] == w1[list[k] + 2] by {
            assert(free.dom().contains(lists[i][k]));
        }
        super::links::lemma_list_frame(w0, w1, bins + 2 * i, list);
    }
    assert forall|c: int| #[trigger] free.dom().contains(c) implies free_ok(
        w1,
        bins + 2 * count + 1,
        geometry,
        lists,
        free,
        c,
    ) by {
        assert(free_ok(w0, bins + 2 * count + 1, geometry, lists, free, c));
    }
}

/// A chunk in use holds no list node.
proof fn lemma_used_not_node(
    chunks: Map<int, ChunkView>,
    start: int,
    end: int,
    u: int,
    x: int,
)
    requires
        tiles(chunks, start, end),
        chunks.dom().contains(u),
        chunks[u].used is Some,
        u <= x < u + chunks[u].size,
    ensures
        !in_nodes(free_of(chunks), x),
{
    reveal(tiles);
    if in_nodes(free_of(chunks), x) {
        let c = choose|c: int| #[trigger] free_of(chunks).dom().contains(c) && c <= x < c + 3;
        assert(chunks.dom().contains(c));
        assert(chunk_tiles(chunks, start, end, c));
    }
}

/// Cutting a chunk in two leaves chunks end to end.
#[verifier::spinoff_prover]
proof fn lemma_split_tiles(chunks: Map<int, ChunkView>, start: int, end: int, b: int, m: int)
    requires
        tiles(chunks, start, end),
        chunks.dom().contains(b),
        b + 4 <= m,
        m + 4 <= b + chunks[b].size,
    ensures
        tiles(split(chunks, end, b, m), start, end),
        !chunks.dom().contains(m),
{
    reveal(tiles);
    let n = split(chunks, end, b, m);
    let c = chunks[b];
    let e = b + c.size;
    assert(chunk_tiles(chunks, start, end, b));
    assert(!chunks.dom().contains(m));
    assert forall|x: int| #[trigger] n.dom().contains(x) implies chunk_tiles(n, start, end, x) by {
        if chunks.dom().contains(x) {
            assert(chunk_tiles(chunks, start, end, x));
            let up = x + chunks[x].size;
            let down = chunks[x].prev;
            if x < b {
                assert(up <= b);
            }
            if x > b {
                assert(e <= x);
                if x > e {
                    assert(chunks.dom().contains(down));
                    assert(chunk_tiles(chunks, start, end, down));
                    assert(down != b);
                }
            } else if x > start {
                assert(chunk_tiles(chunks, start, end, down));
            }
            if x < b && up < end {
                assert(chunks.dom().contains(up));
            }
        } else {
            assert(x == m);
        }
    }
    assert forall|x: int, y: int|
        #![trigger n.dom().contains(x), n.dom().contains(y)]
        n.dom().contains(x) && n.dom().contains(y) && x < y implies x + n[x].size <= y by {
        if chunks.dom().contains(x) {
            assert(chunk_tiles(chunks, start, end, x));
        }
        if chunks.dom().contains(y) {
            assert(chunk_tiles(chunks, start, end, y));
        }
    }
}

/// What a chunk holds does not matter to the tiling.
proof fn lemma_set_used_tiles(
    chunks: Map<int, ChunkView>,
    start: int,
    end: int,
    b: int,
    used: Option<Allocation>,
)
    requires
        tiles(chunks, start, end),
        chunks.dom().contains(b),
    ensures
        tiles(set_used(chunks, b, used), start, end),
{
    reveal(tiles);
    let n = set_used(chunks, b, used);
    assert forall|x: int| #[trigger] n.dom().contains(x) implies chunk_tiles(n, start, end, x) by {
        assert(chunks.dom().contains(x));
        assert(chunk_tiles(chunks, start, end, x));
    }
}

/// Making two chunks one leaves chunks end to end.
#[verifier::spinoff_prover]
proof fn lemma_join_tiles(chunks: Map<int, ChunkView>, start: int, end: int, b: int)
    requires
        tiles(chunks, start, end),
        chunks.dom().contains(b),
        b + chunks[b].size < end,
    ensures
        tiles(join(chunks, end, b), start, end),
{
    reveal(tiles);
    let n = join(chunks, end, b);
    let c = chunks[b];
    let m = b + c.size;
    assert(chunk_tiles(chunks, start, end, b));
    assert(chunks.dom().contains(m));
    assert(chunk_tiles(chunks, start, end, m));
    let e = m + chunks[m].size;
    assert forall|x: int| #[trigger] n.dom().contains(x) implies chunk_tiles(n, start, end, x) by {
        assert(chunks.dom().contains(x));
        assert(chunk_tiles(chunks, start, end, x));
        let up = x + chunks[x].size;
        let down = chunks[x].prev;
        if x < b {
            assert(up <= b);
            if up < end {
                assert(chunks.dom().contains(up));
            }
        }
        if x > b {
            assert(e <= x);
            if x > e {
                assert(chunks.dom().contains(down));
                assert(chunk_tiles(chunks, start, end, down));
                assert(down != b && down != m);
            }
        } else if x > start {
            assert(chunk_tiles(chunks, start, end, down));
        }
    }
    assert forall|x: int, y: int|
        #![trigger n.dom().contains(x), n.dom().contains(y)]
        n.dom().contains(x) && n.dom().contains(y) && x < y implies x + n[x].size <= y by {
        assert(chunks.dom().contains(x) && chunks.dom().contains(y));
        assert(chunk_tiles(chunks, start, end, x));
        assert(chunk_tiles(chunks, start, end, y));
    }
}

/// Neighbours of a chunk.
proof fn lemma_neighbours(chunks: Map<int, ChunkView>, start: int, end: int, b: int)
    requires
        tiles(chunks, start, end),
        chunks.dom().contains(b),
    ensures
        chunk_tiles(chunks, start, end, b),
        b > start ==> chunk_tiles(chunks, start, end, chunks[b].prev),
        b + chunks[b].size < end ==> chunk_tiles(chunks, start, end, b + chunks[b].size),
        forall|x: int| #[trigger]
            chunks.dom().contains(x) ==> x + chunks[x].size <= b || x == b || b + chunks[b].size
                <= x,
        forall|x: int| #[trigger]
            chunks.dom().contains(x) ==> chunks[x].size >= 4 && start <= x && x + chunks[x].size
                <= end,
{
    reveal(tiles);
    assert(chunk_tiles(chunks, start, end, b));
    assert forall|x: int| #[trigger] chunks.dom().contains(x) implies (x + chunks[x].size <= b || x
        == b || b + chunks[b].size <= x) && chunks[x].size >= 4 && start <= x && x + chunks[x].size
        <= end by {
        assert(chunk_tiles(chunks, start, end, x));
    }
}

/// The free chunks after the words below an allocation were split off.
spec fn prefix_free(chunks: Map<int, ChunkView>, b: int, at: int) -> Map<int, int> {
    let f0 = free_of(chunks).remove(b);
    if splits_below(b, at) {
        f0.insert(b, at - b)
    } else {
        f0
    }
}

/// The free chunks after an allocation was carved.
spec fn carved_free(chunks: Map<int, ChunkView>, b: int, at: int, size: int) -> Map<int, int> {
    let f1 = prefix_free(chunks, b, at);
    let e = b + chunks[b].size;
    let ce = carved_end(b, e, at, size);
    if splits_above(b, e, at, size) {
        f1.insert(ce, e - ce)
    } else {
        f1
    }
}

/// Carving leaves chunks end to end, and of the free chunk only what is not in
/// the allocation's chunk.
#[verifier::spinoff_prover]
proof fn lemma_carve(
    chunks: Map<int, ChunkView>,
    start: int,
    end: int,
    b: int,
    at: int,
    size: int,
)
    requires
        tiles(chunks, start, end),
        coalesced(chunks),
        is_free(chunks, b),
        size > 0,
        b <= at,
        at + need(size) <= b + chunks[b].size,
    ensures
        ({
            let m = carve(chunks, end, b, at, size);
            let e = b + chunks[b].size;
            let cb = carved_base(b, at);
            let ce = carved_end(b, e, at, size);
            &&& tiles(m, start, end)
            &&& coalesced(m)
            &&& free_of(m) =~= carved_free(chunks, b, at, size)
            &&& m.dom().contains(cb)
            &&& m[cb].size == ce - cb
            &&& m[cb].used == Some(Allocation { at, size })
            &&& b <= cb <= at
            &&& at + words_for(size) < ce <= e
            &&& cb + 4 <= ce
            &&& is_free(m, ce) == splits_above(b, e, at, size)
            &&& is_free(m, b) == splits_below(b, at)
            &&& forall|x: int| #[trigger]
                chunks.dom().contains(x) && x != b ==> m.dom().contains(x) && m[x].used
                    == chunks[x].used && m[x].size == chunks[x].size && (x + chunks[x].size != b
                    ==> is_free(m, x + chunks[x].size) == is_free(chunks, x + chunks[x].size))
            &&& forall|x: int| #[trigger]
                m.dom().contains(x) ==> chunks.dom().contains(x) || x == cb || (x == ce
                    && splits_above(b, e, at, size))
        }),
{
    let e = b + chunks[b].size;
    let cb = carved_base(b, at);
    let ce = carved_end(b, e, at, size);
    lemma_neighbours(chunks, start, end, b);
    let m1 = if splits_below(b, at) {
        split(chunks, end, b, at)
    } else {
        chunks
    };
    if splits_below(b, at) {
        lemma_split_tiles(chunks, start, end, b, at);
    }
    assert(m1.dom().contains(cb));
    assert(cb + m1[cb].size == e);
    let m2 = if splits_above(b, e, at, size) {
        split(m1, end, cb, ce)
    } else {
        m1
    };
    if splits_above(b, e, at, size) {
        lemma_split_tiles(m1, start, end, cb, ce);
    }
    lemma_set_used_tiles(m2, start, end, cb, Some(Allocation { at, size }));
    let m = carve(chunks, end, b, at, size);
    assert(m == set_used(m2, cb, Some(Allocation { at, size })));
    lemma_neighbours(m, start, end, cb);
    assert forall|x: int| #[trigger] chunks.dom().contains(x) && x != b implies m.dom().contains(x)
        && m[x].used == chunks[x].used && m[x].size == chunks[x].size && (x + chunks[x].size != b
        ==> is_free(m, x + chunks[x].size) == is_free(chunks, x + chunks[x].size)) by {
        lemma_neighbours(chunks, start, end, x);
    }
    assert(is_free(m, e) == is_free(chunks, e));
    assert(coalesced(m)) by {
        assert forall|x: int| #[trigger] m.dom().contains(x) && m[x].used is None implies !is_free(
            m,
            x + m[x].size,
        ) by {
            if chunks.dom().contains(x) && x != b {
                lemma_neighbours(chunks, start, end, x);
                assert(!is_free(chunks, x + chunks[x].size));
            }
        }
    }
}

/// Tags after carving: the chunk's own was written, the one below it changed
/// its flag, and no other was touched.
#[verifier::spinoff_prover]
#[verifier::rlimit(20)]
proof fn lemma_carve_tagged(
    w0: Seq<u64>,
    w1: Seq<u64>,
    chunks: Map<int, ChunkView>,
    bins: int,
    start: int,
    b: int,
    at: int,
    size: int,
)
    requires
        tiles(chunks, start, w0.len() as int),
        coalesced(chunks),
        tagged(w0, chunks, start),
        is_free(chunks, b),
        0 <= bins < start,
        size > 0,
        b <= at,
        at + need(size) <= b + chunks[b].size,
        w1.len() == w0.len(),
        forall|x: int|
            0 <= x < w0.len() && !(bins <= x < start - 1) && !(b <= x < b + chunks[b].size) && x != b
                - 1 && !in_nodes(free_of(chunks), x) ==> #[trigger] w1[x] == w0[x],
        w1[b - 1] == if splits_below(b, at) {
            w0[b - 1] as int
        } else {
            w0[b - 1] - 2
        },
        ({
            let e = b + chunks[b].size;
            let cb = carved_base(b, at);
            let ce = carved_end(b, e, at, size);
            let post = at + words_for(size);
            &&& w1[ce - 1] == tag_word(cb, splits_above(b, e, at, size))
            &&& post != ce - 1 ==> w1[post] == 8 * (ce - 1)
        }),
    ensures
        tagged(w1, carve(chunks, w0.len() as int, b, at, size), start),
{
    reveal(tagged);
    let end = w0.len() as int;
    let m = carve(chunks, end, b, at, size);
    let e = b + chunks[b].size;
    let cb = carved_base(b, at);
    let ce = carved_end(b, e, at, size);
    lemma_carve(chunks, start, end, b, at, size);
    lemma_neighbours(chunks, start, end, b);
    assert(chunks.dom().contains(start)) by {
        reveal(tiles);
    }
    lemma_neighbours(chunks, start, end, start);
    assert forall|x: int| #[trigger] m.dom().contains(x) implies chunk_tagged(w1, m, x) by {
        if chunks.dom().contains(x) && x != b {
            assert(chunk_tagged(w0, chunks, x));
            if chunks[x].used is Some {
                lemma_neighbours(chunks, start, end, x);
                let a = chunks[x].used->0;
                let tag = x + chunks[x].size - 1;
                let post = a.at + words_for(a.size);
                lemma_used_not_node(chunks, start, end, x, tag);
                lemma_used_not_node(chunks, start, end, x, post);
            }
        }
    }
    assert(w1[start - 1] == tag_word(META_WORDS as int, is_free(m, start))) by {
        if start != b {
            assert(!in_nodes(free_of(chunks), start - 1)) by {
                if in_nodes(free_of(chunks), start - 1) {
                    let c = choose|c: int| #[trigger]
                        free_of(chunks).dom().contains(c) && c <= start - 1 < c + 3;
                    assert(chunks.dom().contains(c));
                }
            }
        }
    }
}

impl TalcMeta {
    /// Changes a word that no list and no free chunk holds.
    fn write_word(&mut self, x: usize, value: u64, Ghost(free): Ghost<Map<int, int>>)
        requires
            old(self).lists_inv(free),
            x < old(self).words.len(),
            !(old(self).bins <= x < old(self).start() - 1),
            forall|c: int| #[trigger] free.dom().contains(c) ==> x < c || c + free[c] <= x,
        ensures
            final(self).same_frame(*old(self)),
            final(self).lists_inv(free),
            final(self).lists == old(self).lists,
            final(self).words@ == old(self).words@.update(x as int, value),
    {
        let ghost w0 = self.words@;
        self.words[x] = value;
        proof {
            reveal(lists_ok);
            lemma_lists_frame(
                w0,
                self.words@,
                self.bins as int,
                self.geometry,
                self.avail,
                self.lists@,
                free,
            );
        }
    }

    /// The chunk that an allocation is taken from: the first one with room.
    pub open spec fn chosen(self, b: int, size: int, align: int) -> bool {
        &&& fits(self.base_spec(), self.chunks(), b, size, align)
        &&& forall|c: int|
            #[trigger] fits(self.base_spec(), self.chunks(), c, size, align) ==> !ranks_before(
                self.bins_spec(),
                self.geometry_spec(),
                self.chunks(),
                c,
                b,
            )
    }

    /// The heap serves the same memory in the same way as `other`.
    pub open spec fn same_heap(self, other: Self) -> bool {
        &&& self.base_spec() == other.base_spec()
        &&& self.extent_spec() == other.extent_spec()
        &&& self.geometry_spec() == other.geometry_spec()
    }

    /// The heap as it is mapped at another address, where it can be.
    pub fn rebase(&mut self, base: u64) -> (mapped: bool)
        requires
            old(self).wf(),
        ensures
            final(self).wf(),
            mapped == (base % 8 == 0 && base + 8 * old(self).extent_spec() <= u64::MAX),
            final(self).base_spec() == (if mapped {
                base as int
            } else {
                old(self).base_spec()
            }),
            final(self).extent_spec() == old(self).extent_spec(),
            final(self).geometry_spec() == old(self).geometry_spec(),
            final(self).chunks() == old(self).chunks(),
            final(self).bins_spec() == old(self).bins_spec(),
            final(self).live() == old(self).live(),
    {
        let words: u64 = self.words.len() as u64;
        if base % 8 != 0 || words > (u64::MAX - base) / 8 {
            return false;
        }
        self.base = base;
        true
    }

    /// Takes `size` bytes at an alignment of `align`: their byte offset, or an
    /// error exactly where no free chunk has room. No bytes take nothing.
    #[verifier::spinoff_prover]
    #[verifier::rlimit(20)]
    pub fn allocate(&mut self, size: u64, align: u64) -> (found: Result<u64, ()>)
        requires
            old(self).wf(),
            crate::extent::is_extent(size as int, align as int),
        ensures
            final(self).wf(),
            final(self).same_heap(*old(self)),
            size == 0 ==> found == Ok::<u64, ()>(u64::MAX) && *final(self) == *old(self),
            size > 0 ==> match found {
                Err(_) => *final(self) == *old(self) && forall|c: int|
                    !#[trigger] fits(
                        old(self).base_spec(),
                        old(self).chunks(),
                        c,
                        size as int,
                        align as int,
                    ),
                Ok(offset) => exists|b: int|
                    {
                        let at = fit_at(old(self).base_spec(), b, align as int);
                        &&& #[trigger] old(self).chosen(b, size as int, align as int)
                        &&& offset == 8 * at
                        &&& final(self).chunks() == carve(
                            old(self).chunks(),
                            old(self).extent_spec(),
                            b,
                            at,
                            size as int,
                        )
                        &&& final(self).bins_spec() == carve_lists(
                            old(self).bins_spec(),
                            old(self).geometry_spec(),
                            old(self).chunks(),
                            b,
                            at,
                            size as int,
                        )
                    },
            },
            size > 0 ==> (found matches Ok(offset) ==> {
                &&& (old(self).base_spec() + offset) % align as int == 0
                &&& offset + size <= 8 * old(self).extent_spec()
                &&& !old(self).live().dom().contains(offset as int)
                &&& final(self).live() == old(self).live().insert(offset as int, size as int)
            }),
            found is Err ==> final(self).live() == old(self).live(),
    {
        if size == 0 {
            return Ok(u64::MAX);
        }
        let ghost before = *self;
        let ghost chunks = self.chunks@;
        let ghost end = self.words@.len() as int;
        proof {
            crate::extent::lemma_power_positive(align as int);
        }
        let (b, n, at): (usize, usize, usize) = match self.acquire_chunk(size, align) {
            Some(found) => found,
            None => return Err(()),
        };
        proof {
            lemma_acquired(before, *self, b as int, at as int, size as int);
        }
        self.split_prefix(b, n, at, size, Ghost(before));
        let (tag, above): (usize, bool) = self.split_suffix(b, n, at, size, Ghost(before));
        self.tag_chunk(b, n, at, size, tag, above, Ghost(before));
        proof {
            lemma_carve_live(before, *self, b as int, at as int, size as int);
            assert(before.chosen(b as int, size as int, align as int));
            assert((self.base + 8 * at) % align as int == 0) by {
                if align <= 8 {
                    lemma_small_power(align as int);
                    let x = self.base + 8 * at;
                    assert(x % 8 == 0);
                    assert(x % 1 == 0 && x % 2 == 0 && x % 4 == 0);
                }
            }
            lemma_neighbours(chunks, before.start(), end, b as int);
            lemma_words_bound(before);
        }
        Ok(8 * at as u64)
    }

    /// While an allocation is carved from `b`, everything outside it and the
    /// list nodes is as it was, but for the flag in the tag below.
    spec fn carving(self, before: Self, b: int, at: int, size: int) -> bool {
        &&& before.wf()
        &&& is_free(before.chunks@, b)
        &&& b <= at
        &&& 0 < size <= crate::extent::MAX_EXTENT
        &&& at + need(size) <= b + before.chunks@[b].size
        &&& self.same_frame(before)
        &&& forall|x: int|
            0 <= x < before.words@.len() && !(before.bins <= x < before.start() - 1) && !(b <= x < b
                + before.chunks@[b].size) && x != b - 1 && !in_nodes(before.free(), x)
                ==> #[trigger] self.words@[x] == before.words@[x]
    }

    /// The word below the carved chunk.
    spec fn flagged(self, before: Self, b: int, at: int) -> bool {
        self.words@[b - 1] == if splits_below(b, at) {
            before.words@[b - 1] as int
        } else {
            before.words@[b - 1] - 2
        }
    }

    /// Leaves the words below the allocation free where they make a chunk.
    #[verifier::spinoff_prover]
    #[verifier::rlimit(20)]
    fn split_prefix(
        &mut self,
        b: usize,
        n: usize,
        at: usize,
        size: u64,
        Ghost(before): Ghost<TalcMeta>,
    )
        requires
            old(self).carving(before, b as int, at as int, size as int),
            n == before.chunks@[b as int].size,
            old(self).lists_inv(before.free().remove(b as int)),
            old(self).words@[b - 1] == before.words@[b - 1],
        ensures
            final(self).carving(before, b as int, at as int, size as int),
            final(self).flagged(before, b as int, at as int),
            final(self).lists_inv(prefix_free(before.chunks@, b as int, at as int)),
            final(self).lists@ == (if splits_below(b as int, at as int) {
                listed(old(self).lists@, before.geometry, b as int, at - b)
            } else {
                old(self).lists@
            }),
    {
        let ghost chunks = before.chunks@;
        let ghost start = before.start();
        let ghost end = before.words@.len() as int;
        let ghost f0 = before.free().remove(b as int);
        proof {
            lemma_neighbours(chunks, start, end, b as int);
            lemma_below(before.words@, chunks, start, b as int);
            lemma_words_bound(before);
            assert(self.words@.len() == self.words.len());
            assert forall|c: int| #[trigger] f0.dom().contains(c) implies (c + f0[c] <= b || b + n
                <= c) && (b - 1 < c || c + f0[c] <= b - 1) by {
                assert(chunks.dom().contains(c));
                lemma_not_below(chunks, start, end, b as int, c);
            }
            assert(!in_nodes(f0, b - 1)) by {
                if in_nodes(f0, b - 1) {
                    let c = choose|c: int| #[trigger] f0.dom().contains(c) && c <= b - 1 < c + 3;
                    assert(before.free().dom().contains(c));
                    lemma_not_below(chunks, start, end, b as int, c);
                    lemma_neighbours(chunks, start, end, c);
                }
            }
        }
        if at - b >= MIN_CHUNK_WORDS {
            let ghost w1 = self.words@;
            self.insert_free(b, at - b, Ghost(f0));
            proof {
                assert forall|x: int|
                    0 <= x < end && !(before.bins <= x < start - 1) && !(b <= x < b + n) && x != b
                        - 1 && !in_nodes(before.free(), x) implies #[trigger] self.words@[x]
                    == before.words@[x] by {
                    lemma_fewer_nodes(before.free(), b as int, x);
                    assert(self.words@[x] == w1[x]);
                }
            }
        } else {
            let tag: u64 = self.words[b - 1];
            self.write_word(b - 1, tag - 2, Ghost(f0));
        }
    }

    /// Leaves the words above the allocation free where they make a chunk: the
    /// word of the allocation's tag, and whether a free chunk is above it.
    #[verifier::spinoff_prover]
    #[verifier::rlimit(20)]
    fn split_suffix(
        &mut self,
        b: usize,
        n: usize,
        at: usize,
        size: u64,
        Ghost(before): Ghost<TalcMeta>,
    ) -> (tag: (usize, bool))
        requires
            old(self).carving(before, b as int, at as int, size as int),
            old(self).flagged(before, b as int, at as int),
            n == before.chunks@[b as int].size,
            old(self).lists_inv(prefix_free(before.chunks@, b as int, at as int)),
        ensures
            final(self).carving(before, b as int, at as int, size as int),
            final(self).flagged(before, b as int, at as int),
            final(self).lists_inv(carved_free(before.chunks@, b as int, at as int, size as int)),
            final(self).lists@ == (if splits_above(b as int, b + n, at as int, size as int) {
                let ce = carved_end(b as int, b + n, at as int, size as int);
                listed(old(self).lists@, before.geometry, ce, b + n - ce)
            } else {
                old(self).lists@
            }),
            tag.0 == carved_end(b as int, b + n, at as int, size as int) - 1,
            tag.1 == splits_above(b as int, b + n, at as int, size as int),
    {
        let ghost chunks = before.chunks@;
        let ghost start = before.start();
        let ghost end = before.words@.len() as int;
        let ghost f1 = prefix_free(chunks, b as int, at as int);
        proof {
            lemma_neighbours(chunks, start, end, b as int);
            lemma_words_bound(before);
            assert(self.words@.len() == self.words.len());
        }
        let e: usize = b + n;
        let cb: usize = if at - b >= MIN_CHUNK_WORDS {
            at
        } else {
            b
        };
        let post: usize = at + ((size + 7) / 8) as usize;
        let lowest: usize = if cb + 3 < post {
            post
        } else {
            cb + 3
        };
        if e - (lowest + 1) < MIN_CHUNK_WORDS {
            return (e - 1, false);
        }
        proof {
            assert forall|c: int| #[trigger] f1.dom().contains(c) implies c + f1[c] <= lowest + 1
                || e <= c by {
                if c != b {
                    assert(chunks.dom().contains(c));
                }
            }
            assert(!f1.dom().contains(lowest + 1)) by {
                if f1.dom().contains(lowest + 1) {
                    assert(chunks.dom().contains(lowest + 1));
                }
            }
            lemma_not_prefix_node(chunks, start, end, b as int, at as int, b - 1);
        }
        let ghost w2 = self.words@;
        self.insert_free(lowest + 1, e - (lowest + 1), Ghost(f1));
        proof {
            assert forall|x: int|
                0 <= x < end && !(before.bins <= x < start - 1) && !(b <= x < e) && x != b - 1
                    && !in_nodes(before.free(), x) implies #[trigger] self.words@[x]
                == before.words@[x] by {
                lemma_not_prefix_node(chunks, start, end, b as int, at as int, x);
                assert(self.words@[x] == w2[x]);
            }
            assert(self.words@[b - 1] == w2[b - 1]);
        }
        (lowest, true)
    }

    /// Writes the tag of the allocation's chunk, and the word that leads to it.
    #[verifier::spinoff_prover]
    #[verifier::rlimit(20)]
    fn tag_chunk(
        &mut self,
        b: usize,
        n: usize,
        at: usize,
        size: u64,
        tag: usize,
        above: bool,
        Ghost(before): Ghost<TalcMeta>,
    )
        requires
            old(self).carving(before, b as int, at as int, size as int),
            old(self).flagged(before, b as int, at as int),
            n == before.chunks@[b as int].size,
            old(self).lists_inv(carved_free(before.chunks@, b as int, at as int, size as int)),
            tag == carved_end(b as int, b + n, at as int, size as int) - 1,
            above == splits_above(b as int, b + n, at as int, size as int),
        ensures
            final(self).base == before.base,
            final(self).words@.len() == before.words@.len(),
            final(self).bins == before.bins,
            final(self).geometry == before.geometry,
            final(self).lists == old(self).lists,
            final(self).chunks@ == carve(
                before.chunks@,
                before.words@.len() as int,
                b as int,
                at as int,
                size as int,
            ),
            final(self).live@ == before.live@.insert(8 * at, carved_base(b as int, at as int)),
            final(self).lists_inv(final(self).free()),
            tiles(final(self).chunks@, before.start(), before.words@.len() as int),
            coalesced(final(self).chunks@),
            tagged(final(self).words@, final(self).chunks@, before.start()),
    {
        let ghost chunks = before.chunks@;
        let ghost start = before.start();
        let ghost end = before.words@.len() as int;
        let ghost f2 = carved_free(chunks, b as int, at as int, size as int);
        let cb: usize = if at - b >= MIN_CHUNK_WORDS {
            at
        } else {
            b
        };
        proof {
            lemma_neighbours(chunks, start, end, b as int);
            lemma_carve(chunks, start, end, b as int, at as int, size as int);
            lemma_words_bound(before);
            assert(self.words@.len() == self.words.len());
            assert forall|c: int| #[trigger] f2.dom().contains(c) implies c + f2[c] <= cb || tag
                < c by {
                if chunks.dom().contains(c) {
                    if c != b {
                        assert(c + chunks[c].size <= b || b + n <= c);
                    }
                }
            }
        }
        let post: usize = at + ((size + 7) / 8) as usize;
        let value: u64 = 8 * cb as u64 + 1 + if above {
            2
        } else {
            0
        };
        self.write_word(tag, value, Ghost(f2));
        if tag != post {
            self.write_word(post, 8 * tag as u64, Ghost(f2));
        }
        self.chunks = Ghost(carve(chunks, end, b as int, at as int, size as int));
        self.live = Ghost(self.live@.insert(8 * at, cb as int));
        proof {
            lemma_carve_tagged(
                before.words@,
                self.words@,
                chunks,
                self.bins as int,
                start,
                b as int,
                at as int,
                size as int,
            );
        }
    }
}

/// A word that was in no list node is in none after the words below an
/// allocation were split off, unless it belongs to them.
proof fn lemma_not_prefix_node(
    chunks: Map<int, ChunkView>,
    start: int,
    end: int,
    b: int,
    at: int,
    x: int,
)
    requires
        tiles(chunks, start, end),
        coalesced(chunks),
        is_free(chunks, b),
        b <= at < b + chunks[b].size,
        !(b <= x < b + chunks[b].size),
        x == b - 1 || !in_nodes(free_of(chunks), x),
    ensures
        !in_nodes(prefix_free(chunks, b, at), x),
{
    let f1 = prefix_free(chunks, b, at);
    if in_nodes(f1, x) {
        let c = choose|c: int| #[trigger] f1.dom().contains(c) && c <= x < c + 3;
        lemma_neighbours(chunks, start, end, b);
        if c != b {
            assert(free_of(chunks).dom().contains(c));
            lemma_not_below(chunks, start, end, b, c);
            lemma_neighbours(chunks, start, end, c);
        }
    }
}

/// After a chunk was taken out of its bin, carving may begin.
proof fn lemma_acquired(before: TalcMeta, after: TalcMeta, b: int, at: int, size: int)
    requires
        before.wf(),
        is_free(before.chunks@, b),
        b <= at,
        0 < size <= crate::extent::MAX_EXTENT,
        at + need(size) <= b + before.chunks@[b].size,
        after.same_frame(before),
        forall|x: int|
            0 <= x < before.words@.len() && !(before.bins <= x < before.start() - 1) && !in_nodes(
                before.free().remove(b),
                x,
            ) ==> #[trigger] after.words@[x] == before.words@[x],
    ensures
        after.carving(before, b, at, size),
        after.words@[b - 1] == before.words@[b - 1],
{
    let chunks = before.chunks@;
    let start = before.start();
    let end = before.words@.len() as int;
    lemma_neighbours(chunks, start, end, b);
    lemma_words_bound(before);
    assert forall|x: int|
        0 <= x < end && !(before.bins <= x < start - 1) && !(b <= x < b + chunks[b].size) && x != b
            - 1 && !in_nodes(before.free(), x) implies #[trigger] after.words@[x]
        == before.words@[x] by {
        lemma_fewer_nodes(before.free(), b, x);
    }
    let f0 = before.free().remove(b);
    assert(!in_nodes(f0, b - 1)) by {
        if in_nodes(f0, b - 1) {
            let c = choose|c: int| #[trigger] f0.dom().contains(c) && c <= b - 1 < c + 3;
            assert(before.free().dom().contains(c));
            lemma_not_below(chunks, start, end, b, c);
            lemma_neighbours(chunks, start, end, c);
        }
    }
}

/// The powers of two up to eight.
proof fn lemma_small_power(n: int)
    requires
        crate::numeric::is_power_of_two_spec(n),
        n <= 8,
    ensures
        n == 1 || n == 2 || n == 4 || n == 8,
{
    reveal(vstd::arithmetic::power2::is_pow2);
    assert(!vstd::arithmetic::power2::is_pow2(3));
    assert(!vstd::arithmetic::power2::is_pow2(5));
    assert(!vstd::arithmetic::power2::is_pow2(6));
    assert(!vstd::arithmetic::power2::is_pow2(7));
}

/// The chunk below a free chunk is not free.
proof fn lemma_not_below(chunks: Map<int, ChunkView>, start: int, end: int, b: int, c: int)
    requires
        tiles(chunks, start, end),
        coalesced(chunks),
        is_free(chunks, b),
        is_free(chunks, c),
    ensures
        !(c <= b - 1 < c + chunks[c].size),
{
    lemma_neighbours(chunks, start, end, c);
    lemma_neighbours(chunks, start, end, b);
}

/// The word below a free chunk is a tag that says so.
proof fn lemma_below(words: Seq<u64>, chunks: Map<int, ChunkView>, start: int, b: int)
    requires
        tiles(chunks, start, words.len() as int),
        coalesced(chunks),
        tagged(words, chunks, start),
        is_free(chunks, b),
    ensures
        words[b - 1] >= 2,
        start <= b,
{
    reveal(tagged);
    lemma_neighbours(chunks, start, words.len() as int, b);
    if b > start {
        let p = chunks[b].prev;
        assert(chunks.dom().contains(p));
        assert(chunk_tagged(words, chunks, p));
        assert(chunks[p].used is Some);
    }
}

proof fn lemma_words_bound(heap: TalcMeta)
    requires
        heap.wf(),
    ensures
        heap.words@.len() <= MAX_WORDS,
        heap.start() >= 5,
        heap.bins > META_WORDS,
        heap.start() == heap.bins + 2 * heap.geometry.bins_spec() + 1,
        heap.geometry.bins_spec() > 0,
        heap.geometry.wf(),
{
    reveal(lists_ok);
    super::geometry::lemma_wf(heap.geometry);
}

proof fn lemma_fewer_nodes(free: Map<int, int>, b: int, x: int)
    requires
        !in_nodes(free, x),
    ensures
        !in_nodes(free.remove(b), x),
{
    if in_nodes(free.remove(b), x) {
        let c = choose|c: int| #[trigger]
            free.remove(b).dom().contains(c) && c <= x < c + 3;
        assert(free.dom().contains(c));
    }
}

/// Carving adds one allocation to the live ones.
#[verifier::spinoff_prover]
proof fn lemma_carve_live(before: TalcMeta, after: TalcMeta, b: int, at: int, size: int)
    requires
        before.wf(),
        is_free(before.chunks@, b),
        size > 0,
        b <= at,
        at + need(size) <= b + before.chunks@[b].size,
        after.chunks@ == carve(before.chunks@, before.words@.len() as int, b, at, size),
        after.live@ == before.live@.insert(8 * at, carved_base(b, at)),
    ensures
        after.live_ok(),
        !before.live().dom().contains(8 * at),
        after.live() =~= before.live().insert(8 * at, size),
{
    let chunks = before.chunks@;
    let end = before.words@.len() as int;
    let start = before.start();
    let m = after.chunks@;
    let cb = carved_base(b, at);
    lemma_carve(chunks, start, end, b, at, size);
    lemma_neighbours(chunks, start, end, b);
    assert forall|o: int| #[trigger] before.live@.dom().contains(o) implies o != 8 * at
        && before.live@[o] != b && before.live@[o] != cb by {
        let u = before.live@[o];
        assert(chunks.dom().contains(u));
        assert(chunk_tagged(before.words@, chunks, u)) by {
            reveal(tagged);
        }
        lemma_neighbours(chunks, start, end, u);
    }
    assert forall|o: int| #[trigger] after.live@.dom().contains(o) implies m.dom().contains(
        after.live@[o],
    ) && m[after.live@[o]].used is Some && 8 * m[after.live@[o]].used->0.at == o by {
        if o != 8 * at {
            assert(before.live@.dom().contains(o));
            assert(chunks.dom().contains(before.live@[o]));
        }
    }
    assert forall|x: int| #[trigger]
        m.dom().contains(x) && m[x].used is Some implies after.live@.dom().contains(
        8 * m[x].used->0.at,
    ) && after.live@[8 * m[x].used->0.at] == x by {
        if x != cb {
            assert(chunks.dom().contains(x));
            assert(before.live@.dom().contains(8 * chunks[x].used->0.at));
        }
    }
}

/// The free chunks that giving `b` back does not touch.
spec fn other_free(chunks: Map<int, ChunkView>, b: int) -> Map<int, int> {
    let f0 = free_of(chunks);
    let f1 = if free_below(chunks, b) {
        f0.remove(chunks[b].prev)
    } else {
        f0
    };
    if free_above(chunks, b) {
        f1.remove(b + chunks[b].size)
    } else {
        f1
    }
}

/// Giving a chunk back leaves chunks end to end.
#[verifier::spinoff_prover]
#[verifier::rlimit(20)]
proof fn lemma_release_tiles(chunks: Map<int, ChunkView>, start: int, end: int, b: int)
    requires
        tiles(chunks, start, end),
        coalesced(chunks),
        chunks.dom().contains(b),
        chunks[b].used is Some,
    ensures
        ({
            let m = release(chunks, end, b);
            let lo = released_base(chunks, b);
            let hi = released_end(chunks, b);
            let e = b + chunks[b].size;
            &&& tiles(m, start, end)
            &&& is_free(m, lo)
            &&& m[lo].size == hi - lo
            &&& start <= lo <= b
            &&& e <= hi <= end
            &&& forall|x: int| #[trigger]
                m.dom().contains(x) <==> chunks.dom().contains(x) && (x == lo || (x != b && !(x == e
                    && free_above(chunks, b))))
            &&& forall|x: int| #[trigger]
                m.dom().contains(x) && x != lo ==> m[x].used == chunks[x].used && m[x].size
                    == chunks[x].size
        }),
{
    let e = b + chunks[b].size;
    let p = chunks[b].prev;
    lemma_neighbours(chunks, start, end, b);
    let m0 = set_used(chunks, b, None);
    lemma_set_used_tiles(chunks, start, end, b, None);
    let above = free_above(chunks, b);
    let below = free_below(chunks, b);
    let m1 = if above {
        join(m0, end, b)
    } else {
        m0
    };
    if above {
        lemma_neighbours(chunks, start, end, e);
        lemma_join_tiles(m0, start, end, b);
    }
    let m = release(chunks, end, b);
    if below {
        lemma_neighbours(chunks, start, end, p);
        assert(m1.dom().contains(p));
        assert(m1[p].size == chunks[p].size);
        lemma_neighbours(m1, start, end, p);
        lemma_join_tiles(m1, start, end, p);
    }
}

/// Giving a chunk back leaves one free chunk in its place, and no two free
/// chunks touching.
#[verifier::spinoff_prover]
#[verifier::rlimit(20)]
proof fn lemma_release(chunks: Map<int, ChunkView>, start: int, end: int, b: int)
    requires
        tiles(chunks, start, end),
        coalesced(chunks),
        chunks.dom().contains(b),
        chunks[b].used is Some,
    ensures
        ({
            let m = release(chunks, end, b);
            let lo = released_base(chunks, b);
            let hi = released_end(chunks, b);
            let e = b + chunks[b].size;
            &&& tiles(m, start, end)
            &&& coalesced(m)
            &&& free_of(m) =~= other_free(chunks, b).insert(lo, hi - lo)
            &&& start <= lo <= b
            &&& e <= hi <= end
            &&& !other_free(chunks, b).dom().contains(lo)
            &&& forall|c: int| #[trigger]
                other_free(chunks, b).dom().contains(c) ==> c + chunks[c].size <= lo || hi <= c
            &&& forall|x: int| #[trigger]
                m.dom().contains(x) ==> chunks.dom().contains(x) && (x == lo || (x != b && m[x].used
                    == chunks[x].used && m[x].size == chunks[x].size && (x + chunks[x].size <= lo
                    || hi <= x)))
            &&& is_free(m, lo)
            &&& forall|x: int| #[trigger]
                chunks.dom().contains(x) && chunks[x].used is Some && x != b ==> m.dom().contains(x)
                    && x != lo && is_free(m, x + chunks[x].size) == (x + chunks[x].size == lo
                    || is_free(chunks, x + chunks[x].size))
        }),
{
    let e = b + chunks[b].size;
    let p = chunks[b].prev;
    let m = release(chunks, end, b);
    let above = free_above(chunks, b);
    let below = free_below(chunks, b);
    let lo = released_base(chunks, b);
    let hi = released_end(chunks, b);
    lemma_release_tiles(chunks, start, end, b);
    lemma_neighbours(chunks, start, end, b);
    if above {
        lemma_neighbours(chunks, start, end, e);
    }
    if below {
        lemma_neighbours(chunks, start, end, p);
    }
    assert forall|x: int| #[trigger] m.dom().contains(x) implies chunks.dom().contains(x) && (x
        == lo || (x != b && m[x].used == chunks[x].used && m[x].size == chunks[x].size && (x
        + chunks[x].size <= lo || hi <= x))) by {
        assert(chunks.dom().contains(x));
        if x != lo {
            assert(x + chunks[x].size <= b || e <= x);
        }
    }
    assert forall|x: int| #[trigger]
        chunks.dom().contains(x) && chunks[x].used is Some && x != b implies m.dom().contains(x) && x
        != lo && is_free(m, x + chunks[x].size) == (x + chunks[x].size == lo || is_free(
        chunks,
        x + chunks[x].size,
    )) by {
        assert(m.dom().contains(x));
        let up = x + chunks[x].size;
        assert(up <= b || e <= x);
        if up != lo && m.dom().contains(up) {
            assert(chunks.dom().contains(up));
        }
        if up != lo && is_free(chunks, up) {
            assert(up != b);
            assert(!(up == e && above)) by {
                if up == e && above {
                    assert(chunks[e].prev == b);
                    lemma_neighbours(chunks, start, end, x);
                }
            }
            assert(m.dom().contains(up));
        }
    }
    assert(coalesced(m)) by {
        assert forall|x: int| #[trigger] m.dom().contains(x) && m[x].used is None implies !is_free(
            m,
            x + m[x].size,
        ) by {
            assert(chunks.dom().contains(x));
            let up = x + m[x].size;
            if is_free(m, up) {
                assert(m.dom().contains(up));
                assert(chunks.dom().contains(up));
                if x == lo {
                    assert(up == hi);
                    assert(up != lo);
                    assert(is_free(chunks, up));
                    if above {
                        assert(!is_free(chunks, e + chunks[e].size));
                    }
                } else {
                    assert(is_free(chunks, x));
                    assert(!is_free(chunks, x + chunks[x].size));
                    assert(up == lo);
                    if below {
                        assert(is_free(chunks, lo));
                    } else {
                        lemma_neighbours(chunks, start, end, x);
                        assert(chunks[b].prev == x);
                    }
                }
            }
        }
    }
    assert(free_of(m) =~= other_free(chunks, b).insert(lo, hi - lo)) by {
        let f = other_free(chunks, b).insert(lo, hi - lo);
        assert forall|c: int| free_of(m).dom().contains(c) == f.dom().contains(c) by {
            if free_of(m).dom().contains(c) {
                assert(m.dom().contains(c));
                assert(chunks.dom().contains(c));
            }
            if f.dom().contains(c) && c != lo {
                assert(chunks.dom().contains(c));
                assert(m.dom().contains(c));
            }
        }
        assert forall|c: int| free_of(m).dom().contains(c) implies free_of(m)[c] == f[c] by {
            assert(m.dom().contains(c));
        }
    }
    assert forall|c: int| #[trigger] other_free(chunks, b).dom().contains(c) implies c
        + chunks[c].size <= lo || hi <= c by {
        assert(chunks.dom().contains(c));
        assert(m.dom().contains(c));
    }
}

/// What the word below a chunk in use says.
proof fn lemma_word_below(heap: TalcMeta, b: int)
    requires
        heap.wf(),
        heap.chunks@.dom().contains(b),
        heap.chunks@[b].used is Some,
    ensures
        free_below(heap.chunks@, b) ==> heap.words@[b - 1] == 8
            * heap.chunks@[heap.chunks@[b].prev].size,
        !free_below(heap.chunks@, b) ==> heap.words@[b - 1] % 2 == 1 && heap.words@[b - 1] <= 8
            * MAX_WORDS + 1,
        b >= 1,
{
    reveal(tagged);
    let chunks = heap.chunks@;
    let start = heap.start();
    let end = heap.words@.len() as int;
    lemma_words_bound(heap);
    lemma_neighbours(chunks, start, end, b);
    if b > start {
        let p = chunks[b].prev;
        assert(chunks.dom().contains(p));
        assert(chunk_tagged(heap.words@, chunks, p));
        if chunks[p].used is None {
            assert(heap.free().dom().contains(p));
            assert(free_ok(heap.words@, start, heap.geometry, heap.lists@, heap.free(), p)) by {
                reveal(lists_ok);
            }
        }
    } else {
        assert(!free_below(chunks, b)) by {
            if free_below(chunks, b) {
                assert(chunks.dom().contains(chunks[b].prev));
            }
        }
    }
}

/// Tags after a chunk was given back.
#[verifier::spinoff_prover]
#[verifier::rlimit(20)]
proof fn lemma_release_tagged(before: TalcMeta, w1: Seq<u64>, b: int)
    requires
        before.wf(),
        before.chunks@.dom().contains(b),
        before.chunks@[b].used is Some,
        w1.len() == before.words@.len(),
        forall|x: int|
            0 <= x < before.words@.len() && !(before.bins <= x < before.start() - 1) && !(
            released_base(before.chunks@, b) <= x < released_end(before.chunks@, b)) && x != b - 1
                && !in_nodes(before.free(), x) ==> #[trigger] w1[x] == before.words@[x],
        !free_below(before.chunks@, b) ==> w1[b - 1] == before.words@[b - 1] + 2,
    ensures
        tagged(w1, release(before.chunks@, before.words@.len() as int, b), before.start()),
{
    reveal(tagged);
    let w0 = before.words@;
    let chunks = before.chunks@;
    let start = before.start();
    let end = w0.len() as int;
    let m = release(chunks, end, b);
    let lo = released_base(chunks, b);
    lemma_release(chunks, start, end, b);
    lemma_neighbours(chunks, start, end, b);
    lemma_words_bound(before);
    assert(chunks.dom().contains(start)) by {
        reveal(tiles);
    }
    lemma_neighbours(chunks, start, end, start);
    assert forall|x: int| #[trigger] m.dom().contains(x) implies chunk_tagged(w1, m, x) by {
        if x != lo {
            assert(chunks.dom().contains(x));
            assert(chunk_tagged(w0, chunks, x));
            if chunks[x].used is Some {
                lemma_neighbours(chunks, start, end, x);
                let a = chunks[x].used->0;
                let tag = x + chunks[x].size - 1;
                let post = a.at + words_for(a.size);
                lemma_used_not_node(chunks, start, end, x, tag);
                lemma_used_not_node(chunks, start, end, x, post);
                if tag == b - 1 {
                    assert(chunks[b].prev == x);
                    assert(!free_below(chunks, b));
                    assert(!is_free(chunks, b));
                } else {
                    assert(w1[tag] == w0[tag]);
                }
            }
        }
    }
    assert(w1[start - 1] == tag_word(META_WORDS as int, is_free(m, start))) by {
        assert(!in_nodes(free_of(chunks), start - 1)) by {
            if in_nodes(free_of(chunks), start - 1) {
                let c = choose|c: int| #[trigger]
                    free_of(chunks).dom().contains(c) && c <= start - 1 < c + 3;
                assert(chunks.dom().contains(c));
            }
        }
        if b == start {
            assert(!free_below(chunks, b)) by {
                if free_below(chunks, b) {
                    assert(chunks.dom().contains(chunks[b].prev));
                }
            }
            assert(!is_free(chunks, start));
        } else if m.dom().contains(start) && start != lo {
        } else {
            assert(start == lo);
            assert(is_free(chunks, start));
        }
    }
}

/// Giving a chunk back takes one allocation from the live ones.
#[verifier::spinoff_prover]
proof fn lemma_release_live(before: TalcMeta, after: TalcMeta, offset: int)
    requires
        before.wf(),
        before.live@.dom().contains(offset),
        after.chunks@ == release(
            before.chunks@,
            before.words@.len() as int,
            before.live@[offset],
        ),
        after.live@ == before.live@.remove(offset),
    ensures
        after.live_ok(),
        after.live() =~= before.live().remove(offset),
{
    let chunks = before.chunks@;
    let end = before.words@.len() as int;
    let start = before.start();
    let b = before.live@[offset];
    let m = after.chunks@;
    lemma_release(chunks, start, end, b);
    assert forall|o: int| #[trigger] after.live@.dom().contains(o) implies m.dom().contains(
        after.live@[o],
    ) && m[after.live@[o]].used is Some && 8 * m[after.live@[o]].used->0.at == o
        && m[after.live@[o]].used == chunks[after.live@[o]].used by {
        assert(before.live@.dom().contains(o));
        let u = before.live@[o];
        assert(chunks.dom().contains(u));
        assert(u != b);
        assert(m.dom().contains(u) && u != released_base(chunks, b));
    }
    assert forall|x: int| #[trigger]
        m.dom().contains(x) && m[x].used is Some implies after.live@.dom().contains(
        8 * m[x].used->0.at,
    ) && after.live@[8 * m[x].used->0.at] == x by {
        assert(chunks.dom().contains(x));
        assert(x != released_base(chunks, b));
        assert(before.live@.dom().contains(8 * chunks[x].used->0.at));
    }
}

impl TalcMeta {
    /// The chunk that holds the allocation at byte `offset`.
    pub closed spec fn chunk_of(self, offset: int) -> int {
        self.live@[offset]
    }

    /// Gives the allocation at byte `offset` back; its chunk becomes one with
    /// the free chunks beside it. No bytes are nothing to give back.
    #[verifier::spinoff_prover]
    #[verifier::rlimit(30)]
    pub fn deallocate(&mut self, offset: u64, size: u64)
        requires
            old(self).wf(),
            size > 0 ==> old(self).live().dom().contains(offset as int) && old(self).live()[offset as int]
                == size,
        ensures
            final(self).wf(),
            final(self).same_heap(*old(self)),
            size == 0 ==> *final(self) == *old(self),
            size > 0 ==> {
                let b = old(self).chunk_of(offset as int);
                &&& final(self).chunks() == release(old(self).chunks(), old(self).extent_spec(), b)
                &&& final(self).bins_spec() == release_lists(
                    old(self).bins_spec(),
                    old(self).geometry_spec(),
                    old(self).chunks(),
                    b,
                )
                &&& final(self).live() == old(self).live().remove(offset as int)
            },
    {
        if size == 0 {
            return;
        }
        let ghost before = *self;
        let ghost w0 = self.words@;
        let ghost chunks = self.chunks@;
        let ghost free = self.free();
        let ghost end = w0.len() as int;
        let ghost start = self.start();
        let ghost gb = self.live@[offset as int];
        proof {
            assert(self.live@.dom().contains(offset as int));
            assert(chunks.dom().contains(gb));
            assert(chunk_tagged(w0, chunks, gb)) by {
                reveal(tagged);
            }
            lemma_neighbours(chunks, start, end, gb);
            lemma_words_bound(before);
            lemma_word_below(before, gb);
            lemma_release(chunks, start, end, gb);
            assert(self.words@.len() == self.words.len());
        }
        let post: usize = (offset / 8) as usize + ((size + 7) / 8) as usize;
        let found: u64 = self.words[post];
        let tag: usize = if found > 8 * post as u64 {
            (found / 8) as usize
        } else {
            post
        };
        let tag_value: u64 = self.words[tag];
        let b: usize = (tag_value / 8) as usize;
        assert(b == gb);
        assert(tag == b + chunks[b as int].size - 1);
        let e: usize = tag + 1;
        let mut lo: usize = b;
        let mut hi: usize = e;
        let below_word: u64 = self.words[b - 1];
        let ghost f1 = if free_below(chunks, gb) {
            free.remove(chunks[gb].prev)
        } else {
            free
        };
        if below_word % 2 == 0 {
            lo = b - (below_word / 8) as usize;
            proof {
                assert(lo == chunks[gb].prev);
                assert(free.dom().contains(lo as int));
            }
            let bin: u64 = self.bin_of(below_word);
            self.remove_free(lo, bin, Ghost(free));
        } else {
            proof {
                assert forall|c: int| #[trigger] free.dom().contains(c) implies b - 1 < c || c
                    + free[c] <= b - 1 by {
                    assert(chunks.dom().contains(c));
                    lemma_neighbours(chunks, start, end, c);
                    if c + chunks[c].size == b {
                        assert(chunks[gb].prev == c);
                    }
                }
            }
            self.write_word(b - 1, below_word + 2, Ghost(free));
        }
        let ghost w1 = self.words@;
        let ghost f2 = other_free(chunks, gb);
        if (tag_value / 2) % 2 == 1 {
            proof {
                assert(free_above(chunks, gb));
                assert(f1.dom().contains(e as int));
                assert(self.lists_inv(f1));
                assert(free_ok(w1, start, self.geometry, self.lists@, f1, e as int)) by {
                    reveal(lists_ok);
                }
            }
            let above_word: u64 = self.words[e + 3];
            hi = e + (above_word / 8) as usize;
            let bin: u64 = self.bin_of(above_word);
            self.remove_free(e, bin, Ghost(f1));
        }
        self.insert_free(lo, hi - lo, Ghost(f2));
        self.chunks = Ghost(release(chunks, end, gb));
        self.live = Ghost(self.live@.remove(offset as int));
        proof {
            let w3 = self.words@;
            assert(free_of(self.chunks@) =~= f2.insert(lo as int, hi - lo));
            assert forall|x: int|
                0 <= x < w0.len() && !(self.bins <= x < start - 1) && !(lo <= x < hi) && x != b - 1
                    && !in_nodes(free, x) implies #[trigger] w3[x] == w0[x] by {
                lemma_fewer_nodes(free, chunks[gb].prev, x);
                lemma_fewer_nodes(f1, e as int, x);
            }
            if !free_below(chunks, gb) {
                assert(w3[b - 1] == w1[b - 1]) by {
                    assert(!in_nodes(f1, b - 1)) by {
                        if in_nodes(f1, b - 1) {
                            let c = choose|c: int| #[trigger]
                                f1.dom().contains(c) && c <= b - 1 < c + 3;
                            assert(free.dom().contains(c));
                            assert(chunks.dom().contains(c));
                            lemma_neighbours(chunks, start, end, c);
                            assert(c + chunks[c].size == b);
                            assert(chunks[gb].prev == c);
                        }
                    }
                    lemma_fewer_nodes(f1, e as int, b - 1);
                }
            }
            lemma_release_tagged(before, w3, gb);
            lemma_release_live(before, *self, offset as int);
        }
    }

    /// The bin of a free chunk of the given bytes.
    fn bin_of(&self, bytes: u64) -> (bin: u64)
        requires
            self.geometry.wf(),
        ensures
            bin == self.geometry.bin_spec(bytes as int),
    {
        self.geometry.bin(bytes)
    }
}

impl TalcMeta {
    /// A heap of `size` usable bytes behind a header mapped at `base`. All of it
    /// but the metadata is one free chunk.
    #[verifier::spinoff_prover]
    #[verifier::rlimit(20)]
    pub fn claim(base: u64, size: u64, geometry: Geometry) -> (heap: Self)
        requires
            base % 8 == 0,
            geometry.valid(size as int),
            base + 24 + size <= u64::MAX,
            size / 8 + 3 <= MAX_WORDS,
            size / 8 + 3 <= usize::MAX,
        ensures
            heap.wf(),
            heap.base_spec() == base,
            heap.geometry_spec() == geometry,
            heap.extent_spec() == 3 + size / 8,
            heap.live() == Map::<int, int>::empty(),
            heap.chunks() == one_free_chunk(geometry, heap.extent_spec()),
            first_chunk(geometry) + 60 <= heap.extent_spec(),
    {
        let count: u64 = geometry.bin_count();
        let avail_words: u64 = geometry.availability_words(64);
        proof {
            super::geometry::lemma_wf(geometry);
        }
        let n: usize = 3 + (size / 8) as usize;
        let bins: usize = 4 + avail_words as usize;
        let start: usize = bins + 2 * count as usize + 1;
        let mut words: Vec<u64> = Vec::new();
        let mut i: usize = 0;
        while i < n
            invariant
                i <= n,
                words@.len() == i,
                forall|j: int| 0 <= j < i ==> #[trigger] words@[j] == 0,
            decreases n - i,
        {
            words.push(0);
            i = i + 1;
        }
        words[META_WORDS] = 3;
        let ghost lists: Seq<Seq<int>> = Seq::new(count as nat, |i: int| Seq::<int>::empty());
        let mut heap = TalcMeta {
            base,
            words,
            avail: Availability::new(geometry),
            bins,
            geometry,
            lists: Ghost(lists),
            chunks: Ghost(Map::empty()),
            live: Ghost(Map::empty()),
        };
        proof {
            reveal(lists_ok);
            let free = Map::<int, int>::empty();
            assert forall|i: int| 0 <= i < count implies #[trigger] bin_list_ok(
                heap.words@,
                heap.bins as int,
                heap.lists@,
                i,
            ) by {}
            assert forall|i: int| 0 <= i < count implies #[trigger] members_ok(
                geometry,
                heap.lists@,
                free,
                i,
            ) by {}
            assert(heap.lists_inv(free));
        }
        heap.insert_free(start, n - start, Ghost(Map::empty()));
        let ghost chunk = ChunkView { size: n - start, prev: 0, used: None };
        let ghost free = Map::<int, int>::empty().insert(start as int, n - start);
        heap.write_word(start - 1, 27, Ghost(free));
        heap.chunks = Ghost(Map::empty().insert(start as int, chunk));
        proof {
            assert(free_of(heap.chunks@) =~= free);
            reveal(tiles);
            reveal(tagged);
            assert(heap.live() =~= Map::<int, int>::empty());
        }
        heap
    }

    pub fn geometry(&self) -> (geometry: Geometry)
        ensures
            geometry == self.geometry_spec(),
    {
        self.geometry
    }

    /// The address that the heap is mapped at.
    pub fn base_ptr(&self) -> (base: u64)
        ensures
            base == self.base_spec(),
    {
        self.base
    }
}

/// The word behind the metadata: a tag, the availability words, the heads of
/// the bins, and another tag.
pub open spec fn first_chunk(geometry: Geometry) -> int {
    5 + super::geometry::div_ceil_spec(geometry.bins_spec(), 64) + 2 * geometry.bins_spec()
}

/// All of a heap of `extent` words but its metadata is one free chunk.
pub open spec fn one_free_chunk(geometry: Geometry, extent: int) -> Map<int, ChunkView> {
    Map::<int, ChunkView>::empty().insert(
        first_chunk(geometry),
        ChunkView { size: extent - first_chunk(geometry), prev: 0, used: None },
    )
}

/// Live allocations never overlap.
pub proof fn law_allocations_are_disjoint(heap: TalcMeta, first: int, second: int)
    requires
        heap.wf(),
        heap.live().dom().contains(first),
        heap.live().dom().contains(second),
        first < second,
    ensures
        first + heap.live()[first] <= second,
{
    lemma_live_chunk(heap, first);
    lemma_live_chunk(heap, second);
    let u = heap.live@[first];
    let v = heap.live@[second];
    lemma_neighbours(heap.chunks@, heap.start(), heap.words@.len() as int, u);
    if u == v {
        assert(false);
    }
}

/// A live allocation lies inside the heap and behind its metadata, and holds at
/// least one byte.
pub proof fn law_allocations_stay_inside(heap: TalcMeta, offset: int)
    requires
        heap.wf(),
        heap.live().dom().contains(offset),
    ensures
        heap.live()[offset] > 0,
        offset % 8 == 0,
        24 <= offset,
        offset + heap.live()[offset] <= 8 * heap.extent_spec(),
{
    lemma_live_chunk(heap, offset);
    lemma_words_bound(heap);
}

/// Every byte of a heap has an address.
pub proof fn law_heaps_are_addressable(heap: TalcMeta)
    requires
        heap.wf(),
    ensures
        0 <= heap.base_spec(),
        heap.base_spec() + 8 * heap.extent_spec() <= u64::MAX,
{
}

/// Free chunks and live allocations never overlap.
pub proof fn law_free_memory_is_not_allocated(heap: TalcMeta, chunk: int, offset: int)
    requires
        heap.wf(),
        is_free(heap.chunks(), chunk),
        heap.live().dom().contains(offset),
    ensures
        offset + heap.live()[offset] <= 8 * chunk || 8 * (chunk + heap.chunks()[chunk].size)
            <= offset,
{
    lemma_live_chunk(heap, offset);
    lemma_neighbours(
        heap.chunks@,
        heap.start(),
        heap.words@.len() as int,
        heap.live@[offset],
    );
    assert(heap.chunks@.dom().contains(chunk));
}

/// No two free chunks touch: memory given back is one with its free
/// neighbours.
pub proof fn law_free_chunks_are_coalesced(heap: TalcMeta, chunk: int)
    requires
        heap.wf(),
        is_free(heap.chunks(), chunk),
    ensures
        !is_free(heap.chunks(), chunk + heap.chunks()[chunk].size),
{
}

proof fn lemma_live_chunk(heap: TalcMeta, offset: int)
    requires
        heap.wf(),
        heap.live().dom().contains(offset),
    ensures
        ({
            let u = heap.live@[offset];
            let c = heap.chunks@[u];
            &&& heap.chunks@.dom().contains(u)
            &&& c.used is Some
            &&& 8 * c.used->0.at == offset
            &&& c.used->0.size == heap.live()[offset]
            &&& c.used->0.size > 0
            &&& heap.start() <= u
            &&& 8 * u <= offset
            &&& offset + heap.live()[offset] <= 8 * (u + c.size - 1)
            &&& u + c.size <= heap.words@.len()
        }),
{
    assert(heap.live@.dom().contains(offset));
    let u = heap.live@[offset];
    assert(heap.chunks@.dom().contains(u));
    lemma_neighbours(heap.chunks@, heap.start(), heap.words@.len() as int, u);
    assert(chunk_tagged(heap.words@, heap.chunks@, u)) by {
        reveal(tagged);
    }
}

/// Giving an allocation back at once leaves the free chunks that were there
/// before it.
pub proof fn law_release_undoes_allocation(
    heap: TalcMeta,
    b: int,
    size: int,
    align: int,
)
    requires
        heap.wf(),
        fits(heap.base_spec(), heap.chunks(), b, size, align),
        0 < size,
        crate::numeric::is_power_of_two_spec(align),
    ensures
        ({
            let at = fit_at(heap.base_spec(), b, align);
            let carved = carve(heap.chunks(), heap.extent_spec(), b, at, size);
            free_of(release(carved, heap.extent_spec(), carved_base(b, at))) == free_of(
                heap.chunks(),
            )
        }),
{
    let chunks = heap.chunks@;
    let start = heap.start();
    let end = heap.words@.len() as int;
    let at = fit_at(heap.base as int, b, align);
    let e = b + chunks[b].size;
    crate::extent::lemma_power_positive(align);
    lemma_neighbours(chunks, start, end, b);
    lemma_words_bound(heap);
    crate::numeric::lemma_align_up(heap.base + 8 * b, align);
    lemma_carve(chunks, start, end, b, at, size);
    let m = carve(chunks, end, b, at, size);
    let cb = carved_base(b, at);
    let ce = carved_end(b, e, at, size);
    lemma_neighbours(m, start, end, cb);
    lemma_release(m, start, end, cb);
    if splits_below(b, at) {
        assert(m[cb].prev == b);
    } else {
        assert(m[cb].prev == chunks[b].prev);
        if free_below(m, cb) {
            let p = chunks[b].prev;
            assert(m.dom().contains(p));
            assert(p != b);
            assert(p != cb);
            if b > start {
                assert(chunks[p].used is Some);
            } else {
                lemma_neighbours(m, start, end, p);
            }
        }
    }
    assert(free_below(m, cb) == splits_below(b, at));
    assert(free_above(m, cb) == splits_above(b, e, at, size));
    let after = release(m, end, cb);
    assert(free_of(after) =~= free_of(chunks));
}

/// Taking a node out changes its bin's head and the nodes beside it only.
proof fn lemma_frame_of_remove(
    before: TalcMeta,
    w1: Seq<u64>,
    free: Map<int, int>,
    b: int,
    i: int,
    k: int,
    x: int,
)
    requires
        before.lists_inv(free),
        0 <= i < before.geometry.bins_spec(),
        0 <= k < before.lists@[i].len(),
        before.lists@[i][k] == b,
        w1.len() == before.words@.len(),
        forall|y: int|
            0 <= y < before.words@.len() && y != super::links::before(
                before.bins + 2 * i,
                before.lists@[i],
                k,
            ) && y != super::links::before(before.bins + 2 * i, before.lists@[i], k) + 1 && !(k + 1
                < before.lists@[i].len() && y == before.lists@[i][k + 1] + 2) ==> #[trigger] w1[y]
                == before.words@[y],
        0 <= x < before.words@.len(),
        !(before.bins <= x < before.start() - 1),
        !in_nodes(free.remove(b), x),
    ensures
        w1[x] == before.words@[x],
{
    reveal(lists_ok);
    let list = before.lists@[i];
    let less = free.remove(b);
    assert(members_ok(before.geometry, before.lists@, free, i));
    if k > 0 {
        assert(free.dom().contains(before.lists@[i][k - 1]));
        assert(list[k - 1] != list[k]);
        assert(less.dom().contains(list[k - 1]));
    }
    if k + 1 < list.len() {
        assert(free.dom().contains(before.lists@[i][k + 1]));
        assert(list[k + 1] != list[k]);
        assert(less.dom().contains(list[k + 1]));
    }
}

/// The words of a chunk from the fourth on belong to no list node.
proof fn lemma_not_node(free: Map<int, int>, b: int, x: int)
    requires
        disjoint(free),
        free.dom().contains(b),
        b + 3 <= x < b + free[b],
        forall|c: int| #[trigger] free.dom().contains(c) ==> free[c] >= 4,
    ensures
        !in_nodes(free, x),
{
    if in_nodes(free, x) {
        let c = choose|c: int| #[trigger] free.dom().contains(c) && c <= x < c + 3;
        assert(free.dom().contains(c));
    }
}

} // verus!
