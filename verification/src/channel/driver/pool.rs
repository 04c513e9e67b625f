//! Pools of caches, and the submission and completion of operations through
//! them.

use super::{
    Cache, CacheView, Completion, CompletionReject, Id, Poll, Waker, HEAD, NONE,
};
use core::marker::PhantomData;
use vstd::prelude::*;

verus! {

/// An operation in flight: one entry of a pool, until it is released.
#[must_use]
pub struct Op<T, const N: usize> {
    idx: usize,
    value: PhantomData<T>,
}

/// `N` caches, and the list of those that are free.
pub struct CachePool<T, const N: usize> {
    inits: usize,
    free_head: usize,
    entries: Vec<Cache<T>>,
    free: Ghost<Seq<usize>>,
}

/// A pool that submitters and completers share.
pub struct CachePoolHandle<T, const N: usize>(CachePool<T, N>);

/// The contents of a pool: its caches, and the free ones in the order in which
/// they are given out.
#[verifier::ext_equal]
pub struct PoolView<T> {
    pub entries: Seq<CacheView<T>>,
    pub free: Seq<usize>,
}

/// The entry at a place of the free list, or none behind its end.
pub open spec fn link_at(free: Seq<usize>, i: int) -> usize {
    if 0 <= i < free.len() {
        free[i]
    } else {
        NONE
    }
}

/// The entry at place `i` of the free list is linked to the one behind it.
pub open spec fn linked<T>(entries: Seq<CacheView<T>>, free: Seq<usize>, i: int) -> bool {
    entries[free[i] as int].next_free == link_at(free, i + 1)
}

impl<T> PoolView<T> {
    pub open spec fn wf(self) -> bool {
        &&& forall|i: int| 0 <= i < self.entries.len() ==> (#[trigger] self.entries[i]).wf()
        &&& forall|i: int|
            0 <= i < self.free.len() ==> (#[trigger] self.free[i]) < self.entries.len()
        &&& self.free.no_duplicates()
        &&& forall|i: int|
            0 <= i < self.free.len() ==> #[trigger] linked(self.entries, self.free, i)
    }

    /// An entry that was given out and is not back.
    pub open spec fn in_use(self, idx: usize) -> bool {
        idx < self.entries.len() && !self.free.contains(idx)
    }

    /// The pool with another cache at `idx`.
    pub open spec fn with(self, idx: usize, cache: CacheView<T>) -> Self {
        PoolView { entries: self.entries.update(idx as int, cache), ..self }
    }

    /// The pool after the first free entry was given out.
    pub open spec fn given(self) -> Self {
        PoolView { free: self.free.skip(1), ..self }
    }

    /// The pool after the entry `idx` came back: it is cleaned, and the next to
    /// be given out unless it is out of use.
    pub open spec fn released(self, idx: usize) -> Self {
        let cache = self.entries[idx as int];
        if cache.state == super::RETIRED {
            self
        } else if cache.live == u32::MAX {
            self.with(idx, cache.cleaned())
        } else {
            let linked = CacheView { next_free: link_at(self.free, 0), ..cache.cleaned() };
            PoolView { free: seq![idx] + self.free, ..self.with(idx, linked) }
        }
    }
}

impl<T, const N: usize> View for CachePool<T, N> {
    type V = PoolView<T>;

    closed spec fn view(&self) -> PoolView<T> {
        PoolView {
            entries: Seq::new(self.entries@.len(), |i: int| self.entries@[i]@),
            free: self.free@,
        }
    }
}

impl<T, const N: usize> View for CachePoolHandle<T, N> {
    type V = PoolView<T>;

    closed spec fn view(&self) -> PoolView<T> {
        self.0@
    }
}

impl<T, const N: usize> Op<T, N> {
    pub closed spec fn idx_spec(self) -> usize {
        self.idx
    }

    /// The entry of the operation.
    pub fn idx(&self) -> (idx: usize)
        ensures
            idx == self.idx_spec(),
    {
        self.idx
    }

    /// Polls the operation: gives its payload out where it is completed, and
    /// leaves the waker where it is not.
    pub fn poll(&self, pool: &mut CachePool<T, N>, waker: Waker) -> (polled: Poll<T>)
        requires
            old(pool).wf(),
            old(pool)@.in_use(self.idx_spec()),
            old(pool)@.entries[self.idx_spec() as int].state != super::UPDATING,
        ensures
            final(pool).wf(),
            ({
                let before = old(pool)@.entries[self.idx_spec() as int];
                if before.state == super::COMPLETED {
                    &&& polled == Poll::Ready(before.payload->0)
                    &&& final(pool)@ == old(pool)@.with(self.idx_spec(), before.taken_out())
                } else if before.state == super::FREE || before.state == super::WAKER {
                    &&& polled == Poll::<T>::Pending
                    &&& final(pool)@ == old(pool)@.with(self.idx_spec(), before.waiting(waker))
                } else {
                    &&& polled == Poll::<T>::Pending
                    &&& final(pool)@ == old(pool)@
                }
            }),
    {
        let ghost before = pool@;
        let ghost cache = before.entries[self.idx as int];
        proof {
            assert(pool.entries@[self.idx as int]@ == cache);
        }
        let polled = pool.entries[self.idx].poll(waker);
        proof {
            lemma_replaced(before, self.idx, pool@.entries[self.idx as int]);
            assert(pool@ =~= before.with(self.idx, pool@.entries[self.idx as int]));
            assert(pool@.entries[self.idx as int] == cache ==> pool@ =~= before);
        }
        polled
    }

    /// Ends the operation: whatever it holds is dropped, and its entry is free
    /// again, of the next generation.
    pub fn release(self, pool: &mut CachePool<T, N>)
        requires
            old(pool).wf(),
            old(pool)@.in_use(self.idx_spec()),
            super::settled(old(pool)@.entries[self.idx_spec() as int].state),
        ensures
            final(pool).wf(),
            final(pool)@ == old(pool)@.released(self.idx_spec()),
    {
        let ghost before = pool@;
        let ghost cache = before.entries[self.idx as int];
        proof {
            assert(pool.entries@[self.idx as int]@ == cache);
        }
        let cleaned = pool.entries[self.idx].clean();
        proof {
            lemma_replaced(before, self.idx, pool@.entries[self.idx as int]);
            assert(pool@ =~= before.with(self.idx, pool@.entries[self.idx as int]));
            assert(pool@.entries[self.idx as int] == cache ==> pool@ =~= before);
        }
        if cleaned.is_some() {
            pool.push_free(self.idx);
        }
    }
}

/// Replacing a cache that keeps its link keeps the pool well formed.
proof fn lemma_replaced<T>(pool: PoolView<T>, idx: usize, cache: CacheView<T>)
    requires
        pool.wf(),
        idx < pool.entries.len(),
        cache.wf(),
        cache.next_free == pool.entries[idx as int].next_free,
    ensures
        pool.with(idx, cache).wf(),
{
    let after = pool.with(idx, cache);
    assert forall|i: int| 0 <= i < after.free.len() implies #[trigger] linked(
        after.entries,
        after.free,
        i,
    ) by {
        assert(linked(pool.entries, pool.free, i));
    }
}

/// The free list holds at most as many entries as the pool.
proof fn lemma_free_count<T>(pool: PoolView<T>)
    requires
        pool.wf(),
    ensures
        pool.free.len() <= pool.entries.len(),
        forall|idx: usize| #[trigger]
            pool.in_use(idx) ==> pool.free.len() < pool.entries.len(),
{
    let all = Set::<int>::new(|i: int| 0 <= i < pool.entries.len());
    vstd::set_lib::lemma_int_range(0, pool.entries.len() as int);
    assert(all =~= vstd::set_lib::set_int_range(0, pool.entries.len() as int));
    let places = pool.free.map_values(|idx: usize| idx as int);
    assert(places.no_duplicates());
    places.unique_seq_to_set();
    assert(places.to_set().subset_of(all));
    vstd::set_lib::lemma_len_subset(places.to_set(), all);
    assert forall|idx: usize| #[trigger] pool.in_use(idx) implies pool.free.len()
        < pool.entries.len() by {
        let rest = all.remove(idx as int);
        assert forall|i: int| places.to_set().contains(i) implies rest.contains(i) by {
            let at = choose|at: int| 0 <= at < places.len() && places[at] == i;
            assert(pool.free[at] as int == i);
            if i == idx as int {
                assert(pool.free.contains(idx));
            }
        }
        vstd::set_lib::lemma_len_subset(places.to_set(), rest);
    }
}

impl<T, const N: usize> CachePool<T, N> {
    pub closed spec fn wf(&self) -> bool {
        &&& self@.wf()
        &&& self.entries@.len() == N
        &&& self.free_head == link_at(self.free@, 0)
        &&& self.inits == N - self.free@.len()
    }

    /// A pool of free caches, given out from the first on.
    pub fn new() -> (pool: Self)
        requires
            N > 0,
        ensures
            pool.wf(),
            pool@.entries.len() == N,
            pool@.free =~= Seq::new(N as nat, |i: int| i as usize),
            forall|i: int|
                0 <= i < N ==> {
                    let cache = #[trigger] pool@.entries[i];
                    cache.live == 0 && cache.state == super::FREE
                },
    {
        let mut entries: Vec<Cache<T>> = Vec::new();
        let mut i: usize = HEAD;
        while i < N
            invariant
                i <= N,
                N > 0,
                entries@.len() == i,
                forall|k: int|
                    0 <= k < i ==> {
                        let cache = (#[trigger] entries@[k])@;
                        &&& cache == (CacheView::<T> {
                            next_free: if k + 1 < N {
                                (k + 1) as usize
                            } else {
                                NONE
                            },
                            live: 0,
                            state: super::FREE,
                            waker: None,
                            payload: None,
                        })
                        &&& cache.wf()
                    },
            decreases N - i,
        {
            let next: usize = if i < N - 1 {
                i + 1
            } else {
                NONE
            };
            entries.push(Cache::null(next));
            i += 1;
        }
        let ghost free: Seq<usize> = Seq::new(N as nat, |k: int| k as usize);
        let pool = Self { inits: 0, free_head: HEAD, entries, free: Ghost(free) };
        proof {
            assert forall|k: int| 0 <= k < free.len() implies #[trigger] linked(
                pool@.entries,
                free,
                k,
            ) by {
                assert(pool@.entries[k] == entries@[k]@);
                assert(free[k] == k);
            }
            assert forall|k: int| 0 <= k < pool@.entries.len() implies (
            #[trigger] pool@.entries[k]).wf() by {
                assert(pool@.entries[k] == entries@[k]@);
            }
            assert(free[0] == 0);
        }
        pool
    }

    pub fn capacity(&self) -> (count: usize)
        ensures
            count == N,
    {
        N
    }

    /// How many entries are given out.
    pub fn len(&self) -> (count: usize)
        requires
            self.wf(),
        ensures
            count == N - self@.free.len(),
    {
        self.inits
    }

    fn pop_free(&mut self) -> (idx: usize)
        requires
            old(self).wf(),
        ensures
            final(self).wf(),
            idx == link_at(old(self)@.free, 0),
            if old(self)@.free.len() == 0 {
                idx == NONE && final(self)@ == old(self)@
            } else {
                idx != NONE && final(self)@ == old(self)@.given()
            },
    {
        let head: usize = self.free_head;
        let ghost before = self@;
        let ghost rest = before.free.skip(1);
        proof {
            lemma_free_count(before);
            if before.free.len() > 0 {
                assert(before.free[0] < N);
            }
        }
        if head == NONE {
            return NONE;
        }
        proof {
            assert(linked(before.entries, before.free, 0));
            assert(before.entries[head as int] == self.entries@[head as int]@);
        }
        self.free_head = self.entries[head].next();
        self.inits = self.inits + 1;
        proof {
            self.free = Ghost(rest);
            assert(self@ =~= before.given());
            assert forall|i: int| 0 <= i < rest.len() implies #[trigger] linked(
                self@.entries,
                rest,
                i,
            ) by {
                assert(linked(before.entries, before.free, i + 1));
            }
        }
        head
    }

    fn push_free(&mut self, idx: usize)
        requires
            old(self).wf(),
            old(self)@.in_use(idx),
        ensures
            final(self).wf(),
            final(self)@ == (PoolView {
                free: seq![idx] + old(self)@.free,
                ..old(self)@.with(
                    idx,
                    CacheView {
                        next_free: link_at(old(self)@.free, 0),
                        ..old(self)@.entries[idx as int]
                    },
                )
            }),
    {
        let head: usize = self.free_head;
        let ghost before = self@;
        let ghost free = seq![idx] + before.free;
        proof {
            lemma_free_count(before);
            assert(before.entries[idx as int] == self.entries@[idx as int]@);
        }
        self.entries[idx].set_next(head);
        self.free_head = idx;
        self.inits = self.inits - 1;
        proof {
            self.free = Ghost(free);
            assert(self@.entries =~= before.entries.update(
                idx as int,
                CacheView { next_free: head, ..before.entries[idx as int] },
            ));
            assert forall|i: int| 0 <= i < free.len() implies #[trigger] linked(
                self@.entries,
                free,
                i,
            ) by {
                if i > 0 {
                    assert(linked(before.entries, before.free, i - 1));
                    assert(free[i] == before.free[i - 1]);
                }
            }
        }
    }

    /// The first free entry and its generation.
    fn prepare(&mut self) -> (prepared: Option<Id>)
        requires
            old(self).wf(),
        ensures
            final(self).wf(),
            match prepared {
                Some(id) => {
                    &&& old(self)@.free.len() > 0
                    &&& id.idx == old(self)@.free[0]
                    &&& id.live == old(self)@.entries[id.idx as int].live
                    &&& final(self)@ == old(self)@.given()
                },
                None => old(self)@.free.len() == 0 && final(self)@ == old(self)@,
            },
    {
        let idx: usize = self.pop_free();
        if idx == NONE {
            return None;
        }
        proof {
            assert(old(self)@.free[0] < old(self)@.entries.len());
            assert(self@.entries[idx as int] == self.entries@[idx as int]@);
        }
        let live: u32 = self.entries[idx].live();
        Some(Id { idx, live })
    }

    /// Gives the first free entry out as an operation, with the name under which
    /// it is completed; nothing where every entry is in use.
    pub fn probe(&mut self) -> (probed: Option<(Op<T, N>, Id)>)
        requires
            old(self).wf(),
        ensures
            final(self).wf(),
            probed is Some <==> old(self)@.free.len() > 0,
            match probed {
                Some((op, id)) => {
                    &&& id.idx == old(self)@.free[0]
                    &&& id.live == old(self)@.entries[id.idx as int].live
                    &&& op.idx_spec() == id.idx
                    &&& final(self)@ == old(self)@.given()
                },
                None => final(self)@ == old(self)@,
            },
    {
        match self.prepare() {
            Some(id) => Some((Op { idx: id.idx, value: PhantomData }, id)),
            None => None,
        }
    }

    /// Completes the operation named `id`; the second part is the waker to wake.
    /// A name outside the pool is outdated.
    pub fn complete(&mut self, id: Id, payload: T) -> (done: (Completion<T>, Option<Waker>))
        requires
            old(self).wf(),
            id.idx < N ==> super::settled(old(self)@.entries[id.idx as int].state),
        ensures
            final(self).wf(),
            ({
                let before = old(self)@;
                if id.idx < N {
                    let cache = before.entries[id.idx as int];
                    &&& done.0 == super::completion(cache, id.live, payload)
                    &&& cache.rejection(id.live) is None ==> {
                        &&& done.1 == cache.waker
                        &&& final(self)@ == before.with(id.idx, cache.completed(payload))
                    }
                    &&& cache.rejection(id.live) is Some ==> {
                        &&& done.1 is None
                        &&& final(self)@ == before
                    }
                } else {
                    &&& done.0 == (Completion::Rejected {
                        reason: CompletionReject::Outdated,
                        payload,
                    })
                    &&& done.1 is None
                    &&& final(self)@ == before
                }
            }),
    {
        let ghost before = self@;
        if id.idx >= self.entries.len() {
            return (Completion::Rejected { reason: CompletionReject::Outdated, payload }, None);
        }
        proof {
            assert(before.entries[id.idx as int] == self.entries@[id.idx as int]@);
        }
        let done = self.entries[id.idx].complete(id.live, payload);
        proof {
            lemma_replaced(before, id.idx, self@.entries[id.idx as int]);
            assert(self@ =~= before.with(id.idx, self@.entries[id.idx as int]));
            assert(self@.entries[id.idx as int] == before.entries[id.idx as int] ==> self@
                =~= before);
        }
        done
    }
}

impl<T, const N: usize> CachePoolHandle<T, N> {
    pub closed spec fn wf(&self) -> bool {
        self.0.wf()
    }

    /// A handle of a new pool.
    pub fn new() -> (handle: Self)
        requires
            N > 0,
        ensures
            handle.wf(),
            handle@.entries.len() == N,
            handle@.free =~= Seq::new(N as nat, |i: int| i as usize),
            forall|i: int|
                0 <= i < N ==> {
                    let cache = #[trigger] handle@.entries[i];
                    cache.live == 0 && cache.state == super::FREE
                },
    {
        Self(CachePool::new())
    }

    /// The pool of the handle.
    pub fn pool(&mut self) -> (pool: &mut CachePool<T, N>)
        requires
            old(self).wf(),
        ensures
            pool@ == old(self)@,
            pool.wf(),
            final(self)@ == final(pool)@,
            final(pool).wf() ==> final(self).wf(),
    {
        &mut self.0
    }

    /// Gives the first free entry out as an operation, with the name under which
    /// it is completed; nothing where every entry is in use.
    pub fn claim(&mut self) -> (claimed: Option<(Op<T, N>, Id)>)
        requires
            old(self).wf(),
        ensures
            final(self).wf(),
            claimed is Some <==> old(self)@.free.len() > 0,
            match claimed {
                Some((op, id)) => {
                    &&& id.idx == old(self)@.free[0]
                    &&& id.live == old(self)@.entries[id.idx as int].live
                    &&& op.idx_spec() == id.idx
                    &&& final(self)@ == old(self)@.given()
                },
                None => final(self)@ == old(self)@,
            },
    {
        self.0.probe()
    }
}

/// The entry that a pool gives out was free, is in use from then on, and every
/// entry that was in use stays so: two operations never share an entry.
pub proof fn law_operations_have_their_own_entry<T>(pool: PoolView<T>, other: usize)
    requires
        pool.wf(),
        pool.free.len() > 0,
    ensures
        pool.given().wf(),
        pool.given().in_use(pool.free[0]),
        pool.in_use(other) ==> other != pool.free[0] && pool.given().in_use(other),
{
    let after = pool.given();
    assert forall|i: int| 0 <= i < after.free.len() implies #[trigger] linked(
        after.entries,
        after.free,
        i,
    ) by {
        assert(linked(pool.entries, pool.free, i + 1));
    }
    if after.free.contains(other) {
        let i = choose|i: int| 0 <= i < after.free.len() && after.free[i] == other;
        assert(pool.free[i + 1] == other);
    }
    if after.free.contains(pool.free[0]) {
        let i = choose|i: int| 0 <= i < after.free.len() && after.free[i] == pool.free[0];
        assert(pool.free[i + 1] == pool.free[0]);
    }
}

/// An entry that comes back is the next one given out, of a generation that it
/// never had before, and a completion under the name of its earlier use is
/// rejected; an entry whose generations are used up is not given out again.
pub proof fn law_released_entries_are_of_a_new_generation<T>(
    pool: PoolView<T>,
    idx: usize,
    payload: T,
)
    requires
        pool.wf(),
        pool.in_use(idx),
        super::settled(pool.entries[idx as int].state),
    ensures
        ({
            let before = pool.entries[idx as int];
            let after = pool.released(idx);
            if before.state == super::RETIRED || before.live == u32::MAX {
                after.free == pool.free
            } else {
                &&& after.free[0] == idx
                &&& after.entries[idx as int].live == before.live + 1
                &&& super::completion(after.entries[idx as int], before.live, payload)
                    is Rejected
            }
        }),
{
}

/// What happens to one entry of a pool happens to no other: whatever came back,
/// was completed or was polled, every other entry is as it was, and is in use
/// where it was in use.
pub proof fn law_entries_are_independent<T>(
    pool: PoolView<T>,
    idx: usize,
    other: usize,
    cache: CacheView<T>,
)
    requires
        pool.wf(),
        pool.in_use(idx),
        other < pool.entries.len(),
        other != idx,
    ensures
        pool.with(idx, cache).entries[other as int] == pool.entries[other as int],
        pool.with(idx, cache).entries[idx as int] == cache,
        pool.with(idx, cache).free == pool.free,
        pool.with(idx, cache).entries.len() == pool.entries.len(),
        pool.released(idx).entries.len() == pool.entries.len(),
        pool.released(idx).entries[other as int] == pool.entries[other as int],
        pool.released(idx).in_use(other) == pool.in_use(other),
{
    let after = pool.released(idx);
    if after.free.len() > pool.free.len() {
        assert forall|i: int| 0 <= i < pool.free.len() implies after.free[i + 1]
            == #[trigger] pool.free[i] by {}
        if pool.free.contains(other) {
            let i = choose|i: int| 0 <= i < pool.free.len() && pool.free[i] == other;
            assert(after.free[i + 1] == other);
        }
        if after.free.contains(other) {
            let i = choose|i: int| 0 <= i < after.free.len() && after.free[i] == other;
            assert(i > 0);
            assert(pool.free[i - 1] == other);
        }
    }
}

/// A pool gives out every entry that is not in use before it has none: what was
/// given out and came back leaves the pool with the entries that it had.
pub proof fn law_pools_give_out_what_is_free<T>(pool: PoolView<T>)
    requires
        pool.wf(),
        pool.free.len() > 0,
        super::settled(pool.entries[pool.free[0] as int].state),
        pool.entries[pool.free[0] as int].state != super::RETIRED,
        pool.entries[pool.free[0] as int].live < u32::MAX,
    ensures
        pool.given().free.len() == pool.free.len() - 1,
        pool.given().entries == pool.entries,
        pool.given().released(pool.free[0]).free == pool.free,
{
    assert(seq![pool.free[0]] + pool.free.skip(1) =~= pool.free);
}

} // verus!
