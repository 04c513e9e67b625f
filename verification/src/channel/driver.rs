//! Operations in flight: a pool of caches, each of which pairs one submitted
//! operation with its completion.
//!
//! A party takes a cache by moving it to one of the three states that are in
//! between, `UPDATING`, `COMPLETING` or `CLEANING`; every other party then finds
//! it taken and tries again. The `begin` steps take a cache, the `finish` steps
//! give it back, and `complete`, `poll` and `clean` are one after the other.

pub mod pool;
pub mod submit;

use vstd::prelude::*;

verus! {

/// Without waker and without payload.
pub const FREE: u8 = 0;

/// With a waker, without payload.
pub const WAKER: u8 = 1;

/// Taken by a poll that updates the waker.
pub const UPDATING: u8 = 2;

/// With a payload.
pub const COMPLETED: u8 = 3;

/// Taken by a completion.
pub const COMPLETING: u8 = 4;

/// Taken by a clean-up.
pub const CLEANING: u8 = 5;

/// Out of use: its generations are used up.
pub const RETIRED: u8 = 6;

/// The first entry of a pool.
pub const HEAD: usize = 0;

/// No entry.
pub const NONE: usize = usize::MAX;

/// One use of one entry of a pool.
#[derive(Clone, Copy, Debug, PartialEq, Eq, Structural)]
pub struct Id {
    pub idx: usize,
    pub live: u32,
}

/// The task that waits for a completion.
#[derive(Clone, Copy, Debug, PartialEq, Eq, Structural)]
pub struct Waker {
    task: u64,
}

impl Waker {
    pub closed spec fn task_spec(self) -> u64 {
        self.task
    }

    pub fn new(task: u64) -> (waker: Self)
        ensures
            waker.task_spec() == task,
    {
        Self { task }
    }

    /// The task to wake.
    pub fn task(&self) -> (task: u64)
        ensures
            task == self.task_spec(),
    {
        self.task
    }

    /// Whether the two wake the same task.
    pub fn will_wake(&self, other: &Self) -> (same: bool)
        ensures
            same == (*self == *other),
    {
        self.task == other.task
    }
}

/// What became of a completion. A rejected payload goes back to the caller.
#[derive(Debug, PartialEq)]
pub enum Completion<T> {
    Stored { woke: bool },
    Rejected { reason: CompletionReject, payload: T },
}

#[derive(Clone, Copy, Debug, PartialEq, Eq, Structural)]
pub enum CompletionReject {
    Prefilled,
    Outdated,
    Retired,
}

/// What a poll finds.
#[derive(Debug, PartialEq)]
pub enum Poll<T> {
    Ready(T),
    Pending,
}

/// What a party finds that wants to take a cache.
#[derive(Clone, Copy, Debug, PartialEq, Eq, Structural)]
pub enum Taking {
    /// It took the cache, which was in this state.
    Taken(u8),
    /// Another party has the cache; to be tried again.
    Retry,
    /// The cache is in this state, in which it is not taken.
    Refused(u8),
}

/// One operation in flight.
pub struct Cache<T> {
    next_free: usize,
    live: u32,
    state: u8,
    waker: Option<Waker>,
    payload: Option<T>,
}

/// The contents of a cache.
#[verifier::ext_equal]
pub struct CacheView<T> {
    pub next_free: usize,
    pub live: u32,
    pub state: u8,
    pub waker: Option<Waker>,
    pub payload: Option<T>,
}

/// Whether no party has a cache in this state taken.
pub open spec fn settled(state: u8) -> bool {
    state == FREE || state == WAKER || state == COMPLETED || state == RETIRED
}

/// Whether a party has a cache in this state taken.
pub open spec fn taken(state: u8) -> bool {
    state == UPDATING || state == COMPLETING || state == CLEANING
}

impl<T> CacheView<T> {
    /// A settled cache holds a waker exactly in `WAKER` and a payload exactly in
    /// `COMPLETED`; one that is being updated or completed holds no payload.
    pub open spec fn wf(self) -> bool {
        &&& settled(self.state) || taken(self.state)
        &&& settled(self.state) ==> (self.waker is Some <==> self.state == WAKER)
        &&& settled(self.state) ==> (self.payload is Some <==> self.state == COMPLETED)
        &&& self.state == UPDATING || self.state == COMPLETING ==> self.payload is None
    }

    /// The cache after a completion that was stored.
    pub open spec fn completed(self, payload: T) -> Self {
        CacheView { state: COMPLETED, waker: None, payload: Some(payload), ..self }
    }

    /// The cache with a waker.
    pub open spec fn waiting(self, waker: Waker) -> Self {
        CacheView { state: WAKER, waker: Some(waker), ..self }
    }

    /// The cache after its payload was taken.
    pub open spec fn taken_out(self) -> Self {
        CacheView { state: FREE, payload: None, ..self }
    }

    /// The cache after a clean-up: of the next generation, or retired where
    /// there is none.
    pub open spec fn cleaned(self) -> Self {
        if self.live == u32::MAX {
            CacheView { state: RETIRED, waker: None, payload: None, ..self }
        } else {
            CacheView {
                state: FREE,
                live: (self.live + 1) as u32,
                waker: None,
                payload: None,
                ..self
            }
        }
    }

    /// Why a completion of generation `live` is rejected, if it is.
    pub open spec fn rejection(self, live: u32) -> Option<CompletionReject> {
        if self.state == COMPLETED {
            Some(CompletionReject::Prefilled)
        } else if self.state == RETIRED {
            Some(CompletionReject::Retired)
        } else if self.live != live {
            Some(CompletionReject::Outdated)
        } else {
            None
        }
    }
}

impl<T> View for Cache<T> {
    type V = CacheView<T>;

    closed spec fn view(&self) -> CacheView<T> {
        CacheView {
            next_free: self.next_free,
            live: self.live,
            state: self.state,
            waker: self.waker,
            payload: self.payload,
        }
    }
}

/// What a completion of generation `live` returns on a settled cache.
pub open spec fn completion<T>(cache: CacheView<T>, live: u32, payload: T) -> Completion<T> {
    match cache.rejection(live) {
        Some(reason) => Completion::Rejected { reason, payload },
        None => Completion::Stored { woke: cache.state == WAKER },
    }
}

impl<T> Cache<T> {
    /// A cache of the first generation that `next_free` follows.
    pub fn null(next_free: usize) -> (cache: Self)
        ensures
            cache@.wf(),
            cache@ == (CacheView::<T> {
                next_free,
                live: 0,
                state: FREE,
                waker: None,
                payload: None,
            }),
    {
        Self { next_free, live: 0, state: FREE, waker: None, payload: None }
    }

    pub fn state(&self) -> (state: u8)
        ensures
            state == self@.state,
    {
        self.state
    }

    /// The generation of the cache.
    pub fn live(&self) -> (live: u32)
        ensures
            live == self@.live,
    {
        self.live
    }

    fn next(&self) -> (next: usize)
        ensures
            next == self@.next_free,
    {
        self.next_free
    }

    fn set_next(&mut self, next: usize)
        ensures
            final(self)@ == (CacheView { next_free: next, ..old(self)@ }),
    {
        self.next_free = next;
    }

    /// Takes the cache for a completion.
    pub fn begin_completion(&mut self) -> (taking: Taking)
        requires
            old(self)@.wf(),
        ensures
            final(self)@.wf(),
            ({
                let state = old(self)@.state;
                if state == FREE || state == WAKER {
                    &&& taking == Taking::Taken(state)
                    &&& final(self)@ == (CacheView { state: COMPLETING, ..old(self)@ })
                } else {
                    &&& taking == (if settled(state) {
                        Taking::Refused(state)
                    } else {
                        Taking::Retry
                    })
                    &&& final(self)@ == old(self)@
                }
            }),
    {
        let current: u8 = self.state;
        if current == COMPLETED || current == RETIRED {
            Taking::Refused(current)
        } else if current == FREE || current == WAKER {
            self.state = COMPLETING;
            Taking::Taken(current)
        } else {
            Taking::Retry
        }
    }

    /// Gives the cache back that a completion took in the state `origin`: with
    /// the payload, or as it was where the generation is another. The waker, if
    /// one waits, is to be woken.
    pub fn finish_completion(&mut self, origin: u8, live: u32, payload: T) -> (done: (
        Completion<T>,
        Option<Waker>,
    ))
        requires
            old(self)@.wf(),
            old(self)@.state == COMPLETING,
            origin == FREE || origin == WAKER,
            old(self)@.waker is Some <==> origin == WAKER,
        ensures
            final(self)@.wf(),
            ({
                let before = CacheView { state: origin, ..old(self)@ };
                &&& done.0 == completion(before, live, payload)
                &&& before.rejection(live) is None ==> {
                    &&& done.1 == before.waker
                    &&& final(self)@ == before.completed(payload)
                }
                &&& before.rejection(live) is Some ==> {
                    &&& done.1 is None
                    &&& final(self)@ == before
                }
            }),
    {
        if self.live != live {
            self.state = origin;
            return (Completion::Rejected { reason: CompletionReject::Outdated, payload }, None);
        }
        self.payload = Some(payload);
        self.state = COMPLETED;
        let wake: Option<Waker> = self.waker;
        self.waker = None;
        (Completion::Stored { woke: origin == WAKER }, wake)
    }

    /// Completes the operation of generation `live`; the second part is the
    /// waker to wake.
    pub fn complete(&mut self, live: u32, payload: T) -> (done: (Completion<T>, Option<Waker>))
        requires
            old(self)@.wf(),
            settled(old(self)@.state),
        ensures
            final(self)@.wf(),
            settled(final(self)@.state),
            done.0 == completion(old(self)@, live, payload),
            old(self)@.rejection(live) is None ==> {
                &&& done.1 == old(self)@.waker
                &&& final(self)@ == old(self)@.completed(payload)
            },
            old(self)@.rejection(live) is Some ==> {
                &&& done.1 is None
                &&& final(self)@ == old(self)@
            },
    {
        match self.begin_completion() {
            Taking::Taken(origin) => self.finish_completion(origin, live, payload),
            Taking::Refused(state) => {
                let reason = if state == COMPLETED {
                    CompletionReject::Prefilled
                } else {
                    CompletionReject::Retired
                };
                (Completion::Rejected { reason, payload }, None)
            },
            // A settled cache is not in another party's hands.
            Taking::Retry => (
                Completion::Rejected { reason: CompletionReject::Outdated, payload },
                None,
            ),
        }
    }

    /// Takes the cache to leave a waker. A completed cache is refused, and so is
    /// one that can hold no waker now.
    pub fn begin_update(&mut self) -> (taking: Taking)
        requires
            old(self)@.wf(),
        ensures
            final(self)@.wf(),
            ({
                let state = old(self)@.state;
                if state == FREE || state == WAKER {
                    &&& taking == Taking::Taken(state)
                    &&& final(self)@ == (CacheView { state: UPDATING, ..old(self)@ })
                } else {
                    &&& taking == (if state == UPDATING {
                        Taking::Retry
                    } else {
                        Taking::Refused(state)
                    })
                    &&& final(self)@ == old(self)@
                }
            }),
    {
        let current: u8 = self.state;
        if current == FREE || current == WAKER {
            self.state = UPDATING;
            Taking::Taken(current)
        } else if current == UPDATING {
            Taking::Retry
        } else {
            Taking::Refused(current)
        }
    }

    /// Leaves the waker in a cache that a poll took in the state `origin`. A
    /// waker of the same task stays.
    pub fn finish_update(&mut self, origin: u8, waker: Waker)
        requires
            old(self)@.wf(),
            old(self)@.state == UPDATING,
            origin == FREE || origin == WAKER,
            old(self)@.waker is Some <==> origin == WAKER,
        ensures
            final(self)@.wf(),
            final(self)@ == old(self)@.waiting(waker),
    {
        match self.waker {
            Some(kept) => {
                if !kept.will_wake(&waker) {
                    self.waker = Some(waker);
                }
            },
            None => {
                self.waker = Some(waker);
            },
        }
        self.state = WAKER;
    }

    fn take_payload(&mut self) -> (payload: Option<T>)
        ensures
            payload == old(self)@.payload,
            final(self)@ == (CacheView { payload: None, ..old(self)@ }),
    {
        let mut taken: Option<T> = None;
        core::mem::swap(&mut taken, &mut self.payload);
        taken
    }

    /// The payload of a completed cache, which is then free; else the waker is
    /// left where there is a place for it. A cache that another party completes
    /// or cleans, and one that is out of use, is pending.
    pub fn poll(&mut self, waker: Waker) -> (polled: Poll<T>)
        requires
            old(self)@.wf(),
            old(self)@.state != UPDATING,
        ensures
            final(self)@.wf(),
            ({
                let before = old(self)@;
                if before.state == COMPLETED {
                    &&& polled == Poll::Ready(before.payload->0)
                    &&& final(self)@ == before.taken_out()
                } else if before.state == FREE || before.state == WAKER {
                    &&& polled == Poll::<T>::Pending
                    &&& final(self)@ == before.waiting(waker)
                } else {
                    &&& polled == Poll::<T>::Pending
                    &&& final(self)@ == before
                }
            }),
    {
        match self.begin_update() {
            Taking::Taken(origin) => {
                self.finish_update(origin, waker);
                Poll::Pending
            },
            Taking::Refused(state) => {
                if state == COMPLETED {
                    self.state = FREE;
                    match self.take_payload() {
                        Some(payload) => Poll::Ready(payload),
                        None => Poll::Pending,
                    }
                } else {
                    Poll::Pending
                }
            },
            Taking::Retry => Poll::Pending,
        }
    }

    /// Takes the cache for a clean-up.
    pub fn begin_clean(&mut self) -> (taking: Taking)
        requires
            old(self)@.wf(),
        ensures
            final(self)@.wf(),
            ({
                let state = old(self)@.state;
                if taken(state) {
                    taking == Taking::Retry && final(self)@ == old(self)@
                } else if state == RETIRED {
                    taking == Taking::Refused(state) && final(self)@ == old(self)@
                } else {
                    &&& taking == Taking::Taken(state)
                    &&& final(self)@ == (CacheView { state: CLEANING, ..old(self)@ })
                }
            }),
    {
        let current: u8 = self.state;
        if current == UPDATING || current == COMPLETING || current == CLEANING {
            Taking::Retry
        } else if current == RETIRED {
            Taking::Refused(current)
        } else {
            self.state = CLEANING;
            Taking::Taken(current)
        }
    }

    /// Drops what a cache holds that a clean-up took, and gives it back as one
    /// of the next generation, which is the result; without a next generation it
    /// is retired.
    pub fn finish_clean(&mut self) -> (live: Option<u32>)
        requires
            old(self)@.wf(),
            old(self)@.state == CLEANING,
        ensures
            final(self)@.wf(),
            final(self)@ == old(self)@.cleaned(),
            live == (if old(self)@.live == u32::MAX {
                None
            } else {
                Some((old(self)@.live + 1) as u32)
            }),
    {
        self.waker = None;
        self.payload = None;
        if self.live == u32::MAX {
            self.state = RETIRED;
            return None;
        }
        self.live = self.live + 1;
        self.state = FREE;
        Some(self.live)
    }

    /// Drops what the cache holds and makes it one of the next generation, which
    /// is the result; a cache without a next generation is retired.
    pub fn clean(&mut self) -> (live: Option<u32>)
        requires
            old(self)@.wf(),
            settled(old(self)@.state),
        ensures
            final(self)@.wf(),
            settled(final(self)@.state),
            old(self)@.state == RETIRED ==> live is None && final(self)@ == old(self)@,
            old(self)@.state != RETIRED ==> {
                &&& final(self)@ == old(self)@.cleaned()
                &&& live == (if old(self)@.live == u32::MAX {
                    None
                } else {
                    Some((old(self)@.live + 1) as u32)
                })
            },
    {
        match self.begin_clean() {
            Taking::Taken(_) => self.finish_clean(),
            _ => None,
        }
    }
}

/// A payload that was stored is what the next poll gives out, once: the poll
/// after that finds nothing, and until then every further completion is
/// rejected.
pub proof fn law_a_payload_is_given_out_once<T>(
    cache: CacheView<T>,
    live: u32,
    payload: T,
    other: u32,
    late: T,
)
    requires
        cache.wf(),
        settled(cache.state),
        completion(cache, live, payload) is Stored,
    ensures
        ({
            let stored = cache.completed(payload);
            &&& stored.state == COMPLETED
            &&& stored.payload == Some(payload)
            &&& completion(stored, other, late) == (Completion::Rejected {
                reason: CompletionReject::Prefilled,
                payload: late,
            })
            &&& stored.taken_out().state == FREE
            &&& stored.taken_out().payload is None
        }),
{
}

/// A completion is stored exactly where the cache waits for that generation,
/// and after a clean-up no completion of an earlier generation is stored: its
/// payload goes back to the caller.
pub proof fn law_completions_of_earlier_uses_are_rejected<T>(
    cache: CacheView<T>,
    live: u32,
    payload: T,
)
    requires
        cache.wf(),
        settled(cache.state),
        live <= cache.live,
    ensures
        match completion(cache.cleaned(), live, payload) {
            Completion::Rejected { reason, payload: back } => back == payload && (reason
                == CompletionReject::Outdated || reason == CompletionReject::Retired),
            Completion::Stored { .. } => false,
        },
        completion(cache, live, payload) is Stored <==> cache.live == live && (cache.state == FREE
            || cache.state == WAKER),
{
}

/// Of a completion and a clean-up that race, each runs whole. Where the
/// completion is first, the clean-up drops the payload; where it is second, the
/// payload goes back to the caller: in both orders it has one owner.
pub proof fn law_racing_completions_have_one_owner<T>(cache: CacheView<T>, live: u32, payload: T)
    requires
        cache.wf(),
        cache.state == FREE || cache.state == WAKER,
        cache.live == live,
    ensures
        completion(cache, live, payload) is Stored,
        cache.completed(payload).cleaned().payload is None,
        cache.completed(payload).cleaned() == cache.cleaned(),
        match completion(cache.cleaned(), live, payload) {
            Completion::Rejected { payload: back, .. } => back == payload,
            Completion::Stored { .. } => false,
        },
{
}

/// Whoever polled last before a completion is the one that is woken by it, and
/// nobody is where nobody polled; the waiting changes neither the generation nor
/// the place of the cache.
pub proof fn law_the_last_waiter_is_woken<T>(
    cache: CacheView<T>,
    first: Waker,
    last: Waker,
    payload: T,
)
    requires
        cache.wf(),
        cache.state == FREE || cache.state == WAKER,
    ensures
        ({
            let waits = cache.waiting(first).waiting(last);
            &&& waits.wf()
            &&& waits == cache.waiting(last)
            &&& waits.waker == Some(last)
            &&& waits.live == cache.live
            &&& waits.next_free == cache.next_free
            &&& completion(waits, cache.live, payload) == (Completion::<T>::Stored { woke: true })
        }),
        completion(cache, cache.live, payload) == (Completion::<T>::Stored {
            woke: cache.waker is Some,
        }),
{
}

/// Nothing but a clean-up changes the generation of a cache, and nothing at all
/// its place in the list of free ones; what a completion leaves is a cache that
/// holds the payload and no waker, and what a poll of it leaves is one that
/// waits for nothing.
pub proof fn law_uses_keep_the_generation<T>(cache: CacheView<T>, payload: T)
    requires
        cache.wf(),
        cache.state == FREE || cache.state == WAKER,
    ensures
        ({
            let stored = cache.completed(payload);
            let free = stored.taken_out();
            &&& stored.wf() && free.wf()
            &&& stored.live == cache.live && free.live == cache.live
            &&& stored.next_free == cache.next_free && free.next_free == cache.next_free
            &&& stored.waker is None && free.waker is None
            &&& completion(free, cache.live, payload) == (Completion::<T>::Stored { woke: false })
        }),
        cache.cleaned().wf(),
        cache.cleaned().waker is None,
        cache.cleaned().next_free == cache.next_free,
{
}

/// A completion is rejected for the reason that there is: the cache holds a
/// payload already, it is out of use, or the generation is another.
pub proof fn law_completions_are_rejected_for_a_reason<T>(cache: CacheView<T>, live: u32)
    requires
        cache.wf(),
        settled(cache.state),
    ensures
        cache.rejection(live) == Some(CompletionReject::Prefilled) <==> cache.payload is Some,
        cache.rejection(live) == Some(CompletionReject::Retired) <==> cache.state == RETIRED,
        cache.rejection(live) == Some(CompletionReject::Outdated) <==> cache.payload is None
            && cache.state != RETIRED && cache.live != live,
        cache.rejection(live) is None <==> cache.payload is None && cache.state != RETIRED
            && cache.live == live,
{
}

/// A cache is retired only after the last of its generations, and it stays so.
pub proof fn law_caches_retire_after_their_last_use<T>(cache: CacheView<T>)
    requires
        cache.wf(),
        settled(cache.state),
        cache.state != RETIRED,
    ensures
        cache.cleaned().state == RETIRED <==> cache.live == u32::MAX,
        cache.cleaned().state != RETIRED ==> cache.cleaned().state == FREE
            && cache.cleaned().live > cache.live,
        cache.cleaned().payload is None,
{
}

/// A cache is in somebody's hands or in nobody's, and never both.
pub proof fn law_caches_have_one_user<T>(cache: CacheView<T>)
    requires
        cache.wf(),
    ensures
        settled(cache.state) <==> !taken(cache.state),
        cache.payload is Some ==> cache.state == COMPLETED || cache.state == CLEANING,
{
}

} // verus!
