use evering::channel::driver::pool::{CachePool, CachePoolHandle};
use evering::channel::driver::submit::{
    complete, prepare, settle, Identified, SubmitCause, TrySubmitError,
};
use evering::channel::driver::{
    Cache, Completion, CompletionReject, Id, Poll, Taking, Waker, CLEANING, FREE, NONE, RETIRED,
    WAKER,
};
use evering::queue::lifecycle::{TryRecvError, TrySendError};
use std::cell::Cell;
use std::rc::Rc;

struct Droppy(Rc<Cell<usize>>);

impl Drop for Droppy {
    fn drop(&mut self) {
        self.0.set(self.0.get() + 1);
    }
}

#[test]
fn cache_complete() {
    const VALUE: u32 = 8;

    let mut cache = Cache::<u32>::null(NONE);
    let (completed, woken) = cache.complete(0, VALUE);
    assert_eq!(completed, Completion::Stored { woke: false });
    assert!(woken.is_none());
    let waker = Waker::new(1);
    match cache.poll(waker) {
        Poll::Ready(v) => assert_eq!(v, VALUE),
        Poll::Pending => panic!("expected ready"),
    }

    let mut cache2 = Cache::<u32>::null(NONE);
    match cache2.poll(waker) {
        Poll::Ready(_) => panic!("expected pending"),
        Poll::Pending => {}
    }
    assert_eq!(cache2.state(), WAKER);
    let (completed, woken) = cache2.complete(0, VALUE);
    assert_eq!(completed, Completion::Stored { woke: true });
    assert_eq!(woken, Some(waker));
    match cache2.poll(waker) {
        Poll::Ready(v) => assert_eq!(v, VALUE),
        Poll::Pending => panic!("expected ready"),
    }
}

#[test]
fn thread_cache_complete() {
    const VALUE: u32 = 12;

    // A party that polls while another stores the payload sees all of it or
    // none of it.
    let mut cache = Cache::<u32>::null(NONE);
    let waker = Waker::new(4);
    assert_eq!(cache.poll(waker), Poll::Pending);
    assert_eq!(cache.begin_completion(), Taking::Taken(WAKER));
    assert_eq!(cache.poll(waker), Poll::Pending);
    let (completed, woken) = cache.finish_completion(WAKER, 0, VALUE);
    assert_eq!(completed, Completion::Stored { woke: true });
    assert_eq!(woken.map(|waker| waker.task()), Some(4));
    assert_eq!(cache.poll(waker), Poll::Ready(VALUE));
}

#[test]
fn cache_clean() {
    let counter = Rc::new(Cell::new(0));
    let droppy = Droppy(counter.clone());
    let mut cache = Cache::<Droppy>::null(NONE);
    let _ = cache.complete(0, droppy);
    let new_live = cache.clean();
    assert!(new_live.unwrap() > 0);
    assert_eq!(counter.get(), 1);
}

#[test]
fn duplicate_completion_returns_the_rejected_payload() {
    let mut cache = Cache::<u32>::null(NONE);
    assert!(matches!(cache.complete(0, 7).0, Completion::Stored { .. }));
    assert_eq!(
        cache.complete(0, 9).0,
        Completion::Rejected { reason: CompletionReject::Prefilled, payload: 9 }
    );
}

#[test]
fn cancellation_racing_completion_has_one_payload_owner() {
    // The party that takes the cache first decides; the other tries again.
    for completes_first in [true, false] {
        let drops = Rc::new(Cell::new(0));
        let mut cache = Cache::<Droppy>::null(NONE);
        let payload = Droppy(drops.clone());
        let completion = if completes_first {
            assert_eq!(cache.begin_completion(), Taking::Taken(FREE));
            assert_eq!(cache.begin_clean(), Taking::Retry);
            let completion = cache.finish_completion(FREE, 0, payload).0;
            assert!(cache.clean().is_some());
            completion
        } else {
            assert_eq!(cache.begin_clean(), Taking::Taken(FREE));
            assert_eq!(cache.state(), CLEANING);
            assert_eq!(cache.begin_completion(), Taking::Retry);
            assert!(cache.finish_clean().is_some());
            cache.complete(0, payload).0
        };
        if let Completion::Rejected { payload, reason } = completion {
            assert_eq!(reason, CompletionReject::Outdated);
            assert!(!completes_first);
            drop(payload);
        }
        assert_eq!(drops.get(), 1);
    }
}

struct Wire(u32, Id);

impl Identified<Wire> for u32 {
    fn parts(output: Wire) -> (Self, Id) {
        (output.0, output.1)
    }

    fn compose(self, id: Id) -> Wire {
        Wire(self, id)
    }

    fn decompose(output: Wire) -> (Self, Id) {
        (output.0, output.1)
    }
}

fn reject(item: Wire) -> Result<(), TrySendError<Wire>> {
    Err(TrySendError::Full(item))
}

#[test]
fn submission_failures_return_the_original_item() {
    let mut handle = CachePoolHandle::<u32, 1>::new();
    let (op, wire) = prepare::<u32, Wire, 1>(handle.pool(), 73).unwrap();
    match settle(handle.pool(), op, reject(wire)) {
        Err(TrySubmitError::SendRejected { cause: SubmitCause::Full, item }) => {
            assert_eq!(item, 73)
        }
        _ => panic!("send rejection must return original input"),
    }

    let held = handle.claim().unwrap().0;
    match prepare::<u32, Wire, 1>(handle.pool(), 91) {
        Err(TrySubmitError::CacheFull(item)) => assert_eq!(item, 91),
        _ => panic!("cache exhaustion must return original input"),
    }
    held.release(handle.pool());
    assert!(handle.claim().is_some());
}

#[test]
fn submissions_to_a_closed_sender_are_disconnected() {
    let mut pool = CachePool::<u32, 1>::new();
    let (op, message) = prepare::<u32, (u32, Id), 1>(&mut pool, 5).unwrap();
    match settle(&mut pool, op, Err(TrySendError::Disconnected(message))) {
        Err(TrySubmitError::SendRejected { cause: SubmitCause::Disconnected, item }) => {
            assert_eq!(item, 5)
        }
        _ => panic!("send rejection must return original input"),
    }
    assert_eq!(pool.len(), 0);
}

#[test]
fn replies_complete_the_operation_that_they_name() {
    let mut pool = CachePool::<u32, 2>::new();
    let (first, request) = prepare::<u32, Wire, 2>(&mut pool, 5).unwrap();
    let first = settle(&mut pool, first, Ok::<(), TrySendError<Wire>>(())).unwrap();
    let reply = Wire(request.0 + 1, request.1);
    let refused: Result<Wire, TryRecvError> = Err(TryRecvError::Empty);
    assert!(matches!(complete::<u32, Wire, _, 2>(&mut pool, refused), Err(TryRecvError::Empty)));
    let (completion, _) =
        complete::<u32, Wire, TryRecvError, 2>(&mut pool, Ok(reply)).unwrap();
    assert_eq!(completion, Completion::Stored { woke: false });
    assert_eq!(first.poll(&mut pool, Waker::new(0)), Poll::Ready(6));
    first.release(&mut pool);
}

#[test]
fn pool() {
    const N: usize = 100;

    let mut pool = CachePool::<u32, N>::new();
    let mut ids = Vec::with_capacity(N);
    let mut ops = Vec::with_capacity(N);

    for _ in 0..N {
        let (op, id) = pool.probe().expect("should allocate");
        ids.push(id);
        ops.push(op);
    }
    assert!(pool.probe().is_none());
    assert_eq!(pool.len(), N);
    assert_eq!(pool.capacity(), N);

    for op in &ops {
        assert_eq!(op.poll(&mut pool, Waker::new(9)), Poll::Pending);
    }
    for step in 0..N {
        let id = ids[(step * 37) % N];
        let (completion, woken) = pool.complete(id, id.idx as u32);
        assert_eq!(completion, Completion::Stored { woke: true });
        assert_eq!(woken, Some(Waker::new(9)));
    }
    for op in ops {
        let idx = op.idx() as u32;
        assert_eq!(op.poll(&mut pool, Waker::new(9)), Poll::Ready(idx));
        op.release(&mut pool);
    }
    assert_eq!(pool.len(), 0);
}

#[test]
fn released_entries_reject_the_replies_of_earlier_operations() {
    let mut pool = CachePool::<u32, 1>::new();
    let (op, stale) = pool.probe().unwrap();
    op.release(&mut pool);
    let (_, fresh) = pool.probe().unwrap();
    assert_eq!(fresh.idx, stale.idx);
    assert_eq!(fresh.live, stale.live + 1);
    assert_eq!(
        pool.complete(stale, 3).0,
        Completion::Rejected { reason: CompletionReject::Outdated, payload: 3 }
    );
    assert_eq!(
        pool.complete(Id { idx: 7, live: 0 }, 3).0,
        Completion::Rejected { reason: CompletionReject::Outdated, payload: 3 }
    );
    assert_eq!(pool.complete(fresh, 3).0, Completion::Stored { woke: false });
}

#[test]
fn cleaning_begins_another_use() {
    let mut cache = Cache::<u32>::null(NONE);
    assert_eq!(cache.clean(), Some(1));
    assert_eq!(cache.live(), 1);
    assert_ne!(cache.state(), RETIRED);
}
