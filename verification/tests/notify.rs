use evering::channel::duplex::Duplex;
use evering::channel::role::Channel;
use evering::channel::Id;
use evering::notify::{Advice, Attempt, Notify, Patience, Signals, LOCAL_RETRY_LIMIT};
use evering::pool::block::PoolRef;
use evering::pool::geometry::Geometry;
use evering::pool::storage::Storage;
use evering::queue::control::{owned, PRODUCER};
use evering::queue::lifecycle::TrySendError;
use evering::schema::{LayoutId, RegionId};
use std::cell::Cell;

/// Counts how often the other side was told, or fails to tell it.
struct Bell {
    rung: Cell<u32>,
    broken: bool,
}

impl Bell {
    fn new(broken: bool) -> Self {
        Bell { rung: Cell::new(0), broken }
    }
}

impl Notify for Bell {
    type Error = &'static str;

    fn notify(&self) -> Result<(), Self::Error> {
        self.rung.set(self.rung.get() + 1);
        if self.broken {
            Err("broken")
        } else {
            Ok(())
        }
    }
}

fn channel(capacity: u64) -> (Duplex<()>, Channel<()>) {
    let mut duplex = Duplex::<()>::blank(capacity as usize).unwrap();
    let id = Id::new(RegionId::new(0, 0), 0, 0, 1, capacity);
    let (channel, _) = Channel::creator(&mut duplex, id, 0);
    (duplex, channel)
}

fn pool() -> (Storage, PoolRef) {
    let geometry = Geometry::create(32 * 1024, None).unwrap();
    let id = LayoutId { region: RegionId::new(0, 0), offset: 4096 };
    (Storage::fresh(geometry.classes), PoolRef { id, owner: 0 })
}

#[test]
fn patience_is_bounded_and_starts_anew_after_a_wait() {
    let mut patience = Patience::new();
    for _ in 1..LOCAL_RETRY_LIMIT {
        assert_eq!(patience.advise(Attempt::Busy), Advice::Spin);
    }
    assert_eq!(patience.advise(Attempt::Busy), Advice::GiveUp);
    assert_eq!(patience.advise(Attempt::Blocked), Advice::Wait);
    assert_eq!(patience.advise(Attempt::Busy), Advice::Spin);
    assert_eq!(patience.advise(Attempt::Closed), Advice::Stop);
    assert_eq!(patience.advise(Attempt::Done), Advice::Finish);
}

#[test]
fn every_commit_is_told_to_the_other_side() {
    let (mut duplex, channel) = channel(1);
    let (mut storage, pool) = pool();
    let (tx, _) = channel.split();
    let bell = Bell::new(false);
    let signals = Signals::new(&bell, &());
    let value = pool.put(&mut storage, 5_u64).unwrap().transfer(());
    let sent = signals.try_send(&tx, &mut duplex, &mut storage, value);
    assert!(matches!(sent, Ok(done) if done.notified == Ok(())));
    assert_eq!(bell.rung.get(), 1);

    let value = pool.put(&mut storage, 6_u64).unwrap().transfer(());
    assert!(matches!(
        signals.try_send(&tx, &mut duplex, &mut storage, value),
        Err(TrySendError::Full(_))
    ));
    assert_eq!(bell.rung.get(), 1);
    let mut patience = Patience::new();
    let (permit, advice) = signals.try_reserve(&tx, &mut duplex, &mut patience);
    assert!(permit.is_none());
    assert_eq!(advice, Advice::Wait);

    assert_eq!(signals.close_tx(&tx, &mut duplex).notified, Ok(()));
    assert_eq!(bell.rung.get(), 2);
    let (permit, advice) = signals.try_reserve(&tx, &mut duplex, &mut patience);
    assert!(permit.is_none());
    assert_eq!(advice, Advice::Stop);
}

#[test]
fn what_committed_stays_committed_where_telling_fails() {
    let (mut duplex, channel) = channel(2);
    let (mut storage, pool) = pool();
    let (tx, _) = channel.split();
    let bell = Bell::new(true);
    let signals = Signals::new(&bell, &());
    let mut patience = Patience::new();
    let (permit, advice) = signals.try_reserve(&tx, &mut duplex, &mut patience);
    assert_eq!(advice, Advice::Finish);
    let value = pool.put(&mut storage, 5_u64).unwrap().transfer(());
    let done = permit.unwrap().send(&mut duplex, &mut storage, value);
    assert_eq!(done.notified, Err("broken"));
    assert_eq!(duplex.left.header.tail, 1);

    let (permit, _) = signals.try_reserve(&tx, &mut duplex, &mut patience);
    assert_eq!(permit.unwrap().cancel(&mut duplex).notified, Err("broken"));
    assert_eq!(bell.rung.get(), 2);
}

#[test]
fn busy_rings_are_attempted_again_at_once() {
    let (mut duplex, channel) = channel(1);
    let (tx, rx) = channel.split();
    let bell = Bell::new(false);
    let signals = Signals::new(&bell, &());
    duplex.left.slots[0].control = owned(PRODUCER, false, 0);
    let mut patience = Patience::new();
    for _ in 1..LOCAL_RETRY_LIMIT {
        let (_, advice) = signals.try_reserve(&tx, &mut duplex, &mut patience);
        assert_eq!(advice, Advice::Spin);
    }
    assert_eq!(signals.try_reserve(&tx, &mut duplex, &mut patience).1, Advice::GiveUp);

    let mut patience = Patience::new();
    let claimed = rx.claim(&mut duplex);
    assert_eq!(signals.after_claim(&claimed, &mut patience), Advice::Wait);
}
