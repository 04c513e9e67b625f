//! What every step keeps: turns come in order, and no two participants hold one
//! turn.

use super::control::{base, complete, AVAILABLE, COMPLETE, CONSUMER, EMPTY, PRODUCER};
use super::ring::{Ring, RingView, Slot};
use vstd::prelude::*;

verus! {

/// What a receiver finds at a turn between the cursors.
pub ghost enum Entry<T> {
    /// A producer or a consumer holds the turn.
    Held,
    /// The turn was given up.
    Skip,
    /// The turn holds an item.
    Item(T),
}

impl<T> RingView<T> {
    /// The number of the head's position.
    pub open spec fn first(self) -> int {
        super::position::number_of(self.capacity(), self.lap as int, self.head as int)
    }

    /// How many turns lie between the cursors.
    pub open spec fn count(self) -> int {
        (super::position::number_of(self.capacity(), self.lap as int, self.tail as int)
            - self.first()) % super::position::period(self.capacity(), self.lap as int)
    }

    /// How far the turn of slot `i` is from the head.
    pub open spec fn offset(self, i: int) -> int {
        (i - self.first()) % self.capacity()
    }

    /// The position that is `k` turns from the head.
    pub open spec fn turn_at(self, k: int) -> int {
        super::position::position_of(self.capacity(), self.lap as int, self.first() + k)
    }

    /// A slot between the cursors belongs to its turn: a producer fills it, it
    /// is published, or a consumer takes it.
    pub open spec fn slot_inside(self, i: int) -> bool {
        let slot = self.slots[i];
        let b = super::control::base_of(slot.control);
        &&& b != EMPTY
        &&& slot.turn == self.turn_at(self.offset(i))
        &&& b == AVAILABLE ==> slot.control == AVAILABLE || slot.control == AVAILABLE + COMPLETE
        &&& super::control::complete_of(slot.control) ==> slot.value is Some
    }

    /// A slot outside the cursors is empty and waits for its turn, or a producer
    /// has just taken it, or a consumer has not yet let go of its last turn.
    pub open spec fn slot_outside(self, i: int) -> bool {
        let slot = self.slots[i];
        let b = super::control::base_of(slot.control);
        let turn = self.turn_at(self.offset(i));
        &&& b != AVAILABLE
        &&& b == EMPTY ==> slot.control == EMPTY && slot.turn == turn
        &&& b == PRODUCER ==> slot.turn == turn && !super::control::complete_of(slot.control)
        &&& b == CONSUMER ==> slot.turn == self.turn_at(self.offset(i) - self.capacity())
        &&& super::control::complete_of(slot.control) ==> slot.value is Some
    }

    pub open spec fn slot_ok(self, i: int) -> bool {
        if self.offset(i) < self.count() {
            self.slot_inside(i)
        } else {
            self.slot_outside(i)
        }
    }

    /// The ring is one that the steps of any number of participants lead to.
    pub open spec fn ordered(self) -> bool {
        &&& self.shaped()
        &&& super::position::is_position(self.capacity(), self.lap as int, self.head as int)
        &&& super::position::is_position(self.capacity(), self.lap as int, self.tail as int)
        &&& self.count() <= self.capacity()
        &&& forall|i: int| 0 <= i < self.capacity() ==> #[trigger] self.slot_ok(i)
    }

    /// The slot of the turn that is `k` turns from the head.
    pub open spec fn slot_of(self, k: int) -> int {
        (self.first() + k) % self.capacity()
    }

    pub open spec fn entry(self, k: int) -> Entry<T> {
        let slot = self.slots[self.slot_of(k)];
        if slot.control == AVAILABLE {
            Entry::Skip
        } else if slot.control == AVAILABLE + COMPLETE {
            Entry::Item(slot.value->0)
        } else {
            Entry::Held
        }
    }

    /// What receivers find, in order.
    pub open spec fn contents(self) -> Seq<Entry<T>> {
        Seq::new(self.count() as nat, |k: int| self.entry(k))
    }

    /// A producer holds the turn of slot `i`.
    pub open spec fn producing(self, i: int) -> bool {
        &&& 0 <= i < self.capacity()
        &&& self.offset(i) < self.count()
        &&& super::control::base_of(self.slots[i].control) == PRODUCER
    }

    /// A consumer holds the turn of slot `i`, and the head is past it.
    pub open spec fn consuming(self, i: int) -> bool {
        &&& 0 <= i < self.capacity()
        &&& self.offset(i) >= self.count()
        &&& super::control::base_of(self.slots[i].control) == CONSUMER
    }
}

/// Numbers that are equal modulo `m` stay so when the same is added.
proof fn lemma_mod_add(a: int, b: int, c: int, m: int)
    requires
        m > 0,
        a % m == b % m,
    ensures
        (a + c) % m == (b + c) % m,
{
    vstd::arithmetic::div_mod::lemma_add_mod_noop(a, c, m);
    vstd::arithmetic::div_mod::lemma_add_mod_noop(b, c, m);
}

/// A small difference is determined modulo `m`.
proof fn lemma_mod_unique(a: int, b: int, m: int)
    requires
        m > 0,
        0 <= a < m,
        0 <= b < m,
        a % m == b % m,
    ensures
        a == b,
{
    vstd::arithmetic::div_mod::lemma_small_mod(a as nat, m as nat);
    vstd::arithmetic::div_mod::lemma_small_mod(b as nat, m as nat);
}

/// Slots and offsets stand for each other.
pub(crate) proof fn lemma_offset<T>(ring: RingView<T>, i: int)
    requires
        ring.shaped(),
        0 <= i < ring.capacity(),
    ensures
        0 <= ring.offset(i) < ring.capacity(),
        ring.slot_of(ring.offset(i)) == i,
{
    let c = ring.capacity();
    let a = ring.first();
    vstd::arithmetic::div_mod::lemma_mod_bound(i - a, c);
    vstd::arithmetic::div_mod::lemma_add_mod_noop_right(a, i - a, c);
    vstd::arithmetic::div_mod::lemma_small_mod(i as nat, c as nat);
}

proof fn lemma_slot_of<T>(ring: RingView<T>, k: int)
    requires
        ring.shaped(),
        0 <= k < ring.capacity(),
    ensures
        0 <= ring.slot_of(k) < ring.capacity(),
        ring.offset(ring.slot_of(k)) == k,
{
    let c = ring.capacity();
    let a = ring.first();
    vstd::arithmetic::div_mod::lemma_mod_bound(a + k, c);
    vstd::arithmetic::div_mod::lemma_sub_mod_noop(a + k, a, c);
    vstd::arithmetic::div_mod::lemma_mod_twice(a + k, c);
    vstd::arithmetic::div_mod::lemma_sub_mod_noop((a + k) % c, a, c);
    vstd::arithmetic::div_mod::lemma_small_mod(k as nat, c as nat);
}

/// The turns around the head are different positions, and the turn at an
/// offset has the slot of that offset as its index.
proof fn lemma_turn<T>(ring: RingView<T>, k: int)
    requires
        ring.shaped(),
    ensures
        super::position::is_position(ring.capacity(), ring.lap as int, ring.turn_at(k)),
        ring.turn_at(k) % ring.lap as int == ring.slot_of(k),
        ring.turn_at(k) as u64 == ring.turn_at(k),
        super::position::number_of(ring.capacity(), ring.lap as int, ring.turn_at(k)) == (
        ring.first() + k) % super::position::period(ring.capacity(), ring.lap as int),
{
    super::position::lemma_position(ring.capacity(), ring.lap as int, ring.first() + k);
}

proof fn lemma_turns_differ<T>(ring: RingView<T>, j: int, k: int)
    requires
        ring.shaped(),
        ring.turn_at(j) == ring.turn_at(k),
        -super::position::period(ring.capacity(), ring.lap as int) < j - k
            < super::position::period(ring.capacity(), ring.lap as int),
    ensures
        j == k,
{
    let m = super::position::period(ring.capacity(), ring.lap as int);
    super::position::lemma_period(ring.capacity(), ring.lap as int);
    lemma_turn(ring, j);
    lemma_turn(ring, k);
    let a = ring.first();
    lemma_mod_add(a + j, a + k, -(a + k), m);
    assert((j - k) % m == 0int % m);
    if j > k {
        lemma_mod_unique(j - k, 0, m);
    } else if j < k {
        lemma_mod_add(a + k, a + j, -(a + j), m);
        lemma_mod_unique(k - j, 0, m);
    }
}

/// The tail is the turn behind the last one.
proof fn lemma_tail<T>(ring: RingView<T>)
    requires
        ring.shaped(),
        super::position::is_position(ring.capacity(), ring.lap as int, ring.head as int),
        super::position::is_position(ring.capacity(), ring.lap as int, ring.tail as int),
    ensures
        ring.turn_at(ring.count()) == ring.tail,
        ring.turn_at(0) == ring.head,
        0 <= ring.count() < super::position::period(ring.capacity(), ring.lap as int),
        ring.index(ring.tail) == ring.slot_of(ring.count()),
        ring.index(ring.head) == ring.slot_of(0),
        ring.count() == 0 <==> ring.head == ring.tail,
{
    let c = ring.capacity();
    let lap = ring.lap as int;
    let m = super::position::period(c, lap);
    super::position::lemma_period(c, lap);
    super::position::lemma_number(c, lap, ring.head as int);
    super::position::lemma_number(c, lap, ring.tail as int);
    let a = ring.first();
    let b = super::position::number_of(c, lap, ring.tail as int);
    vstd::arithmetic::div_mod::lemma_mod_bound(b - a, m);
    vstd::arithmetic::div_mod::lemma_add_mod_noop_right(a, b - a, m);
    vstd::arithmetic::div_mod::lemma_small_mod(b as nat, m as nat);
    vstd::arithmetic::div_mod::lemma_small_mod(a as nat, m as nat);
    assert((a + ring.count()) % m == b);
    lemma_turn(ring, ring.count());
    lemma_turn(ring, 0);
    if ring.count() == 0 {
        assert(a == b);
    }
    if ring.head == ring.tail {
        vstd::arithmetic::div_mod::lemma_small_mod(0, m as nat);
    }
}

/// A fresh ring is ordered and holds nothing.
pub proof fn law_fresh_ring_is_ordered<T>(capacity: int, lap: u64)
    requires
        super::position::laps_ok(capacity, lap as int),
    ensures
        super::ring::fresh::<T>(capacity, lap).ordered(),
        super::ring::fresh::<T>(capacity, lap).contents() == Seq::<Entry<T>>::empty(),
{
    let ring = super::ring::fresh::<T>(capacity, lap);
    assert(0int % lap as int == 0) by {
        vstd::arithmetic::div_mod::lemma_small_mod(0, lap as nat);
    }
    assert(0int / lap as int == 0) by {
        vstd::arithmetic::div_mod::lemma_basic_div(0, lap as int);
    }
    assert(0 * capacity == 0) by (nonlinear_arith);
    assert(ring.first() == 0);
    super::position::lemma_period(capacity, lap as int);
    vstd::arithmetic::div_mod::lemma_small_mod(
        0,
        super::position::period(capacity, lap as int) as nat,
    );
    assert(ring.count() == 0);
    assert forall|i: int| 0 <= i < capacity implies #[trigger] ring.slot_ok(i) by {
        vstd::arithmetic::div_mod::lemma_small_mod(i as nat, capacity as nat);
        vstd::arithmetic::div_mod::lemma_small_mod(
            i as nat,
            super::position::period(capacity, lap as int) as nat,
        );
        vstd::arithmetic::div_mod::lemma_basic_div(i, capacity);
        assert((i / capacity) * lap == 0) by (nonlinear_arith)
            requires
                i / capacity == 0,
        ;
        assert(ring.offset(i) == i);
        assert(ring.turn_at(i) == i);
    }
    assert(ring.contents() =~= Seq::<Entry<T>>::empty());
}

/// Changing one slot keeps the order where that slot stays in order.
proof fn lemma_with_slot<T>(ring: RingView<T>, i: int, slot: Slot<T>)
    requires
        ring.ordered(),
        0 <= i < ring.capacity(),
        ring.with_slot(i, slot).slot_ok(i),
    ensures
        ring.with_slot(i, slot).ordered(),
        ring.with_slot(i, slot).count() == ring.count(),
        ring.with_slot(i, slot).first() == ring.first(),
{
    let after = ring.with_slot(i, slot);
    assert forall|j: int| 0 <= j < after.capacity() implies #[trigger] after.slot_ok(j) by {
        assert(ring.slot_ok(j));
    }
}

/// A producer that takes a slot keeps the order and what receivers find,
/// whichever tail it saw.
pub proof fn law_entering_keeps_order<T>(ring: RingView<T>, tail: u64, owner: u8)
    requires
        ring.ordered(),
        ring.index(tail) < ring.capacity(),
        owner < 63,
        ring.enters(tail, owner),
    ensures
        ring.entered(tail, owner).ordered(),
        ring.entered(tail, owner).contents() == ring.contents(),
{
    let i = ring.index(tail);
    vstd::arithmetic::div_mod::lemma_mod_bound(tail as int, ring.lap as int);
    assert(ring.slot_ok(i));
    super::control::law_control_round_trips(PRODUCER, false, (owner + 1) as u16, 0);
    let after = ring.entered(tail, owner);
    lemma_with_slot(ring, i, after.slots[i]);
    lemma_same_contents(ring, after, i);
}

/// What receivers find does not depend on slots outside the cursors, nor on
/// which participant holds a turn.
proof fn lemma_same_contents<T>(ring: RingView<T>, after: RingView<T>, i: int)
    requires
        ring.ordered(),
        0 <= i < ring.capacity(),
        after.head == ring.head,
        after.tail == ring.tail,
        after.lap == ring.lap,
        after.slots == ring.slots.update(i, after.slots[i]),
        ring.offset(i) >= ring.count() || {
            &&& ring.slots[i].control != AVAILABLE
            &&& ring.slots[i].control != AVAILABLE + COMPLETE
            &&& after.slots[i].control != AVAILABLE
            &&& after.slots[i].control != AVAILABLE + COMPLETE
        },
    ensures
        after.contents() == ring.contents(),
{
    assert(after.capacity() == ring.capacity());
    assert(after.first() == ring.first());
    assert(after.count() == ring.count());
    lemma_tail(ring);
    assert forall|k: int| 0 <= k < ring.count() implies #[trigger] after.contents()[k]
        == ring.contents()[k] by {
        lemma_slot_of(ring, k);
        assert(after.slot_of(k) == ring.slot_of(k));
        if ring.slot_of(k) == i {
            assert(ring.offset(i) == k);
        }
    }
    assert(after.contents() =~= ring.contents());
}

/// A producer that lets go of a slot before the tail moved keeps the order and
/// what receivers find.
pub proof fn law_leaving_keeps_order<T>(ring: RingView<T>, tail: u64)
    requires
        ring.ordered(),
        ring.index(tail) < ring.capacity(),
        super::control::base_of(ring.slots[ring.index(tail)].control) == PRODUCER,
        ring.offset(ring.index(tail)) >= ring.count(),
    ensures
        ring.left(tail).ordered(),
        ring.left(tail).contents() == ring.contents(),
{
    let i = ring.index(tail);
    vstd::arithmetic::div_mod::lemma_mod_bound(tail as int, ring.lap as int);
    assert(ring.slot_ok(i));
    let after = ring.left(tail);
    lemma_with_slot(ring, i, after.slots[i]);
    lemma_same_contents(ring, after, i);
}

/// A producer whose tail is still the tail takes the turn behind the last one:
/// it is held by this producer alone, and the ring was not full.
pub proof fn law_reserving_takes_the_next_turn<T>(ring: RingView<T>, tail: u64)
    requires
        ring.ordered(),
        ring.index(tail) < ring.capacity(),
        super::control::base_of(ring.slots[ring.index(tail)].control) == PRODUCER,
        ring.confirms(tail),
    ensures
        ring.count() < ring.capacity(),
        ring.reserved(tail).ordered(),
        ring.reserved(tail).contents() == ring.contents().push(Entry::Held),
        ring.reserved(tail).producing(ring.index(tail)),
        !ring.producing(ring.index(tail)),
        ring.reserved(tail).offset(ring.index(tail)) == ring.count(),
        forall|i: int| #[trigger] ring.producing(i) ==> ring.reserved(tail).producing(i),
{
    let c = ring.capacity();
    let lap = ring.lap as int;
    let i = ring.index(tail);
    let n = ring.count();
    vstd::arithmetic::div_mod::lemma_mod_bound(tail as int, lap);
    super::position::lemma_period(c, lap);
    lemma_tail(ring);
    lemma_offset(ring, i);
    assert(ring.slot_ok(i));
    // The slot's turn is the tail, so its offset is the count.
    lemma_turns_differ(ring, ring.offset(i), n);
    assert(ring.offset(i) == n);
    let after = ring.reserved(tail);
    lemma_advance_tail(ring);
    assert forall|j: int| 0 <= j < c implies #[trigger] after.slot_ok(j) by {
        assert(ring.slot_ok(j));
        lemma_offset(ring, j);
        if ring.offset(j) == n {
            assert(ring.slot_of(n) == j);
            assert(j == i);
        }
    }
    assert(after.contents() =~= ring.contents().push(Entry::Held)) by {
        assert forall|k: int| 0 <= k < n + 1 implies after.entry(k) == ring.contents().push(
            Entry::Held,
        )[k] by {
            if k == n {
                assert(after.slot_of(k) == i);
            }
        }
    }
}

/// Moving the tail by one adds one turn.
proof fn lemma_advance_tail<T>(ring: RingView<T>)
    requires
        ring.ordered(),
        ring.count() < ring.capacity(),
    ensures
        ring.reserved(ring.tail).count() == ring.count() + 1,
        ring.reserved(ring.tail).first() == ring.first(),
        super::position::is_position(
            ring.capacity(),
            ring.lap as int,
            ring.reserved(ring.tail).tail as int,
        ),
{
    let c = ring.capacity();
    let lap = ring.lap as int;
    let m = super::position::period(c, lap);
    super::position::lemma_period(c, lap);
    super::position::lemma_number(c, lap, ring.tail as int);
    super::position::lemma_next(c, lap, ring.tail as int);
    let b = super::position::number_of(c, lap, ring.tail as int);
    let a = ring.first();
    super::position::lemma_position(c, lap, b + 1);
    let after = ring.reserved(ring.tail);
    assert(super::position::number_of(c, lap, after.tail as int) == (b + 1) % m);
    vstd::arithmetic::div_mod::lemma_sub_mod_noop(b + 1, a, m);
    vstd::arithmetic::div_mod::lemma_mod_twice(b + 1, m);
    vstd::arithmetic::div_mod::lemma_sub_mod_noop((b + 1) % m, a, m);
    vstd::arithmetic::div_mod::lemma_add_mod_noop(b - a, 1, m);
    vstd::arithmetic::div_mod::lemma_mod_bound(b - a, m);
    vstd::arithmetic::div_mod::lemma_small_mod(1, m as nat);
    vstd::arithmetic::div_mod::lemma_small_mod((ring.count() + 1) as nat, m as nat);
}

/// Writing the item of a turn keeps the order and what receivers find.
pub proof fn law_staging_keeps_order<T>(ring: RingView<T>, i: int, value: T)
    requires
        ring.ordered(),
        ring.producing(i),
    ensures
        ring.staged(i, value).ordered(),
        ring.staged(i, value).contents() == ring.contents(),
        ring.staged(i, value).producing(i),
{
    assert(ring.slot_ok(i));
    let slot = ring.slots[i];
    super::control::law_control_round_trips(
        PRODUCER,
        true,
        super::control::source_of(slot.control),
        0,
    );
    let after = ring.staged(i, value);
    lemma_with_slot(ring, i, after.slots[i]);
    lemma_same_contents(ring, after, i);
}

/// Publishing the turn of slot `i` puts its item at the turn's place.
pub proof fn law_publishing_fills_its_turn<T>(ring: RingView<T>, i: int)
    requires
        ring.ordered(),
        ring.producing(i),
        ring.slots[i].value is Some,
    ensures
        ring.published(i).ordered(),
        ring.published(i).contents() == ring.contents().update(
            ring.offset(i),
            Entry::Item(ring.slots[i].value->0),
        ),
{
    assert(ring.slot_ok(i));
    let after = ring.published(i);
    lemma_with_slot(ring, i, after.slots[i]);
    lemma_offset(ring, i);
    assert(after.contents() =~= ring.contents().update(
        ring.offset(i),
        Entry::Item(ring.slots[i].value->0),
    )) by {
        assert forall|k: int| 0 <= k < ring.count() && k != ring.offset(i) implies after.entry(k)
            == ring.entry(k) by {
            lemma_slot_of(ring, k);
        }
    }
}

/// Giving the turn of slot `i` up leaves a skip at the turn's place.
pub proof fn law_skipping_marks_its_turn<T>(ring: RingView<T>, i: int)
    requires
        ring.ordered(),
        ring.producing(i),
    ensures
        ring.skipped(i).ordered(),
        ring.skipped(i).contents() == ring.contents().update(ring.offset(i), Entry::Skip),
{
    assert(ring.slot_ok(i));
    let after = ring.skipped(i);
    lemma_with_slot(ring, i, after.slots[i]);
    lemma_offset(ring, i);
    assert(after.contents() =~= ring.contents().update(ring.offset(i), Entry::Skip)) by {
        assert forall|k: int| 0 <= k < ring.count() && k != ring.offset(i) implies after.entry(k)
            == ring.entry(k) by {
            lemma_slot_of(ring, k);
        }
    }
}

/// A consumer that takes a published slot keeps the order, whichever head it
/// saw.
pub proof fn law_taking_keeps_order<T>(ring: RingView<T>, head: u64, owner: u8)
    requires
        ring.ordered(),
        ring.index(head) < ring.capacity(),
        owner < 63,
        ring.is_available(head),
    ensures
        ring.taken(head, owner).ordered(),
        ring.offset(ring.index(head)) < ring.count(),
        ring.taken(head, owner).contents() == ring.contents().update(
            ring.offset(ring.index(head)),
            Entry::Held,
        ),
{
    let i = ring.index(head);
    vstd::arithmetic::div_mod::lemma_mod_bound(head as int, ring.lap as int);
    assert(ring.slot_ok(i));
    let full = super::control::complete_of(ring.slots[i].control);
    super::control::law_control_round_trips(CONSUMER, full, (owner + 1) as u16, 0);
    let after = ring.taken(head, owner);
    lemma_with_slot(ring, i, after.slots[i]);
    lemma_offset(ring, i);
    assert(after.contents() =~= ring.contents().update(ring.offset(i), Entry::Held)) by {
        assert forall|k: int| 0 <= k < ring.count() && k != ring.offset(i) implies after.entry(k)
            == ring.entry(k) by {
            lemma_slot_of(ring, k);
        }
    }
}

/// A consumer that puts a control word back restores what receivers find.
pub proof fn law_putting_back_keeps_order<T>(ring: RingView<T>, head: u64, available: u16)
    requires
        ring.ordered(),
        ring.index(head) < ring.capacity(),
        ring.offset(ring.index(head)) < ring.count(),
        super::control::base_of(ring.slots[ring.index(head)].control) == CONSUMER,
        available == AVAILABLE || (available == AVAILABLE + COMPLETE
            && super::control::complete_of(ring.slots[ring.index(head)].control)),
    ensures
        ring.with_control(ring.index(head), available).ordered(),
{
    let i = ring.index(head);
    vstd::arithmetic::div_mod::lemma_mod_bound(head as int, ring.lap as int);
    assert(ring.slot_ok(i));
    let after = ring.with_control(i, available);
    lemma_with_slot(ring, i, after.slots[i]);
}

/// A consumer whose head is still the head takes the first turn, and the rest
/// moves up.
pub proof fn law_claiming_takes_the_first_turn<T>(ring: RingView<T>, head: u64)
    requires
        ring.ordered(),
        ring.index(head) < ring.capacity(),
        super::control::base_of(ring.slots[ring.index(head)].control) == CONSUMER,
        ring.offset(ring.index(head)) < ring.count(),
        ring.consumes(head),
    ensures
        ring.offset(ring.index(head)) == 0,
        ring.count() > 0,
        ring.claimed(head).ordered(),
        ring.claimed(head).contents() == ring.contents().drop_first(),
        ring.claimed(head).consuming(ring.index(head)),
        forall|i: int| #[trigger] ring.producing(i) ==> ring.claimed(head).producing(i),
        forall|i: int| #[trigger] ring.consuming(i) ==> ring.claimed(head).consuming(i),
{
    let c = ring.capacity();
    let lap = ring.lap as int;
    let i = ring.index(head);
    vstd::arithmetic::div_mod::lemma_mod_bound(head as int, lap);
    super::position::lemma_period(c, lap);
    lemma_tail(ring);
    lemma_offset(ring, i);
    lemma_slot_of(ring, 0);
    assert(ring.slot_ok(i));
    let after = ring.claimed(head);
    lemma_advance_head(ring);
    assert forall|j: int| 0 <= j < c implies after.offset(j) == (if ring.offset(j) == 0 {
        c - 1
    } else {
        ring.offset(j) - 1
    }) by {
        lemma_offset_after(ring, j);
    }
    assert forall|j: int| 0 <= j < c implies #[trigger] after.slot_ok(j) by {
        assert(ring.slot_ok(j));
        lemma_offset(ring, j);
        lemma_offset_after(ring, j);
        let k = ring.offset(j);
        if k == 0 {
            assert(ring.slot_of(0) == j);
            assert(j == i);
            lemma_turn_after(ring, c - 1 - c);
        } else {
            lemma_turn_after(ring, k - 1);
            lemma_turn_after(ring, k - 1 - c);
        }
    }
    assert(after.contents() =~= ring.contents().drop_first()) by {
        assert forall|k: int| 0 <= k < ring.count() - 1 implies after.entry(k) == ring.entry(k + 1) by {
            lemma_slot_of(ring, k + 1);
            lemma_offset_after(ring, ring.slot_of(k + 1));
            lemma_offset(after, ring.slot_of(k + 1));
        }
    }
    assert forall|j: int| #[trigger] ring.producing(j) implies after.producing(j) by {
        lemma_offset_after(ring, j);
        lemma_offset(ring, j);
        if ring.offset(j) == 0 {
            assert(ring.slot_of(0) == j);
        }
    }
    assert forall|j: int| #[trigger] ring.consuming(j) implies after.consuming(j) by {
        lemma_offset_after(ring, j);
        lemma_offset(ring, j);
    }
}

/// Moving the head by one takes one turn away.
proof fn lemma_advance_head<T>(ring: RingView<T>)
    requires
        ring.ordered(),
        ring.count() > 0,
    ensures
        ring.claimed(ring.head).count() == ring.count() - 1,
        ring.claimed(ring.head).first() == (ring.first() + 1) % super::position::period(
            ring.capacity(),
            ring.lap as int,
        ),
        super::position::is_position(
            ring.capacity(),
            ring.lap as int,
            ring.claimed(ring.head).head as int,
        ),
{
    let c = ring.capacity();
    let lap = ring.lap as int;
    let m = super::position::period(c, lap);
    super::position::lemma_period(c, lap);
    super::position::lemma_number(c, lap, ring.head as int);
    super::position::lemma_next(c, lap, ring.head as int);
    let b = super::position::number_of(c, lap, ring.tail as int);
    let a = ring.first();
    super::position::lemma_position(c, lap, a + 1);
    let after = ring.claimed(ring.head);
    assert(after.first() == (a + 1) % m);
    vstd::arithmetic::div_mod::lemma_sub_mod_noop(b, a + 1, m);
    vstd::arithmetic::div_mod::lemma_mod_twice(a + 1, m);
    vstd::arithmetic::div_mod::lemma_sub_mod_noop(b, (a + 1) % m, m);
    vstd::arithmetic::div_mod::lemma_sub_mod_noop(b - a, 1, m);
    vstd::arithmetic::div_mod::lemma_mod_bound(b - a, m);
    vstd::arithmetic::div_mod::lemma_small_mod(1, m as nat);
    vstd::arithmetic::div_mod::lemma_small_mod((ring.count() - 1) as nat, m as nat);
}

/// Offsets after the head moved by one.
proof fn lemma_offset_after<T>(ring: RingView<T>, j: int)
    requires
        ring.ordered(),
        ring.count() > 0,
        0 <= j < ring.capacity(),
    ensures
        ring.claimed(ring.head).offset(j) == (if ring.offset(j) == 0 {
            ring.capacity() - 1
        } else {
            ring.offset(j) - 1
        }),
{
    let c = ring.capacity();
    let lap = ring.lap as int;
    let m = super::position::period(c, lap);
    let a = ring.first();
    super::position::lemma_period(c, lap);
    lemma_advance_head(ring);
    super::position::lemma_number(c, lap, ring.head as int);
    let after = ring.claimed(ring.head);
    // The period is a multiple of the capacity.
    assert(after.first() % c == (a + 1) % c) by {
        super::position::lemma_position(c, lap, a + 1);
        super::position::lemma_number(c, lap, after.head as int);
        super::position::lemma_next(c, lap, ring.head as int);
    }
    vstd::arithmetic::div_mod::lemma_sub_mod_noop(j, after.first(), c);
    vstd::arithmetic::div_mod::lemma_sub_mod_noop(j, a + 1, c);
    vstd::arithmetic::div_mod::lemma_sub_mod_noop(j - a, 1, c);
    vstd::arithmetic::div_mod::lemma_mod_bound(j - a, c);
    let k = ring.offset(j);
    assert(after.offset(j) == (j - a - 1) % c);
    if c == 1 {
        assert(k == 0);
        vstd::arithmetic::div_mod::lemma_mod_bound(j - a - 1, c);
    } else {
        vstd::arithmetic::div_mod::lemma_small_mod(1, c as nat);
        assert(after.offset(j) == (k - 1) % c);
        if k == 0 {
            vstd::arithmetic::div_mod::lemma_mod_add_multiples_vanish(-1, c);
            vstd::arithmetic::div_mod::lemma_small_mod((c - 1) as nat, c as nat);
        } else {
            vstd::arithmetic::div_mod::lemma_small_mod((k - 1) as nat, c as nat);
        }
    }
}

/// Turns after the head moved by one.
proof fn lemma_turn_after<T>(ring: RingView<T>, k: int)
    requires
        ring.ordered(),
        ring.count() > 0,
    ensures
        ring.claimed(ring.head).turn_at(k) == ring.turn_at(k + 1),
{
    let c = ring.capacity();
    let lap = ring.lap as int;
    let m = super::position::period(c, lap);
    super::position::lemma_period(c, lap);
    lemma_advance_head(ring);
    let a = ring.first();
    vstd::arithmetic::div_mod::lemma_add_mod_noop_right(k, a + 1, m);
    assert((k + (a + 1) % m) % m == (k + (a + 1)) % m);
}

/// A consumer that lets go of its last turn leaves the slot waiting for the
/// next one.
pub proof fn law_recycling_keeps_order<T>(ring: RingView<T>, i: int, next_turn: u64)
    requires
        ring.ordered(),
        ring.consuming(i),
        next_turn == ring.lap_later(ring.slots[i].turn),
    ensures
        ring.recycled(i, next_turn).ordered(),
        ring.recycled(i, next_turn).contents() == ring.contents(),
        ring.recycled(i, next_turn).slots[i].control == EMPTY,
{
    let c = ring.capacity();
    let lap = ring.lap as int;
    assert(ring.slot_ok(i));
    lemma_offset(ring, i);
    let k = ring.offset(i);
    lemma_turn(ring, k - c);
    super::position::lemma_lap_further(c, lap, ring.turn_at(k - c));
    super::position::lemma_period(c, lap);
    let m = super::position::period(c, lap);
    let a = ring.first();
    vstd::arithmetic::div_mod::lemma_add_mod_noop_right(c, a + k - c, m);
    assert(((a + k - c) % m + c) % m == (a + k) % m);
    assert(next_turn == ring.turn_at(k));
    let after = ring.recycled(i, next_turn);
    lemma_with_slot(ring, i, after.slots[i]);
    lemma_same_contents(ring, after, i);
}

/// A ring is full exactly when it holds as many turns as it has slots: then a
/// producer sees the head one lap behind its tail, and not otherwise.
pub proof fn law_full_at_capacity<T>(ring: RingView<T>)
    requires
        ring.ordered(),
    ensures
        ring.lap_later(ring.head) == ring.tail <==> ring.count() == ring.capacity(),
        ring.count() == ring.capacity() ==> ring.slots[ring.index(ring.tail)].control != EMPTY,
{
    let c = ring.capacity();
    let lap = ring.lap as int;
    super::position::lemma_period(c, lap);
    lemma_tail(ring);
    super::position::lemma_lap_further(c, lap, ring.head as int);
    assert(ring.lap_later(ring.head) == ring.turn_at(c));
    if ring.lap_later(ring.head) == ring.tail {
        lemma_turns_differ(ring, ring.count(), c);
    }
    if ring.count() == c {
        let i = ring.index(ring.tail);
        lemma_turn(ring, c);
        vstd::arithmetic::div_mod::lemma_mod_bound(ring.first() + c, c);
        lemma_offset(ring, i);
        assert(ring.slot_ok(i));
    }
}

/// The slot behind the last turn waits for it, where the ring is not full and
/// nobody holds that slot.
pub(crate) proof fn lemma_next_free<T>(ring: RingView<T>)
    requires
        ring.ordered(),
    ensures
        0 <= ring.index(ring.tail) < ring.capacity(),
        ring.contents().len() == ring.count(),
        ring.count() < ring.capacity() ==> {
            let slot = ring.slots[ring.index(ring.tail)];
            let b = super::control::base_of(slot.control);
            &&& b != AVAILABLE
            &&& b == EMPTY ==> slot.control == EMPTY && slot.turn == ring.tail
        },
{
    lemma_tail(ring);
    let n = ring.count();
    vstd::arithmetic::div_mod::lemma_mod_bound(ring.first() + n, ring.capacity());
    if n < ring.capacity() {
        lemma_slot_of(ring, n);
        assert(ring.slot_ok(ring.slot_of(n)));
    }
}

/// Nothing is between equal cursors, and only between them.
pub proof fn law_empty_between_equal_cursors<T>(ring: RingView<T>)
    requires
        ring.ordered(),
    ensures
        ring.head == ring.tail <==> ring.contents().len() == 0,
        ring.head == ring.tail ==> ring.contents() == Seq::<Entry<T>>::empty(),
{
    lemma_tail(ring);
    if ring.head == ring.tail {
        assert(ring.contents() =~= Seq::<Entry<T>>::empty());
    }
}

/// The first entry is what the slot of the head holds, and the slot's turn is the
/// head.
pub proof fn law_first_entry<T>(ring: RingView<T>)
    requires
        ring.ordered(),
    ensures
        ring.index(ring.head) == ring.slot_of(0),
        0 <= ring.index(ring.head) < ring.capacity(),
        ring.contents().len() > 0 ==> ring.contents()[0] == ring.entry(0) && ring.consumes(
            ring.head,
        ),
{
    lemma_tail(ring);
    lemma_slot_of(ring, 0);
    assert(ring.slot_ok(ring.slot_of(0)));
}

/// Distances of turns around the head.
proof fn lemma_turn_distance<T>(ring: RingView<T>, j: int, k: int)
    requires
        ring.shaped(),
        ring.lap < 0x8000_0000_0000_0000,
        0 < k - j <= ring.capacity(),
    ensures
        super::repair::ahead(ring.turn_at(k) as u64, ring.turn_at(j) as u64),
        !super::repair::ahead(ring.turn_at(j) as u64, ring.turn_at(k) as u64),
        ring.turn_at(k) != ring.turn_at(j),
{
    let word: int = 0x1_0000_0000_0000_0000;
    lemma_turn(ring, j);
    lemma_turn(ring, k);
    super::position::lemma_steps(ring.capacity(), ring.lap as int, ring.first() + j, k - j);
    let d = ring.turn_at(k) - ring.turn_at(j);
    assert(ring.first() + j + (k - j) == ring.first() + k);
    assert(0 < d % word <= ring.lap);
}

/// Repairing a slot keeps the order and what receivers find at every other
/// turn. A consumer that died on a turn behind the first one is left out: the
/// slot would be emptied before its turn was received.
pub proof fn law_repair_keeps_order<T>(
    ring: RingView<T>,
    i: int,
    dead: u8,
    live: u8,
    accepted: bool,
)
    requires
        ring.ordered(),
        ring.lap < 0x8000_0000_0000_0000,
        0 <= i < ring.capacity(),
        dead < 63,
        live < 63,
        super::control::base_of(ring.slots[i].control) == CONSUMER && ring.offset(i) < ring.count()
            ==> ring.offset(i) == 0,
    ensures
        ({
            let outcome = super::repair::repaired(
                ring.head,
                ring.tail,
                ring.lap,
                ring.slots[i],
                dead,
                live,
                accepted,
            );
            let after = ring.with_slot(i, outcome.1);
            &&& after.ordered()
            &&& after.count() == ring.count()
            &&& forall|k: int|
                0 <= k < ring.count() && k != ring.offset(i) ==> #[trigger] after.contents()[k]
                    == ring.contents()[k]
        }),
{
    let slot = ring.slots[i];
    let outcome = super::repair::repaired(
        ring.head,
        ring.tail,
        ring.lap,
        slot,
        dead,
        live,
        accepted,
    );
    let after = ring.with_slot(i, outcome.1);
    let k = ring.offset(i);
    let c = ring.capacity();
    assert(ring.slot_ok(i));
    lemma_offset(ring, i);
    lemma_tail(ring);
    lemma_turn(ring, k);
    lemma_turn(ring, k - c);
    let b = super::control::base_of(slot.control);
    let full = super::control::complete_of(slot.control);
    let source = super::control::source_of(slot.control);
    super::control::law_control_round_trips(b, full, source, (live + 1) as u16);
    if k < ring.count() {
        lemma_turn_distance(ring, k, ring.count());
        if k > 0 {
            lemma_turn_distance(ring, 0, k);
        }
    } else {
        if k > ring.count() {
            lemma_turn_distance(ring, ring.count(), k);
        }
        lemma_turn_distance(ring, k - c, 0);
        super::position::lemma_lap_further(c, ring.lap as int, ring.turn_at(k - c));
        super::position::lemma_period(c, ring.lap as int);
        let m = super::position::period(c, ring.lap as int);
        let a = ring.first();
        vstd::arithmetic::div_mod::lemma_add_mod_noop_right(c, a + k - c, m);
        assert(((a + k - c) % m + c) % m == (a + k) % m);
    }
    assert(after.slot_ok(i));
    lemma_with_slot(ring, i, outcome.1);
    assert forall|j: int| 0 <= j < ring.count() && j != k implies #[trigger] after.contents()[j]
        == ring.contents()[j] by {
        lemma_slot_of(ring, j);
        assert(after.slot_of(j) == ring.slot_of(j));
    }
}

/// What becomes of the turn that a dead participant held. One that it was filling
/// is passed by receivers; the first one, which it was taking, is there to be
/// received as it was; a slot outside the cursors waits for its next turn. The
/// item is given back where nobody receives it any more. Repair fails only where
/// such an item cannot be given back, or where the slot's turn was not the next
/// one to be taken.
pub proof fn law_repair_settles_the_turns_of_the_dead<T>(
    ring: RingView<T>,
    i: int,
    dead: u8,
    live: u8,
    accepted: bool,
)
    requires
        ring.ordered(),
        ring.lap < 0x8000_0000_0000_0000,
        0 <= i < ring.capacity(),
        dead < 63,
        live < 63,
        super::control::canonical_spec(ring.slots[i].control),
        super::control::base_of(ring.slots[i].control) == PRODUCER || super::control::base_of(
            ring.slots[i].control,
        ) == CONSUMER,
        super::control::source_of(ring.slots[i].control) == dead + 1,
        super::control::reaper_of(ring.slots[i].control) == 0,
        super::control::base_of(ring.slots[i].control) == CONSUMER && ring.offset(i) < ring.count()
            ==> ring.offset(i) == 0,
    ensures
        ({
            let slot = ring.slots[i];
            let outcome = super::repair::repaired(
                ring.head,
                ring.tail,
                ring.lap,
                slot,
                dead,
                live,
                accepted,
            );
            let after = ring.with_slot(i, outcome.1);
            let inside = ring.offset(i) < ring.count();
            let filling = super::control::base_of(slot.control) == PRODUCER;
            let full = super::control::complete_of(slot.control);
            let orphan = full && (filling == inside);
            let early = filling && ring.offset(i) > ring.count();
            &&& super::repair::repair_releases(ring.head, ring.tail, slot, dead, live) == orphan
            &&& outcome.0 == (if early || (orphan && !accepted) {
                super::repair::Repair::Corrupted
            } else {
                super::repair::Repair::Recovered
            })
            &&& outcome.0 == super::repair::Repair::Recovered ==> {
                &&& inside && filling ==> after.contents()[ring.offset(i)] == Entry::<T>::Skip
                &&& inside && !filling ==> after.contents()[0] == (if full {
                    Entry::Item(slot.value->0)
                } else {
                    Entry::<T>::Skip
                })
                &&& !inside ==> after.slots[i].control == EMPTY && after.slots[i].turn
                    == ring.turn_at(ring.offset(i)) && after.contents() == ring.contents()
            }
        }),
{
    let slot = ring.slots[i];
    let outcome = super::repair::repaired(
        ring.head,
        ring.tail,
        ring.lap,
        slot,
        dead,
        live,
        accepted,
    );
    let after = ring.with_slot(i, outcome.1);
    let k = ring.offset(i);
    let c = ring.capacity();
    assert(ring.slot_ok(i));
    lemma_offset(ring, i);
    lemma_tail(ring);
    lemma_turn(ring, k);
    lemma_turn(ring, k - c);
    let b = super::control::base_of(slot.control);
    let full = super::control::complete_of(slot.control);
    let source = super::control::source_of(slot.control);
    super::control::law_control_round_trips(b, full, source, (live + 1) as u16);
    if k < ring.count() {
        lemma_turn_distance(ring, k, ring.count());
        if k > 0 {
            lemma_turn_distance(ring, 0, k);
        }
        assert(after.slot_of(k) == i);
        assert(after.contents()[k] == after.entry(k));
    } else {
        if k > ring.count() {
            lemma_turn_distance(ring, ring.count(), k);
        }
        lemma_turn_distance(ring, k - c, 0);
        super::position::lemma_lap_further(c, ring.lap as int, ring.turn_at(k - c));
        super::position::lemma_period(c, ring.lap as int);
        let m = super::position::period(c, ring.lap as int);
        let a = ring.first();
        vstd::arithmetic::div_mod::lemma_add_mod_noop_right(c, a + k - c, m);
        assert(((a + k - c) % m + c) % m == (a + k) % m);
        if outcome.0 == super::repair::Repair::Recovered {
            lemma_same_contents(ring, after, i);
        }
    }
}

/// One step from a turn leads to the turn behind it.
proof fn lemma_next_turn<T>(ring: RingView<T>, k: int)
    requires
        ring.shaped(),
    ensures
        ring.next(ring.turn_at(k) as u64) == ring.turn_at(k + 1),
{
    let c = ring.capacity();
    let lap = ring.lap as int;
    let m = super::position::period(c, lap);
    let a = ring.first() + k;
    super::position::lemma_period(c, lap);
    lemma_turn(ring, k);
    lemma_turn(ring, k + 1);
    super::position::lemma_next(c, lap, ring.turn_at(k));
    vstd::arithmetic::div_mod::lemma_mod_twice(a, m);
    lemma_mod_add(a % m, a, 1, m);
}

/// One lap before a turn.
proof fn lemma_earlier_turn<T>(ring: RingView<T>, k: int, turn: u64)
    requires
        ring.shaped(),
    ensures
        ring.lap_later(turn) == ring.turn_at(k) <==> turn == ring.turn_at(k - ring.capacity()),
{
    let c = ring.capacity();
    let lap = ring.lap as int;
    let m = super::position::period(c, lap);
    let a = ring.first() + k - c;
    super::position::lemma_period(c, lap);
    lemma_turn(ring, k);
    lemma_turn(ring, k - c);
    super::position::lemma_lap_further(c, lap, ring.turn_at(k - c));
    vstd::arithmetic::div_mod::lemma_mod_twice(a, m);
    lemma_mod_add(a % m, a, c, m);
    let earlier = ring.turn_at(k - c) as u64;
    assert(ring.lap_later(earlier) == ring.turn_at(k));
}

/// The number of turns between the cursors, from their numbers.
proof fn lemma_count<T>(ring: RingView<T>)
    requires
        ring.shaped(),
        super::position::is_position(ring.capacity(), ring.lap as int, ring.head as int),
        super::position::is_position(ring.capacity(), ring.lap as int, ring.tail as int),
    ensures
        ({
            let c = ring.capacity();
            let lap = ring.lap as int;
            let total = super::position::period(c, lap);
            let tail = super::position::number_of(c, lap, ring.tail as int);
            &&& 0 <= ring.first() < total
            &&& 0 <= tail < total
            &&& total < 0x1_0000_0000_0000_0000
            &&& ring.count() == (if tail >= ring.first() {
                tail - ring.first()
            } else {
                tail + total - ring.first()
            })
        }),
{
    let c = ring.capacity();
    let lap = ring.lap as int;
    let total = super::position::period(c, lap);
    let tail = super::position::number_of(c, lap, ring.tail as int);
    super::position::lemma_period(c, lap);
    super::position::lemma_number(c, lap, ring.head as int);
    super::position::lemma_number(c, lap, ring.tail as int);
    let laps = super::position::lap_count(lap);
    assert(laps * c < laps * lap) by (nonlinear_arith)
        requires
            laps >= 2,
            0 < c < lap,
    ;
    let apart = tail - ring.first();
    if apart >= 0 {
        vstd::arithmetic::div_mod::lemma_small_mod(apart as nat, total as nat);
    } else {
        vstd::arithmetic::div_mod::lemma_small_mod((apart + total) as nat, total as nat);
        vstd::arithmetic::div_mod::lemma_mod_add_multiples_vanish(apart, total);
    }
}

impl<T> Ring<T> {
    /// The number of a position.
    fn number(&self, position: u64) -> (number: u64)
        requires
            self@.shaped(),
            super::position::is_position(self@.capacity(), self@.lap as int, position as int),
        ensures
            number == super::position::number_of(
                self@.capacity(),
                self@.lap as int,
                position as int,
            ),
    {
        let capacity: u64 = self.slots.len() as u64;
        let laps: u64 = position / self.one_lap;
        proof {
            let ring = self@;
            let whole = RingView { head: position, tail: position, ..ring };
            assert(self.slots@.len() == self.slots.len());
            lemma_count(whole);
            let rest = position as int % ring.lap as int;
            vstd::arithmetic::div_mod::lemma_mod_bound(position as int, ring.lap as int);
            assert(0 <= laps * capacity) by (nonlinear_arith);
        }
        laps * capacity + position % self.one_lap
    }

    /// Whether a turn's slot is as its place asks.
    fn slot_in_order(&self, index: usize, turn: u64, inside: bool) -> (ok: bool)
        requires
            self@.shaped(),
            index < self@.capacity(),
            turn == self@.turn_at(self@.offset(index as int)),
            inside == (self@.offset(index as int) < self@.count()),
        ensures
            ok == self@.slot_ok(index as int),
    {
        let slot = &self.slots[index];
        let kind: u16 = base(slot.control);
        if complete(slot.control) && slot.value.is_none() {
            return false;
        }
        proof {
            lemma_earlier_turn(self@, self@.offset(index as int), slot.turn);
        }
        if inside {
            kind != EMPTY && slot.turn == turn && (kind != AVAILABLE || slot.control == AVAILABLE
                || slot.control == AVAILABLE + COMPLETE)
        } else if kind == EMPTY {
            slot.control == EMPTY && slot.turn == turn
        } else if kind == PRODUCER {
            slot.turn == turn && !complete(slot.control)
        } else if kind == CONSUMER {
            slot.turn.wrapping_add(self.one_lap) == turn
        } else {
            false
        }
    }

    /// Whether the ring is one that the steps of any number of participants lead
    /// to.
    pub fn in_order(&self) -> (ordered: bool)
        ensures
            ordered == self@.ordered(),
    {
        let capacity: u64 = self.slots.len() as u64;
        let lap: u64 = self.one_lap;
        proof {
            assert(self.slots@.len() == self.slots.len());
        }
        if capacity == 0 || capacity >= lap || lap > 0x8000_0000_0000_0000 {
            return false;
        }
        proof {
            lemma_whole_laps(lap);
        }
        if u64::MAX % lap != lap - 1 {
            return false;
        }
        let head: u64 = self.header.head;
        let tail: u64 = self.header.tail;
        if head % lap >= capacity || tail % lap >= capacity {
            return false;
        }
        proof {
            lemma_count(self@);
            lemma_laps(lap);
            lemma_tail(self@);
        }
        let first: u64 = self.number(head);
        let last: u64 = self.number(tail);
        let count: u64 = if last >= first {
            last - first
        } else {
            let total: u64 = (u64::MAX / lap + 1) * capacity;
            last + (total - first)
        };
        if count > capacity {
            return false;
        }
        let mut k: u64 = 0;
        let mut turn: u64 = head;
        while k < capacity
            invariant
                self@.shaped(),
                super::position::is_position(self@.capacity(), self@.lap as int, head as int),
                super::position::is_position(self@.capacity(), self@.lap as int, tail as int),
                head == self@.head,
                tail == self@.tail,
                lap == self@.lap,
                capacity == self@.capacity(),
                capacity == self.slots.len(),
                count == self@.count(),
                count <= capacity,
                k <= capacity,
                turn == self@.turn_at(k as int),
                forall|j: int| 0 <= j < k ==> self@.slot_ok(#[trigger] self@.slot_of(j)),
            decreases capacity - k,
        {
            proof {
                lemma_turn(self@, k as int);
                lemma_slot_of(self@, k as int);
                lemma_next_turn(self@, k as int);
            }
            let index: usize = (turn % lap) as usize;
            if !self.slot_in_order(index, turn, k < count) {
                return false;
            }
            turn = self.next(turn);
            k = k + 1;
        }
        proof {
            assert forall|i: int| 0 <= i < self@.capacity() implies #[trigger] self@.slot_ok(i) by {
                lemma_offset(self@, i);
            }
        }
        true
    }
}

/// A lap divides the words exactly where the last word is the last of a lap.
proof fn lemma_whole_laps(lap: u64)
    requires
        0 < lap,
    ensures
        u64::MAX as int % lap as int == lap - 1 <==> 0x1_0000_0000_0000_0000int % lap as int == 0,
{
    let words = 0x1_0000_0000_0000_0000int;
    let l = lap as int;
    vstd::arithmetic::div_mod::lemma_mod_bound(words - 1, l);
    vstd::arithmetic::div_mod::lemma_add_mod_noop(words - 1, 1, l);
    let r = (words - 1) % l;
    if l == 1 {
    } else {
        vstd::arithmetic::div_mod::lemma_small_mod(1, l as nat);
        if r + 1 < l {
            vstd::arithmetic::div_mod::lemma_small_mod((r + 1) as nat, l as nat);
        } else {
            vstd::arithmetic::div_mod::lemma_mod_self_0(l);
        }
    }
}

/// How many laps there are.
proof fn lemma_laps(lap: u64)
    requires
        0 < lap,
        0x1_0000_0000_0000_0000int % lap as int == 0,
    ensures
        u64::MAX as int / lap as int + 1 == super::position::lap_count(lap as int),
{
    let words = 0x1_0000_0000_0000_0000int;
    let l = lap as int;
    lemma_whole_laps(lap);
    vstd::arithmetic::div_mod::lemma_fundamental_div_mod(words, l);
    let q = words / l;
    assert(words - 1 == l * (q - 1) + (l - 1)) by (nonlinear_arith)
        requires
            words == l * q,
    ;
    assert(l * (q - 1) == (q - 1) * l) by (nonlinear_arith);
    vstd::arithmetic::div_mod::lemma_fundamental_div_mod_converse(words - 1, l, q - 1, l - 1);
}

} // verus!
