//! Repair of slots whose owner died.
//!
//! A reaper first writes itself into the control word, so that whoever comes
//! after it knows whom to wait for or to replace. Then it settles the slot by
//! how far its owner had come.

use super::control::{
    base, canonical, complete, reaper, source, with_reaper, AVAILABLE, COMPLETE, CONSUMER, EMPTY,
    PRODUCER,
};
use super::ring::{Ring, Slot};
use crate::header::PARTICIPANT_CAPACITY;
use vstd::prelude::*;

verus! {

#[derive(Clone, Copy, Debug, PartialEq, Eq, Structural)]
pub enum Repair {
    Untouched,
    Recovered,
    Busy(u8),
    Corrupted,
}

/// Gives back what an item of a dead participant holds.
pub trait Release<T> {
    /// Whether items can be given back here at all.
    spec fn ready(&self) -> bool;

    /// Whether the item of `owner` can be given back.
    spec fn accepts(&self, item: T, owner: u8) -> bool;

    /// What giving it back does.
    spec fn released(&self, item: T, owner: u8, after: &Self) -> bool;

    fn release(&mut self, item: &T, owner: u8) -> (accepted: bool)
        requires
            old(self).ready(),
        ensures
            final(self).ready(),
            accepted == old(self).accepts(*item, owner),
            old(self).released(*item, owner, final(self)),
    ;
}

/// Items that hold nothing.
pub struct HoldsNothing;

impl<T> Release<T> for HoldsNothing {
    open spec fn ready(&self) -> bool {
        true
    }

    open spec fn accepts(&self, item: T, owner: u8) -> bool {
        true
    }

    open spec fn released(&self, item: T, owner: u8, after: &Self) -> bool {
        true
    }

    fn release(&mut self, item: &T, owner: u8) -> (accepted: bool) {
        true
    }
}

/// What a reaper finds in a control word.
pub ghost enum Mark {
    /// The slot is none of the dead participant's business.
    Untouched,
    /// Another reaper is at it.
    Busy(u8),
    /// This reaper may go on, with itself in the control word.
    Mine(u16),
}

/// What `live` finds where it looks for `dead`.
pub open spec fn mark(control: u16, dead: u8, live: u8) -> Mark {
    let b = super::control::base_of(control);
    let source = super::control::source_of(control);
    let reaper = super::control::reaper_of(control);
    let mine = super::control::control_of(
        b,
        super::control::complete_of(control),
        source,
        (live + 1) as u16,
    );
    if b != PRODUCER && b != CONSUMER {
        Mark::Untouched
    } else if reaper == dead + 1 {
        Mark::Mine(mine)
    } else if source == dead + 1 && (reaper == 0 || reaper == live + 1) {
        Mark::Mine(mine)
    } else if source == dead + 1 {
        Mark::Busy((reaper - 1) as u8)
    } else {
        Mark::Untouched
    }
}

/// How far `position` is ahead of `turn`, modulo the word.
pub open spec fn distance(position: u64, turn: u64) -> int {
    (position - turn) % 0x1_0000_0000_0000_0000
}

/// Half of the word: a cursor that is further ahead is behind.
pub open spec fn ahead(position: u64, turn: u64) -> bool {
    0 < distance(position, turn) < 0x8000_0000_0000_0000
}

/// Whether settling a slot gives its item back.
pub open spec fn settle_releases<T>(head: u64, tail: u64, slot: Slot<T>) -> bool {
    &&& super::control::complete_of(slot.control)
    &&& slot.value is Some
    &&& if super::control::base_of(slot.control) == PRODUCER {
        ahead(tail, slot.turn)
    } else {
        head != slot.turn
    }
}

/// The slot as it is settled, where it can be; `accepted` says whether its item
/// could be given back.
pub open spec fn settled<T>(
    head: u64,
    tail: u64,
    lap: u64,
    slot: Slot<T>,
    accepted: bool,
) -> Option<Slot<T>> {
    let complete = super::control::complete_of(slot.control);
    let given = !complete || (slot.value is Some && accepted);
    if super::control::base_of(slot.control) == PRODUCER {
        if tail == slot.turn {
            // The turn was never taken.
            if complete {
                None
            } else {
                Some(Slot { turn: slot.turn, control: EMPTY, value: None })
            }
        } else if ahead(tail, slot.turn) && given {
            // The turn was taken: receivers pass it.
            Some(Slot { turn: slot.turn, control: AVAILABLE, value: None })
        } else {
            None
        }
    } else if head == slot.turn {
        // The turn was not consumed: it is published as it was.
        Some(
            Slot {
                turn: slot.turn,
                control: if complete {
                    (AVAILABLE + COMPLETE) as u16
                } else {
                    AVAILABLE
                },
                value: slot.value,
            },
        )
    } else if given {
        // The turn was consumed: the slot waits for its next one.
        Some(
            Slot {
                turn: if ahead(head, slot.turn) {
                    ((slot.turn + lap) % 0x1_0000_0000_0000_0000) as u64
                } else {
                    slot.turn
                },
                control: EMPTY,
                value: None,
            },
        )
    } else {
        None
    }
}

/// Writes the reaper into the control word of a slot.
pub fn mark_slot<T>(slot: &mut Slot<T>, dead: u8, live: u8) -> (marked: Result<(), Repair>)
    requires
        dead < PARTICIPANT_CAPACITY,
        live < PARTICIPANT_CAPACITY,
        super::control::canonical_spec(old(slot).control),
    ensures
        match mark(old(slot).control, dead, live) {
            Mark::Untouched => marked == Err::<(), Repair>(Repair::Untouched) && *final(slot)
                == *old(slot),
            Mark::Busy(other) => marked == Err::<(), Repair>(Repair::Busy(other)) && *final(slot)
                == *old(slot),
            Mark::Mine(control) => marked is Ok && *final(slot) == (Slot { control, ..*old(slot) }),
        },
        marked is Ok ==> super::control::canonical_spec(final(slot).control),
        marked is Ok ==> super::control::base_of(final(slot).control) == super::control::base_of(
            old(slot).control,
        ) && super::control::complete_of(final(slot).control) == super::control::complete_of(
            old(slot).control,
        ) && super::control::source_of(final(slot).control) == super::control::source_of(
            old(slot).control,
        ),
{
    let control: u16 = slot.control;
    let source: u16 = source(control);
    let reaper: u16 = reaper(control);
    let side: u16 = base(control);
    if side != PRODUCER && side != CONSUMER {
        return Err(Repair::Untouched);
    }
    proof {
        super::control::law_control_is_its_parts(control);
        super::control::law_control_round_trips(
            side,
            super::control::complete_of(control),
            source,
            (live + 1) as u16,
        );
    }
    if reaper == dead as u16 + 1 || (source == dead as u16 + 1 && (reaper == 0 || reaper
        == live as u16 + 1)) {
        slot.control = with_reaper(control, live as u16 + 1);
        Ok(())
    } else if source == dead as u16 + 1 {
        Err(Repair::Busy((reaper - 1) as u8))
    } else {
        Err(Repair::Untouched)
    }
}

/// Settles a slot by how far its owner had come.
pub fn settle_slot<T, R: Release<T>>(
    head: u64,
    tail: u64,
    lap: u64,
    slot: &mut Slot<T>,
    release: &mut R,
) -> (repaired: bool)
    requires
        super::control::canonical_spec(old(slot).control),
        super::control::base_of(old(slot).control) == PRODUCER || super::control::base_of(
            old(slot).control,
        ) == CONSUMER,
        old(release).ready(),
    ensures
        final(release).ready(),
        ({
            let before = *old(slot);
            let owner = (super::control::source_of(before.control) - 1) as u8;
            let accepted = old(release).accepts(before.value->0, owner);
            &&& match settled(head, tail, lap, before, accepted) {
                Some(after) => repaired && *final(slot) == after,
                None => !repaired && *final(slot) == before,
            }
            &&& if settle_releases(head, tail, before) {
                old(release).released(before.value->0, owner, final(release))
            } else {
                *final(release) == *old(release)
            }
        }),
{
    let control: u16 = slot.control;
    let turn: u64 = slot.turn;
    let full: bool = complete(control);
    let owner: u8 = (source(control) - 1) as u8;
    if base(control) == PRODUCER {
        let ahead: u64 = tail.wrapping_sub(turn);
        if ahead == 0 {
            if full {
                return false;
            }
            *slot = Slot { turn, control: EMPTY, value: None };
            true
        } else if ahead < 0x8000_0000_0000_0000 {
            if full {
                match &slot.value {
                    Some(item) => {
                        if !release.release(item, owner) {
                            return false;
                        }
                    },
                    None => return false,
                }
            }
            *slot = Slot { turn, control: AVAILABLE, value: None };
            true
        } else {
            false
        }
    } else if head == turn {
        slot.control = if full {
            AVAILABLE + COMPLETE
        } else {
            AVAILABLE
        };
        true
    } else {
        if full {
            match &slot.value {
                Some(item) => {
                    if !release.release(item, owner) {
                        return false;
                    }
                },
                None => return false,
            }
        }
        let ahead: u64 = head.wrapping_sub(turn);
        let next: u64 = if ahead != 0 && ahead < 0x8000_0000_0000_0000 {
            turn.wrapping_add(lap)
        } else {
            turn
        };
        *slot = Slot { turn: next, control: EMPTY, value: None };
        true
    }
}

/// What repairing a slot answers and leaves.
pub open spec fn repaired<T>(
    head: u64,
    tail: u64,
    lap: u64,
    slot: Slot<T>,
    dead: u8,
    live: u8,
    accepted: bool,
) -> (Repair, Slot<T>) {
    if !super::control::canonical_spec(slot.control) {
        (Repair::Corrupted, slot)
    } else {
        match mark(slot.control, dead, live) {
            Mark::Untouched => (Repair::Untouched, slot),
            Mark::Busy(other) => (Repair::Busy(other), slot),
            Mark::Mine(control) => {
                let marked = Slot { control, ..slot };
                match settled(head, tail, lap, marked, accepted) {
                    Some(after) => (Repair::Recovered, after),
                    None => (Repair::Corrupted, marked),
                }
            },
        }
    }
}

/// Whether repairing a slot gives its item back.
pub open spec fn repair_releases<T>(
    head: u64,
    tail: u64,
    slot: Slot<T>,
    dead: u8,
    live: u8,
) -> bool {
    super::control::canonical_spec(slot.control) && mark(slot.control, dead, live) is Mine
        && settle_releases(head, tail, slot)
}

/// Repairs the slot at `index` after `dead`, as the reaper `live`.
pub fn repair_slot_with<T, R: Release<T>>(
    ring: &mut Ring<T>,
    index: usize,
    dead: u8,
    live: u8,
    release: &mut R,
) -> (outcome: Repair)
    requires
        old(release).ready(),
    ensures
        final(release).ready(),
        ({
            let before = old(ring)@;
            let i = index as int;
            let owner = (super::control::source_of(before.slots[i].control) - 1) as u8;
            let accepted = old(release).accepts(before.slots[i].value->0, owner);
            if dead >= PARTICIPANT_CAPACITY || live >= PARTICIPANT_CAPACITY || index
                >= before.capacity() {
                &&& outcome == Repair::Corrupted
                &&& final(ring)@ == before
                &&& *final(release) == *old(release)
            } else {
                let (repair, slot) = repaired(
                    before.head,
                    before.tail,
                    before.lap,
                    before.slots[i],
                    dead,
                    live,
                    accepted,
                );
                &&& outcome == repair
                &&& final(ring)@ == before.with_slot(i, slot)
                &&& if repair_releases(before.head, before.tail, before.slots[i], dead, live) {
                    old(release).released(before.slots[i].value->0, owner, final(release))
                } else {
                    *final(release) == *old(release)
                }
            }
        }),
{
    if dead as u64 >= PARTICIPANT_CAPACITY || live as u64 >= PARTICIPANT_CAPACITY || index
        >= ring.slots.len() {
        return Repair::Corrupted;
    }
    let ghost before = ring@;
    let ghost i = index as int;
    if !canonical(ring.slots[index].control) {
        assert(ring@.slots =~= before.with_slot(i, before.slots[i]).slots);
        return Repair::Corrupted;
    }
    let mut slot = Slot { turn: 0, control: EMPTY, value: None };
    core::mem::swap(&mut slot, &mut ring.slots[index]);
    let outcome = match mark_slot(&mut slot, dead, live) {
        Err(outcome) => outcome,
        Ok(()) => {
            if settle_slot(
                ring.header.head,
                ring.header.tail,
                ring.one_lap,
                &mut slot,
                release,
            ) {
                Repair::Recovered
            } else {
                Repair::Corrupted
            }
        },
    };
    let ghost settled_slot = slot;
    core::mem::swap(&mut slot, &mut ring.slots[index]);
    assert(ring@.slots =~= before.slots.update(i, settled_slot));
    outcome
}

/// Only slots that the dead participant owns or was repairing are touched.
pub proof fn law_only_the_dead_are_repaired<T>(
    head: u64,
    tail: u64,
    lap: u64,
    slot: Slot<T>,
    dead: u8,
    live: u8,
    accepted: bool,
)
    requires
        super::control::source_of(slot.control) != dead + 1,
        super::control::reaper_of(slot.control) != dead + 1,
    ensures
        repaired(head, tail, lap, slot, dead, live, accepted).1 == slot,
{
}

/// A repaired slot belongs to nobody: repairing it again changes nothing.
pub proof fn law_repair_is_idempotent<T>(
    head: u64,
    tail: u64,
    lap: u64,
    slot: Slot<T>,
    dead: u8,
    live: u8,
    accepted: bool,
    again: bool,
)
    requires
        repaired(head, tail, lap, slot, dead, live, accepted).0 == Repair::Recovered,
    ensures
        ({
            let after = repaired(head, tail, lap, slot, dead, live, accepted).1;
            &&& super::control::canonical_spec(after.control)
            &&& repaired(head, tail, lap, after, dead, live, again) == (Repair::Untouched, after)
        }),
{
}

/// A reaper that died after it had marked a slot is replaced, and the outcome
/// is the one that the slot's owner called for.
pub proof fn law_dead_reaper_is_replaced<T>(
    head: u64,
    tail: u64,
    lap: u64,
    slot: Slot<T>,
    dead: u8,
    first: u8,
    second: u8,
    accepted: bool,
)
    requires
        dead < PARTICIPANT_CAPACITY,
        first < PARTICIPANT_CAPACITY,
        second < PARTICIPANT_CAPACITY,
        super::control::canonical_spec(slot.control),
        super::control::source_of(slot.control) == dead + 1,
        super::control::reaper_of(slot.control) == 0,
        mark(slot.control, dead, first) is Mine,
    ensures
        ({
            let marked = Slot { control: mark(slot.control, dead, first)->Mine_0, ..slot };
            repaired(head, tail, lap, marked, first, second, accepted) == repaired(
                head,
                tail,
                lap,
                slot,
                dead,
                second,
                accepted,
            )
        }),
{
    let complete = super::control::complete_of(slot.control);
    let b = super::control::base_of(slot.control);
    let source = super::control::source_of(slot.control);
    super::control::law_control_round_trips(b, complete, source, (first + 1) as u16);
    super::control::law_control_round_trips(b, complete, source, (second + 1) as u16);
}

/// A reaper that is still alive goes on where it stopped.
pub proof fn law_live_reaper_resumes<T>(
    head: u64,
    tail: u64,
    lap: u64,
    slot: Slot<T>,
    dead: u8,
    live: u8,
    accepted: bool,
)
    requires
        dead < PARTICIPANT_CAPACITY,
        live < PARTICIPANT_CAPACITY,
        super::control::canonical_spec(slot.control),
        super::control::source_of(slot.control) == dead + 1,
        super::control::reaper_of(slot.control) == 0,
        mark(slot.control, dead, live) is Mine,
    ensures
        ({
            let marked = Slot { control: mark(slot.control, dead, live)->Mine_0, ..slot };
            repaired(head, tail, lap, marked, dead, live, accepted) == repaired(
                head,
                tail,
                lap,
                slot,
                dead,
                live,
                accepted,
            )
        }),
{
    let complete = super::control::complete_of(slot.control);
    let b = super::control::base_of(slot.control);
    let source = super::control::source_of(slot.control);
    super::control::law_control_round_trips(b, complete, source, (live + 1) as u16);
}

/// A slot at which another reaper is, that may be alive, is left to it: whoever
/// comes second is told who is there, and changes nothing.
pub proof fn law_reapers_keep_out_of_each_others_way<T>(
    head: u64,
    tail: u64,
    lap: u64,
    slot: Slot<T>,
    dead: u8,
    live: u8,
    other: u8,
    side: u16,
    complete: bool,
    accepted: bool,
)
    requires
        dead < PARTICIPANT_CAPACITY && live < PARTICIPANT_CAPACITY && other < PARTICIPANT_CAPACITY,
        other != dead && other != live,
        side == PRODUCER || side == CONSUMER,
        slot.control == super::control::control_of(
            side,
            complete,
            (dead + 1) as u16,
            (other + 1) as u16,
        ),
        super::control::canonical_spec(slot.control),
    ensures
        repaired(head, tail, lap, slot, dead, live, accepted) == (Repair::Busy(other), slot),
        !repair_releases(head, tail, slot, dead, live),
{
    super::control::law_control_round_trips(
        side,
        complete,
        (dead + 1) as u16,
        (other + 1) as u16,
    );
}

/// Of two cursors one is ahead at most: none is ahead of itself, and a cursor that
/// went on by less than half of the word is ahead of where it was.
pub proof fn law_cursors_are_ahead_or_behind(position: u64, turn: u64, steps: u64)
    ensures
        !ahead(turn, turn),
        ahead(position, turn) ==> !ahead(turn, position),
        0 < steps < 0x8000_0000_0000_0000 ==> ahead(turn.wrapping_add(steps), turn),
{
}

} // verus!
