//! The control word of a queue slot: who owns its bytes, and how far they are.

use crate::header::PARTICIPANT_CAPACITY;
use vstd::prelude::*;

verus! {

pub const EMPTY: u16 = 0;

pub const PRODUCER: u16 = 1;

pub const AVAILABLE: u16 = 2;

pub const CONSUMER: u16 = 3;

pub const BASE_MASK: u16 = 3;

pub const COMPLETE: u16 = 4;

pub const SOURCE_SHIFT: u16 = 3;

pub const SOURCE_MASK: u16 = 0x1f8;

pub const REAPER_SHIFT: u16 = 9;

pub const REAPER_MASK: u16 = 0x7e00;

pub const RESERVED_MASK: u16 = 0x8000;

/// The two low bits: which side owns the slot.
pub open spec fn base_of(control: u16) -> u16 {
    control % 4
}

/// Whether the slot's bytes are written.
pub open spec fn complete_of(control: u16) -> bool {
    (control / 4) % 2 == 1
}

/// One more than the participant that owns the slot; zero for nobody.
pub open spec fn source_of(control: u16) -> u16 {
    (control / 8) % 64
}

/// One more than the participant that repairs the slot; zero for nobody.
pub open spec fn reaper_of(control: u16) -> u16 {
    (control / 512) % 64
}

/// The control word with the given parts.
pub open spec fn control_of(base: u16, complete: bool, source: u16, reaper: u16) -> u16 {
    (base + (if complete {
        4int
    } else {
        0int
    }) + 8 * source + 512 * reaper) as u16
}

/// The control word of a slot that `owner` holds.
pub open spec fn owned_spec(base: u16, complete: bool, owner: u8) -> u16 {
    control_of(base, complete, (owner + 1) as u16, 0)
}

/// Whether a control word is one that the protocol writes.
pub open spec fn canonical_spec(control: u16) -> bool {
    let base = base_of(control);
    let source = source_of(control);
    let reaper = reaper_of(control);
    &&& control < 0x8000
    &&& if base == EMPTY {
        control == EMPTY
    } else if base == AVAILABLE {
        source == 0 && reaper == 0
    } else {
        0 < source <= PARTICIPANT_CAPACITY && reaper <= PARTICIPANT_CAPACITY
    }
}

pub fn owned(base: u16, complete: bool, owner: u8) -> (control: u16)
    requires
        base < 4,
        owner < 63,
    ensures
        control == owned_spec(base, complete, owner),
{
    base + (if complete {
        COMPLETE
    } else {
        0
    }) + 8 * (owner as u16 + 1)
}

pub fn base(control: u16) -> (base: u16)
    ensures
        base == base_of(control),
{
    control % 4
}

pub fn complete(control: u16) -> (complete: bool)
    ensures
        complete == complete_of(control),
{
    (control / 4) % 2 == 1
}

pub fn source(control: u16) -> (source: u16)
    ensures
        source == source_of(control),
        source < 64,
{
    (control / 8) % 64
}

pub fn reaper(control: u16) -> (reaper: u16)
    ensures
        reaper == reaper_of(control),
        reaper < 64,
{
    (control / 512) % 64
}

pub fn canonical(control: u16) -> (yes: bool)
    ensures
        yes == canonical_spec(control),
{
    if control >= RESERVED_MASK {
        return false;
    }
    let source: u16 = source(control);
    let reaper: u16 = reaper(control);
    let base: u16 = base(control);
    if base == EMPTY {
        control == EMPTY
    } else if base == AVAILABLE {
        source == 0 && reaper == 0
    } else {
        source != 0 && source as u64 <= PARTICIPANT_CAPACITY && reaper as u64
            <= PARTICIPANT_CAPACITY
    }
}

/// The same word with another reaper.
pub fn with_reaper(control: u16, reaper: u16) -> (next: u16)
    requires
        reaper < 64,
        control < 0x8000,
    ensures
        next == control_of(base_of(control), complete_of(control), source_of(control), reaper),
        next < 0x8000,
{
    assert(control % 512 == control % 4 + 4 * ((control / 4) % 2) + 8 * ((control / 8) % 64))
        by (bit_vector);
    control % 512 + 512 * reaper
}

/// The parts of a control word are read back as they were written.
pub proof fn law_control_round_trips(base: u16, complete: bool, source: u16, reaper: u16)
    requires
        base < 4,
        source < 64,
        reaper < 64,
    ensures
        ({
            let control = control_of(base, complete, source, reaper);
            &&& base_of(control) == base
            &&& complete_of(control) == complete
            &&& source_of(control) == source
            &&& reaper_of(control) == reaper
            &&& control < 0x8000
        }),
{
}

/// Every word below the reserved bit is the word of its parts.
pub proof fn law_control_is_its_parts(control: u16)
    requires
        control < 0x8000,
    ensures
        control == control_of(
            base_of(control),
            complete_of(control),
            source_of(control),
            reaper_of(control),
        ),
{
}

/// The words that a slot can have are those of a slot that nobody holds, published
/// or not, and those of a slot that a participant holds and that another may be
/// repairing; a held slot without a holder is none, nor is a word with the reserved
/// bit.
pub proof fn law_words_of_slots_are_canonical(
    side: u16,
    complete: bool,
    source: u16,
    reaper: u16,
    reserved: u16,
)
    requires
        side == PRODUCER || side == CONSUMER,
        source < 64 && reaper < 64,
        reserved >= 0x8000,
    ensures
        canonical_spec(EMPTY),
        canonical_spec(AVAILABLE),
        canonical_spec((AVAILABLE + COMPLETE) as u16),
        canonical_spec(control_of(side, complete, source, reaper)) <==> 0 < source
            <= PARTICIPANT_CAPACITY && reaper <= PARTICIPANT_CAPACITY,
        !canonical_spec(control_of(AVAILABLE, complete, source, reaper)) <==> source != 0 || reaper
            != 0,
        !canonical_spec(reserved),
{
}

} // verus!
