//! Recovery of a channel after one of its participants died.

use super::duplex::Duplex;
use super::{recover_role, Info, RoleWord};
use crate::header::PARTICIPANT_CAPACITY;
use crate::msg::Repr;
use crate::queue::repair::{repair_slot_with, Release, Repair};
use crate::queue::ring::{Ring, RingView, Slot};
use crate::token::Token;
use vstd::prelude::*;

verus! {

/// A slot that keeps recovery from going on.
pub open spec fn blocks(answer: Repair) -> bool {
    answer is Busy || answer is Corrupted
}

/// Who owned the item of a slot.
pub open spec fn item_owner<T>(slot: Slot<T>) -> u8 {
    (crate::queue::control::source_of(slot.control) - 1) as u8
}

/// What repairing the slot `i` answers and leaves.
pub open spec fn slot_answer<T, R: Release<T>>(
    ring: RingView<T>,
    i: int,
    dead: u8,
    live: u8,
    release: R,
) -> (Repair, Slot<T>) {
    let slot = ring.slots[i];
    crate::queue::repair::repaired(
        ring.head,
        ring.tail,
        ring.lap,
        slot,
        dead,
        live,
        release.accepts(slot.value->0, item_owner(slot)),
    )
}

/// What repairing the slot `i` does.
pub open spec fn slot_step<T, R: Release<T>>(
    before: RingView<T>,
    i: int,
    dead: u8,
    live: u8,
    release: R,
    after: RingView<T>,
    released: R,
) -> bool {
    let slot = before.slots[i];
    &&& after == before.with_slot(i, slot_answer(before, i, dead, live, release).1)
    &&& if crate::queue::repair::repair_releases(before.head, before.tail, slot, dead, live) {
        release.released(slot.value->0, item_owner(slot), &released)
    } else {
        released == release
    }
}

/// The first `n` slots were repaired, one after the other, and none of them kept
/// recovery from going on.
pub open spec fn repaired_upto<T, R: Release<T>>(
    before: RingView<T>,
    n: int,
    dead: u8,
    live: u8,
    release: R,
    after: RingView<T>,
    released: R,
) -> bool
    decreases n,
{
    if n <= 0 {
        after == before && released == release
    } else {
        exists|ring: RingView<T>, middle: R|
            {
                &&& repaired_upto(before, n - 1, dead, live, release, ring, middle)
                &&& !blocks(slot_answer(ring, n - 1, dead, live, middle).0)
                &&& #[trigger] slot_step(ring, n - 1, dead, live, middle, after, released)
            }
    }
}

/// All slots of a ring were repaired.
pub open spec fn ring_repaired<T, R: Release<T>>(
    before: RingView<T>,
    dead: u8,
    live: u8,
    release: R,
    after: RingView<T>,
    released: R,
) -> bool {
    repaired_upto(before, before.capacity(), dead, live, release, after, released)
}

/// Recovery stopped at the slot `k`.
pub open spec fn stopped_at<T, R: Release<T>>(
    before: RingView<T>,
    k: int,
    dead: u8,
    live: u8,
    release: R,
    after: RingView<T>,
    released: R,
) -> bool {
    exists|ring: RingView<T>, middle: R|
        {
            &&& repaired_upto(before, k, dead, live, release, ring, middle)
            &&& blocks(slot_answer(ring, k, dead, live, middle).0)
            &&& #[trigger] slot_step(ring, k, dead, live, middle, after, released)
        }
}

/// Repairs the slots of a ring in turn, up to the first that cannot be.
pub fn recover_ring<T, R: Release<T>>(
    ring: &mut Ring<T>,
    dead: u8,
    live: u8,
    release: &mut R,
) -> (recovered: bool)
    requires
        dead < PARTICIPANT_CAPACITY,
        live < PARTICIPANT_CAPACITY,
        old(release).ready(),
    ensures
        final(release).ready(),
        final(ring)@.capacity() == old(ring)@.capacity(),
        final(ring)@.lap == old(ring)@.lap,
        if recovered {
            ring_repaired(
                old(ring)@,
                dead,
                live,
                *old(release),
                final(ring)@,
                *final(release),
            )
        } else {
            exists|k: int|
                0 <= k < old(ring)@.capacity() && #[trigger] stopped_at(
                    old(ring)@,
                    k,
                    dead,
                    live,
                    *old(release),
                    final(ring)@,
                    *final(release),
                )
        },
{
    let ghost before = ring@;
    let ghost start = *release;
    let mut index: usize = 0;
    while index < ring.slots.len()
        invariant
            before == old(ring)@,
            start == *old(release),
            dead < PARTICIPANT_CAPACITY,
            live < PARTICIPANT_CAPACITY,
            release.ready(),
            index <= ring.slots@.len(),
            ring@.capacity() == before.capacity(),
            ring@.lap == before.lap,
            repaired_upto(before, index as int, dead, live, start, ring@, *release),
        decreases ring.slots@.len() - index,
    {
        let ghost now = ring@;
        let ghost middle = *release;
        let answer = repair_slot_with(ring, index, dead, live, release);
        assert(slot_step(now, index as int, dead, live, middle, ring@, *release));
        match answer {
            Repair::Busy(_) => {
                assert(stopped_at(before, index as int, dead, live, start, ring@, *release));
                return false;
            },
            Repair::Corrupted => {
                assert(stopped_at(before, index as int, dead, live, start, ring@, *release));
                return false;
            },
            _ => {},
        }
        index = index + 1;
        assert(slot_step(now, index as int - 1, dead, live, middle, ring@, *release));
    }
    true
}

/// The words of the roles after a dead participant was taken out of them.
pub open spec fn role_recovered(word: u64, dead: u8) -> u64 {
    if super::role_owner(RoleWord(word)) == Some(dead) {
        super::role_left(RoleWord(word)).0
    } else {
        word
    }
}

/// The record and the extent are those of a channel of this kind.
pub open spec fn records<H: Repr>(info: Info, extent: u64, duplex: Duplex<H>) -> bool {
    Duplex::<H>::geometry_spec(info.capacity_spec()) matches Ok(geometry) && geometry.layout.size
        == extent
}

/// What the recovery of a channel answers and leaves: both rings repaired and
/// the roles taken from the dead participant, or the rings repaired up to the
/// slot at which it stopped.
pub open spec fn duplex_recovers<H: Repr, R: Release<Token<H>>>(
    before: Duplex<H>,
    after: Duplex<H>,
    info: Info,
    extent: u64,
    dead: u8,
    live: u8,
    release: R,
    released: R,
    recovered: bool,
) -> bool {
    &&& after.lifecycle == before.lifecycle
    &&& if !records(info, extent, before) {
        !recovered && after == before && released == release
    } else if recovered {
        &&& exists|middle: R|
            #[trigger] ring_repaired(before.left@, dead, live, release, after.left@, middle)
                && ring_repaired(before.right@, dead, live, middle, after.right@, released)
        &&& after.first_role == role_recovered(before.first_role, dead)
        &&& after.second_role == role_recovered(before.second_role, dead)
    } else {
        &&& after.first_role == before.first_role
        &&& after.second_role == before.second_role
        &&& (after.right@ == before.right@ && exists|k: int|
            #[trigger] stopped_at(before.left@, k, dead, live, release, after.left@, released))
            || (exists|middle: R, k: int|
            ring_repaired(before.left@, dead, live, release, after.left@, middle)
                && #[trigger] stopped_at(
                before.right@,
                k,
                dead,
                live,
                middle,
                after.right@,
                released,
            ))
    }
}

impl<H: Repr> Duplex<H> {
    /// Repairs both rings after a dead participant, gives back what its items
    /// held, and takes the roles from it.
    #[verifier::spinoff_prover]
    pub fn recover<R: Release<Token<H>>>(
        &mut self,
        info: &Info,
        extent: u64,
        dead: u8,
        live: u8,
        release: &mut R,
    ) -> (recovered: bool)
        requires
            dead < PARTICIPANT_CAPACITY,
            live < PARTICIPANT_CAPACITY,
            old(release).ready(),
        ensures
            final(release).ready(),
            duplex_recovers(
                *old(self),
                *final(self),
                *info,
                extent,
                dead,
                live,
                *old(release),
                *final(release),
                recovered,
            ),
    {
        match Duplex::<H>::geometry(info.capacity()) {
            Ok(geometry) => {
                if geometry.layout.size != extent {
                    return false;
                }
            },
            Err(_) => return false,
        }
        if !recover_ring(&mut self.left, dead, live, release) {
            return false;
        }
        let ghost middle = *release;
        assert(ring_repaired(
            old(self).left@,
            dead,
            live,
            *old(release),
            self.left@,
            middle,
        ));
        if !recover_ring(&mut self.right, dead, live, release) {
            return false;
        }
        recover_role(&mut self.first_role, dead);
        recover_role(&mut self.second_role, dead);
        assert(ring_repaired(old(self).left@, dead, live, *old(release), self.left@, middle));
        assert(ring_repaired(old(self).right@, dead, live, middle, self.right@, *release));
        assert(self.first_role == role_recovered(old(self).first_role, dead));
        assert(self.second_role == role_recovered(old(self).second_role, dead));
        true
    }
}

/// A participant that holds no turn of a ring, neither as the one that fills or
/// empties it nor as the one that repairs it.
pub open spec fn holds_no_turn<T>(ring: RingView<T>, participant: u8) -> bool {
    forall|i: int|
        0 <= i < ring.capacity() ==> !turn_of((#[trigger] ring.slots[i]).control, participant)
}

/// The participant holds the turn of a slot with this control word.
pub open spec fn turn_of(control: u16, participant: u8) -> bool {
    let side = crate::queue::control::base_of(control);
    &&& side == crate::queue::control::PRODUCER || side == crate::queue::control::CONSUMER
    &&& crate::queue::control::source_of(control) == participant + 1
        || crate::queue::control::reaper_of(control) == participant + 1
}

/// A channel in which a participant has no part: it holds neither role, and no
/// turn of either ring.
pub open spec fn has_no_part<H: Repr>(duplex: Duplex<H>, participant: u8) -> bool {
    &&& super::role_owner(duplex.role(0)) != Some(participant)
    &&& super::role_owner(duplex.role(1)) != Some(participant)
    &&& holds_no_turn(duplex.left@, participant)
    &&& holds_no_turn(duplex.right@, participant)
}

proof fn lemma_no_turn_left<T, R: Release<T>>(
    before: RingView<T>,
    dead: u8,
    live: u8,
    release: R,
    after: RingView<T>,
    released: R,
)
    requires
        ring_repaired(before, dead, live, release, after, released),
    ensures
        holds_no_turn(after, dead),
        after.head == before.head,
        after.tail == before.tail,
        after.lap == before.lap,
        after.capacity() == before.capacity(),
        forall|i: int|
            0 <= i < before.capacity() && !turn_of(before.slots[i].control, dead)
                ==> #[trigger] after.slots[i] == before.slots[i],
{
    law_recovery_frees_the_slots_of_the_dead(
        before,
        before.capacity(),
        dead,
        live,
        release,
        after,
        released,
    );
    assert forall|i: int| 0 <= i < after.capacity() implies !turn_of(
        (#[trigger] after.slots[i]).control,
        dead,
    ) by {
        assert(crate::queue::repair::mark(after.slots[i].control, dead, live) is Untouched);
    }
}

/// A channel that was recovered has forgotten the dead participant: it holds
/// neither role and no turn of either ring. A role that it held is open to the
/// next generation, unless it had ended or has none left; a role of anybody else,
/// and every turn of anybody else, is as it was, and so are the cursors.
pub proof fn law_recovered_channels_forget_the_dead<H: Repr, R: Release<Token<H>>>(
    before: Duplex<H>,
    after: Duplex<H>,
    info: Info,
    extent: u64,
    dead: u8,
    live: u8,
    release: R,
    released: R,
    k: int,
)
    requires
        duplex_recovers(before, after, info, extent, dead, live, release, released, true),
        k == 0 || k == 1,
    ensures
        has_no_part(after, dead),
        super::role_owner(before.role(k)) != Some(dead) ==> after.role(k) == before.role(k),
        super::role_owner(before.role(k)) == Some(dead) ==> {
            &&& super::role_owner(after.role(k)) is None
            &&& super::role_terminal(after.role(k)) <==> super::role_terminal(before.role(k))
                || super::role_generation(before.role(k)) == super::ROLE_MAX_GENERATION
            &&& !super::role_terminal(after.role(k)) ==> super::role_generation(after.role(k))
                == super::role_generation(before.role(k)) + 1
        },
        ({
            let ring = before.ring(k);
            let left = after.ring(k);
            &&& left.head == ring.head
            &&& left.tail == ring.tail
            &&& left.lap == ring.lap
            &&& left.capacity() == ring.capacity()
            &&& forall|i: int|
                0 <= i < ring.capacity() && !turn_of(ring.slots[i].control, dead)
                    ==> #[trigger] left.slots[i] == ring.slots[i]
        }),
{
    let middle = choose|middle: R|
        #[trigger] ring_repaired(before.left@, dead, live, release, after.left@, middle)
            && ring_repaired(before.right@, dead, live, middle, after.right@, released);
    lemma_no_turn_left(before.left@, dead, live, release, after.left@, middle);
    lemma_no_turn_left(before.right@, dead, live, middle, after.right@, released);
    super::law_roles_go_forward(before.role(0));
    super::law_roles_go_forward(before.role(1));
    let word = before.role(k);
    super::law_role_word_is_its_parts(word);
    super::law_role_word_round_trips(super::role_generation(word), None, true);
    if super::role_generation(word) < super::ROLE_MAX_GENERATION {
        super::law_role_word_round_trips((super::role_generation(word) + 1) as u64, None, false);
    }
}

/// Whoever survives a channel's other participant can invite another one once the
/// channel was recovered: the invitation is to the role of the dead, under a
/// generation that no invitation was to before.
pub proof fn law_survivors_invite_anew<H: Repr, R: Release<Token<H>>>(
    before: Duplex<H>,
    after: Duplex<H>,
    info: Info,
    extent: u64,
    dead: u8,
    live: u8,
    release: R,
    released: R,
    channel: super::role::Channel<H>,
    end: Duplex<H>,
    invited: Result<super::Port<H>, super::InviteError>,
)
    requires
        duplex_recovers(before, after, info, extent, dead, live, release, released, true),
        channel.wf(),
        channel.owner_spec() != dead,
        channel.is_held(before),
        !super::role_terminal(before.role(channel.index_spec())),
        super::role_owner(before.role(1 - channel.index_spec())) == Some(dead),
        !super::role_terminal(before.role(1 - channel.index_spec())),
        super::role_generation(before.role(1 - channel.index_spec())) + 1
            < super::ROLE_MAX_GENERATION,
        super::role::invites(channel, after, end, invited),
    ensures
        invited matches Ok(port) && port.role_spec() == 1 - channel.index_spec()
            && port.generation_spec() > super::role_generation(
            before.role(1 - channel.index_spec()),
        ) && super::role_owner(end.role(1 - channel.index_spec())) is None
            && super::role_generation(end.role(1 - channel.index_spec())) == port.generation_spec(),
{
    law_recovered_channels_forget_the_dead(
        before,
        after,
        info,
        extent,
        dead,
        live,
        release,
        released,
        channel.index_spec(),
    );
    law_recovered_channels_forget_the_dead(
        before,
        after,
        info,
        extent,
        dead,
        live,
        release,
        released,
        1 - channel.index_spec(),
    );
    let peer = 1 - channel.index_spec();
    let generation = super::role_generation(after.role(peer));
    super::law_role_word_round_trips((generation + 1) as u64, None, false);
}

/// After recovery no slot is the dead participant's, and slots that were not are
/// as they were.
pub proof fn law_recovery_frees_the_slots_of_the_dead<T, R: Release<T>>(
    before: RingView<T>,
    n: int,
    dead: u8,
    live: u8,
    release: R,
    after: RingView<T>,
    released: R,
)
    requires
        0 <= n <= before.capacity(),
        repaired_upto(before, n, dead, live, release, after, released),
    ensures
        after.head == before.head,
        after.tail == before.tail,
        after.lap == before.lap,
        after.capacity() == before.capacity(),
        forall|i: int| n <= i < before.capacity() ==> #[trigger] after.slots[i] == before.slots[i],
        forall|i: int|
            0 <= i < n ==> crate::queue::repair::mark(
                (#[trigger] after.slots[i]).control,
                dead,
                live,
            ) is Untouched,
        forall|i: int|
            0 <= i < n && crate::queue::repair::mark(
                before.slots[i].control,
                dead,
                live,
            ) is Untouched ==> #[trigger] after.slots[i] == before.slots[i],
    decreases n,
{
    if n > 0 {
        let (ring, middle) = choose|ring: RingView<T>, middle: R|
            {
                &&& repaired_upto(before, n - 1, dead, live, release, ring, middle)
                &&& !blocks(slot_answer(ring, n - 1, dead, live, middle).0)
                &&& #[trigger] slot_step(ring, n - 1, dead, live, middle, after, released)
            };
        law_recovery_frees_the_slots_of_the_dead(
            before,
            n - 1,
            dead,
            live,
            release,
            ring,
            middle,
        );
        let slot = ring.slots[n - 1];
        assert(slot == before.slots[n - 1]);
        lemma_answered(ring, n - 1, dead, live, middle);
    }
}

/// A slot that does not keep recovery from going on is no longer the dead's.
proof fn lemma_answered<T, R: Release<T>>(
    ring: RingView<T>,
    i: int,
    dead: u8,
    live: u8,
    release: R,
)
    requires
        !blocks(slot_answer(ring, i, dead, live, release).0),
    ensures
        crate::queue::repair::mark(
            slot_answer(ring, i, dead, live, release).1.control,
            dead,
            live,
        ) is Untouched,
        crate::queue::repair::mark(ring.slots[i].control, dead, live) is Untouched
            ==> slot_answer(ring, i, dead, live, release).1 == ring.slots[i],
{
}

} // verus!
