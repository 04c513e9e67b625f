//! What sessions leave for each other: channels, pools, and a region in which a
//! dead participant was reaped.

use super::layouts::{Layouts, Objects};
use super::objects::Pools;
use crate::channel::duplex::{Duplex, Geometry, GeometryError};
use crate::header::layout::{RcHeader, RecoveryHandler};
use crate::header::root::Member;
use crate::mem::Region;
use crate::msg::Repr;
use crate::pool::block::PoolRef;
use crate::pool::storage::Storage;
use crate::token::Token;
use vstd::prelude::*;

verus! {

/// No block of the pool is held by the participant.
pub open spec fn unowned(contents: crate::pool::storage::StorageView, dead: u8) -> bool {
    forall|c: int, s: int|
        contents.has(c, s) ==> crate::pool::state::authority_of(#[trigger] contents.word(c, s))
            != crate::pool::state::Authority::Local(dead)
}

/// The participant has no part any more in the pool at the place `i`.
pub open spec fn pool_forgets(pools: Pools, i: int, dead: u8) -> bool {
    let header = pools.stored@[i].header;
    &&& !crate::header::layout::is_member(header.members, dead)
    &&& header.inner matches Some(storage) && unowned(storage@, dead)
}

/// The participant has no part any more in the layout at an offset.
pub open spec fn forgets<H: Repr>(objects: Objects<H>, offset: u64, dead: u8) -> bool {
    match super::objects::first_at(objects.pools.stored@, offset, 0) {
        Some(i) => pool_forgets(objects.pools, i, dead),
        None => match super::objects::first_at(objects.channels@, offset, 0) {
            Some(i) => channel_forgets(objects.channels@[i], dead),
            None => false,
        },
    }
}

/// The participant has no part any more in a channel: it is no member of it, and
/// holds neither a role nor a turn of its rings.
pub open spec fn channel_forgets<H: Repr>(
    stored: super::objects::Stored<Duplex<H>>,
    dead: u8,
) -> bool {
    &&& !crate::header::layout::is_member(stored.header.members, dead)
    &&& stored.header.inner matches Some(duplex) && crate::channel::recovery::has_no_part(
        duplex,
        dead,
    )
}

/// No pool moved, and none that the participant has no part in has it a part in
/// afterwards.
pub open spec fn pools_kept(before: Pools, after: Pools, dead: u8) -> bool {
    &&& super::objects::same_places(before.stored@, after.stored@)
    &&& after.wf()
    &&& forall|i: int|
        0 <= i < before.stored@.len() && pool_forgets(before, i, dead) ==> #[trigger] pool_forgets(
            after,
            i,
            dead,
        )
}

pub(crate) proof fn lemma_given_back_keeps(
    before: Pools,
    after: Pools,
    token: crate::token::PoolToken,
    owner: Option<u8>,
    dead: u8,
)
    requires
        before.wf(),
        super::objects::given_back(before, after, token, owner),
    ensures
        pools_kept(before, after, dead),
{
    let place = before.place_of(token.pool());
    super::objects::lemma_first_at(before.stored@, token.pool().offset, 0);
    assert forall|i: int| 0 <= i < before.stored@.len() implies {
        let header = (#[trigger] after.stored@[i]).header;
        &&& after.stored@[i].at == before.stored@[i].at
        &&& header.wf()
        &&& header.inner matches Some(storage) ==> storage@.wf()
        &&& pool_forgets(before, i, dead) ==> pool_forgets(after, i, dead)
    } by {
        if place == Some(i) && after.stored@[i] != before.stored@[i] {
            let contents = (before.stored@[i].header.inner->0)@;
            let now = (after.stored@[i].header.inner->0)@;
            if crate::pool::storage::token_holds(contents, token) && before.gives_back(
                token,
                owner,
            ) {
                crate::pool::state::law_authority_round_trips(token.generation(), 0);
                let c = token.span().class as int;
                let s = token.span().slot as int;
                assert(now.wf());
                assert forall|x: int, y: int| now.has(x, y) && unowned(contents, dead) implies
                    crate::pool::state::authority_of(#[trigger] now.word(x, y))
                    != crate::pool::state::Authority::Local(dead) by {
                    assert(contents.has(x, y));
                    assert(x == c && y == s || now.word(x, y) == contents.word(x, y));
                }
            }
        }
    }
    assert forall|i: int|
        0 <= i < before.stored@.len() && pool_forgets(before, i, dead) implies #[trigger] pool_forgets(
        after,
        i,
        dead,
    ) by {
        assert(after.stored@[i].header == after.stored@[i].header);
    }
}

proof fn lemma_pools_kept_twice(first: Pools, second: Pools, third: Pools, dead: u8)
    requires
        pools_kept(first, second, dead),
        pools_kept(second, third, dead),
    ensures
        pools_kept(first, third, dead),
{
    assert forall|i: int| 0 <= i < first.stored@.len() implies (#[trigger] third.stored@[i]).at
        == first.stored@[i].at by {
        assert(second.stored@[i].at == first.stored@[i].at);
    }
    assert forall|i: int|
        0 <= i < first.stored@.len() && pool_forgets(first, i, dead) implies #[trigger] pool_forgets(
        third,
        i,
        dead,
    ) by {
        assert(pool_forgets(second, i, dead));
    }
}

proof fn lemma_slot_keeps<H: Repr>(
    ring: crate::queue::ring::RingView<Token<H>>,
    i: int,
    dead: u8,
    live: u8,
    pools: Pools,
    after: crate::queue::ring::RingView<Token<H>>,
    released: Pools,
)
    requires
        pools.wf(),
        crate::channel::recovery::slot_step(ring, i, dead, live, pools, after, released),
    ensures
        pools_kept(pools, released, dead),
{
    let slot = ring.slots[i];
    if crate::queue::repair::repair_releases(ring.head, ring.tail, slot, dead, live) {
        lemma_given_back_keeps(
            pools,
            released,
            (slot.value->0).token(),
            Some(crate::channel::recovery::item_owner(slot)),
            dead,
        );
    }
}

proof fn lemma_repair_keeps<H: Repr>(
    before: crate::queue::ring::RingView<Token<H>>,
    n: int,
    dead: u8,
    live: u8,
    pools: Pools,
    after: crate::queue::ring::RingView<Token<H>>,
    released: Pools,
)
    requires
        pools.wf(),
        crate::channel::recovery::repaired_upto(before, n, dead, live, pools, after, released),
    ensures
        pools_kept(pools, released, dead),
    decreases n,
{
    if n > 0 {
        let (ring, middle) = choose|
            ring: crate::queue::ring::RingView<Token<H>>,
            middle: Pools,
        |
            {
                &&& crate::channel::recovery::repaired_upto(
                    before,
                    n - 1,
                    dead,
                    live,
                    pools,
                    ring,
                    middle,
                )
                &&& !crate::channel::recovery::blocks(
                    crate::channel::recovery::slot_answer(ring, n - 1, dead, live, middle).0,
                )
                &&& #[trigger] crate::channel::recovery::slot_step(
                    ring,
                    n - 1,
                    dead,
                    live,
                    middle,
                    after,
                    released,
                )
            };
        lemma_repair_keeps(before, n - 1, dead, live, pools, ring, middle);
        lemma_slot_keeps(ring, n - 1, dead, live, middle, after, released);
        lemma_pools_kept_twice(pools, middle, released, dead);
    }
}

/// A channel that was recovered leaves the pools to those who have a part in
/// them.
proof fn lemma_channel_keeps<H: Repr>(
    before: Duplex<H>,
    after: Duplex<H>,
    info: crate::channel::Info,
    extent: u64,
    dead: u8,
    live: u8,
    pools: Pools,
    released: Pools,
)
    requires
        pools.wf(),
        crate::channel::recovery::duplex_recovers(
            before,
            after,
            info,
            extent,
            dead,
            live,
            pools,
            released,
            true,
        ),
    ensures
        pools_kept(pools, released, dead),
{
    let middle = choose|middle: Pools|
        #[trigger] crate::channel::recovery::ring_repaired(
            before.left@,
            dead,
            live,
            pools,
            after.left@,
            middle,
        ) && crate::channel::recovery::ring_repaired(
            before.right@,
            dead,
            live,
            middle,
            after.right@,
            released,
        );
    lemma_repair_keeps(
        before.left@,
        before.left@.capacity() as int,
        dead,
        live,
        pools,
        after.left@,
        middle,
    );
    lemma_repair_keeps(
        before.right@,
        before.right@.capacity() as int,
        dead,
        live,
        middle,
        after.right@,
        released,
    );
    lemma_pools_kept_twice(pools, middle, released, dead);
}

/// A visit that recovers the layout at an offset ends the participant's part in
/// it, and gives it no part in another.
#[verifier::spinoff_prover]
proof fn lemma_visit<H: Repr>(
    before: Objects<H>,
    after: Objects<H>,
    all: Seq<RecoveryHandler>,
    region: Region,
    offset: u64,
    dead: u8,
    live: u8,
    other: u64,
)
    requires
        before.wf(),
        super::scan::visits(before, after, all, region, offset, dead, live, true),
    ensures
        after.wf(),
        forgets(after, offset, dead),
        forgets(before, other, dead) ==> forgets(after, other, dead),
{
    let recorded = before.recorded_spec(region, offset)->0;
    let handler = super::scan::handler_for(all, recorded)->0;
    assert(before.recovers(handler, region, offset, dead, live, &after, true));
    super::objects::lemma_first_at(before.pools.stored@, offset, 0);
    super::objects::lemma_first_at(before.channels@, offset, 0);
    super::objects::lemma_first_at(before.pools.stored@, other, 0);
    super::objects::lemma_first_at(before.channels@, other, 0);
    match super::objects::first_at(before.pools.stored@, offset, 0) {
        Some(i) => {
            let was = before.pools.stored@[i];
            let now = after.pools.stored@[i];
            let contents = (was.header.inner->0)@;
            let left = (now.header.inner->0)@;
            assert(super::layouts::pool_freed(contents, left, dead));
            assert forall|c: int, s: int| left.has(c, s) implies crate::pool::state::authority_of(
                #[trigger] left.word(c, s),
            ) != crate::pool::state::Authority::Local(dead) by {
                let word = contents.word(c, s);
                assert(contents.has(c, s));
                assert(left.word(c, s) == crate::pool::storage::freed(word, dead));
                crate::pool::state::law_authority_round_trips(
                    crate::pool::state::generation_of(word),
                    0,
                );
            }
            assert(pool_forgets(after.pools, i, dead));
            assert(super::objects::same_places(before.pools.stored@, after.pools.stored@));
            super::objects::lemma_same_places(before.pools.stored@, after.pools.stored@, offset, 0);
            super::objects::lemma_same_places(before.pools.stored@, after.pools.stored@, other, 0);
            assert forall|k: int| 0 <= k < after.pools.stored@.len() implies {
                let header = (#[trigger] after.pools.stored@[k]).header;
                header.wf() && (header.inner matches Some(storage) ==> storage@.wf())
            } by {
                assert(k == i || after.pools.stored@[k] == before.pools.stored@[k]);
            }
        },
        None => {
            let i = super::objects::first_at(before.channels@, offset, 0)->0;
            let was = before.channels@[i];
            let now = after.channels@[i];
            lemma_channel_keeps(
                was.header.inner->0,
                now.header.inner->0,
                was.header.info->0,
                was.header.record@.layout_value().extent,
                dead,
                live,
                before.pools,
                after.pools,
            );
            crate::channel::recovery::law_recovered_channels_forget_the_dead(
                was.header.inner->0,
                now.header.inner->0,
                was.header.info->0,
                was.header.record@.layout_value().extent,
                dead,
                live,
                before.pools,
                after.pools,
                0,
            );
            assert(super::objects::same_places(before.channels@, after.channels@));
            super::objects::lemma_same_places(before.channels@, after.channels@, offset, 0);
            super::objects::lemma_same_places(before.channels@, after.channels@, other, 0);
            super::objects::lemma_same_places(before.pools.stored@, after.pools.stored@, offset, 0);
            super::objects::lemma_same_places(before.pools.stored@, after.pools.stored@, other, 0);
            assert forall|k: int| 0 <= k < after.channels@.len() implies (
            #[trigger] after.channels@[k]).header.wf() by {
                assert(k == i || after.channels@[k] == before.channels@[k]);
            }
        },
    }
}

proof fn lemma_passed<H: Repr>(
    view: crate::dir::DirView,
    n: int,
    before: Objects<H>,
    after: Objects<H>,
    all: Seq<RecoveryHandler>,
    region: Region,
    dead: u8,
    live: u8,
)
    requires
        before.wf(),
        n <= view.entries.len(),
        super::scan::passed(view, n, before, after, all, region, dead, live),
    ensures
        after.wf(),
        forall|p: int|
            0 <= p < n && super::scan::is_published(#[trigger] view.entries[p]) ==> forgets(
                after,
                view.entries[p].offset,
                dead,
            ),
    decreases n,
{
    if n > 0 {
        let middle = choose|middle: Objects<H>|
            super::scan::passed(view, n - 1, before, middle, all, region, dead, live)
                && #[trigger] super::scan::passes(
                view,
                n - 1,
                middle,
                after,
                all,
                region,
                dead,
                live,
            );
        lemma_passed(view, n - 1, before, middle, all, region, dead, live);
        let entry = view.entries[n - 1];
        if !super::scan::idle(entry) {
            lemma_visit(middle, after, all, region, entry.offset, dead, live, entry.offset);
            assert forall|p: int|
                0 <= p < n && super::scan::is_published(#[trigger] view.entries[p]) implies forgets(
                after,
                view.entries[p].offset,
                dead,
            ) by {
                if p < n - 1 {
                    lemma_visit(
                        middle,
                        after,
                        all,
                        region,
                        entry.offset,
                        dead,
                        live,
                        view.entries[p].offset,
                    );
                }
            }
        }
    }
}

/// A scan that recovers every layout leaves none of them with a part of the dead
/// participant: it is a member of none, no block of a pool is its own, and it
/// holds no role of a channel and no turn of its rings.
pub proof fn law_recovered_layouts_forget_the_dead<H: Repr>(
    view: crate::dir::DirView,
    before: Objects<H>,
    after: Objects<H>,
    given: Seq<RecoveryHandler>,
    region: Region,
    dead: u8,
    live: u8,
)
    requires
        before.wf(),
        super::scan::scans(view, before, after, given, region, dead, live, true),
    ensures
        after.wf(),
        forall|p: int|
            0 <= p < view.entries.len() && super::scan::is_published(#[trigger] view.entries[p])
                ==> forgets(after, view.entries[p].offset, dead),
{
    let told = choose|told: Objects<H>|
        {
            &&& #[trigger] before.told(
                super::scan::offsets_from(view, before, region, 0),
                &told,
            )
            &&& super::scan::walks(
                view,
                told,
                after,
                super::scan::all_handlers(given),
                region,
                dead,
                live,
                true,
            )
        };
    assert(told.wf());
    lemma_passed(
        view,
        view.entries.len() as int,
        told,
        after,
        super::scan::all_handlers(given),
        region,
        dead,
        live,
    );
}

/// A participant's word is freed only where every published layout was recovered
/// and has forgotten it: until then it stays dead, and its authority is not given
/// to another.
pub proof fn law_participants_are_released_last<H: Repr>(
    before: super::Shared,
    after: super::Shared,
    objects: Objects<H>,
    left: Objects<H>,
    region: Region,
    member: Member,
    given: Seq<RecoveryHandler>,
    done: bool,
)
    requires
        objects.wf(),
        super::reap::reaps(before, after, objects, left, region, member, given, done),
    ensures
        done ==> {
            &&& (before.root.inner->0).is(member, crate::header::root::MEMBER_DEAD)
            &&& !crate::header::layout::is_member(after.directory.members, member.slot)
            &&& !crate::header::layout::is_member(after.heap.members, member.slot)
            &&& forall|p: int|
                0 <= p < after.dir().entries.len() && super::scan::is_published(
                    #[trigger] after.dir().entries[p],
                ) ==> forgets(left, after.dir().entries[p].offset, member.slot)
        },
        !done ==> after.words() == before.words(),
{
    if done {
        let live = region.member.slot;
        let middle = choose|middle: Objects<H>|
            {
                &&& #[trigger] super::scan::scans(
                    after.dir(),
                    objects,
                    middle,
                    given,
                    region,
                    member.slot,
                    live,
                    true,
                )
                &&& super::scan::scans(
                    after.dir(),
                    middle,
                    left,
                    given,
                    region,
                    member.slot,
                    live,
                    true,
                )
            };
        law_recovered_layouts_forget_the_dead(
            after.dir(),
            objects,
            middle,
            given,
            region,
            member.slot,
            live,
        );
        law_recovered_layouts_forget_the_dead(
            after.dir(),
            middle,
            left,
            given,
            region,
            member.slot,
            live,
        );
    }
}

/// A channel that was created stands where the directory publishes it, in memory
/// of its own and with nothing in its rings: its creator can remove it.
pub proof fn law_created_channels_can_be_removed<H: Repr>(
    before: super::Shared,
    after: super::Shared,
    region: Region,
    capacity: u64,
    channel: crate::channel::role::Channel<H>,
    port: crate::channel::Port<H>,
    stored: super::objects::Stored<Duplex<H>>,
    geometry: Geometry,
)
    requires
        super::steady(before, region),
        Duplex::<H>::geometry_spec(capacity) == Ok::<Geometry, GeometryError>(
            geometry,
        ),
        super::work::channel_creates(
            before,
            after,
            region,
            capacity,
            super::work::NewChannel::<H>::Ok((channel, port, stored)),
        ),
    ensures
        after.dir().published(region.region, channel.id_spec().inner) == Some(stored.at),
        stored.header.region == region.region,
        stored.header.offset == stored.at,
        stored.header.members == crate::header::layout::with_member(
            0,
            Some(region.member.slot),
        ),
        stored.header.inner matches Some(duplex) && duplex.ordered(),
        crate::dir::remove::occupies(
            after.dir(),
            after.talc(),
            region,
            channel.id_spec().inner,
            geometry.layout,
        ),
{
    crate::channel::duplex::lemma_channel_extent::<H>(capacity);
    let made = choose|made: (crate::dir::Id, RcHeader<Duplex<H>>)|
        {
            &&& #[trigger] crate::dir::create::creates::<Duplex<H>>(
                before.dir(),
                after.dir(),
                before.talc(),
                after.talc(),
                region,
                capacity,
                geometry.layout,
                Ok(made),
            )
            &&& channel.id_spec().inner == made.0
            &&& stored.at == made.1.offset
            &&& super::same_header(made.1, stored.header)
            &&& stored.header.members == made.1.members
            &&& stored.header.inner matches Some(duplex) && duplex.same_rings(made.1.inner->0)
        };
    crate::dir::laws::law_created_layouts_occupy_their_memory::<Duplex<H>>(
        before.dir(),
        after.dir(),
        before.talc(),
        after.talc(),
        region,
        capacity,
        geometry.layout,
        made,
        made.0,
    );
    crate::channel::duplex::law_blank_channels_are_empty(made.1.inner->0, capacity);
}

/// A channel that was removed has no name any more, and an invitation to it is
/// refused; every other name means what it meant.
pub proof fn law_removed_channels_are_gone<H: Repr>(
    before: super::Shared,
    after: super::Shared,
    region: Region,
    objects: Objects<H>,
    left: Objects<H>,
    channel: crate::channel::role::Channel<H>,
    unique: bool,
    other: crate::dir::Id,
)
    requires
        before.wf(),
        super::remove::removes_channel(
            before,
            after,
            region,
            objects,
            left,
            channel,
            unique,
            Ok::<(), super::channels::RemoveError<H>>(()),
        ),
    ensures
        unique,
        after.dir().published(region.region, channel.id_spec().inner) is None,
        forall|
            channels: Seq<super::objects::Stored<Duplex<H>>>,
            kept: Seq<super::objects::Stored<Duplex<H>>>,
            port: crate::channel::Port<H>,
            adopted: Result<crate::channel::role::Channel<H>, super::channels::AdmitError<H>>,
        |
            port.id_spec().inner == channel.id_spec().inner && #[trigger] super::channels::adopts(
                after,
                region,
                channels,
                kept,
                port,
                adopted,
            ) ==> adopted is Err && kept == channels,
        (other.slab != channel.id_spec().inner.slab || other.entry
            != channel.id_spec().inner.entry) ==> after.dir().published(region.region, other)
            == before.dir().published(region.region, other),
{
    let place = super::remove::own_place(before, region, channel, objects.channels@)->0;
    let (told, stored, closed) = choose|
        told: Objects<H>,
        stored: super::objects::Stored<Duplex<H>>,
        closed: Result<(), crate::channel::CloseError<Token<H>>>,
    |
        {
            &&& #[trigger] super::remove::closes_for_good(
                told.channels@[place],
                stored,
                told.pools,
                left.pools,
                channel,
                closed,
            )
            &&& super::remove::removes_closed(
                before,
                after,
                region,
                told,
                left,
                place,
                stored,
                channel,
                closed,
                Ok::<(), super::channels::RemoveError<H>>(()),
            )
        };
    let (header, done) = choose|header: RcHeader<Duplex<H>>, done: bool|
        {
            &&& #[trigger] super::remove::takes_out(
                before,
                after,
                region,
                channel,
                stored.header,
                header,
                done,
            )
            &&& done
        };
    lemma_taken_out(before, after, region, channel, stored.header, header, other);
}

/// A channel that was taken out of the directory has no name any more.
proof fn lemma_taken_out<H: Repr>(
    before: super::Shared,
    after: super::Shared,
    region: Region,
    channel: crate::channel::role::Channel<H>,
    header: RcHeader<Duplex<H>>,
    header_after: RcHeader<Duplex<H>>,
    other: crate::dir::Id,
)
    requires
        before.wf(),
        super::remove::takes_out(before, after, region, channel, header, header_after, true),
    ensures
        after.dir().published(region.region, channel.id_spec().inner) is None,
        (other.slab != channel.id_spec().inner.slab || other.entry
            != channel.id_spec().inner.entry) ==> after.dir().published(region.region, other)
            == before.dir().published(region.region, other),
{
    let geometry = Duplex::<H>::geometry_spec(channel.id_spec().capacity)->Ok_0;
    crate::dir::remove::law_removed_layouts_are_gone(
        before.dir(),
        after.dir(),
        before.talc(),
        after.talc(),
        header,
        header_after,
        before.heap.info->0,
        region,
        channel.id_spec().inner,
        geometry.layout,
        other,
    );
}

/// Where a channel is not removed it goes back to the one who asked; where a
/// token that was queued in it was not taken back by its pool the token goes back
/// too, and the directory and the heap are as they were.
pub proof fn law_refused_removals_return_the_channel<H: Repr>(
    before: super::Shared,
    after: super::Shared,
    region: Region,
    objects: Objects<H>,
    left: Objects<H>,
    channel: crate::channel::role::Channel<H>,
    unique: bool,
    error: super::channels::RemoveError<H>,
)
    requires
        super::remove::removes_channel(
            before,
            after,
            region,
            objects,
            left,
            channel,
            unique,
            Err::<(), super::channels::RemoveError<H>>(error),
        ),
    ensures
        match error {
            super::channels::RemoveError::Busy(returned) => returned == channel,
            super::channels::RemoveError::Evidence(returned, _) => returned == channel && after
                == before,
        },
{
}

/// A pool that one session created opens for another session that maps the region
/// alike, while the directory publishes it: as the same pool, with the range, the
/// classes and the blocks that it has.
pub proof fn law_created_pools_open_for_other_sessions(
    before: super::Shared,
    after: super::Shared,
    region: Region,
    extent: u64,
    range: Option<crate::pool::geometry::BlockRange>,
    id: crate::pool::shared::PoolId,
    header: RcHeader<Storage>,
    shared: super::Shared,
    other: Region,
    pools: Pools,
    left: Pools,
    i: int,
    opened: Result<PoolRef, super::work::OpenPoolError>,
)
    requires
        super::steady(before, region),
        crate::pool::shared::pool_creates(
            before.dir(),
            after.dir(),
            before.talc(),
            after.talc(),
            region,
            region.region,
            extent,
            range,
            Ok::<_, crate::pool::geometry::PoolCreateError>((id, header)),
        ),
        shared.dir().published(region.region, id.id_spec()) == after.dir().published(
            region.region,
            id.id_spec(),
        ),
        crate::pool::shared::mapped_alike(
            region,
            other,
            header.record@.layout_value().extent_align,
        ),
        super::objects::first_at(pools.stored@, header.offset, 0) == Some(i),
        pools.stored@[i].header.same_fields(header),
        pools.stored@[i].header.record@ == header.record@,
        crate::header::layout::claimable(
            pools.stored@[i].header.members,
            Some(other.member.slot),
        ) is None,
        super::work::session_opens_pool(shared, other, id, pools, left, opened),
    ensures
        opened == Ok::<PoolRef, super::work::OpenPoolError>(
            PoolRef {
                id: crate::schema::LayoutId { region: header.region, offset: header.offset },
                owner: other.member.slot,
            },
        ),
        left.stored@[i].header.inner == pools.stored@[i].header.inner,
{
    lemma_created_pool_is_published(
        before,
        after,
        region,
        extent,
        range,
        id,
        header,
    );
    crate::pool::shared::law_created_pools_open_for_others(
        before.dir(),
        after.dir(),
        before.talc(),
        after.talc(),
        region,
        extent,
        range,
        id,
        header,
        shared.directory.inner->0,
        other,
        pools.stored@[i].header,
        left.stored@[i].header,
        match opened {
            Ok(pool) => Some(pool),
            Err(_) => None,
        },
    );
}

proof fn lemma_created_pool_is_published(
    before: super::Shared,
    after: super::Shared,
    region: Region,
    extent: u64,
    range: Option<crate::pool::geometry::BlockRange>,
    id: crate::pool::shared::PoolId,
    header: RcHeader<Storage>,
)
    requires
        super::steady(before, region),
        crate::pool::shared::pool_creates(
            before.dir(),
            after.dir(),
            before.talc(),
            after.talc(),
            region,
            region.region,
            extent,
            range,
            Ok::<_, crate::pool::geometry::PoolCreateError>((id, header)),
        ),
    ensures
        after.dir().published(region.region, id.id_spec()) == Some(header.offset),
{
    let geometry = choose|geometry: crate::pool::geometry::Geometry|
        crate::pool::geometry::creates(
            extent,
            range,
            Ok::<_, crate::pool::geometry::PoolCreateError>(geometry),
        ) && #[trigger] crate::dir::create::creates::<Storage>(
            before.dir(),
            after.dir(),
            before.talc(),
            after.talc(),
            region,
            crate::pool::shared::config_of(geometry),
            geometry.layout,
            Ok((id.id_spec(), header)),
        );
    crate::pool::geometry::lemma_created(extent, range, geometry);
    crate::dir::laws::law_created_layouts_occupy_their_memory::<Storage>(
        before.dir(),
        after.dir(),
        before.talc(),
        after.talc(),
        region,
        crate::pool::shared::config_of(geometry),
        geometry.layout,
        (id.id_spec(), header),
        id.id_spec(),
    );
}

/// A pool of another region is unavailable, and its name goes back.
pub proof fn law_pools_of_other_regions_are_unavailable(
    shared: super::Shared,
    region: Region,
    id: crate::pool::shared::PoolId,
    pools: Pools,
    left: Pools,
    opened: Result<PoolRef, super::work::OpenPoolError>,
)
    requires
        id.id_spec().region != region.region,
        super::work::session_opens_pool(shared, region, id, pools, left, opened),
    ensures
        opened == Err::<PoolRef, super::work::OpenPoolError>(
            super::work::OpenPoolError::Unavailable(id),
        ),
        left == pools,
{
}

} // verus!
