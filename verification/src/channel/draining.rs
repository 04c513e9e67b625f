//! What becomes of the blocks that lie in a channel when it is closed.

use crate::msg::Repr;
use crate::queue::order::Entry;
use crate::queue::repair::Release;
use crate::queue::ring::RingView;
use crate::session::objects::{Pools, Sent};
use crate::token::{PoolToken, Token};
use vstd::prelude::*;

verus! {

/// Draining takes the first items out, one after the other, and leaves the rest.
pub proof fn law_draining_takes_the_first_items<T, R: Release<T>>(
    before: RingView<T>,
    owner: u8,
    n: nat,
    release: R,
    after: RingView<T>,
    released: R,
)
    requires
        before.ordered(),
        owner < crate::header::PARTICIPANT_CAPACITY,
        super::close::drained(before, owner, n, release, after, released),
    ensures
        after.ordered(),
        n <= before.contents().len(),
        after.contents() == before.contents().skip(n as int),
        forall|k: int| 0 <= k < n ==> (#[trigger] before.contents()[k]) is Item,
    decreases n,
{
    if n > 0 {
        let (ring, middle) = choose|ring: RingView<T>, middle: R|
            {
                &&& super::close::drained(before, owner, (n - 1) as nat, release, ring, middle)
                &&& #[trigger] super::close::drain_step(ring, owner, middle, after, released)
            };
        law_draining_takes_the_first_items(
            before,
            owner,
            (n - 1) as nat,
            release,
            ring,
            middle,
        );
        crate::queue::lifecycle::law_received_items_come_first(ring, owner);
        assert(ring.contents()[0] == before.contents()[n - 1]);
        assert(after.contents() =~= before.contents().skip(n as int));
    } else {
        assert(before.contents().skip(0) =~= before.contents());
    }
}

/// The block of a token is still lent out under it: the region has its pool, and
/// the block is in the token's use.
pub open spec fn is_lent(pools: Pools, token: PoolToken) -> bool {
    pools.place_of(token.pool()) matches Some(i) && crate::pool::storage::token_holds(
        (pools.stored@[i].header.inner->0)@,
        token,
    )
}

/// A block that was freed is in no token's use, and no other block's use changes.
proof fn lemma_block_freed(
    contents: crate::pool::storage::StorageView,
    token: PoolToken,
    other: PoolToken,
)
    requires
        contents.wf(),
        crate::pool::storage::token_holds(contents, token),
    ensures
        ({
            let now = contents.with_word(
                token.span().class as int,
                token.span().slot as int,
                crate::pool::state::free_spec(token.generation()),
            );
            &&& !crate::pool::storage::token_holds(now, token)
            &&& crate::pool::storage::token_holds(now, other)
                ==> crate::pool::storage::token_holds(contents, other)
        }),
{
    let c = token.span().class as int;
    let s = token.span().slot as int;
    crate::pool::state::law_authority_is_its_word(contents.word(c, s));
    crate::pool::state::law_authority_round_trips(token.generation(), 0);
    assert(contents.words[c].len() == contents.classes[c].slots);
    let d = other.span().class as int;
    let t = other.span().slot as int;
    if contents.has(d, t) {
        assert(contents.words[d].len() == contents.classes[d].slots);
    }
}

/// Giving a block back ends its use, and begins no other.
#[verifier::spinoff_prover]
proof fn lemma_given_back(
    before: Pools,
    after: Pools,
    token: PoolToken,
    owner: Option<u8>,
    other: PoolToken,
)
    requires
        before.wf(),
        crate::session::objects::given_back(before, after, token, owner),
    ensures
        before.gives_back(token, owner) ==> !is_lent(after, token),
        is_lent(after, other) ==> is_lent(before, other),
        after.wf(),
{
    crate::session::laws::lemma_given_back_keeps(before, after, token, owner, 0);
    lemma_same_place(before, after, token.pool(), token, owner);
    lemma_same_place(before, after, other.pool(), token, owner);
    lemma_lent_at(before, after, token, owner, token);
    lemma_lent_at(before, after, token, owner, other);
}

#[verifier::spinoff_prover]
proof fn lemma_lent_at(
    before: Pools,
    after: Pools,
    token: PoolToken,
    owner: Option<u8>,
    other: PoolToken,
)
    requires
        before.wf(),
        crate::session::objects::given_back(before, after, token, owner),
        after.place_of(token.pool()) == before.place_of(token.pool()),
        after.place_of(other.pool()) == before.place_of(other.pool()),
    ensures
        is_lent(after, other) ==> is_lent(before, other),
        before.gives_back(token, owner) ==> !is_lent(after, token),
{
    crate::session::objects::lemma_first_at(before.stored@, token.pool().offset, 0);
    crate::session::objects::lemma_first_at(before.stored@, other.pool().offset, 0);
    if before.place_of(token.pool()) is Some {
        let i = before.place_of(token.pool())->0;
        assert(0 <= i < before.stored@.len());
        assert(before.stored@[i].header.wf());
        assert(before.stored@[i].header.inner is Some);
        let contents = (before.stored@[i].header.inner->0)@;
        if crate::pool::storage::token_holds(contents, token) {
            lemma_block_freed(contents, token, other);
        }
    }
    if before.place_of(other.pool()) is Some && before.place_of(other.pool()) != before.place_of(
        token.pool(),
    ) {
        let j = before.place_of(other.pool())->0;
        assert(after.stored@[j] == before.stored@[j]);
    }
}

/// Pools lie where they lay, and can be read as they could.
proof fn lemma_same_place(
    before: Pools,
    after: Pools,
    pool: crate::schema::LayoutId,
    token: PoolToken,
    owner: Option<u8>,
)
    requires
        before.wf(),
        crate::session::objects::given_back(before, after, token, owner),
        crate::session::objects::same_places(before.stored@, after.stored@),
    ensures
        after.place_of(pool) == before.place_of(pool),
{
    crate::session::objects::lemma_first_at(before.stored@, pool.offset, 0);
    crate::session::objects::lemma_same_places(before.stored@, after.stored@, pool.offset, 0);
    if crate::session::objects::first_at(before.stored@, pool.offset, 0) is Some {
        let i = crate::session::objects::first_at(before.stored@, pool.offset, 0)->0;
        if before.place_of(token.pool()) != Some(i) {
            assert(after.stored@[i] == before.stored@[i]);
        } else {
            assert(crate::session::objects::readable(after.stored@[i], before.region)
                == crate::session::objects::readable(before.stored@[i], before.region));
        }
    }
}

/// Every block that was sent and not received goes back to its pool when the
/// direction is drained: none of them is lent out under its token any more.
pub proof fn law_drained_blocks_go_back<H: Repr>(
    before: RingView<Token<H>>,
    owner: u8,
    n: nat,
    release: Sent,
    after: RingView<Token<H>>,
    released: Sent,
    k: int,
)
    requires
        before.ordered(),
        owner < crate::header::PARTICIPANT_CAPACITY,
        release.0.wf(),
        super::close::drained(before, owner, n, release, after, released),
        0 <= k < n,
    ensures
        released.0.wf(),
        before.contents()[k] matches Entry::Item(token) && !is_lent(released.0, token.token()),
    decreases n,
{
    law_draining_takes_the_first_items(before, owner, n, release, after, released);
    let (ring, middle) = choose|ring: RingView<Token<H>>, middle: Sent|
        {
            &&& super::close::drained(before, owner, (n - 1) as nat, release, ring, middle)
            &&& #[trigger] super::close::drain_step(ring, owner, middle, after, released)
        };
    law_draining_takes_the_first_items(before, owner, (n - 1) as nat, release, ring, middle);
    lemma_drained_wf(before, owner, (n - 1) as nat, release, ring, middle);
    crate::queue::lifecycle::law_received_items_come_first(ring, owner);
    let last = ring.slots[super::close::first_slot(ring)].value->0;
    assert(ring.contents()[0] == Entry::Item(last));
    assert(ring.contents()[0] == before.contents()[n - 1]);
    let item = before.contents()[k]->Item_0;
    lemma_given_back(middle.0, released.0, last.token(), None, item.token());
    if k < n - 1 {
        law_drained_blocks_go_back(before, owner, (n - 1) as nat, release, ring, middle, k);
    }
}

proof fn lemma_drained_wf<H: Repr>(
    before: RingView<Token<H>>,
    owner: u8,
    n: nat,
    release: Sent,
    after: RingView<Token<H>>,
    released: Sent,
)
    requires
        release.0.wf(),
        super::close::drained(before, owner, n, release, after, released),
    ensures
        released.0.wf(),
    decreases n,
{
    if n > 0 {
        let (ring, middle) = choose|ring: RingView<Token<H>>, middle: Sent|
            {
                &&& super::close::drained(before, owner, (n - 1) as nat, release, ring, middle)
                &&& #[trigger] super::close::drain_step(ring, owner, middle, after, released)
            };
        lemma_drained_wf(before, owner, (n - 1) as nat, release, ring, middle);
        let item = ring.slots[super::close::first_slot(ring)].value->0;
        lemma_given_back(middle.0, released.0, item.token(), None, item.token());
    }
}

/// What is lent out after a direction was drained was lent out before.
proof fn lemma_drained_lends_nothing<H: Repr>(
    before: RingView<Token<H>>,
    owner: u8,
    n: nat,
    release: Sent,
    after: RingView<Token<H>>,
    released: Sent,
    other: PoolToken,
)
    requires
        release.0.wf(),
        super::close::drained(before, owner, n, release, after, released),
    ensures
        released.0.wf(),
        is_lent(released.0, other) ==> is_lent(release.0, other),
    decreases n,
{
    if n > 0 {
        let (ring, middle) = choose|ring: RingView<Token<H>>, middle: Sent|
            {
                &&& super::close::drained(before, owner, (n - 1) as nat, release, ring, middle)
                &&& #[trigger] super::close::drain_step(ring, owner, middle, after, released)
            };
        lemma_drained_lends_nothing(before, owner, (n - 1) as nat, release, ring, middle, other);
        let item = ring.slots[super::close::first_slot(ring)].value->0;
        lemma_given_back(middle.0, released.0, item.token(), None, other);
    }
}

/// A direction that was emptied: everything in it was an item, and every block
/// went back.
proof fn lemma_emptied_blocks_go_back<H: Repr>(
    before: RingView<Token<H>>,
    after: RingView<Token<H>>,
    lifecycle: u8,
    lifecycle_after: u8,
    route: crate::queue::lifecycle::Route,
    release: Sent,
    released: Sent,
    other: PoolToken,
    k: int,
)
    requires
        before.ordered(),
        after.ordered(),
        route.wf(),
        release.0.wf(),
        super::close::emptied(
            before,
            after,
            lifecycle,
            lifecycle_after,
            route,
            release,
            released,
            Ok::<(), super::CloseError<Token<H>>>(()),
        ),
    ensures
        released.0.wf(),
        is_lent(released.0, other) ==> is_lent(release.0, other),
        0 <= k < before.contents().len() ==> (before.contents()[k] matches Entry::Item(token)
            && !is_lent(released.0, token.token())),
{
    let all = choose|all: Result<(), super::CloseError<Token<H>>>|
        #[trigger] super::close::drains(
            before,
            super::close::receiving_closed(lifecycle, route),
            route.owner,
            release,
            after,
            released,
            all,
        ) && all is Ok;
    let closed = super::close::receiving_closed(lifecycle, route);
    let (n, ring, middle) = choose|n: nat, ring: RingView<Token<H>>, middle: Sent|
        #[trigger] super::close::drain_run(
            before,
            closed,
            route.owner,
            n,
            release,
            ring,
            middle,
            after,
            released,
            all,
        );
    assert(middle == released && ring == after);
    law_draining_takes_the_first_items(before, route.owner, n, release, ring, middle);
    crate::queue::order::law_empty_between_equal_cursors(after);
    assert(before.contents().skip(n as int).len() == 0);
    lemma_drained_lends_nothing(before, route.owner, n, release, ring, middle, other);
    if 0 <= k < before.contents().len() {
        law_drained_blocks_go_back(before, route.owner, n, release, ring, middle, k);
    }
}

/// When a channel is closed by the holder of a role, everything that was sent in
/// either direction and not received goes back to its pool: no such block is lent
/// out under its token any more.
pub proof fn law_closing_gives_blocks_back<H: Repr>(
    before: super::duplex::Duplex<H>,
    after: super::duplex::Duplex<H>,
    channel: super::role::Channel<H>,
    release: Sent,
    released: Sent,
    direction: int,
    k: int,
)
    requires
        channel.wf(),
        channel.is_held(before),
        before.ordered(),
        after.ordered(),
        release.0.wf(),
        super::close::channel_closes(
            before,
            after,
            channel,
            release,
            released,
            Ok::<(), super::CloseError<Token<H>>>(()),
        ),
        direction == 0 || direction == 1,
        0 <= k < before.ring(direction).contents().len(),
    ensures
        before.ring(direction).contents()[k] matches Entry::Item(token) && !is_lent(
            released.0,
            token.token(),
        ),
{
    let owner = channel.owner_spec();
    let first = super::role::route_spec(0, owner);
    let second = super::role::route_spec(1, owner);
    let begun = super::close::senders_closing(before.lifecycle);
    let (middle, half, left) = choose|
        middle: u8,
        half: Sent,
        left: Result<(), super::CloseError<Token<H>>>,
    |
        {
            &&& #[trigger] super::close::emptied(
                before.left@,
                after.left@,
                begun,
                middle,
                first,
                release,
                half,
                left,
            )
            &&& left is Ok
            &&& right_emptied(before, after, middle, second, half, released)
        };
    assert(left == Ok::<(), super::CloseError<Token<H>>>(()));
    let token = (before.ring(direction).contents()[k]->Item_0).token();
    lemma_emptied_blocks_go_back(
        before.left@,
        after.left@,
        begun,
        middle,
        first,
        release,
        half,
        token,
        k,
    );
    let (late, right) = choose|late: u8, right: Result<(), super::CloseError<Token<H>>>|
        #[trigger] super::close::emptied(
            before.right@,
            after.right@,
            middle,
            late,
            second,
            half,
            released,
            right,
        ) && right is Ok;
    assert(right == Ok::<(), super::CloseError<Token<H>>>(()));
    lemma_emptied_blocks_go_back(
        before.right@,
        after.right@,
        middle,
        late,
        second,
        half,
        released,
        token,
        k,
    );
}

spec fn right_emptied<H: Repr>(
    before: super::duplex::Duplex<H>,
    after: super::duplex::Duplex<H>,
    middle: u8,
    route: crate::queue::lifecycle::Route,
    half: Sent,
    released: Sent,
) -> bool {
    exists|late: u8, right: Result<(), super::CloseError<Token<H>>>|
        #[trigger] super::close::emptied(
            before.right@,
            after.right@,
            middle,
            late,
            route,
            half,
            released,
            right,
        ) && right is Ok
}

} // verus!
