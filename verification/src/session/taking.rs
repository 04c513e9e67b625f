//! What holds of taking part in a channel, of leaving it for good, and of who is
//! asked to recover a layout.

use super::channels::{AdmitError, RemoveError};
use super::objects::Stored;
use super::Shared;
use crate::channel::duplex::Duplex;
use crate::channel::role::Channel;
use crate::channel::{CloseError, Port, RoleAdmitError};
use crate::header::layout::RecoveryHandler;
use crate::header::record::RecordedLayout;
use crate::mem::Region;
use crate::msg::Repr;
use crate::session::layouts::{Layouts, Objects};
use crate::token::Token;
use vstd::prelude::*;

verus! {

/// The invitation that comes back with a refusal.
pub open spec fn returned<H: Repr>(error: AdmitError<H>) -> Port<H> {
    match error {
        AdmitError::WrongRegion(port) => port,
        AdmitError::Stale(port) => port,
        AdmitError::Occupied(port) => port,
        AdmitError::Terminal(port) => port,
        AdmitError::Orphaned(port) => port,
        AdmitError::Open(port) => port,
    }
}

/// Each reason for which a role is refused is reported as what it is, and the
/// invitation comes back.
pub proof fn law_refused_roles_are_reported_as_refused<H: Repr>(error: RoleAdmitError, port: Port<H>)
    ensures
        ({
            let reported = super::channels::refusal(error, port);
            &&& returned(reported) == port
            &&& reported is Stale <==> error == RoleAdmitError::Stale
            &&& reported is Occupied <==> error == RoleAdmitError::Occupied
            &&& reported is Terminal <==> error == RoleAdmitError::Terminal
            &&& reported is Orphaned <==> error == RoleAdmitError::Orphaned
            &&& reported is Open <==> error == RoleAdmitError::Open
        }),
{
}

/// An invitation that is refused comes back, whatever it is refused for; and it
/// is called one to another region exactly where it is.
pub proof fn law_refused_invitations_come_back<H: Repr>(
    shared: Shared,
    region: Region,
    before: Seq<Stored<Duplex<H>>>,
    after: Seq<Stored<Duplex<H>>>,
    port: Port<H>,
    error: AdmitError<H>,
)
    requires
        super::channels::adopts(
            shared,
            region,
            before,
            after,
            port,
            Err::<Channel<H>, AdmitError<H>>(error),
        ),
    ensures
        returned(error) == port,
        error is WrongRegion <==> port.id_spec().inner.region != region.region,
        error is WrongRegion ==> after == before,
{
}

/// Whoever adopts an invitation takes part in the channel that the directory
/// names, and no other channel is touched: it is a member of that channel, which
/// it was not before, and nobody else's membership changes.
pub proof fn law_adopted_channels_are_the_named_ones<H: Repr>(
    shared: Shared,
    region: Region,
    before: Seq<Stored<Duplex<H>>>,
    after: Seq<Stored<Duplex<H>>>,
    port: Port<H>,
    channel: Channel<H>,
    other: u8,
    k: int,
)
    requires
        region.wf(),
        other < crate::header::PARTICIPANT_CAPACITY,
        other != region.member.slot,
        0 <= k < before.len(),
        super::channels::adopts(
            shared,
            region,
            before,
            after,
            port,
            Ok::<Channel<H>, AdmitError<H>>(channel),
        ),
    ensures
        port.id_spec().inner.region == region.region,
        after.len() == before.len(),
        match shared.dir().published(region.region, port.id_spec().inner) {
            None => false,
            Some(offset) => {
                &&& before[k].at != offset ==> after[k] == before[k]
                &&& exists|i: int|
                    {
                        &&& 0 <= i < before.len()
                        &&& before[i].at == offset
                        &&& (#[trigger] after[i]).at == offset
                        &&& !crate::header::layout::is_member(
                            before[i].header.members,
                            region.member.slot,
                        )
                        &&& crate::header::layout::is_member(
                            after[i].header.members,
                            region.member.slot,
                        )
                        &&& crate::header::layout::is_member(after[i].header.members, other)
                            == crate::header::layout::is_member(before[i].header.members, other)
                    }
            },
        },
{
    let offset = shared.dir().published(region.region, port.id_spec().inner)->0;
    let i = super::channels::channel_at(shared, region, port.id_spec().inner, before)->0;
    super::objects::lemma_first_at(before, offset, 0);
    let slot = region.member.slot;
    let (opened, middle) = choose|
        opened: Result<(), crate::dir::Error>,
        middle: crate::header::layout::RcHeader<Duplex<H>>,
    |
        {
            &&& #[trigger] crate::dir::open::layout_opens(
                shared.dir(),
                region,
                port.id_spec().inner,
                before[i].header,
                middle,
                port.id_spec().capacity,
                opened,
            )
            &&& opened is Ok
            &&& after[i].header.members == middle.members
        };
    crate::mem::laws::law_admission_makes_a_member(
        before[i].header,
        middle,
        (region.map.start + offset) as u64,
        port.id_spec().capacity,
        crate::dir::open::look(region, offset),
        slot,
        <Duplex<H> as crate::header::layout::Layout>::storage_spec(port.id_spec().capacity)->0,
        other,
    );
    assert(after[i].at == offset);
}

/// A channel of which somebody else holds the other role is not removed.
pub proof fn law_channels_in_use_stay<H: Repr>(
    before: Shared,
    after: Shared,
    region: Region,
    objects: Objects<H>,
    left: Objects<H>,
    channel: Channel<H>,
    unique: bool,
    removed: Result<(), RemoveError<H>>,
    i: int,
)
    requires
        super::remove::removes_channel(
            before,
            after,
            region,
            objects,
            left,
            channel,
            unique,
            removed,
        ),
        super::remove::own_place(before, region, channel, objects.channels@) == Some(i),
        objects.channels@[i].header.inner matches Some(duplex) && crate::channel::role_owner(
            duplex.role(1 - channel.index_spec()),
        ) is Some,
    ensures
        removed is Err,
        after == before,
{
    if unique {
        let (told, stored, closed) = choose|
            told: Objects<H>,
            stored: Stored<Duplex<H>>,
            closed: Result<(), CloseError<Token<H>>>,
        |
            {
                &&& #[trigger] super::remove::closes_for_good(
                    told.channels@[i],
                    stored,
                    told.pools,
                    left.pools,
                    channel,
                    closed,
                )
                &&& objects.told(
                    super::scan::offsets_from(before.dir(), objects, region, 0),
                    &told,
                )
                &&& super::remove::removes_closed(
                    before,
                    after,
                    region,
                    told,
                    left,
                    i,
                    stored,
                    channel,
                    closed,
                    removed,
                )
            };
        assert(told.channels@[i] == objects.channels@[i]);
    }
}

/// A channel is removed only by one who has it for itself, and only where the
/// directory publishes it at the place at which it was made.
pub proof fn law_channels_are_removed_where_they_lie<H: Repr>(
    before: Shared,
    after: Shared,
    region: Region,
    objects: Objects<H>,
    left: Objects<H>,
    channel: Channel<H>,
    unique: bool,
)
    requires
        super::remove::removes_channel(
            before,
            after,
            region,
            objects,
            left,
            channel,
            unique,
            Ok::<(), RemoveError<H>>(()),
        ),
    ensures
        unique,
        left.channels@.len() == objects.channels@.len() - 1,
        before.dir().published(region.region, channel.id_spec().inner) matches Some(offset)
            && exists|i: int|
            {
                &&& 0 <= i < objects.channels@.len()
                &&& (#[trigger] objects.channels@[i]).at == offset
                &&& objects.channels@[i].header.offset == offset
                &&& objects.channels@[i].header.region == region.region
                &&& left.channels@ == objects.channels@.remove(i)
            },
{
    let i = super::remove::own_place(before, region, channel, objects.channels@)->0;
    let offset = before.dir().published(region.region, channel.id_spec().inner)->0;
    super::objects::lemma_first_at(objects.channels@, offset, 0);
    let (told, stored, closed) = choose|
        told: Objects<H>,
        stored: Stored<Duplex<H>>,
        closed: Result<(), CloseError<Token<H>>>,
    |
        {
            &&& #[trigger] super::remove::closes_for_good(
                told.channels@[i],
                stored,
                told.pools,
                left.pools,
                channel,
                closed,
            )
            &&& objects.told(
                super::scan::offsets_from(before.dir(), objects, region, 0),
                &told,
            )
            &&& super::remove::removes_closed(
                before,
                after,
                region,
                told,
                left,
                i,
                stored,
                channel,
                closed,
                Ok::<(), RemoveError<H>>(()),
            )
        };
    assert(objects.channels@[i].at == offset);
}

/// A layout is recovered by the handler of its schema and its profile; where two
/// are for it, or none is, by nobody. Handlers for other layouts make no
/// difference.
pub proof fn law_layouts_are_recovered_by_their_own_handler(
    given: Seq<RecoveryHandler>,
    recorded: RecordedLayout,
    i: int,
    j: int,
)
    requires
        0 <= i < given.len(),
        0 <= j < given.len(),
    ensures
        ({
            let own = |handler: RecoveryHandler|
                handler.schema == recorded.schema && handler.profile == recorded.profile;
            let handler = super::scan::handler_for(given, recorded);
            &&& handler matches Some(found) ==> own(found) && given.contains(found)
            &&& own(given[i]) && own(given[j]) && i != j ==> handler is None
            &&& own(given[i]) && handler is Some ==> handler == Some(given[i])
            &&& (forall|k: int| 0 <= k < given.len() && k != i ==> !own(#[trigger] given[k]))
                ==> handler == (if own(given[i]) {
                Some(given[i])
            } else {
                None
            })
        }),
{
    let chosen = choose|k: int| super::scan::alone(given, recorded, k);
    if super::scan::handler_for(given, recorded) is Some {
        assert(super::scan::alone(given, recorded, chosen));
        assert(super::scan::handles(given[i], recorded) ==> i == chosen);
        assert(super::scan::handles(given[j], recorded) ==> j == chosen);
    }
    if forall|k: int|
        0 <= k < given.len() && k != i ==> !(#[trigger] given[k].schema == recorded.schema
            && given[k].profile == recorded.profile) {
        if super::scan::handles(given[i], recorded) {
            assert(super::scan::alone(given, recorded, i));
        }
    }
}

/// Pools are recovered by their own handler, whatever handlers are given beside
/// it.
pub proof fn law_pools_have_their_own_handler(given: Seq<RecoveryHandler>)
    ensures
        super::scan::all_handlers(given).len() == given.len() + 1,
        super::scan::all_handlers(given).skip(1) == given,
        super::scan::all_handlers(given)[0].schema
            == <crate::pool::storage::Storage as crate::schema::SharedSchema>::schema_spec(),
{
    assert(super::scan::all_handlers(given).skip(1) =~= given);
}

/// Whoever is refused a role is no member of the channel on that account, and no
/// channel comes or goes.
pub proof fn law_refused_roles_leave_no_membership<H: Repr>(
    shared: Shared,
    region: Region,
    before: Seq<Stored<Duplex<H>>>,
    after: Seq<Stored<Duplex<H>>>,
    port: Port<H>,
    error: AdmitError<H>,
    k: int,
)
    requires
        region.wf(),
        0 <= k < before.len(),
        super::channels::adopts(
            shared,
            region,
            before,
            after,
            port,
            Err::<Channel<H>, AdmitError<H>>(error),
        ),
    ensures
        after.len() == before.len(),
        after[k].at == before[k].at,
        crate::header::layout::is_member(after[k].header.members, region.member.slot)
            ==> crate::header::layout::is_member(before[k].header.members, region.member.slot),
{
    if port.id_spec().inner.region == region.region {
        match super::channels::channel_at(shared, region, port.id_spec().inner, before) {
            Some(i) => {
                let offset = shared.dir().published(region.region, port.id_spec().inner)->0;
                super::objects::lemma_first_at(before, offset, 0);
                lemma_refused_part(shared, region, before[i], after[i], port, error);
            },
            None => {},
        }
    }
}

#[verifier::spinoff_prover]
proof fn lemma_refused_part<H: Repr>(
    shared: Shared,
    region: Region,
    before: Stored<Duplex<H>>,
    after: Stored<Duplex<H>>,
    port: Port<H>,
    error: AdmitError<H>,
)
    requires
        region.wf(),
        super::channels::takes_part(
            shared,
            region,
            before,
            after,
            port,
            Err::<Channel<H>, AdmitError<H>>(error),
        ),
    ensures
        after.at == before.at,
        crate::header::layout::is_member(after.header.members, region.member.slot)
            ==> crate::header::layout::is_member(before.header.members, region.member.slot),
{
    let slot = region.member.slot;
    let (opened, middle) = choose|
        opened: Result<(), crate::dir::Error>,
        middle: crate::header::layout::RcHeader<Duplex<H>>,
    |
        {
            &&& #[trigger] crate::dir::open::layout_opens(
                shared.dir(),
                region,
                port.id_spec().inner,
                before.header,
                middle,
                port.id_spec().capacity,
                opened,
            )
            &&& match opened {
                Err(_) => after.header == middle,
                Ok(()) => after.header.members == middle.members
                    & !crate::header::layout::member_bit(slot),
            }
        };
    crate::header::layout::law_members_are_independent(middle.members, slot, slot);
    if opened is Err {
        assert(middle.members == before.header.members);
    }
}

/// A channel whose header is of another region, or says that it lies elsewhere, is
/// not closed for removal, whatever name it is found under: nothing changes.
pub proof fn law_misplaced_channels_are_left_alone<H: Repr>(
    before: Shared,
    after: Shared,
    region: Region,
    objects: Objects<H>,
    left: Objects<H>,
    channel: Channel<H>,
    unique: bool,
    removed: Result<(), RemoveError<H>>,
    i: int,
)
    requires
        super::remove::removes_channel(
            before,
            after,
            region,
            objects,
            left,
            channel,
            unique,
            removed,
        ),
        super::channels::channel_at(
            before,
            region,
            channel.id_spec().inner,
            objects.channels@,
        ) == Some(i),
        objects.channels@[i].header.region != region.region || before.dir().published(
            region.region,
            channel.id_spec().inner,
        ) != Some(objects.channels@[i].header.offset),
    ensures
        removed == Err::<(), RemoveError<H>>(RemoveError::Busy(channel)),
        after == before,
        left == objects,
{
}

} // verus!
