//! How a session removes a channel.

use super::channels::RemoveError;
use super::layouts::{Layouts, Objects};
use super::objects::{find_at, Pools, Sent, Stored};
use super::scan::survey;
use super::{Session, Shared};
use crate::channel::duplex::Duplex;
use crate::channel::role::Channel;
use crate::channel::CloseError;
use crate::dir::{Directory, Error as DirError};
use crate::header::layout::RcHeader;
use crate::mem::Region;
use crate::msg::Repr;
use crate::talc::lock::TalckMeta;
use crate::token::Token;
use vstd::prelude::*;

verus! {

/// The channel with other contents, and else as it was.
pub open spec fn recontained<H: Repr>(
    before: Stored<Duplex<H>>,
    after: Stored<Duplex<H>>,
    duplex: Duplex<H>,
) -> bool {
    &&& after.at == before.at
    &&& super::same_header(before.header, after.header)
    &&& after.header.members == before.header.members
    &&& after.header.inner == Some(duplex)
}

/// Whether the role of a channel's holder has ended, and nobody has the other.
pub open spec fn deserted<H: Repr>(duplex: Duplex<H>, channel: Channel<H>) -> bool {
    let mine = duplex.role(channel.index_spec());
    let other = duplex.role(1 - channel.index_spec());
    &&& crate::channel::role_owner(other) is None
    &&& crate::channel::role_owner(mine) is None
    &&& crate::channel::role_terminal(mine)
}

/// What closing a channel for its removal does: what was sent and not received
/// goes back to the pools.
pub open spec fn closes_for_good<H: Repr>(
    before: Stored<Duplex<H>>,
    after: Stored<Duplex<H>>,
    pools: Pools,
    left: Pools,
    channel: Channel<H>,
    closed: Result<(), CloseError<Token<H>>>,
) -> bool {
    &&& after.header.inner is Some
    &&& recontained(before, after, after.header.inner->0)
    &&& crate::channel::close::channel_closes(
        before.header.inner->0,
        after.header.inner->0,
        channel,
        Sent(pools),
        Sent(left),
        closed,
    )
}

/// Closes a channel for its removal.
fn close_for_good<H: Repr>(
    stored: &mut Stored<Duplex<H>>,
    pools: &mut Pools,
    channel: &Channel<H>,
) -> (closed: Result<(), CloseError<Token<H>>>)
    requires
        channel.wf(),
        old(stored).header.wf(),
        old(pools).wf(),
        old(stored).header.inner matches Some(duplex) && duplex.ordered(),
    ensures
        final(stored).header.wf(),
        final(pools).wf(),
        final(stored).header.inner matches Some(duplex) && duplex.ordered(),
        closes_for_good(
            *old(stored),
            *final(stored),
            *old(pools),
            *final(pools),
            *channel,
            closed,
        ),
{
    let mut inner: Option<Duplex<H>> = None;
    core::mem::swap(&mut inner, &mut stored.header.inner);
    let mut sent = Sent(Pools { region: pools.region, published: None, stored: Vec::new() });
    core::mem::swap(&mut sent.0, pools);
    match inner {
        None => Err(CloseError::Busy),
        Some(mut duplex) => {
            let closed = channel.close_with(&mut duplex, &mut sent);
            stored.header.inner = Some(duplex);
            core::mem::swap(&mut sent.0, pools);
            closed
        },
    }
}

/// What removing a closed channel does.
pub open spec fn takes_out<H: Repr>(
    before: Shared,
    after: Shared,
    region: Region,
    channel: Channel<H>,
    header: RcHeader<Duplex<H>>,
    header_after: RcHeader<Duplex<H>>,
    done: bool,
) -> bool {
    match Duplex::<H>::geometry_spec(channel.id_spec().capacity) {
        Err(_) => !done && after == before && header_after == header,
        Ok(geometry) => exists|removed: Result<(), DirError>|
            {
                &&& #[trigger] crate::dir::remove::removes(
                    before.dir(),
                    after.dir(),
                    before.talc(),
                    after.talc(),
                    header,
                    header_after,
                    before.heap.info->0,
                    region,
                    channel.id_spec().inner,
                    geometry.layout,
                    removed,
                )
                &&& done == (removed is Ok)
            },
    }
}

/// Takes a closed channel out of the directory, and gives its memory back.
fn take_out<H: Repr>(
    session: &Session,
    shared: &mut Shared,
    channel: &Channel<H>,
    header: &mut RcHeader<Duplex<H>>,
) -> (done: bool)
    requires
        session.wf(),
        super::steady(*old(shared), session.region_spec()),
        old(shared).heap.info is Some,
        Duplex::<H>::geometry_spec(channel.id_spec().capacity) matches Ok(geometry)
            ==> crate::dir::remove::occupies(
            old(shared).dir(),
            old(shared).talc(),
            session.region_spec(),
            channel.id_spec().inner,
            geometry.layout,
        ),
    ensures
        super::steady(*final(shared), session.region_spec()),
        super::work::same_frame(*old(shared), *final(shared)),
        takes_out(
            *old(shared),
            *final(shared),
            session.region_spec(),
            *channel,
            *old(header),
            *final(header),
            done,
        ),
{
    let id = channel.id();
    let geometry = match Duplex::<H>::geometry(id.capacity()) {
        Ok(geometry) => geometry,
        Err(_) => return false,
    };
    let info = match shared.heap.info {
        Some(info) => info,
        None => return false,
    };
    let mut directory: Option<Directory> = None;
    core::mem::swap(&mut directory, &mut shared.directory.inner);
    let mut heap: Option<TalckMeta> = None;
    core::mem::swap(&mut heap, &mut shared.heap.inner);
    match (directory, heap) {
        (Some(mut directory), Some(mut heap)) => {
            let removed = directory.remove_in::<Duplex<H>>(
                &session.region,
                &mut heap,
                session.region.region,
                &info,
                id.inner,
                header,
                geometry.layout,
            );
            shared.directory.inner = Some(directory);
            shared.heap.inner = Some(heap);
            assert(crate::dir::remove::removes(
                old(shared).dir(),
                shared.dir(),
                old(shared).talc(),
                shared.talc(),
                *old(header),
                *header,
                old(shared).heap.info->0,
                session.region,
                channel.id_spec().inner,
                geometry.layout,
                removed,
            ));
            removed.is_ok()
        },
        _ => false,
    }
}

/// What removing a channel that is closed at the place `i` does, with the
/// channel as it is now.
pub open spec fn removes_closed<H: Repr>(
    before: Shared,
    after: Shared,
    region: Region,
    objects: Objects<H>,
    left: Objects<H>,
    i: int,
    stored: Stored<Duplex<H>>,
    channel: Channel<H>,
    closed: Result<(), CloseError<Token<H>>>,
    removed: Result<(), RemoveError<H>>,
) -> bool {
    match closed {
        Err(error) => {
            &&& removed == Err::<(), RemoveError<H>>(
                match error {
                    CloseError::Busy => RemoveError::Busy(channel),
                    CloseError::Evidence(token) => RemoveError::Evidence(channel, token),
                },
            )
            &&& after == before
            &&& left.channels@ == objects.channels@.update(i, stored)
        },
        Ok(()) => if !deserted(stored.header.inner->0, channel) {
            &&& removed == Err::<(), RemoveError<H>>(RemoveError::Busy(channel))
            &&& after == before
            &&& left.channels@ == objects.channels@.update(i, stored)
        } else {
            exists|header: RcHeader<Duplex<H>>, done: bool|
                {
                    &&& #[trigger] takes_out(
                        before,
                        after,
                        region,
                        channel,
                        stored.header,
                        header,
                        done,
                    )
                    &&& if done {
                        &&& removed is Ok
                        &&& left.channels@ == objects.channels@.remove(i)
                    } else {
                        &&& removed == Err::<(), RemoveError<H>>(RemoveError::Busy(channel))
                        &&& left.channels@ == objects.channels@.update(
                            i,
                            Stored { at: stored.at, header },
                        )
                    }
                }
        },
    }
}

/// The place of the channel, where this is the channel that the directory
/// publishes under its name.
pub open spec fn own_place<H: Repr>(
    shared: Shared,
    region: Region,
    channel: Channel<H>,
    channels: Seq<Stored<Duplex<H>>>,
) -> Option<int> {
    let name = channel.id_spec().inner;
    match super::channels::channel_at(shared, region, name, channels) {
        Some(i) => if channels[i].header.region == region.region && shared.dir().published(
            region.region,
            name,
        ) == Some(channels[i].header.offset) {
            Some(i)
        } else {
            None
        },
        None => None,
    }
}

/// What removing a channel does.
pub open spec fn removes_channel<H: Repr>(
    before: Shared,
    after: Shared,
    region: Region,
    objects: Objects<H>,
    left: Objects<H>,
    channel: Channel<H>,
    unique: bool,
    removed: Result<(), RemoveError<H>>,
) -> bool {
    let place = own_place(before, region, channel, objects.channels@);
    if !unique || place is None {
        &&& removed == Err::<(), RemoveError<H>>(RemoveError::Busy(channel))
        &&& after == before
        &&& left == objects
    } else {
        exists|told: Objects<H>, stored: Stored<Duplex<H>>, closed: Result<(), CloseError<Token<H>>>|
            {
                &&& #[trigger] closes_for_good(
                    told.channels@[place->0],
                    stored,
                    told.pools,
                    left.pools,
                    channel,
                    closed,
                )
                &&& objects.told(
                    super::scan::offsets_from(before.dir(), objects, region, 0),
                    &told,
                )
                &&& removes_closed(
                    before,
                    after,
                    region,
                    told,
                    left,
                    place->0,
                    stored,
                    channel,
                    closed,
                    removed,
                )
            }
    }
}

impl Session {
    /// Closes a channel, gives back what was sent in it and not received, and
    /// removes it. The channel has to be the only way to it: no end of it is in
    /// use, and nobody has the other role. Where something is in the way the
    /// channel goes back, and removing it can be tried again; a token that no pool
    /// took back goes back with it.
    #[verifier::spinoff_prover]
    pub fn remove<H: Repr>(
        &self,
        shared: &mut Shared,
        objects: &mut Objects<H>,
        channel: Channel<H>,
        unique: bool,
    ) -> (removed: Result<(), RemoveError<H>>)
        requires
            self.wf(),
            channel.wf(),
            super::steady(*old(shared), self.region_spec()),
            old(shared).heap.info is Some,
            old(objects).wf(),
            own_place(*old(shared), self.region_spec(), channel, old(objects).channels@) matches Some(i)
                ==> (old(objects).channels@[i].header.inner matches Some(duplex)
                && duplex.ordered()),
            Duplex::<H>::geometry_spec(channel.id_spec().capacity) matches Ok(geometry)
                ==> crate::dir::remove::occupies(
                old(shared).dir(),
                old(shared).talc(),
                self.region_spec(),
                channel.id_spec().inner,
                geometry.layout,
            ),
        ensures
            super::steady(*final(shared), self.region_spec()),
            super::work::same_frame(*old(shared), *final(shared)),
            final(objects).wf(),
            removes_channel(
                *old(shared),
                *final(shared),
                self.region_spec(),
                *old(objects),
                *final(objects),
                channel,
                unique,
                removed,
            ),
    {
        let ghost start = *objects;
        let ghost region = self.region;
        let (i, offsets) = match &shared.directory.inner {
            None => return Err(RemoveError::Busy(channel)),
            Some(directory) => {
                let name = channel.id().inner;
                let offset: u64 = match directory.offset(self.region.region, name) {
                    Ok(offset) => offset,
                    Err(_) => return Err(RemoveError::Busy(channel)),
                };
                let i: usize = match find_at(&objects.channels, offset) {
                    Some(i) => i,
                    None => return Err(RemoveError::Busy(channel)),
                };
                let layout = objects.channels[i].header.layout_id();
                if !unique || !directory.matches(self.region.region, name, layout) {
                    return Err(RemoveError::Busy(channel));
                }
                (i, survey(directory, objects, &self.region))
            },
        };
        assert(own_place(*shared, region, channel, start.channels@) == Some(i as int));
        objects.tell(offsets);
        let ghost told = *objects;
        let closed = close_for_good(&mut objects.channels[i], &mut objects.pools, &channel);
        let ghost stored = objects.channels@[i as int];
        proof {
            assert(objects.channels@ =~= told.channels@.update(i as int, stored));
            assert(closes_for_good(
                told.channels@[i as int],
                stored,
                told.pools,
                objects.pools,
                channel,
                closed,
            ));
        }
        match closed {
            Err(CloseError::Busy) => return Err(RemoveError::Busy(channel)),
            Err(CloseError::Evidence(token)) => return Err(RemoveError::Evidence(channel, token)),
            Ok(()) => {},
        }
        let ended = match &objects.channels[i].header.inner {
            Some(duplex) => channel.peer_is_unowned(duplex) && channel.has_ended(duplex),
            None => false,
        };
        if !ended {
            return Err(RemoveError::Busy(channel));
        }
        let Stored { at, mut header } = objects.channels.remove(i);
        let done = take_out(self, shared, &channel, &mut header);
        proof {
            assert(takes_out(*old(shared), *shared, region, channel, stored.header, header, done));
            assert(objects.channels@ =~= told.channels@.remove(i as int));
        }
        if done {
            Ok(())
        } else {
            let ghost kept = Stored { at, header };
            objects.channels.insert(i, Stored { at, header });
            assert(objects.channels@ =~= told.channels@.update(i as int, kept));
            Err(RemoveError::Busy(channel))
        }
    }
}

} // verus!
