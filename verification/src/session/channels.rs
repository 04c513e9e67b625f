//! How a session takes part in a channel, leaves it and removes it.

use super::objects::{find_at, Stored};
use super::{Session, Shared};
use crate::channel::duplex::Duplex;
use crate::channel::role::Channel;
use crate::channel::{Id as ChannelId, Port, RoleAdmitError};
use crate::dir::{Directory, Error as DirError};
use crate::header::layout::RcHeader;
use crate::mem::Region;
use crate::msg::Repr;
use crate::token::Token;
use vstd::prelude::*;

verus! {

/// Why an invitation is not adopted; the invitation goes back.
pub enum AdmitError<H: Repr> {
    WrongRegion(Port<H>),
    Stale(Port<H>),
    Occupied(Port<H>),
    Terminal(Port<H>),
    Orphaned(Port<H>),
    Open(Port<H>),
}

/// Why a channel is not removed; the channel goes back, and with it a token that
/// no pool took back.
pub enum RemoveError<H: Repr> {
    Busy(Channel<H>),
    Evidence(Channel<H>, Token<H>),
}

/// How the refusal of a role is reported.
pub open spec fn refusal<H: Repr>(error: RoleAdmitError, port: Port<H>) -> AdmitError<H> {
    match error {
        RoleAdmitError::Stale => AdmitError::Stale(port),
        RoleAdmitError::Occupied => AdmitError::Occupied(port),
        RoleAdmitError::Terminal => AdmitError::Terminal(port),
        RoleAdmitError::Orphaned => AdmitError::Orphaned(port),
        RoleAdmitError::Open => AdmitError::Open(port),
    }
}

impl<H: Repr> AdmitError<H> {
    fn of(error: RoleAdmitError, port: Port<H>) -> (reported: Self)
        ensures
            reported == refusal(error, port),
    {
        match error {
            RoleAdmitError::Stale => AdmitError::Stale(port),
            RoleAdmitError::Occupied => AdmitError::Occupied(port),
            RoleAdmitError::Terminal => AdmitError::Terminal(port),
            RoleAdmitError::Orphaned => AdmitError::Orphaned(port),
            RoleAdmitError::Open => AdmitError::Open(port),
        }
    }
}

/// The place of the channel with the given name.
pub open spec fn channel_at<H: Repr>(
    shared: Shared,
    region: Region,
    name: crate::dir::Id,
    channels: Seq<Stored<Duplex<H>>>,
) -> Option<int> {
    match shared.dir().published(region.region, name) {
        Some(offset) => super::objects::first_at(channels, offset, 0),
        None => None,
    }
}

/// What adopting an invitation does to the channel: the participant becomes a
/// member of it and takes the role; where the role is refused it is a member no
/// more.
pub open spec fn takes_part<H: Repr>(
    shared: Shared,
    region: Region,
    before: Stored<Duplex<H>>,
    after: Stored<Duplex<H>>,
    port: Port<H>,
    adopted: Result<Channel<H>, AdmitError<H>>,
) -> bool {
    &&& after.at == before.at
    &&& exists|opened: Result<(), DirError>, middle: RcHeader<Duplex<H>>|
        {
            &&& #[trigger] crate::dir::open::layout_opens(
                shared.dir(),
                region,
                port.id_spec().inner,
                before.header,
                middle,
                port.id_spec().capacity,
                opened,
            )
            &&& match opened {
                Err(_) => {
                    &&& adopted == Err::<Channel<H>, AdmitError<H>>(AdmitError::Open(port))
                    &&& after.header == middle
                },
                Ok(()) => exists|taken: Result<Channel<H>, RoleAdmitError>|
                    {
                        &&& #[trigger] crate::channel::role::role_adopts(
                            middle.inner->0,
                            after.header.inner->0,
                            middle.info->0,
                            region,
                            before.at,
                            port,
                            taken,
                        )
                        &&& super::same_header(middle, after.header)
                        &&& after.header.inner is Some
                        &&& match taken {
                            Ok(channel) => {
                                &&& adopted == Ok::<Channel<H>, AdmitError<H>>(channel)
                                &&& after.header.members == middle.members
                            },
                            Err(error) => {
                                &&& adopted == Err::<Channel<H>, AdmitError<H>>(
                                    refusal(error, port),
                                )
                                &&& after.header.members == middle.members
                                    & !crate::header::layout::member_bit(region.member.slot)
                            },
                        }
                    },
            }
        }
}

/// What adopting an invitation does.
pub open spec fn adopts<H: Repr>(
    shared: Shared,
    region: Region,
    before: Seq<Stored<Duplex<H>>>,
    after: Seq<Stored<Duplex<H>>>,
    port: Port<H>,
    adopted: Result<Channel<H>, AdmitError<H>>,
) -> bool {
    if port.id_spec().inner.region != region.region {
        adopted == Err::<Channel<H>, AdmitError<H>>(AdmitError::WrongRegion(port)) && after
            == before
    } else {
        match channel_at(shared, region, port.id_spec().inner, before) {
            None => adopted == Err::<Channel<H>, AdmitError<H>>(AdmitError::Open(port)) && after
                == before,
            Some(i) => {
                &&& after == before.update(i, after[i])
                &&& takes_part(shared, region, before[i], after[i], port, adopted)
            },
        }
    }
}

#[verifier::spinoff_prover]
fn take_part<H: Repr>(
    directory: &Directory,
    region: &Region,
    stored: &mut Stored<Duplex<H>>,
    port: Port<H>,
    Ghost(shared): Ghost<Shared>,
) -> (adopted: Result<Channel<H>, AdmitError<H>>)
    requires
        directory@.wf(),
        region.wf(),
        region.map.start + region.map.len <= u64::MAX,
        old(stored).header.wf(),
        shared.dir() == directory@,
    ensures
        final(stored).header.wf(),
        takes_part(shared, *region, *old(stored), *final(stored), port, adopted),
{
    let _ = crate::channel::duplex::channel_header();
    let id = port.id();
    proof {
        crate::channel::duplex::lemma_channel_extent::<H>(id.capacity);
    }
    let opened = directory.open::<Duplex<H>>(
        region,
        id.inner,
        &mut stored.header,
        id.capacity(),
    );
    let ghost middle = stored.header;
    let ghost result = opened;
    assert(crate::dir::open::layout_opens(
        shared.dir(),
        *region,
        port.id_spec().inner,
        old(stored).header,
        middle,
        port.id_spec().capacity,
        result,
    ));
    match opened {
        Ok(()) => {},
        Err(_) => return Err(AdmitError::Open(port)),
    }
    let mut inner: Option<Duplex<H>> = None;
    core::mem::swap(&mut inner, &mut stored.header.inner);
    match (inner, stored.header.info) {
        (Some(mut duplex), Some(info)) => {
            let taken = Channel::adopt(&mut duplex, &info, region, stored.at, &port);
            let ghost role = taken;
            stored.header.inner = Some(duplex);
            assert(crate::channel::role::role_adopts(
                middle.inner->0,
                stored.header.inner->0,
                middle.info->0,
                *region,
                stored.at,
                port,
                role,
            ));
            match taken {
                Ok(channel) => Ok(channel),
                Err(error) => {
                    stored.header.leave(region.member.slot);
                    Err(AdmitError::of(error, port))
                },
            }
        },
        _ => Err(AdmitError::Open(port)),
    }
}

impl Session {
    /// Adopts an invitation: the session takes its role in the channel.
    pub fn adopt<H: Repr>(
        &self,
        shared: &Shared,
        channels: &mut Vec<Stored<Duplex<H>>>,
        port: Port<H>,
    ) -> (adopted: Result<Channel<H>, AdmitError<H>>)
        requires
            self.wf(),
            shared.wf(),
            forall|i: int|
                0 <= i < old(channels)@.len() ==> (#[trigger] old(channels)@[i]).header.wf(),
        ensures
            forall|i: int|
                0 <= i < final(channels)@.len() ==> (#[trigger] final(channels)@[i]).header.wf(),
            adopts(*shared, self.region_spec(), old(channels)@, final(channels)@, port, adopted),
    {
        let ghost before = channels@;
        if port.region() != self.region.region {
            return Err(AdmitError::WrongRegion(port));
        }
        let directory = match &shared.directory.inner {
            Some(directory) => directory,
            None => return Err(AdmitError::Open(port)),
        };
        let offset: u64 = match directory.offset(self.region.region, port.id().inner) {
            Ok(offset) => offset,
            Err(_) => return Err(AdmitError::Open(port)),
        };
        let i: usize = match find_at(channels, offset) {
            Some(i) => i,
            None => return Err(AdmitError::Open(port)),
        };
        let adopted = take_part(
            directory,
            &self.region,
            &mut channels[i],
            port,
            Ghost(*shared),
        );
        assert(channels@ =~= before.update(i as int, channels@[i as int]));
        adopted
    }

    /// Whether the channel with the given name can be opened by this session.
    /// The look makes it a member of the channel only for the moment.
    pub fn contains_channel<H: Repr>(
        &self,
        shared: &Shared,
        channels: &mut Vec<Stored<Duplex<H>>>,
        id: ChannelId<H>,
    ) -> (contains: bool)
        requires
            self.wf(),
            shared.wf(),
            forall|i: int|
                0 <= i < old(channels)@.len() ==> (#[trigger] old(channels)@[i]).header.wf(),
        ensures
            final(channels)@.len() == old(channels)@.len(),
            match channel_at(*shared, self.region_spec(), id.inner, old(channels)@) {
                None => !contains && final(channels)@ == old(channels)@,
                Some(i) => {
                    &&& final(channels)@ == old(channels)@.update(i, final(channels)@[i])
                    &&& final(channels)@[i].at == old(channels)@[i].at
                    &&& exists|opened: Result<(), DirError>, middle: RcHeader<Duplex<H>>|
                        {
                            &&& #[trigger] crate::dir::open::layout_opens(
                                shared.dir(),
                                self.region_spec(),
                                id.inner,
                                old(channels)@[i].header,
                                middle,
                                id.capacity,
                                opened,
                            )
                            &&& contains == (opened is Ok)
                            &&& if contains {
                                &&& final(channels)@[i].header.same_but_members(middle)
                                &&& final(channels)@[i].header.members == middle.members
                                    & !crate::header::layout::member_bit(
                                    self.region_spec().member.slot,
                                )
                            } else {
                                final(channels)@[i].header == middle
                            }
                        }
                },
            },
    {
        let ghost before = channels@;
        let directory = match &shared.directory.inner {
            Some(directory) => directory,
            None => return false,
        };
        let offset: u64 = match directory.offset(self.region.region, id.inner) {
            Ok(offset) => offset,
            Err(_) => return false,
        };
        let i: usize = match find_at(channels, offset) {
            Some(i) => i,
            None => return false,
        };
        let _ = crate::channel::duplex::channel_header();
        proof {
            crate::channel::duplex::lemma_channel_extent::<H>(id.capacity);
        }
        let opened = directory.open::<Duplex<H>>(
            &self.region,
            id.inner,
            &mut channels[i].header,
            id.capacity(),
        );
        let ghost middle = channels@[i as int].header;
        assert(crate::dir::open::layout_opens(
            shared.dir(),
            self.region,
            id.inner,
            before[i as int].header,
            middle,
            id.capacity,
            opened,
        ));
        let contains = opened.is_ok();
        if contains {
            channels[i].header.leave(self.region.member.slot);
        }
        assert(channels@ =~= before.update(i as int, channels@[i as int]));
        contains
    }

    /// Leaves a channel: the role goes back, and the session is a member of the
    /// channel no more.
    pub fn leave<H: Repr>(&self, channel: Channel<H>, stored: &mut Stored<Duplex<H>>)
        requires
            self.wf(),
            channel.wf(),
            old(stored).header.wf(),
            old(stored).header.inner is Some,
        ensures
            final(stored).header.wf(),
            final(stored).at == old(stored).at,
            super::same_header(old(stored).header, final(stored).header),
            final(stored).header.members == old(stored).header.members
                & !crate::header::layout::member_bit(self.region_spec().member.slot),
            final(stored).header.inner matches Some(duplex) && {
                let before = old(stored).header.inner->0;
                if channel.is_held(before) {
                    crate::channel::role::with_role(
                        before,
                        duplex,
                        channel.index_spec(),
                        crate::channel::role_left(before.role(channel.index_spec())),
                    )
                } else {
                    duplex == before
                }
            },
    {
        let mut inner: Option<Duplex<H>> = None;
        core::mem::swap(&mut inner, &mut stored.header.inner);
        match inner {
            Some(mut duplex) => {
                channel.leave(&mut duplex);
                stored.header.inner = Some(duplex);
            },
            None => {},
        }
        stored.header.leave(self.region.member.slot);
    }
}

} // verus!
