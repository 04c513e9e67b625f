//! What a session does in its region: pools and channels.

use super::objects::{find_at, Pools, Stored};
use super::{Session, Shared};
use crate::channel::duplex::Duplex;
use crate::channel::role::Channel;
use crate::channel::{Id as ChannelId, Port};
use crate::dir::{Directory, Error as DirError};
use crate::header::layout::RcHeader;
use crate::mem::Region;
use crate::msg::Repr;
use crate::pool::block::PoolRef;
use crate::pool::geometry::{BlockRange, PoolCreateError};
use crate::pool::shared::PoolId;
use crate::pool::storage::Storage;
use crate::talc::lock::TalckMeta;
use vstd::prelude::*;

verus! {

/// Why there is no new channel.
#[derive(Clone, Copy, Debug, PartialEq, Eq, Structural)]
pub enum ChannelCreateError {
    InvalidCapacity,
    Exhausted,
}

/// Why a pool is not opened.
#[derive(Clone, Copy, Debug, PartialEq, Eq, Structural)]
pub enum OpenPoolError {
    Unavailable(PoolId),
}

/// The headers of root, directory and heap, and who is a member of them, are as
/// they were.
pub open spec fn same_frame(before: Shared, after: Shared) -> bool {
    &&& after.root == before.root
    &&& super::same_header(before.directory, after.directory)
    &&& after.directory.members == before.directory.members
    &&& super::same_header(before.heap, after.heap)
    &&& after.heap.members == before.heap.members
}

/// A pool that was created, or why there is none.
pub type NewPool = Result<(PoolId, PoolRef, Stored<Storage>), PoolCreateError>;

/// A channel that was created, or why there is none.
pub type NewChannel<H> = Result<(Channel<H>, Port<H>, Stored<Duplex<H>>), ChannelCreateError>;

/// What creating a channel of `capacity` items for each direction does: the
/// creator has the first role, and the port is an invitation to the second.
pub open spec fn channel_creates<H: Repr>(
    before: Shared,
    after: Shared,
    region: Region,
    capacity: u64,
    made: NewChannel<H>,
) -> bool {
    match Duplex::<H>::geometry_spec(capacity) {
        Err(_) => {
            &&& made == NewChannel::<H>::Err(ChannelCreateError::InvalidCapacity)
            &&& after.dir() == before.dir()
            &&& after.talc() == before.talc()
        },
        Ok(geometry) => exists|
            created: Result<(crate::dir::Id, RcHeader<Duplex<H>>), DirError>,
        |
            {
                &&& #[trigger] crate::dir::create::creates::<Duplex<H>>(
                    before.dir(),
                    after.dir(),
                    before.talc(),
                    after.talc(),
                    region,
                    capacity,
                    geometry.layout,
                    created,
                )
                &&& match created {
                    Err(_) => made == NewChannel::<H>::Err(ChannelCreateError::Exhausted),
                    Ok((id, header)) => {
                        &&& made matches Ok((channel, port, stored))
                        &&& channel.wf()
                        &&& channel.id_spec().inner == id
                        &&& channel.id_spec().capacity == capacity
                        &&& channel.index_spec() == 0
                        &&& channel.generation_spec() == 1
                        &&& channel.owner_spec() == region.member.slot
                        &&& port.id_spec().inner == id
                        &&& port.id_spec().capacity == capacity
                        &&& port.role_spec() == 1
                        &&& port.generation_spec() == 1
                        &&& stored.at == header.offset
                        &&& super::same_header(header, stored.header)
                        &&& stored.header.members == header.members
                        &&& stored.header.inner matches Some(duplex) && {
                            &&& duplex.same_rings(header.inner->0)
                            &&& duplex.role(0) == crate::channel::role_word(
                                1,
                                Some(region.member.slot),
                                false,
                            )
                            &&& duplex.role(1) == crate::channel::role_word(1, None, false)
                        }
                    },
                }
            },
    }
}

/// What opening the pool with the given name does.
pub open spec fn session_opens_pool(
    shared: Shared,
    region: Region,
    id: PoolId,
    before: Pools,
    after: Pools,
    opened: Result<PoolRef, OpenPoolError>,
) -> bool {
    let place = match shared.dir().published(region.region, id.id_spec()) {
        Some(offset) => super::objects::first_at(before.stored@, offset, 0),
        None => None,
    };
    match place {
        None => opened == Err::<PoolRef, OpenPoolError>(OpenPoolError::Unavailable(id)) && after
            == before,
        Some(i) => {
            &&& after.region == before.region
            &&& after.published == before.published
            &&& after.stored@ == before.stored@.update(i, after.stored@[i])
            &&& after.stored@[i].at == before.stored@[i].at
            &&& crate::pool::shared::pool_opens(
                shared.directory.inner->0,
                region,
                id,
                before.stored@[i].header,
                after.stored@[i].header,
                match opened {
                    Ok(pool) => Some(pool),
                    Err(_) => None,
                },
            )
            &&& opened is Ok || opened == Err::<PoolRef, OpenPoolError>(
                OpenPoolError::Unavailable(id),
            )
        },
    }
}

impl Session {
    /// Creates a pool of at most `extent` bytes.
    pub fn create_pool(&self, shared: &mut Shared, extent: u64, range: Option<BlockRange>) -> (made:
        NewPool)
        requires
            self.wf(),
            super::steady(*old(shared), self.region_spec()),
            range matches Some(range) ==> range.wf(),
        ensures
            super::steady(*final(shared), self.region_spec()),
            same_frame(*old(shared), *final(shared)),
            made matches Ok((id, pool, stored)) ==> {
                &&& stored.header.wf()
                &&& stored.header.inner matches Some(storage) && storage@.wf()
                &&& stored.at == stored.header.offset
                &&& pool.owner == self.region_spec().member.slot
                &&& pool.id == (crate::schema::LayoutId {
                    region: stored.header.region,
                    offset: stored.header.offset,
                })
            },
            crate::pool::shared::pool_creates(
                old(shared).dir(),
                final(shared).dir(),
                old(shared).talc(),
                final(shared).talc(),
                self.region_spec(),
                self.region_spec().region,
                extent,
                range,
                match made {
                    Ok((id, _, stored)) => Ok((id, stored.header)),
                    Err(error) => Err(error),
                },
            ),
    {
        let mut directory: Option<Directory> = None;
        core::mem::swap(&mut directory, &mut shared.directory.inner);
        let mut heap: Option<TalckMeta> = None;
        core::mem::swap(&mut heap, &mut shared.heap.inner);
        match (directory, heap) {
            (Some(mut directory), Some(mut heap)) => {
                let made = crate::pool::shared::create(
                    &mut directory,
                    &self.region,
                    &mut heap,
                    self.region.region,
                    extent,
                    range,
                );
                shared.directory.inner = Some(directory);
                shared.heap.inner = Some(heap);
                match made {
                    Ok((id, header)) => {
                        let pool = crate::pool::shared::pool_ref(&self.region, &header);
                        Ok((id, pool, Stored { at: header.offset, header }))
                    },
                    Err(error) => Err(error),
                }
            },
            _ => Err(PoolCreateError::Storage),
        }
    }

    /// Opens the pool with the given name.
    pub fn open_pool(&self, shared: &Shared, pools: &mut Pools, id: PoolId) -> (opened: Result<
        PoolRef,
        OpenPoolError,
    >)
        requires
            self.wf(),
            shared.wf(),
            old(pools).wf(),
        ensures
            final(pools).wf(),
            session_opens_pool(
                *shared,
                self.region_spec(),
                id,
                *old(pools),
                *final(pools),
                opened,
            ),
    {
        let ghost before = *pools;
        let directory = match &shared.directory.inner {
            Some(directory) => directory,
            None => return Err(OpenPoolError::Unavailable(id)),
        };
        let offset: u64 = match directory.offset(self.region.region, id.id()) {
            Ok(offset) => offset,
            Err(_) => return Err(OpenPoolError::Unavailable(id)),
        };
        let i: usize = match find_at(&pools.stored, offset) {
            Some(i) => i,
            None => return Err(OpenPoolError::Unavailable(id)),
        };
        let opened = crate::pool::shared::open(
            directory,
            &self.region,
            id,
            &mut pools.stored[i].header,
        );
        assert(pools.stored@ =~= before.stored@.update(i as int, pools.stored@[i as int]));
        match opened {
            Some(pool) => Ok(pool),
            None => Err(OpenPoolError::Unavailable(id)),
        }
    }

    /// Creates a channel of `capacity` items for each direction, and the port of
    /// its second role.
    pub fn create_channel<H: Repr>(&self, shared: &mut Shared, capacity: u64) -> (made: NewChannel<
        H,
    >)
        requires
            self.wf(),
            super::steady(*old(shared), self.region_spec()),
        ensures
            super::steady(*final(shared), self.region_spec()),
            same_frame(*old(shared), *final(shared)),
            made matches Ok((_, _, stored)) ==> stored.header.wf(),
            channel_creates(*old(shared), *final(shared), self.region_spec(), capacity, made),
    {
        let geometry = match Duplex::<H>::geometry(capacity) {
            Ok(geometry) => geometry,
            Err(_) => return Err(ChannelCreateError::InvalidCapacity),
        };
        let mut directory: Option<Directory> = None;
        core::mem::swap(&mut directory, &mut shared.directory.inner);
        let mut heap: Option<TalckMeta> = None;
        core::mem::swap(&mut heap, &mut shared.heap.inner);
        match (directory, heap) {
            (Some(mut directory), Some(mut heap)) => {
                let created = directory.create_in::<Duplex<H>>(
                    &self.region,
                    &mut heap,
                    self.region.region,
                    capacity,
                    geometry.layout,
                );
                let ghost outcome = created;
                shared.directory.inner = Some(directory);
                shared.heap.inner = Some(heap);
                proof {
                    assert(crate::dir::create::creates::<Duplex<H>>(
                        old(shared).dir(),
                        shared.dir(),
                        old(shared).talc(),
                        shared.talc(),
                        self.region,
                        capacity,
                        geometry.layout,
                        outcome,
                    ));
                }
                match created {
                    Err(_) => Err(ChannelCreateError::Exhausted),
                    Ok((name, mut header)) => {
                        let mut inner: Option<Duplex<H>> = None;
                        core::mem::swap(&mut inner, &mut header.inner);
                        match inner {
                            None => Err(ChannelCreateError::Exhausted),
                            Some(mut duplex) => {
                                let id = ChannelId::of(name, capacity);
                                let named = ChannelId::of(name, capacity);
                                let (channel, generation) = Channel::creator(
                                    &mut duplex,
                                    id,
                                    self.region.member.slot,
                                );
                                header.inner = Some(duplex);
                                Ok(
                                    (
                                        channel,
                                        Port::new(named, 1, generation),
                                        Stored { at: header.offset, header },
                                    ),
                                )
                            },
                        }
                    },
                }
            },
            _ => Err(ChannelCreateError::Exhausted),
        }
    }
}

} // verus!
