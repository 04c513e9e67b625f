//! How the layouts of a region are found and recovered.

use super::objects::{find_at, Pools, Stored};
use crate::channel::duplex::Duplex;
use crate::channel::Info as ChannelInfo;
use crate::dir::open::finish_layout;
use crate::header::layout::{Layout, RecoveryHandler};
use crate::header::record::RecordedLayout;
use crate::header::PARTICIPANT_CAPACITY;
use crate::mem::Region;
use crate::msg::Repr;
use crate::pool::geometry::Geometry;
use crate::pool::storage::Storage;
use vstd::prelude::*;

verus! {

/// What a region holds beside its directory and its heap.
pub trait Layouts: Sized {
    spec fn wf(&self) -> bool;

    /// The record of the layout at an offset, where one lies there that can be
    /// read and lies in the region as a whole.
    spec fn recorded_spec(&self, region: Region, offset: u64) -> Option<RecordedLayout>;

    fn recorded(&self, region: &Region, offset: u64) -> (recorded: Option<RecordedLayout>)
        requires
            self.wf(),
        ensures
            recorded == self.recorded_spec(*region, offset),
    ;

    /// Whether the layout at an offset is closed for good.
    spec fn closed_spec(&self, offset: u64) -> bool;

    fn closed(&self, offset: u64) -> (closed: bool)
        requires
            self.wf(),
        ensures
            closed == self.closed_spec(offset),
    ;

    /// What the recovery of the layout at an offset, as one that the handler is
    /// for, may answer and leave.
    spec fn recovers(
        &self,
        handler: RecoveryHandler,
        region: Region,
        offset: u64,
        dead: u8,
        live: u8,
        after: &Self,
        done: bool,
    ) -> bool;

    fn recover(
        &mut self,
        handler: RecoveryHandler,
        region: &Region,
        offset: u64,
        dead: u8,
        live: u8,
    ) -> (done: bool)
        requires
            old(self).wf(),
            dead < PARTICIPANT_CAPACITY,
            live < PARTICIPANT_CAPACITY,
        ensures
            final(self).wf(),
            old(self).recovers(handler, *region, offset, dead, live, final(self), done),
    ;

    /// What is known of the directory before its layouts are recovered: which
    /// offsets it publishes, where it could be walked.
    spec fn told(&self, published: Option<Seq<u64>>, after: &Self) -> bool;

    fn tell(&mut self, published: Option<Vec<u64>>)
        requires
            old(self).wf(),
        ensures
            final(self).wf(),
            old(self).told(
                match published {
                    Some(offsets) => Some(offsets@),
                    None => None,
                },
                final(self),
            ),
    ;
}

/// The pools of a region and its channels with headers of type `H`.
pub struct Objects<H: Repr> {
    pub pools: Pools,
    pub channels: Vec<Stored<Duplex<H>>>,
}

/// What the recovery of a pool answers and leaves.
pub open spec fn pool_recovers(
    before: Stored<Storage>,
    after: Stored<Storage>,
    region: Region,
    dead: u8,
    done: bool,
) -> bool {
    let header = before.header;
    let contents = (header.inner->0)@;
    match super::objects::readable(before, region) {
        None => !done && after == before,
        Some(recorded) => if !crate::pool::geometry::records(header.info->0, recorded.extent) {
            !done && after == before
        } else {
            &&& done == crate::pool::storage::all_canonical(contents)
            &&& after.at == before.at
            &&& after.header.same_fields(header)
            &&& after.header.record@ == header.record@
            &&& after.header.members == (if done {
                header.members & !crate::header::layout::member_bit(dead)
            } else {
                header.members
            })
            &&& done ==> !crate::header::layout::is_member(after.header.members, dead)
            &&& after.header.inner matches Some(storage) && pool_freed(
                contents,
                storage@,
                dead,
            )
        },
    }
}

/// The blocks of a dead participant are free: all of them, or those before the
/// first word that no pool writes.
pub open spec fn pool_freed(
    before: crate::pool::storage::StorageView,
    after: crate::pool::storage::StorageView,
    dead: u8,
) -> bool {
    &&& after.wf()
    &&& after.classes == before.classes
    &&& after.bytes == before.bytes
    &&& forall|c: int, s: int|
        before.has(c, s) ==> #[trigger] after.word(c, s) == (if crate::pool::storage::canonical_to(
            before,
            c,
            s,
        ) {
            crate::pool::storage::freed(before.word(c, s), dead)
        } else {
            before.word(c, s)
        })
}

/// What the recovery of a channel answers and leaves.
pub open spec fn channel_recovers<H: Repr>(
    before: Stored<Duplex<H>>,
    after: Stored<Duplex<H>>,
    region: Region,
    dead: u8,
    live: u8,
    pools: Pools,
    released: Pools,
    done: bool,
) -> bool {
    let header = before.header;
    match super::objects::readable(before, region) {
        None => !done && after == before && released == pools,
        Some(recorded) => {
            &&& after.at == before.at
            &&& after.header.same_fields(header)
            &&& after.header.record@ == header.record@
            &&& after.header.members == (if done {
                header.members & !crate::header::layout::member_bit(dead)
            } else {
                header.members
            })
            &&& done ==> !crate::header::layout::is_member(after.header.members, dead)
            &&& after.header.inner matches Some(duplex)
                && crate::channel::recovery::duplex_recovers(
                header.inner->0,
                duplex,
                header.info->0,
                recorded.extent,
                dead,
                live,
                pools,
                released,
                done,
            )
        },
    }
}

/// Recovers one pool.
fn recover_pool(stored: &mut Stored<Storage>, region: &Region, dead: u8) -> (done: bool)
    requires
        old(stored).header.wf(),
        old(stored).header.inner matches Some(storage) ==> storage@.wf(),
        dead < PARTICIPANT_CAPACITY,
    ensures
        final(stored).header.wf(),
        final(stored).header.inner matches Some(storage) ==> storage@.wf(),
        pool_recovers(*old(stored), *final(stored), *region, dead, done),
{
    proof {
        crate::pool::storage::law_pool_header();
    }
    let recorded = match stored.read(region) {
        Some(recorded) => recorded,
        None => return false,
    };
    let info = match stored.header.info {
        Some(info) => info,
        None => return false,
    };
    if Geometry::recorded(info, recorded.extent).is_none() {
        return false;
    }
    let mut contents: Option<Storage> = None;
    core::mem::swap(&mut contents, &mut stored.header.inner);
    match contents {
        None => false,
        Some(mut storage) => {
            let recovered = storage.recover(dead);
            stored.header.inner = Some(storage);
            recovered && finish_layout(&mut stored.header, dead)
        },
    }
}

/// Recovers one channel, giving back what its items hold.
fn recover_channel<H: Repr>(
    stored: &mut Stored<Duplex<H>>,
    region: &Region,
    dead: u8,
    live: u8,
    pools: &mut Pools,
) -> (done: bool)
    requires
        old(stored).header.wf(),
        old(pools).wf(),
        dead < PARTICIPANT_CAPACITY,
        live < PARTICIPANT_CAPACITY,
    ensures
        final(stored).header.wf(),
        final(pools).wf(),
        channel_recovers(
            *old(stored),
            *final(stored),
            *region,
            dead,
            live,
            *old(pools),
            *final(pools),
            done,
        ),
{
    let _ = crate::channel::duplex::channel_header();
    let recorded = match stored.read(region) {
        Some(recorded) => recorded,
        None => return false,
    };
    let info: ChannelInfo = match stored.header.info {
        Some(info) => info,
        None => return false,
    };
    let mut contents: Option<Duplex<H>> = None;
    core::mem::swap(&mut contents, &mut stored.header.inner);
    match contents {
        None => false,
        Some(mut duplex) => {
            let recovered = duplex.recover(&info, recorded.extent, dead, live, pools);
            stored.header.inner = Some(duplex);
            recovered && finish_layout(&mut stored.header, dead)
        },
    }
}

/// The record of a layout that lies in the region as a whole, of whatever kind.
pub open spec fn found<L: Layout>(
    stored: Stored<L>,
    region: Region,
) -> Option<RecordedLayout> {
    let address = region.map.start + stored.at;
    let recorded = stored.header.record@.layout_value();
    if address <= u64::MAX && stored.header.record@.unreadable(address as u64) is None
        && region.offset_spec(address, recorded.extent as int) is Ok {
        Some(recorded)
    } else {
        None
    }
}

fn look_at<L: Layout>(stored: &Stored<L>, region: &Region) -> (recorded: Option<RecordedLayout>)
    requires
        stored.header.wf(),
    ensures
        recorded == found(*stored, *region),
{
    let address: u64 = match region.map.start.checked_add(stored.at) {
        Some(address) => address,
        None => return None,
    };
    let recorded = match stored.header.record.recorded_at(address) {
        Ok(recorded) => recorded,
        Err(_) => return None,
    };
    match region.offset_of(address, recorded.extent) {
        Ok(_) => Some(recorded),
        Err(_) => None,
    }
}

impl<H: Repr> Layouts for Objects<H> {
    open spec fn wf(&self) -> bool {
        &&& self.pools.wf()
        &&& forall|i: int|
            0 <= i < self.channels@.len() ==> (#[trigger] self.channels@[i]).header.wf()
    }

    open spec fn recorded_spec(&self, region: Region, offset: u64) -> Option<RecordedLayout> {
        match super::objects::first_at(self.pools.stored@, offset, 0) {
            Some(i) => found(self.pools.stored@[i], region),
            None => match super::objects::first_at(self.channels@, offset, 0) {
                Some(i) => found(self.channels@[i], region),
                None => None,
            },
        }
    }

    fn recorded(&self, region: &Region, offset: u64) -> (recorded: Option<RecordedLayout>) {
        match find_at(&self.pools.stored, offset) {
            Some(i) => look_at(&self.pools.stored[i], region),
            None => match find_at(&self.channels, offset) {
                Some(i) => look_at(&self.channels[i], region),
                None => None,
            },
        }
    }

    open spec fn closed_spec(&self, offset: u64) -> bool {
        match super::objects::first_at(self.pools.stored@, offset, 0) {
            Some(i) => crate::header::layout::is_closed(self.pools.stored@[i].header.members),
            None => match super::objects::first_at(self.channels@, offset, 0) {
                Some(i) => crate::header::layout::is_closed(self.channels@[i].header.members),
                None => false,
            },
        }
    }

    fn closed(&self, offset: u64) -> (closed: bool) {
        match find_at(&self.pools.stored, offset) {
            Some(i) => self.pools.stored[i].header.closed(),
            None => match find_at(&self.channels, offset) {
                Some(i) => self.channels[i].header.closed(),
                None => false,
            },
        }
    }

    open spec fn recovers(
        &self,
        handler: RecoveryHandler,
        region: Region,
        offset: u64,
        dead: u8,
        live: u8,
        after: &Self,
        done: bool,
    ) -> bool {
        let pool = super::objects::first_at(self.pools.stored@, offset, 0);
        let channel = super::objects::first_at(self.channels@, offset, 0);
        if handler == crate::header::layout::handler_of(
            <Storage as crate::schema::SharedSchema>::schema_spec(),
        ) && pool is Some {
            &&& after.channels@ == self.channels@
            &&& after.pools.region == self.pools.region
            &&& after.pools.published == self.pools.published
            &&& after.pools.stored@ == self.pools.stored@.update(
                pool->0,
                after.pools.stored@[pool->0],
            )
            &&& pool_recovers(
                self.pools.stored@[pool->0],
                after.pools.stored@[pool->0],
                region,
                dead,
                done,
            )
        } else if handler == crate::header::layout::handler_of(
            <Duplex<H> as crate::schema::SharedSchema>::schema_spec(),
        ) && pool is None && channel is Some {
            &&& after.channels@ == self.channels@.update(channel->0, after.channels@[channel->0])
            &&& channel_recovers(
                self.channels@[channel->0],
                after.channels@[channel->0],
                region,
                dead,
                live,
                self.pools,
                after.pools,
                done,
            )
        } else {
            !done && *after == *self
        }
    }

    fn recover(
        &mut self,
        handler: RecoveryHandler,
        region: &Region,
        offset: u64,
        dead: u8,
        live: u8,
    ) -> (done: bool) {
        let ghost before = *self;
        match find_at(&self.pools.stored, offset) {
            Some(i) => {
                if handler != RecoveryHandler::of::<Storage>() {
                    return false;
                }
                let done = recover_pool(&mut self.pools.stored[i], region, dead);
                assert(self.pools.stored@ =~= before.pools.stored@.update(
                    i as int,
                    self.pools.stored@[i as int],
                ));
                done
            },
            None => match find_at(&self.channels, offset) {
                Some(i) => {
                    if handler != RecoveryHandler::of::<Duplex<H>>() {
                        return false;
                    }
                    let done = recover_channel(
                        &mut self.channels[i],
                        region,
                        dead,
                        live,
                        &mut self.pools,
                    );
                    assert(self.channels@ =~= before.channels@.update(
                        i as int,
                        self.channels@[i as int],
                    ));
                    done
                },
                None => false,
            },
        }
    }

    open spec fn told(&self, published: Option<Seq<u64>>, after: &Self) -> bool {
        &&& after.channels@ == self.channels@
        &&& after.pools.region == self.pools.region
        &&& after.pools.stored@ == self.pools.stored@
        &&& match published {
            None => after.pools.published is None,
            Some(offsets) => after.pools.published matches Some(listed) && listed@ == offsets,
        }
    }

    fn tell(&mut self, published: Option<Vec<u64>>) {
        self.pools.published = published;
    }
}

} // verus!
