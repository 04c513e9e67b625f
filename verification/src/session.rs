//! Sessions: a participant's way to everything in a region.

pub mod objects;
pub mod layouts;
pub mod scan;
pub mod open;
pub mod work;
pub mod channels;
pub mod remove;
pub mod heap;
pub mod reap;
pub mod laws;
pub mod taking;
pub mod leaving;
pub mod reaping;

use crate::dir::Directory;
use crate::header::layout::RcHeader;
use crate::header::root::Root;
use crate::mem::{Mapping, Peer, Region};
use crate::talc::lock::TalckMeta;
use vstd::prelude::*;

verus! {

/// What every region holds: its root, its directory and its heap.
pub struct Shared {
    pub root: RcHeader<Root>,
    pub directory: RcHeader<Directory>,
    pub heap: RcHeader<TalckMeta>,
}

impl Shared {
    /// A region whose root, directory and heap are in place.
    pub open spec fn wf(self) -> bool {
        &&& self.root.wf()
        &&& self.root.inner matches Some(root) && root.wf()
        &&& self.directory.wf()
        &&& self.directory.inner matches Some(directory) && directory@.wf()
        &&& self.heap.wf()
        &&& self.heap.inner matches Some(heap) && heap.wf()
    }

    /// The directory of the region.
    pub open spec fn dir(self) -> crate::dir::DirView {
        (self.directory.inner->0)@
    }

    /// The heap of the region.
    pub open spec fn talc(self) -> TalckMeta {
        self.heap.inner->0
    }

    /// The words of the participants.
    pub open spec fn words(self) -> Seq<u64> {
        (self.root.inner->0).members@
    }
}

/// The region can be worked with by a participant that maps it like this: its
/// heap lies behind its root, and a change of the directory that was left
/// unfinished can be finished or undone.
pub open spec fn steady(shared: Shared, region: Region) -> bool {
    &&& workable(shared)
    &&& crate::dir::change::behind_root(region, shared.talc())
}

/// The region is in place, and a change of its directory that was left
/// unfinished can be finished or undone.
pub open spec fn workable(shared: Shared) -> bool {
    &&& shared.wf()
    &&& crate::dir::create::resumable(shared.dir())
    &&& crate::dir::recover::sound(
        shared.dir(),
        shared.talc(),
        crate::dir::SLAB_BYTES as int,
    )
}

/// The header holds the same, but for its body and its membership word.
pub open spec fn same_header<L: crate::header::layout::Layout>(
    before: RcHeader<L>,
    after: RcHeader<L>,
) -> bool {
    after.same_fields(before) && after.record@ == before.record@
}

/// The membership word without a participant.
pub open spec fn without(members: u64, slot: u8) -> u64 {
    members & !crate::header::layout::member_bit(slot)
}

/// The root of a region that a participant left.
pub open spec fn departs(before: RcHeader<Root>, after: RcHeader<Root>, region: Region) -> bool {
    &&& after.same_fields(before)
    &&& after.record@ == before.record@
    &&& after.members == before.members
    &&& match before.inner {
        None => after.inner is None,
        Some(root) => after.inner matches Some(left) && left.members@ == (if !region.detached
            && root.is(region.member, crate::header::root::MEMBER_LIVE) {
            root.members@.update(
                region.member.slot as int,
                crate::header::root::word_of(
                    region.member.generation,
                    crate::header::root::MEMBER_FREE,
                ),
            )
        } else {
            root.members@
        }),
    }
}

/// Takes a participant out of the root of its region.
pub(crate) fn depart(region: Region, root: &mut RcHeader<Root>)
    requires
        region.wf(),
        old(root).wf(),
        old(root).inner matches Some(inner) ==> inner.wf(),
    ensures
        final(root).wf(),
        final(root).inner matches Some(inner) ==> inner.wf(),
        departs(*old(root), *final(root), region),
{
    let mut region = region;
    match root.inner.take() {
        None => {},
        Some(mut inner) => {
            region.detach(&mut inner);
            root.inner = Some(inner);
        },
    }
}

/// A participant's session in a region.
#[derive(Clone, Copy, Debug, PartialEq, Eq)]
pub struct Session {
    pub(crate) region: Region,
}

impl Session {
    pub closed spec fn region_spec(self) -> Region {
        self.region
    }

    pub open spec fn wf(self) -> bool {
        let region = self.region_spec();
        region.wf() && region.map.start + region.map.len <= u64::MAX
    }

    /// The participant of this session.
    pub fn peer(&self) -> (peer: Peer)
        ensures
            peer.member_spec() == self.region_spec().member,
    {
        self.region.peer()
    }

    /// Ends the session: its participant leaves the directory and the heap; and
    /// the region, where nothing else of it is in use (`unique`). The mapping of a
    /// region that was left comes back, to be released.
    pub fn end(self, shared: &mut Shared, unique: bool) -> (released: Option<Mapping>)
        requires
            self.wf(),
            old(shared).wf(),
        ensures
            final(shared).wf(),
            released == (if unique {
                Some(self.region_spec().map)
            } else {
                None
            }),
            ({
                let region = self.region_spec();
                let slot = region.member.slot;
                let before = *old(shared);
                let after = *final(shared);
                &&& after.directory.same_but_members(before.directory)
                &&& after.directory.members == without(before.directory.members, slot)
                &&& after.heap.same_but_members(before.heap)
                &&& after.heap.members == without(before.heap.members, slot)
                &&& if unique {
                    departs(before.root, after.root, region)
                } else {
                    after.root == before.root
                }
            }),
    {
        shared.directory.leave(self.region.member.slot);
        shared.heap.leave(self.region.member.slot);
        if unique {
            depart(self.region, &mut shared.root);
            Some(self.region.map)
        } else {
            None
        }
    }

    /// The address from which the heap counts.
    pub fn base_addr(&self, shared: &Shared) -> (base: u64)
        requires
            shared.wf(),
        ensures
            base == shared.talc().talc.base_spec(),
    {
        match &shared.heap.inner {
            Some(heap) => heap.base_ptr(),
            None => 0,
        }
    }
}

} // verus!
