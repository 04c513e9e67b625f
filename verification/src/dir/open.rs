//! Ways to the layouts that a directory names.

use super::{Directory, Error, Id};
use crate::header::layout::{Layout, RcHeader};
use crate::header::record::RecordedLayout;
use crate::header::PARTICIPANT_CAPACITY;
use crate::mem::Region;
use crate::schema::LayoutContext;
use vstd::prelude::*;

verus! {

/// How a layout of a directory is looked at: it is never made there.
pub open spec fn look(region: Region, offset: u64) -> LayoutContext {
    LayoutContext { region: region.region, offset, allow_init: false }
}

/// What admitting a participant to the layout with the given name does.
pub open spec fn layout_opens<L: Layout>(
    view: super::DirView,
    region: Region,
    id: Id,
    before: RcHeader<L>,
    after: RcHeader<L>,
    conf: L::Config,
    opened: Result<(), Error>,
) -> bool {
    match view.published(region.region, id) {
        None => opened == Err::<(), Error>(view.unpublished(region.region, id)) && after == before,
        Some(offset) => match region.projection_refused(offset, L::storage_spec(conf)) {
            Some(error) => opened == Err::<(), Error>(Error::Admission(error))
                && after == before,
            None => {
                &&& crate::mem::admission(
                    before,
                    after,
                    (region.map.start + offset) as u64,
                    conf,
                    look(region, offset),
                    region.member.slot,
                    L::storage_spec(conf)->0,
                    match opened {
                        Ok(()) => None,
                        Err(Error::Admission(error)) => Some(error),
                        Err(_) => None,
                    },
                )
                &&& opened is Ok || opened matches Err(Error::Admission(_))
            },
        },
    }
}

impl Directory {
    /// Admits this participant to the layout with the given name.
    pub fn open<L: Layout>(
        &self,
        region: &Region,
        id: Id,
        header: &mut RcHeader<L>,
        conf: L::Config,
    ) -> (opened: Result<(), Error>)
        requires
            self@.wf(),
            region.wf(),
            old(header).wf(),
            region.map.start + region.map.len <= u64::MAX,
            crate::header::layout::header_fits(L::info_extent_spec(), L::body_spec()),
            L::storage_spec(conf) matches Some(extent) ==> extent.wf(),
        ensures
            final(header).wf(),
            layout_opens(self@, *region, id, *old(header), *final(header), conf, opened),
    {
        let offset: u64 = match self.offset(region.region, id) {
            Ok(offset) => offset,
            Err(error) => return Err(error),
        };
        match region.admit_at(header, offset, conf, false) {
            Ok(()) => Ok(()),
            Err(error) => Err(Error::Admission(error)),
        }
    }

    /// The record of a layout that is named, where it is a layout of this kind
    /// and lies in the region as a whole.
    pub open spec fn recorded_spec<L: Layout>(
        self,
        region: Region,
        id: Id,
        header: RcHeader<L>,
    ) -> Option<RecordedLayout> {
        match self@.published(region.region, id) {
            None => None,
            Some(offset) => {
                let address = region.map.start + offset;
                let recorded = header.record@.layout_value();
                if address <= u64::MAX && header.inspected(
                    address as u64,
                    look(region, offset),
                ) is None && region.offset_spec(address, recorded.extent as int) is Ok {
                    Some(recorded)
                } else {
                    None
                }
            },
        }
    }

    /// Looks at the layout with the given name without becoming a member of it.
    pub fn inspect<L: Layout>(&self, region: &Region, id: Id, header: &RcHeader<L>) -> (recorded: Option<
        RecordedLayout,
    >)
        requires
            self@.wf(),
            header.record@.wf(),
            crate::header::layout::header_fits(L::info_extent_spec(), L::body_spec()),
        ensures
            recorded == self.recorded_spec(*region, id, *header),
    {
        let offset: u64 = match self.offset(region.region, id) {
            Ok(offset) => offset,
            Err(_) => return None,
        };
        let address: u64 = match region.map.start.checked_add(offset) {
            Some(address) => address,
            None => return None,
        };
        let ctx = LayoutContext { region: region.region, offset, allow_init: false };
        let recorded = match header.inspect(address, ctx) {
            Ok(recorded) => recorded,
            Err(_) => return None,
        };
        match region.offset_of(address, recorded.extent) {
            Ok(_) => Some(recorded),
            Err(_) => None,
        }
    }
}

/// Ends a dead participant's membership of a layout that was recovered.
pub fn finish_layout<L: Layout>(header: &mut RcHeader<L>, dead: u8) -> (gone: bool)
    requires
        dead < PARTICIPANT_CAPACITY,
    ensures
        gone,
        final(header).same_but_members(*old(header)),
        final(header).members == old(header).members & !crate::header::layout::member_bit(dead),
        !crate::header::layout::is_member(final(header).members, dead),
{
    header.recover_member(dead);
    !header.has_member(dead)
}

} // verus!
