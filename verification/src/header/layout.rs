//! Admission of a layout: its header is written once, and everybody who comes
//! after compares it before anything of the body is touched.

use super::record::{AbiProfile, Magic, Record, RecordedLayout, Status};
use super::{AdmitError, LayoutField, PARTICIPANT_CAPACITY};
use crate::bytes::write_le;
use crate::extent::Extent;
use crate::schema::{LayoutContext, LayoutId, LayoutInfo, RegionId, SchemaId, SchemaKey, SharedSchema};
use vstd::prelude::*;

verus! {

/// The bit of the membership word that says the layout is closed.
pub const CLOSED_BIT: u64 = 63;

pub const CLOSED: u64 = 0x8000_0000_0000_0000;

/// Bytes of a header before the information value.
pub const HEADER_FIXED: u64 = 136;

#[derive(Clone, Copy, Debug, PartialEq, Eq, Structural)]
pub enum CloseError {
    Contention,
    MissingMember,
    Closed,
}

/// The member's bit of the membership word.
pub open spec fn member_bit(slot: u8) -> u64 {
    1u64 << (slot as u64)
}

pub open spec fn is_member(members: u64, slot: u8) -> bool {
    crate::numeric::bit_is_set(members, slot as u64)
}

pub open spec fn is_closed(members: u64) -> bool {
    crate::numeric::bit_is_set(members, CLOSED_BIT)
}

/// A body that a region shares, with its own schema and information value.
///
/// The schema identifies one stable representation. What `init` makes is
/// complete: nothing of it was there before.
pub trait Layout: SharedSchema + Sized {
    type Config;

    type Info: LayoutInfo;

    spec fn magic_spec() -> Magic;

    /// The body's own size and alignment in the region.
    spec fn body_spec() -> Extent;

    /// The information value's size and alignment in the region.
    spec fn info_extent_spec() -> Extent;

    /// What the whole layout takes, where its configuration allows one.
    spec fn storage_spec(conf: Self::Config) -> Option<Extent>;

    spec fn info_spec(conf: Self::Config, ctx: LayoutContext) -> Self::Info;

    /// What a first initialization may make of a configuration.
    spec fn init_spec(conf: Self::Config, made: Result<Self, Status>) -> bool;

    spec fn attach_spec(&self, conf: Self::Config) -> Status;

    fn magic() -> (magic: Magic)
        ensures
            magic == Self::magic_spec(),
    ;

    fn body() -> (extent: Extent)
        ensures
            extent == Self::body_spec(),
            extent.wf(),
    ;

    fn info_extent() -> (extent: Extent)
        ensures
            extent == Self::info_extent_spec(),
            extent.wf(),
    ;

    fn storage(conf: &Self::Config) -> (extent: Option<Extent>)
        ensures
            extent == Self::storage_spec(*conf),
    ;

    fn info(conf: &Self::Config, ctx: LayoutContext) -> (info: Self::Info)
        ensures
            info == Self::info_spec(*conf, ctx),
    ;

    /// Makes a body where there was none.
    fn init(conf: Self::Config) -> (made: Result<Self, Status>)
        ensures
            Self::init_spec(conf, made),
    ;

    /// Looks at a body that somebody else made.
    fn attach(&self, conf: &Self::Config) -> (status: Status)
        ensures
            status == self.attach_spec(*conf),
    ;
}

/// The extent of a header with its information value and its body.
pub open spec fn header_size_spec(info: Extent, body: Extent) -> int {
    let at = crate::extent::place(HEADER_FIXED as int, info.align as int);
    let inner = crate::extent::place(at + info.size, body.align as int);
    crate::extent::place(inner + body.size, header_align_spec(info, body) as int)
}

pub open spec fn header_align_spec(info: Extent, body: Extent) -> u64 {
    crate::extent::larger(crate::extent::larger(8, info.align), body.align)
}

/// The extent of a header, unless it is none.
pub fn header_extent(info: Extent, body: Extent) -> (extent: Option<Extent>)
    requires
        info.wf(),
        body.wf(),
    ensures
        extent matches Some(extent) ==> extent.wf() && extent.size == header_size_spec(info, body)
            && extent.align == header_align_spec(info, body),
        header_fits(info, body) ==> extent is Some,
{
    proof {
        crate::numeric::lemma_pow2_is_power(3);
        vstd::arithmetic::power2::lemma2_to64();
    }
    let fixed = Extent { size: HEADER_FIXED, align: 8 };
    match fixed.extend(info) {
        None => None,
        Some((with_info, _)) => match with_info.extend(body) {
            None => None,
            Some((whole, _)) => Some(whole.pad_to_align()),
        },
    }
}

/// A header of these parts is an extent.
pub open spec fn header_fits(info: Extent, body: Extent) -> bool {
    let at = crate::extent::place(HEADER_FIXED as int, info.align as int);
    let inner = crate::extent::place(at + info.size, body.align as int);
    &&& crate::extent::is_extent(at + info.size, crate::extent::larger(8, info.align) as int)
    &&& crate::extent::is_extent(inner + body.size, header_align_spec(info, body) as int)
}

/// A layout with its header.
pub struct RcHeader<T: Layout> {
    pub record: Record,
    pub members: u64,
    pub region: RegionId,
    pub offset: u64,
    pub header_size: u64,
    pub header_align: u64,
    pub info_schema: SchemaId,
    pub info_revision: u32,
    pub info_size: u64,
    pub info_align: u64,
    pub body_size: u64,
    pub body_align: u64,
    pub info: Option<T::Info>,
    pub inner: Option<T>,
}

impl<T: Layout> RcHeader<T> {
    /// A complete header has an information value and a body.
    pub open spec fn wf(self) -> bool {
        &&& self.record@.wf()
        &&& super::record::status_of(self.record@.status) == Status::Initialized
            ==> self.info is Some && self.inner is Some
    }

    pub open spec fn status_spec(self) -> Status {
        super::record::status_of(self.record@.status)
    }

    /// Everything but the record, the membership word and the body is as in
    /// `other`.
    pub open spec fn same_fields(self, other: Self) -> bool {
        &&& self.region == other.region
        &&& self.offset == other.offset
        &&& self.header_size == other.header_size
        &&& self.header_align == other.header_align
        &&& self.info_schema == other.info_schema
        &&& self.info_revision == other.info_revision
        &&& self.info_size == other.info_size
        &&& self.info_align == other.info_align
        &&& self.body_size == other.body_size
        &&& self.body_align == other.body_align
        &&& self.info == other.info
    }

    /// The whole header is as in `other`, but for the membership word.
    pub open spec fn same_but_members(self, other: Self) -> bool {
        &&& self.same_fields(other)
        &&& self.record@ == other.record@
        &&& self.inner == other.inner
    }

    /// The first field in which a readable record of `T` differs.
    pub open spec fn inspected(self, address: u64, ctx: LayoutContext) -> Option<LayoutField> {
        let recorded = self.record@.layout_value();
        if self.record@.unreadable(address) is Some {
            self.record@.unreadable(address)
        } else if super::record::foreign(recorded, T::magic_spec(), T::schema_spec()) is Some {
            super::record::foreign(recorded, T::magic_spec(), T::schema_spec())
        } else if self.region != ctx.region {
            Some(LayoutField::Region)
        } else if self.offset != ctx.offset {
            Some(LayoutField::Offset)
        } else if self.header_size != header_size_spec(T::info_extent_spec(), T::body_spec()) {
            Some(LayoutField::HeaderSize)
        } else if self.header_align != header_align_spec(T::info_extent_spec(), T::body_spec()) {
            Some(LayoutField::HeaderAlign)
        } else if self.info_schema != T::Info::schema_spec().id {
            Some(LayoutField::InfoSchema)
        } else if self.info_revision != T::Info::schema_spec().revision {
            Some(LayoutField::InfoRevision)
        } else if self.info_size != T::info_extent_spec().size {
            Some(LayoutField::InfoSize)
        } else if self.info_align != T::info_extent_spec().align {
            Some(LayoutField::InfoAlign)
        } else if self.body_size != T::body_spec().size {
            Some(LayoutField::Size)
        } else if self.body_align != T::body_spec().align {
            Some(LayoutField::Align)
        } else {
            None
        }
    }

    /// The first field in which the header differs from what `conf` asks for.
    pub open spec fn differs(
        self,
        address: u64,
        conf: T::Config,
        ctx: LayoutContext,
        storage: Extent,
    ) -> Option<LayoutField> {
        if self.inspected(address, ctx) is Some {
            self.inspected(address, ctx)
        } else if self.record@.extent != crate::bytes::le_bytes(storage.size as nat, 8) {
            Some(LayoutField::Extent)
        } else if self.record@.extent_align != crate::bytes::le_bytes(storage.align as nat, 8) {
            Some(LayoutField::ExtentAlign)
        } else if self.info != Some(T::info_spec(conf, ctx)) {
            Some(LayoutField::Info)
        } else {
            None
        }
    }

    /// Memory of zero bytes, where no layout was made yet.
    pub fn zeroed() -> (header: Self)
        ensures
            header.wf(),
            header.record@ == super::record::zero_record(),
            header.members == 0,
            header.info is None,
            header.inner is None,
    {
        RcHeader {
            record: Record::zeroed(),
            members: 0,
            region: RegionId::new(0, 0),
            offset: 0,
            header_size: 0,
            header_align: 0,
            info_schema: SchemaId(0),
            info_revision: 0,
            info_size: 0,
            info_align: 0,
            body_size: 0,
            body_align: 0,
            info: None,
            inner: None,
        }
    }

    pub fn status(&self) -> (status: Status)
        ensures
            status == self.status_spec(),
    {
        Status::from_u8(self.record.status)
    }

    pub fn layout_id(&self) -> (id: LayoutId)
        ensures
            id == (LayoutId { region: self.region, offset: self.offset }),
    {
        LayoutId { region: self.region, offset: self.offset }
    }

    /// The recorded information of a complete header.
    pub fn layout_info(&self) -> (info: Option<&T::Info>)
        ensures
            match info {
                Some(found) => self.info == Some(*found),
                None => self.info is None,
            },
    {
        self.info.as_ref()
    }

    /// Closes the layout for its only member.
    pub fn close_unique(&mut self, slot: u8) -> (closed: Result<(), CloseError>)
        requires
            slot < PARTICIPANT_CAPACITY,
        ensures
            final(self).same_but_members(*old(self)),
            match closed {
                Ok(()) => old(self).members == member_bit(slot) && final(self).members == CLOSED,
                Err(error) => final(self).members == old(self).members && old(self).members
                    != member_bit(slot) && error == (if is_closed(old(self).members) {
                    CloseError::Closed
                } else if !is_member(old(self).members, slot) {
                    CloseError::MissingMember
                } else {
                    CloseError::Contention
                }),
            },
    {
        let bit: u64 = 1u64 << (slot as u64);
        proof {
            crate::numeric::lemma_mask_bit(self.members, slot as u64);
            crate::numeric::lemma_mask_bit(self.members, CLOSED_BIT);
            lemma_closed();
        }
        if self.members == bit {
            self.members = CLOSED;
            Ok(())
        } else if self.members & CLOSED != 0 {
            Err(CloseError::Closed)
        } else if self.members & bit == 0 {
            Err(CloseError::MissingMember)
        } else {
            Err(CloseError::Contention)
        }
    }

    /// Takes a dead participant out of the membership.
    pub fn recover_member(&mut self, slot: u8) -> (was: bool)
        requires
            slot < PARTICIPANT_CAPACITY,
        ensures
            final(self).same_but_members(*old(self)),
            was == is_member(old(self).members, slot),
            final(self).members == old(self).members & !member_bit(slot),
            !is_member(final(self).members, slot),
    {
        let bit: u64 = 1u64 << (slot as u64);
        let before: u64 = self.members;
        self.members = before & !bit;
        proof {
            crate::numeric::lemma_mask_bit(before, slot as u64);
            crate::numeric::lemma_set_bit(before, slot as u64, slot as u64);
        }
        before & bit != 0
    }

    pub fn has_member(&self, slot: u8) -> (has: bool)
        requires
            slot < PARTICIPANT_CAPACITY,
        ensures
            has == is_member(self.members, slot),
    {
        proof {
            crate::numeric::lemma_mask_bit(self.members, slot as u64);
        }
        self.members & (1u64 << (slot as u64)) != 0
    }

    /// Ends a membership.
    pub fn leave(&mut self, slot: u8)
        requires
            slot < PARTICIPANT_CAPACITY,
        ensures
            final(self).same_but_members(*old(self)),
            final(self).members == old(self).members & !member_bit(slot),
    {
        self.members = self.members & !(1u64 << (slot as u64));
    }

    pub fn closed(&self) -> (closed: bool)
        ensures
            closed == is_closed(self.members),
    {
        proof {
            crate::numeric::lemma_mask_bit(self.members, CLOSED_BIT);
            lemma_closed();
        }
        self.members & CLOSED != 0
    }

    /// The region of a readable header.
    pub fn published_region(&self, address: u64) -> (region: Option<RegionId>)
        requires
            self.record@.wf(),
        ensures
            region == (if self.record@.unreadable(address) is None {
                Some(self.region)
            } else {
                None
            }),
    {
        match self.record.recorded_at(address) {
            Ok(_) => Some(self.region),
            Err(_) => None,
        }
    }

    /// Compares everything that does not depend on a configuration.
    pub fn inspect(&self, address: u64, ctx: LayoutContext) -> (inspected: Result<
        RecordedLayout,
        AdmitError,
    >)
        requires
            self.record@.wf(),
            header_fits(T::info_extent_spec(), T::body_spec()),
        ensures
            match self.inspected(address, ctx) {
                Some(field) => inspected == Err::<RecordedLayout, AdmitError>(
                    AdmitError::Mismatch(field),
                ),
                None => inspected == Ok::<RecordedLayout, AdmitError>(self.record@.layout_value()),
            },
    {
        let recorded = match self.record.recorded_at(address) {
            Ok(recorded) => recorded,
            Err(error) => return Err(error),
        };
        match recorded.mismatch(T::magic(), T::schema()) {
            Some(field) => return Err(AdmitError::Mismatch(field)),
            None => {},
        }
        let info = T::info_extent();
        let body = T::body();
        let header = match header_extent(info, body) {
            Some(header) => header,
            None => return Err(AdmitError::InvalidHeader),
        };
        let info_schema = T::Info::schema();
        if self.region != ctx.region {
            return Err(AdmitError::Mismatch(LayoutField::Region));
        }
        if self.offset != ctx.offset {
            return Err(AdmitError::Mismatch(LayoutField::Offset));
        }
        if self.header_size != header.size {
            return Err(AdmitError::Mismatch(LayoutField::HeaderSize));
        }
        if self.header_align != header.align {
            return Err(AdmitError::Mismatch(LayoutField::HeaderAlign));
        }
        if self.info_schema != info_schema.id {
            return Err(AdmitError::Mismatch(LayoutField::InfoSchema));
        }
        if self.info_revision != info_schema.revision {
            return Err(AdmitError::Mismatch(LayoutField::InfoRevision));
        }
        if self.info_size != info.size {
            return Err(AdmitError::Mismatch(LayoutField::InfoSize));
        }
        if self.info_align != info.align {
            return Err(AdmitError::Mismatch(LayoutField::InfoAlign));
        }
        if self.body_size != body.size {
            return Err(AdmitError::Mismatch(LayoutField::Size));
        }
        if self.body_align != body.align {
            return Err(AdmitError::Mismatch(LayoutField::Align));
        }
        Ok(recorded)
    }

    /// The first field in which a complete header differs from what is asked.
    pub fn mismatch_at(
        &self,
        address: u64,
        conf: &T::Config,
        ctx: LayoutContext,
        storage: Extent,
    ) -> (field: Option<LayoutField>)
        requires
            self.wf(),
            header_fits(T::info_extent_spec(), T::body_spec()),
        ensures
            field == self.differs(address, *conf, ctx, storage),
    {
        match self.inspect(address, ctx) {
            Ok(_) => {},
            Err(AdmitError::Mismatch(field)) => return Some(field),
            Err(_) => return Some(LayoutField::State),
        }
        if !same_bytes(&self.record.extent, &write_le(storage.size, 8)) {
            return Some(LayoutField::Extent);
        }
        if !same_bytes(&self.record.extent_align, &write_le(storage.align, 8)) {
            return Some(LayoutField::ExtentAlign);
        }
        let expected = T::info(conf, ctx);
        match &self.info {
            Some(info) => {
                if info.same(&expected) {
                    None
                } else {
                    Some(LayoutField::Info)
                }
            },
            None => Some(LayoutField::Info),
        }
    }

    /// Adds a member to a layout that is not closed.
    pub fn claim(&mut self, slot: Option<u8>) -> (claimed: Result<(), AdmitError>)
        requires
            slot matches Some(slot) ==> slot < PARTICIPANT_CAPACITY,
        ensures
            final(self).same_but_members(*old(self)),
            match claimable(old(self).members, slot) {
                Some(error) => claimed == Err::<(), AdmitError>(error) && final(self).members
                    == old(self).members,
                None => claimed is Ok && final(self).members == with_member(
                    old(self).members,
                    slot,
                ),
            },
    {
        let slot: u8 = match slot {
            Some(slot) => slot,
            None => return Ok(()),
        };
        proof {
            crate::numeric::lemma_mask_bit(self.members, slot as u64);
            crate::numeric::lemma_mask_bit(self.members, CLOSED_BIT);
            lemma_closed();
        }
        let bit: u64 = 1u64 << (slot as u64);
        let observed: u64 = self.members;
        if observed & CLOSED != 0 {
            return Err(AdmitError::Closed);
        }
        if observed & bit != 0 {
            return Err(AdmitError::DuplicateMember);
        }
        self.members = observed | bit;
        Ok(())
    }

    /// The header after its first initialization with the given outcome.
    pub open spec fn initialized(
        self,
        before: Self,
        conf: T::Config,
        ctx: LayoutContext,
        slot: Option<u8>,
        storage: Extent,
        made: Result<T, Status>,
    ) -> bool {
        let status = if made is Ok {
            Status::Initialized
        } else {
            Status::Corrupted
        };
        &&& self.record@ == super::record::record_of(
            super::record::status_byte(status),
            T::magic_spec(),
            T::schema_spec(),
            storage,
        )
        &&& self.region == ctx.region
        &&& self.offset == ctx.offset
        &&& self.header_size == header_size_spec(T::info_extent_spec(), T::body_spec())
        &&& self.header_align == header_align_spec(T::info_extent_spec(), T::body_spec())
        &&& self.info_schema == T::Info::schema_spec().id
        &&& self.info_revision == T::Info::schema_spec().revision
        &&& self.info_size == T::info_extent_spec().size
        &&& self.info_align == T::info_extent_spec().align
        &&& self.body_size == T::body_spec().size
        &&& self.body_align == T::body_spec().align
        &&& self.info == Some(T::info_spec(conf, ctx))
        &&& match made {
            Ok(body) => self.inner == Some(body) && self.members == with_member(0, slot),
            Err(_) => self.inner is None && self.members == 0,
        }
    }

    /// Takes an untouched header for initialization.
    pub fn begin_init(&mut self) -> (began: bool)
        ensures
            began == (old(self).status_spec() == Status::Uninitialized),
            final(self).same_fields(*old(self)),
            final(self).members == old(self).members,
            final(self).inner == old(self).inner,
            final(self).record@ == (if began {
                super::record::RecordView {
                    status: super::record::status_byte(Status::Initializing),
                    ..old(self).record@
                }
            } else {
                old(self).record@
            }),
    {
        if self.status() == Status::Uninitialized {
            self.record.status = Status::Initializing.to_u8();
            true
        } else {
            false
        }
    }

    /// Writes the header and the body, and publishes how that went.
    pub fn finish_init(
        &mut self,
        conf: T::Config,
        ctx: LayoutContext,
        slot: Option<u8>,
        storage: Extent,
    ) -> (admitted: Result<(), AdmitError>)
        requires
            slot matches Some(slot) ==> slot < PARTICIPANT_CAPACITY,
            header_fits(T::info_extent_spec(), T::body_spec()),
        ensures
            final(self).wf(),
            exists|made: Result<T, Status>|
                {
                    &&& #[trigger] T::init_spec(conf, made)
                    &&& final(self).initialized(*old(self), conf, ctx, slot, storage, made)
                    &&& admitted == (if made is Ok {
                        Ok::<(), AdmitError>(())
                    } else {
                        Err::<(), AdmitError>(AdmitError::InvalidHeader)
                    })
                },
    {
        let info_extent = T::info_extent();
        let body_extent = T::body();
        match header_extent(info_extent, body_extent) {
            Some(header) => {
                self.header_size = header.size;
                self.header_align = header.align;
            },
            None => {},
        }
        let info = T::info(&conf, ctx);
        let info_schema = T::Info::schema();
        self.record.initialize(T::magic(), T::schema(), storage);
        self.region = ctx.region;
        self.offset = ctx.offset;
        self.info_schema = info_schema.id;
        self.info_revision = info_schema.revision;
        self.info_size = info_extent.size;
        self.info_align = info_extent.align;
        self.body_size = body_extent.size;
        self.body_align = body_extent.align;
        self.info = Some(info);
        match T::init(conf) {
            Ok(body) => {
                self.inner = Some(body);
                self.members = match slot {
                    Some(slot) => 0 | (1u64 << (slot as u64)),
                    None => 0,
                };
                self.record.status = Status::Initialized.to_u8();
                assert(T::init_spec(conf, Ok::<T, Status>(self.inner->0)));
                Ok(())
            },
            Err(status) => {
                self.inner = None;
                self.members = 0;
                self.record.status = Status::Corrupted.to_u8();
                assert(T::init_spec(conf, Err::<T, Status>(status)));
                Err(AdmitError::InvalidHeader)
            },
        }
    }

    /// Admits a participant to the layout at `address`, and makes the layout
    /// first where nobody did and that is allowed.
    pub fn admit_at(&mut self, address: u64, conf: T::Config, ctx: LayoutContext, slot: Option<u8>) -> (
    admitted: Result<(), AdmitError>)
        requires
            old(self).wf(),
            slot matches Some(slot) ==> slot < PARTICIPANT_CAPACITY,
            header_fits(T::info_extent_spec(), T::body_spec()),
        ensures
            final(self).wf(),
            match T::storage_spec(conf) {
                None => admitted == Err::<(), AdmitError>(AdmitError::InvalidHeader)
                    && *final(self) == *old(self),
                Some(storage) => match old(self).status_spec() {
                    Status::Uninitialized => if ctx.allow_init {
                        exists|made: Result<T, Status>|
                            {
                                &&& #[trigger] T::init_spec(conf, made)
                                &&& final(self).initialized(
                                    *old(self),
                                    conf,
                                    ctx,
                                    slot,
                                    storage,
                                    made,
                                )
                                &&& admitted == (if made is Ok {
                                    Ok::<(), AdmitError>(())
                                } else {
                                    Err::<(), AdmitError>(AdmitError::InvalidHeader)
                                })
                            }
                    } else {
                        admitted == Err::<(), AdmitError>(
                            AdmitError::Mismatch(LayoutField::State),
                        ) && *final(self) == *old(self)
                    },
                    Status::Initializing => admitted == Err::<(), AdmitError>(
                        AdmitError::Contention,
                    ) && *final(self) == *old(self),
                    Status::Corrupted => admitted == Err::<(), AdmitError>(
                        AdmitError::InvalidHeader,
                    ) && *final(self) == *old(self),
                    Status::Initialized => final(self).same_but_members(*old(self)) && {
                        let refused = old(self).refuses(address, conf, ctx, slot, storage);
                        match refused {
                            Some(error) => {
                                let compared = old(self).differs(address, conf, ctx, storage) is None;
                                let joined = compared && claimable(old(self).members, slot) is None;
                                &&& admitted == Err::<(), AdmitError>(error)
                                &&& final(self).members == (if joined {
                                    without_member(with_member(old(self).members, slot), slot)
                                } else {
                                    old(self).members
                                })
                            },
                            None => admitted is Ok && final(self).members == with_member(
                                old(self).members,
                                slot,
                            ),
                        }
                    },
                },
            },
    {
        let storage = match T::storage(&conf) {
            Some(storage) => storage,
            None => return Err(AdmitError::InvalidHeader),
        };
        match self.status() {
            Status::Uninitialized => {
                if !ctx.allow_init {
                    return Err(AdmitError::Mismatch(LayoutField::State));
                }
                self.begin_init();
                self.finish_init(conf, ctx, slot, storage)
            },
            Status::Initializing => Err(AdmitError::Contention),
            Status::Corrupted => Err(AdmitError::InvalidHeader),
            Status::Initialized => {
                match self.mismatch_at(address, &conf, ctx, storage) {
                    Some(field) => return Err(AdmitError::Mismatch(field)),
                    None => {},
                }
                match self.claim(slot) {
                    Ok(()) => {},
                    Err(error) => return Err(error),
                }
                let status = match &self.inner {
                    Some(inner) => inner.attach(&conf),
                    None => Status::Corrupted,
                };
                match status {
                    Status::Initialized => Ok(()),
                    Status::Initializing => {
                        self.drop_member(slot);
                        Err(AdmitError::Contention)
                    },
                    _ => {
                        self.drop_member(slot);
                        Err(AdmitError::InvalidHeader)
                    },
                }
            },
        }
    }

    /// Why a complete layout does not admit a participant.
    pub open spec fn refuses(
        self,
        address: u64,
        conf: T::Config,
        ctx: LayoutContext,
        slot: Option<u8>,
        storage: Extent,
    ) -> Option<AdmitError> {
        match self.differs(address, conf, ctx, storage) {
            Some(field) => Some(AdmitError::Mismatch(field)),
            None => match claimable(self.members, slot) {
                Some(error) => Some(error),
                None => match (self.inner->0).attach_spec(conf) {
                    Status::Initialized => None,
                    Status::Initializing => Some(AdmitError::Contention),
                    _ => Some(AdmitError::InvalidHeader),
                },
            },
        }
    }

    fn drop_member(&mut self, slot: Option<u8>)
        requires
            slot matches Some(slot) ==> slot < PARTICIPANT_CAPACITY,
        ensures
            final(self).same_but_members(*old(self)),
            final(self).members == without_member(old(self).members, slot),
    {
        match slot {
            Some(slot) => self.leave(slot),
            None => {},
        }
    }
}

/// Why a membership cannot begin.
pub open spec fn claimable(members: u64, slot: Option<u8>) -> Option<AdmitError> {
    match slot {
        None => None,
        Some(slot) => if is_closed(members) {
            Some(AdmitError::Closed)
        } else if is_member(members, slot) {
            Some(AdmitError::DuplicateMember)
        } else {
            None
        },
    }
}

pub open spec fn with_member(members: u64, slot: Option<u8>) -> u64 {
    match slot {
        Some(slot) => members | member_bit(slot),
        None => members,
    }
}

pub open spec fn without_member(members: u64, slot: Option<u8>) -> u64 {
    match slot {
        Some(slot) => members & !member_bit(slot),
        None => members,
    }
}

pub proof fn lemma_closed()
    ensures
        1u64 << CLOSED_BIT == CLOSED,
{
    assert(1u64 << 63 == 0x8000_0000_0000_0000u64) by (bit_vector);
}

fn same_bytes(a: &Vec<u8>, b: &Vec<u8>) -> (same: bool)
    ensures
        same == (a@ == b@),
{
    if a.len() != b.len() {
        return false;
    }
    let mut i: usize = 0;
    while i < a.len()
        invariant
            i <= a@.len(),
            a@.len() == b@.len(),
            forall|j: int| 0 <= j < i ==> #[trigger] a@[j] == b@[j],
        decreases a@.len() - i,
    {
        if a[i] != b[i] {
            return false;
        }
        i = i + 1;
    }
    assert(a@ =~= b@);
    true
}

/// A refused attachment leaves the membership as it was.
pub proof fn law_refused_member_leaves_no_trace(members: u64, slot: u8)
    requires
        slot < PARTICIPANT_CAPACITY,
        claimable(members, Some(slot)) is None,
    ensures
        without_member(with_member(members, Some(slot)), Some(slot)) == members,
{
    let back = without_member(with_member(members, Some(slot)), Some(slot));
    assert forall|bit: u64| bit < 64 implies #[trigger] crate::numeric::bit_is_set(back, bit)
        == crate::numeric::bit_is_set(members, bit) by {
        crate::numeric::lemma_set_bit(members, slot as u64, bit);
        crate::numeric::lemma_set_bit(members | member_bit(slot), slot as u64, bit);
    }
    crate::numeric::lemma_same_bits(back, members);
}

/// Membership changes touch one participant only.
pub proof fn law_members_are_independent(members: u64, slot: u8, other: u8)
    requires
        slot < PARTICIPANT_CAPACITY,
        other < PARTICIPANT_CAPACITY,
    ensures
        is_member(members | member_bit(slot), other) == (is_member(members, other) || other
            == slot),
        is_member(members & !member_bit(slot), other) == (is_member(members, other) && other
            != slot),
        is_closed(members | member_bit(slot)) == is_closed(members),
        is_closed(members & !member_bit(slot)) == is_closed(members),
{
    crate::numeric::lemma_set_bit(members, slot as u64, other as u64);
    crate::numeric::lemma_set_bit(members, slot as u64, CLOSED_BIT);
}

/// A layout can be closed exactly by its only member.
pub proof fn law_only_the_last_member_closes(members: u64, slot: u8)
    requires
        slot < PARTICIPANT_CAPACITY,
    ensures
        members == member_bit(slot) <==> !is_closed(members) && forall|other: u8|
            other < PARTICIPANT_CAPACITY ==> (#[trigger] is_member(members, other) <==> other
                == slot),
{
    let bit = member_bit(slot);
    if members == bit {
        assert forall|other: u8| other < PARTICIPANT_CAPACITY implies (#[trigger] is_member(
            members,
            other,
        ) <==> other == slot) by {
            crate::numeric::lemma_set_bit(0, slot as u64, other as u64);
        }
        crate::numeric::lemma_set_bit(0, slot as u64, CLOSED_BIT);
    }
    if !is_closed(members) && forall|other: u8|
        other < PARTICIPANT_CAPACITY ==> (#[trigger] is_member(members, other) <==> other == slot) {
        assert forall|b: u64| b < 64 implies #[trigger] crate::numeric::bit_is_set(members, b)
            == crate::numeric::bit_is_set(bit, b) by {
            crate::numeric::lemma_set_bit(0, slot as u64, b);
            if b < 63 {
                assert(is_member(members, b as u8) <==> b as u8 == slot);
            }
        }
        crate::numeric::lemma_same_bits(members, bit);
    }
}

/// Nobody becomes a member of a closed layout.
pub proof fn law_closed_layouts_admit_nobody(members: u64, slot: u8)
    requires
        is_closed(members),
        slot < PARTICIPANT_CAPACITY,
    ensures
        claimable(members, Some(slot)) == Some(AdmitError::Closed),
{
}

impl SharedSchema for super::root::Root {
    open spec fn schema_spec() -> SchemaKey {
        crate::msg::named("evering.root")
    }

    fn schema() -> (key: SchemaKey) {
        SchemaKey::new(crate::schema::schema_id("evering.root"), 1)
    }
}

impl Layout for super::root::Root {
    type Config = ();

    type Info = ();

    open spec fn magic_spec() -> Magic {
        0xABCD
    }

    open spec fn body_spec() -> Extent {
        Extent { size: 504, align: 8 }
    }

    open spec fn info_extent_spec() -> Extent {
        Extent { size: 0, align: 1 }
    }

    open spec fn storage_spec(conf: ()) -> Option<Extent> {
        Some(Extent { size: 640, align: 8 })
    }

    open spec fn info_spec(conf: (), ctx: LayoutContext) -> () {
        ()
    }

    open spec fn init_spec(conf: (), made: Result<Self, Status>) -> bool {
        made matches Ok(root) && root.wf() && forall|i: int|
            0 <= i < root.members@.len() ==> #[trigger] root.members@[i] == 0
    }

    open spec fn attach_spec(&self, conf: ()) -> Status {
        Status::Initialized
    }

    fn magic() -> (magic: Magic) {
        0xABCD
    }

    fn body() -> (extent: Extent) {
        proof {
            lemma_small_alignments();
        }
        Extent { size: 504, align: 8 }
    }

    fn info_extent() -> (extent: Extent) {
        proof {
            lemma_small_alignments();
        }
        Extent { size: 0, align: 1 }
    }

    fn storage(conf: &()) -> (extent: Option<Extent>) {
        Some(Extent { size: 640, align: 8 })
    }

    fn info(conf: &(), ctx: LayoutContext) -> (info: ()) {
    }

    fn init(conf: ()) -> (made: Result<Self, Status>) {
        Ok(super::root::Root::new())
    }

    fn attach(&self, conf: &()) -> (status: Status) {
        Status::Initialized
    }
}

/// The alignments that the layouts of this crate have.
pub proof fn lemma_small_alignments()
    ensures
        crate::numeric::is_power_of_two_spec(1),
        crate::numeric::is_power_of_two_spec(4),
        crate::numeric::is_power_of_two_spec(8),
        crate::numeric::is_power_of_two_spec(64),
        crate::numeric::is_power_of_two_spec(128),
{
    vstd::arithmetic::power2::lemma2_to64();
    crate::numeric::lemma_pow2_is_power(0);
    crate::numeric::lemma_pow2_is_power(2);
    crate::numeric::lemma_pow2_is_power(3);
    crate::numeric::lemma_pow2_is_power(6);
    crate::numeric::lemma_pow2_is_power(7);
}

/// A root with its header takes what it records.
pub proof fn law_root_extent()
    ensures
        header_fits(
            super::root::Root::info_extent_spec(),
            super::root::Root::body_spec(),
        ),
        header_size_spec(super::root::Root::info_extent_spec(), super::root::Root::body_spec())
            == 640,
{
    lemma_small_alignments();
}

/// What identifies the handler that repairs a kind of layout.
#[derive(Clone, Copy, Debug, PartialEq, Eq, Structural)]
pub struct RecoveryHandler {
    pub schema: SchemaKey,
    pub profile: AbiProfile,
}

impl RecoveryHandler {
    pub fn of<L: Layout>() -> (handler: Self)
        ensures
            handler == handler_of(L::schema_spec()),
    {
        RecoveryHandler { schema: L::schema(), profile: AbiProfile::native() }
    }

    /// Whether this handler repairs what was recorded.
    pub fn handles(&self, recorded: RecordedLayout) -> (handles: bool)
        ensures
            handles == (self.schema == recorded.schema && self.profile == recorded.profile),
    {
        self.schema == recorded.schema && self.profile == recorded.profile
    }
}

pub open spec fn handler_of(schema: SchemaKey) -> RecoveryHandler {
    RecoveryHandler { schema, profile: super::record::native_spec() }
}

/// Whom a repair is about, and how much memory the layout takes.
#[derive(Clone, Copy, Debug, PartialEq, Eq, Structural)]
pub struct RecoveryContext {
    pub extent: u64,
    pub dead: u8,
    pub live: u8,
}

/// A layout that was initialized is recognised with the same configuration, at
/// every address that its alignment admits and whatever its body has become.
pub proof fn law_initialized_layouts_are_recognised<T: Layout>(
    made: RcHeader<T>,
    now: RcHeader<T>,
    conf: T::Config,
    ctx: LayoutContext,
    slot: Option<u8>,
    storage: Extent,
    body: T,
    address: u64,
    again: LayoutContext,
)
    requires
        made.initialized(made, conf, ctx, slot, storage, Ok::<T, Status>(body)),
        now.same_fields(made),
        now.record@ == made.record@,
        storage.wf(),
        storage.size >= super::record::RECORD_SIZE,
        address as int % storage.align as int == 0,
        again.region == ctx.region,
        again.offset == ctx.offset,
        T::info_spec(conf, again) == T::info_spec(conf, ctx),
    ensures
        now.inspected(address, again) is None,
        now.differs(address, conf, again, storage) is None,
        now.record@.layout_value().extent == storage.size,
        now.record@.layout_value().extent_align == storage.align,
{
    super::record::law_record_round_trips(T::magic_spec(), T::schema_spec(), storage, address);
}

/// The field that a comparison names is one in which the header differs, whatever
/// else does; and no field before the header's own is named of a record that can
/// be read and is one of this kind of layout.
pub proof fn law_named_fields_differ<T: Layout>(
    header: RcHeader<T>,
    address: u64,
    conf: T::Config,
    ctx: LayoutContext,
    storage: Extent,
)
    requires
        header.record@.unreadable(address) is None,
        super::record::foreign(
            header.record@.layout_value(),
            T::magic_spec(),
            T::schema_spec(),
        ) is None,
        storage.wf(),
    ensures
        match header.differs(address, conf, ctx, storage) {
            None => header.inspected(address, ctx) is None,
            Some(LayoutField::Region) => header.region != ctx.region,
            Some(LayoutField::Offset) => header.offset != ctx.offset,
            Some(LayoutField::HeaderSize) => header.header_size != header_size_spec(
                T::info_extent_spec(),
                T::body_spec(),
            ),
            Some(LayoutField::HeaderAlign) => header.header_align != header_align_spec(
                T::info_extent_spec(),
                T::body_spec(),
            ),
            Some(LayoutField::InfoSchema) => header.info_schema != T::Info::schema_spec().id,
            Some(LayoutField::InfoRevision) => header.info_revision
                != T::Info::schema_spec().revision,
            Some(LayoutField::InfoSize) => header.info_size != T::info_extent_spec().size,
            Some(LayoutField::InfoAlign) => header.info_align != T::info_extent_spec().align,
            Some(LayoutField::Size) => header.body_size != T::body_spec().size,
            Some(LayoutField::Align) => header.body_align != T::body_spec().align,
            Some(LayoutField::Extent) => header.record@.extent != crate::bytes::le_bytes(
                storage.size as nat,
                8,
            ),
            Some(LayoutField::ExtentAlign) => header.record@.extent_align
                != crate::bytes::le_bytes(storage.align as nat, 8),
            Some(LayoutField::Info) => header.info != Some(T::info_spec(conf, ctx)),
            Some(_) => false,
        },
{
}

/// A layout that was made at one place of one region is not taken for one of
/// another region or another place, nor for one of another extent or with other
/// information.
pub proof fn law_layouts_are_not_mistaken<T: Layout>(
    made: RcHeader<T>,
    now: RcHeader<T>,
    conf: T::Config,
    ctx: LayoutContext,
    slot: Option<u8>,
    storage: Extent,
    body: T,
    address: u64,
    other: LayoutContext,
    asked: T::Config,
    other_storage: Extent,
)
    requires
        made.initialized(made, conf, ctx, slot, storage, Ok::<T, Status>(body)),
        now.same_fields(made),
        now.record@ == made.record@,
    ensures
        now.inspected(address, other) is None ==> other.region == ctx.region && other.offset
            == ctx.offset,
        now.differs(address, asked, other, other_storage) is None ==> {
            &&& other.region == ctx.region
            &&& other.offset == ctx.offset
            &&& other_storage == storage
            &&& T::info_spec(asked, other) == T::info_spec(conf, ctx)
        },
{
    crate::bytes::law_words_fit(storage.size, 0, 0);
    crate::bytes::law_words_fit(storage.align, 0, 0);
    crate::bytes::law_words_fit(other_storage.size, 0, 0);
    crate::bytes::law_words_fit(other_storage.align, 0, 0);
    crate::bytes::law_le_round_trips(storage.size as nat, 8);
    crate::bytes::law_le_round_trips(storage.align as nat, 8);
    crate::bytes::law_le_round_trips(other_storage.size as nat, 8);
    crate::bytes::law_le_round_trips(other_storage.align as nat, 8);
}

/// A header is read as that of a kind of layout only where it is complete and
/// says so in every part: its magic number, its schema, and the extents and the
/// schema of its information and of its body.
pub proof fn law_headers_are_read_as_what_they_are<T: Layout>(
    header: RcHeader<T>,
    address: u64,
    ctx: LayoutContext,
)
    requires
        header.inspected(address, ctx) is None,
    ensures
        header.status_spec() == Status::Initialized,
        header.record@.unreadable(address) is None,
        header.record@.layout_value().magic == T::magic_spec(),
        header.record@.layout_value().schema == T::schema_spec(),
        header.region == ctx.region,
        header.offset == ctx.offset,
        header.header_size == header_size_spec(T::info_extent_spec(), T::body_spec()),
        header.header_align == header_align_spec(T::info_extent_spec(), T::body_spec()),
        header.info_schema == T::Info::schema_spec().id,
        header.info_revision == T::Info::schema_spec().revision,
        header.info_size == T::info_extent_spec().size,
        header.info_align == T::info_extent_spec().align,
        header.body_size == T::body_spec().size,
        header.body_align == T::body_spec().align,
{
}

/// A participant is admitted to a complete layout exactly where the layout is the
/// one that is asked for, is not closed, does not have the participant as a
/// member already, and its body can be attached to.
pub proof fn law_complete_layouts_admit_newcomers<T: Layout>(
    header: RcHeader<T>,
    address: u64,
    conf: T::Config,
    ctx: LayoutContext,
    slot: u8,
    storage: Extent,
)
    requires
        slot < PARTICIPANT_CAPACITY,
    ensures
        header.refuses(address, conf, ctx, Some(slot), storage) is None <==> {
            &&& header.differs(address, conf, ctx, storage) is None
            &&& !is_closed(header.members)
            &&& !is_member(header.members, slot)
            &&& (header.inner->0).attach_spec(conf) == Status::Initialized
        },
        is_member(with_member(header.members, Some(slot)), slot),
        !is_member(without_member(header.members, Some(slot)), slot),
        is_closed(with_member(header.members, Some(slot))) == is_closed(header.members),
{
    law_members_are_independent(header.members, slot, slot);
}

/// A participant is refused by a complete layout for the reason that there is: it
/// is another layout, it is closed, the participant is a member already, or its
/// body is not ready or broken.
pub proof fn law_admissions_are_refused_for_a_reason<T: Layout>(
    header: RcHeader<T>,
    address: u64,
    conf: T::Config,
    ctx: LayoutContext,
    slot: u8,
    storage: Extent,
)
    requires
        slot < PARTICIPANT_CAPACITY,
    ensures
        ({
            let refused = header.refuses(address, conf, ctx, Some(slot), storage);
            let same = header.differs(address, conf, ctx, storage) is None;
            let open = same && !is_closed(header.members);
            let joins = open && !is_member(header.members, slot);
            let body = (header.inner->0).attach_spec(conf);
            &&& refused matches Some(AdmitError::Mismatch(field)) ==> header.differs(
                address,
                conf,
                ctx,
                storage,
            ) == Some(field)
            &&& refused is Some && refused->0 is Mismatch <==> !same
            &&& refused == Some(AdmitError::Closed) <==> same && !open
            &&& refused == Some(AdmitError::DuplicateMember) <==> open && !joins
            &&& refused == Some(AdmitError::Contention) <==> joins && body == Status::Initializing
            &&& refused == Some(AdmitError::InvalidHeader) <==> joins && body
                != Status::Initializing && body != Status::Initialized
        }),
{
}

} // verus!
