//! The first bytes of every layout: enough to tell what it is before anything
//! of it is interpreted.

use super::{AdmitError, LayoutField};
use crate::bytes::{read_le, write_le};
use crate::extent::Extent;
use crate::numeric::is_power_of_two;
use crate::schema::{SchemaId, SchemaKey};
use core::sync::atomic::AtomicUsize;
use vstd::prelude::*;

verus! {

pub type Magic = u16;

pub const RECORD_FORMAT: u8 = 1;

/// Bytes of a record.
pub const RECORD_SIZE: u64 = 35;

/// What the words of a build look like.
#[derive(Clone, Copy, Debug, PartialEq, Eq, Structural)]
pub struct AbiProfile {
    pub word_bytes: u8,
    pub atomic_bytes: u8,
    pub little_endian: bool,
}

/// The profile of this build: the target's words and atomics, and numbers that
/// are written lowest byte first on every target.
pub open spec fn native_spec() -> AbiProfile {
    AbiProfile {
        word_bytes: vstd::layout::size_of::<usize>() as u8,
        atomic_bytes: vstd::layout::size_of::<AtomicUsize>() as u8,
        little_endian: true,
    }
}

impl AbiProfile {
    pub fn native() -> (profile: Self)
        ensures
            profile == native_spec(),
    {
        AbiProfile {
            word_bytes: core::mem::size_of::<usize>() as u8,
            atomic_bytes: core::mem::size_of::<AtomicUsize>() as u8,
            little_endian: true,
        }
    }

    /// The profile as it lies in a record.
    pub open spec fn bytes_spec(self) -> Seq<u8> {
        seq![
            self.word_bytes,
            self.atomic_bytes,
            if self.little_endian {
                1u8
            } else {
                0u8
            },
        ]
    }

    fn bytes(self) -> (bytes: Vec<u8>)
        ensures
            bytes@ == self.bytes_spec(),
    {
        let mut bytes: Vec<u8> = Vec::new();
        bytes.push(self.word_bytes);
        bytes.push(self.atomic_bytes);
        if self.little_endian {
            bytes.push(1);
        } else {
            bytes.push(0);
        }
        assert(bytes@ =~= self.bytes_spec());
        bytes
    }
}

#[derive(Clone, Copy, Debug, PartialEq, Eq, Structural)]
pub enum Status {
    Uninitialized,
    Initializing,
    Initialized,
    Corrupted,
}

pub open spec fn status_of(byte: u8) -> Status {
    if byte == 0 {
        Status::Uninitialized
    } else if byte == 1 {
        Status::Initializing
    } else if byte == 2 {
        Status::Initialized
    } else {
        Status::Corrupted
    }
}

pub open spec fn status_byte(status: Status) -> u8 {
    match status {
        Status::Uninitialized => 0,
        Status::Initializing => 1,
        Status::Initialized => 2,
        Status::Corrupted => 3,
    }
}

impl Status {
    pub fn from_u8(v: u8) -> (status: Status)
        ensures
            status == status_of(v),
            status_of(status_byte(status)) == status,
    {
        if v == 0 {
            Status::Uninitialized
        } else if v == 1 {
            Status::Initializing
        } else if v == 2 {
            Status::Initialized
        } else {
            Status::Corrupted
        }
    }

    pub fn to_u8(self) -> (byte: u8)
        ensures
            byte == status_byte(self),
            status_of(byte) == self,
    {
        match self {
            Status::Uninitialized => 0,
            Status::Initializing => 1,
            Status::Initialized => 2,
            Status::Corrupted => 3,
        }
    }
}

/// The record as it lies in memory: single bytes and little-endian numbers.
pub struct Record {
    pub status: u8,
    pub format: u8,
    pub profile: Vec<u8>,
    pub magic: Vec<u8>,
    pub revision: Vec<u8>,
    pub schema: Vec<u8>,
    pub extent: Vec<u8>,
    pub extent_align: Vec<u8>,
}

/// What a record says once it is known to be one of this build.
#[derive(Clone, Copy, Debug, PartialEq, Eq, Structural)]
pub struct RecordedLayout {
    pub schema: SchemaKey,
    pub profile: AbiProfile,
    pub magic: Magic,
    pub extent: u64,
    pub extent_align: u64,
}

/// The contents of a record.
pub ghost struct RecordView {
    pub status: u8,
    pub format: u8,
    pub profile: Seq<u8>,
    pub magic: Seq<u8>,
    pub revision: Seq<u8>,
    pub schema: Seq<u8>,
    pub extent: Seq<u8>,
    pub extent_align: Seq<u8>,
}

impl View for Record {
    type V = RecordView;

    open spec fn view(&self) -> RecordView {
        RecordView {
            status: self.status,
            format: self.format,
            profile: self.profile@,
            magic: self.magic@,
            revision: self.revision@,
            schema: self.schema@,
            extent: self.extent@,
            extent_align: self.extent_align@,
        }
    }
}

impl RecordView {
    /// Every field has its width.
    pub open spec fn wf(self) -> bool {
        &&& self.profile.len() == 3
        &&& self.magic.len() == 2
        &&& self.revision.len() == 4
        &&& self.schema.len() == 8
        &&& self.extent.len() == 8
        &&& self.extent_align.len() == 8
    }

    pub open spec fn profile_value(self) -> AbiProfile {
        AbiProfile {
            word_bytes: self.profile[0],
            atomic_bytes: self.profile[1],
            little_endian: self.profile[2] != 0,
        }
    }

    pub open spec fn layout_value(self) -> RecordedLayout {
        RecordedLayout {
            schema: SchemaKey {
                id: SchemaId(crate::bytes::le(self.schema) as u64),
                revision: crate::bytes::le(self.revision) as u32,
            },
            profile: self.profile_value(),
            magic: crate::bytes::le(self.magic) as u16,
            extent: crate::bytes::le(self.extent) as u64,
            extent_align: crate::bytes::le(self.extent_align) as u64,
        }
    }

    /// The first field that keeps a record at `address` from being read.
    pub open spec fn unreadable(self, address: u64) -> Option<LayoutField> {
        let value = self.layout_value();
        if status_of(self.status) != Status::Initialized {
            Some(LayoutField::State)
        } else if self.format != RECORD_FORMAT {
            Some(LayoutField::Format)
        } else if value.profile != native_spec() {
            Some(LayoutField::Profile)
        } else if value.extent < RECORD_SIZE {
            Some(LayoutField::Extent)
        } else if !crate::numeric::is_power_of_two_spec(value.extent_align as int) || address as int
            % value.extent_align as int != 0 {
            Some(LayoutField::ExtentAlign)
        } else {
            None
        }
    }
}

/// The record that a layout writes of itself, with the given status.
pub open spec fn record_of(
    status: u8,
    magic: Magic,
    schema: SchemaKey,
    extent: Extent,
) -> RecordView {
    RecordView {
        status,
        format: RECORD_FORMAT,
        profile: native_spec().bytes_spec(),
        magic: crate::bytes::le_bytes(magic as nat, 2),
        revision: crate::bytes::le_bytes(schema.revision as nat, 4),
        schema: crate::bytes::le_bytes(schema.id.0 as nat, 8),
        extent: crate::bytes::le_bytes(extent.size as nat, 8),
        extent_align: crate::bytes::le_bytes(extent.align as nat, 8),
    }
}

/// A record of zero bytes.
pub open spec fn zero_record() -> RecordView {
    RecordView {
        status: 0,
        format: 0,
        profile: crate::bytes::le_bytes(0, 3),
        magic: crate::bytes::le_bytes(0, 2),
        revision: crate::bytes::le_bytes(0, 4),
        schema: crate::bytes::le_bytes(0, 8),
        extent: crate::bytes::le_bytes(0, 8),
        extent_align: crate::bytes::le_bytes(0, 8),
    }
}

impl Record {
    pub fn zeroed() -> (record: Self)
        ensures
            record@ == zero_record(),
            record@.wf(),
    {
        Record {
            status: 0,
            format: 0,
            profile: write_le(0, 3),
            magic: write_le(0, 2),
            revision: write_le(0, 4),
            schema: write_le(0, 8),
            extent: write_le(0, 8),
            extent_align: write_le(0, 8),
        }
    }

    /// Writes everything but the status.
    pub fn initialize(&mut self, magic: Magic, schema: SchemaKey, extent: Extent)
        ensures
            final(self)@ == record_of(old(self)@.status, magic, schema, extent),
            final(self)@.wf(),
    {
        self.format = RECORD_FORMAT;
        self.profile = AbiProfile::native().bytes();
        self.magic = write_le(magic as u64, 2);
        self.revision = write_le(schema.revision as u64, 4);
        self.schema = write_le(schema.id.0, 8);
        self.extent = write_le(extent.size, 8);
        self.extent_align = write_le(extent.align, 8);
    }

    /// What the record at `address` says, or the first field that is wrong.
    pub fn recorded_at(&self, address: u64) -> (recorded: Result<RecordedLayout, AdmitError>)
        requires
            self@.wf(),
        ensures
            match self@.unreadable(address) {
                Some(field) => recorded == Err::<RecordedLayout, AdmitError>(
                    AdmitError::Mismatch(field),
                ),
                None => recorded == Ok::<RecordedLayout, AdmitError>(self@.layout_value()),
            },
    {
        proof {
            crate::bytes::law_le_bytes_round_trip(self.revision@);
            crate::bytes::law_le_bytes_round_trip(self.magic@);
            crate::bytes::law_words_fit(0, 0, 0);
        }
        if Status::from_u8(self.status) != Status::Initialized {
            return Err(AdmitError::Mismatch(LayoutField::State));
        }
        if self.format != RECORD_FORMAT {
            return Err(AdmitError::Mismatch(LayoutField::Format));
        }
        let profile = AbiProfile {
            word_bytes: self.profile[0],
            atomic_bytes: self.profile[1],
            little_endian: self.profile[2] != 0,
        };
        if profile != AbiProfile::native() {
            return Err(AdmitError::Mismatch(LayoutField::Profile));
        }
        let extent: u64 = read_le(self.extent.as_slice());
        let extent_align: u64 = read_le(self.extent_align.as_slice());
        if extent < RECORD_SIZE {
            return Err(AdmitError::Mismatch(LayoutField::Extent));
        }
        if !is_power_of_two(extent_align) {
            return Err(AdmitError::Mismatch(LayoutField::ExtentAlign));
        }
        proof {
            crate::extent::lemma_power_positive(extent_align as int);
        }
        if address % extent_align != 0 {
            return Err(AdmitError::Mismatch(LayoutField::ExtentAlign));
        }
        let id: u64 = read_le(self.schema.as_slice());
        let revision: u64 = read_le(self.revision.as_slice());
        let magic: u64 = read_le(self.magic.as_slice());
        Ok(
            RecordedLayout {
                schema: SchemaKey::new(SchemaId(id), revision as u32),
                profile,
                magic: magic as u16,
                extent,
                extent_align,
            },
        )
    }
}

/// The first of magic, schema and revision that differs.
pub open spec fn foreign(recorded: RecordedLayout, magic: Magic, schema: SchemaKey) -> Option<
    LayoutField,
> {
    if recorded.magic != magic {
        Some(LayoutField::Magic)
    } else if recorded.schema.id != schema.id {
        Some(LayoutField::Schema)
    } else if recorded.schema.revision != schema.revision {
        Some(LayoutField::Revision)
    } else {
        None
    }
}

impl RecordedLayout {
    pub fn mismatch(self, magic: Magic, schema: SchemaKey) -> (field: Option<LayoutField>)
        ensures
            field == foreign(self, magic, schema),
    {
        if self.magic != magic {
            Some(LayoutField::Magic)
        } else if self.schema.id != schema.id {
            Some(LayoutField::Schema)
        } else if self.schema.revision != schema.revision {
            Some(LayoutField::Revision)
        } else {
            None
        }
    }
}

/// What a layout recorded of itself is read back, at every address that its
/// alignment admits.
pub proof fn law_record_round_trips(magic: Magic, schema: SchemaKey, extent: Extent, address: u64)
    requires
        extent.wf(),
        extent.size >= RECORD_SIZE,
        address as int % extent.align as int == 0,
    ensures
        ({
            let record = record_of(status_byte(Status::Initialized), magic, schema, extent);
            &&& record.unreadable(address) is None
            &&& record.layout_value() == (RecordedLayout {
                schema,
                profile: native_spec(),
                magic,
                extent: extent.size,
                extent_align: extent.align,
            })
            &&& foreign(record.layout_value(), magic, schema) is None
        }),
{
    crate::bytes::law_words_fit(schema.id.0, schema.revision, magic);
    crate::bytes::law_words_fit(extent.size, 0, 0);
    crate::bytes::law_words_fit(extent.align, 0, 0);
    crate::bytes::law_le_round_trips(magic as nat, 2);
    crate::bytes::law_le_round_trips(schema.revision as nat, 4);
    crate::bytes::law_le_round_trips(schema.id.0 as nat, 8);
    crate::bytes::law_le_round_trips(extent.size as nat, 8);
    crate::bytes::law_le_round_trips(extent.align as nat, 8);
}

/// A record is read only as what it was written for: whoever asks for another
/// magic number, another schema or another revision is refused, by the first of
/// them that differs.
pub proof fn law_records_of_others_are_foreign(
    magic: Magic,
    schema: SchemaKey,
    extent: Extent,
    asked_magic: Magic,
    asked: SchemaKey,
)
    ensures
        ({
            let record = record_of(status_byte(Status::Initialized), magic, schema, extent);
            let found = foreign(record.layout_value(), asked_magic, asked);
            &&& found is None <==> asked_magic == magic && asked == schema
            &&& found == Some(LayoutField::Magic) <==> asked_magic != magic
            &&& found == Some(LayoutField::Schema) <==> asked_magic == magic && asked.id
                != schema.id
            &&& found == Some(LayoutField::Revision) <==> asked_magic == magic && asked.id
                == schema.id && asked.revision != schema.revision
        }),
{
    crate::bytes::law_words_fit(schema.id.0, schema.revision, magic);
    crate::bytes::law_words_fit(extent.size, 0, 0);
    crate::bytes::law_words_fit(extent.align, 0, 0);
    crate::bytes::law_le_round_trips(magic as nat, 2);
    crate::bytes::law_le_round_trips(schema.revision as nat, 4);
    crate::bytes::law_le_round_trips(schema.id.0 as nat, 8);
    crate::bytes::law_le_round_trips(extent.size as nat, 8);
    crate::bytes::law_le_round_trips(extent.align as nat, 8);
}

/// A record is read only once it is complete, in the format and under the profile
/// of this build, and where it may lie; each of these is named where it fails.
pub proof fn law_only_complete_records_are_read(record: RecordView, address: u64)
    requires
        record.wf(),
    ensures
        record.unreadable(address) is None ==> {
            &&& status_of(record.status) == Status::Initialized
            &&& record.format == RECORD_FORMAT
            &&& record.profile[0] == native_spec().word_bytes
            &&& record.profile[1] == native_spec().atomic_bytes
            &&& (record.profile[2] != 0) == native_spec().little_endian
            &&& crate::bytes::le(record.extent) as u64 >= RECORD_SIZE
            &&& crate::numeric::is_power_of_two_spec(
                (crate::bytes::le(record.extent_align) as u64) as int,
            )
            &&& address as int % (crate::bytes::le(record.extent_align) as u64) as int == 0
        },
        status_of(record.status) != Status::Initialized <==> record.unreadable(address) == Some(
            LayoutField::State,
        ),
        status_of(record.status) == Status::Initialized && record.format != RECORD_FORMAT
            ==> record.unreadable(address) == Some(LayoutField::Format),
        record.unreadable(address) == Some(LayoutField::Profile) ==> record.profile
            != native_spec().bytes_spec(),
{
    if record.profile == native_spec().bytes_spec() {
        assert(record.profile[0] == native_spec().word_bytes);
        assert(record.profile[1] == native_spec().atomic_bytes);
        assert(record.profile[2] == native_spec().bytes_spec()[2]);
    }
}

/// What a layout writes while it is being made, or where it could not be made, is
/// not read.
pub proof fn law_unfinished_records_are_not_read(
    status: Status,
    magic: Magic,
    schema: SchemaKey,
    extent: Extent,
    address: u64,
)
    requires
        status != Status::Initialized,
    ensures
        record_of(status_byte(status), magic, schema, extent).unreadable(address) == Some(
            LayoutField::State,
        ),
        zero_record().unreadable(address) == Some(LayoutField::State),
        status_of(zero_record().status) == Status::Uninitialized,
{
}

/// A record that cannot be read is refused by the first thing that is wrong with
/// it, and by nothing else.
pub proof fn law_unreadable_records_say_why(record: RecordView, address: u64)
    ensures
        ({
            let refused = record.unreadable(address);
            let value = record.layout_value();
            let complete = status_of(record.status) == Status::Initialized;
            let known = complete && record.format == RECORD_FORMAT;
            let ours = known && value.profile == native_spec();
            &&& refused == Some(LayoutField::State) <==> !complete
            &&& refused == Some(LayoutField::Format) <==> complete && record.format != RECORD_FORMAT
            &&& refused == Some(LayoutField::Profile) <==> known && value.profile != native_spec()
            &&& refused == Some(LayoutField::Extent) <==> ours && value.extent < RECORD_SIZE
            &&& refused == Some(LayoutField::ExtentAlign) ==> ours && value.extent >= RECORD_SIZE
            &&& refused is None ==> ours && value.extent >= RECORD_SIZE
        }),
{
}

} // verus!
