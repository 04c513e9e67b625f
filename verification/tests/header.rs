use evering::extent::Extent;
use evering::header::layout::{CloseError, Layout, RcHeader, CLOSED};
use evering::header::record::{Magic, Status, RECORD_FORMAT};
use evering::header::root::{Member, Root, MEMBER_GENERATION_MAX, MEMBER_LIVE};
use evering::header::{AdmitError, LayoutField, PARTICIPANT_CAPACITY};
use evering::schema::{
    compose_const, schema_id, LayoutContext, LayoutInfo, RegionId, SchemaKey, SharedSchema,
};
use std::cell::Cell;
use std::rc::Rc;

/// Every header of these tests stands at the start of its page.
const ADDRESS: u64 = 0x1000;

struct Reject;

impl SharedSchema for Reject {
    fn schema_spec() -> SchemaKey {
        Self::schema()
    }

    fn schema() -> SchemaKey {
        compose_const(SchemaKey::new(schema_id("test.reject"), 1), 1)
    }
}

impl Layout for Reject {
    type Config = (Rc<Cell<usize>>, bool);
    type Info = ();

    fn magic_spec() -> Magic {
        Self::magic()
    }

    fn body_spec() -> Extent {
        Self::body()
    }

    fn info_extent_spec() -> Extent {
        Self::info_extent()
    }

    fn storage_spec(conf: (Rc<Cell<usize>>, bool)) -> Option<Extent> {
        Self::storage(&conf)
    }

    fn info_spec(conf: (Rc<Cell<usize>>, bool), ctx: LayoutContext) {
        Self::info(&conf, ctx)
    }

    fn init_spec(conf: (Rc<Cell<usize>>, bool), made: Result<Self, Status>) -> bool {
        made.is_ok() == Self::init(conf).is_ok()
    }

    fn attach_spec(&self, conf: (Rc<Cell<usize>>, bool)) -> Status {
        self.attach(&conf)
    }

    fn magic() -> Magic {
        0x5151
    }

    fn body() -> Extent {
        Extent { size: 0, align: 1 }
    }

    fn info_extent() -> Extent {
        Extent { size: 0, align: 1 }
    }

    fn storage(_: &(Rc<Cell<usize>>, bool)) -> Option<Extent> {
        Some(Extent { size: 136, align: 8 })
    }

    fn info(_: &(Rc<Cell<usize>>, bool), _: LayoutContext) {}

    fn init(conf: (Rc<Cell<usize>>, bool)) -> Result<Self, Status> {
        conf.0.set(conf.0.get() + 1);
        Ok(Reject)
    }

    fn attach(&self, conf: &(Rc<Cell<usize>>, bool)) -> Status {
        assert!(conf.1, "common mismatch reached typed attachment");
        Status::Corrupted
    }
}

struct FailedInit;

impl SharedSchema for FailedInit {
    fn schema_spec() -> SchemaKey {
        Self::schema()
    }

    fn schema() -> SchemaKey {
        SchemaKey::new(schema_id("test.failed-init"), 1)
    }
}

impl Layout for FailedInit {
    type Config = ();
    type Info = ();

    fn magic_spec() -> Magic {
        Self::magic()
    }

    fn body_spec() -> Extent {
        Self::body()
    }

    fn info_extent_spec() -> Extent {
        Self::info_extent()
    }

    fn storage_spec(conf: ()) -> Option<Extent> {
        Self::storage(&conf)
    }

    fn info_spec(conf: (), ctx: LayoutContext) {
        Self::info(&conf, ctx)
    }

    fn init_spec(conf: (), made: Result<Self, Status>) -> bool {
        made.is_ok() == Self::init(conf).is_ok()
    }

    fn attach_spec(&self, conf: ()) -> Status {
        self.attach(&conf)
    }

    fn magic() -> Magic {
        0x6262
    }

    fn body() -> Extent {
        Extent { size: 0, align: 1 }
    }

    fn info_extent() -> Extent {
        Extent { size: 0, align: 1 }
    }

    fn storage(_: &()) -> Option<Extent> {
        Some(Extent { size: 136, align: 8 })
    }

    fn info(_: &(), _: LayoutContext) {}

    fn init(_: ()) -> Result<Self, Status> {
        Err(Status::Corrupted)
    }

    fn attach(&self, _: &()) -> Status {
        unreachable!()
    }
}

#[derive(Clone, Copy, Debug, PartialEq, Eq)]
struct WideInfo([u64; 2]);

impl SharedSchema for WideInfo {
    fn schema_spec() -> SchemaKey {
        Self::schema()
    }

    fn schema() -> SchemaKey {
        SchemaKey::new(schema_id("test.wide-info"), 1)
    }
}

impl LayoutInfo for WideInfo {
    fn same(&self, other: &Self) -> bool {
        self == other
    }
}

struct Narrow;

impl SharedSchema for Narrow {
    fn schema_spec() -> SchemaKey {
        Self::schema()
    }

    fn schema() -> SchemaKey {
        SchemaKey::new(schema_id("test.same-body"), 1)
    }
}

impl Layout for Narrow {
    type Config = ();
    type Info = ();

    fn magic_spec() -> Magic {
        Self::magic()
    }

    fn body_spec() -> Extent {
        Self::body()
    }

    fn info_extent_spec() -> Extent {
        Self::info_extent()
    }

    fn storage_spec(conf: ()) -> Option<Extent> {
        Self::storage(&conf)
    }

    fn info_spec(conf: (), ctx: LayoutContext) {
        Self::info(&conf, ctx)
    }

    fn init_spec(conf: (), made: Result<Self, Status>) -> bool {
        made.is_ok() == Self::init(conf).is_ok()
    }

    fn attach_spec(&self, conf: ()) -> Status {
        self.attach(&conf)
    }

    fn magic() -> Magic {
        0x7171
    }

    fn body() -> Extent {
        Extent { size: 0, align: 1 }
    }

    fn info_extent() -> Extent {
        Extent { size: 0, align: 1 }
    }

    fn storage(_: &()) -> Option<Extent> {
        Some(Extent { size: 136, align: 8 })
    }

    fn info(_: &(), _: LayoutContext) {}

    fn init(_: ()) -> Result<Self, Status> {
        Ok(Narrow)
    }

    fn attach(&self, _: &()) -> Status {
        Status::Initialized
    }
}

struct Wide;

impl SharedSchema for Wide {
    fn schema_spec() -> SchemaKey {
        Self::schema()
    }

    fn schema() -> SchemaKey {
        Narrow::schema()
    }
}

impl Layout for Wide {
    type Config = ();
    type Info = WideInfo;

    fn magic_spec() -> Magic {
        Self::magic()
    }

    fn body_spec() -> Extent {
        Self::body()
    }

    fn info_extent_spec() -> Extent {
        Self::info_extent()
    }

    fn storage_spec(conf: ()) -> Option<Extent> {
        Self::storage(&conf)
    }

    fn info_spec(conf: (), ctx: LayoutContext) -> WideInfo {
        Self::info(&conf, ctx)
    }

    fn init_spec(conf: (), made: Result<Self, Status>) -> bool {
        made.is_ok() == Self::init(conf).is_ok()
    }

    fn attach_spec(&self, conf: ()) -> Status {
        self.attach(&conf)
    }

    fn magic() -> Magic {
        0x7171
    }

    fn body() -> Extent {
        Extent { size: 0, align: 1 }
    }

    fn info_extent() -> Extent {
        Extent { size: 16, align: 8 }
    }

    fn storage(_: &()) -> Option<Extent> {
        Some(Extent { size: 152, align: 8 })
    }

    fn info(_: &(), _: LayoutContext) -> WideInfo {
        WideInfo([0; 2])
    }

    fn init(_: ()) -> Result<Self, Status> {
        Ok(Wide)
    }

    fn attach(&self, _: &()) -> Status {
        Status::Initialized
    }
}

fn counter() -> Rc<Cell<usize>> {
    Rc::new(Cell::new(0))
}

#[test]
fn initialized_layout_propagates_attachment_rejection_without_reinitializing() {
    let inits = counter();
    let mut header = RcHeader::<Reject>::zeroed();
    let ctx = LayoutContext { region: RegionId::new(1, 2), offset: 0, allow_init: true };
    assert_eq!(header.admit_at(ADDRESS, (inits.clone(), false), ctx, Some(2)), Ok(()));
    assert_eq!(inits.get(), 1);
    assert_eq!(
        header.admit_at(ADDRESS, (inits.clone(), true), ctx, Some(3)),
        Err(AdmitError::InvalidHeader)
    );
    assert_eq!(
        header.admit_at(ADDRESS, (inits.clone(), true), ctx, Some(3)),
        Err(AdmitError::InvalidHeader)
    );
    assert_eq!(inits.get(), 1);
    assert!(header.has_member(2));
    assert!(!header.has_member(3));
}

#[test]
fn common_record_mismatch_prevents_typed_attachment() {
    let inits = counter();
    let mut header = RcHeader::<Reject>::zeroed();
    let first = LayoutContext { region: RegionId::new(3, 4), offset: 8, allow_init: true };
    let moved = LayoutContext { offset: 16, allow_init: false, ..first };

    assert_eq!(header.admit_at(ADDRESS, (inits.clone(), false), first, None), Ok(()));
    let conf = (inits.clone(), false);
    let storage = Reject::storage(&conf).unwrap();
    assert_eq!(
        header.mismatch_at(ADDRESS, &conf, moved, storage),
        Some(LayoutField::Offset)
    );
    assert_eq!(
        header.admit_at(ADDRESS, (inits, false), moved, None),
        Err(AdmitError::Mismatch(LayoutField::Offset))
    );
}

#[test]
fn returned_initialization_failure_publishes_corrupted() {
    let mut header = RcHeader::<FailedInit>::zeroed();
    let ctx = LayoutContext { region: RegionId::new(8, 9), offset: 0, allow_init: true };
    assert_eq!(header.admit_at(ADDRESS, (), ctx, None), Err(AdmitError::InvalidHeader));
    assert_eq!(header.status(), Status::Corrupted);
    assert_eq!(header.admit_at(ADDRESS, (), ctx, None), Err(AdmitError::InvalidHeader));
}

#[test]
fn root_attachment_revalidates_without_joining_a_participant() {
    let mut header = RcHeader::<Root>::zeroed();
    let ctx = LayoutContext { region: RegionId::new(9, 10), offset: 0, allow_init: true };
    assert_eq!(header.admit_at(ADDRESS, (), ctx, None), Ok(()));
    let first = header.inner.as_mut().unwrap().join().unwrap();
    assert_eq!(
        header.admit_at(ADDRESS, (), LayoutContext { allow_init: false, ..ctx }, None),
        Ok(())
    );
    assert_eq!(
        header.admit_at(
            ADDRESS,
            (),
            LayoutContext { region: RegionId::new(11, 12), allow_init: false, ..ctx },
            None,
        ),
        Err(AdmitError::Mismatch(LayoutField::Region))
    );
    assert!(header.inner.as_mut().unwrap().leave(first));
}

#[test]
fn participant_generation_blocks_stale_owner_and_dead_reuse() {
    let mut root = Root::new();
    let first = root.join().unwrap();
    let others = (1..PARTICIPANT_CAPACITY)
        .map(|_| root.join().unwrap())
        .collect::<Vec<_>>();
    assert!(root.join().is_none());

    assert!(root.mark_dead(first));
    assert!(root.is_dead(first));
    assert!(!root.leave(first));
    assert!(root.join().is_none());
    assert!(root.release_dead(first));

    let replacement = root.join().unwrap();
    assert_eq!(replacement.slot, first.slot);
    assert_ne!(replacement.generation, first.generation);
    assert!(!root.leave(first));
    assert!(root.leave(replacement));
    for member in others {
        assert!(root.leave(member));
    }
}

#[test]
fn participants_of_the_last_generation_are_retired() {
    let mut root = Root::new();
    let last = Member { slot: 0, generation: MEMBER_GENERATION_MAX };
    root.members[0] = (MEMBER_GENERATION_MAX << 2) | MEMBER_LIVE;
    assert!(root.mark_dead(last));
    assert!(root.release_dead(last));
    let next = root.join().unwrap();
    assert_eq!(next.slot, 1);
    assert_eq!(next.generation, 1);
}

/// Two participants that both saw an uninitialized root: the one that moves it
/// first initializes it, the other comes back to what it published.
fn race_root(second_region: RegionId) -> [Result<(), AdmitError>; 2] {
    let mut header = RcHeader::<Root>::zeroed();
    let first = LayoutContext { region: RegionId::new(21, 22), offset: 0, allow_init: true };
    let second = LayoutContext { region: second_region, ..first };
    assert!(header.begin_init());
    assert!(!header.begin_init());
    assert_eq!(header.admit_at(ADDRESS, (), second, None), Err(AdmitError::Contention));
    let storage = Root::storage(&()).unwrap();
    let winner = header.finish_init((), first, None, storage);
    let loser = header.admit_at(ADDRESS, (), second, None);
    [winner, loser]
}

#[test]
fn initialization_cas_loser_revalidates_and_attaches_once() {
    let same = race_root(RegionId::new(21, 22));
    assert_eq!(same, [Ok(()), Ok(())]);

    let conflict = race_root(RegionId::new(23, 24));
    assert_eq!(
        conflict
            .iter()
            .filter(|result| matches!(result, Err(AdmitError::Mismatch(LayoutField::Region))))
            .count(),
        1
    );
}

#[test]
fn information_extent_is_validated_before_typed_information() {
    let mut narrow = RcHeader::<Narrow>::zeroed();
    let ctx = LayoutContext { region: RegionId::new(13, 14), offset: 0, allow_init: true };
    assert_eq!(narrow.admit_at(ADDRESS, (), ctx, None), Ok(()));
    let mut wide = RcHeader::<Wide> {
        record: narrow.record,
        members: narrow.members,
        region: narrow.region,
        offset: narrow.offset,
        header_size: narrow.header_size,
        header_align: narrow.header_align,
        info_schema: narrow.info_schema,
        info_revision: narrow.info_revision,
        info_size: narrow.info_size,
        info_align: narrow.info_align,
        body_size: narrow.body_size,
        body_align: narrow.body_align,
        info: None,
        inner: None,
    };
    assert_eq!(
        wide.admit_at(ADDRESS, (), LayoutContext { allow_init: false, ..ctx }, None),
        Err(AdmitError::Mismatch(LayoutField::HeaderSize))
    );
}

#[test]
fn admitted_header_exposes_its_layout_identity() {
    let mut header = RcHeader::<Root>::zeroed();
    let ctx = LayoutContext { region: RegionId::new(31, 32), offset: 4096, allow_init: true };
    header.admit_at(ADDRESS, (), ctx, None).unwrap();
    assert_eq!(header.layout_id().region, ctx.region);
    assert_eq!(header.layout_id().offset, ctx.offset);
}

#[test]
fn malformed_bootstrap_profile_is_rejected_before_typed_information() {
    let mut header = RcHeader::<Root>::zeroed();
    let ctx = LayoutContext { region: RegionId::new(41, 42), offset: 0, allow_init: true };
    header.admit_at(ADDRESS, (), ctx, None).unwrap();
    header.record.format = 0;
    assert_eq!(
        header.admit_at(ADDRESS, (), ctx, None),
        Err(AdmitError::Mismatch(LayoutField::Format))
    );
    header.record.format = RECORD_FORMAT;
    header.record.profile[0] = 0;
    assert_eq!(
        header.admit_at(ADDRESS, (), ctx, None),
        Err(AdmitError::Mismatch(LayoutField::Profile))
    );
}

#[test]
fn layout_membership_is_unique_until_the_owner_leaves() {
    let mut header = RcHeader::<Root>::zeroed();
    let ctx = LayoutContext { region: RegionId::new(33, 34), offset: 4096, allow_init: true };
    header.admit_at(ADDRESS, (), ctx, Some(3)).unwrap();

    assert_eq!(header.admit_at(ADDRESS, (), ctx, Some(3)), Err(AdmitError::DuplicateMember));
    assert_eq!(header.admit_at(ADDRESS, (), ctx, Some(4)), Ok(()));

    header.leave(3);
    assert_eq!(header.admit_at(ADDRESS, (), ctx, Some(3)), Ok(()));
}

#[test]
fn only_the_last_member_closes_a_layout() {
    let mut header = RcHeader::<Root>::zeroed();
    let ctx = LayoutContext { region: RegionId::new(33, 34), offset: 4096, allow_init: true };
    header.admit_at(ADDRESS, (), ctx, Some(3)).unwrap();
    header.admit_at(ADDRESS, (), ctx, Some(4)).unwrap();

    assert_eq!(header.close_unique(3), Err(CloseError::Contention));
    assert_eq!(header.close_unique(5), Err(CloseError::MissingMember));
    assert!(header.recover_member(4));
    assert!(!header.recover_member(4));
    assert_eq!(header.close_unique(3), Ok(()));
    assert_eq!(header.members, CLOSED);
    assert!(header.closed());
    assert_eq!(header.close_unique(3), Err(CloseError::Closed));
    assert_eq!(header.admit_at(ADDRESS, (), ctx, Some(6)), Err(AdmitError::Closed));
}

#[test]
fn layouts_that_may_not_be_initialized_are_found_uninitialized() {
    let mut header = RcHeader::<Root>::zeroed();
    let ctx = LayoutContext { region: RegionId::new(33, 34), offset: 0, allow_init: false };
    assert_eq!(
        header.admit_at(ADDRESS, (), ctx, None),
        Err(AdmitError::Mismatch(LayoutField::State))
    );
    assert_eq!(header.status(), Status::Uninitialized);
}

#[test]
fn every_recorded_extent_is_checked_before_attachment() {
    let inits = counter();
    let mut header = RcHeader::<Reject>::zeroed();
    let ctx = LayoutContext { region: RegionId::new(15, 16), offset: 0, allow_init: true };
    header.admit_at(ADDRESS, (inits.clone(), false), ctx, None).unwrap();
    let rejected = |header: &mut RcHeader<Reject>, field: LayoutField| {
        assert_eq!(
            header.admit_at(ADDRESS, (inits.clone(), false), ctx, None),
            Err(AdmitError::Mismatch(field))
        );
    };

    header.record.extent[0] ^= 1;
    rejected(&mut header, LayoutField::Extent);
    header.record.extent[0] ^= 1;
    header.record.extent_align[0] ^= 1;
    rejected(&mut header, LayoutField::ExtentAlign);
    header.record.extent_align[0] ^= 1;

    header.header_size += 1;
    rejected(&mut header, LayoutField::HeaderSize);
    header.header_size -= 1;
    header.header_align += 1;
    rejected(&mut header, LayoutField::HeaderAlign);
    header.header_align -= 1;
    header.info_size += 1;
    rejected(&mut header, LayoutField::InfoSize);
    header.info_size -= 1;
    header.info_align += 1;
    rejected(&mut header, LayoutField::InfoAlign);
    header.info_align -= 1;
    header.body_size += 1;
    rejected(&mut header, LayoutField::Size);
    header.body_size -= 1;
    header.body_align += 1;
    rejected(&mut header, LayoutField::Align);
    header.body_align -= 1;
}
