use evering::dir::change::Transaction;
use evering::dir::{
    entry_word, owner_word, Directory, Error, Id, Recovered, CREATE, EVIDENCE, GROW, HELD, PENDING,
    CLOSING, RELEASED, REMOVE, SLAB_BYTES,
};
use evering::extent::Extent;
use evering::header::layout::{Layout, RcHeader};
use evering::header::record::{Magic, Status};
use evering::header::root::{Root, MEMBER_FREE};
use evering::header::AdmitError;
use evering::mem::compose::MapLayout;
use evering::mem::{
    Access, CloseError, Error as MapError, Mapping, ProjectionError, Refused, Region,
};
use evering::schema::{
    schema_id, LayoutContext, RegionAdmission, RegionId, SchemaKey, SharedSchema,
};
use evering::session::open::HEAP_BASE;
use evering::session::{Session, Shared};
use evering::talc::config::Config;
use evering::talc::lock::{Meta, Placed, TalckMeta};
use evering::talc::mutation::{owner_word as mutation_word, MutationError};

const MAX_ADDR: u64 = 0x20000;

struct Created(u32);

impl SharedSchema for Created {
    fn schema_spec() -> SchemaKey {
        Self::schema()
    }

    fn schema() -> SchemaKey {
        SchemaKey::new(schema_id("evering.test.created"), 1)
    }
}

impl Layout for Created {
    type Config = u32;
    type Info = ();

    fn magic_spec() -> Magic {
        Self::magic()
    }

    fn body_spec() -> Extent {
        Self::body()
    }

    fn info_extent_spec() -> Extent {
        Self::info_extent()
    }

    fn storage_spec(conf: u32) -> Option<Extent> {
        Self::storage(&conf)
    }

    fn info_spec(conf: u32, ctx: LayoutContext) {
        Self::info(&conf, ctx)
    }

    fn init_spec(conf: u32, made: Result<Self, Status>) -> bool {
        made.is_ok() == Self::init(conf).is_ok()
    }

    fn attach_spec(&self, conf: u32) -> Status {
        self.attach(&conf)
    }

    fn magic() -> Magic {
        0xC17
    }

    fn body() -> Extent {
        Extent { size: 4, align: 4 }
    }

    fn info_extent() -> Extent {
        Extent { size: 0, align: 1 }
    }

    fn storage(_: &u32) -> Option<Extent> {
        Some(Extent { size: 144, align: 8 })
    }

    fn info(_: &u32, _: LayoutContext) {}

    fn init(value: u32) -> Result<Self, Status> {
        Ok(Created(value))
    }

    fn attach(&self, value: &u32) -> Status {
        if self.0 == *value {
            Status::Initialized
        } else {
            Status::Corrupted
        }
    }
}

struct Reject;

impl SharedSchema for Reject {
    fn schema_spec() -> SchemaKey {
        Self::schema()
    }

    fn schema() -> SchemaKey {
        SchemaKey::new(schema_id("evering.test.reject"), 1)
    }
}

impl Layout for Reject {
    type Config = ();
    type Info = ();

    fn magic_spec() -> Magic {
        Self::magic()
    }

    fn body_spec() -> Extent {
        Self::body()
    }

    fn info_extent_spec() -> Extent {
        Self::info_extent()
    }

    fn storage_spec(conf: ()) -> Option<Extent> {
        Self::storage(&conf)
    }

    fn info_spec(conf: (), ctx: LayoutContext) {
        Self::info(&conf, ctx)
    }

    fn init_spec(conf: (), made: Result<Self, Status>) -> bool {
        made.is_ok() == Self::init(conf).is_ok()
    }

    fn attach_spec(&self, conf: ()) -> Status {
        self.attach(&conf)
    }

    fn magic() -> Magic {
        0xBAD
    }

    fn body() -> Extent {
        Extent { size: 0, align: 1 }
    }

    fn info_extent() -> Extent {
        Extent { size: 0, align: 1 }
    }

    fn storage(_: &()) -> Option<Extent> {
        Some(Extent { size: 136, align: 8 })
    }

    fn info(_: &(), _: LayoutContext) {}

    fn init(_: ()) -> Result<Self, Status> {
        Err(Status::Corrupted)
    }

    fn attach(&self, _: &()) -> Status {
        Status::Corrupted
    }
}

struct Managed(u32);

impl SharedSchema for Managed {
    fn schema_spec() -> SchemaKey {
        Self::schema()
    }

    fn schema() -> SchemaKey {
        SchemaKey::new(schema_id("evering.test.grown"), 1)
    }
}

impl Layout for Managed {
    type Config = u32;
    type Info = ();

    fn magic_spec() -> Magic {
        Self::magic()
    }

    fn body_spec() -> Extent {
        Self::body()
    }

    fn info_extent_spec() -> Extent {
        Self::info_extent()
    }

    fn storage_spec(conf: u32) -> Option<Extent> {
        Self::storage(&conf)
    }

    fn info_spec(conf: u32, ctx: LayoutContext) {
        Self::info(&conf, ctx)
    }

    fn init_spec(conf: u32, made: Result<Self, Status>) -> bool {
        made.is_ok() == Self::init(conf).is_ok()
    }

    fn attach_spec(&self, conf: u32) -> Status {
        self.attach(&conf)
    }

    fn magic() -> Magic {
        0x610
    }

    fn body() -> Extent {
        Extent { size: 4, align: 4 }
    }

    fn info_extent() -> Extent {
        Extent { size: 0, align: 1 }
    }

    fn storage(_: &u32) -> Option<Extent> {
        Some(Extent { size: 144, align: 8 })
    }

    fn info(_: &u32, _: LayoutContext) {}

    fn init(value: u32) -> Result<Self, Status> {
        Ok(Managed(value))
    }

    fn attach(&self, value: &u32) -> Status {
        if self.0 == *value {
            Status::Initialized
        } else {
            Status::Corrupted
        }
    }
}

/// A region with its directory and its heap, as one participant composes it.
struct Area {
    region: Region,
    directory: RcHeader<Directory>,
    heap: RcHeader<TalckMeta>,
}

fn mapping(start: u64, len: u64) -> Mapping {
    Mapping { start, len, access: Access::reading().union(Access::writing()) }
}

impl Area {
    fn new(start: u64, len: u64) -> Self {
        let mut root = RcHeader::<Root>::zeroed();
        let admission = RegionAdmission::Create(RegionId::new(0, start));
        let mut area = MapLayout::new(mapping(start, len), admission, &mut root).unwrap();
        let mut directory = RcHeader::zeroed();
        area.push::<Directory>(&mut directory, ()).unwrap();
        let reserve = area.reserve::<TalckMeta>().unwrap();
        let conf = Config::new(len).with_bound(reserve.remaining_after());
        let base = start + reserve.offset() + HEAP_BASE;
        let mut heap = RcHeader::zeroed();
        area.commit(reserve, &mut heap, Placed { base, conf }).unwrap();
        Area { region: area.area, directory, heap }
    }

    fn dir(&mut self) -> &mut Directory {
        self.directory.inner.as_mut().unwrap()
    }

    fn talc(&mut self) -> &mut TalckMeta {
        self.heap.inner.as_mut().unwrap()
    }

    fn create<L: Layout>(&mut self, conf: L::Config) -> Result<(Id, RcHeader<L>), Error> {
        let extent = L::storage(&conf).unwrap();
        self.directory.inner.as_mut().unwrap().create_in::<L>(
            &self.region,
            self.heap.inner.as_mut().unwrap(),
            self.region.region,
            conf,
            extent,
        )
    }

    fn open<L: Layout>(
        &mut self,
        id: Id,
        header: &mut RcHeader<L>,
        conf: L::Config,
    ) -> Result<(), Error> {
        self.directory.inner.as_ref().unwrap().open(&self.region, id, header, conf)
    }

    fn remove<L: Layout>(&mut self, id: Id, header: &mut RcHeader<L>) -> Result<(), Error> {
        let info = *self.heap.layout_info().unwrap();
        self.directory.inner.as_mut().unwrap().remove_in(
            &self.region,
            self.heap.inner.as_mut().unwrap(),
            self.region.region,
            &info,
            id,
            header,
            Extent { size: 144, align: 8 },
        )
    }

    fn recover(&mut self, dead: u8, closed: bool) -> Result<Recovered, Error> {
        self.directory.inner.as_mut().unwrap().recover(
            &self.region,
            self.heap.inner.as_mut().unwrap(),
            self.region.region,
            dead,
            closed,
        )
    }

    fn allocate(&mut self) -> Result<Meta, MutationError> {
        let owner = self.region.member.slot;
        self.talc().allocate(owner, Extent { size: 8, align: 8 })
    }

    fn meta_of<L: Layout>(&self, header: &RcHeader<L>) -> Meta {
        let address = self.region.map.start + header.layout_id().offset;
        let base = self.heap.inner.as_ref().unwrap().base_ptr();
        TalckMeta::meta_for(self.heap.layout_info().unwrap(), base, address, 144).unwrap()
    }

    /// A participant other than the one that composed the region.
    fn dead(&self) -> u8 {
        self.region.peer().slot() + 1
    }

    fn slabs(&self) -> usize {
        self.directory.inner.as_ref().unwrap().links.len() + 1
    }
}

fn position(id: Id) -> usize {
    (id.slab * 32 + id.entry) as usize
}

fn abandon_mutation(heap: &mut TalckMeta, dead: u8) {
    heap.mutation = mutation_word(dead);
}

fn abandon_released(dir: &mut Directory, id: Id, dead: u8) {
    dir.entries[position(id)].state = entry_word(id.generation, RELEASED);
    dir.pending_slab = id.slab as u64;
    dir.pending_entry = id.entry as u64;
    dir.pending_kind = REMOVE;
    dir.transaction = owner_word(dead, EVIDENCE);
}

fn abandon_held_reservation(dir: &mut Directory, dead: u8) {
    let slot = dir.reserve().unwrap();
    let generation = (dir.entries[slot].state >> 3) + 1;
    dir.entries[slot].state = entry_word(generation, PENDING);
    dir.transaction = owner_word(dead, HELD);
}

fn abandon_allocated_create(dir: &mut Directory, dead: u8, meta: Meta) {
    let slot = dir.reserve().unwrap();
    let generation = (dir.entries[slot].state >> 3) + 1;
    dir.entries[slot].state = entry_word(generation, PENDING);
    dir.pending_slab = 0;
    dir.pending_entry = slot as u64;
    dir.pending_kind = CREATE;
    dir.pending = meta;
    dir.transaction = owner_word(dead, EVIDENCE);
}

fn abandon_prepared_remove<L: Layout>(
    area: &mut Area,
    id: Id,
    header: &mut RcHeader<L>,
    dead: u8,
    closed: bool,
) {
    let meta = area.meta_of(header);
    let mut transaction: Transaction = area.dir().claim(dead).unwrap();
    area.dir().entries[position(id)].state = entry_word(id.generation, CLOSING);
    area.dir().persist(&mut transaction, id.slab as u64, id.entry as u64, meta, REMOVE);
    abandon_mutation(area.talc(), dead);
    if closed {
        header.close_unique(area.region.member.slot).unwrap();
    } else {
        header.leave(area.region.member.slot);
    }
}

fn abandon_growth(area: &mut Area, dead: u8, linked: bool, clean_heap: bool) {
    assert!(!linked || clean_heap);
    let mut transaction = area.dir().claim(dead).unwrap();
    let slab = area.slabs() as u64;
    let owner = area.region.member.slot;
    let mutation = area.talc().begin_mutation(owner).unwrap();
    let layout = Extent { size: SLAB_BYTES, align: 8 };
    let meta = area.talc().allocate_during(&mutation, layout).unwrap();
    let offset = area.talc().address(&meta) - area.region.map.start;
    area.dir().persist(&mut transaction, slab, 0, meta, GROW);
    area.talc().commit(mutation);
    if !clean_heap {
        abandon_mutation(area.talc(), dead);
    }
    if linked {
        area.dir().links.push(offset);
        for _ in 0..32 {
            area.dir().entries.push(evering::dir::Entry { state: 0, offset: 0 });
        }
    }
}

#[test]
fn mock_area_init() {
    const STEP: u64 = 0x2000;
    for start in (0..MAX_ADDR).step_by(STEP as usize) {
        let mut root = RcHeader::<Root>::zeroed();
        let region = RegionId::new(0, start);
        let area =
            MapLayout::new(mapping(start, STEP), RegionAdmission::Create(region), &mut root)
                .unwrap();
        assert_eq!(area.region_id(), region);
        assert_eq!(area.cur_offset(), 640);
        assert_eq!(area.rest_size(), STEP - 640);
        assert_eq!(root.status(), Status::Initialized);
    }
}

#[test]
fn directory_create_publishes_only_an_initialized_talc_allocation() {
    let mut area = Area::new(0, MAX_ADDR);

    assert!(matches!(area.create::<Reject>(()), Err(Error::Admission(_))));
    let (id, mut created) = area.create::<Created>(91).unwrap();
    assert_eq!(created.inner.as_ref().unwrap().0, 91);
    created.leave(area.region.member.slot);
    let mut reopened = created;
    area.open(id, &mut reopened, 91).unwrap();
    assert_eq!(reopened.inner.as_ref().unwrap().0, 91);
    if let Err(error) = area.remove(id, &mut reopened) {
        panic!("remove failed: {error:?}");
    }
    assert!(matches!(area.open(id, &mut reopened, 91), Err(Error::Stale)));

    let dead = area.dead();
    abandon_released(area.dir(), id, dead);
    assert_eq!(area.recover(dead, false), Ok(Recovered::Released));
    abandon_held_reservation(area.dir(), dead);
    assert_eq!(area.recover(dead, false), Ok(Recovered::RolledBack));

    let (before_close, mut mapped) = area.create::<Created>(93).unwrap();
    abandon_prepared_remove(&mut area, before_close, &mut mapped, dead, false);
    assert_eq!(area.recover(dead, mapped.closed()), Ok(Recovered::RolledBack));
    area.open(before_close, &mut mapped, 93).unwrap();
    assert_eq!(mapped.inner.as_ref().unwrap().0, 93);

    let (after_close, mut mapped) = area.create::<Created>(94).unwrap();
    abandon_prepared_remove(&mut area, after_close, &mut mapped, dead, true);
    assert_eq!(area.recover(dead, mapped.closed()), Ok(Recovered::Released));
    assert!(matches!(area.open(after_close, &mut mapped, 94), Err(Error::Stale)));

    let (_, replacement) = area.create::<Created>(92).unwrap();
    assert_eq!(replacement.inner.as_ref().unwrap().0, 92);
}

#[test]
fn ambiguous_dead_allocator_mutation_is_poisoned_and_its_entry_quarantined() {
    let mut area = Area::new(0, MAX_ADDR);
    let meta = area.allocate().expect("test allocation");
    let dead = area.dead();

    abandon_allocated_create(area.dir(), dead, meta);
    abandon_mutation(area.talc(), dead);

    assert_eq!(area.recover(dead, false), Ok(Recovered::Quarantined));
    assert_eq!(area.allocate(), Err(MutationError::Poisoned));
}

#[test]
fn directory_recovery_rejects_authority_from_another_region() {
    let mut area = Area::new(0, MAX_ADDR);
    let dead = area.dead();
    abandon_held_reservation(area.dir(), dead);

    let other = Area::new(1, MAX_ADDR - 1);
    let wrong = other.region.region;
    assert_eq!(
        area.directory.inner.as_mut().unwrap().recover(
            &area.region,
            area.heap.inner.as_mut().unwrap(),
            wrong,
            dead,
            false,
        ),
        Err(Error::Stale)
    );

    assert_eq!(area.recover(dead, false), Ok(Recovered::RolledBack));
}

#[test]
fn directory_grows_past_its_first_slab_and_reopens_every_layout() {
    let mut area = Area::new(0, MAX_ADDR);
    let mut ids = Vec::new();

    for value in 0..65 {
        let (id, mut mapped) = area.create::<Managed>(value).unwrap();
        assert_eq!(mapped.inner.as_ref().unwrap().0, value);
        mapped.leave(area.region.member.slot);
        ids.push((id, mapped));
    }
    for (value, (id, mapped)) in ids.iter_mut().enumerate() {
        area.open(*id, mapped, value as u32).unwrap();
        assert_eq!(mapped.inner.as_ref().unwrap().0, value as u32);
        mapped.leave(area.region.member.slot);
    }
    assert_eq!(area.slabs(), 3);
    let (last, mut mapped) = ids.pop().unwrap();
    area.open(last, &mut mapped, 64).unwrap();
    if let Err(error) = area.remove(last, &mut mapped) {
        panic!("remove failed: {error:?}");
    }
    assert!(matches!(area.open(last, &mut mapped, 64), Err(Error::Stale)));
}

#[test]
fn directory_growth_recovery_rolls_back_unlinked_and_retains_linked_slabs() {
    let mut area = Area::new(0, MAX_ADDR);
    let dead = area.dead();

    abandon_growth(&mut area, dead, false, true);
    assert_eq!(area.recover(dead, false), Ok(Recovered::RolledBack));
    assert_eq!(area.slabs(), 1);

    abandon_growth(&mut area, dead, true, true);
    assert_eq!(area.recover(dead, false), Ok(Recovered::Retained));
    assert_eq!(area.slabs(), 2);
}

#[test]
fn directory_growth_with_an_ambiguous_dead_heap_owner_is_leaked_and_poisoned() {
    let mut area = Area::new(0, MAX_ADDR);
    let dead = area.dead();

    abandon_growth(&mut area, dead, false, false);
    assert_eq!(area.recover(dead, false), Ok(Recovered::Quarantined));
    assert_eq!(area.slabs(), 1);
    assert_eq!(area.allocate(), Err(MutationError::Poisoned));
}

#[test]
fn dead_heap_owner_before_growth_evidence_poison_is_not_mistaken_for_rollback() {
    let mut area = Area::new(0, MAX_ADDR);
    let dead = area.dead();

    area.dir().claim(dead).unwrap();
    abandon_mutation(area.talc(), dead);
    assert_eq!(area.recover(dead, false), Ok(Recovered::Quarantined));
    assert_eq!(area.allocate(), Err(MutationError::Poisoned));
}

#[test]
fn changes_of_another_participant_keep_a_directory_busy() {
    let mut area = Area::new(0, MAX_ADDR);
    let dead = area.dead();
    area.dir().claim(dead).unwrap();
    assert_eq!(area.dir().transaction_owner(), Some(dead));
    assert!(matches!(area.create::<Created>(1), Err(Error::Busy(owner)) if owner == dead));
    assert_eq!(area.recover(dead + 1, false), Err(Error::Busy(dead)));
    assert_eq!(area.recover(dead, false), Ok(Recovered::RolledBack));
    assert_eq!(area.dir().transaction_owner(), None);
    assert!(area.create::<Created>(1).is_ok());
}

#[test]
fn layouts_with_other_members_are_not_removed() {
    let mut area = Area::new(0, MAX_ADDR);
    let (id, mut created) = area.create::<Created>(7).unwrap();
    let ctx = LayoutContext {
        region: area.region.region,
        offset: created.layout_id().offset,
        allow_init: false,
    };
    let address = area.region.map.start + ctx.offset;
    assert_eq!(created.admit_at(address, 7, ctx, Some(5)), Ok(()));
    assert!(area.remove(id, &mut created).is_err());
    created.leave(5);
    assert_eq!(area.remove(id, &mut created), Ok(()));
    assert_eq!(area.remove(id, &mut created), Err(Error::Stale));
}

#[test]
fn removal_undoes_creation_and_keeps_other_layouts() {
    let mut area = Area::new(0, MAX_ADDR);
    let region = area.region.region;
    let (kept, header) = area.create::<Created>(1).unwrap();
    let (id, mut created) = area.create::<Created>(2).unwrap();
    let at = created.layout_id().offset;
    assert_ne!(at, header.layout_id().offset);
    assert_eq!(area.dir().offset(region, id), Ok(at));
    assert_eq!(area.remove(id, &mut created), Ok(()));
    assert_eq!(area.dir().offset(region, id), Err(Error::Stale));
    assert_eq!(area.dir().offset(region, kept), Ok(header.layout_id().offset));

    // The memory is free again, and the name of it is a new one.
    let (again, created) = area.create::<Created>(3).unwrap();
    assert_eq!(created.layout_id().offset, at);
    assert_eq!((again.slab, again.entry), (id.slab, id.entry));
    assert_eq!(again.generation, id.generation + 1);
    assert_eq!(area.dir().offset(region, kept), Ok(header.layout_id().offset));
}

/// Memory that counts how often it is released; what is released is zeroed.
struct Memory {
    start: u64,
    bytes: Vec<u8>,
    releases: usize,
}

impl Memory {
    fn new(start: u64, bytes: Vec<u8>) -> Self {
        Memory { start, bytes, releases: 0 }
    }

    fn map(&self) -> Mapping {
        mapping(self.start, self.bytes.len() as u64)
    }

    fn unmap(&mut self, map: Mapping) {
        assert_eq!(map, self.map());
        for byte in &mut self.bytes[..map.len as usize] {
            *byte = 0;
        }
        self.releases += 1;
    }

    fn release(&mut self, refused: Refused<MapError>) -> MapError {
        self.unmap(refused.mapping.expect("the mapping comes back"));
        refused.error
    }
}

#[test]
fn region_close_unmaps_once() {
    let mut memory = Memory::new(0, vec![0xaa; 0x2000]);
    let mut root = RcHeader::<Root>::zeroed();
    let area = MapLayout::new(
        memory.map(),
        RegionAdmission::Create(RegionId::new(0, 0)),
        &mut root,
    )
    .unwrap();
    let slot = area.area.member.slot as usize;
    let words = root.inner.as_mut().unwrap();

    assert_eq!(area.area.close(words, true, false), Err(CloseError::InUse));
    assert_ne!(words.members[slot] % 4, MEMBER_FREE);
    memory.unmap(area.area.map);
    assert_eq!(area.area.close(words, false, memory.releases == 1), Ok(()));
    assert!(memory.bytes.iter().all(|byte| *byte == 0));
    assert_eq!(words.members[slot] % 4, MEMBER_FREE);
    assert_eq!(area.area.close(words, false, false), Err(CloseError::UnmapFailed));
}

#[test]
fn failed_root_admission_releases_the_map() {
    let mut memory = Memory::new(0x1000, vec![0xaa; 1]);
    let mut root = RcHeader::<Root>::zeroed();
    let admission = RegionAdmission::Create(RegionId::new(1, 1));
    let refused = MapLayout::new(memory.map(), admission, &mut root).err().unwrap();
    assert!(matches!(memory.release(refused), MapError::UnenoughSpace { .. }));
    assert_eq!(memory.bytes, [0]);
    assert_eq!(root.status(), Status::Uninitialized);
    assert!(root.inner.is_none());
}

#[test]
fn failed_session_composition_detaches_and_releases_once() {
    let mut shared =
        Shared { root: RcHeader::zeroed(), directory: RcHeader::zeroed(), heap: RcHeader::zeroed() };
    let mut memory = Memory::new(0x1000, vec![0; 640 + 8 + 704]);
    let layout = MapLayout::new(
        memory.map(),
        RegionAdmission::Create(RegionId::new(2, 2)),
        &mut shared.root,
    )
    .expect("root fits");
    let slot = layout.area.member.slot;

    let refused = Session::from(layout, &mut shared).err().expect("no room for a heap");
    memory.release(refused);
    assert_eq!(memory.releases, 1);
    assert_eq!(shared.root.inner.as_ref().unwrap().members[slot as usize] % 4, MEMBER_FREE);
    assert!(!shared.directory.has_member(slot));
    assert!(!shared.heap.has_member(slot));
}

#[test]
fn mapped_drop_releases_its_layout_membership() {
    let mut root = RcHeader::<Root>::zeroed();
    let mut layout = MapLayout::new(
        mapping(0, 0x4000),
        RegionAdmission::Create(RegionId::new(0, 0)),
        &mut root,
    )
    .unwrap();
    let mut mapped = RcHeader::<Root>::zeroed();
    layout.push::<Root>(&mut mapped, ()).unwrap();
    let slot = layout.area.peer().slot();
    let ctx = LayoutContext {
        region: layout.area.region,
        offset: mapped.layout_id().offset,
        allow_init: false,
    };
    let address = layout.area.map.start + ctx.offset;

    assert_eq!(mapped.admit_at(address, (), ctx, Some(slot)), Err(AdmitError::DuplicateMember));
    mapped.leave(slot);
    assert_eq!(mapped.admit_at(address, (), ctx, Some(slot)), Ok(()));
    mapped.leave(slot);
}

#[test]
fn regions_that_may_not_be_written_are_not_entered() {
    let mut root = RcHeader::<Root>::zeroed();
    let map = Mapping { start: 0, len: 0x2000, access: Access::reading() };
    assert!(matches!(
        MapLayout::new(map, RegionAdmission::Create(RegionId::new(0, 1)), &mut root),
        Err(Refused { error: MapError::PermissionDenied { requested }, mapping: Some(_) })
            if requested == Access::writing()
    ));
    assert!(matches!(
        MapLayout::new(
            mapping(0, 0x2000),
            RegionAdmission::Expect(RegionId::new(0, 1)),
            &mut root
        ),
        Err(Refused { error: MapError::LayoutMismatch(_), mapping: Some(_) })
    ));
    assert!(matches!(
        MapLayout::new(mapping(0, 0x2000), RegionAdmission::Discover, &mut root),
        Err(Refused { error: MapError::InvalidHeader, mapping: Some(_) })
    ));
}

#[test]
fn ranges_outside_a_region_have_no_offset() {
    let area = Area::new(0x1000, MAX_ADDR);
    assert_eq!(area.region.offset_of(0x1000, 16), Ok(0));
    assert_eq!(area.region.offset_of(0x1010, 16), Ok(16));
    assert_eq!(area.region.offset_of(0xfff, 16), Err(ProjectionError::OutOfBounds));
    assert_eq!(
        area.region.offset_of(0x1000 + MAX_ADDR, 1),
        Err(ProjectionError::OutOfBounds)
    );
    assert_eq!(
        area.region.reach(4, Extent { size: 8, align: 8 }),
        Err(ProjectionError::Misaligned)
    );
    assert_eq!(
        area.region.reach(u64::MAX, Extent { size: 8, align: 8 }),
        Err(ProjectionError::ArithmeticOverflow)
    );
}

#[test]
fn chains_that_are_cut_end_in_the_error_of_their_link() {
    let mut area = Area::new(0, MAX_ADDR);
    let region = area.region.region;
    let (id, header) = area.create::<Created>(1).unwrap();
    area.dir().cut = Some(ProjectionError::Misaligned);
    let refused = Error::Admission(ProjectionError::Misaligned);

    // What lies before the cut is found, and what would lie behind it is not.
    assert_eq!(area.dir().offset(region, id), Ok(header.layout_id().offset));
    assert_eq!(area.dir().offset(region, Id { slab: 1, ..id }), Err(refused));
    assert_eq!(area.dir().offset(region, Id { entry: 40, ..id }), Err(Error::Stale));
    assert_eq!(area.dir().walk(region, 1), Err(refused));

    // Vacant entries before the cut are taken; no slab is added behind it.
    for value in 1..32 {
        assert!(area.create::<Created>(value).is_ok());
    }
    assert_eq!(area.create::<Created>(32).err(), Some(refused));
    assert_eq!(area.slabs(), 1);
    assert_eq!(area.dir().transaction_owner(), None);

    // A dead participant's change whose entry may lie behind the cut stays.
    let dead = area.dead();
    area.dir().transaction = owner_word(dead, HELD);
    assert_eq!(area.recover(dead, false), Err(refused));
    assert_eq!(area.dir().transaction_owner(), Some(dead));
}
