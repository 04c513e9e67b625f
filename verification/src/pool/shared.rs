//! Pools of a region: their names, their creation and how they are opened.

use super::block::PoolRef;
use super::geometry::{BlockRange, Config, Geometry, PoolCreateError};
use super::storage::Storage;
use crate::dir::{Directory, Error, Id};
use crate::header::layout::RcHeader;
use crate::mem::Region;
use crate::schema::RegionId;
use crate::talc::lock::TalckMeta;
use vstd::prelude::*;

verus! {

/// The name of a pool.
#[derive(Clone, Copy, Debug, PartialEq, Eq, Structural)]
pub struct PoolId {
    pub(crate) id: Id,
}

impl PoolId {
    pub closed spec fn id_spec(self) -> Id {
        self.id
    }

    pub fn new(region: RegionId, slab: u32, entry: u32, generation: u64) -> (id: Self)
        ensures
            id.id_spec() == (Id { region, slab, entry, generation }),
    {
        PoolId { id: Id::from_parts(region, slab, entry, generation) }
    }

    pub fn of(id: Id) -> (named: Self)
        ensures
            named.id_spec() == id,
    {
        PoolId { id }
    }

    pub fn parts(self) -> (parts: (RegionId, u32, u32, u64))
        ensures
            parts == (
                self.id_spec().region,
                self.id_spec().slab,
                self.id_spec().entry,
                self.id_spec().generation,
            ),
    {
        self.id.parts()
    }

    pub fn id(self) -> (id: Id)
        ensures
            id == self.id_spec(),
    {
        self.id
    }
}

/// One participant's way to the pool with this header.
pub fn pool_ref(region: &Region, header: &RcHeader<Storage>) -> (pool: PoolRef)
    ensures
        pool.id == (crate::schema::LayoutId { region: header.region, offset: header.offset }),
        pool.owner == region.member.slot,
{
    PoolRef { id: header.layout_id(), owner: region.member.slot }
}

/// The configuration of a pool of this geometry.
pub open spec fn config_of(geometry: Geometry) -> Config {
    Config {
        info: super::geometry::Info {
            min: geometry.classes@[0].bytes,
            base: geometry.classes@[0].slots,
            classes: geometry.classes@.len() as u64,
        },
        layout: geometry.layout,
    }
}

/// What creating a pool of at most `bound` bytes does: its geometry fits the
/// bytes and the range, and its layout is created and published.
pub open spec fn pool_creates(
    before: crate::dir::DirView,
    after: crate::dir::DirView,
    heap: TalckMeta,
    heap_after: TalckMeta,
    region: Region,
    heap_region: RegionId,
    bound: u64,
    range: Option<BlockRange>,
    made: Result<(PoolId, RcHeader<Storage>), PoolCreateError>,
) -> bool {
    match made {
        Err(PoolCreateError::InvalidExtent) => after == before
            && heap_after == heap && super::geometry::creates(
            bound,
            range,
            Err::<Geometry, PoolCreateError>(PoolCreateError::InvalidExtent),
        ),
        Err(PoolCreateError::RequiredExtent { required, available }) => after
            == before && heap_after == heap && super::geometry::creates(
            bound,
            range,
            Err::<Geometry, PoolCreateError>(
                PoolCreateError::RequiredExtent { required, available },
            ),
        ),
        Err(PoolCreateError::Storage) => if region.region != heap_region {
            after == before && heap_after == heap
        } else {
            exists|geometry: Geometry, error: Error|
                super::geometry::creates(
                    bound,
                    range,
                    Ok::<Geometry, PoolCreateError>(geometry),
                ) && #[trigger] crate::dir::create::creates::<Storage>(
                    before,
                    after,
                    heap,
                    heap_after,
                    region,
                    config_of(geometry),
                    geometry.layout,
                    Err::<(Id, RcHeader<Storage>), Error>(error),
                )
        },
        Ok((id, header)) => region.region == heap_region && exists|geometry: Geometry|
            super::geometry::creates(
                bound,
                range,
                Ok::<Geometry, PoolCreateError>(geometry),
            ) && #[trigger] crate::dir::create::creates::<Storage>(
                before,
                after,
                heap,
                heap_after,
                region,
                config_of(geometry),
                geometry.layout,
                Ok::<(Id, RcHeader<Storage>), Error>((id.id_spec(), header)),
            ),
    }
}

/// Creates a pool of at most `bound` bytes.
pub fn create(
    directory: &mut Directory,
    region: &Region,
    heap: &mut TalckMeta,
    heap_region: RegionId,
    bound: u64,
    range: Option<BlockRange>,
) -> (made: Result<(PoolId, RcHeader<Storage>), PoolCreateError>)
    requires
        old(directory)@.wf(),
        old(heap).wf(),
        region.wf(),
        crate::dir::change::behind_root(*region, *old(heap)),
        range matches Some(range) ==> range.wf(),
        crate::dir::create::resumable(old(directory)@),
        crate::dir::recover::sound(old(directory)@, *old(heap), crate::dir::SLAB_BYTES as int),
    ensures
        final(directory)@.wf(),
        final(heap).wf(),
        final(heap).talc.same_heap(old(heap).talc),
        crate::dir::create::resumable(final(directory)@),
        crate::dir::recover::sound(final(directory)@, *final(heap), crate::dir::SLAB_BYTES as int),
        made matches Ok((_, header)) ==> header.wf() && (header.inner matches Some(storage)
            && storage@.wf()),
        pool_creates(
            old(directory)@,
            final(directory)@,
            *old(heap),
            *final(heap),
            *region,
            heap_region,
            bound,
            range,
            made,
        ),
{
    let geometry = match Geometry::create(bound, range) {
        Ok(geometry) => geometry,
        Err(error) => return Err(error),
    };
    proof {
        super::geometry::lemma_created(bound, range, geometry);
        super::storage::law_pool_header();
    }
    let config = geometry.config();
    assert(config == config_of(geometry));
    match directory.create_in::<Storage>(region, heap, heap_region, config, config.layout) {
        Ok((id, header)) => Ok((PoolId::of(id), header)),
        Err(error) => Err(PoolCreateError::Storage),
    }
}

/// The configuration that the header of a pool records, where it records one.
pub open spec fn recorded_config(
    directory: Directory,
    region: Region,
    id: Id,
    header: RcHeader<Storage>,
) -> Option<Config> {
    match directory.recorded_spec(region, id, header) {
        None => None,
        Some(recorded) => match header.info {
            None => None,
            Some(info) => if super::geometry::records(info, recorded.extent) {
                let laid = super::geometry::laid_out(info.min, info.base, info.classes as nat)->0;
                Some(
                    Config {
                        info,
                        layout: crate::extent::Extent { size: recorded.extent, align: laid.align },
                    },
                )
            } else {
                None
            },
        },
    }
}

/// What opening the pool with the given name does.
pub open spec fn pool_opens(
    directory: Directory,
    region: Region,
    id: PoolId,
    before: RcHeader<Storage>,
    after: RcHeader<Storage>,
    opened: Option<PoolRef>,
) -> bool {
    match recorded_config(directory, region, id.id_spec(), before) {
        None => opened is None && after == before,
        Some(conf) => {
            let offset = directory@.published(region.region, id.id_spec())->0;
            match region.projection_refused(offset, Some(conf.layout)) {
                Some(_) => opened is None && after == before,
                None => {
                    &&& after.same_but_members(before)
                    &&& match before.refuses(
                        (region.map.start + offset) as u64,
                        conf,
                        crate::dir::open::look(region, offset),
                        Some(region.member.slot),
                        conf.layout,
                    ) {
                        Some(_) => opened is None && after.members
                            == before.members,
                        None => opened == Some(
                            PoolRef {
                                id: crate::schema::LayoutId {
                                    region: before.region,
                                    offset: before.offset,
                                },
                                owner: region.member.slot,
                            },
                        ) && after.members == crate::header::layout::with_member(
                            before.members,
                            Some(region.member.slot),
                        ),
                    }
                },
            }
        },
    }
}

/// Opens the pool with the given name as its header records it.
#[verifier::spinoff_prover]
pub fn open(
    directory: &Directory,
    region: &Region,
    id: PoolId,
    header: &mut RcHeader<Storage>,
) -> (opened: Option<PoolRef>)
    requires
        directory@.wf(),
        region.wf(),
        region.map.start + region.map.len <= u64::MAX,
        old(header).wf(),
    ensures
        final(header).wf(),
        pool_opens(*directory, *region, id, *old(header), *final(header), opened),
{
    proof {
        super::storage::law_pool_header();
    }
    let recorded = match directory.inspect(region, id.id(), header) {
        Some(recorded) => recorded,
        None => return None,
    };
    let info = match header.layout_info() {
        Some(info) => *info,
        None => return None,
    };
    let geometry = match Geometry::recorded(info, recorded.extent) {
        Some(geometry) => geometry,
        None => return None,
    };
    let conf = geometry.config();
    proof {
        super::geometry::lemma_laid_out_classes(info.min, info.base, info.classes as nat);
    }
    assert(conf == recorded_config(*directory, *region, id.id_spec(), *old(header))->0);
    match directory.open(region, id.id(), header, conf) {
        Ok(()) => Some(pool_ref(region, header)),
        Err(_) => None,
    }
}

/// The other mapping shows the region as the first does: it may be written, it is
/// as long, and what the one can align the other can.
pub open spec fn mapped_alike(region: Region, other: Region, align: u64) -> bool {
    &&& other.region == region.region
    &&& other.map.access.contains_spec(crate::mem::write_spec())
    &&& other.map.len == region.map.len
    &&& other.map.start + other.map.len <= u64::MAX
    &&& other.map.start as int % align as int == region.map.start as int % align as int
}

/// What a pool that was created records of itself.
proof fn lemma_pool_recorded(
    bound: u64,
    range: Option<BlockRange>,
    geometry: Geometry,
    conf: Config,
)
    requires
        super::geometry::creates(bound, range, Ok::<Geometry, PoolCreateError>(geometry)),
        conf == config_of(geometry),
    ensures
        super::geometry::records(conf.info, conf.layout.size),
        super::geometry::laid_out(conf.info.min, conf.info.base, conf.info.classes as nat) matches Some(
            laid,
        ) && conf.layout.align == laid.align && laid.classes == geometry.classes@,
        conf.layout.wf(),
        conf.layout.size >= crate::header::record::RECORD_SIZE,
{
    let min = super::geometry::range_min(range);
    let (count, base) = choose|count: nat, base: u64|
        #[trigger] geometry.is_of(min, count, base) && 1 <= count;
    super::geometry::lemma_laid_out_classes(min, base, count);
    super::geometry::lemma_created(bound, range, geometry);
    let laid = super::geometry::laid_out(min, base, count)->0;
    crate::extent::lemma_power_positive(laid.align as int);
    crate::numeric::lemma_align_up(laid.size, laid.align as int);
    assert(conf.info.classes as nat == count);
}

/// A pool that one participant created opens for another one that maps the region
/// alike: as the same pool, with the blocks that it has.
#[verifier::spinoff_prover]
pub proof fn law_created_pools_open_for_others(
    before: crate::dir::DirView,
    after: crate::dir::DirView,
    heap: TalckMeta,
    heap_after: TalckMeta,
    region: Region,
    bound: u64,
    range: Option<BlockRange>,
    id: PoolId,
    header: RcHeader<Storage>,
    directory: Directory,
    other: Region,
    now: RcHeader<Storage>,
    left: RcHeader<Storage>,
    opened: Option<PoolRef>,
)
    requires
        before.wf(),
        crate::dir::change::behind_root(region, heap),
        pool_creates(
            before,
            after,
            heap,
            heap_after,
            region,
            region.region,
            bound,
            range,
            Ok::<(PoolId, RcHeader<Storage>), PoolCreateError>((id, header)),
        ),
        directory@.published(region.region, id.id_spec()) == after.published(
            region.region,
            id.id_spec(),
        ),
        mapped_alike(region, other, header.record@.layout_value().extent_align),
        now.same_fields(header),
        now.record@ == header.record@,
        crate::header::layout::claimable(now.members, Some(other.member.slot)) is None,
        pool_opens(directory, other, id, now, left, opened),
    ensures
        opened == Some(
            PoolRef {
                id: crate::schema::LayoutId { region: header.region, offset: header.offset },
                owner: other.member.slot,
            },
        ),
        left.inner == now.inner,
{
    let geometry = choose|geometry: Geometry|
        super::geometry::creates(bound, range, Ok::<Geometry, PoolCreateError>(geometry))
            && #[trigger] crate::dir::create::creates::<Storage>(
            before,
            after,
            heap,
            heap_after,
            region,
            config_of(geometry),
            geometry.layout,
            Ok::<(Id, RcHeader<Storage>), Error>((id.id_spec(), header)),
        );
    let conf = config_of(geometry);
    lemma_pool_recorded(bound, range, geometry, conf);
    crate::dir::laws::law_created_layouts_occupy_their_memory::<Storage>(
        before,
        after,
        heap,
        heap_after,
        region,
        conf,
        geometry.layout,
        (id.id_spec(), header),
        id.id_spec(),
    );
    lemma_recognised(region, other, header, now, conf);
    let offset = header.offset;
    assert(directory@.published(other.region, id.id_spec()) == Some(offset));
    let address = other.map.start + offset;
    assert(now.inspected(address as u64, crate::dir::open::look(other, offset)) is None);
    assert(other.offset_spec(address, conf.layout.size as int) is Ok);
    assert(recorded_config(directory, other, id.id_spec(), now) == Some(conf));
}

/// The header of a pool is recognised where another mapping shows it.
proof fn lemma_recognised(
    region: Region,
    other: Region,
    header: RcHeader<Storage>,
    now: RcHeader<Storage>,
    conf: Config,
)
    requires
        mapped_alike(region, other, header.record@.layout_value().extent_align),
        now.same_fields(header),
        now.record@ == header.record@,
        conf.layout.wf(),
        conf.layout.size >= crate::header::record::RECORD_SIZE,
        header.inner is Some,
        header.initialized(
            header,
            conf,
            crate::schema::LayoutContext {
                region: region.region,
                offset: header.offset,
                allow_init: true,
            },
            Some(region.member.slot),
            conf.layout,
            Ok(header.inner->0),
        ),
        region.projection_refused(header.offset, Some(conf.layout)) is None,
    ensures
        other.projection_refused(header.offset, Some(conf.layout)) is None,
        now.info == Some(conf.info),
        now.record@.layout_value().extent == conf.layout.size,
        now.inspected(
            (other.map.start + header.offset) as u64,
            crate::dir::open::look(other, header.offset),
        ) is None,
        now.differs(
            (other.map.start + header.offset) as u64,
            conf,
            crate::dir::open::look(other, header.offset),
            conf.layout,
        ) is None,
{
    let align = conf.layout.align as int;
    let offset = header.offset as int;
    let ctx = crate::schema::LayoutContext {
        region: region.region,
        offset: header.offset,
        allow_init: true,
    };
    crate::extent::lemma_power_positive(align);
    assert(0int % align == 0) by {
        vstd::arithmetic::div_mod::lemma_small_mod(0, align as nat);
    }
    crate::header::layout::law_initialized_layouts_are_recognised::<Storage>(
        header,
        header,
        conf,
        ctx,
        Some(region.member.slot),
        conf.layout,
        header.inner->0,
        0,
        ctx,
    );
    assert((other.map.start + offset) % align == (region.map.start + offset) % align) by {
        vstd::arithmetic::div_mod::lemma_add_mod_noop(other.map.start as int, offset, align);
        vstd::arithmetic::div_mod::lemma_add_mod_noop(region.map.start as int, offset, align);
    }
    crate::header::layout::law_initialized_layouts_are_recognised::<Storage>(
        header,
        now,
        conf,
        ctx,
        Some(region.member.slot),
        conf.layout,
        header.inner->0,
        (other.map.start + offset) as u64,
        crate::dir::open::look(other, header.offset),
    );
}

} // verus!
