use evering::channel::duplex::Duplex;
use evering::channel::role::Channel;
use evering::channel::{Id as ChannelId, Port, ReceiveError};
use evering::dir::{entry_word, Directory, Entry, CREATE, GROW, PENDING, PUBLISHED, REMOVE};
use evering::dir::{CLOSING, RELEASED, REMOVING, SLAB_BYTES, VACANT};
use evering::extent::Extent;
use evering::header::layout::RcHeader;
use evering::layout::recovery_handler;
use evering::mem::compose::MapLayout;
use evering::mem::{Access, Mapping, Peer, Region};
use evering::queue::repair::mark_slot;
use evering::schema::{RegionAdmission, RegionId};
use evering::session::layouts::Objects;
use evering::session::objects::{find_at, Pools};
use evering::session::work::ChannelCreateError;
use evering::session::{Session, Shared};
use evering::talc::lock::{Meta, TalckMeta};
use evering::talc::mutation::MutationError;

const SIZE: u64 = 1 << 18;
const REGION: RegionId = RegionId { high: 0x5245_434f, low: 1 };

struct World {
    shared: Shared,
    objects: Objects<()>,
}

fn enter(shared: &mut Shared, admission: RegionAdmission) -> (Session, Region) {
    let access = Access::reading().union(Access::writing());
    let map = Mapping { start: 0x10000, len: SIZE, access };
    let area = MapLayout::new(map, admission, &mut shared.root).unwrap();
    let region = area.area;
    (Session::from(area, shared).unwrap(), region)
}

impl World {
    fn new() -> (Self, Session) {
        let mut shared = Shared {
            root: RcHeader::zeroed(),
            directory: RcHeader::zeroed(),
            heap: RcHeader::zeroed(),
        };
        let (session, region) = enter(&mut shared, RegionAdmission::Create(REGION));
        let pools = Pools { region, published: None, stored: Vec::new() };
        (World { shared, objects: Objects { pools, channels: Vec::new() } }, session)
    }

    /// A participant that ends before what it began is finished.
    fn doomed(&mut self) -> (Session, Region) {
        enter(&mut self.shared, RegionAdmission::Expect(REGION))
    }

    fn dir(&mut self) -> &mut Directory {
        self.shared.directory.inner.as_mut().unwrap()
    }

    fn heap(&mut self) -> &mut TalckMeta {
        self.shared.heap.inner.as_mut().unwrap()
    }

    fn create(
        &mut self,
        session: &Session,
        capacity: u64,
    ) -> Result<(Channel<()>, Port<()>), ChannelCreateError> {
        let (channel, port, stored) = session.create_channel::<()>(&mut self.shared, capacity)?;
        self.objects.channels.push(stored);
        Ok((channel, port))
    }

    /// The name of a new channel that nobody uses any more.
    fn create_id(&mut self, session: &Session) -> Option<ChannelId<()>> {
        let (channel, _) = self.create(session, 4).ok()?;
        let id = channel.id();
        let last = self.objects.channels.len() - 1;
        session.leave(channel, &mut self.objects.channels[last]);
        Some(id)
    }

    fn reap(&mut self, session: &Session, peer: Peer) -> bool {
        let recovery = session.assume_dead(&mut self.shared, peer).unwrap();
        assert_eq!(recovery.peer(), peer);
        recovery
            .reap_with(
                session,
                &mut self.shared,
                &mut self.objects,
                &[recovery_handler::<()>()],
            )
            .is_ok()
    }
}

#[derive(Clone, Copy, PartialEq)]
enum CreateCut {
    Pending,
    Allocated,
    Evidence,
    HeapClean,
    Published,
}

fn create_until(world: &mut World, region: Region, cut: CreateCut) {
    let owner = region.member.slot;
    let layout = Duplex::<()>::geometry(4).unwrap().layout;
    let mut transaction = world.dir().claim(owner).unwrap();
    let p = world.dir().reserve().unwrap();
    let generation = (world.dir().entries[p].state >> 3) + 1;
    world.dir().set_state(p, entry_word(generation, PENDING));
    if cut == CreateCut::Pending {
        return;
    }
    let mutation = world.heap().begin_mutation(owner).unwrap();
    let meta = world.heap().allocate_during(&mutation, layout).unwrap();
    if cut == CreateCut::Allocated {
        return;
    }
    world.dir().persist(&mut transaction, (p / 32) as u64, (p % 32) as u64, meta, CREATE);
    if cut == CreateCut::Evidence {
        return;
    }
    world.heap().commit(mutation);
    if cut == CreateCut::HeapClean {
        return;
    }
    let offset = world.heap().address(&meta) - region.map.start;
    world.dir().entries[p].offset = offset;
    world.dir().set_state(p, entry_word(generation, PUBLISHED));
}

#[test]
fn directory_create_crash_windows_follow_durable_evidence() {
    for cut in [
        CreateCut::Pending,
        CreateCut::Allocated,
        CreateCut::Evidence,
        CreateCut::HeapClean,
        CreateCut::Published,
    ] {
        let (mut world, session) = World::new();
        let (peer, region) = world.doomed();
        create_until(&mut world, region, cut);
        let reaped = world.reap(&session, peer.peer());
        if matches!(cut, CreateCut::Allocated | CreateCut::Evidence) {
            assert!(reaped, "poisoned heap must not block reap");
            assert!(world.create(&session, 4).is_err(), "poison forbids new mutation");
            continue;
        }
        assert!(reaped, "recoverable create cut");
        let id = world.create_id(&session).expect("clean heap remains usable");
        assert_eq!(
            id.entry(),
            u32::from(cut == CreateCut::Published),
            "only a published-but-uncommitted layout is quarantined"
        );
    }
}

#[derive(Clone, Copy, PartialEq, PartialOrd)]
enum RemoveCut {
    Closing,
    Closed,
    Removing,
    Deallocated,
    Released,
    HeapClean,
    Vacant,
}

fn meta_of(world: &World, region: Region, size: u64) -> Meta {
    let header = &world.objects.channels[0].header;
    let address = region.map.start + header.layout_id().offset;
    let base = world.shared.heap.inner.as_ref().unwrap().base_ptr();
    TalckMeta::meta_for(world.shared.heap.layout_info().unwrap(), base, address, size).unwrap()
}

fn remove_until(world: &mut World, region: Region, id: ChannelId<()>, cut: RemoveCut) {
    let owner = region.member.slot;
    let layout = Duplex::<()>::geometry(4).unwrap().layout;
    let p = (id.slab() * 32 + id.entry()) as usize;
    let mut transaction = world.dir().claim(owner).unwrap();
    let meta = meta_of(world, region, layout.size);
    let mutation = world.heap().begin_mutation(owner).unwrap();
    world.dir().set_state(p, entry_word(id.generation(), CLOSING));
    world.dir().persist(&mut transaction, id.slab() as u64, id.entry() as u64, meta, REMOVE);
    if cut >= RemoveCut::Closed {
        world.objects.channels[0].header.close_unique(owner).unwrap();
    }
    if cut >= RemoveCut::Removing {
        world.dir().set_state(p, entry_word(id.generation(), REMOVING));
    }
    if cut >= RemoveCut::Deallocated {
        world.heap().deallocate_during(&mutation, meta);
    }
    if cut >= RemoveCut::Released {
        world.dir().set_state(p, entry_word(id.generation(), RELEASED));
    }
    if cut >= RemoveCut::HeapClean {
        world.heap().commit(mutation);
    }
    if cut >= RemoveCut::Vacant {
        world.dir().set_state(p, entry_word(id.generation(), VACANT));
    }
}

#[test]
fn directory_remove_crash_windows_never_deallocate_twice() {
    for cut in [
        RemoveCut::Closing,
        RemoveCut::Closed,
        RemoveCut::Removing,
        RemoveCut::Deallocated,
        RemoveCut::Released,
        RemoveCut::HeapClean,
        RemoveCut::Vacant,
    ] {
        let (mut world, session) = World::new();
        let (peer, region) = world.doomed();
        let (channel, _) = world.create(&peer, 4).expect("create removal target");
        let id = channel.id();
        assert_eq!((id.slab(), id.entry(), id.generation()), (0, 0, 1));
        remove_until(&mut world, region, channel.id(), cut);
        let reaped = world.reap(&session, peer.peer());
        if matches!(cut, RemoveCut::Removing | RemoveCut::Deallocated) {
            assert!(reaped, "poisoned heap must not block reap");
            assert!(world.create(&session, 4).is_err(), "poison forbids new mutation");
            continue;
        }
        assert!(reaped, "recoverable removal cut");
        let found = session.contains_channel(
            &world.shared,
            &mut world.objects.channels,
            ChannelId::of(id.inner, 4),
        );
        if cut == RemoveCut::Closing {
            assert!(found, "pre-close layout survives");
        } else {
            assert!(!found, "closed layout stays removed");
            world.objects.channels.clear();
            let replacement = world.create_id(&session).expect("clean heap remains usable");
            assert_eq!(
                replacement.entry(),
                0,
                "posterior removal evidence must not quarantine a vacant entry"
            );
            assert_eq!(replacement.generation(), id.generation() + 1);
        }
    }
}

#[derive(Clone, Copy, PartialEq, PartialOrd)]
enum GrowCut {
    Allocated,
    Evidence,
    HeapClean,
    Linked,
    Cleared,
}

fn grow_until(world: &mut World, region: Region, cut: GrowCut) {
    let owner = region.member.slot;
    let mut transaction = world.dir().claim(owner).unwrap();
    let slab = world.dir().links.len() as u64 + 1;
    let mutation = world.heap().begin_mutation(owner).unwrap();
    let layout = Extent { size: SLAB_BYTES, align: 8 };
    let meta = world.heap().allocate_during(&mutation, layout).unwrap();
    let offset = world.heap().address(&meta) - region.map.start;
    if cut >= GrowCut::Evidence {
        world.dir().persist(&mut transaction, slab, 0, meta, GROW);
    }
    if cut >= GrowCut::HeapClean {
        world.heap().commit(mutation);
    }
    if cut >= GrowCut::Linked {
        world.dir().links.push(offset);
        for _ in 0..32 {
            world.dir().entries.push(Entry { state: VACANT, offset: 0 });
        }
    }
    if cut >= GrowCut::Cleared {
        world.dir().clear_pending(&mut transaction);
    }
}

#[test]
fn directory_growth_crash_windows_preserve_the_slab_chain() {
    for cut in [
        GrowCut::Allocated,
        GrowCut::Evidence,
        GrowCut::HeapClean,
        GrowCut::Linked,
        GrowCut::Cleared,
    ] {
        let (mut world, session) = World::new();
        for _ in 0..32 {
            world.create_id(&session).expect("fill root slab");
        }
        let (peer, region) = world.doomed();
        grow_until(&mut world, region, cut);
        let reaped = world.reap(&session, peer.peer());
        if matches!(cut, GrowCut::Allocated | GrowCut::Evidence) {
            assert!(reaped, "poisoned heap must not block reap");
            assert!(world.create(&session, 4).is_err(), "poison forbids new mutation");
            continue;
        }
        assert!(reaped, "recoverable growth cut");
        let id = world.create_id(&session).expect("recovered Directory can grow");
        assert_eq!(id.slab(), 1, "growth resumes in the second slab");
        assert_eq!(id.entry(), 0, "no second-slab entry is lost");
    }
}

#[derive(Clone, Copy, PartialEq)]
enum HeapCut {
    Claimed,
    Mutated,
    Clean,
}

#[test]
fn standalone_talc_crash_windows_poison_mutation_without_blocking_reap() {
    for (release, cut) in [
        (false, HeapCut::Claimed),
        (false, HeapCut::Mutated),
        (false, HeapCut::Clean),
        (true, HeapCut::Claimed),
        (true, HeapCut::Mutated),
        (true, HeapCut::Clean),
    ] {
        let (mut world, session) = World::new();
        let record = session.heap().put(world.heap(), 7_u64).ok().unwrap();
        let (peer, region) = world.doomed();
        let owner = region.member.slot;
        let layout = Extent { size: 8, align: 8 };
        let held = if release {
            Some(world.heap().allocate(owner, layout).unwrap())
        } else {
            None
        };
        let mutation = world.heap().begin_mutation(owner).unwrap();
        if cut != HeapCut::Claimed {
            match held {
                Some(meta) => world.heap().deallocate_during(&mutation, meta),
                None => {
                    world.heap().allocate_during(&mutation, layout).unwrap();
                }
            }
        }
        if cut == HeapCut::Clean {
            world.heap().commit(mutation);
        }
        let reaped = world.reap(&session, peer.peer());
        if cut != HeapCut::Clean {
            assert!(reaped, "poisoned heap must not block reap");
            let error = match session.heap().put(world.heap(), 8_u64) {
                Err(error) => error,
                Ok(_) => panic!("poison admitted a new mutation"),
            };
            assert_eq!(error.error, MutationError::Poisoned);
            assert_eq!(*record.get(), 7, "pre-existing data remains readable");
            continue;
        }
        assert!(reaped, "clean Talc cut is recoverable");
        assert!(
            session.heap().put(world.heap(), 7_u64).is_ok(),
            "clean Talc remains usable"
        );
    }
}

#[test]
fn a_second_reaper_finishes_the_original_transfer_owner() {
    let (mut world, session) = World::new();
    let (channel, port) = world.create(&session, 1).unwrap();
    let (pool_id, pool, stored) =
        session.create_pool(&mut world.shared, 64 * 1024, None).unwrap();
    world.objects.pools.stored.push(stored);

    let (source, _) = world.doomed();
    let source_pool = session_pool(&mut world, &source, pool_id);
    let adopted = source
        .adopt(&world.shared, &mut world.objects.channels, port)
        .ok()
        .unwrap();
    let (send, _) = adopted.split();
    let storage = world.objects.pools.stored[0].header.inner.as_mut().unwrap();
    let transfer = source_pool.put(storage, 41_u64).unwrap().transfer(());
    let duplex = world.objects.channels[0].header.inner.as_mut().unwrap();
    let reserved = send.reserve(duplex).ok().unwrap();
    let _staged = reserved.stage(duplex, transfer);
    assert!(session.assume_dead(&mut world.shared, source.peer()).is_some());

    // The first reaper ends once it has marked the slot as its own to repair.
    let (reaper, _) = world.doomed();
    let duplex = world.objects.channels[0].header.inner.as_mut().unwrap();
    let rings = [&mut duplex.left, &mut duplex.right];
    for ring in rings {
        let _ = mark_slot(&mut ring.slots[0], source.peer().slot(), reaper.peer().slot());
    }

    assert!(world.reap(&session, reaper.peer()));
    assert!(world.reap(&session, source.peer()));

    let (_, receive) = channel.split();
    let place = find_at(&world.objects.channels, world.objects.channels[0].at).unwrap();
    let duplex = world.objects.channels[place].header.inner.as_mut().unwrap();
    assert!(matches!(receive.claim(duplex), Err(ReceiveError::Busy)));
    assert!(matches!(receive.claim(duplex), Err(ReceiveError::Empty)));
    let storage = world.objects.pools.stored[0].header.inner.as_mut().unwrap();
    let block = pool.put(storage, 43_u64).unwrap();
    assert_eq!(block.read(storage), Some(43));
}

fn session_pool(
    world: &mut World,
    session: &Session,
    id: evering::pool::shared::PoolId,
) -> evering::pool::block::PoolRef {
    session.open_pool(&world.shared, &mut world.objects.pools, id).unwrap()
}

#[test]
fn nobody_reaps_itself_or_a_participant_that_is_gone() {
    let (mut world, session) = World::new();
    let own = session.assume_dead(&mut world.shared, session.peer()).unwrap();
    assert!(own.reap(&session, &mut world.shared, &mut world.objects).is_err());

    let (mut world, session) = World::new();
    let (peer, _) = world.doomed();
    peer.end(&mut world.shared, true);
    assert!(session.assume_dead(&mut world.shared, peer.peer()).is_none());
    let stranger = Peer::from_parts(40, 3);
    assert!(session.assume_dead(&mut world.shared, stranger).is_none());
}

#[test]
fn a_participant_that_was_reaped_already_is_refused_once_its_membership_is_gone() {
    let (mut world, session) = World::new();
    let (peer, _) = world.doomed();
    let first = session.assume_dead(&mut world.shared, peer.peer()).unwrap();
    let second = session.assume_dead(&mut world.shared, peer.peer()).unwrap();
    let members = world.shared.directory.members;
    assert!(first.reap(&session, &mut world.shared, &mut world.objects).is_ok());
    let left = world.shared.directory.members;
    assert_ne!(left, members);

    world.shared.directory.members = members;
    let back = second.reap(&session, &mut world.shared, &mut world.objects);
    assert!(matches!(back, Err(recovery) if recovery.peer() == peer.peer()));
    assert_eq!(world.shared.directory.members, left);
}
