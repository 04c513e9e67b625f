use evering::channel::duplex::Duplex;
use evering::channel::role::Channel;
use evering::channel::transfer::AdoptError;
use evering::channel::{Id as ChannelId, InviteError, Port, ReceiveError, RoleWord};
use evering::header::layout::RcHeader;
use evering::header::root::Root;
use evering::header::LayoutField;
use evering::layout::recovery_handler;
use evering::mem::compose::{MapLayout, Source};
use evering::mem::{Access, Error as MapError, Mapping, Region, Request};
use evering::pool::block::{PoolRef, Transfer};
use evering::pool::geometry::{BlockRange, PoolCreateError};
use evering::pool::shared::PoolId;
use evering::pool::storage::{ReserveError, Storage};
use evering::queue::lifecycle::TrySendError;
use evering::schema::{LayoutId, RegionAdmission, RegionId, SchemaId, SchemaKey};
use evering::session::channels::{AdmitError, RemoveError};
use evering::session::layouts::Objects;
use evering::session::objects::{find_at, Pools};
use evering::session::open::{SessionError, SessionOptions, HEAP_BASE};
use evering::session::work::{ChannelCreateError, OpenPoolError};
use evering::session::{Session, Shared};
use evering::talc::config::Config;
use evering::talc::geometry::Geometry;
use evering::talc::lock::{Placed, TalckMeta};
use evering::talc::mutation::{owner_word, MutationError};
use evering::token::{PoolToken, Token};
use evering::msg::Repr;

const MAX_ADDR: u64 = 0x20000;

fn mapping(len: u64) -> Mapping {
    Mapping { start: 0, len, access: Access::reading().union(Access::writing()) }
}

fn blank() -> Shared {
    Shared { root: RcHeader::zeroed(), directory: RcHeader::zeroed(), heap: RcHeader::zeroed() }
}

/// A region, and the layouts in it that its participants share.
struct World {
    shared: Shared,
    objects: Objects<()>,
}

impl World {
    fn new() -> (Self, Session) {
        let mut shared = blank();
        let region = RegionId::new(0, 0);
        let (session, area) = enter(&mut shared, RegionAdmission::Create(region));
        let pools = Pools { region: area, published: None, stored: Vec::new() };
        (World { shared, objects: Objects { pools, channels: Vec::new() } }, session)
    }

    fn peer(&mut self) -> Session {
        enter(&mut self.shared, RegionAdmission::Expect(RegionId::new(0, 0))).0
    }

    fn heap(&mut self) -> &mut TalckMeta {
        self.shared.heap.inner.as_mut().unwrap()
    }

    fn create_pool(
        &mut self,
        session: &Session,
        extent: u64,
        range: Option<BlockRange>,
    ) -> Result<(PoolId, PoolRef), PoolCreateError> {
        let (id, pool, stored) = session.create_pool(&mut self.shared, extent, range)?;
        self.objects.pools.stored.push(stored);
        Ok((id, pool))
    }

    fn open_pool(&mut self, session: &Session, id: PoolId) -> Result<PoolRef, OpenPoolError> {
        session.open_pool(&self.shared, &mut self.objects.pools, id)
    }

    fn create_channel(
        &mut self,
        session: &Session,
        capacity: u64,
    ) -> Result<(Channel<()>, Port<()>), ChannelCreateError> {
        let (channel, port, stored) = session.create_channel::<()>(&mut self.shared, capacity)?;
        self.objects.channels.push(stored);
        Ok((channel, port))
    }

    fn adopt(
        &mut self,
        session: &Session,
        port: Port<()>,
    ) -> Result<Channel<()>, AdmitError<()>> {
        session.adopt(&self.shared, &mut self.objects.channels, port)
    }

    fn place(&self, id: ChannelId<()>) -> usize {
        let directory = self.shared.directory.inner.as_ref().unwrap();
        let offset = directory.offset(id.region(), id.inner).unwrap();
        find_at(&self.objects.channels, offset).unwrap()
    }

    fn leave(&mut self, session: &Session, channel: Channel<()>) {
        let i = self.place(channel.id());
        session.leave(channel, &mut self.objects.channels[i]);
    }

    fn remove(
        &mut self,
        session: &Session,
        channel: Channel<()>,
        unique: bool,
    ) -> Result<(), RemoveError<()>> {
        let removed = session.remove(&mut self.shared, &mut self.objects, channel, unique);
        self.objects.channels.retain(|stored| !stored.header.closed());
        removed
    }

    fn storage(&mut self, pool: PoolRef) -> &mut Storage {
        let i = find_at(&self.objects.pools.stored, pool.id.offset).unwrap();
        self.objects.pools.stored[i].header.inner.as_mut().unwrap()
    }

    /// The rings of the last channel, and the blocks of a pool.
    fn parts(&mut self, pool: PoolRef) -> (&mut Duplex<()>, &mut Storage) {
        let i = find_at(&self.objects.pools.stored, pool.id.offset).unwrap();
        (
            self.objects.channels.last_mut().unwrap().header.inner.as_mut().unwrap(),
            self.objects.pools.stored[i].header.inner.as_mut().unwrap(),
        )
    }

    fn duplex(&mut self) -> &mut Duplex<()> {
        self.objects.channels.last_mut().unwrap().header.inner.as_mut().unwrap()
    }

    fn transfer(&mut self, pool: PoolRef, value: u64) -> Transfer<()> {
        pool.put(self.storage(pool), value).unwrap().transfer(())
    }
}

fn enter(shared: &mut Shared, admission: RegionAdmission) -> (Session, Region) {
    let area = MapLayout::new(mapping(MAX_ADDR), admission, &mut shared.root).unwrap();
    let region = area.area;
    (Session::from(area, shared).unwrap(), region)
}

/// The transfer with another pool or another generation in its token.
fn forged(
    transfer: Transfer<()>,
    pool: impl Fn(LayoutId) -> LayoutId,
    generation: impl Fn(u32) -> u32,
) -> Transfer<()> {
    let (allocation, token) = transfer.into_parts();
    let inner = token.get_token();
    let inner = PoolToken::new(
        pool(inner.get_pool()),
        inner.get_span(),
        generation(inner.get_generation()),
        inner.metadata().unwrap(),
        inner.get_id(),
    );
    Transfer::from_parts(allocation, Token::new(inner, ()))
}

#[test]
fn create_channel_returns_one_admitted_role_and_its_peer_port() {
    let (mut world, session) = World::new();
    let (channel, _port) = world.create_channel(&session, 3).expect("create channel");
    assert_eq!(channel.id().capacity(), 3);
    let (_tx, _rx) = channel.split();
}

#[test]
fn peer_port_admits_exactly_one_opposite_role() {
    let (mut world, first) = World::new();
    let (left, port) = world.create_channel(&first, 3).unwrap();
    let again = Port::from_parts(port.id(), port.role(), port.generation()).unwrap();
    let second = world.peer();

    let right = world.adopt(&second, port).ok().expect("adopt peer role");
    let (_left_tx, _left_rx) = left.split();
    let (_right_tx, _right_rx) = right.split();
    assert_eq!(right.index(), 1 - left.index());
    let third = world.peer();
    assert!(matches!(world.adopt(&third, again), Err(AdmitError::Occupied(_))));
}

#[test]
fn reinvite_invalidates_the_previous_port_generation() {
    let (mut world, first) = World::new();
    let (left, stale) = world.create_channel(&first, 3).unwrap();
    let current = left.invite(world.duplex()).ok().expect("replace invitation");
    let second = world.peer();

    let rejected = match world.adopt(&second, stale) {
        Err(rejected) => rejected,
        Ok(_) => panic!("stale Port was admitted"),
    };
    assert!(matches!(rejected, AdmitError::Stale(_)));
    assert!(world.adopt(&second, current).is_ok());
}

#[test]
fn invitations_race_for_the_word_that_they_observed() {
    let (mut world, session) = World::new();
    let (left, port) = world.create_channel(&session, 3).unwrap();
    let mine = RoleWord(world.duplex().first_role);
    let seen = RoleWord(world.duplex().second_role);
    let invited = left.invite_seeing(world.duplex(), mine, seen).ok().expect("first invitation");
    assert_eq!(invited.generation(), port.generation() + 1);
    let late = left.invite_seeing(world.duplex(), mine, seen);
    assert!(matches!(late, Err(InviteError::Busy)));
    assert_eq!(RoleWord(world.duplex().second_role).parts().0, invited.generation());
}

#[test]
fn removed_channel_is_terminal_and_cannot_reissue_the_peer_role() {
    let (mut world, session) = World::new();
    let (channel, _port) = world.create_channel(&session, 3).unwrap();
    let id = channel.id();
    let channels = &mut world.objects.channels;
    assert!(session.contains_channel(&world.shared, channels, ChannelId::of(id.inner, 3)) == false);

    world.remove(&session, channel, true).ok().expect("remove empty channel");
}

#[test]
fn closed_channel_can_be_removed_after_its_last_local_role_drops() {
    let (mut world, session) = World::new();
    let (channel, port) = world.create_channel(&session, 3).unwrap();
    assert!(world.remove(&session, channel, true).is_ok());
    assert!(world.adopt(&session, port).is_err());
}

#[test]
fn admitted_channel_receiver_reconstructs_pool_transfer() {
    let (mut world, first) = World::new();
    let (pool_id, first_pool) = world.create_pool(&first, 32 * 1024, None).unwrap();
    let (left, port) = world.create_channel(&first, 3).unwrap();
    let second = world.peer();
    let second_pool = world.open_pool(&second, pool_id).unwrap();
    let right = world.adopt(&second, port).ok().unwrap();
    let (send, _) = left.split();
    let (_, recv) = right.split();

    let transfer = world.transfer(first_pool, 17);
    let (duplex, storage) = world.parts(first_pool);
    assert!(send.try_send(duplex, storage, transfer).is_ok());
    let received = recv.claim(duplex).unwrap();
    let (_, value) = match received.adopt::<u64>(duplex, storage, second_pool) {
        Ok(value) => value,
        Err(_) => panic!("admitted receiver rejected matching Pool transfer"),
    };
    assert_eq!(value.read(storage), Some(17));
    value.release(storage);
}

#[test]
fn empty_pool_transfer_has_no_shared_allocation_to_adopt() {
    let (mut world, session) = World::new();
    let (pool_id, pool) = world.create_pool(&session, 32 * 1024, None).unwrap();
    let (left, port) = world.create_channel(&session, 1).unwrap();
    let peer = world.peer();
    let peer_pool = world.open_pool(&peer, pool_id).unwrap();
    let right = world.adopt(&peer, port).ok().unwrap();
    let (send, _) = left.split();
    let (_, recv) = right.split();

    let (duplex, storage) = world.parts(pool);
    let empty = pool.copy::<u8>(storage, &[]).unwrap().transfer(());
    assert!(send.try_send(duplex, storage, empty).is_ok());
    let received = recv.claim(duplex).unwrap();
    let (_, value) = received.adopt::<[u8]>(duplex, storage, peer_pool).ok().unwrap();
    assert!(value.read_all(storage).unwrap().is_empty());
    value.release(storage);

    let empty = pool.copy::<u8>(storage, &[]).unwrap().transfer(());
    assert!(send.try_send(duplex, storage, empty).is_ok());
    let received = recv.claim(duplex).unwrap();
    assert!(received.discard(duplex, storage, peer_pool).is_ok());

    let empty = pool.copy::<u8>(storage, &[]).unwrap().transfer(());
    assert!(send.try_send(duplex, storage, empty).is_ok());
    world.leave(&peer, right);
    assert!(world.remove(&session, left, true).is_ok());
}

#[test]
fn zero_generation_cannot_authorize_nonempty_pool_bytes() {
    let (mut world, session) = World::new();
    let (_, pool) = world.create_pool(&session, 32 * 1024, None).unwrap();
    let storage = world.storage(pool);
    let transfer = pool.copy(storage, &[1_u8][..]).unwrap().transfer(());
    let (mut allocation, token) = forged(transfer, |pool| pool, |_| 0).into_parts();
    allocation.detach(storage).unwrap();
    assert!(pool.adopt::<(), [u8]>(storage, &token).is_err());
}

#[test]
fn pool_owns_initialization_release_and_exact_failure_values() {
    let (mut world, session) = World::new();
    let (_, pool) = world.create_pool(&session, 64 * 1024, None).unwrap();
    let storage = world.storage(pool);

    let block = pool.reserve::<u64>(storage).unwrap().write(storage, 41);
    assert_eq!(block.read(storage), Some(41));
    block.release(storage);
    let block = pool.put(storage, 43_u64).unwrap();
    assert_eq!(block.read(storage), Some(43));
    block.set(storage, 44);
    assert_eq!(block.read(storage), Some(44));

    let bytes = pool.copy(storage, b"evering").unwrap();
    assert_eq!(bytes.read_all(storage).unwrap(), b"evering");
    let vacant = pool.reserve_bytes(storage, 8).unwrap();
    let bytes = vacant.written(storage, vec![7; 5]).ok().unwrap();
    assert_eq!(bytes.read_all(storage).unwrap(), &[7; 5]);

    let vacant = pool.reserve_bytes(storage, 1).unwrap();
    let vacant = match vacant.written(storage, vec![3; 2]) {
        Err(vacant) => vacant,
        Ok(_) => panic!("out-of-range completion was admitted"),
    };
    let bytes = vacant.written(storage, vec![3]).ok().unwrap();
    assert_eq!(bytes.read_all(storage).unwrap(), &[3]);

    let squares = pool.init(storage, 4, |index| (index * index) as u32).unwrap();
    assert_eq!(squares.read_all(storage).unwrap(), &[0, 1, 4, 9]);
}

#[test]
fn explicit_pool_range_never_silently_shrinks() {
    let (mut world, session) = World::new();
    let range = BlockRange::new(64, 64 * 1024).unwrap();
    let error = match world.create_pool(&session, 64 * 1024, Some(range)) {
        Err(error) => error,
        Ok(_) => panic!("undersized Pool extent was accepted"),
    };
    assert!(matches!(error, PoolCreateError::RequiredExtent { .. }));
    assert!(world.create_pool(&session, 64 * 1024, None).is_ok());
}

#[test]
fn pool_reclaims_only_the_dead_participant_owner() {
    let (mut world, first) = World::new();
    let (id, first_pool) = world.create_pool(&first, 64 * 1024, None).unwrap();
    let second = world.peer();
    let peer = second.peer();
    let pool = world.open_pool(&second, id).unwrap();
    let held = first_pool.put(world.storage(first_pool), 23_u64).unwrap();
    let lost = pool.put(world.storage(pool), 17_u64).unwrap();

    world.heap().mutation = owner_word(peer.slot());
    let recovery = first.assume_dead(&mut world.shared, peer).unwrap();
    assert!(recovery.reap(&first, &mut world.shared, &mut world.objects).is_ok());
    let error = match first.heap().put(world.heap(), 1_u8) {
        Err(error) => error.error,
        Ok(_) => panic!("poison admitted heap mutation"),
    };
    assert_eq!(error, MutationError::Poisoned);
    let block = first_pool.put(world.storage(first_pool), 19_u64).unwrap();
    assert_eq!(block.read(world.storage(first_pool)), Some(19));
    assert_eq!(held.read(world.storage(first_pool)), Some(23));

    // What the dead participant held is free; what the other holds is not.
    let (lost, _) = lost.transfer(()).into_parts();
    let (held, _) = held.transfer(()).into_parts();
    let (block, _) = block.transfer(()).into_parts();
    assert_eq!((block.class(), block.slot()), (lost.class(), lost.slot()));
    assert_ne!((block.class(), block.slot()), (held.class(), held.slot()));
    let replacement = world.peer();
    assert_eq!(replacement.peer().slot(), peer.slot());
    assert_ne!(replacement.peer().generation(), peer.generation());
}

#[test]
fn corrupt_transfer_evidence_retains_the_dead_participant() {
    let (mut world, first) = World::new();
    let (pool_id, _) = world.create_pool(&first, 64 * 1024, None).unwrap();
    let (_channel, port) = world.create_channel(&first, 1).unwrap();
    let second = world.peer();
    let dead = second.peer();
    let pool = world.open_pool(&second, pool_id).unwrap();
    let peer_channel = world.adopt(&second, port).ok().unwrap();
    let (send, _) = peer_channel.split();
    let transfer = forged(
        world.transfer(pool, 17),
        |pool| LayoutId { offset: u64::MAX, ..pool },
        |generation| generation,
    );
    let duplex = world.duplex();
    let reserved = send.reserve(duplex).ok().unwrap();
    let _staged = reserved.stage(duplex, transfer);

    world.heap().mutation = owner_word(dead.slot());
    let recovery = first.assume_dead(&mut world.shared, dead).unwrap();
    assert!(recovery.reap(&first, &mut world.shared, &mut world.objects).is_err());
    let handlers = [recovery_handler::<()>()];
    assert!(
        recovery.reap_with(&first, &mut world.shared, &mut world.objects, &handlers).is_err()
    );
    let replacement = world.peer();
    assert_ne!(replacement.peer().slot(), dead.slot());
}

#[test]
fn staged_transfers_of_a_dead_participant_are_given_back() {
    let (mut world, first) = World::new();
    let range = BlockRange::new(64, 64).unwrap();
    let (pool_id, first_pool) = world.create_pool(&first, 32 * 1024, Some(range)).unwrap();
    let (_channel, port) = world.create_channel(&first, 1).unwrap();
    let second = world.peer();
    let dead = second.peer();
    let pool = world.open_pool(&second, pool_id).unwrap();
    let peer_channel = world.adopt(&second, port).ok().unwrap();
    let (send, _) = peer_channel.split();
    let transfer = world.transfer(pool, 17);
    let duplex = world.duplex();
    let reserved = send.reserve(duplex).ok().unwrap();
    let _staged = reserved.stage(duplex, transfer);

    let recovery = first.assume_dead(&mut world.shared, dead).unwrap();
    let handlers = [recovery_handler::<()>()];
    assert!(
        recovery.reap_with(&first, &mut world.shared, &mut world.objects, &handlers).is_ok()
    );
    assert!(first.assume_dead(&mut world.shared, dead).is_none());
    let replacement = world.peer();
    assert_eq!(replacement.peer().slot(), dead.slot());
    let storage = world.storage(first_pool);
    let slots = storage.class_info(0).unwrap().slots;
    let mut taken = 0;
    while first_pool.put(storage, 1_u64).is_ok() {
        taken += 1;
    }
    assert_eq!(taken, slots);
}

struct OverSized(#[allow(dead_code)] [u64; 9]);

impl Repr for OverSized {
    fn repr_spec() -> SchemaKey {
        Self::repr_schema()
    }

    fn repr_schema() -> SchemaKey {
        SchemaKey::new(SchemaId(0x504f_4f4c_414c_4947), 1)
    }
}

#[test]
fn pool_errors_keep_values_and_concurrent_claims_unique() {
    let (mut world, session) = World::new();
    let range = BlockRange::new(64, 64).unwrap();
    let (_, pool) = world.create_pool(&session, 32 * 1024, Some(range)).unwrap();
    let storage = world.storage(pool);
    assert!(matches!(
        pool.reserve::<OverSized>(storage),
        Err(ReserveError::BlockTooLarge(()))
    ));
    assert!(matches!(
        pool.copy(storage, &[7_u8; 65]),
        Err(ReserveError::BlockTooLarge(()))
    ));

    for value in 0..4000_u64 {
        let block = pool.put(storage, value).unwrap();
        assert_eq!(block.read(storage), Some(value));
        block.release(storage);
    }

    let mut blocks = Vec::new();
    loop {
        match pool.put(storage, 99_u64) {
            Ok(block) => blocks.push(block),
            Err(error) => {
                assert_eq!(error, ReserveError::Unavailable(99));
                break;
            }
        }
    }
    assert_eq!(pool.put(storage, ()).unwrap().read(storage), Some(()));
    let empty = pool.copy::<u8>(storage, &[]).unwrap();
    assert!(empty.read_all(storage).unwrap().is_empty());
    blocks.pop().unwrap().release(storage);
    let block = pool.put(storage, 101_u64).unwrap();
    assert_eq!(block.read(storage), Some(101));
}

#[test]
fn pool_geometry_is_queryable_aligned_and_nonoverlapping() {
    let (mut world, session) = World::new();
    let (_, pool) = world.create_pool(&session, 64 * 1024, None).unwrap();
    let storage = world.storage(pool);
    let range = storage.range();
    let mut previous = 0;
    for index in 0.. {
        let Some(class) = storage.class_info(index) else {
            break;
        };
        assert!(class.bytes.is_power_of_two());
        assert!(class.bytes > previous && class.slots >= 64);
        previous = class.bytes;
    }
    assert_eq!((range.min(), range.max()), (64, previous));

    let small = pool.copy(storage, &[1_u8; 64]).unwrap().transfer(()).into_parts().0;
    let large = pool.copy(storage, &[2_u8; 128]).unwrap().transfer(()).into_parts().0;
    let span = |storage: &Storage, class: usize, slot: usize, len: u64| {
        let class = storage.class(class).unwrap();
        let start = pool.id.offset + class.payload + slot as u64 * class.bytes;
        start..start + len
    };
    let small = span(storage, small.class(), small.slot(), 64);
    let large = span(storage, large.class(), large.slot(), 128);
    assert_eq!(small.start % 64, 0);
    assert_eq!(large.start % 128, 0);
    assert!(small.end <= large.start || large.end <= small.start);
}

#[test]
fn invalid_pool_geometry_does_not_publish_a_directory_entry() {
    let (mut world, session) = World::new();
    assert!(BlockRange::new(u64::MAX, u64::MAX).is_err());
    assert!(matches!(
        world.create_pool(&session, 1, None),
        Err(PoolCreateError::RequiredExtent { .. })
    ));
    assert!(world.create_pool(&session, 32 * 1024, None).is_ok());
}

#[test]
fn heap_owns_values_without_exposing_allocator_plumbing() {
    let (mut world, session) = World::new();
    let heap = session.heap();

    let value = heap.put(world.heap(), 17_u64).ok().expect("allocate value");
    assert_eq!(*value.get(), 17);
}

#[test]
fn session_channel_count_is_bounded_by_shared_memory_not_a_type_constant() {
    let (mut world, session) = World::new();

    let (first, _) = world.create_channel(&session, 1).expect("first channel");
    let (second, _) = world
        .create_channel(&session, 1)
        .expect("a directory-backed session is not limited to one channel");

    assert_ne!(first.id().inner, second.id().inner);
}

#[test]
fn session_rejects_zero_capacity_without_panicking_or_publishing() {
    let (mut world, session) = World::new();

    assert!(matches!(
        world.create_channel(&session, 0),
        Err(ChannelCreateError::InvalidCapacity)
    ));
    assert!(world.create_channel(&session, 1).is_ok());
}

#[test]
fn channels_that_do_not_fit_exhaust_the_region() {
    let (mut world, session) = World::new();
    assert!(matches!(
        world.create_channel(&session, 1 << 20),
        Err(ChannelCreateError::Exhausted)
    ));
}

#[test]
fn duplex_sides_share_each_physical_direction_and_close_gate() {
    let (mut world, session) = World::new();
    let (pool_id, pool) = world.create_pool(&session, 32 * 1024, None).unwrap();
    let (left, port) = world.create_channel(&session, 3).unwrap();
    let peer = world.peer();
    let peer_pool = world.open_pool(&peer, pool_id).unwrap();
    let right = world.adopt(&peer, port).ok().unwrap();
    let (left_send, left_recv) = left.split();
    let (right_send, right_recv) = right.split();

    let transfer = world.transfer(pool, 7);
    let (duplex, storage) = world.parts(pool);
    assert!(left_send.try_send(duplex, storage, transfer).is_ok());
    let received = right_recv.claim(duplex).unwrap();
    let (_, value) = received.adopt::<u64>(duplex, storage, peer_pool).ok().unwrap();
    assert_eq!(value.read(storage), Some(7));
    assert!(matches!(right_recv.claim(duplex), Err(ReceiveError::Empty)));

    left_send.close(duplex);
    assert!(left_send.is_close(duplex));
    assert!(matches!(right_recv.claim(duplex), Err(ReceiveError::Closed)));
    right_send.close(duplex);
    assert!(matches!(left_recv.claim(duplex), Err(ReceiveError::Closed)));
}

#[test]
fn transfer_admission_keeps_the_claim_until_pool_authority_moves() {
    let (mut world, session) = World::new();
    let (pool_id, pool) = world.create_pool(&session, 32 * 1024, None).unwrap();
    let (_, other) = world.create_pool(&session, 32 * 1024, None).unwrap();
    let (left, port) = world.create_channel(&session, 1).unwrap();
    let peer = world.peer();
    let peer_pool = world.open_pool(&peer, pool_id).unwrap();
    let right = world.adopt(&peer, port).ok().unwrap();
    let (send, _) = left.split();
    let (_, recv) = right.split();

    let transfer = world.transfer(pool, 17);
    let (duplex, storage) = world.parts(pool);
    assert!(send.try_send(duplex, storage, transfer).is_ok());
    let (duplex, others) = world.parts(other);
    let received = recv.claim(duplex).unwrap();
    let failed = match received.adopt::<u64>(duplex, others, other) {
        Err(failed) => failed,
        Ok(_) => panic!("another Pool admitted the transfer"),
    };
    let received = match failed {
        AdoptError::Pool(received) => received,
        _ => panic!("wrong Pool rejection"),
    };
    let (duplex, storage) = world.parts(pool);
    let failed = match received.adopt::<u32>(duplex, storage, peer_pool) {
        Err(failed) => failed,
        Ok(_) => panic!("wrong runtime type admitted the transfer"),
    };
    let received = match failed {
        AdoptError::Type(received) => received,
        _ => panic!("wrong type rejection"),
    };
    let (_, value) = received.adopt::<u64>(duplex, storage, peer_pool).ok().unwrap();
    assert_eq!(value.read(storage), Some(17));

    let stale = forged(world.transfer(pool, 19), |pool| pool, |generation| generation + 1);
    let (duplex, storage) = world.parts(pool);
    assert!(send.try_send(duplex, storage, stale).is_ok());
    let received = recv.claim(duplex).unwrap();
    let failed = match received.adopt::<u64>(duplex, storage, peer_pool) {
        Err(failed) => failed,
        Ok(_) => panic!("stale participant generation admitted the transfer"),
    };
    assert!(matches!(failed, AdoptError::Owned(_)));
    let transfer = world.transfer(pool, 23);
    let (duplex, storage) = world.parts(pool);
    assert!(matches!(
        send.try_send(duplex, storage, transfer),
        Err(TrySendError::Full(_) | TrySendError::Busy(_))
    ));
}

#[test]
fn remove_drains_both_directions_and_reclaims_the_dynamic_layout() {
    let (mut world, session) = World::new();
    let (pool_id, pool) = world.create_pool(&session, 32 * 1024, None).unwrap();
    let (channel, port) = world.create_channel(&session, 3).unwrap();
    let removed = channel.id();
    let peer_session = world.peer();
    let peer_pool = world.open_pool(&peer_session, pool_id).unwrap();
    let peer = world.adopt(&peer_session, port).ok().unwrap();
    let (left, _) = channel.split();
    let (right, _) = peer.split();
    let first = world.transfer(pool, 11);
    let second = world.transfer(peer_pool, 13);
    let (duplex, storage) = world.parts(pool);
    assert!(left.try_send(duplex, storage, first).is_ok());
    assert!(right.try_send(duplex, storage, second).is_ok());

    world.leave(&peer_session, peer);
    assert!(world.remove(&session, channel, true).is_ok());
    let (replacement, _) = world.create_channel(&session, 3).unwrap();
    assert_eq!(replacement.id().entry(), removed.entry());
    assert_eq!(replacement.id().generation(), removed.generation() + 1);
}

#[test]
fn remove_resolves_each_queued_pool_identity() {
    let (mut world, session) = World::new();
    let range = BlockRange::new(64, 64).unwrap();
    let (first_id, first) = world.create_pool(&session, 32 * 1024, Some(range)).unwrap();
    let (second_id, second) = world.create_pool(&session, 32 * 1024, Some(range)).unwrap();
    let (channel, port) = world.create_channel(&session, 2).unwrap();
    let peer_session = world.peer();
    world.open_pool(&peer_session, first_id).unwrap();
    let peer_second = world.open_pool(&peer_session, second_id).unwrap();
    let peer = world.adopt(&peer_session, port).ok().unwrap();
    let (send, _) = channel.split();
    let (peer_send, _) = peer.split();

    let transfer = world.transfer(first, 11);
    let (duplex, storage) = world.parts(first);
    assert!(send.try_send(duplex, storage, transfer).is_ok());
    let transfer = world.transfer(peer_second, 13);
    let (duplex, storage) = world.parts(second);
    assert!(peer_send.try_send(duplex, storage, transfer).is_ok());
    world.leave(&peer_session, peer);

    assert!(world.remove(&session, channel, true).is_ok());
    for pool in [first, second] {
        let storage = world.storage(pool);
        let slots = storage.class_info(0).unwrap().slots as usize;
        let mut blocks = Vec::with_capacity(slots);
        while let Ok(block) = pool.put(storage, 1_u64) {
            blocks.push(block);
        }
        assert_eq!(blocks.len(), slots);
    }
}

#[test]
fn remove_returns_the_channel_unchanged_while_a_local_endpoint_exists() {
    let (mut world, session) = World::new();
    let (channel, _) = world.create_channel(&session, 2).unwrap();
    let channel = match world.remove(&session, channel, false).err().unwrap() {
        RemoveError::Busy(channel) | RemoveError::Evidence(channel, _) => channel,
    };
    assert!(world.remove(&session, channel, true).is_ok());
}

#[test]
fn remove_returns_the_channel_while_the_peer_role_is_owned() {
    let (mut world, session) = World::new();
    let (channel, port) = world.create_channel(&session, 2).unwrap();
    let peer_session = world.peer();
    let peer = world.adopt(&peer_session, port).ok().unwrap();

    let channel = match world.remove(&session, channel, true).err().unwrap() {
        RemoveError::Busy(channel) | RemoveError::Evidence(channel, _) => channel,
    };
    world.leave(&peer_session, peer);
    assert!(world.remove(&session, channel, true).is_ok());
}

#[test]
fn pools_of_other_regions_are_unavailable() {
    let (mut world, session) = World::new();
    let (id, _) = world.create_pool(&session, 32 * 1024, None).unwrap();
    let (region, slab, entry, generation) = id.parts();
    let stale = PoolId::new(region, slab, entry, generation + 1);
    assert!(matches!(
        world.open_pool(&session, stale),
        Err(OpenPoolError::Unavailable(unavailable)) if unavailable == stale
    ));
    let foreign = PoolId::new(RegionId::new(5, 5), slab, entry, generation);
    assert!(world.open_pool(&session, foreign).is_err());
}

#[test]
fn session_accepts_a_const_explicit_geometry_covering_its_bound() {
    let geometry = match Geometry::new(MAX_ADDR, 5, 10, 2) {
        Ok(geometry) => geometry,
        Err(_) => panic!("valid test geometry"),
    };

    let mut shared = blank();
    let area = MapLayout::new(
        mapping(MAX_ADDR),
        RegionAdmission::Create(RegionId::new(0, 0)),
        &mut shared.root,
    )
    .unwrap();
    let session = Session::from_geometry(area, &mut shared, geometry).unwrap();
    let heap = session.heap();
    let value = heap.put(shared.heap.inner.as_mut().unwrap(), 29_u32).ok().unwrap();
    assert_eq!(*value.get(), 29);
}

#[test]
fn heap_preserves_exact_allocation_failures() {
    let (mut world, session) = World::new();
    let heap = session.heap();
    let overflow = match heap.init::<u64, _>(world.heap(), usize::MAX, |_| 0) {
        Err(error) => error,
        Ok(_) => panic!("overflow was admitted"),
    };
    assert_eq!(overflow, MutationError::LayoutOverflow);

    let mut records = Vec::new();
    loop {
        match heap.copy(world.heap(), &[0_u8; 1024]) {
            Ok(record) => records.push(record),
            Err(error) => {
                assert_eq!(error, MutationError::Exhausted);
                break;
            }
        }
    }
    assert!(!records.is_empty());
}

#[test]
fn ended_sessions_make_room_for_others() {
    let (mut world, first) = World::new();
    let second = world.peer();
    let slot = second.peer().slot();
    assert_eq!(second.base_addr(&world.shared), first.base_addr(&world.shared));
    second.end(&mut world.shared, true);
    assert!(!world.shared.directory.has_member(slot));
    assert!(!world.shared.heap.has_member(slot));
    let third = world.peer();
    assert_eq!(third.peer().slot(), slot);
    assert_eq!(third.peer().generation(), second.peer().generation() + 1);
}

/// Memory that is mapped where it is asked for, or not at all.
struct Memory(bool);

impl Source for Memory {
    type Error = &'static str;

    fn map(self, request: Request) -> Result<Mapping, Self::Error> {
        if self.0 {
            Ok(Mapping { start: 0x4000, len: request.len, access: request.access })
        } else {
            Err("out of memory")
        }
    }
}

fn read_write(len: u64) -> Request {
    Request::new(len, Access::reading().union(Access::writing()))
}

#[test]
fn unix_area_init() {
    const SIZE: u64 = 2000;
    let mut root = RcHeader::<Root>::zeroed();
    let area = MapLayout::map(
        Memory(true),
        read_write(SIZE),
        RegionAdmission::Create(RegionId::new(0, 1)),
        &mut root,
    )
    .unwrap();
    assert_eq!(area.area.map.len, SIZE);
    assert_eq!(area.region_id(), RegionId::new(0, 1));
}

#[test]
fn sessions_report_what_their_source_and_their_region_refuse() {
    let mut shared = blank();
    let region = RegionId::new(7, 7);
    let refused = Session::create(Memory(false), read_write(MAX_ADDR), region, &mut shared)
        .err()
        .unwrap();
    assert!(matches!(refused.error, SessionError::Source("out of memory")));
    assert_eq!(refused.mapping, None);
    let request = Request::new(MAX_ADDR, Access::reading());
    let refused = Session::create(Memory(true), request, region, &mut shared).err().unwrap();
    assert!(matches!(refused.error, SessionError::PermissionDenied { .. }));
    assert_eq!(refused.mapping, Memory(true).map(request).ok());
    let refused =
        Session::create(Memory(true), read_write(64), region, &mut shared).err().unwrap();
    assert!(matches!(refused.error, SessionError::InsufficientSpace { allocated: 64, .. }));
    assert_eq!(refused.mapping, Memory(true).map(read_write(64)).ok());
    let geometry = Geometry::new(MAX_ADDR, 5, 10, 2).unwrap();
    let options = SessionOptions::default().with_heap_geometry(geometry);
    assert!(
        Session::create_with(Memory(true), read_write(MAX_ADDR), region, options, &mut shared)
            .is_ok()
    );
    let refused =
        Session::open(Memory(true), read_write(MAX_ADDR), RegionId::new(7, 8), &mut shared)
            .err()
            .unwrap();
    assert!(matches!(refused.error, SessionError::LayoutMismatch(LayoutField::Region)));
    assert_eq!(refused.mapping, Memory(true).map(read_write(MAX_ADDR)).ok());
}

#[test]
fn regions_that_were_never_created_are_not_opened() {
    let mut shared = blank();
    let request = read_write(MAX_ADDR);
    let refused =
        Session::open(Memory(true), request, RegionId::new(7, 7), &mut shared).err().unwrap();
    assert!(matches!(refused.error, SessionError::LayoutMismatch(LayoutField::State)));
    assert_eq!(refused.mapping, Memory(true).map(request).ok());
    assert!(shared.root.inner.is_none());

    let created = Session::create(Memory(true), request, RegionId::new(7, 7), &mut shared);
    let session = created.ok().unwrap();
    assert_eq!(session.end(&mut shared, true), Memory(true).map(request).ok());
}

#[test]
fn tokens_that_no_pool_takes_back_are_returned_with_their_channel() {
    let (mut world, session) = World::new();
    let (_, pool) = world.create_pool(&session, 32 * 1024, None).unwrap();
    let (channel, _) = world.create_channel(&session, 2).unwrap();
    let id = channel.id();
    let (send, _) = channel.split();
    let transfer = world.transfer(pool, 11);
    let (duplex, storage) = world.parts(pool);
    assert!(send.try_send(duplex, storage, transfer).is_ok());

    let unknown = world.objects.pools.stored.pop().unwrap();
    let (channel, token) = match world.remove(&session, channel, true).err().unwrap() {
        RemoveError::Evidence(channel, token) => (channel, token),
        RemoveError::Busy(_) => panic!("the token was not returned"),
    };
    assert_eq!((channel.id().entry(), channel.id().generation()), (id.entry(), id.generation()));
    assert!(world.duplex().left.is_empty());

    // Nothing is in the way any more, and the token still gives its block back.
    world.objects.pools.stored.push(unknown);
    assert!(world.remove(&session, channel, true).is_ok());
    assert!(world.objects.pools.release_token(token.get_token(), None));
}

#[test]
fn layout_order_is_rejected_at_the_first_unexpected_record() {
    const SIZE: u64 = 1 << 19;
    let region = RegionId::new(0x004f_5244_4552, 1);
    let mut shared = blank();
    let created = Session::create(Memory(true), read_write(SIZE), region, &mut shared)
        .expect("record canonical layout order");
    created.end(&mut shared, true);

    let mut layout = MapLayout::map(
        Memory(true),
        read_write(SIZE),
        RegionAdmission::Expect(region),
        &mut shared.root,
    )
    .expect("map region");
    let reserve = layout.reserve::<TalckMeta>().expect("reserve allocator");
    let conf = Config::new(SIZE).with_bound(reserve.remaining_after());
    let base = layout.area.map.start + reserve.offset() + HEAP_BASE;

    // The directory lies where an allocator is looked for.
    let directory = shared.directory;
    let mut heap = RcHeader::<TalckMeta> {
        record: directory.record,
        members: directory.members,
        region: directory.region,
        offset: directory.offset,
        header_size: directory.header_size,
        header_align: directory.header_align,
        info_schema: directory.info_schema,
        info_revision: directory.info_revision,
        info_size: directory.info_size,
        info_align: directory.info_align,
        body_size: directory.body_size,
        body_align: directory.body_align,
        info: None,
        inner: None,
    };
    let error = layout
        .commit(reserve, &mut heap, Placed { base, conf })
        .err()
        .expect("reversed layout order must reject");

    assert!(matches!(error, MapError::LayoutMismatch(LayoutField::Magic)));
    assert!(matches!(
        layout.push::<evering::dir::Directory>(&mut RcHeader::zeroed(), ()),
        Err(MapError::PoisonedComposition)
    ));
}

#[test]
fn pools_open_alike_for_other_sessions() {
    let (mut world, first) = World::new();
    let (id, pool) = world.create_pool(&first, 32 * 1024, None).unwrap();
    let range = world.storage(pool).range();
    let classes: Vec<_> = (0..8).map(|i| world.storage(pool).class_info(i)).collect();

    let second = world.peer();
    let opened = world.open_pool(&second, id).unwrap();
    assert_eq!(opened.id, pool.id);
    assert_ne!(opened.owner, pool.owner);
    assert_eq!(world.storage(opened).range(), range);
    let seen: Vec<_> = (0..8).map(|i| world.storage(opened).class_info(i)).collect();
    assert_eq!(seen, classes);

    let (region, slab, entry, generation) = id.parts();
    let foreign = PoolId::new(RegionId::new(9, 9), slab, entry, generation);
    assert_ne!(region, RegionId::new(9, 9));
    assert_eq!(
        world.open_pool(&second, foreign),
        Err(OpenPoolError::Unavailable(foreign))
    );
}

#[test]
fn default_choices_create_the_same_region() {
    let region = RegionId::new(7, 7);
    let mut plain = blank();
    let mut chosen = blank();
    let one = Session::create(Memory(true), read_write(MAX_ADDR), region, &mut plain);
    let other = Session::create_with(
        Memory(true),
        read_write(MAX_ADDR),
        region,
        SessionOptions::default(),
        &mut chosen,
    );
    assert_eq!(one.ok().unwrap().peer(), other.ok().unwrap().peer());
    assert_eq!(plain.heap.layout_info(), chosen.heap.layout_info());
}

#[test]
fn headers_of_transfers_are_worked_on_in_place() {
    let (mut world, session) = World::new();
    let (_, pool) = world.create_pool(&session, 32 * 1024, None).unwrap();
    let mut transfer = pool.put(world.storage(pool), 11_u64).unwrap().transfer(5_u32);
    transfer.update(|header| *header += 2);
    let (_, token) = transfer.into_parts();
    assert_eq!(token.into_header(), 7);
}
