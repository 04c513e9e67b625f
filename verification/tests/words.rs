use evering::channel::cross::{Config, Side};
use crossbeam_utils::CachePadded;
use evering::channel::duplex::{channel_header, Duplex, GeometryError};
use evering::channel::role::Channel;
use evering::channel::transfer::{Rx, Tx};
use evering::channel::{recover_role, Id, Port, RoleWord, ROLE_MAX_GENERATION};
use evering::extent::Extent;
use evering::header::layout::Layout;
use evering::header::record::{AbiProfile, Record, Status};
use evering::header::{AdmitError, LayoutField};
use evering::msg::{type_id, Encoded, Repr};
use evering::pool::state::{State, ALLOCATED, GENERATION_SHIFT, MAX_GENERATION};
use evering::schema::{compose_schema, schema_id, RegionId, SchemaId, SchemaKey};
use evering::talc::avail::Availability;
use evering::talc::geometry::{Geometry, GeometryError as HeapGeometryError, MIN_CHUNK_SIZE, WORD_BITS};
use evering::talc::mutation::{
    owner_word, poison_mutation, Mutation, MutationError, MUTATION_CLEAN, MUTATION_POISONED,
};
use std::arch::x86_64::__m512i;
use std::sync::atomic::AtomicUsize;

/// A header that lies on a multiple of 64 bytes.
struct Aligned(#[allow(dead_code)] Option<__m512i>);

impl Repr for Aligned {
    fn repr_spec() -> SchemaKey {
        Self::repr_schema()
    }

    fn repr_schema() -> SchemaKey {
        SchemaKey::new(SchemaId(0x414c_4947_4e45_4401), 1)
    }
}

struct NonClone;

impl Repr for NonClone {
    fn repr_spec() -> SchemaKey {
        Self::repr_schema()
    }

    fn repr_schema() -> SchemaKey {
        SchemaKey::new(SchemaId(0x4e4f_4e43_4c4f_4e45), 1)
    }
}

struct First;
struct Second;
struct Member;

impl Repr for First {
    fn repr_spec() -> SchemaKey {
        Self::repr_schema()
    }

    fn repr_schema() -> SchemaKey {
        SchemaKey::new(SchemaId(0x100), 1)
    }
}

impl Repr for Second {
    fn repr_spec() -> SchemaKey {
        Self::repr_schema()
    }

    fn repr_schema() -> SchemaKey {
        SchemaKey::new(SchemaId(0x200), 1)
    }
}

impl Repr for Member {
    fn repr_spec() -> SchemaKey {
        Self::repr_schema()
    }

    fn repr_schema() -> SchemaKey {
        SchemaKey::new(SchemaId(0x300), 1)
    }
}

fn parameterless_split<H: Repr>(channel: &Channel<H>) -> (Tx<H>, Rx<H>) {
    channel.split()
}

#[test]
fn channel_split_has_no_runtime_side_argument() {
    let _ = parameterless_split::<()>;
    fn cloneable<T: Clone>() {}
    cloneable::<Tx<NonClone>>();
    cloneable::<Rx<NonClone>>();
}

#[test]
fn port_wire_reconstruction_rejects_invalid_authority_parts() {
    let id = || Id::<()>::new(RegionId::new(1, 2), 3, 4, 5, 8);
    assert!(Port::from_parts(id(), 0, 7).is_some());
    assert!(Port::from_parts(id(), 1, 7).is_some());
    assert!(Port::from_parts(id(), 2, 7).is_none());
    assert!(Port::from_parts(id(), 0, 0).is_none());
    assert!(Port::from_parts(id(), 0, ROLE_MAX_GENERATION + 1).is_none());
}

#[test]
fn channel_dynamic_geometry_rejects_invalid_capacity() {
    assert!(matches!(Duplex::<()>::geometry(0), Err(GeometryError::ZeroCapacity)));
    assert!(matches!(Duplex::<()>::geometry(u64::MAX), Err(GeometryError::Overflow)));
}

#[test]
fn channel_dynamic_geometry_accepts_non_power_of_two_capacity() {
    let one = Duplex::<()>::geometry(1).unwrap();
    let three = Duplex::<()>::geometry(3).unwrap();
    assert!(three.layout.size > one.layout.size);
    assert_eq!(three.layout.size % three.layout.align, 0);
    assert_eq!(three.capacity, 3);
    assert_eq!(three.one_lap, 4);

    let aligned = Duplex::<Aligned>::geometry(3).unwrap();
    assert!(aligned.layout.align >= 64);
    assert_eq!(aligned.slots % 64, 0);
}

#[test]
fn channels_pad_their_cursors_as_the_target_asks() {
    let line = core::mem::align_of::<CachePadded<AtomicUsize>>() as u64;
    assert_eq!(line, core::mem::size_of::<CachePadded<AtomicUsize>>() as u64);
    let word = core::mem::size_of::<usize>() as u64;
    let body = <Duplex<()> as Layout>::body();
    assert_eq!(body.align, line);
    assert_eq!(body.size, (3 * word).next_multiple_of(line) + 4 * line);
    let header = channel_header();
    assert_eq!(header.align, line);
    assert_eq!(header.size, 144_u64.next_multiple_of(line) + body.size);
    let one = Duplex::<()>::geometry(1).unwrap();
    assert_eq!(one.slots, header.size);
    assert!(one.layout.align >= line);
}

#[test]
fn profiles_are_those_of_the_target() {
    let native = AbiProfile::native();
    assert_eq!(native.word_bytes as usize, core::mem::size_of::<usize>());
    assert_eq!(native.atomic_bytes as usize, core::mem::size_of::<AtomicUsize>());
    let mut record = Record::zeroed();
    record.initialize(7, SchemaKey::new(SchemaId(1), 2), Extent { size: 64, align: 8 });
    assert_eq!(record.profile, vec![native.word_bytes, native.atomic_bytes, 1]);
    record.status = Status::Initialized.to_u8();
    assert_eq!(record.recorded_at(8).unwrap().profile, native);
    record.profile[1] += 1;
    assert_eq!(
        record.recorded_at(8),
        Err(AdmitError::Mismatch(LayoutField::Profile)),
    );
}

#[test]
fn cross_dynamic_geometry_rejects_invalid_capacity() {
    let refused = |conf: Config| Duplex::<u64>::geometry(conf.capacity());
    assert!(matches!(refused(Config::new(0)), Err(GeometryError::ZeroCapacity)));
    assert!(matches!(refused(Config::new(u64::MAX)), Err(GeometryError::Overflow)));
}

#[test]
fn cross_dynamic_geometry_accepts_non_power_of_two_capacity() {
    let laid = |conf: Config| Duplex::<u64>::geometry(conf.capacity()).unwrap();
    let one = laid(Config::new(1));
    let three = laid(Config::new(3));
    assert!(three.layout.size > one.layout.size);
    assert_eq!(three.layout.size % three.layout.align, 0);
    assert_eq!(three.capacity, 3);
    assert_eq!(three.one_lap, 4);

    let aligned = Duplex::<Aligned>::geometry(3).unwrap();
    assert!(aligned.layout.align >= 64);
    assert_eq!(aligned.slots % 64, 0);
}

#[test]
fn sides_face_each_other() {
    assert_eq!(Side::Left.opposite(), Side::Right);
    assert_eq!(Side::Right.opposite(), Side::Left);
    assert_eq!(Side::Left.endpoints(), (0, 1));
    assert_eq!(Side::Right.endpoints(), (1, 0));
    let left = Side::Left.route(3);
    let right = Side::Right.route(3);
    assert_eq!((left.send_field, left.recv_field, left.owner), (0, 6, 3));
    assert_eq!((right.send_field, right.recv_field, right.owner), (4, 2, 3));
}

#[test]
fn role_word_round_trips_canonical_authority() {
    let open = RoleWord::new(7, None, false).unwrap();
    assert_eq!(open.parts(), (7, None, false));

    let owned = RoleWord::new(7, Some(3), false).unwrap();
    assert_eq!(owned.parts(), (7, Some(3), false));

    let closing = RoleWord::new(7, Some(3), true).unwrap();
    assert_eq!(closing.parts(), (7, Some(3), true));

    let terminal = RoleWord::new(7, None, true).unwrap();
    assert_eq!(RoleWord(terminal.0).parts(), (7, None, true));
}

#[test]
fn role_generation_never_wraps() {
    let last = RoleWord::new(ROLE_MAX_GENERATION, Some(3), false).unwrap();
    assert!(last.next_unowned(false).is_none());
    assert!(RoleWord::new(ROLE_MAX_GENERATION + 1, None, false).is_none());
}

#[test]
fn role_words_name_only_participants() {
    assert!(RoleWord::new(1, Some(62), false).is_some());
    assert!(RoleWord::new(1, Some(63), false).is_none());
}

#[test]
fn recovery_releases_only_the_dead_owner_after_repair() {
    let mut active = RoleWord::new(7, Some(3), false).unwrap().0;
    recover_role(&mut active, 3);
    assert_eq!(RoleWord(active).parts(), (8, None, false));

    let mut closing = RoleWord::new(7, Some(3), true).unwrap().0;
    recover_role(&mut closing, 3);
    assert_eq!(RoleWord(closing).parts(), (7, None, true));

    let mut live = RoleWord::new(7, Some(4), false).unwrap().0;
    recover_role(&mut live, 3);
    assert_eq!(RoleWord(live).parts(), (7, Some(4), false));
}

#[test]
fn duplex_initializes_both_roles_open_unowned() {
    let duplex = Duplex::<()>::blank(1).unwrap();
    for role in [duplex.first_role, duplex.second_role] {
        assert_eq!(RoleWord(role).parts(), (0, None, false));
    }
}

#[test]
fn protocol_scopes_body_identity() {
    assert_ne!(type_id::<First, Member>(), type_id::<Second, Member>());
}

#[test]
fn body_schema_changes_identity() {
    assert_ne!(type_id::<(), u8>(), type_id::<(), u32>());
}

#[test]
fn slice_schema_is_not_element_schema() {
    assert_ne!(type_id::<(), [u32]>(), type_id::<(), u32>());
}

#[test]
fn encoded_id_is_the_zero_sized_runtime_authority() {
    let first = SchemaKey::new(SchemaId(0x401), 1);
    let second = SchemaKey::new(SchemaId(0x402), 1);
    assert_eq!(core::mem::size_of::<Encoded>(), 0);
    assert_ne!(Encoded::id::<Member>(first), Encoded::id::<Member>(second));
    assert_ne!(Encoded::id::<Member>(first), Encoded::id::<u32>(first));
    assert_ne!(Encoded::id::<Member>(first), type_id::<Encoded, Member>());
}

#[test]
fn child_revision_changes_composite_key() {
    let domain = SchemaKey::new(SchemaId(1), 1);
    assert_ne!(
        compose_schema(domain, SchemaKey::new(SchemaId(2), 1)),
        compose_schema(domain, SchemaKey::new(SchemaId(2), 2))
    );
}

#[test]
fn names_are_hashed_byte_by_byte() {
    // The hash of no bytes is the offset basis of 64-bit FNV-1a.
    assert_eq!(schema_id("").0, 0xcbf2_9ce4_8422_2325);
    assert_eq!(schema_id("a").0, 0xaf63_dc4c_8601_ec8c);
    assert_eq!(schema_id("foobar").0, 0x8594_4171_f739_67e8);
}

#[test]
fn authority_word_rejects_owner_without_allocation_and_generation_wrap() {
    assert!(!State(1).canonical());
    assert!(State::free(MAX_GENERATION).canonical());
    assert!(State::local(MAX_GENERATION, 0).is_some());
    assert!(State::local(MAX_GENERATION + 1, 0).is_none());
    assert_eq!(State::detached(7).0, (7 << GENERATION_SHIFT) | ALLOCATED);
}

#[test]
fn live_contention_is_one_bounded_attempt_and_reports_owner() {
    let mut state = MUTATION_CLEAN;
    let held = Mutation::claim(&mut state, 2).unwrap();
    assert!(matches!(Mutation::claim(&mut state, 1), Err(MutationError::Busy(2))));
    held.commit(&mut state);
    assert_eq!(state, MUTATION_CLEAN);
}

#[test]
fn only_the_exact_dead_owner_can_make_mutation_permanently_poisoned() {
    let mut state = owner_word(3);
    assert!(!poison_mutation(&mut state, 2));
    assert!(poison_mutation(&mut state, 3));
    assert_eq!(state, MUTATION_POISONED);
    assert!(matches!(Mutation::claim(&mut state, 0), Err(MutationError::Poisoned)));
}

#[test]
fn automatic_geometry_covers_varied_heap_extents_monotonically() {
    for extent in [4u64 << 10, 64 << 10, 1 << 20, 64 << 20, 1 << 30] {
        let geometry = Geometry::auto(extent).expect("supported heap extent");
        geometry.validate(extent).expect("self-valid geometry");

        let mut prior = 0;
        let mut size = MIN_CHUNK_SIZE;
        while size <= extent {
            let bin = geometry.bin(size);
            assert!(bin >= prior);
            assert!(bin < geometry.bin_count());
            prior = bin;
            size = size.saturating_add((size >> 5).max(1));
        }
        assert!(geometry.metadata_bytes() <= Geometry::budget(extent));
    }
}

#[test]
fn logical_geometry_is_independent_of_native_availability_word_width() {
    let geometry = Geometry::auto(16 << 20).unwrap();
    assert_eq!(geometry.availability_words(32), geometry.bin_count().div_ceil(32));
    assert_eq!(geometry.availability_words(64), geometry.bin_count().div_ceil(64));
    assert!(geometry.bin(1 << 10) < geometry.bin(2 << 10));
    assert!(geometry.bin(2 << 10) < geometry.bin(4 << 10));
}

#[test]
fn explicit_geometry_may_cover_a_smaller_final_extent() {
    let geometry = Geometry::new(64 << 20, 5, 10, 2).expect("valid explicit geometry");

    geometry.validate(32 << 20).unwrap();
    assert_eq!(Geometry::new(1 << 20, 11, 10, 2), Err(HeapGeometryError::Invalid));
}

#[test]
fn summary_finds_and_clears_availability_across_words() {
    let geometry = Geometry::new(16 << 20, 5, 10, 3).unwrap();
    assert!(geometry.availability_words(WORD_BITS) > 1);
    assert!(geometry.metadata_bytes() <= 512 * 8);

    let mut availability = Availability::new(geometry);
    let distant = WORD_BITS + 7;
    availability.set_avail(distant);
    assert_eq!(availability.next_avail_bin_idx(0), Some(distant));
    availability.clear_avail(distant);
    assert_eq!(availability.next_avail_bin_idx(0), None);
}
