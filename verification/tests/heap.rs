use evering::boxed::PBox;
use evering::extent::Extent;
use evering::header::layout::RcHeader;
use evering::header::root::Root;
use evering::mem::compose::MapLayout;
use evering::mem::{Access, Mapping};
use evering::msg::Repr;
use evering::schema::{RegionAdmission, RegionId, SchemaId, SchemaKey};
use evering::session::heap::GeneralHeap;
use evering::session::open::HEAP_BASE;
use evering::session::{Session, Shared};
use evering::talc::config::Config;
use evering::talc::lock::{Placed, TalckMeta};
use evering::talc::mutation::{owner_word, MutationError};
use std::arch::x86_64::__m512i;
use std::collections::VecDeque;
use std::sync::atomic::{AtomicUsize, Ordering};
use std::sync::Arc;

const MAX_ADDR: u64 = 0x20000;
const OWNER: u8 = 0;

fn mapping(len: u64) -> Mapping {
    Mapping { start: 0, len, access: Access::reading().union(Access::writing()) }
}

/// A heap that takes what is left of a region behind its root.
fn mock_alloc(size: u64) -> RcHeader<TalckMeta> {
    let mut root = RcHeader::<Root>::zeroed();
    let admission = RegionAdmission::Create(RegionId::new(0, 0));
    let mut area = MapLayout::new(mapping(size), admission, &mut root).unwrap();
    let reserve = area.reserve::<TalckMeta>().unwrap();
    let conf = Config::new(size).with_bound(reserve.remaining_after());
    let base = reserve.offset() + HEAP_BASE;
    let mut heap = RcHeader::zeroed();
    area.commit(reserve, &mut heap, Placed { base, conf }).unwrap();
    heap
}

/// A session's way to put values in a heap.
fn values() -> GeneralHeap {
    let mut shared = Shared {
        root: RcHeader::zeroed(),
        directory: RcHeader::zeroed(),
        heap: RcHeader::zeroed(),
    };
    let area = MapLayout::new(
        mapping(MAX_ADDR),
        RegionAdmission::Create(RegionId::new(0, 0)),
        &mut shared.root,
    )
    .unwrap();
    Session::from(area, &mut shared).unwrap().heap()
}

struct Droppy(Arc<AtomicUsize>);

impl Drop for Droppy {
    fn drop(&mut self) {
        self.0.fetch_add(1, Ordering::Relaxed);
    }
}

impl Repr for Droppy {
    fn repr_spec() -> SchemaKey {
        Self::repr_schema()
    }

    fn repr_schema() -> SchemaKey {
        SchemaKey::new(SchemaId(1), 1)
    }
}

struct Zst;

impl Repr for Zst {
    fn repr_spec() -> SchemaKey {
        Self::repr_schema()
    }

    fn repr_schema() -> SchemaKey {
        SchemaKey::new(SchemaId(2), 1)
    }
}

/// A value that lies on a multiple of 64 bytes.
struct HighAlign(#[allow(dead_code)] Option<__m512i>, #[allow(dead_code)] u64);

impl Repr for HighAlign {
    fn repr_spec() -> SchemaKey {
        Self::repr_schema()
    }

    fn repr_schema() -> SchemaKey {
        SchemaKey::new(SchemaId(3), 1)
    }
}

/// Numbers that look like random ones, the same in every run.
struct Numbers(u64);

impl Numbers {
    fn below(&mut self, bound: u64) -> u64 {
        self.0 = self.0.wrapping_mul(6364136223846793005).wrapping_add(1442695040888963407);
        (self.0 >> 33) % bound
    }
}

/// Takes many ranges and gives them back in another order, a part at a time.
fn alloc_lines(heap: &mut TalckMeta, bytes: u64, count: usize, parts: usize) {
    let layout = Extent { size: bytes, align: 8 };
    let metas: Vec<_> = (0..count).map(|_| heap.allocate(OWNER, layout).unwrap()).collect();
    for (index, meta) in metas.iter().enumerate() {
        for other in &metas[..index] {
            let (left, right) = (meta.start_offset(), other.start_offset());
            assert!(left + bytes <= right || right + bytes <= left);
        }
    }
    for part in 0..parts {
        for meta in metas.iter().skip(part).step_by(parts) {
            assert_eq!(heap.release_value(OWNER, *meta), Ok(()));
        }
    }
}

fn pbox_rand(heap: &mut TalckMeta, rounds: usize) {
    let values = values();
    let mut numbers = Numbers(7);
    for _ in 0..rounds {
        let boxed = values.put(heap, HighAlign(None, numbers.below(500))).ok().unwrap();
        let address = boxed.as_ptr(heap).unwrap();
        let len = numbers.below(20) as usize;
        let seed = numbers.below(500);
        let mut slice: PBox<Vec<u64>> =
            values.init(heap, len, |index| seed + index as u64).unwrap();
        slice.set(vec![0; len]);
        assert!(slice.get().iter().all(|value| *value == 0), "PBox modification failed");
        assert_eq!(address % 64, 0, "PBox allocation in wrong alignment");
        assert_eq!(slice.get().len(), len, "PBox allocation in wrong length");
        assert_eq!(slice.as_ptr(heap).is_none(), len == 0);
        assert!(boxed.release(heap, OWNER).is_ok());
        assert!(slice.release(heap, OWNER).is_ok());
    }
}

#[test]
fn non_lifo_reuse() {
    let mut heap = mock_alloc(MAX_ADDR);
    let heap = heap.inner.as_mut().unwrap();
    alloc_lines(heap, 8, 1000, 5);
    alloc_lines(heap, 8, 1000, 5);
}

#[test]
fn boxed_drop_reclaims() {
    let mut heap = mock_alloc(MAX_ADDR);
    let heap = heap.inner.as_mut().unwrap();
    let values = values();
    let counter = Arc::new(AtomicUsize::new(0));
    for _ in 0..5000 {
        let droppy = values.put(heap, Droppy(counter.clone())).ok().unwrap();
        assert!(droppy.release(heap, OWNER).is_ok());
    }
    assert_eq!(
        counter.load(Ordering::Relaxed),
        5000,
        "Counter must have been called on drop"
    );
}

#[test]
fn random_boxes() {
    let mut heap = mock_alloc(MAX_ADDR);
    pbox_rand(heap.inner.as_mut().unwrap(), 500);
}

#[test]
fn exhaustion_recovers_after_release() {
    let mut heap = mock_alloc(MAX_ADDR);
    let heap = heap.inner.as_mut().unwrap();
    let boxes = values();
    let mut values = Vec::new();
    while let Ok(value) = boxes.copy(heap, &[0_u8; 1024]) {
        values.push(value);
    }
    assert!(!values.is_empty(), "allocator must admit at least one value");
    for value in values {
        assert!(value.release(heap, OWNER).is_ok());
    }
    assert!(boxes.copy(heap, &[0_u8; 1024]).is_ok());
}

#[test]
fn rejected_box_release_returns_the_live_value() {
    let mut heap = mock_alloc(MAX_ADDR);
    let heap = heap.inner.as_mut().unwrap();
    let value = values().put(heap, 41_u64).ok().unwrap();
    let dead = 61;
    heap.mutation = owner_word(dead);

    let value = value.release(heap, OWNER).err().expect("held mutation rejects release");
    assert_eq!(*value.get(), 41);
    assert!(heap.clear_dead_owner(dead));
    assert!(value.release(heap, OWNER).is_ok());
}

#[test]
fn rejected_box_drop_does_not_drop_the_value() {
    let mut heap = mock_alloc(MAX_ADDR);
    let heap = heap.inner.as_mut().unwrap();
    let drops = Arc::new(AtomicUsize::new(0));
    let value = values().put(heap, Droppy(drops.clone())).ok().unwrap();
    let dead = 61;
    heap.mutation = owner_word(dead);
    let value = value.release(heap, OWNER).err().unwrap();

    assert_eq!(drops.load(Ordering::Relaxed), 0);
    assert!(heap.clear_dead_owner(dead));
    assert!(value.release(heap, OWNER).is_ok());
    assert_eq!(drops.load(Ordering::Relaxed), 1);
}

#[test]
fn zero_sized_box_release_does_not_mutate_talc() {
    let mut heap = mock_alloc(MAX_ADDR);
    let heap = heap.inner.as_mut().unwrap();
    let dead = 61;
    heap.mutation = owner_word(dead);

    assert!(values().put(heap, Zst).ok().unwrap().release(heap, OWNER).is_ok());
    assert_eq!(heap.mutation, owner_word(dead));
    assert!(heap.clear_dead_owner(dead));
}

#[test]
fn heaps_under_change_name_who_changes_them() {
    let mut heap = mock_alloc(MAX_ADDR);
    let heap = heap.inner.as_mut().unwrap();
    heap.mutation = owner_word(5);
    let layout = Extent { size: 8, align: 8 };
    assert_eq!(heap.allocate(OWNER, layout), Err(MutationError::Busy(5)));
    assert!(heap.poison_owner(5));
    assert_eq!(heap.allocate(OWNER, layout), Err(MutationError::Poisoned));
    assert!(!heap.clear_dead_owner(5));
}

#[test]
fn alloc_content() {
    const BYTES_SIZE: u64 = 20;
    const ALLOC_NUM: usize = 200;
    const NUM: usize = 500;
    const BOUND: usize = 10;

    let size = (BYTES_SIZE * ALLOC_NUM as u64).max(10000).next_power_of_two();
    let mut heap = mock_alloc(size);
    let heap = heap.inner.as_mut().unwrap();
    let layout = Extent { size: BYTES_SIZE, align: 1 };
    for _ in 0..NUM {
        let mut active = VecDeque::new();
        for _ in 0..ALLOC_NUM {
            if let Ok(meta) = heap.allocate(OWNER, layout) {
                active.push_back(meta);
            }
            if active.len() > BOUND {
                let oldest = active.pop_front().unwrap();
                assert_eq!(heap.release_value(OWNER, oldest), Ok(()));
            }
        }
        assert_eq!(active.len(), BOUND);
        for meta in active {
            assert_eq!(heap.release_value(OWNER, meta), Ok(()));
        }
    }
}

#[test]
fn real_mapping_reuse_and_tokens() {
    const SIZE: u64 = 1 << 19;

    let mut heap = mock_alloc(SIZE);
    alloc_lines(heap.inner.as_mut().unwrap(), 2048, 200, 5);
    pbox_rand(heap.inner.as_mut().unwrap(), 100);

    // What an address and a size name in a heap is what was taken there.
    let layout = Extent { size: 48, align: 8 };
    let meta = heap.inner.as_mut().unwrap().allocate(OWNER, layout).unwrap();
    let base = heap.inner.as_ref().unwrap().base_ptr();
    let address = heap.inner.as_ref().unwrap().address(&meta);
    let info = *heap.layout_info().unwrap();
    assert_eq!(TalckMeta::meta_for(&info, base, address, meta.length()), Some(meta));
    assert_eq!(TalckMeta::meta_for(&info, base, base + SIZE, 8), None);
    assert_eq!(heap.inner.as_mut().unwrap().release_value(OWNER, meta), Ok(()));
}

#[test]
fn the_allocation_of_nothing_still_asks_for_the_heap() {
    let mut header = mock_alloc(MAX_ADDR);
    let heap = header.inner.as_mut().unwrap();
    let nothing = Extent { size: 0, align: 8 };
    heap.mutation = owner_word(2);
    assert_eq!(heap.allocate(OWNER, nothing), Err(MutationError::Busy(2)));
    assert_eq!(heap.mutation, 3);
    heap.mutation = u64::MAX;
    assert_eq!(heap.allocate(OWNER, nothing), Err(MutationError::Poisoned));
    heap.mutation = 0;
    let meta = heap.allocate(OWNER, nothing).unwrap();
    assert!(meta.is_null());
    assert_eq!(heap.release_value(OWNER, meta), Ok(()));
    assert_eq!(heap.mutation, 0);
}
