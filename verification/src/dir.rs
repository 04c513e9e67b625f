//! The directory of a region: which layouts it holds, and the one change to it
//! that may be under way.

use crate::extent::Extent;
use crate::header::layout::{CloseError, Layout};
use crate::header::record::{Magic, Status};
use crate::mem::ProjectionError;
use crate::schema::{schema_id, LayoutContext, LayoutId, RegionId, SchemaKey, SharedSchema};
use crate::talc::lock::Meta;
use crate::talc::mutation::MutationError;
use vstd::prelude::*;

pub mod change;
pub mod create;
pub mod recover;
pub mod remove;
pub mod crash;
pub mod laws;
pub mod names;
pub mod open;

verus! {

/// Entries of one slab.
pub const CAPACITY: usize = 32;

pub const CLEAN: u64 = 0;

/// A change is under way that left nothing behind yet.
pub const HELD: u64 = 1;

/// A change is under way, and the directory says which memory it is about.
pub const EVIDENCE: u64 = 2;

/// A change failed and still has to be undone.
pub const ROLLING_BACK: u64 = 3;

pub const VACANT: u64 = 0;

pub const PENDING: u64 = 1;

pub const PUBLISHED: u64 = 2;

pub const CLOSING: u64 = 3;

pub const REMOVING: u64 = 4;

pub const RELEASED: u64 = 5;

pub const QUARANTINED: u64 = 6;

pub const CREATE: u64 = 0;

pub const REMOVE: u64 = 1;

pub const GROW: u64 = 2;

pub const GENERATION_MAX: u64 = 0x1fff_ffff_ffff_ffff;

/// Bytes of a slab in the heap.
pub const SLAB_BYTES: u64 = 520;

#[derive(Clone, Copy, Debug, PartialEq, Eq, Structural)]
pub enum Error {
    Busy(u8),
    Full,
    Stale,
    Admission(ProjectionError),
    Heap(MutationError),
    RolledBack,
    InUse,
    Close(CloseError),
}

/// How the change of a dead participant ended.
#[derive(Clone, Copy, Debug, PartialEq, Eq, Structural)]
pub enum Recovered {
    RolledBack,
    Released,
    Retained,
    Quarantined,
}

/// The name of a layout in a directory.
#[derive(Clone, Copy, Debug, PartialEq, Eq, Structural)]
pub struct Id {
    pub region: RegionId,
    pub slab: u32,
    pub entry: u32,
    pub generation: u64,
}

impl Id {
    pub fn from_parts(region: RegionId, slab: u32, entry: u32, generation: u64) -> (id: Self)
        ensures
            id == (Id { region, slab, entry, generation }),
    {
        Id { region, slab, entry, generation }
    }

    pub fn parts(self) -> (parts: (RegionId, u32, u32, u64))
        ensures
            parts == (self.region, self.slab, self.entry, self.generation),
    {
        (self.region, self.slab, self.entry, self.generation)
    }
}

#[derive(Clone, Copy, Debug, PartialEq, Eq, Structural)]
pub struct Entry {
    pub state: u64,
    pub offset: u64,
}

/// The word of a change that a participant makes.
pub open spec fn owner_word_spec(owner: u8, phase: u64) -> u64 {
    (4 * (owner + 1) + phase) as u64
}

/// The participant of a word.
pub open spec fn owner_of(word: u64) -> u8 {
    (if word / 4 == 0 {
        0
    } else {
        (word / 4 - 1) % 256
    }) as u8
}

pub open spec fn phase_of(word: u64) -> u64 {
    word % 4
}

/// The state of an entry: the low three bits of its word.
pub open spec fn state_of(word: u64) -> u64 {
    word % 8
}

/// The generation of an entry: the bits above.
pub open spec fn generation_of(word: u64) -> u64 {
    word / 8
}

pub open spec fn entry_word_spec(generation: u64, state: u64) -> u64 {
    (8 * generation + state) as u64
}

pub fn owner_word(owner: u8, phase: u64) -> (word: u64)
    requires
        phase < 4,
    ensures
        word == owner_word_spec(owner, phase),
{
    4 * (owner as u64 + 1) + phase
}

/// The participant of a word that is not clean.
pub fn word_owner(word: u64) -> (owner: Option<u8>)
    ensures
        owner == (if word == CLEAN {
            None
        } else {
            Some(owner_of(word))
        }),
{
    if word == CLEAN {
        None
    } else {
        Some(holder(word))
    }
}

fn holder(word: u64) -> (owner: u8)
    ensures
        owner == owner_of(word),
{
    let slot: u64 = word / 4;
    if slot == 0 {
        0
    } else {
        ((slot - 1) % 256) as u8
    }
}

pub fn entry_word(generation: u64, state: u64) -> (word: u64)
    requires
        generation <= GENERATION_MAX,
        state < 8,
    ensures
        word == entry_word_spec(generation, state),
{
    8 * generation + state
}

/// A word tells the participant and the phase that it was made of.
pub proof fn law_owner_word_round_trips(owner: u8, phase: u64)
    requires
        phase < 4,
    ensures
        owner_of(owner_word_spec(owner, phase)) == owner,
        phase_of(owner_word_spec(owner, phase)) == phase,
        owner_word_spec(owner, phase) != CLEAN,
{
}

/// An entry's word tells the generation and the state that it was made of.
pub proof fn law_entry_word_round_trips(generation: u64, state: u64)
    requires
        generation <= GENERATION_MAX,
        state < 8,
    ensures
        generation_of(entry_word_spec(generation, state)) == generation,
        state_of(entry_word_spec(generation, state)) == state,
{
}

/// The directory: its transaction word, the evidence of the change under way,
/// and the entries of its slabs, one slab behind the other. `links` holds the
/// offsets of all slabs but the first. Where the link behind the last slab cannot
/// be followed, `cut` says why: what lies behind it is out of reach.
pub struct Directory {
    pub transaction: u64,
    pub pending_slab: u64,
    pub pending_entry: u64,
    pub pending_kind: u64,
    pub pending: Meta,
    pub links: Vec<u64>,
    pub entries: Vec<Entry>,
    pub cut: Option<ProjectionError>,
}

pub ghost struct DirView {
    pub word: u64,
    pub slab: u64,
    pub index: u64,
    pub kind: u64,
    pub pending: Meta,
    pub links: Seq<u64>,
    pub entries: Seq<Entry>,
    pub cut: Option<ProjectionError>,
}

impl View for Directory {
    type V = DirView;

    open spec fn view(&self) -> DirView {
        DirView {
            word: self.transaction,
            slab: self.pending_slab,
            index: self.pending_entry,
            kind: self.pending_kind,
            pending: self.pending,
            links: self.links@,
            entries: self.entries@,
            cut: self.cut,
        }
    }
}

impl DirView {
    pub open spec fn wf(self) -> bool {
        &&& self.entries.len() == 32 * (self.links.len() + 1)
        &&& self.links.len() <= u32::MAX
        &&& forall|k: int| 0 <= k < self.links.len() ==> #[trigger] self.links[k] != 0
    }

    pub open spec fn with_word(self, word: u64) -> Self {
        DirView { word, ..self }
    }

    pub open spec fn with_entry(self, p: int, entry: Entry) -> Self {
        DirView { entries: self.entries.update(p, entry), ..self }
    }

    pub open spec fn with_state(self, p: int, state: u64) -> Self {
        self.with_entry(p, Entry { state, ..self.entries[p] })
    }

    /// The directory with the evidence of a change that `owner` makes.
    pub open spec fn with_evidence(
        self,
        slab: u64,
        index: u64,
        kind: u64,
        pending: Meta,
        owner: u8,
    ) -> Self {
        DirView {
            word: owner_word_spec(owner, EVIDENCE),
            slab,
            index,
            kind,
            pending,
            ..self
        }
    }

    /// The directory with one more slab at its end.
    pub open spec fn linked(self, offset: u64) -> Self {
        DirView {
            links: self.links.push(offset),
            entries: self.entries + Seq::new(32, |i: int| Entry { state: VACANT, offset: 0 }),
            ..self
        }
    }

    /// The offset of the slab behind the one with the given number.
    pub open spec fn link(self, slab: int) -> u64 {
        if 0 <= slab < self.links.len() {
            self.links[slab]
        } else {
            0
        }
    }

    /// Where an entry stands among all entries.
    pub open spec fn position(self, slab: int, index: int) -> Option<int> {
        if 0 <= slab <= self.links.len() && 0 <= index < 32 {
            Some(32 * slab + index)
        } else {
            None
        }
    }

    /// Why a slab is not there: the chain ends before it, or is cut.
    pub open spec fn missing(self, slab: int) -> Error {
        match self.cut {
            Some(error) => if slab > self.links.len() {
                Error::Admission(error)
            } else {
                Error::Stale
            },
            None => Error::Stale,
        }
    }

    /// Why a name is not published.
    pub open spec fn unpublished(self, region: RegionId, id: Id) -> Error {
        if id.region != region {
            Error::Stale
        } else {
            self.missing(id.slab as int)
        }
    }

    /// The offset of the layout with the given name.
    pub open spec fn published(self, region: RegionId, id: Id) -> Option<u64> {
        match self.position(id.slab as int, id.entry as int) {
            Some(p) => if id.region == region && state_of(self.entries[p].state) == PUBLISHED
                && generation_of(self.entries[p].state) == id.generation {
                Some(self.entries[p].offset)
            } else {
                None
            },
            None => None,
        }
    }
}

/// The name of a layout at a place.
pub open spec fn id_at(region: RegionId, p: int, generation: u64) -> Id {
    Id { region, slab: (p / 32) as u32, entry: (p % 32) as u32, generation }
}

/// An entry that a new layout can take.
pub open spec fn is_free(entry: Entry) -> bool {
    state_of(entry.state) == VACANT && generation_of(entry.state) != GENERATION_MAX
}

/// The first entry from `from` on that a new layout can take.
pub open spec fn first_free(entries: Seq<Entry>, from: int) -> Option<int>
    decreases entries.len() - from,
{
    if from < 0 || from >= entries.len() {
        None
    } else if is_free(entries[from]) {
        Some(from)
    } else {
        first_free(entries, from + 1)
    }
}

/// An entry in the middle of a change.
pub open spec fn is_changing(entry: Entry) -> bool {
    let state = state_of(entry.state);
    state != VACANT && state != PUBLISHED && state != QUARANTINED
}

/// The first entry from `from` on in the middle of a change.
pub open spec fn first_changing(entries: Seq<Entry>, from: int) -> Option<int>
    decreases entries.len() - from,
{
    if from < 0 || from >= entries.len() {
        None
    } else if is_changing(entries[from]) {
        Some(from)
    } else {
        first_changing(entries, from + 1)
    }
}

pub proof fn lemma_first_free(entries: Seq<Entry>, from: int)
    requires
        0 <= from,
    ensures
        match first_free(entries, from) {
            Some(p) => from <= p < entries.len() && is_free(entries[p]) && forall|q: int|
                from <= q < p ==> !is_free(#[trigger] entries[q]),
            None => forall|q: int|
                from <= q < entries.len() ==> !is_free(#[trigger] entries[q]),
        },
    decreases entries.len() - from,
{
    if from < entries.len() && !is_free(entries[from]) {
        lemma_first_free(entries, from + 1);
    }
}

pub proof fn lemma_first_changing(entries: Seq<Entry>, from: int)
    requires
        0 <= from,
    ensures
        match first_changing(entries, from) {
            Some(p) => from <= p < entries.len() && is_changing(entries[p]),
            None => forall|q: int|
                from <= q < entries.len() ==> !is_changing(#[trigger] entries[q]),
        },
    decreases entries.len() - from,
{
    if from < entries.len() && !is_changing(entries[from]) {
        lemma_first_changing(entries, from + 1);
    }
}

/// A layout that a walk over the directory meets.
#[derive(Clone, Copy, Debug, PartialEq, Eq, Structural)]
pub struct Found {
    pub position: usize,
    pub id: Id,
    pub offset: u64,
}

/// What a walk meets first from `from` on.
pub open spec fn next_found(view: DirView, region: RegionId, from: int) -> Result<
    Option<(int, Id, u64)>,
    Error,
>
    decreases view.entries.len() - from,
{
    if from < 0 || from >= view.entries.len() {
        match view.cut {
            Some(error) => Err(Error::Admission(error)),
            None => Ok(None),
        }
    } else {
        let entry = view.entries[from];
        let state = state_of(entry.state);
        if state == VACANT || state == QUARANTINED {
            next_found(view, region, from + 1)
        } else if state == PUBLISHED {
            Ok(Some((from, id_at(region, from, generation_of(entry.state)), entry.offset)))
        } else {
            Err(Error::InUse)
        }
    }
}

impl Directory {
    /// A directory of one slab of vacant entries.
    pub fn new() -> (made: Self)
        ensures
            made@.wf(),
            made@.word == CLEAN,
            made@.links == Seq::<u64>::empty(),
            made@.cut is None,
            made@.kind == CREATE,
            forall|p: int|
                0 <= p < 32 ==> #[trigger] made@.entries[p] == (Entry { state: VACANT, offset: 0 }),
    {
        let mut entries: Vec<Entry> = Vec::new();
        while entries.len() < CAPACITY
            invariant
                entries@.len() <= 32,
                forall|p: int|
                    0 <= p < entries@.len() ==> #[trigger] entries@[p] == (Entry {
                        state: VACANT,
                        offset: 0,
                    }),
            decreases 32 - entries@.len(),
        {
            entries.push(Entry { state: VACANT, offset: 0 });
        }
        Directory {
            transaction: CLEAN,
            pending_slab: 0,
            pending_entry: 0,
            pending_kind: CREATE,
            pending: Meta::null(),
            links: Vec::new(),
            entries,
            cut: None,
        }
    }

    /// Who is in the middle of a change.
    pub fn transaction_owner(&self) -> (owner: Option<u8>)
        ensures
            owner == (if self@.word == CLEAN {
                None
            } else {
                Some(owner_of(self@.word))
            }),
    {
        word_owner(self.transaction)
    }

    /// Where an entry stands.
    pub fn locate(&self, slab: u32, entry: u64) -> (position: Option<usize>)
        requires
            self@.wf(),
        ensures
            match position {
                Some(p) => self@.position(slab as int, entry as int) == Some(p as int) && p
                    < self.entries@.len(),
                None => self@.position(slab as int, entry as int) is None,
            },
    {
        proof {
            assert(self.entries@.len() == self.entries.len());
        }
        if slab as u64 > self.links.len() as u64 || entry >= 32 {
            return None;
        }
        Some(32 * slab as usize + entry as usize)
    }

    /// Why a slab is not there.
    pub fn missing(&self, slab: u32) -> (error: Error)
        ensures
            error == self@.missing(slab as int),
    {
        match self.cut {
            Some(error) => if slab as u64 > self.links.len() as u64 {
                Error::Admission(error)
            } else {
                Error::Stale
            },
            None => Error::Stale,
        }
    }

    /// The offset of the layout with the given name.
    pub fn offset(&self, region: RegionId, id: Id) -> (offset: Result<u64, Error>)
        requires
            self@.wf(),
        ensures
            offset == (match self@.published(region, id) {
                Some(offset) => Ok::<u64, Error>(offset),
                None => Err::<u64, Error>(self@.unpublished(region, id)),
            }),
    {
        if id.region != region {
            return Err(Error::Stale);
        }
        match self.locate(id.slab, id.entry as u64) {
            Some(p) => {
                let state: u64 = self.entries[p].state;
                if state % 8 != PUBLISHED || state / 8 != id.generation {
                    return Err(Error::Stale);
                }
                Ok(self.entries[p].offset)
            },
            None => Err(self.missing(id.slab)),
        }
    }

    /// Whether a name and a layout are the same.
    pub fn matches(&self, region: RegionId, id: Id, layout: LayoutId) -> (same: bool)
        requires
            self@.wf(),
        ensures
            same == (layout.region == region && self@.published(region, id) == Some(layout.offset)),
    {
        match self.offset(region, id) {
            Ok(offset) => layout.region == region && layout.offset == offset,
            Err(_) => false,
        }
    }

    /// The first entry that a new layout can take.
    pub fn reserve(&self) -> (slot: Option<usize>)
        requires
            self@.wf(),
        ensures
            match slot {
                Some(p) => first_free(self@.entries, 0) == Some(p as int) && p < self.entries@.len()
                    && is_free(self@.entries[p as int]),
                None => first_free(self@.entries, 0) is None,
            },
    {
        let mut p: usize = 0;
        while p < self.entries.len()
            invariant
                p <= self.entries@.len(),
                first_free(self@.entries, 0) == first_free(self@.entries, p as int),
            decreases self.entries@.len() - p,
        {
            let state: u64 = self.entries[p].state;
            if state % 8 == VACANT && state / 8 != GENERATION_MAX {
                return Some(p);
            }
            p = p + 1;
        }
        None
    }

    /// The first entry in the middle of a change.
    pub fn transition(&self) -> (found: Option<usize>)
        requires
            self@.wf(),
        ensures
            match found {
                Some(p) => first_changing(self@.entries, 0) == Some(p as int) && p
                    < self.entries@.len(),
                None => first_changing(self@.entries, 0) is None,
            },
    {
        let mut p: usize = 0;
        while p < self.entries.len()
            invariant
                p <= self.entries@.len(),
                first_changing(self@.entries, 0) == first_changing(self@.entries, p as int),
            decreases self.entries@.len() - p,
        {
            let state: u64 = self.entries[p].state % 8;
            if state != VACANT && state != PUBLISHED && state != QUARANTINED {
                return Some(p);
            }
            p = p + 1;
        }
        None
    }

    /// The next layout from `from` on; an error where an entry in the middle of
    /// a change comes first, or the end of a chain that is cut.
    pub fn walk(&self, region: RegionId, from: usize) -> (met: Result<Option<Found>, Error>)
        requires
            self@.wf(),
        ensures
            match next_found(self@, region, from as int) {
                Ok(Some((p, id, offset))) => met matches Ok(Some(found)) && found.position == p
                    && found.id == id && found.offset == offset && from <= p < self.entries@.len(),
                Ok(None) => met == Ok::<Option<Found>, Error>(None),
                Err(error) => met == Err::<Option<Found>, Error>(error),
            },
    {
        let mut p: usize = from;
        while p < self.entries.len()
            invariant
                from <= p,
                self@.wf(),
                next_found(self@, region, from as int) == next_found(self@, region, p as int),
            decreases self.entries@.len() - p,
        {
            let entry = self.entries[p];
            let state: u64 = entry.state % 8;
            if state == PUBLISHED {
                let id = Id {
                    region,
                    slab: (p / 32) as u32,
                    entry: (p % 32) as u32,
                    generation: entry.state / 8,
                };
                return Ok(Some(Found { position: p, id, offset: entry.offset }));
            }
            if state != VACANT && state != QUARANTINED {
                return Err(Error::InUse);
            }
            p = p + 1;
        }
        match self.cut {
            Some(error) => Err(Error::Admission(error)),
            None => Ok(None),
        }
    }
}

impl SharedSchema for Directory {
    open spec fn schema_spec() -> SchemaKey {
        SchemaKey { id: crate::schema::schema_id_spec("evering.directory"), revision: 4 }
    }

    fn schema() -> (key: SchemaKey) {
        SchemaKey::new(schema_id("evering.directory"), 4)
    }
}

impl Layout for Directory {
    type Config = ();

    type Info = ();

    open spec fn magic_spec() -> Magic {
        0xD1EC
    }

    open spec fn body_spec() -> Extent {
        Extent { size: 568, align: 8 }
    }

    open spec fn info_extent_spec() -> Extent {
        Extent { size: 0, align: 1 }
    }

    open spec fn storage_spec(conf: ()) -> Option<Extent> {
        Some(Extent { size: 704, align: 8 })
    }

    open spec fn info_spec(conf: (), ctx: LayoutContext) -> () {
        ()
    }

    open spec fn init_spec(conf: (), made: Result<Self, Status>) -> bool {
        &&& made matches Ok(directory)
        &&& directory@.wf()
        &&& directory@.word == CLEAN
        &&& directory@.links == Seq::<u64>::empty()
        &&& directory@.cut is None
        &&& forall|p: int|
            0 <= p < 32 ==> #[trigger] directory@.entries[p] == (Entry {
                state: VACANT,
                offset: 0,
            })
    }

    open spec fn attach_spec(&self, conf: ()) -> Status {
        Status::Initialized
    }

    fn magic() -> (magic: Magic) {
        0xD1EC
    }

    fn body() -> (extent: Extent) {
        proof {
            crate::header::layout::lemma_small_alignments();
        }
        Extent { size: 568, align: 8 }
    }

    fn info_extent() -> (extent: Extent) {
        proof {
            crate::header::layout::lemma_small_alignments();
        }
        Extent { size: 0, align: 1 }
    }

    fn storage(conf: &()) -> (extent: Option<Extent>) {
        Some(Extent { size: 704, align: 8 })
    }

    fn info(conf: &(), ctx: LayoutContext) -> (info: ()) {
    }

    fn init(conf: ()) -> (made: Result<Self, Status>) {
        Ok(Directory::new())
    }

    fn attach(&self, conf: &()) -> (status: Status) {
        Status::Initialized
    }
}

/// A directory with its header takes what it records.
pub proof fn law_directory_extent()
    ensures
        crate::header::layout::header_fits(Directory::info_extent_spec(), Directory::body_spec()),
        crate::header::layout::header_size_spec(
            Directory::info_extent_spec(),
            Directory::body_spec(),
        ) == 704,
{
    crate::header::layout::lemma_small_alignments();
}

} // verus!
