//! The layouts of a region beside its directory and its heap: pools, and the
//! channels of one kind.

use crate::header::layout::{Layout, RcHeader};
use crate::header::record::RecordedLayout;
use crate::mem::Region;
use crate::msg::Repr;
use crate::pool::geometry::Geometry;
use crate::pool::storage::Storage;
use crate::queue::repair::Release;
use crate::schema::{LayoutContext, LayoutId};
use crate::token::{PoolToken, Token};
use vstd::prelude::*;

verus! {

/// A layout and where in the region it lies.
pub struct Stored<L: Layout> {
    pub at: u64,
    pub header: RcHeader<L>,
}

/// The place of the first layout that lies at `at`, from `from` on.
pub open spec fn first_at<L: Layout>(stored: Seq<Stored<L>>, at: u64, from: int) -> Option<int>
    decreases stored.len() - from,
{
    if from < 0 || from >= stored.len() {
        None
    } else if stored[from].at == at {
        Some(from)
    } else {
        first_at(stored, at, from + 1)
    }
}

/// The place of the layout that lies at `at`.
pub fn find_at<L: Layout>(stored: &Vec<Stored<L>>, at: u64) -> (place: Option<usize>)
    ensures
        match place {
            Some(i) => first_at(stored@, at, 0) == Some(i as int) && i < stored@.len()
                && stored@[i as int].at == at,
            None => first_at(stored@, at, 0) is None,
        },
{
    let mut i: usize = 0;
    while i < stored.len()
        invariant
            i <= stored@.len(),
            first_at(stored@, at, 0) == first_at(stored@, at, i as int),
        decreases stored@.len() - i,
    {
        if stored[i].at == at {
            return Some(i);
        }
        i = i + 1;
    }
    None
}

/// What is found lies where it was looked for.
pub proof fn lemma_first_at<L: Layout>(stored: Seq<Stored<L>>, at: u64, from: int)
    requires
        from >= 0,
    ensures
        first_at(stored, at, from) matches Some(i) ==> from <= i < stored.len() && stored[i].at
            == at,
    decreases stored.len() - from,
{
    if from < stored.len() && stored[from].at != at {
        lemma_first_at(stored, at, from + 1);
    }
}

/// The layouts lie where they lay.
pub open spec fn same_places<L: Layout>(before: Seq<Stored<L>>, after: Seq<Stored<L>>) -> bool {
    &&& after.len() == before.len()
    &&& forall|i: int| 0 <= i < before.len() ==> (#[trigger] after[i]).at == before[i].at
}

pub proof fn lemma_same_places<L: Layout>(
    before: Seq<Stored<L>>,
    after: Seq<Stored<L>>,
    at: u64,
    from: int,
)
    requires
        same_places(before, after),
        from >= 0,
    ensures
        first_at(after, at, from) == first_at(before, at, from),
    decreases before.len() - from,
{
    if from < before.len() {
        assert(after[from].at == before[from].at);
        lemma_same_places(before, after, at, from + 1);
    }
}

/// What is recorded of a layout, where it can be read as one of its kind.
pub open spec fn readable<L: Layout>(stored: Stored<L>, region: Region) -> Option<RecordedLayout> {
    let address = region.map.start + stored.at;
    if address <= u64::MAX && stored.header.inspected(
        address as u64,
        crate::dir::open::look(region, stored.at),
    ) is None {
        Some(stored.header.record@.layout_value())
    } else {
        None
    }
}

impl<L: Layout> Stored<L> {
    /// What is recorded of the layout, where it can be read as one of its kind.
    pub fn read(&self, region: &Region) -> (recorded: Option<RecordedLayout>)
        requires
            self.header.wf(),
            crate::header::layout::header_fits(L::info_extent_spec(), L::body_spec()),
        ensures
            recorded == readable(*self, *region),
    {
        let address: u64 = match region.map.start.checked_add(self.at) {
            Some(address) => address,
            None => return None,
        };
        let ctx = LayoutContext { region: region.region, offset: self.at, allow_init: false };
        match self.header.inspect(address, ctx) {
            Ok(recorded) => Some(recorded),
            Err(_) => None,
        }
    }
}

/// The pools of a region, and which layouts its directory publishes, where it
/// could be walked.
pub struct Pools {
    pub region: Region,
    pub published: Option<Vec<u64>>,
    pub stored: Vec<Stored<Storage>>,
}

impl Pools {
    pub open spec fn wf(self) -> bool {
        forall|i: int|
            0 <= i < self.stored@.len() ==> {
                let header = (#[trigger] self.stored@[i]).header;
                header.wf() && (header.inner matches Some(storage) ==> storage@.wf())
            }
    }

    /// The place of a pool that the directory publishes and that can be read.
    pub open spec fn place_of(self, pool: LayoutId) -> Option<int> {
        match (self.published, first_at(self.stored@, pool.offset, 0)) {
            (Some(published), Some(i)) => if pool.region == self.region.region
                && published@.contains(pool.offset) && readable(
                self.stored@[i],
                self.region,
            ) is Some {
                Some(i)
            } else {
                None
            },
            _ => None,
        }
    }

    /// Whether the block of a token can be given back: one that nobody holds, or
    /// that `owner` holds.
    pub open spec fn gives_back(self, token: PoolToken, owner: Option<u8>) -> bool {
        match self.place_of(token.pool()) {
            None => false,
            Some(i) => token.generation() == 0 || {
                let header = self.stored@[i].header;
                &&& crate::pool::geometry::records(
                    header.info->0,
                    header.record@.layout_value().extent,
                )
                &&& crate::pool::storage::token_releasable((header.inner->0)@, token, owner)
            },
        }
    }
}

/// The pool has other contents, and is else as it was.
pub open spec fn refilled(
    before: Stored<Storage>,
    after: Stored<Storage>,
    contents: crate::pool::storage::StorageView,
) -> bool {
    &&& after.at == before.at
    &&& after.header.same_fields(before.header)
    &&& after.header.record@ == before.header.record@
    &&& after.header.members == before.header.members
    &&& after.header.inner matches Some(storage) && storage@ == contents
}

/// What giving back the block of a token does.
pub open spec fn given_back(
    before: Pools,
    after: Pools,
    token: PoolToken,
    owner: Option<u8>,
) -> bool {
    &&& after.region == before.region
    &&& after.published == before.published
    &&& after.stored@.len() == before.stored@.len()
    &&& forall|i: int|
        0 <= i < before.stored@.len() && before.place_of(token.pool()) != Some(i)
            ==> #[trigger] after.stored@[i] == before.stored@[i]
    &&& before.place_of(token.pool()) matches Some(i) ==> {
        let contents = (before.stored@[i].header.inner->0)@;
        if before.gives_back(token, owner) && crate::pool::storage::token_holds(contents, token) {
            refilled(
                before.stored@[i],
                after.stored@[i],
                contents.with_word(
                    token.span().class as int,
                    token.span().slot as int,
                    crate::pool::state::free_spec(token.generation()),
                ),
            )
        } else {
            after.stored@[i] == before.stored@[i] || refilled(
                before.stored@[i],
                after.stored@[i],
                contents,
            )
        }
    }
}

fn lists(offsets: &Vec<u64>, offset: u64) -> (listed: bool)
    ensures
        listed == offsets@.contains(offset),
{
    let mut i: usize = 0;
    while i < offsets.len()
        invariant
            i <= offsets@.len(),
            forall|k: int| 0 <= k < i ==> #[trigger] offsets@[k] != offset,
        decreases offsets@.len() - i,
    {
        if offsets[i] == offset {
            return true;
        }
        i = i + 1;
    }
    false
}

impl Pools {
    fn is_published(&self, offset: u64) -> (published: bool)
        ensures
            published == (self.published matches Some(offsets) && offsets@.contains(offset)),
    {
        match &self.published {
            None => false,
            Some(offsets) => lists(offsets, offset),
        }
    }

    /// Gives back the block of a token: one that nobody holds, or that `owner`
    /// holds. The token's pool has to be one of the region.
    pub fn release_token(&mut self, token: &PoolToken, owner: Option<u8>) -> (released: bool)
        requires
            old(self).wf(),
        ensures
            final(self).wf(),
            released == old(self).gives_back(*token, owner),
            given_back(*old(self), *final(self), *token, owner),
    {
        let pool = token.get_pool();
        proof {
            lemma_first_at(self.stored@, pool.offset, 0);
        }
        if pool.region != self.region.region || !self.is_published(pool.offset) {
            return false;
        }
        let i: usize = match find_at(&self.stored, pool.offset) {
            Some(i) => i,
            None => return false,
        };
        proof {
            crate::pool::storage::law_pool_header();
        }
        let recorded = match self.stored[i].read(&self.region) {
            Some(recorded) => recorded,
            None => return false,
        };
        if token.get_generation() == 0 {
            return true;
        }
        let info = match self.stored[i].header.info {
            Some(info) => info,
            None => return false,
        };
        if Geometry::recorded(info, recorded.extent).is_none() {
            return false;
        }
        let mut contents: Option<Storage> = None;
        core::mem::swap(&mut contents, &mut self.stored[i].header.inner);
        match contents {
            None => false,
            Some(mut storage) => {
                let released = storage.release_token(token, owner);
                self.stored[i].header.inner = Some(storage);
                released
            },
        }
    }
}

/// Gives back what the dead participant itself held, and what nobody holds.
impl<H: Repr> Release<Token<H>> for Pools {
    open spec fn ready(&self) -> bool {
        self.wf()
    }

    open spec fn accepts(&self, item: Token<H>, owner: u8) -> bool {
        self.gives_back(item.token(), Some(owner))
    }

    open spec fn released(&self, item: Token<H>, owner: u8, after: &Self) -> bool {
        given_back(*self, *after, item.token(), Some(owner))
    }

    fn release(&mut self, item: &Token<H>, owner: u8) -> (accepted: bool) {
        self.release_token(item.get_token(), Some(owner))
    }
}

/// Gives back what nobody holds: the blocks that were sent and not received.
pub struct Sent(pub Pools);

impl<H: Repr> Release<Token<H>> for Sent {
    open spec fn ready(&self) -> bool {
        self.0.wf()
    }

    open spec fn accepts(&self, item: Token<H>, owner: u8) -> bool {
        self.0.gives_back(item.token(), None)
    }

    open spec fn released(&self, item: Token<H>, owner: u8, after: &Self) -> bool {
        given_back(self.0, after.0, item.token(), None)
    }

    fn release(&mut self, item: &Token<H>, owner: u8) -> (accepted: bool) {
        self.0.release_token(item.get_token(), None)
    }
}

} // verus!
