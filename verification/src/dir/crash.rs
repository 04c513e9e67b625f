//! What recovery makes of a change that ended at any of its steps.

use super::{
    DirView, Entry, Recovered, CLEAN, CLOSING, CREATE, EVIDENCE, GROW, HELD, PENDING, PUBLISHED,
    QUARANTINED, RELEASED, REMOVE, REMOVING, SLAB_BYTES, VACANT,
};
use crate::mem::Region;
use crate::talc::lock::{Meta, TalckMeta};
use crate::talc::mutation::{MUTATION_CLEAN, MUTATION_POISONED};
use vstd::prelude::*;

verus! {

/// No change is under way.
pub open spec fn settled(view: DirView) -> bool {
    &&& view.wf()
    &&& view.word == CLEAN
    &&& forall|p: int| 0 <= p < view.entries.len() ==> !super::is_changing(#[trigger] view.entries[p])
}

/// The directory once its owner's change of the entry `p` began.
pub open spec fn reserved(view: DirView, p: int, owner: u8) -> DirView {
    view.with_word(super::owner_word_spec(owner, HELD)).with_state(
        p,
        super::entry_word_spec(
            (super::generation_of(view.entries[p].state) + 1) as u64,
            PENDING,
        ),
    )
}

/// The directory once the change of the entry `p` left evidence.
pub open spec fn recorded(
    view: DirView,
    p: int,
    owner: u8,
    kind: u64,
    meta: Meta,
    generation: u64,
    state: u64,
) -> DirView {
    view.with_state(p, super::entry_word_spec(generation, state)).with_evidence(
        (p / 32) as u64,
        (p % 32) as u64,
        kind,
        meta,
        owner,
    )
}

/// The word of a heap that `owner` is changing.
pub open spec fn changed_by(owner: u8) -> u64 {
    crate::talc::mutation::owner_word_spec(owner)
}

proof fn lemma_reserved(view: DirView, p: int, owner: u8)
    requires
        settled(view),
        0 <= p < view.entries.len(),
        super::is_free(view.entries[p]),
    ensures
        super::recover::located(reserved(view, p, owner)) == Some(p),
        super::owner_of(reserved(view, p, owner).word) == owner,
        super::phase_of(reserved(view, p, owner).word) == HELD,
        super::state_of(reserved(view, p, owner).entries[p].state) == PENDING,
        super::generation_of(reserved(view, p, owner).entries[p].state) == super::generation_of(
            view.entries[p].state,
        ) + 1,
{
    let next = reserved(view, p, owner);
    super::law_owner_word_round_trips(owner, HELD);
    super::law_entry_word_round_trips(
        (super::generation_of(view.entries[p].state) + 1) as u64,
        PENDING,
    );
    assert forall|q: int| 0 <= q < p implies !super::is_changing(#[trigger] next.entries[q]) by {
        assert(next.entries[q] == view.entries[q]);
    }
    lemma_first_changing_is(next.entries, 0, p);
}

proof fn lemma_first_changing_is(entries: Seq<Entry>, from: int, p: int)
    requires
        0 <= from <= p < entries.len(),
        super::is_changing(entries[p]),
        forall|q: int| from <= q < p ==> !super::is_changing(#[trigger] entries[q]),
    ensures
        super::first_changing(entries, from) == Some(p),
    decreases p - from,
{
    if from < p {
        lemma_first_changing_is(entries, from + 1, p);
    }
}

proof fn lemma_recorded(
    view: DirView,
    p: int,
    owner: u8,
    kind: u64,
    meta: Meta,
    generation: u64,
    state: u64,
)
    requires
        view.wf(),
        0 <= p < view.entries.len(),
        generation <= super::GENERATION_MAX,
        state < 8,
    ensures
        ({
            let next = recorded(view, p, owner, kind, meta, generation, state);
            &&& super::recover::evidence_at(next) == Some(p)
            &&& super::recover::located(next) == Some(p)
            &&& super::recover::evident(next.word)
            &&& super::owner_of(next.word) == owner
            &&& super::phase_of(next.word) == EVIDENCE
            &&& super::state_of(next.entries[p].state) == state
            &&& super::generation_of(next.entries[p].state) == generation
            &&& next.wf()
        }),
{
    super::law_owner_word_round_trips(owner, EVIDENCE);
    super::law_entry_word_round_trips(generation, state);
    assert(0 <= p / 32 <= view.links.len());
    assert(p == 32 * (p / 32) + p % 32);
}

/// A creation that ended before its evidence was written is undone: the entry is
/// as it was. A heap that it was changing is not changed again.
pub proof fn law_creation_without_evidence_is_undone(
    view: DirView,
    heap: TalckMeta,
    region: Region,
    p: int,
    dead: u8,
    closed: bool,
)
    requires
        settled(view),
        0 <= p < view.entries.len(),
        super::is_free(view.entries[p]),
    ensures
        ({
            let left = reserved(view, p, dead);
            let made = super::recover::outcome(
                left,
                heap.mutation,
                heap.talc.base_spec(),
                region,
                dead,
                closed,
            );
            &&& super::recover::sound(left, heap, SLAB_BYTES as int)
            &&& made.result == Ok::<Recovered, super::Error>(Recovered::RolledBack)
            &&& made.view == view
            &&& !made.freed
            &&& made.mutation == (if heap.mutation == changed_by(dead) {
                MUTATION_POISONED
            } else {
                heap.mutation
            })
        }),
{
    let left = reserved(view, p, dead);
    lemma_reserved(view, p, dead);
    let generation = super::generation_of(view.entries[p].state);
    let made = super::recover::outcome(
        left,
        heap.mutation,
        heap.talc.base_spec(),
        region,
        dead,
        closed,
    );
    assert(super::entry_word_spec(generation, VACANT) == view.entries[p].state);
    assert(made.view.entries =~= view.entries);
}

/// A creation that ended with its evidence written and its memory taken is
/// undone: the memory is given back, once, and the entry is as it was.
pub proof fn law_creation_with_evidence_is_undone(
    view: DirView,
    heap: TalckMeta,
    region: Region,
    p: int,
    dead: u8,
    meta: Meta,
    closed: bool,
)
    requires
        settled(view),
        0 <= p < view.entries.len(),
        super::is_free(view.entries[p]),
        heap.mutation == MUTATION_CLEAN,
        crate::talc::lock::holds(heap.talc, meta),
    ensures
        ({
            let left = super::create::prepared(view, p, meta, dead);
            let made = super::recover::outcome(
                left,
                heap.mutation,
                heap.talc.base_spec(),
                region,
                dead,
                closed,
            );
            &&& super::recover::sound(left, heap, SLAB_BYTES as int)
            &&& made.result == Ok::<Recovered, super::Error>(Recovered::RolledBack)
            &&& made.view.entries == view.entries
            &&& made.view.links == view.links
            &&& made.view.word == CLEAN
            &&& made.freed
            &&& made.mutation == MUTATION_CLEAN
        }),
{
    let generation = super::generation_of(view.entries[p].state);
    let next = (generation + 1) as u64;
    lemma_recorded(view, p, dead, CREATE, meta, next, PENDING);
    assert(super::create::prepared(view, p, meta, dead) == recorded(
        view,
        p,
        dead,
        CREATE,
        meta,
        next,
        PENDING,
    ));
    let made = super::recover::outcome(
        recorded(view, p, dead, CREATE, meta, next, PENDING),
        heap.mutation,
        heap.talc.base_spec(),
        region,
        dead,
        closed,
    );
    assert(super::entry_word_spec(generation, VACANT) == view.entries[p].state);
    assert(made.view.entries =~= view.entries);
}

/// A creation that ended while the heap was being changed gives up its entry and
/// the heap; one that ended after its layout was published gives up its entry.
pub proof fn law_creation_in_doubt_is_quarantined(
    view: DirView,
    heap: TalckMeta,
    region: Region,
    p: int,
    dead: u8,
    meta: Meta,
    closed: bool,
    published: bool,
)
    requires
        settled(view),
        0 <= p < view.entries.len(),
        super::is_free(view.entries[p]),
        !published ==> heap.mutation == changed_by(dead),
        published ==> heap.mutation == MUTATION_CLEAN,
    ensures
        ({
            let generation = super::generation_of(view.entries[p].state);
            let left = recorded(
                view,
                p,
                dead,
                CREATE,
                meta,
                (generation + 1) as u64,
                if published {
                    PUBLISHED
                } else {
                    PENDING
                },
            );
            let made = super::recover::outcome(
                left,
                heap.mutation,
                heap.talc.base_spec(),
                region,
                dead,
                closed,
            );
            &&& super::recover::sound(left, heap, SLAB_BYTES as int)
            &&& made.result == Ok::<Recovered, super::Error>(Recovered::Quarantined)
            &&& made.view.entries == view.entries.update(
                p,
                Entry {
                    state: super::entry_word_spec((generation + 1) as u64, QUARANTINED),
                    ..view.entries[p]
                },
            )
            &&& made.view.links == view.links
            &&& made.view.word == CLEAN
            &&& !made.freed
            &&& made.mutation == (if published {
                MUTATION_CLEAN
            } else {
                MUTATION_POISONED
            })
        }),
{
    let generation = super::generation_of(view.entries[p].state);
    let next = (generation + 1) as u64;
    let state = if published {
        PUBLISHED
    } else {
        PENDING
    };
    lemma_recorded(view, p, dead, CREATE, meta, next, state);
    crate::talc::mutation::law_owner_word_round_trips(dead);
    let left = recorded(view, p, dead, CREATE, meta, next, state);
    let made = super::recover::outcome(
        left,
        heap.mutation,
        heap.talc.base_spec(),
        region,
        dead,
        closed,
    );
    assert(made.view.entries =~= view.entries.update(
        p,
        Entry { state: super::entry_word_spec(next, QUARANTINED), ..view.entries[p] },
    ));
}

/// A removal that ended before its layout was closed is undone: the layout is
/// there under its name. The heap was not changed, and is not given up.
pub proof fn law_removal_before_closing_is_undone(
    view: DirView,
    heap: TalckMeta,
    region: Region,
    p: int,
    dead: u8,
    meta: Meta,
)
    requires
        settled(view),
        0 <= p < view.entries.len(),
        super::state_of(view.entries[p].state) == PUBLISHED,
        heap.mutation == changed_by(dead),
        crate::talc::lock::holds(heap.talc, meta),
    ensures
        ({
            let generation = super::generation_of(view.entries[p].state);
            let left = recorded(view, p, dead, REMOVE, meta, generation, CLOSING);
            let made = super::recover::outcome(
                left,
                heap.mutation,
                heap.talc.base_spec(),
                region,
                dead,
                false,
            );
            &&& super::recover::sound(left, heap, SLAB_BYTES as int)
            &&& made.result == Ok::<Recovered, super::Error>(Recovered::RolledBack)
            &&& made.view.entries == view.entries
            &&& made.view.links == view.links
            &&& made.view.word == CLEAN
            &&& !made.freed
            &&& made.mutation == MUTATION_CLEAN
        }),
{
    let generation = super::generation_of(view.entries[p].state);
    lemma_recorded(view, p, dead, REMOVE, meta, generation, CLOSING);
    let left = recorded(view, p, dead, REMOVE, meta, generation, CLOSING);
    let made = super::recover::outcome(
        left,
        heap.mutation,
        heap.talc.base_spec(),
        region,
        dead,
        false,
    );
    assert(super::entry_word_spec(generation, PUBLISHED) == view.entries[p].state);
    assert(made.view.entries =~= view.entries);
}

/// A removal that ended after its layout was closed is finished: its memory is
/// given back exactly where the removal had not done so, and its entry becomes
/// vacant under its generation. Only a removal that ended in the middle of giving
/// memory back costs the entry and the heap.
pub proof fn law_removal_after_closing_is_finished(
    view: DirView,
    heap: TalckMeta,
    region: Region,
    p: int,
    dead: u8,
    meta: Meta,
    state: u64,
)
    requires
        settled(view),
        0 <= p < view.entries.len(),
        super::state_of(view.entries[p].state) == PUBLISHED,
        state == CLOSING || state == REMOVING || state == RELEASED || state == VACANT,
        state == CLOSING || state == REMOVING ==> heap.mutation == changed_by(dead),
        state == RELEASED ==> heap.mutation == changed_by(dead) || heap.mutation == MUTATION_CLEAN,
        state == VACANT ==> heap.mutation == MUTATION_CLEAN,
        state == CLOSING ==> crate::talc::lock::holds(heap.talc, meta),
    ensures
        ({
            let generation = super::generation_of(view.entries[p].state);
            let left = recorded(view, p, dead, REMOVE, meta, generation, state);
            let made = super::recover::outcome(
                left,
                heap.mutation,
                heap.talc.base_spec(),
                region,
                dead,
                true,
            );
            &&& super::recover::sound(left, heap, SLAB_BYTES as int)
            &&& made.view.links == view.links
            &&& made.view.word == CLEAN
            &&& made.freed == (state == CLOSING)
            &&& if state == REMOVING {
                &&& made.result == Ok::<Recovered, super::Error>(Recovered::Quarantined)
                &&& made.mutation == MUTATION_POISONED
                &&& made.view.entries == view.entries.update(
                    p,
                    Entry {
                        state: super::entry_word_spec(generation, QUARANTINED),
                        ..view.entries[p]
                    },
                )
            } else {
                &&& made.result == Ok::<Recovered, super::Error>(Recovered::Released)
                &&& made.mutation == MUTATION_CLEAN
                &&& made.view.entries == view.entries.update(
                    p,
                    Entry {
                        state: super::entry_word_spec(generation, VACANT),
                        ..view.entries[p]
                    },
                )
            }
        }),
{
    let generation = super::generation_of(view.entries[p].state);
    lemma_recorded(view, p, dead, REMOVE, meta, generation, state);
    crate::talc::mutation::law_owner_word_round_trips(dead);
    let left = recorded(view, p, dead, REMOVE, meta, generation, state);
    let made = super::recover::outcome(
        left,
        heap.mutation,
        heap.talc.base_spec(),
        region,
        dead,
        true,
    );
    let last = if state == REMOVING {
        QUARANTINED
    } else {
        VACANT
    };
    assert(made.view.entries =~= view.entries.update(
        p,
        Entry { state: super::entry_word_spec(generation, last), ..view.entries[p] },
    ));
}

/// The directory once the addition of a slab left evidence.
pub open spec fn growing(view: DirView, dead: u8, meta: Meta) -> DirView {
    view.with_evidence((view.links.len() + 1) as u64, 0, GROW, meta, dead)
}

/// Recovery keeps the chain of slabs: a slab that was linked stays, one that was
/// not is given back, and one in doubt is lost with the heap.
pub proof fn law_growth_keeps_the_slab_chain(
    view: DirView,
    heap: TalckMeta,
    region: Region,
    dead: u8,
    meta: Meta,
    linked: bool,
    closed: bool,
)
    requires
        settled(view),
        view.cut is None,
        view.links.len() < u32::MAX,
        super::change::behind_root(region, heap),
        heap.mutation == MUTATION_CLEAN || heap.mutation == changed_by(dead),
        linked ==> heap.mutation == MUTATION_CLEAN,
        heap.mutation == MUTATION_CLEAN && !linked ==> crate::talc::lock::holds(heap.talc, meta)
            && meta.size() == SLAB_BYTES,
        0 <= meta.start(),
        region.offset_spec(heap.talc.base_spec() + meta.start(), SLAB_BYTES as int) is Ok,
    ensures
        ({
            let offset = region.offset_spec(
                heap.talc.base_spec() + meta.start(),
                SLAB_BYTES as int,
            )->Ok_0;
            let plain = growing(view, dead, meta);
            let left = if linked {
                plain.linked(offset)
            } else {
                plain
            };
            let made = super::recover::outcome(
                left,
                heap.mutation,
                heap.talc.base_spec(),
                region,
                dead,
                closed,
            );
            &&& super::recover::sound(left, heap, SLAB_BYTES as int)
            &&& made.view == left.with_word(CLEAN)
            &&& if linked {
                made.result == Ok::<Recovered, super::Error>(Recovered::Retained) && !made.freed
                    && made.mutation == MUTATION_CLEAN
            } else if heap.mutation == MUTATION_CLEAN {
                made.result == Ok::<Recovered, super::Error>(Recovered::RolledBack) && made.freed
                    && made.mutation == MUTATION_CLEAN
            } else {
                made.result == Ok::<Recovered, super::Error>(Recovered::Quarantined)
                    && !made.freed && made.mutation == MUTATION_POISONED
            }
        }),
{
    super::law_owner_word_round_trips(dead, EVIDENCE);
    crate::talc::mutation::law_owner_word_round_trips(dead);
    let offset = region.offset_spec(
        heap.talc.base_spec() + meta.start(),
        SLAB_BYTES as int,
    )->Ok_0;
    let plain = growing(view, dead, meta);
    assert(plain.link(view.links.len() as int) == 0);
    assert(plain.linked(offset).link(view.links.len() as int) == offset);
    assert(offset != 0);
}

/// A name that was removed is never the name of another layout: what takes its
/// entry has a later generation.
pub proof fn law_names_are_not_reused(view: DirView, region: Region, p: int, id: super::Id)
    requires
        view.wf(),
        0 <= p < view.entries.len(),
        super::is_free(view.entries[p]),
        view.position(id.slab as int, id.entry as int) == Some(p),
        id.generation <= super::generation_of(view.entries[p].state),
    ensures
        view.published(region.region, id) is None,
        ({
            let next = (super::generation_of(view.entries[p].state) + 1) as u64;
            super::id_at(region.region, p, next) != id && view.with_state(
                p,
                super::entry_word_spec(next, PUBLISHED),
            ).published(region.region, id) is None
        }),
{
    let next = (super::generation_of(view.entries[p].state) + 1) as u64;
    super::law_entry_word_round_trips(next, PUBLISHED);
}

} // verus!
