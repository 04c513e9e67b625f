//! The walk over every layout of a region after a participant died.

use super::layouts::Layouts;
use crate::dir::Directory;
use crate::header::layout::RecoveryHandler;
use crate::header::record::RecordedLayout;
use crate::header::PARTICIPANT_CAPACITY;
use crate::mem::Region;
use crate::pool::storage::Storage;
use vstd::prelude::*;

verus! {

/// The handlers of a recovery: that of pools, and those that were given.
pub open spec fn all_handlers(given: Seq<RecoveryHandler>) -> Seq<RecoveryHandler> {
    seq![
        crate::header::layout::handler_of(
            <Storage as crate::schema::SharedSchema>::schema_spec(),
        ),
    ] + given
}

pub open spec fn handles(handler: RecoveryHandler, recorded: RecordedLayout) -> bool {
    handler.schema == recorded.schema && handler.profile == recorded.profile
}

/// The handler at `i` is for the recorded layout, and no other is.
pub open spec fn alone(all: Seq<RecoveryHandler>, recorded: RecordedLayout, i: int) -> bool {
    &&& 0 <= i < all.len()
    &&& handles(all[i], recorded)
    &&& forall|j: int| 0 <= j < all.len() && j != i ==> !handles(#[trigger] all[j], recorded)
}

/// The handler of a recorded layout; none where there is none, or more than one.
pub open spec fn handler_for(
    all: Seq<RecoveryHandler>,
    recorded: RecordedLayout,
) -> Option<RecoveryHandler> {
    if exists|i: int| alone(all, recorded, i) {
        Some(all[choose|i: int| alone(all, recorded, i)])
    } else {
        None
    }
}

/// Picks the one handler for the recorded layout.
pub fn select(given: &[RecoveryHandler], recorded: RecordedLayout) -> (selected: Option<
    RecoveryHandler,
>)
    ensures
        selected == handler_for(all_handlers(given@), recorded),
{
    let ghost all = all_handlers(given@);
    let builtin = RecoveryHandler::of::<Storage>();
    assert(all[0] == builtin);
    let mut selected: Option<RecoveryHandler> = None;
    let ghost mut at: int = -1;
    if builtin.handles(recorded) {
        selected = Some(builtin);
        proof {
            at = 0;
        }
    }
    let mut i: usize = 0;
    while i < given.len()
        invariant
            all == all_handlers(given@),
            i <= given@.len(),
            match selected {
                Some(handler) => 0 <= at <= i && all[at] == handler && handles(all[at], recorded)
                    && forall|j: int|
                    0 <= j <= i && j != at ==> !handles(#[trigger] all[j], recorded),
                None => forall|j: int| 0 <= j <= i ==> !handles(#[trigger] all[j], recorded),
            },
        decreases given@.len() - i,
    {
        let handler = given[i];
        assert(all[i + 1] == handler);
        if handler.handles(recorded) {
            if selected.is_some() {
                proof {
                    assert forall|k: int| !alone(all, recorded, k) by {
                        if alone(all, recorded, k) {
                            assert(k == i + 1 || !handles(all[i + 1], recorded));
                            assert(k == at || !handles(all[at], recorded));
                        }
                    }
                }
                return None;
            }
            selected = Some(handler);
            proof {
                at = i + 1;
            }
        }
        i = i + 1;
    }
    proof {
        assert(all.len() == given@.len() + 1);
        match selected {
            Some(handler) => {
                assert(alone(all, recorded, at));
                let chosen = choose|k: int| alone(all, recorded, k);
                assert(alone(all, recorded, chosen));
                if chosen != at {
                    assert(!handles(all[at], recorded));
                }
            },
            None => {
                assert forall|k: int| !alone(all, recorded, k) by {
                    if alone(all, recorded, k) {
                        assert(!handles(all[k], recorded));
                    }
                }
            },
        }
    }
    selected
}

/// What a visit to the published layout at `offset` answers and leaves.
pub open spec fn visits<S: Layouts>(
    before: S,
    after: S,
    all: Seq<RecoveryHandler>,
    region: Region,
    offset: u64,
    dead: u8,
    live: u8,
    done: bool,
) -> bool {
    match before.recorded_spec(region, offset) {
        None => !done && after == before,
        Some(recorded) => match handler_for(all, recorded) {
            None => !done && after == before,
            Some(handler) => before.recovers(handler, region, offset, dead, live, &after, done),
        },
    }
}

/// An entry that holds no layout.
pub open spec fn idle(entry: crate::dir::Entry) -> bool {
    let state = crate::dir::state_of(entry.state);
    state == crate::dir::VACANT || state == crate::dir::QUARANTINED
}

pub open spec fn is_published(entry: crate::dir::Entry) -> bool {
    crate::dir::state_of(entry.state) == crate::dir::PUBLISHED
}

/// The entry at `p` was passed: it holds no layout, or its layout was recovered.
pub open spec fn passes<S: Layouts>(
    view: crate::dir::DirView,
    p: int,
    before: S,
    after: S,
    all: Seq<RecoveryHandler>,
    region: Region,
    dead: u8,
    live: u8,
) -> bool {
    let entry = view.entries[p];
    if idle(entry) {
        after == before
    } else {
        is_published(entry) && visits(
            before,
            after,
            all,
            region,
            entry.offset,
            dead,
            live,
            true,
        )
    }
}

/// The first `n` entries were passed, one after the other.
pub open spec fn passed<S: Layouts>(
    view: crate::dir::DirView,
    n: int,
    before: S,
    after: S,
    all: Seq<RecoveryHandler>,
    region: Region,
    dead: u8,
    live: u8,
) -> bool
    decreases n,
{
    if n <= 0 {
        after == before
    } else {
        exists|middle: S|
            passed(view, n - 1, before, middle, all, region, dead, live) && #[trigger] passes(
                view,
                n - 1,
                middle,
                after,
                all,
                region,
                dead,
                live,
            )
    }
}

/// The walk was kept from going on by the entry at `k`: it is being changed, or
/// its layout was not recovered; or what should come behind the last entry is out
/// of reach.
pub open spec fn halted<S: Layouts>(
    view: crate::dir::DirView,
    k: int,
    before: S,
    after: S,
    all: Seq<RecoveryHandler>,
    region: Region,
    dead: u8,
    live: u8,
) -> bool {
    &&& 0 <= k < view.entries.len() && !idle(view.entries[k]) || k == view.entries.len()
        && view.cut is Some
    &&& exists|middle: S|
        {
            &&& #[trigger] passed(view, k, before, middle, all, region, dead, live)
            &&& if k < view.entries.len() && is_published(view.entries[k]) {
                visits(
                    middle,
                    after,
                    all,
                    region,
                    view.entries[k].offset,
                    dead,
                    live,
                    false,
                )
            } else {
                after == middle
            }
        }
}

/// What a walk over all layouts answers and leaves.
pub open spec fn walks<S: Layouts>(
    view: crate::dir::DirView,
    before: S,
    after: S,
    all: Seq<RecoveryHandler>,
    region: Region,
    dead: u8,
    live: u8,
    complete: bool,
) -> bool {
    if complete {
        view.cut is None && passed(view, view.entries.len() as int, before, after, all, region, dead, live)
    } else {
        exists|k: int| #[trigger] halted(view, k, before, after, all, region, dead, live)
    }
}

/// What is published from the entry `p` on, where all of it can be read.
pub open spec fn offsets_from<S: Layouts>(
    view: crate::dir::DirView,
    layouts: S,
    region: Region,
    p: int,
) -> Option<Seq<u64>>
    decreases view.entries.len() - p,
{
    if p < 0 || p >= view.entries.len() {
        if view.cut is Some {
            None
        } else {
            Some(Seq::<u64>::empty())
        }
    } else {
        let entry = view.entries[p];
        match offsets_from(view, layouts, region, p + 1) {
            None => None,
            Some(rest) => if idle(entry) {
                Some(rest)
            } else if is_published(entry) && layouts.recorded_spec(region, entry.offset) is Some {
                Some(seq![entry.offset] + rest)
            } else {
                None
            },
        }
    }
}

/// What is published, where all of it can be read.
pub fn survey<S: Layouts>(directory: &Directory, layouts: &S, region: &Region) -> (offsets: Option<
    Vec<u64>,
>)
    requires
        directory@.wf(),
        layouts.wf(),
    ensures
        match offsets {
            Some(offsets) => offsets_from(directory@, *layouts, *region, 0) == Some(offsets@),
            None => offsets_from(directory@, *layouts, *region, 0) is None,
        },
{
    let mut offsets: Vec<u64> = Vec::new();
    let mut p: usize = 0;
    let ghost view = directory@;
    while p < directory.entries.len()
        invariant
            view == directory@,
            view.wf(),
            layouts.wf(),
            p <= view.entries.len(),
            view.entries == directory.entries@,
            offsets_from(view, *layouts, *region, 0) == (match offsets_from(
                view,
                *layouts,
                *region,
                p as int,
            ) {
                None => None,
                Some(rest) => Some(offsets@ + rest),
            }),
        decreases view.entries.len() - p,
    {
        let ghost here = offsets_from(view, *layouts, *region, p as int);
        let ghost rest = offsets_from(view, *layouts, *region, p as int + 1);
        let ghost so_far = offsets@;
        let entry = directory.entries[p];
        let state: u64 = entry.state % 8;
        if state == crate::dir::PUBLISHED {
            if layouts.recorded(region, entry.offset).is_none() {
                return None;
            }
            offsets.push(entry.offset);
            proof {
                if rest is Some {
                    assert(so_far + (seq![entry.offset] + rest->0) =~= offsets@ + rest->0);
                }
            }
        } else if state != crate::dir::VACANT && state != crate::dir::QUARANTINED {
            return None;
        }
        p = p + 1;
    }
    assert(offsets@ + Seq::<u64>::empty() =~= offsets@);
    if directory.cut.is_some() {
        return None;
    }
    Some(offsets)
}

/// Visits every published layout in turn, up to the first that is not recovered.
#[verifier::spinoff_prover]
fn walk_all<S: Layouts>(
    directory: &Directory,
    layouts: &mut S,
    region: &Region,
    given: &[RecoveryHandler],
    dead: u8,
    live: u8,
) -> (complete: bool)
    requires
        directory@.wf(),
        old(layouts).wf(),
        dead < PARTICIPANT_CAPACITY,
        live < PARTICIPANT_CAPACITY,
    ensures
        final(layouts).wf(),
        walks(
            directory@,
            *old(layouts),
            *final(layouts),
            all_handlers(given@),
            *region,
            dead,
            live,
            complete,
        ),
{
    let ghost view = directory@;
    let ghost all = all_handlers(given@);
    let ghost before = *layouts;
    let mut p: usize = 0;
    while p < directory.entries.len()
        invariant
            view == directory@,
            view.wf(),
            view.entries == directory.entries@,
            all == all_handlers(given@),
            before == *old(layouts),
            layouts.wf(),
            dead < PARTICIPANT_CAPACITY,
            live < PARTICIPANT_CAPACITY,
            p <= view.entries.len(),
            passed(view, p as int, before, *layouts, all, *region, dead, live),
        decreases view.entries.len() - p,
    {
        let ghost middle = *layouts;
        let entry = directory.entries[p];
        let state: u64 = entry.state % 8;
        if state == crate::dir::PUBLISHED {
            let recorded = match layouts.recorded(region, entry.offset) {
                Some(recorded) => recorded,
                None => {
                    assert(halted(view, p as int, before, *layouts, all, *region, dead, live));
                    return false;
                },
            };
            let handler = match select(given, recorded) {
                Some(handler) => handler,
                None => {
                    assert(halted(view, p as int, before, *layouts, all, *region, dead, live));
                    return false;
                },
            };
            if !layouts.recover(handler, region, entry.offset, dead, live) {
                assert(visits(middle, *layouts, all, *region, entry.offset, dead, live, false));
                assert(halted(view, p as int, before, *layouts, all, *region, dead, live));
                return false;
            }
        } else if state != crate::dir::VACANT && state != crate::dir::QUARANTINED {
            assert(halted(view, p as int, before, *layouts, all, *region, dead, live));
            return false;
        }
        p = p + 1;
        proof {
            assert(passes(view, p as int - 1, middle, *layouts, all, *region, dead, live));
        }
    }
    if directory.cut.is_some() {
        assert(halted(view, p as int, before, *layouts, all, *region, dead, live));
        return false;
    }
    true
}

/// What a scan after the death of a participant answers and leaves.
pub open spec fn scans<S: Layouts>(
    view: crate::dir::DirView,
    before: S,
    after: S,
    given: Seq<RecoveryHandler>,
    region: Region,
    dead: u8,
    live: u8,
    complete: bool,
) -> bool {
    exists|told: S|
        {
            &&& #[trigger] before.told(offsets_from(view, before, region, 0), &told)
            &&& walks(view, told, after, all_handlers(given), region, dead, live, complete)
        }
}

/// Recovers every published layout with the one handler that is for it.
pub fn scan_recovery<S: Layouts>(
    directory: &Directory,
    layouts: &mut S,
    region: &Region,
    given: &[RecoveryHandler],
    dead: u8,
    live: u8,
) -> (complete: bool)
    requires
        directory@.wf(),
        old(layouts).wf(),
        dead < PARTICIPANT_CAPACITY,
        live < PARTICIPANT_CAPACITY,
    ensures
        final(layouts).wf(),
        scans(
            directory@,
            *old(layouts),
            *final(layouts),
            given@,
            *region,
            dead,
            live,
            complete,
        ),
{
    let offsets = survey(directory, layouts, region);
    layouts.tell(offsets);
    walk_all(directory, layouts, region, given, dead, live)
}

} // verus!
