//! What transactions wait for, whom they notify, and how commits are recorded in them.

use vstd::prelude::*;

use crate::wayland::blocker::{BlockerKind, BlockerState, NotifyKind};
use crate::wayland::forest::ForestModel;
use crate::wayland::transaction;
use crate::wayland::transaction::{
    PendingModel, Serial, SnapshotModel, StateModel, Surface, SurfaceCommit, TransactionModel,
};

verus! {

/// A serial is before those that are counted from it, whether or not counting goes past the end of
/// the numbers, as long as they are less than half of the numbers away.
pub proof fn law_serials_count_on(a: Serial, steps: u32)
    requires
        0 < steps < 0x7fff_ffff,
    ensures
        ({
            let b = Serial(((a.0 + steps) % 0x1_0000_0000) as u32);
            a.before(b) && !b.before(a) && a.later(b) == b && b.later(a) == b
        }),
{
}

/// The later of two serials is one of them, and neither is after it.
pub proof fn law_the_later_serial(a: Serial, b: Serial)
    ensures
        a.later(b) == a || a.later(b) == b,
        !a.later(b).before(a),
        !a.later(b).before(b),
{
    transaction::law_serials_are_ordered(a, b);
}

/// A transaction with a live surface is cancelled exactly if one of the blockers that count is, and
/// released exactly if all of them are; without a live surface it is cancelled in any case.
pub proof fn law_state_is_that_of_the_blockers(
    t: TransactionModel,
    kind: Option<BlockerKind>,
    world: SnapshotModel,
)
    ensures
        ({
            let state = t.state(kind, world);
            let lives = exists|i: int|
                0 <= i < t.surfaces.len() && world.alive.contains(
                    (#[trigger] t.surfaces[i]).surface.object,
                );
            let counts = |b: usize| kind is None || kind == Some(world.blockers[b as int].kind);
            &&& state is Cancelled <==> {
                ||| !lives
                ||| exists|i: int|
                    0 <= i < t.blockers.len() && counts(#[trigger] t.blockers[i])
                        && world.blockers[t.blockers[i] as int].state is Cancelled
            }
            &&& state is Released <==> {
                &&& lives
                &&& forall|i: int|
                    0 <= i < t.blockers.len() && counts(#[trigger] t.blockers[i])
                        ==> world.blockers[t.blockers[i] as int].state is Released
            }
        }),
{
    let lives = exists|i: int|
        0 <= i < t.surfaces.len() && world.alive.contains((#[trigger] t.surfaces[i]).surface.object);
    if lives {
        let i = choose|i: int|
            0 <= i < t.surfaces.len() && world.alive.contains(
                (#[trigger] t.surfaces[i]).surface.object,
            );
        assert(world.lives(t.surfaces[i]));
        assert(t.any_alive(world));
    }
    assert forall|state: BlockerState| #[trigger] t.any_blocker(kind, state, world) <==> exists|i: int|
        0 <= i < t.blockers.len() && world.counts(#[trigger] t.blockers[i], kind) && world.is_in(
            t.blockers[i],
            state,
        ) by {}
    assert(t.any_blocker(kind, BlockerState::Cancelled, world) || !t.any_blocker(
        kind,
        BlockerState::Cancelled,
        world,
    ));
    assert(t.any_blocker(kind, BlockerState::Pending, world) || !t.any_blocker(
        kind,
        BlockerState::Pending,
        world,
    ));
    if t.any_blocker(kind, BlockerState::Pending, world) {
        let i = choose|i: int|
            0 <= i < t.blockers.len() && world.counts(#[trigger] t.blockers[i], kind) && world.is_in(
                t.blockers[i],
                BlockerState::Pending,
            );
        assert(!(world.blockers[t.blockers[i] as int].state is Released));
    }
    if t.any_blocker(kind, BlockerState::Cancelled, world) {
        let i = choose|i: int|
            0 <= i < t.blockers.len() && world.counts(#[trigger] t.blockers[i], kind) && world.is_in(
                t.blockers[i],
                BlockerState::Cancelled,
            );
        assert(world.blockers[t.blockers[i] as int].state is Cancelled);
    }
    assert forall|i: int|
        0 <= i < t.blockers.len() && world.counts(#[trigger] t.blockers[i], kind)
            && !(world.blockers[t.blockers[i] as int].state is Released) implies t.any_blocker(
        kind,
        BlockerState::Cancelled,
        world,
    ) || t.any_blocker(kind, BlockerState::Pending, world) by {
        if world.blockers[t.blockers[i] as int].state is Cancelled {
            assert(world.is_in(t.blockers[i], BlockerState::Cancelled));
        } else {
            assert(world.is_in(t.blockers[i], BlockerState::Pending));
        }
    }
}

/// What is to become of a transaction is decided by what it has itself and by the surfaces of the
/// transactions that wait before it, and by nothing else. It is dropped only if it is cancelled. It
/// waits only for an immediate blocker, or behind a transaction for one of its live surfaces. It is
/// delayed only if nothing but delayed blockers is in its way, and otherwise it is applied.
pub proof fn law_why_a_transaction_waits(t: TransactionModel, seen: Set<u32>, world: SnapshotModel)
    ensures
        ({
            let immediate = t.state(Some(BlockerKind::Immediate), world);
            let all = t.state(None, world);
            let behind = exists|id: u32| #[trigger] seen.contains(id) && t.touches(id, world);
            &&& t.verdict(seen, world) is Discard <==> immediate is Cancelled || (immediate is Released
                && !behind && all is Cancelled)
            &&& t.verdict(seen, world) is Wait <==> immediate is Pending || (immediate is Released
                && behind)
            &&& t.verdict(seen, world) is Delayed <==> immediate is Released && !behind && all is Pending
            &&& t.verdict(seen, world) is Apply <==> immediate is Released && !behind
                && all is Released
        }),
{
}

/// A transaction concerns the surfaces that it holds commits for, as far as they are alive: adding
/// a commit adds that surface, if it is alive, and no other.
pub proof fn law_live_surfaces_are_concerned(
    t: TransactionModel,
    commit: SurfaceCommit,
    id: u32,
    world: SnapshotModel,
)
    ensures
        ({
            let more = TransactionModel { surfaces: t.surfaces.push(commit), ..t };
            let lives = world.alive.contains(commit.surface.object);
            &&& more.touches(id, world) <==> t.touches(id, world) || (lives
                && commit.surface.protocol_id == id)
            &&& more.any_alive(world) <==> t.any_alive(world) || lives
            &&& more.live_surfaces(world) == if lives {
                t.live_surfaces(world).push(commit.surface)
            } else {
                t.live_surfaces(world)
            }
            &&& more.live_ids(world).contains(id) <==> more.touches(id, world)
        }),
        t.surfaces.len() == 0 ==> !t.touches(id, world) && !t.any_alive(world)
            && t.live_surfaces(world).len() == 0,
{
    reveal(Seq::filter);
    let more = TransactionModel { surfaces: t.surfaces.push(commit), ..t };
    let n = t.surfaces.len() as int;
    assert(more.surfaces[n] == commit);
    assert(more.surfaces.drop_last() =~= t.surfaces);
    if t.touches(id, world) {
        let i = choose|i: int|
            0 <= i < t.surfaces.len() && world.lives(#[trigger] t.surfaces[i])
                && t.surfaces[i].surface.protocol_id == id;
        assert(more.surfaces[i] == t.surfaces[i]);
    }
    if more.touches(id, world) {
        let i = choose|i: int|
            0 <= i < more.surfaces.len() && world.lives(#[trigger] more.surfaces[i])
                && more.surfaces[i].surface.protocol_id == id;
        if i < n {
            assert(more.surfaces[i] == t.surfaces[i]);
        }
    }
    if t.any_alive(world) {
        let i = choose|i: int| 0 <= i < t.surfaces.len() && world.lives(#[trigger] t.surfaces[i]);
        assert(more.surfaces[i] == t.surfaces[i]);
    }
    if more.any_alive(world) {
        let i = choose|i: int|
            0 <= i < more.surfaces.len() && world.lives(#[trigger] more.surfaces[i]);
        if i < n {
            assert(more.surfaces[i] == t.surfaces[i]);
        }
    }
    let lives = |c: SurfaceCommit| world.lives(c);
    let surface = |c: SurfaceCommit| c.surface;
    if world.lives(commit) {
        assert(more.surfaces.filter(lives) =~= t.surfaces.filter(lives).push(commit));
        assert(more.live_surfaces(world) =~= t.live_surfaces(world).push(commit.surface));
    } else {
        assert(more.surfaces.filter(lives) =~= t.surfaces.filter(lives));
    }
}

/// The delayed blockers of a transaction are its own, in their order, as far as they are of that
/// kind: adding a blocker adds it if it is delayed. Those that are pending are counted apart.
pub proof fn law_delayed_blockers_in_order(t: TransactionModel, blocker: usize, world: SnapshotModel)
    ensures
        ({
            let more = TransactionModel { blockers: t.blockers.push(blocker), ..t };
            let delayed = world.blockers[blocker as int].kind is Delayed;
            let pending = world.blockers[blocker as int].state is Pending;
            &&& more.delayed(world) == if delayed {
                t.delayed(world).push(blocker)
            } else {
                t.delayed(world)
            }
            &&& more.pending_delayed(world) == if delayed && pending {
                t.pending_delayed(world).push(blocker)
            } else {
                t.pending_delayed(world)
            }
        }),
        t.blockers.len() == 0 ==> t.delayed(world).len() == 0 && t.pending_delayed(world).len() == 0,
{
    reveal(Seq::filter);
    let more = TransactionModel { blockers: t.blockers.push(blocker), ..t };
    assert(more.blockers.drop_last() =~= t.blockers);
    assert(more.blockers.last() == blocker);
}

/// A transaction with a delayed blocker is announced once, as what it is, with its live surfaces
/// and its delayed blockers; one without is not announced. A transaction is news until it has been
/// announced, and again whenever another number of its delayed blockers is pending.
pub proof fn law_what_is_announced(t: TransactionModel, kind: NotifyKind, world: SnapshotModel)
    requires
        t.blockers.len() <= usize::MAX,
    ensures
        t.delayed(world).len() == 0 ==> t.notification(kind, world).len() == 0,
        t.delayed(world).len() > 0 ==> {
            &&& t.notification(kind, world).len() == 1
            &&& t.notification(kind, world)[0].kind == kind
            &&& t.notification(kind, world)[0].surfaces == t.live_surfaces(world)
            &&& t.notification(kind, world)[0].delayed == t.delayed(world)
        },
        t.last_pending_delayed is None ==> t.is_news(world),
        t.last_pending_delayed matches Some(n) ==> (t.is_news(world) <==> n != t.pending_delayed(
            world,
        ).len()),
        t.reported(world).surfaces == t.surfaces,
        t.reported(world).blockers == t.blockers,
        !t.reported(world).is_news(world),
{
    let pending = |b: usize| world.is_delayed(b) && world.is_in(b, BlockerState::Pending);
    t.blockers.lemma_filter_len(pending);
}

/// Only what waits holds others back: a surface is held back exactly if an earlier transaction that
/// waits or is delayed concerns it.
pub proof fn law_what_is_held_back(queue: Seq<TransactionModel>, id: u32, world: SnapshotModel)
    ensures
        transaction::pass_over(queue, world).seen.contains(id) <==> exists|i: int|
            0 <= i < queue.len() && holds_back(queue, i, id, world),
    decreases queue.len(),
{
    if queue.len() > 0 {
        let rest = queue.drop_last();
        let n = queue.len() - 1;
        law_what_is_held_back(rest, id, world);
        assert(queue.take(n) =~= rest);
        assert(queue.last() == queue[n]);
        let verdict = transaction::verdict_at(queue, n, world);
        assert(verdict == queue.last().verdict(transaction::pass_over(rest, world).seen, world));
        assert forall|i: int| 0 <= i < n implies (holds_back(rest, i, id, world) <==> holds_back(
            queue,
            i,
            id,
            world,
        )) by {
            assert(rest.take(i) =~= queue.take(i));
            assert(rest[i] == queue[i]);
        }
        if exists|i: int| 0 <= i < rest.len() && holds_back(rest, i, id, world) {
            let i = choose|i: int| 0 <= i < rest.len() && holds_back(rest, i, id, world);
            assert(holds_back(queue, i, id, world));
        }
        if exists|i: int| 0 <= i < queue.len() && holds_back(queue, i, id, world) {
            let i = choose|i: int| 0 <= i < queue.len() && holds_back(queue, i, id, world);
            if i < n {
                assert(holds_back(rest, i, id, world));
            }
        }
        if holds_back(queue, n, id, world) {
            assert(queue.last().live_ids(world).contains(id));
        }
    }
}

/// Whether a transaction of the queue waits or is delayed, and concerns a surface.
pub open spec fn holds_back(
    queue: Seq<TransactionModel>,
    i: int,
    id: u32,
    world: SnapshotModel,
) -> bool {
    &&& transaction::verdict_at(queue, i, world) is Wait || transaction::verdict_at(
        queue,
        i,
        world,
    ) is Delayed
    &&& queue[i].touches(id, world)
}

/// Recording a commit touches one surface: a new one is put at the end, a known one keeps its place
/// and gets the later serial. The blockers stay.
pub proof fn law_recording_touches_one_surface(state: StateModel, commit: SurfaceCommit, i: int)
    requires
        state.distinct(),
        0 <= i < state.surfaces.len(),
    ensures
        ({
            let after = state.recorded(commit);
            let known = exists|k: int|
                0 <= k < state.surfaces.len() && (#[trigger] state.surfaces[k]).surface
                    == commit.surface;
            &&& after.blockers == state.blockers
            &&& after.surfaces[i].surface == state.surfaces[i].surface
            &&& state.surfaces[i].surface != commit.surface ==> after.surfaces[i]
                == state.surfaces[i]
            &&& state.surfaces[i].surface == commit.surface ==> after.surfaces[i].serial
                == state.surfaces[i].serial.later(commit.serial)
            &&& known ==> after.surfaces.len() == state.surfaces.len()
            &&& !known ==> after.surfaces == state.surfaces.push(commit)
        }),
{
    if exists|k: int| state.has_at(commit.surface, k) {
        let k = choose|k: int| state.has_at(commit.surface, k);
        assert(state.surfaces[k].surface == commit.surface);
        if state.surfaces[i].surface == commit.surface {
            assert(i == k);
        }
    } else {
        assert(!state.has_at(commit.surface, i));
        assert forall|k: int| 0 <= k < state.surfaces.len() implies (
        #[trigger] state.surfaces[k]).surface != commit.surface by {
            assert(!state.has_at(commit.surface, k));
        }
    }
}

/// The serial of a surface is the one that stands beside it.
pub proof fn law_serials_stand_beside_their_surface(state: StateModel, i: int, surface: Surface)
    requires
        state.distinct(),
        0 <= i < state.surfaces.len(),
    ensures
        state.serial_of(state.surfaces[i].surface) == Some(state.surfaces[i].serial),
        (forall|k: int| 0 <= k < state.surfaces.len() ==> (#[trigger] state.surfaces[k]).surface
            != surface) ==> state.serial_of(surface) is None,
{
    let own = state.surfaces[i].surface;
    assert(state.has_at(own, i));
    let k = choose|k: int| state.has_at(own, k);
    assert(state.surfaces[k].surface == state.surfaces[i].surface);
    if forall|k: int| 0 <= k < state.surfaces.len() ==> (#[trigger] state.surfaces[k]).surface
        != surface {
        assert forall|k: int| !state.has_at(surface, k) by {}
    }
}

/// A handle is the last one exactly if no other handle of the same transaction is alive.
pub proof fn law_last_handles(pending: PendingModel, handle: int, other: int)
    ensures
        pending.is_last(handle) && pending.states.has(other) && other != handle && pending.live[other]
            ==> pending.states.root[other] != pending.states.root[handle],
        !pending.is_last(handle) ==> exists|h: int|
            pending.states.has(h) && h != handle && #[trigger] pending.live[h]
                && pending.states.root[h] == pending.states.root[handle],
{
    if !pending.is_last(handle) {
        let h = choose|h: int|
            pending.states.has(h) && h != handle && #[trigger] pending.live[h]
                && pending.states.joined(h, handle);
        assert(pending.live[h]);
    }
}

/// Handles that are joined share one state, and handles that are not are apart: what is stored
/// through one is found through those that are joined with it and through no other.
pub proof fn law_joined_handles_share_their_state<T>(
    forest: ForestModel<T>,
    a: int,
    b: int,
    state: T,
)
    requires
        forest.well_formed(),
        forest.has(a),
        forest.has(b),
    ensures
        forest.stored(a, state).well_formed(),
        forest.stored(a, state).root == forest.root,
        forest.joined(a, b) ==> forest.stored(a, state).resolve(b) == state,
        forest.joined(a, b) ==> forest.resolve(a) == forest.resolve(b),
        !forest.joined(a, b) ==> forest.stored(a, state).resolve(b) == forest.resolve(b),
{
    assert(forest.state.dom().contains(forest.root[a]));
    assert(forest.state.dom().contains(forest.root[b]));
    let after = forest.stored(a, state);
    assert forall|r: int| #[trigger] after.state.dom().contains(r) <==> 0 <= r < after.root.len()
        && after.root[r] == r by {
        assert(forest.state.dom().contains(r) <==> 0 <= r < forest.root.len() && forest.root[r] == r);
    }
}

/// Linking joins two groups of handles and no others; the group that is linked to keeps its state,
/// and so does every other.
pub proof fn law_linking_joins_two_groups<T>(
    forest: ForestModel<T>,
    from: int,
    into: int,
    a: int,
    b: int,
)
    requires
        forest.well_formed(),
        forest.has(from),
        forest.has(into),
        !forest.joined(from, into),
        forest.has(a),
        forest.has(b),
    ensures
        ({
            let after = forest.linked(from, into);
            let either = |h: int| forest.joined(h, from) || forest.joined(h, into);
            &&& after.root.len() == forest.root.len()
            &&& after.joined(a, b) <==> forest.joined(a, b) || (either(a) && either(b))
            &&& either(a) ==> after.resolve(a) == forest.resolve(into)
            &&& !either(a) ==> after.resolve(a) == forest.resolve(a)
        }),
{
    assert(forest.state.dom().contains(forest.root[from]));
    assert(forest.state.dom().contains(forest.root[into]));
    assert(forest.state.dom().contains(forest.root[a]));
    let after = forest.linked(from, into);
    assert(after.root[a] == if forest.root[a] == forest.root[from] {
        forest.root[into]
    } else {
        forest.root[a]
    });
    assert(after.root[b] == if forest.root[b] == forest.root[from] {
        forest.root[into]
    } else {
        forest.root[b]
    });
}

/// A new handle stands alone with its state, and changes nothing for the others.
pub proof fn law_new_handles_stand_alone<T>(forest: ForestModel<T>, state: T, a: int)
    requires
        forest.well_formed(),
        forest.has(a),
    ensures
        ({
            let after = forest.grown(state);
            let new = forest.root.len() as int;
            &&& after.has(new) && after.has(a)
            &&& after.resolve(new) == state
            &&& after.resolve(a) == forest.resolve(a)
            &&& !after.joined(a, new)
            &&& after.root[a] == forest.root[a]
        }),
{
    assert(forest.state.dom().contains(forest.root[a]));
}

} // verus!
