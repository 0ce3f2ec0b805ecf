//! How surface barriers hold transactions back, and let them through together.

use vstd::prelude::*;

use crate::wayland::blocker::{BlockerKind, BlockerState};
use crate::wayland::surface_barrier::{BarriersModel, DelayedPeer, SurfaceBarrier};
use crate::wayland::transaction::{BlockerInfo, SnapshotModel, TransactionModel};
use crate::wayland::{surface_barrier, transaction};

verus! {

/// Whether a snapshot tells the states of the blockers that surface barriers have placed.
/// `placed` gives the handle of the group for each of them.
pub open spec fn reflects(world: SnapshotModel, m: BarriersModel, placed: Map<usize, usize>) -> bool {
    forall|b: usize| #[trigger]
        placed.dom().contains(b) ==> {
            &&& b < world.blockers.len()
            &&& m.groups.has(placed[b] as int)
            &&& world.blockers[b as int] == BlockerInfo {
                kind: BlockerKind::Delayed,
                state: if m.group(placed[b] as int).all_released(m.flags) {
                    BlockerState::Released
                } else {
                    BlockerState::Pending
                },
            }
        }
}

/// The delayed blockers of a transaction, as they are presented to the blocker of a barrier.
pub open spec fn peers_of(
    t: TransactionModel,
    world: SnapshotModel,
    placed: Map<usize, usize>,
) -> Seq<DelayedPeer> {
    t.delayed(world).map_values(
        |b: usize|
            if placed.dom().contains(b) {
                DelayedPeer::Barrier(placed[b])
            } else {
                DelayedPeer::Foreign(world.blockers[b as int].state)
            },
    )
}

proof fn lemma_fused_joins(m: BarriersModel, handle: int, peers: Seq<DelayedPeer>)
    requires
        m.well_formed(),
        m.groups.has(handle),
        m.knows(peers),
    ensures
        m.fused_with_all(handle, peers).well_formed(),
        m.fused_with_all(handle, peers).groups.root.len() == m.groups.root.len(),
        forall|i: int|
            0 <= i < peers.len() ==> (#[trigger] peers[i] matches DelayedPeer::Barrier(peer)
                ==> m.fused_with_all(handle, peers).groups.joined(peer as int, handle)),
    decreases peers.len(),
{
    if peers.len() > 0 {
        let rest = peers.drop_last();
        assert forall|i: int| 0 <= i < rest.len() implies (#[trigger] rest[i] matches DelayedPeer::Barrier(
            peer,
        ) ==> m.groups.has(peer as int)) by {
            assert(rest[i] == peers[i]);
        }
        lemma_fused_joins(m, handle, rest);
        let before = m.fused_with_all(handle, rest);
        let after = m.fused_with_all(handle, peers);
        assert(peers.last() == peers[peers.len() - 1]);
        if let DelayedPeer::Barrier(last) = peers.last() {
            surface_barrier::law_fuse(before, handle, last as int);
            assert(after == before.fused(handle, last as int));
        }
        assert forall|i: int| 0 <= i < peers.len() implies (#[trigger] peers[i] matches DelayedPeer::Barrier(
            peer,
        ) ==> after.groups.joined(peer as int, handle)) by {
            if i < rest.len() {
                assert(rest[i] == peers[i]);
            }
        }
    }
}

/// A transaction whose delayed blockers are notified, none of them foreign and pending, only
/// waits for one group of barriers: those that have placed a blocker on it are fused.
pub proof fn law_notified_transaction_waits_for_one_group(
    t: TransactionModel,
    handle: int,
    b: usize,
    world: SnapshotModel,
    m: BarriersModel,
    placed: Map<usize, usize>,
)
    requires
        m.well_formed(),
        m.groups.has(handle),
        t.known_in(world),
        reflects(world, m, placed),
        t.state(Some(BlockerKind::Immediate), world) == BlockerState::Released,
        !surface_barrier::any_foreign_pending(peers_of(t, world, placed)),
        t.blockers.contains(b),
        world.is_in(b, BlockerState::Pending),
    ensures
        placed.dom().contains(b),
        m.fused_with_all(handle, peers_of(t, world, placed)).groups.joined(placed[b] as int, handle),
{
    let delayed = t.delayed(world);
    let peers = peers_of(t, world, placed);
    let k = choose|k: int| 0 <= k < t.blockers.len() && t.blockers[k] == b;
    if !world.is_delayed(b) {
        assert(world.counts(t.blockers[k], Some(BlockerKind::Immediate)));
        assert(t.any_blocker(Some(BlockerKind::Immediate), BlockerState::Pending, world));
        assert(false);
    }
    let is_delayed = |b: usize| world.is_delayed(b);
    assert(t.blockers.filter(is_delayed).contains(b));
    let i = choose|i: int| 0 <= i < delayed.len() && delayed[i] == b;
    if !placed.dom().contains(b) {
        assert(peers[i] == DelayedPeer::Foreign(BlockerState::Pending));
        assert(false);
    }
    assert(peers[i] == DelayedPeer::Barrier(placed[b]));
    assert forall|j: int| 0 <= j < peers.len() implies (#[trigger] peers[j] matches DelayedPeer::Barrier(
        peer,
    ) ==> m.groups.has(peer as int)) by {
        if placed.dom().contains(delayed[j]) {
            assert(peers[j] == DelayedPeer::Barrier(placed[delayed[j]]));
        }
    }
    lemma_fused_joins(m, handle, peers);
}

/// As long as a barrier of a group is not released, no transaction is applied that a barrier of
/// the group has placed a blocker on.
pub proof fn law_group_is_atomic(
    queue: Seq<TransactionModel>,
    i: int,
    b: usize,
    barrier: SurfaceBarrier,
    world: SnapshotModel,
    m: BarriersModel,
    placed: Map<usize, usize>,
)
    requires
        m.well_formed(),
        barrier.lives_in(m),
        !m.flags[barrier.flag()],
        reflects(world, m, placed),
        0 <= i < queue.len(),
        queue[i].blockers.contains(b),
        placed.dom().contains(b),
        m.groups.joined(placed[b] as int, barrier.group()),
    ensures
        !(transaction::verdict_at(queue, i, world) is Apply),
{
    let members = m.group(barrier.group()).members;
    let j = choose|j: int| 0 <= j < members.len() && members[j] == barrier.flag() as usize;
    assert(!m.flags[members[j] as int]);
    assert(!m.group(placed[b] as int).all_released(m.flags));
    let k = choose|k: int| 0 <= k < queue[i].blockers.len() && queue[i].blockers[k] == b;
    if transaction::verdict_at(queue, i, world) is Apply {
        transaction::law_applied_means_released(queue, i, k, world);
        assert(world.is_in(b, BlockerState::Released));
    }
}

/// Releasing a barrier keeps the released groups released, and releases its own group if it was
/// the last one.
proof fn lemma_released_stay_released(m: BarriersModel, after: BarriersModel, barrier: SurfaceBarrier)
    requires
        m.well_formed(),
        barrier.lives_in(m),
        after == m.released(barrier.group(), barrier.flag()),
    ensures
        forall|h: int| #[trigger]
            m.groups.has(h) && m.group(h).all_released(m.flags) ==> after.group(h).all_released(
                after.flags,
            ),
        forall|h: int| #[trigger]
            m.groups.has(h) && m.groups.joined(h, barrier.group()) && m.group(
                barrier.group(),
            ).all_released(after.flags) ==> after.group(h).all_released(after.flags),
{
    assert forall|h: int| #[trigger]
        m.groups.has(h) && m.group(h).all_released(m.flags) implies after.group(h).all_released(
        after.flags,
    ) by {
        let members = m.group(h).members;
        assert(after.group(h).members == members);
        assert forall|k: int| 0 <= k < members.len() implies after.flags[#[trigger] members[k] as int] by {
            assert(m.flags[members[k] as int]);
            assert(m.groups.state.dom().contains(m.groups.root[h]));
            assert(m.groups.state[m.groups.root[h]].members[k] < m.flags.len());
        }
    }
}

/// The last release of a group applies every transaction that only waits for the group, with the
/// next pass over the queue.
pub proof fn law_last_release_applies(
    queue: Seq<TransactionModel>,
    i: int,
    barrier: SurfaceBarrier,
    world: SnapshotModel,
    later: SnapshotModel,
    m: BarriersModel,
    placed: Map<usize, usize>,
)
    requires
        m.well_formed(),
        barrier.lives_in(m),
        m.group(barrier.group()).all_released(m.flags.update(barrier.flag(), true)),
        reflects(world, m, placed),
        reflects(later, m.released(barrier.group(), barrier.flag()), placed),
        later.alive == world.alive,
        later.blockers.len() == world.blockers.len() <= usize::MAX,
        forall|b: usize|
            b < world.blockers.len() && !placed.dom().contains(b) ==> #[trigger] later.blockers[b as int]
                == world.blockers[b as int],
        0 <= i < queue.len(),
        forall|k: int| 0 <= k < queue.len() ==> #[trigger] queue[k].known_in(world),
        transaction::verdict_at(queue, i, world) is Delayed,
        forall|b: usize| #[trigger]
            queue[i].blockers.contains(b) && world.is_in(b, BlockerState::Pending)
                ==> placed.dom().contains(b) && m.groups.joined(placed[b] as int, barrier.group()),
    ensures
        transaction::verdict_at(queue, i, later) is Apply,
{
    let t = queue[i];
    let after = m.released(barrier.group(), barrier.flag());
    lemma_released_stay_released(m, after, barrier);
    assert forall|b: int|
        #![trigger later.blockers[b]]
        0 <= b < world.blockers.len() implies later.blockers[b].kind == world.blockers[b].kind && (
    world.blockers[b].state == BlockerState::Pending || later.blockers[b].state
        == world.blockers[b].state) by {
        let n = b as usize;
        if placed.dom().contains(n) {
            assert(m.groups.has(placed[n] as int));
        } else {
            assert(later.blockers[n as int] == world.blockers[n as int]);
        }
    }
    assert(world.is_followed_by(later));
    assert forall|k: int| 0 <= k < t.blockers.len() implies later.is_in(
        #[trigger] t.blockers[k],
        BlockerState::Released,
    ) by {
        let b = t.blockers[k];
        assert(t.blockers.contains(b));
        assert(t.known_in(world));
        assert(world.counts(t.blockers[k], None));
        assert(!t.any_blocker(None, BlockerState::Cancelled, world));
        if world.is_in(b, BlockerState::Pending) {
            assert(after.group(placed[b] as int).all_released(after.flags));
        } else {
            assert(world.is_in(b, BlockerState::Released));
            assert(later.blockers[b as int].state == BlockerState::Released);
        }
    }
    transaction::law_released_transaction_is_applied(queue, i, world, later);
}

} // verus!
