//! What barriers and transactions promise, in terms of what goes in and what comes out.

use std::collections::{HashMap, HashSet};

use vstd::prelude::*;

use crate::wayland::blocker::{Barrier, BlockerKind, BlockerState, Flags, NotifyKind};
use crate::wayland::surface_barrier::{
    BarrierSurfaceEntry, Barriers, DelayedPeer, SurfaceBarrier, SurfaceBarrierBlocker,
};
use crate::wayland::transaction::{
    DelayedNotification, PendingTransaction, PendingTransactions, Serial, Snapshot, Surface,
    SurfaceCommit, Transaction, TransactionQueue,
};
use crate::wayland::{barrier_laws, surface_barrier, transaction, transaction_laws};

verus! {

/// When a transaction is ready, nothing is due as long as one of the groups of its barriers waits
/// for a live surface that has not been reported and that the transaction does not hold. That
/// surface is still waited for, and still not reported.
pub proof fn law_notify_waits_for_all(
    blocker: &SurfaceBarrierBlocker,
    barriers: &mut Barriers,
    surfaces: &[u64],
    delayed: &[DelayedPeer],
    alive: &HashSet<u64>,
    due: Vec<u64>,
    waiting: u64,
)
    requires
        call_ensures(
            SurfaceBarrierBlocker::notify,
            (blocker, barriers, NotifyKind::Ready, surfaces, delayed, alive),
            due,
        ),
        old(barriers)@.well_formed(),
        old(barriers)@.groups.has(blocker.group()),
        old(barriers)@.knows(delayed@),
        old(barriers)@.group(blocker.group()).surfaces.dom().contains(waiting) || exists|i: int|
            0 <= i < delayed@.len() && (#[trigger] delayed@[i] matches DelayedPeer::Barrier(peer)
                && old(barriers)@.group(peer as int).surfaces.dom().contains(waiting)),
        old(barriers)@.group(blocker.group()).surfaces.dom().contains(waiting) ==> !old(
            barriers
        )@.group(blocker.group()).surfaces[waiting].notified,
        forall|i: int|
            0 <= i < delayed@.len() ==> (#[trigger] delayed@[i] matches DelayedPeer::Barrier(peer)
                ==> (old(barriers)@.group(peer as int).surfaces.dom().contains(waiting) ==> !old(
                barriers
            )@.group(peer as int).surfaces[waiting].notified)),
        alive@.contains(waiting),
        !surfaces@.contains(waiting),
    ensures
        due@.len() == 0,
        final(barriers)@.group(blocker.group()).surfaces.dom().contains(waiting),
        !final(barriers)@.group(blocker.group()).surfaces[waiting].notified,
{
    let m = old(barriers)@;
    let h = blocker.group();
    let pending = surface_barrier::any_foreign_pending(delayed@);
    barrier_laws::law_unreported_surface_defers(
        m,
        h,
        delayed@,
        surfaces@,
        waiting,
        pending,
        alive@,
    );
    barrier_laws::lemma_unreported_stays_unreported(m, h, delayed@, waiting);
    let fused = m.fused_with_all(h, delayed@);
    let group = fused.group(h).marked(surfaces@, pending);
    assert(fused.groups.has(h));
    assert(final(barriers)@.group(h) == group.evaluated(alive@));
    assert(fused.group(h).surfaces.dom().contains(waiting)) by {
        if !m.group(h).surfaces.dom().contains(waiting) {
            let i = choose|i: int|
                0 <= i < delayed@.len() && (#[trigger] delayed@[i] matches DelayedPeer::Barrier(peer)
                    && m.group(peer as int).surfaces.dom().contains(waiting));
            assert(delayed@[i] is Barrier);
        }
    }
}

/// When a transaction is ready, its surfaces are reported to the group of its barriers, with
/// whether something foreign is still in its way. What is due, if anything is, are the notifiers of
/// that group, and then every live surface of it has been reported with nothing in its way.
pub proof fn law_notify_ready(
    blocker: &SurfaceBarrierBlocker,
    barriers: &mut Barriers,
    surfaces: &[u64],
    delayed: &[DelayedPeer],
    alive: &HashSet<u64>,
    due: Vec<u64>,
    s: u64,
)
    requires
        call_ensures(
            SurfaceBarrierBlocker::notify,
            (blocker, barriers, NotifyKind::Ready, surfaces, delayed, alive),
            due,
        ),
        old(barriers)@.well_formed(),
        old(barriers)@.groups.has(blocker.group()),
        old(barriers)@.knows(delayed@),
    ensures
        ({
            let after = final(barriers)@.group(blocker.group());
            &&& surfaces@.contains(s) && after.surfaces.dom().contains(s) ==> {
                &&& after.surfaces[s].notified
                &&& after.surfaces[s].foreign_pending <==> exists|i: int|
                    0 <= i < delayed@.len() && (#[trigger] delayed@[i] matches DelayedPeer::Foreign(
                        state,
                    ) && state is Pending)
            }
            &&& old(barriers)@.group(blocker.group()).surfaces.dom().contains(s)
                ==> after.surfaces.dom().contains(s)
            &&& due@.len() > 0 ==> {
                &&& due@ == after.notifiers
                &&& after.signaled
                &&& after.surfaces.dom().contains(s) && alive@.contains(s) ==> after.surfaces[s]
                    == BarrierSurfaceEntry { notified: true, foreign_pending: false }
            }
            &&& forall|i: int|
                0 <= i < delayed@.len() ==> (#[trigger] delayed@[i] matches DelayedPeer::Barrier(peer)
                    ==> final(barriers)@.groups.joined(peer as int, blocker.group()))
            &&& final(barriers)@.flags == old(barriers)@.flags
        }),
{
    let m = old(barriers)@;
    let h = blocker.group();
    let pending = surface_barrier::any_foreign_pending(delayed@);
    let fused = m.fused_with_all(h, delayed@);
    barrier_laws::lemma_fused_keeps(m, h, delayed@, h, s);
    let group = fused.group(h).marked(surfaces@, pending);
    let after = final(barriers)@.group(h);
    assert(fused.groups.has(h));
    assert(after == group.evaluated(alive@));
    barrier_laws::law_a_report_marks_what_it_names(fused.group(h), surfaces@, pending, s);
    assert(pending <==> exists|i: int|
        0 <= i < delayed@.len() && (#[trigger] delayed@[i] matches DelayedPeer::Foreign(state)
            && state is Pending)) by {
        if pending {
            let i = choose|i: int|
                0 <= i < delayed@.len() && #[trigger] delayed@[i] == DelayedPeer::Foreign(
                    BlockerState::Pending,
                );
            assert(delayed@[i] is Foreign);
        }
    }
    barrier_laws::law_when_notifiers_are_due(group, alive@, s);
}

/// When a transaction is cancelled, exactly its surfaces leave the group of its barriers, and no
/// groups are fused.
pub proof fn law_notify_cancelled(
    blocker: &SurfaceBarrierBlocker,
    barriers: &mut Barriers,
    surfaces: &[u64],
    delayed: &[DelayedPeer],
    alive: &HashSet<u64>,
    due: Vec<u64>,
    s: u64,
)
    requires
        call_ensures(
            SurfaceBarrierBlocker::notify,
            (blocker, barriers, NotifyKind::Cancelled, surfaces, delayed, alive),
            due,
        ),
        old(barriers)@.well_formed(),
        old(barriers)@.groups.has(blocker.group()),
    ensures
        ({
            let before = old(barriers)@.group(blocker.group());
            let after = final(barriers)@.group(blocker.group());
            &&& after.surfaces.dom().contains(s) <==> before.surfaces.dom().contains(s)
                && !surfaces@.contains(s)
            &&& after.surfaces.dom().contains(s) ==> after.surfaces[s] == before.surfaces[s]
            &&& after.members == before.members && after.notifiers == before.notifiers
            &&& due@.len() > 0 ==> due@ == before.notifiers && !before.signaled && after.signaled
            &&& due@.len() > 0 && after.surfaces.dom().contains(s) && alive@.contains(s)
                ==> after.surfaces[s].notified && !after.surfaces[s].foreign_pending
            &&& final(barriers)@.groups.root == old(barriers)@.groups.root
            &&& final(barriers)@.flags == old(barriers)@.flags
        }),
{
    let m = old(barriers)@;
    let h = blocker.group();
    let group = m.group(h).without(surfaces@);
    barrier_laws::law_cancelling_forgets_what_it_names(m.group(h), surfaces@, s);
    barrier_laws::law_when_notifiers_are_due(group, alive@, s);
}

/// Fusing joins two barriers and leaves the entries of their surfaces as they are: a surface of
/// exactly one of the groups is waited for as before. Every barrier of either is a member, and its
/// notifier is told.
pub proof fn law_fuse_keeps_what_is_waited_for(barriers: &mut Barriers, a: usize, b: usize, s: u64)
    requires
        call_ensures(Barriers::fuse, (barriers, a, b), ()),
        old(barriers)@.well_formed(),
        old(barriers)@.groups.has(a as int),
        old(barriers)@.groups.has(b as int),
    ensures
        ({
            let one = old(barriers)@.group(a as int);
            let two = old(barriers)@.group(b as int);
            let both = final(barriers)@.group(a as int);
            &&& final(barriers)@.groups.joined(a as int, b as int)
            &&& both.surfaces.dom().contains(s) <==> one.surfaces.dom().contains(s)
                || two.surfaces.dom().contains(s)
            &&& one.surfaces.dom().contains(s) && !two.surfaces.dom().contains(s)
                ==> both.surfaces[s] == one.surfaces[s]
            &&& !one.surfaces.dom().contains(s) && two.surfaces.dom().contains(s)
                ==> both.surfaces[s] == two.surfaces[s]
            &&& forall|n: u64| #[trigger]
                both.notifiers.contains(n) <==> one.notifiers.contains(n) || two.notifiers.contains(n)
            &&& forall|f: usize| #[trigger]
                both.members.contains(f) <==> one.members.contains(f) || two.members.contains(f)
            &&& !old(barriers)@.groups.joined(a as int, b as int) ==> !both.signaled
            &&& final(barriers)@.flags == old(barriers)@.flags
        }),
{
    surface_barrier::law_fuse(old(barriers)@, a as int, b as int);
    barrier_laws::law_fusing_changes_no_entry(old(barriers)@, a as int, b as int, s);
}

/// Registering makes a barrier's group wait for the given surfaces besides those that it waits for
/// already, and returns those that are new, once each and in order.
pub proof fn law_register_surfaces(
    barrier: &SurfaceBarrier,
    barriers: &mut Barriers,
    surfaces: &[u64],
    fresh: Vec<u64>,
    s: u64,
)
    requires
        call_ensures(SurfaceBarrier::register_surfaces, (barrier, barriers, surfaces), fresh),
        old(barriers)@.well_formed(),
        barrier.lives_in(old(barriers)@),
    ensures
        ({
            let before = old(barriers)@.group(barrier.group());
            let after = final(barriers)@.group(barrier.group());
            &&& fresh@.contains(s) <==> surfaces@.contains(s) && !before.surfaces.dom().contains(s)
            &&& fresh@.no_duplicates()
            &&& after.surfaces.dom().contains(s) <==> before.surfaces.dom().contains(s)
                || surfaces@.contains(s)
            &&& before.surfaces.dom().contains(s) ==> after.surfaces[s] == before.surfaces[s]
            &&& fresh@.contains(s) ==> !after.surfaces[s].notified && !after.surfaces[s].foreign_pending
            &&& fresh@.len() > 0 ==> !after.signaled
            &&& fresh@.len() == 0 ==> after.signaled == before.signaled
            &&& after.members == before.members && after.notifiers == before.notifiers
            &&& forall|i: int, j: int|
                0 <= i < j < fresh@.len() ==> barrier_laws::first_named(
                    surfaces@,
                    #[trigger] fresh@[i],
                ) < barrier_laws::first_named(surfaces@, #[trigger] fresh@[j])
        }),
{
    let m = old(barriers)@;
    let before = m.group(barrier.group());
    barrier_laws::law_registering_adds_unreported_surfaces(before, surfaces@, s);
    barrier_laws::law_newcomers_in_order(before.surfaces.dom(), surfaces@);
    if fresh@.len() > 0 {
        let new = fresh@[0];
        assert(fresh@.contains(new));
        barrier_laws::law_registering_adds_unreported_surfaces(before, surfaces@, new);
    } else {
        assert forall|t: u64| surfaces@.contains(t) implies before.surfaces.dom().contains(t) by {
            if !before.surfaces.dom().contains(t) {
                assert(fresh@.contains(t));
            }
        }
        assert(before.registered(surfaces@).surfaces.dom() =~= before.surfaces.dom());
    }
}

/// Releasing a barrier raises its own flag alone. Its blocker is released exactly when every barrier
/// of its group is, and only then are clients woken: those that have a surface which the group
/// waited for.
pub proof fn law_release(
    barrier: &SurfaceBarrier,
    barriers: &mut Barriers,
    clients: &HashMap<u64, u64>,
    woken: Vec<u64>,
    state: BlockerState,
    client: u64,
)
    requires
        call_ensures(SurfaceBarrier::release, (barrier, barriers, clients), woken),
        old(barriers)@.well_formed(),
        barrier.lives_in(old(barriers)@),
    ensures
        ({
            let before = old(barriers)@.group(barrier.group());
            let after = final(barriers)@.group(barrier.group());
            let last = forall|i: int|
                0 <= i < before.members.len() ==> #[trigger] before.members[i] == barrier.flag()
                    || old(barriers)@.flags[before.members[i] as int];
            &&& final(barriers)@.flags == old(barriers)@.flags.update(barrier.flag(), true)
            &&& after.members == before.members
            &&& last ==> after.surfaces.dom().is_empty()
            &&& !last ==> after.surfaces == before.surfaces && woken@.len() == 0
            &&& woken@.no_duplicates()
            &&& woken@.contains(client) <==> last && exists|s: u64| #[trigger]
                before.surfaces.dom().contains(s) && clients@.contains_key(s) && clients@[s] == client
        }),
{
    let m = old(barriers)@;
    let h = barrier.group();
    let before = m.group(h);
    barrier_laws::law_release_touches_one_barrier(m, h, barrier.flag(), h);
    let last = forall|i: int|
        0 <= i < before.members.len() ==> #[trigger] before.members[i] == barrier.flag()
            || m.flags[before.members[i] as int];
    let after = final(barriers)@.group(h);
    assert(after.members == before.members);
    assert forall|i: int| 0 <= i < before.members.len() implies #[trigger] before.members[i]
        < m.flags.len() by {
        assert(m.groups.state.dom().contains(m.groups.root[h]));
        assert(m.groups.state[m.groups.root[h]].members[i] < m.flags.len());
    }
    surface_barrier::law_last_release_resolves(before, m.flags, barrier.flag());
    if last {
        assert forall|i: int|
            0 <= i < before.members.len() && before.members[i] != barrier.flag() implies m.flags[
        #[trigger] before.members[i] as int] by {
            assert(before.members[i] == barrier.flag() || m.flags[before.members[i] as int]);
        }
        assert(before.all_released(final(barriers)@.flags));
        assert forall|i: int| 0 <= i < after.members.len() implies #[trigger] after.members[i]
            == barrier.flag() || m.flags[after.members[i] as int] by {
            assert(before.members[i] == after.members[i]);
        }
        assert(after.surfaces.dom() =~= Set::<u64>::empty());
    } else {
        let i = choose|i: int|
            0 <= i < before.members.len() && !(#[trigger] before.members[i] == barrier.flag()
                || m.flags[before.members[i] as int]);
        assert(!before.all_released(final(barriers)@.flags));
        assert(after.members[i] != barrier.flag());
        if woken@.len() > 0 {
            assert(woken@.contains(woken@[0]));
        }
    }
}

/// A new barrier has a flag of its own, which is down, and a group of its own that waits for
/// exactly the given surfaces, none of which has been reported. Its notifier is the given one. No
/// other barrier is affected.
pub proof fn law_with_surfaces(
    barriers: &mut Barriers,
    notifier: u64,
    surfaces: &[u64],
    r: (SurfaceBarrier, Vec<u64>),
    s: u64,
    h: int,
)
    requires
        call_ensures(SurfaceBarrier::with_surfaces, (barriers, notifier, surfaces), r),
        old(barriers)@.well_formed(),
        old(barriers)@.groups.has(h),
    ensures
        ({
            let after = final(barriers)@.group(r.0.group());
            &&& !final(barriers)@.flags[r.0.flag()]
            &&& final(barriers)@.flags.drop_last() == old(barriers)@.flags
            &&& after.members == seq![r.0.flag() as usize]
            &&& after.notifiers == seq![notifier]
            &&& !after.signaled
            &&& after.surfaces.dom().contains(s) <==> surfaces@.contains(s)
            &&& surfaces@.contains(s) ==> !after.surfaces[s].notified
            &&& r.1@.contains(s) <==> surfaces@.contains(s)
            &&& r.1@.no_duplicates()
            &&& final(barriers)@.group(h) == old(barriers)@.group(h)
            &&& !final(barriers)@.groups.joined(h, r.0.group())
        }),
{
    let m = old(barriers)@;
    let group = surface_barrier::GroupModel::fresh(r.0.flag() as usize, notifier);
    transaction_laws::law_new_handles_stand_alone(m.groups, group.registered(surfaces@), h);
    barrier_laws::law_registering_adds_unreported_surfaces(group, surfaces@, s);
    assert(final(barriers)@.flags.drop_last() =~= m.flags);
}

/// A barrier's blocker is pending exactly as long as some barrier of its group is not released. It
/// is a delayed blocker; whether a barrier is ready or released is told of its own group and flag.
pub proof fn law_barrier_states(
    blocker: &SurfaceBarrierBlocker,
    barrier: &SurfaceBarrier,
    barriers: &Barriers,
    state: BlockerState,
    kind: BlockerKind,
    ready: bool,
    released: bool,
)
    requires
        call_ensures(SurfaceBarrierBlocker::state, (blocker, barriers), state),
        call_ensures(SurfaceBarrierBlocker::kind, (blocker,), kind),
        call_ensures(SurfaceBarrier::is_ready, (barrier, barriers), ready),
        call_ensures(SurfaceBarrier::is_released, (barrier, barriers), released),
    ensures
        ({
            let members = barriers@.group(blocker.group()).members;
            let down = exists|i: int|
                0 <= i < members.len() && !barriers@.flags[#[trigger] members[i] as int];
            &&& down ==> state is Pending
            &&& !down ==> state is Released
            &&& kind is Delayed
            &&& ready == barriers@.group(barrier.group()).signaled
            &&& released == barriers@.flags[barrier.flag()]
        }),
{
    let group = barriers@.group(blocker.group());
    if exists|i: int|
        0 <= i < group.members.len() && !barriers@.flags[#[trigger] group.members[i] as int] {
        let i = choose|i: int|
            0 <= i < group.members.len() && !barriers@.flags[#[trigger] group.members[i] as int];
        assert(!group.all_released(barriers@.flags));
    } else {
        assert(group.all_released(barriers@.flags));
    }
}

/// A pass over the queue applies, keeps or drops each transaction, once, and in order. What it
/// applies has a live surface and only released blockers; what it keeps is unchanged, but for what
/// it has been announced with. What is announced is what is due of each, in the order of the queue.
pub proof fn law_take_ready(
    queue: &mut TransactionQueue,
    world: &Snapshot,
    r: (Vec<Transaction>, Vec<DelayedNotification>),
    i: int,
)
    requires
        call_ensures(TransactionQueue::take_ready, (queue, world), r),
        0 <= i < old(queue)@.len(),
    ensures
        ({
            let before = old(queue)@;
            let applied = transaction::chosen(before, true, world@);
            let kept = transaction::chosen(before, false, world@);
            let verdict = transaction::verdict_at(before, i, world@);
            &&& verdict is Apply <==> applied.contains(i)
            &&& verdict is Wait || verdict is Delayed <==> kept.contains(i)
            &&& r.0@.len() == applied.len() && final(queue)@.len() == kept.len()
            &&& forall|k: int| 0 <= k < applied.len() ==> (#[trigger] r.0@[k])@ == before[applied[k]]
            &&& forall|k: int|
                0 <= k < kept.len() ==> {
                    &&& (#[trigger] final(queue)@[k]).surfaces == before[kept[k]].surfaces
                    &&& final(queue)@[k].blockers == before[kept[k]].blockers
                }
            &&& forall|a: int, b: int|
                0 <= a < b < applied.len() ==> #[trigger] applied[a] < #[trigger] applied[b]
            &&& forall|a: int, b: int|
                0 <= a < b < kept.len() ==> #[trigger] kept[a] < #[trigger] kept[b]
            &&& verdict is Apply ==> forall|b: int|
                0 <= b < before[i].blockers.len()
                    ==> world@.blockers[#[trigger] before[i].blockers[b] as int].state is Released
            &&& verdict is Apply ==> before[i].any_alive(world@)
            &&& transaction::views(r.1@) == transaction::notices(before, before.len() as int, world@)
        }),
{
    let before = old(queue)@;
    transaction::law_notifications_follow_a_schedule(
        before,
        transaction::TransactionModel { blockers: Seq::empty(), ..before[i] },
        world@,
        world@,
    );
    transaction::law_each_transaction_once(before, world@);
    let applied = transaction::chosen(before, true, world@);
    let kept = transaction::chosen(before, false, world@);
    let pass = transaction::pass_over(before, world@);
    assert(transaction::transactions(r.0@) == pass.ready);
    assert(transaction::transactions(r.0@).len() == r.0@.len());
    assert(r.0@.len() == applied.len());
    assert forall|k: int| 0 <= k < applied.len() implies (#[trigger] r.0@[k])@ == before[applied[k]] by {
        assert(transaction::transactions(r.0@)[k] == r.0@[k]@);
        assert(pass.ready[k] == before[applied[k]]);
    }
    if transaction::verdict_at(before, i, world@) is Apply {
        transaction_laws::law_why_a_transaction_waits(
            before[i],
            transaction::pass_over(before.take(i), world@).seen,
            world@,
        );
        transaction_laws::law_state_is_that_of_the_blockers(before[i], None, world@);
        assert forall|b: int| 0 <= b < before[i].blockers.len() implies world@.blockers[
        #[trigger] before[i].blockers[b] as int].state is Released by {
            transaction::law_applied_means_released(before, i, b, world@);
        }
    }
}

/// The commits of a transaction are applied in their order, leaving out those of surfaces that are
/// gone by then.
pub proof fn law_next_to_apply(
    t: &Transaction,
    from: usize,
    alive: &HashSet<u64>,
    next: Option<(usize, SurfaceCommit)>,
    k: int,
)
    requires
        call_ensures(Transaction::next_to_apply, (t, from, alive), next),
        from <= k < t@.surfaces.len(),
        alive@.contains(t@.surfaces[k].surface.object),
    ensures
        next matches Some((i, commit)) && {
            &&& from <= i <= k
            &&& commit == t@.surfaces[i as int]
            &&& alive@.contains(commit.surface.object)
        },
{
    if next is None {
        assert(!alive@.contains(t@.surfaces[k].surface.object));
    } else {
        let i = (next->0).0;
        if k < i {
            assert(!alive@.contains(t@.surfaces[k].surface.object));
        }
    }
}

/// A commit that is put into a transaction is found there afterwards, with the later of its serials,
/// by every handle of the transaction; nothing else changes.
pub proof fn law_insert_state(
    handle: &PendingTransaction,
    pending: &mut PendingTransactions,
    surface: Surface,
    id: Serial,
    other: Surface,
    h: int,
)
    requires
        call_ensures(PendingTransaction::insert_state, (handle, pending, surface, id), ()),
        old(pending)@.well_formed(),
        handle.lives_in(old(pending)@),
        old(pending)@.states.has(h),
    ensures
        ({
            let before = old(pending)@.state(handle.handle());
            let after = final(pending)@.state(handle.handle());
            &&& after.serial_of(surface) matches Some(serial) && (match before.serial_of(surface) {
                Some(known) => serial == known.later(id),
                None => serial == id,
            })
            &&& other != surface ==> after.serial_of(other) == before.serial_of(other)
            &&& after.blockers == before.blockers
            &&& old(pending)@.states.joined(h, handle.handle()) ==> final(pending)@.state(h) == after
            &&& !old(pending)@.states.joined(h, handle.handle()) ==> final(pending)@.state(h) == old(
                pending
            )@.state(h)
            &&& final(pending)@.live == old(pending)@.live
        }),
{
    let m = old(pending)@;
    let a = handle.handle();
    let before = m.state(a);
    let commit = SurfaceCommit { surface, serial: id };
    assert(m.states.state.dom().contains(m.states.root[a]));
    transaction::law_record(before, commit, surface);
    transaction::law_record(before, commit, other);
    transaction_laws::law_joined_handles_share_their_state(m.states, a, h, before.recorded(commit));
    transaction_laws::law_joined_handles_share_their_state(m.states, a, a, before.recorded(commit));
}

/// A blocker that is added to a transaction is its last one; the surfaces and all other transactions
/// stay.
pub proof fn law_add_blocker(
    handle: &PendingTransaction,
    pending: &mut PendingTransactions,
    blocker: usize,
    h: int,
)
    requires
        call_ensures(PendingTransaction::add_blocker, (handle, pending, blocker), ()),
        old(pending)@.well_formed(),
        handle.lives_in(old(pending)@),
        old(pending)@.states.has(h),
    ensures
        ({
            let before = old(pending)@.state(handle.handle());
            let after = final(pending)@.state(handle.handle());
            &&& after.blockers == before.blockers.push(blocker)
            &&& after.surfaces == before.surfaces
            &&& !old(pending)@.states.joined(h, handle.handle()) ==> final(pending)@.state(h) == old(
                pending
            )@.state(h)
            &&& final(pending)@.live == old(pending)@.live
        }),
{
    let m = old(pending)@;
    let a = handle.handle();
    let state = final(pending)@.state(a);
    let before = m.state(a);
    let stored = crate::wayland::transaction::StateModel {
        blockers: before.blockers.push(blocker),
        ..before
    };
    transaction_laws::law_joined_handles_share_their_state(m.states, a, h, stored);
    transaction_laws::law_joined_handles_share_their_state(m.states, a, a, stored);
}

/// Merging makes two transactions one: it has the blockers of both, and for every surface that is
/// alive the later of the two commits.
pub proof fn law_merge_into(
    from: &PendingTransaction,
    into: &PendingTransaction,
    pending: &mut PendingTransactions,
    alive: &HashSet<u64>,
    s: Surface,
)
    requires
        call_ensures(PendingTransaction::merge_into, (from, into, pending, alive), ()),
        old(pending)@.well_formed(),
        from.lives_in(old(pending)@),
        into.lives_in(old(pending)@),
        !old(pending)@.states.joined(from.handle(), into.handle()),
    ensures
        ({
            let one = old(pending)@.state(into.handle());
            let two = old(pending)@.state(from.handle());
            let both = final(pending)@.state(into.handle());
            &&& final(pending)@.states.joined(from.handle(), into.handle())
            &&& both.blockers == one.blockers + two.blockers
            &&& alive@.contains(s.object) ==> both.serial_of(s) == (match (
                one.serial_of(s),
                two.serial_of(s),
            ) {
                (Some(a), Some(b)) => Some(a.later(b)),
                (Some(a), None) => Some(a),
                (None, b) => b,
            })
            &&& !alive@.contains(s.object) ==> both.serial_of(s) == one.serial_of(s)
        }),
{
    transaction::law_merge(old(pending)@, from.handle(), into.handle(), alive@);
}

/// A finalized transaction has the surfaces and the blockers that were recorded through its handles,
/// and has not been announced.
pub proof fn law_finalize(
    handle: PendingTransaction,
    pending: &mut PendingTransactions,
    t: Transaction,
)
    requires
        call_ensures(PendingTransaction::finalize, (handle, pending), t),
    ensures
        t@.surfaces == old(pending)@.state(handle.handle()).surfaces,
        t@.blockers == old(pending)@.state(handle.handle()).blockers,
        t@.last_pending_delayed is None,
        !final(pending)@.live[handle.handle()] || !(0 <= handle.handle() < old(
            pending
        )@.live.len()),
{
}

/// A transaction that is appended is the last of the queue.
pub proof fn law_append(queue: &mut TransactionQueue, t: Transaction, empty: bool)
    requires
        call_ensures(TransactionQueue::append, (queue, t), ()),
    ensures
        final(queue)@.len() == old(queue)@.len() + 1,
        final(queue)@.last() == t@,
        old(queue)@.is_prefix_of(final(queue)@),
{
}

/// A new transaction is empty and stands alone; its one handle is the last. A handle that is
/// discarded is not alive any more, and changes nothing else.
pub proof fn law_handles(
    pending: &mut PendingTransactions,
    handle: PendingTransaction,
    discarded: PendingTransaction,
    left: &mut PendingTransactions,
    h: int,
)
    requires
        call_ensures(PendingTransaction::new, (pending,), handle),
        call_ensures(PendingTransaction::discard, (discarded, left), ()),
        old(pending)@.well_formed(),
        old(pending)@.states.has(h),
    ensures
        final(pending)@.state(handle.handle()).surfaces.len() == 0,
        final(pending)@.state(handle.handle()).blockers.len() == 0,
        !final(pending)@.states.joined(h, handle.handle()),
        final(pending)@.state(h) == old(pending)@.state(h),
        final(pending)@.live == old(pending)@.live.push(true),
        final(left)@.states == old(left)@.states,
        final(left)@.live == old(left)@.live.update(discarded.handle(), false),
{
    transaction_laws::law_new_handles_stand_alone(
        old(pending)@.states,
        transaction::StateModel::empty(),
        h,
    );
}

/// Whether handles belong together, and whether one is the last of its transaction, is told of all
/// handles that are alive.
pub proof fn law_handles_belong_together(
    a: &PendingTransaction,
    b: &PendingTransaction,
    pending: &PendingTransactions,
    same: bool,
    last: bool,
)
    requires
        call_ensures(PendingTransaction::is_same_as, (a, b, pending), same),
        call_ensures(PendingTransaction::is_last_handle, (a, pending), last),
        b.lives_in(pending@),
    ensures
        same <==> pending@.states.root[a.handle()] == pending@.states.root[b.handle()],
        last && a.handle() != b.handle() ==> !same,
        !last ==> exists|h: int|
            pending@.states.has(h) && h != a.handle() && #[trigger] pending@.live[h]
                && pending@.states.root[h] == pending@.states.root[a.handle()],
{
    transaction_laws::law_last_handles(pending@, a.handle(), b.handle());
}

/// The state of a transaction is that of its blockers of the kind, as long as it has a live surface.
pub proof fn law_transaction_states(
    t: &Transaction,
    kind: Option<BlockerKind>,
    world: &Snapshot,
    state: BlockerState,
    i: int,
)
    requires
        call_ensures(Transaction::state, (t, kind, world), state),
        0 <= i < t@.blockers.len(),
        kind is None || kind == Some(world@.blockers[t@.blockers[i] as int].kind),
    ensures
        state is Released ==> world@.blockers[t@.blockers[i] as int].state is Released,
        world@.blockers[t@.blockers[i] as int].state is Cancelled ==> state is Cancelled,
        world@.blockers[t@.blockers[i] as int].state is Pending ==> !(state is Released),
        (forall|k: int|
            0 <= k < t@.surfaces.len() ==> !world@.alive.contains(
                (#[trigger] t@.surfaces[k]).surface.object,
            )) ==> state is Cancelled,
        (forall|k: int|
            0 <= k < t@.blockers.len() ==> world@.blockers[#[trigger] t@.blockers[k] as int].state
                is Released) && (exists|k: int|
            0 <= k < t@.surfaces.len() && world@.alive.contains(
                (#[trigger] t@.surfaces[k]).surface.object,
            )) ==> state is Released,
{
    transaction_laws::law_state_is_that_of_the_blockers(t@, kind, world@);
    let b = t@.blockers[i];
    assert(world@.counts(b, kind));
    if world@.blockers[b as int].state is Cancelled {
        assert(world@.is_in(b, BlockerState::Cancelled));
        assert(t@.any_blocker(kind, BlockerState::Cancelled, world@));
    }
    if world@.blockers[b as int].state is Pending {
        assert(world@.is_in(b, BlockerState::Pending));
        assert(t@.any_blocker(kind, BlockerState::Pending, world@));
    }
}

/// Serials are compared as they are counted, past the end of the numbers.
pub proof fn law_compared_serials(a: &Serial, steps: u32, ahead: bool, back: bool)
    requires
        0 < steps < 0x7fff_ffff,
        call_ensures(
            Serial::is_before,
            (a, &Serial(((a.0 + steps) % 0x1_0000_0000) as u32)),
            ahead,
        ),
        call_ensures(
            Serial::is_before,
            (&Serial(((a.0 + steps) % 0x1_0000_0000) as u32), a),
            back,
        ),
    ensures
        ahead,
        !back,
{
    transaction_laws::law_serials_count_on(*a, steps);
}

/// Looking whether a group is ready notifies its notifiers once, and only if every live surface has
/// been reported; it changes nothing else.
pub proof fn law_maybe_signal(
    barriers: &mut Barriers,
    handle: usize,
    alive: &HashSet<u64>,
    due: Vec<u64>,
    s: u64,
)
    requires
        call_ensures(Barriers::maybe_signal, (barriers, handle, alive), due),
        old(barriers)@.well_formed(),
        old(barriers)@.groups.has(handle as int),
    ensures
        ({
            let before = old(barriers)@.group(handle as int);
            let after = final(barriers)@.group(handle as int);
            &&& due@.len() > 0 ==> due@ == before.notifiers && !before.signaled && after.signaled
            &&& before.signaled ==> due@.len() == 0 && after == before
            &&& alive@.contains(s) && before.surfaces.dom().contains(s) && !(before.surfaces[s].notified
                && !before.surfaces[s].foreign_pending) ==> due@.len() == 0 && after == before
            &&& after.surfaces == before.surfaces && after.members == before.members
            &&& final(barriers)@.flags == old(barriers)@.flags
        }),
{
    let before = old(barriers)@.group(handle as int);
    barrier_laws::law_when_notifiers_are_due(before, alive@, s);
}

/// A plain barrier blocks until it is signaled, and from then on no more. Signaling one signals no
/// other.
pub proof fn law_plain_barriers(
    flags: &mut Flags,
    signaled: bool,
    barrier: Barrier,
    raised: &mut Flags,
    other: &Barrier,
    after: Flags,
    state: BlockerState,
    up: bool,
)
    requires
        call_ensures(Barrier::new, (flags, signaled), barrier),
        call_ensures(Barrier::signal, (&barrier, raised), ()),
        barrier.lives_in(old(raised)@),
        after == *final(raised),
        call_ensures(Barrier::state, (other, &after), state),
        call_ensures(Barrier::is_signaled, (other, &after), up),
        other.lives_in(after@),
    ensures
        final(flags)@.last() == signaled,
        barrier.slot() == old(flags)@.len(),
        other.slot() == barrier.slot() ==> up && state is Released,
        other.slot() != barrier.slot() ==> up == old(raised)@[other.slot()],
        up <==> state is Released,
        !up <==> state is Pending,
{
}

} // verus!
