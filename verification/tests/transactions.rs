//! Transactions of surfaces, and what they wait for.

use std::collections::{HashMap, HashSet};

use smithay::wayland::blocker::{Barrier, BlockerKind, BlockerState, Flags, NotifyKind};
use smithay::wayland::surface_barrier::{Barriers, DelayedPeer, SurfaceBarrier};
use smithay::wayland::transaction::{
    BlockerInfo, PendingTransaction, PendingTransactions, Serial, Snapshot, Surface,
    TransactionQueue,
};

fn surface(object: u64) -> Surface {
    Surface { object, protocol_id: object as u32 + 100 }
}

fn everyone() -> HashSet<u64> {
    (0..100).collect()
}

fn world(states: &[(BlockerKind, BlockerState)]) -> Snapshot {
    Snapshot {
        alive: everyone(),
        blockers: states.iter().map(|&(kind, state)| BlockerInfo { kind, state }).collect(),
    }
}

const IMMEDIATE: BlockerKind = BlockerKind::Immediate;
const DELAYED: BlockerKind = BlockerKind::Delayed;
const PENDING: BlockerState = BlockerState::Pending;
const RELEASED: BlockerState = BlockerState::Released;
const CANCELLED: BlockerState = BlockerState::Cancelled;

#[test]
fn barriers_stay_signaled() {
    let mut flags = Flags::new();
    let first = Barrier::new(&mut flags, false);
    let second = Barrier::new(&mut flags, true);
    assert!(!first.is_signaled(&flags));
    assert!(second.is_signaled(&flags));
    assert_eq!(first.state(&flags), PENDING);
    assert_eq!(second.state(&flags), RELEASED);
    assert_eq!(first.kind(), IMMEDIATE);
    first.signal(&mut flags);
    first.signal(&mut flags);
    assert!(first.is_signaled(&flags));
    assert_eq!(first.state(&flags), RELEASED);
}

#[test]
fn serials_wrap_around() {
    assert!(Serial(1).is_before(&Serial(2)));
    assert!(!Serial(2).is_before(&Serial(1)));
    assert!(Serial(u32::MAX).is_before(&Serial(1)));
    assert!(!Serial(1).is_before(&Serial(u32::MAX)));
    assert!(!Serial(5).is_before(&Serial(5)));
}

#[test]
fn transactions_without_blockers_are_applied_in_order() {
    let mut pending = PendingTransactions::new();
    let mut queue = TransactionQueue::new();
    for serial in 1..=2 {
        let handle = PendingTransaction::new(&mut pending);
        handle.insert_state(&mut pending, surface(1), Serial(serial));
        assert!(handle.is_last_handle(&pending));
        queue.append(handle.finalize(&mut pending));
    }
    let (ready, notifications) = queue.take_ready(&world(&[]));
    assert_eq!(ready.len(), 2);
    assert!(notifications.is_empty());
    let serials: Vec<Serial> = ready
        .iter()
        .map(|t| t.next_to_apply(0, &everyone()).unwrap().1.serial)
        .collect();
    assert_eq!(serials, vec![Serial(1), Serial(2)]);
    let (again, _) = queue.take_ready(&world(&[]));
    assert!(again.is_empty());
}

#[test]
fn blocked_transactions_hold_back_their_surfaces() {
    let mut pending = PendingTransactions::new();
    let mut queue = TransactionQueue::new();
    let blocked = PendingTransaction::new(&mut pending);
    blocked.insert_state(&mut pending, surface(1), Serial(1));
    blocked.add_blocker(&mut pending, 0);
    queue.append(blocked.finalize(&mut pending));
    let later = PendingTransaction::new(&mut pending);
    later.insert_state(&mut pending, surface(1), Serial(2));
    queue.append(later.finalize(&mut pending));
    let other = PendingTransaction::new(&mut pending);
    other.insert_state(&mut pending, surface(2), Serial(1));
    queue.append(other.finalize(&mut pending));

    // Only the transaction on the other surface goes ahead.
    let (ready, _) = queue.take_ready(&world(&[(IMMEDIATE, PENDING)]));
    assert_eq!(ready.len(), 1);
    assert_eq!(ready[0].next_to_apply(0, &everyone()).unwrap().1.surface, surface(2));
    let (ready, _) = queue.take_ready(&world(&[(IMMEDIATE, RELEASED)]));
    assert_eq!(ready.len(), 2);
    assert_eq!(ready[0].next_to_apply(0, &everyone()).unwrap().1.serial, Serial(1));
}

#[test]
fn cancelled_blockers_drop_the_transaction() {
    let mut pending = PendingTransactions::new();
    let mut queue = TransactionQueue::new();
    let handle = PendingTransaction::new(&mut pending);
    handle.insert_state(&mut pending, surface(1), Serial(1));
    handle.add_blocker(&mut pending, 0);
    handle.add_blocker(&mut pending, 1);
    let transaction = handle.finalize(&mut pending);
    let states = [(IMMEDIATE, PENDING), (DELAYED, CANCELLED)];
    assert_eq!(transaction.state(None, &world(&states)), CANCELLED);
    assert_eq!(transaction.state(Some(IMMEDIATE), &world(&states)), PENDING);
    queue.append(transaction);
    // The delayed blockers only count once the immediate ones are cleared.
    let (ready, notifications) = queue.take_ready(&world(&states));
    assert!(ready.is_empty() && notifications.is_empty());
    let states = [(IMMEDIATE, RELEASED), (DELAYED, CANCELLED)];
    let (ready, notifications) = queue.take_ready(&world(&states));
    assert!(ready.is_empty());
    assert_eq!(notifications.len(), 1);
    assert_eq!(notifications[0].kind, NotifyKind::Cancelled);
    assert_eq!(notifications[0].surfaces, vec![surface(1)]);
    assert_eq!(notifications[0].delayed, vec![1]);
    let (ready, notifications) = queue.take_ready(&world(&[(IMMEDIATE, RELEASED), (DELAYED, RELEASED)]));
    assert!(ready.is_empty() && notifications.is_empty());
}

#[test]
fn delayed_blockers_are_notified_once() {
    let mut pending = PendingTransactions::new();
    let mut queue = TransactionQueue::new();
    let handle = PendingTransaction::new(&mut pending);
    handle.insert_state(&mut pending, surface(1), Serial(1));
    for blocker in 0..3 {
        handle.add_blocker(&mut pending, blocker);
    }
    queue.append(handle.finalize(&mut pending));
    // As long as the immediate blocker is pending, the delayed ones are not told.
    let (_, notifications) =
        queue.take_ready(&world(&[(IMMEDIATE, PENDING), (DELAYED, PENDING), (DELAYED, PENDING)]));
    assert!(notifications.is_empty());
    let waiting = world(&[(IMMEDIATE, RELEASED), (DELAYED, PENDING), (DELAYED, PENDING)]);
    let (ready, notifications) = queue.take_ready(&waiting);
    assert!(ready.is_empty());
    assert_eq!(notifications.len(), 1);
    assert_eq!(notifications[0].kind, NotifyKind::Ready);
    assert_eq!(notifications[0].delayed, vec![1, 2]);
    let (_, notifications) = queue.take_ready(&waiting);
    assert!(notifications.is_empty());
    // One of them is released: the situation has changed.
    let (_, notifications) =
        queue.take_ready(&world(&[(IMMEDIATE, RELEASED), (DELAYED, RELEASED), (DELAYED, PENDING)]));
    assert_eq!(notifications.len(), 1);
    let (ready, _) =
        queue.take_ready(&world(&[(IMMEDIATE, RELEASED), (DELAYED, RELEASED), (DELAYED, RELEASED)]));
    assert_eq!(ready.len(), 1);
}

#[test]
fn merged_transactions_are_one() {
    let mut pending = PendingTransactions::new();
    let parent = PendingTransaction::new(&mut pending);
    let child = PendingTransaction::new(&mut pending);
    parent.insert_state(&mut pending, surface(1), Serial(5));
    child.insert_state(&mut pending, surface(2), Serial(7));
    child.insert_state(&mut pending, surface(1), Serial(6));
    child.add_blocker(&mut pending, 3);
    assert!(!child.is_same_as(&parent, &pending));
    child.merge_into(&parent, &mut pending, &everyone());
    assert!(child.is_same_as(&parent, &pending));
    assert!(!parent.is_last_handle(&pending));
    child.discard(&mut pending);
    assert!(parent.is_last_handle(&pending));
    let transaction = parent.finalize(&mut pending);
    let (i, first) = transaction.next_to_apply(0, &everyone()).unwrap();
    assert_eq!((i, first.surface, first.serial), (0, surface(1), Serial(6)));
    let (_, second) = transaction.next_to_apply(1, &everyone()).unwrap();
    assert_eq!((second.surface, second.serial), (surface(2), Serial(7)));
    assert!(transaction.next_to_apply(2, &everyone()).is_none());
    // Dead surfaces are passed over.
    let alive: HashSet<u64> = [2].into_iter().collect();
    assert_eq!(transaction.next_to_apply(0, &alive).unwrap().1.surface, surface(2));
}

#[test]
fn merging_keeps_the_order() {
    let mut pending = PendingTransactions::new();
    let parent = PendingTransaction::new(&mut pending);
    let child = PendingTransaction::new(&mut pending);
    for id in [3, 1] {
        parent.insert_state(&mut pending, surface(id), Serial(1));
    }
    for id in [4, 3, 5, 2] {
        child.insert_state(&mut pending, surface(id), Serial(2));
    }
    let alive: HashSet<u64> = [1, 2, 3, 4].into_iter().collect();
    child.merge_into(&parent, &mut pending, &alive);
    child.discard(&mut pending);
    let transaction = parent.finalize(&mut pending);
    let all: HashSet<u64> = (1..=5).collect();
    let mut order = vec![];
    let mut from = 0;
    while let Some((i, commit)) = transaction.next_to_apply(from, &all) {
        order.push((commit.surface, commit.serial));
        from = i + 1;
    }
    assert_eq!(
        order,
        vec![
            (surface(3), Serial(2)),
            (surface(1), Serial(1)),
            (surface(4), Serial(2)),
            (surface(2), Serial(2)),
        ]
    );
}

#[test]
fn surface_barriers_wait_for_all_surfaces() {
    let mut barriers = Barriers::new();
    let (barrier, fresh) = SurfaceBarrier::with_surfaces(&mut barriers, 9, &[2, 1, 2]);
    assert_eq!(fresh, vec![2, 1]);
    let blocker = barrier.blocker();
    assert_eq!(blocker.kind(), DELAYED);
    assert_eq!(blocker.state(&barriers), PENDING);
    let alive = everyone();
    let peers = [blocker.as_peer()];
    let due = blocker.notify(&mut barriers, NotifyKind::Ready, &[1], &peers, &alive);
    assert!(due.is_empty());
    assert!(!barrier.is_ready(&barriers));
    let due = blocker.notify(&mut barriers, NotifyKind::Ready, &[2], &peers, &alive);
    assert_eq!(due, vec![9]);
    assert!(barrier.is_ready(&barriers));
    // The notification is not repeated.
    let due = blocker.notify(&mut barriers, NotifyKind::Ready, &[1, 2], &peers, &alive);
    assert!(due.is_empty());
    assert!(!barrier.is_released(&barriers));
    let clients: HashMap<u64, u64> = [(1, 50), (2, 50)].into_iter().collect();
    assert_eq!(barrier.release(&mut barriers, &clients), vec![50]);
    assert!(barrier.is_released(&barriers));
    assert_eq!(blocker.state(&barriers), RELEASED);
}

#[test]
fn fused_barriers_are_released_together() {
    let mut barriers = Barriers::new();
    let (first, _) = SurfaceBarrier::with_surfaces(&mut barriers, 1, &[1]);
    let (second, _) = SurfaceBarrier::with_surfaces(&mut barriers, 2, &[2]);
    let alive = everyone();
    let (a, b) = (first.blocker(), second.blocker());
    // One transaction carries both blockers: their barriers become one group.
    let peers = [a.as_peer(), b.as_peer()];
    let due = a.notify(&mut barriers, NotifyKind::Ready, &[1, 2], &peers, &alive);
    assert_eq!(due, vec![1, 2]);
    let clients: HashMap<u64, u64> = [(1, 10), (2, 20)].into_iter().collect();
    assert!(first.release(&mut barriers, &clients).is_empty());
    assert_eq!(a.state(&barriers), PENDING);
    let mut woken = second.release(&mut barriers, &clients);
    woken.sort();
    assert_eq!(woken, vec![10, 20]);
    assert_eq!(a.state(&barriers), RELEASED);
    assert_eq!(b.state(&barriers), RELEASED);
}

#[test]
fn foreign_blockers_defer_the_notification() {
    let mut barriers = Barriers::new();
    let (barrier, _) = SurfaceBarrier::with_surfaces(&mut barriers, 4, &[1]);
    let blocker = barrier.blocker();
    let alive = everyone();
    let peers = [blocker.as_peer(), DelayedPeer::Foreign(PENDING)];
    assert!(blocker.notify(&mut barriers, NotifyKind::Ready, &[1], &peers, &alive).is_empty());
    let peers = [blocker.as_peer(), DelayedPeer::Foreign(RELEASED)];
    assert_eq!(
        blocker.notify(&mut barriers, NotifyKind::Ready, &[1], &peers, &alive),
        vec![4]
    );
}

#[test]
fn cancelled_surfaces_are_not_waited_for() {
    let mut barriers = Barriers::new();
    let (barrier, _) = SurfaceBarrier::with_surfaces(&mut barriers, 4, &[1, 2]);
    let blocker = barrier.blocker();
    let alive = everyone();
    let peers = [blocker.as_peer()];
    assert!(blocker.notify(&mut barriers, NotifyKind::Ready, &[1], &peers, &alive).is_empty());
    assert_eq!(
        blocker.notify(&mut barriers, NotifyKind::Cancelled, &[2], &peers, &alive),
        vec![4]
    );
    // Registering a surface anew arms the barrier again.
    assert_eq!(barrier.register_surfaces(&mut barriers, &[1, 3]), vec![3]);
    assert!(!barrier.is_ready(&barriers));
}

#[test]
fn the_last_release_applies_what_waits() {
    let mut barriers = Barriers::new();
    let first = SurfaceBarrier::new(&mut barriers, 1);
    let second = SurfaceBarrier::new(&mut barriers, 2);
    assert_eq!(first.register_surfaces(&mut barriers, &[1]), vec![1]);
    assert_eq!(second.register_surfaces(&mut barriers, &[2]), vec![2]);
    assert!(second.register_surfaces(&mut barriers, &[2]).is_empty());
    let blockers = [first.blocker(), second.blocker()];
    let now = |barriers: &Barriers| {
        world(&[
            (DELAYED, blockers[0].state(barriers)),
            (DELAYED, blockers[1].state(barriers)),
        ])
    };

    // The commits of two surfaces, each held back by its barrier, become one transaction.
    let mut pending = PendingTransactions::new();
    let one = PendingTransaction::new(&mut pending);
    one.insert_state(&mut pending, surface(1), Serial(1));
    one.add_blocker(&mut pending, 0);
    let other = PendingTransaction::new(&mut pending);
    other.insert_state(&mut pending, surface(2), Serial(2));
    other.add_blocker(&mut pending, 1);
    other.merge_into(&one, &mut pending, &everyone());
    other.discard(&mut pending);
    let mut queue = TransactionQueue::new();
    assert!(queue.is_empty());
    queue.append(one.finalize(&mut pending));
    assert!(!queue.is_empty());

    let (ready, notifications) = queue.take_ready(&now(&barriers));
    assert!(ready.is_empty());
    assert_eq!(notifications.len(), 1);
    assert_eq!(notifications[0].delayed, vec![0, 1]);
    let peers = [blockers[0].as_peer(), blockers[1].as_peer()];
    let surfaces: Vec<u64> = notifications[0].surfaces.iter().map(|s| s.object).collect();
    let kind = notifications[0].kind;
    let due = blockers[0].notify(&mut barriers, kind, &surfaces, &peers, &everyone());
    assert_eq!(due, vec![1, 2]);
    assert!(blockers[1].notify(&mut barriers, kind, &surfaces, &peers, &everyone()).is_empty());

    // One release is not enough: the barriers are one group.
    let clients: HashMap<u64, u64> = [(1, 7), (2, 7)].into_iter().collect();
    assert!(first.release(&mut barriers, &clients).is_empty());
    let (ready, notifications) = queue.take_ready(&now(&barriers));
    assert!(ready.is_empty() && notifications.is_empty());

    assert_eq!(second.release(&mut barriers, &clients), vec![7]);
    let (ready, notifications) = queue.take_ready(&now(&barriers));
    assert_eq!(ready.len(), 1);
    assert!(notifications.is_empty());
    assert!(queue.is_empty());
    assert_eq!(ready[0].next_to_apply(0, &everyone()).unwrap().1.surface, surface(1));
    assert_eq!(ready[0].next_to_apply(1, &everyone()).unwrap().1.surface, surface(2));
    assert!(ready[0].next_to_apply(2, &everyone()).is_none());
}
