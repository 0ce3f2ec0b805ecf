//! Barriers that synchronize the application of state across several surfaces.
//!
//! A surface barrier places a delayed blocker on every registered surface. Once every
//! registered surface only waits for the barrier, the barrier's notifier is due; releasing the
//! barrier then lets the pending state of all of them through. Barriers whose blockers end up
//! in one transaction are fused and behave like a single barrier over the union of their
//! surfaces.

use std::collections::{HashMap, HashSet};

use vstd::prelude::*;

use crate::wayland::blocker::{BlockerKind, BlockerState, Flags, NotifyKind};
use crate::wayland::forest::Forest;
use crate::wayland::forest::ForestModel;
use crate::table::Table;

verus! {

broadcast use vstd::std_specs::hash::group_hash_axioms;

/// What a barrier knows about one of its surfaces.
#[derive(Debug, Clone, Copy, PartialEq, Eq, Structural)]
pub struct BarrierSurfaceEntry {
    /// All immediate blockers of a transaction containing this surface have been cleared.
    pub notified: bool,
    /// That transaction also contains foreign pending delayed blockers.
    pub foreign_pending: bool,
}

/// The state shared by a group of fused barriers.
pub struct BarrierGroupState {
    surfaces: Table<BarrierSurfaceEntry>,
    /// The released flag of every barrier fused into this group.
    members: Vec<usize>,
    /// The ready notifier of every barrier fused into this group.
    notifiers: Vec<u64>,
    /// The ready notification has been sent.
    signaled: bool,
}

/// What a [`BarrierGroupState`] means.
#[verifier::ext_equal]
pub struct GroupModel {
    pub surfaces: Map<u64, BarrierSurfaceEntry>,
    pub members: Seq<usize>,
    pub notifiers: Seq<u64>,
    pub signaled: bool,
}

/// The surfaces among the given ones that are not known yet: each at its first occurrence.
pub open spec fn newcomers(known: Set<u64>, surfaces: Seq<u64>) -> Seq<u64>
    decreases surfaces.len(),
{
    if surfaces.len() == 0 {
        Seq::empty()
    } else {
        let before = newcomers(known, surfaces.drop_last());
        if known.contains(surfaces.last()) || surfaces.drop_last().contains(surfaces.last()) {
            before
        } else {
            before.push(surfaces.last())
        }
    }
}

impl GroupModel {
    /// The group of a barrier that tracks no surface yet.
    pub open spec fn fresh(member: usize, notifier: u64) -> GroupModel {
        GroupModel {
            surfaces: Map::empty(),
            members: seq![member],
            notifiers: seq![notifier],
            signaled: false,
        }
    }

    /// Two groups taken together. The readiness condition changed, so it is evaluated anew.
    pub open spec fn merged(self, other: GroupModel) -> GroupModel {
        GroupModel {
            surfaces: self.surfaces.union_prefer_right(other.surfaces),
            members: self.members + other.members,
            notifiers: self.notifiers + other.notifiers,
            signaled: false,
        }
    }

    /// Whether every barrier of the group has been released.
    pub open spec fn all_released(self, flags: Seq<bool>) -> bool {
        forall|i: int| 0 <= i < self.members.len() ==> flags[#[trigger] self.members[i] as int]
    }

    /// Whether every live surface of the group only waits for the group. Dead surfaces are
    /// excused, but at least one surface has to be alive.
    pub open spec fn ready(self, alive: Set<u64>) -> bool {
        &&& forall|s: u64| #[trigger]
            self.surfaces.dom().contains(s) && alive.contains(s) ==> self.surfaces[s].notified
                && !self.surfaces[s].foreign_pending
        &&& exists|s: u64| #[trigger] self.surfaces.dom().contains(s) && alive.contains(s)
    }

    /// The group after new surfaces were registered; known ones keep their entry.
    pub open spec fn registered(self, surfaces: Seq<u64>) -> GroupModel {
        GroupModel {
            surfaces: Map::new(
                |s: u64| self.surfaces.dom().contains(s) || surfaces.contains(s),
                |s: u64|
                    if self.surfaces.dom().contains(s) {
                        self.surfaces[s]
                    } else {
                        BarrierSurfaceEntry { notified: false, foreign_pending: false }
                    },
            ),
            signaled: self.signaled && forall|i: int|
                0 <= i < surfaces.len() ==> self.surfaces.dom().contains(#[trigger] surfaces[i]),
            ..self
        }
    }

    /// The group after a transaction with these surfaces only waits for delayed blockers.
    pub open spec fn marked(self, surfaces: Seq<u64>, foreign_pending: bool) -> GroupModel {
        GroupModel {
            surfaces: Map::new(
                |s: u64| self.surfaces.dom().contains(s),
                |s: u64|
                    if surfaces.contains(s) {
                        BarrierSurfaceEntry { notified: true, foreign_pending }
                    } else {
                        self.surfaces[s]
                    },
            ),
            ..self
        }
    }

    /// The group without these surfaces.
    pub open spec fn without(self, surfaces: Seq<u64>) -> GroupModel {
        GroupModel { surfaces: self.surfaces.remove_keys(surfaces.to_set()), ..self }
    }

    /// The group after its readiness was evaluated.
    pub open spec fn evaluated(self, alive: Set<u64>) -> GroupModel {
        GroupModel { signaled: self.signaled || self.ready(alive), ..self }
    }

    /// The notifiers that are due when the readiness of the group is evaluated.
    pub open spec fn due(self, alive: Set<u64>) -> Seq<u64> {
        if !self.signaled && self.ready(alive) {
            self.notifiers
        } else {
            Seq::empty()
        }
    }
}

impl BarrierGroupState {
    pub closed spec fn view(&self) -> GroupModel {
        GroupModel {
            surfaces: self.surfaces@,
            members: self.members@,
            notifiers: self.notifiers@,
            signaled: self.signaled,
        }
    }

    pub closed spec fn wf(&self) -> bool {
        self.surfaces.wf()
    }

    /// The surfaces in the order in which they were registered.
    pub closed spec fn order(&self) -> Seq<u64> {
        self.surfaces.order()
    }

    fn all_released_now(&self, flags: &Flags) -> (all: bool)
        requires
            forall|i: int| 0 <= i < self@.members.len() ==> #[trigger] self@.members[i] < flags@.len(),
        ensures
            all == self@.all_released(flags@),
    {
        let mut i: usize = 0;
        while i < self.members.len()
            invariant
                i <= self.members@.len(),
                forall|k: int|
                    0 <= k < self@.members.len() ==> #[trigger] self@.members[k] < flags@.len(),
                forall|k: int| 0 <= k < i ==> flags@[#[trigger] self@.members[k] as int],
            decreases self.members@.len() - i,
        {
            assert(self@.members[i as int] < flags@.len());
            if !flags.get(self.members[i]) {
                return false;
            }
            i = i + 1;
        }
        true
    }

    fn is_ready_now(&self, alive: &HashSet<u64>) -> (ready: bool)
        requires
            self.wf(),
        ensures
            ready == self@.ready(alive@),
    {
        proof {
            self.surfaces.lemma_order();
        }
        let mut any_alive: bool = false;
        let mut i: usize = 0;
        while i < self.surfaces.len()
            invariant
                self.wf(),
                i <= self.surfaces.order().len(),
                forall|s: u64| #[trigger]
                    self.surfaces.order().contains(s) <==> self.surfaces@.dom().contains(s),
                any_alive == exists|k: int|
                    0 <= k < i && alive@.contains(#[trigger] self.surfaces.order()[k]),
                forall|k: int|
                    0 <= k < i && alive@.contains(#[trigger] self.surfaces.order()[k])
                        ==> self.surfaces@[self.surfaces.order()[k]].notified
                        && !self.surfaces@[self.surfaces.order()[k]].foreign_pending,
            decreases self.surfaces.order().len() - i,
        {
            let (surface, entry) = self.surfaces.entry(i);
            assert(self.surfaces.order().contains(surface));
            if alive.contains(&surface) {
                any_alive = true;
                if !entry.notified || entry.foreign_pending {
                    assert(self@.surfaces.dom().contains(surface) && alive@.contains(surface));
                    return false;
                }
            }
            i = i + 1;
        }
        proof {
            assert forall|s: u64| #[trigger]
                self@.surfaces.dom().contains(s) && alive@.contains(s) implies self@.surfaces[s].notified
                && !self@.surfaces[s].foreign_pending by {
                let k = choose|k: int|
                    0 <= k < self.surfaces.order().len() && self.surfaces.order()[k] == s;
                assert(self.surfaces.order()[k] == s);
            }
            if any_alive {
                let k = choose|k: int|
                    0 <= k < i && alive@.contains(#[trigger] self.surfaces.order()[k]);
                assert(self.surfaces.order().contains(self.surfaces.order()[k]));
                assert(self@.surfaces.dom().contains(self.surfaces.order()[k]));
            } else if exists|s: u64| #[trigger]
                self@.surfaces.dom().contains(s) && alive@.contains(s) {
                let s = choose|s: u64| #[trigger]
                    self@.surfaces.dom().contains(s) && alive@.contains(s);
                assert(self.surfaces.order().contains(s));
                let k = choose|k: int|
                    0 <= k < self.surfaces.order().len() && self.surfaces.order()[k] == s;
                assert(alive@.contains(self.surfaces.order()[k]));
            }
        }
        any_alive
    }

    /// Registers surfaces and returns those that were not registered before, in their order.
    fn register(&mut self, surfaces: &[u64]) -> (fresh: Vec<u64>)
        requires
            old(self).wf(),
        ensures
            final(self).wf(),
            final(self)@ == old(self)@.registered(surfaces@),
            fresh@ == newcomers(old(self)@.surfaces.dom(), surfaces@),
            fresh@.no_duplicates(),
            forall|s: u64| #[trigger]
                fresh@.contains(s) <==> surfaces@.contains(s) && !old(self)@.surfaces.dom().contains(s),
    {
        let ghost before = *self;
        let mut fresh: Vec<u64> = Vec::new();
        let mut i: usize = 0;
        proof {
            assert(before@.registered(surfaces@.take(0)).surfaces =~= before@.surfaces);
        }
        while i < surfaces.len()
            invariant
                self.wf(),
                i <= surfaces@.len(),
                self@.members == before@.members,
                self@.notifiers == before@.notifiers,
                self@.surfaces =~= before@.registered(surfaces@.take(i as int)).surfaces,
                self@.signaled == (before@.signaled && forall|k: int|
                    0 <= k < i ==> before@.surfaces.dom().contains(#[trigger] surfaces@[k])),
                fresh@ == newcomers(before@.surfaces.dom(), surfaces@.take(i as int)),
                fresh@.no_duplicates(),
                forall|s: u64| #[trigger]
                    fresh@.contains(s) <==> surfaces@.take(i as int).contains(s)
                        && !before@.surfaces.dom().contains(s),
            decreases surfaces@.len() - i,
        {
            let surface: u64 = surfaces[i];
            let ghost taken = surfaces@.take(i as int);
            let ghost next = surfaces@.take(i + 1);
            let ghost previous = fresh@;
            assert(next =~= taken.push(surface));
            assert(next.drop_last() =~= taken);
            assert forall|s: u64| next.contains(s) <==> taken.contains(s) || s == surface by {
                if taken.contains(s) {
                    let k = choose|k: int| 0 <= k < taken.len() && taken[k] == s;
                    assert(next[k] == s);
                }
                assert(next[i as int] == surface);
            }
            if self.surfaces.position(surface).is_none() {
                assert(!previous.contains(surface));
                self.surfaces.insert(
                    surface,
                    BarrierSurfaceEntry { notified: false, foreign_pending: false },
                );
                self.signaled = false;
                fresh.push(surface);
                assert forall|s: u64| #[trigger] fresh@.contains(s) <==> next.contains(s)
                    && !before@.surfaces.dom().contains(s) by {
                    if previous.contains(s) {
                        let k = choose|k: int| 0 <= k < previous.len() && previous[k] == s;
                        assert(fresh@[k] == s);
                    }
                    assert(fresh@[previous.len() as int] == surface);
                    if fresh@.contains(s) && s != surface {
                        let k = choose|k: int| 0 <= k < fresh@.len() && fresh@[k] == s;
                        assert(previous[k] == s);
                    }
                }
                assert(!before@.surfaces.dom().contains(surfaces@[i as int]));
            } else {
                proof {
                    if !before@.surfaces.dom().contains(surface) {
                        assert(taken.contains(surface));
                        let k = choose|k: int| 0 <= k < taken.len() && taken[k] == surface;
                        assert(surfaces@[k] == surface);
                    }
                }
            }
            i = i + 1;
        }
        assert(surfaces@.take(i as int) =~= surfaces@);
        assert(self@ =~= before@.registered(surfaces@));
        fresh
    }

    fn mark(&mut self, surfaces: &[u64], foreign_pending: bool)
        requires
            old(self).wf(),
        ensures
            final(self).wf(),
            final(self)@ == old(self)@.marked(surfaces@, foreign_pending),
    {
        let ghost before = *self;
        let mut i: usize = 0;
        while i < surfaces.len()
            invariant
                self.wf(),
                i <= surfaces@.len(),
                self@.members == before@.members,
                self@.notifiers == before@.notifiers,
                self@.signaled == before@.signaled,
                self@.surfaces =~= before@.marked(
                    surfaces@.take(i as int),
                    foreign_pending,
                ).surfaces,
            decreases surfaces@.len() - i,
        {
            let surface: u64 = surfaces[i];
            let ghost taken = surfaces@.take(i as int);
            let ghost next = surfaces@.take(i + 1);
            assert(next =~= taken.push(surface));
            assert forall|s: u64| next.contains(s) <==> taken.contains(s) || s == surface by {
                if taken.contains(s) {
                    let k = choose|k: int| 0 <= k < taken.len() && taken[k] == s;
                    assert(next[k] == s);
                }
                assert(next[i as int] == surface);
            }
            if self.surfaces.position(surface).is_some() {
                self.surfaces.insert(surface, BarrierSurfaceEntry { notified: true, foreign_pending });
            }
            i = i + 1;
        }
        assert(surfaces@.take(i as int) =~= surfaces@);
        assert(self@ =~= before@.marked(surfaces@, foreign_pending));
    }

    fn forget(&mut self, surfaces: &[u64])
        requires
            old(self).wf(),
        ensures
            final(self).wf(),
            final(self)@ == old(self)@.without(surfaces@),
    {
        let ghost before = *self;
        let mut i: usize = 0;
        while i < surfaces.len()
            invariant
                self.wf(),
                i <= surfaces@.len(),
                self@.members == before@.members,
                self@.notifiers == before@.notifiers,
                self@.signaled == before@.signaled,
                self@.surfaces =~= before@.without(surfaces@.take(i as int)).surfaces,
            decreases surfaces@.len() - i,
        {
            let surface: u64 = surfaces[i];
            let ghost taken = surfaces@.take(i as int);
            let ghost next = surfaces@.take(i + 1);
            assert(next =~= taken.push(surface));
            assert forall|s: u64| next.to_set().contains(s) <==> taken.to_set().contains(s) || s
                == surface by {
                if taken.contains(s) {
                    let k = choose|k: int| 0 <= k < taken.len() && taken[k] == s;
                    assert(next[k] == s);
                }
                assert(next[i as int] == surface);
            }
            self.surfaces.remove(surface);
            i = i + 1;
        }
        assert(surfaces@.take(i as int) =~= surfaces@);
        assert(self@ =~= before@.without(surfaces@));
    }

    /// Takes another group in.
    fn absorb(&mut self, other: BarrierGroupState)
        requires
            old(self).wf(),
            other.wf(),
        ensures
            final(self).wf(),
            final(self)@ == old(self)@.merged(other@),
    {
        let ghost before = *self;
        let BarrierGroupState { surfaces, members, notifiers, signaled: _ } = other;
        let mut members = members;
        let mut notifiers = notifiers;
        let mut i: usize = 0;
        proof {
            surfaces.lemma_order();
        }
        while i < surfaces.len()
            invariant
                self.wf(),
                surfaces.wf(),
                i <= surfaces.order().len(),
                self@.members == before@.members,
                self@.notifiers == before@.notifiers,
                forall|s: u64| #[trigger]
                    self@.surfaces.dom().contains(s) <==> before@.surfaces.dom().contains(s)
                        || surfaces.order().take(i as int).contains(s),
                forall|s: u64| #[trigger]
                    self@.surfaces.dom().contains(s) ==> self@.surfaces[s]
                        == if surfaces.order().take(i as int).contains(s) {
                        surfaces@[s]
                    } else {
                        before@.surfaces[s]
                    },
            decreases surfaces.order().len() - i,
        {
            let (surface, entry) = surfaces.entry(i);
            let ghost taken = surfaces.order().take(i as int);
            let ghost next = surfaces.order().take(i + 1);
            assert(next =~= taken.push(surface));
            assert forall|s: u64| next.contains(s) <==> taken.contains(s) || s == surface by {
                if taken.contains(s) {
                    let k = choose|k: int| 0 <= k < taken.len() && taken[k] == s;
                    assert(next[k] == s);
                }
                assert(next[i as int] == surface);
            }
            let ghost mid = self@.surfaces;
            self.surfaces.insert(surface, *entry);
            assert(self@.surfaces == mid.insert(surface, surfaces@[surface]));
            assert forall|s: u64| #[trigger] self@.surfaces.dom().contains(s) implies self@.surfaces[s]
                == if next.contains(s) {
                surfaces@[s]
            } else {
                before@.surfaces[s]
            } by {
                assert(s == surface || mid.dom().contains(s));
            }
            i = i + 1;
        }
        assert(surfaces.order().take(i as int) =~= surfaces.order());
        proof {
            surfaces.lemma_order();
            assert(surfaces@ == other@.surfaces);
            assert forall|s: u64| self@.surfaces.dom().contains(s) <==> before@.merged(
                other@,
            ).surfaces.dom().contains(s) by {
                assert(surfaces.order().contains(s) <==> surfaces@.dom().contains(s));
            }
            assert(self@.surfaces =~= before@.merged(other@).surfaces);
        }
        self.members.append(&mut members);
        self.notifiers.append(&mut notifiers);
        self.signaled = false;
        assert(self@.surfaces =~= before@.merged(other@).surfaces);
        assert(self@ =~= before@.merged(other@));
    }
}

/// All surface barriers of a compositor, with the state their handles share.
pub struct Barriers {
    flags: Flags,
    groups: Forest<BarrierGroupState>,
}

/// What [`Barriers`] mean.
#[verifier::ext_equal]
pub struct BarriersModel {
    /// The released flags.
    pub flags: Seq<bool>,
    /// The groups of fused barriers.
    pub groups: ForestModel<GroupModel>,
}

/// A delayed blocker of the transaction a notification is about.
#[derive(Debug, Clone, Copy, PartialEq, Eq, Structural)]
pub enum DelayedPeer {
    /// The blocker of a surface barrier with this group handle.
    Barrier(usize),
    /// Any other delayed blocker, with its current state.
    Foreign(BlockerState),
}

impl BarriersModel {
    /// The group a handle belongs to.
    pub open spec fn group(self, handle: int) -> GroupModel {
        self.groups.resolve(handle)
    }

    /// The barriers with another group state behind `handle`.
    pub open spec fn with_group(self, handle: int, group: GroupModel) -> BarriersModel {
        BarriersModel { groups: self.groups.stored(handle, group), ..self }
    }

    /// The barriers after the groups of two handles were fused. Of two groups, the one whose
    /// root was made first survives.
    pub open spec fn fused(self, a: int, b: int) -> BarriersModel {
        if self.groups.joined(a, b) {
            self
        } else if self.groups.root[a] < self.groups.root[b] {
            BarriersModel {
                groups: self.groups.linked(b, a).stored(a, self.group(a).merged(self.group(b))),
                ..self
            }
        } else {
            BarriersModel {
                groups: self.groups.linked(a, b).stored(b, self.group(b).merged(self.group(a))),
                ..self
            }
        }
    }

    /// The barriers after a handle's group was fused with the groups of all given peers.
    pub open spec fn fused_with_all(self, handle: int, peers: Seq<DelayedPeer>) -> BarriersModel
        decreases peers.len(),
    {
        if peers.len() == 0 {
            self
        } else {
            let before = self.fused_with_all(handle, peers.drop_last());
            match peers.last() {
                DelayedPeer::Barrier(peer) => before.fused(handle, peer as int),
                DelayedPeer::Foreign(_) => before,
            }
        }
    }

    /// The barriers after the one with this flag was released, whose group `handle` leads to.
    /// With the last release a group stops tracking its surfaces.
    pub open spec fn released(self, handle: int, flag: int) -> BarriersModel {
        let flags = self.flags.update(flag, true);
        let group = self.group(handle);
        BarriersModel {
            flags,
            groups: self.groups.stored(
                handle,
                if group.all_released(flags) {
                    GroupModel { surfaces: Map::empty(), ..group }
                } else {
                    group
                },
            ),
        }
    }

    /// Every group lists flags that exist.
    pub open spec fn well_formed(self) -> bool {
        &&& self.groups.well_formed()
        &&& forall|r: int, i: int|
            #![trigger self.groups.state[r].members[i]]
            self.groups.state.dom().contains(r) && 0 <= i < self.groups.state[r].members.len()
                ==> self.groups.state[r].members[i] < self.flags.len()
    }

    /// Whether every barrier among `peers` was handed out by these barriers.
    pub open spec fn knows(self, peers: Seq<DelayedPeer>) -> bool {
        forall|i: int|
            0 <= i < peers.len() ==> (#[trigger] peers[i] matches DelayedPeer::Barrier(peer)
                ==> self.groups.has(peer as int))
    }
}

/// Whether a transaction has a pending delayed blocker that is no surface barrier.
pub open spec fn any_foreign_pending(peers: Seq<DelayedPeer>) -> bool {
    exists|i: int|
        0 <= i < peers.len() && #[trigger] peers[i] == DelayedPeer::Foreign(BlockerState::Pending)
}

/// Fusing keeps the set of handles.
proof fn lemma_fused_has(m: BarriersModel, handle: int, peers: Seq<DelayedPeer>)
    ensures
        m.fused_with_all(handle, peers).groups.root.len() == m.groups.root.len(),
        m.fused_with_all(handle, peers).flags == m.flags,
    decreases peers.len(),
{
    if peers.len() > 0 {
        lemma_fused_has(m, handle, peers.drop_last());
    }
}

impl Barriers {
    pub closed spec fn view(&self) -> BarriersModel {
        BarriersModel {
            flags: self.flags@,
            groups: ForestModel {
                root: self.groups@.root,
                state: self.groups@.state.map_values(|s: BarrierGroupState| s@),
            },
        }
    }

    pub closed spec fn wf(&self) -> bool {
        &&& self.groups.wf()
        &&& self.groups@.well_formed()
        &&& forall|r: int| #[trigger]
            self.groups@.state.dom().contains(r) ==> self.groups@.state[r].wf()
        &&& self@.well_formed()
    }

    /// No barriers.
    pub fn new() -> (barriers: Self)
        ensures
            barriers.wf(),
            barriers@.flags == Seq::<bool>::empty(),
            barriers@.groups.root == Seq::<int>::empty(),
    {
        Barriers { flags: Flags::new(), groups: Forest::new() }
    }

    /// Takes the state of a group out; it has to be put back.
    fn take(&mut self, handle: usize) -> (state: BarrierGroupState)
        requires
            old(self).wf(),
            old(self)@.groups.has(handle as int),
        ensures
            final(self).wf(),
            final(self)@.flags == old(self)@.flags,
            final(self)@.groups.root == old(self)@.groups.root,
            final(self)@.groups.state.dom() == old(self)@.groups.state.dom(),
            forall|r: int|
                r != old(self)@.groups.root[handle as int] && old(self)@.groups.state.dom().contains(r)
                    ==> #[trigger] final(self)@.groups.state[r] == old(self)@.groups.state[r],
            state.wf(),
            state@ == old(self)@.group(handle as int),
    {
        let ghost before = *self;
        let ghost root = before.groups@.root[handle as int];
        proof {
            assert(before.groups@.root[root] == root);
            assert(before.groups@.state.dom().contains(root));
        }
        let empty = BarrierGroupState {
            surfaces: Table::new(),
            members: Vec::new(),
            notifiers: Vec::new(),
            signaled: false,
        };
        let state = self.groups.replace(handle, empty);
        proof {
            assert(self@.groups.state.dom() =~= before@.groups.state.dom());
            assert forall|r: int, i: int|
                #![trigger self@.groups.state[r].members[i]]
                self@.groups.state.dom().contains(r) && 0 <= i
                    < self@.groups.state[r].members.len() implies self@.groups.state[r].members[i]
                < self@.flags.len() by {
                assert(before@.groups.state[r].members[i] < before@.flags.len());
            }
        }
        state
    }

    /// Puts the state of a group back.
    fn put(&mut self, handle: usize, state: BarrierGroupState)
        requires
            old(self).wf(),
            old(self)@.groups.has(handle as int),
            state.wf(),
            forall|i: int|
                0 <= i < state@.members.len() ==> #[trigger] state@.members[i] < old(self)@.flags.len(),
        ensures
            final(self).wf(),
            final(self)@ == old(self)@.with_group(handle as int, state@),
    {
        let ghost before = *self;
        let ghost root = before.groups@.root[handle as int];
        proof {
            assert(before.groups@.root[root] == root);
            assert(before.groups@.state.dom().contains(root));
        }
        let _previous = self.groups.replace(handle, state);
        assert(self@.groups.state =~= before@.groups.stored(handle as int, state@).state);
        assert(self@ =~= before@.with_group(handle as int, state@));
    }

    /// Fuses two groups into one.
    ///
    /// Afterwards both groups share their surfaces, members and notifiers: the ready
    /// notification is due once the union of the tracked surfaces is ready, and the blockers of
    /// all fused barriers resolve together once every member barrier has been released.
    pub fn fuse(&mut self, a: usize, b: usize)
        requires
            old(self).wf(),
            old(self)@.groups.has(a as int),
            old(self)@.groups.has(b as int),
        ensures
            final(self).wf(),
            final(self)@ == old(self)@.fused(a as int, b as int),
    {
        let root_a: usize = self.groups.find(a);
        let root_b: usize = self.groups.find(b);
        if root_a == root_b {
            return ;
        }
        let (first, second) = if root_a < root_b {
            (a, b)
        } else {
            (b, a)
        };
        let ghost before = *self;
        let ghost first_root = before.groups@.root[first as int];
        let ghost second_root = before.groups@.root[second as int];
        proof {
            assert(before.groups@.state.dom().contains(first_root));
            assert(before.groups@.state.dom().contains(second_root));
        }
        let merged = self.groups.link(second, first);
        let ghost middle = *self;
        proof {
            assert(middle.groups@.root[first as int] == first_root);
            assert(forall|r: int| #[trigger]
                middle.groups@.state.dom().contains(r) ==> middle.groups@.state[r]
                    == before.groups@.state[r]);
            assert(middle@.groups.state =~= before@.groups.linked(second as int, first as int).state);
            assert(middle@.groups.root =~= before@.groups.linked(second as int, first as int).root);
            assert(middle@.well_formed()) by {
                assert forall|r: int, i: int|
                    #![trigger middle@.groups.state[r].members[i]]
                    middle@.groups.state.dom().contains(r) && 0 <= i
                        < middle@.groups.state[r].members.len() implies middle@.groups.state[r].members[i]
                    < middle@.flags.len() by {
                    assert(before@.groups.state.dom().contains(r));
                    assert(before@.groups.state[r].members[i] < before@.flags.len());
                }
            }
        }
        let mut state = self.take(first);
        state.absorb(merged);
        proof {
            assert(merged@ == before@.group(second as int));
            assert(middle@.group(first as int) == before@.group(first as int));
            assert forall|i: int| 0 <= i < state@.members.len() implies #[trigger] state@.members[i]
                < self@.flags.len() by {
                let n = before@.group(first as int).members.len();
                if i < n {
                    assert(before@.groups.state[first_root].members[i] < before@.flags.len());
                } else {
                    assert(before@.groups.state[second_root].members[i - n] < before@.flags.len());
                }
            }
        }
        self.put(first, state);
        proof {
            assert(self@.groups.state =~= before@.fused(a as int, b as int).groups.state);
            assert(self@.groups.root =~= before@.fused(a as int, b as int).groups.root);
        }
    }

    /// Checks whether a group became ready and returns the notifiers that are due, at most
    /// once.
    ///
    /// `alive` holds the surfaces that are still alive.
    pub fn maybe_signal(&mut self, handle: usize, alive: &HashSet<u64>) -> (due: Vec<u64>)
        requires
            old(self).wf(),
            old(self)@.groups.has(handle as int),
        ensures
            final(self).wf(),
            final(self)@ == old(self)@.with_group(
                handle as int,
                old(self)@.group(handle as int).evaluated(alive@),
            ),
            due@ == old(self)@.group(handle as int).due(alive@),
    {
        let ghost before = *self;
        let ghost root = before.groups@.root[handle as int];
        proof {
            assert(before.groups@.state.dom().contains(root));
        }
        let mut state = self.take(handle);
        let mut due: Vec<u64> = Vec::new();
        if !state.signaled && state.is_ready_now(alive) {
            state.signaled = true;
            due = state.notifiers.clone();
            proof {
                assert(due@ =~= state.notifiers@);
            }
        }
        proof {
            assert forall|i: int| 0 <= i < state@.members.len() implies #[trigger] state@.members[i]
                < self@.flags.len() by {
                assert(before@.groups.state[root].members[i] < before@.flags.len());
            }
        }
        self.put(handle, state);
        proof {
            assert(self@.groups.state =~= before@.with_group(
                handle as int,
                before@.group(handle as int).evaluated(alive@),
            ).groups.state);
        }
        due
    }
}

/// A barrier synchronizing state application across multiple surfaces. Copies of it share
/// their state.
///
/// A barrier is one-shot: its notifier is due at most once (unless a later fusion or
/// registration re-arms it) and after its release the barrier is spent.
#[derive(Debug, Clone, Copy, PartialEq, Eq, Structural)]
pub struct SurfaceBarrier {
    group: usize,
    released: usize,
}

impl SurfaceBarrier {
    /// The handle of the barrier's group.
    pub closed spec fn group(&self) -> int {
        self.group as int
    }

    /// The barrier's own released flag.
    pub closed spec fn flag(&self) -> int {
        self.released as int
    }

    /// Whether the barrier was made in `barriers`: it has a flag there, and that flag is one of
    /// those its group waits for.
    pub open spec fn lives_in(&self, barriers: BarriersModel) -> bool {
        &&& barriers.groups.has(self.group())
        &&& 0 <= self.flag() < barriers.flags.len()
        &&& self.flag() <= usize::MAX
        &&& barriers.group(self.group()).members.contains(self.flag() as usize)
    }

    /// Initializes an empty surface barrier.
    ///
    /// `notifier` becomes due once all immediate blockers are cleared for all tracked surfaces.
    pub fn new(barriers: &mut Barriers, notifier: u64) -> (barrier: Self)
        requires
            old(barriers).wf(),
        ensures
            final(barriers).wf(),
            barrier.lives_in(final(barriers)@),
            barrier.group() == old(barriers)@.groups.root.len(),
            barrier.flag() == old(barriers)@.flags.len(),
            final(barriers)@.flags == old(barriers)@.flags.push(false),
            final(barriers)@.groups == old(barriers)@.groups.grown(
                GroupModel::fresh(barrier.flag() as usize, notifier),
            ),
    {
        let ghost before = *barriers;
        let released: usize = barriers.flags.add(false);
        let mut members: Vec<usize> = Vec::new();
        members.push(released);
        let mut notifiers: Vec<u64> = Vec::new();
        notifiers.push(notifier);
        let state = BarrierGroupState { surfaces: Table::new(), members, notifiers, signaled: false };
        let ghost model = state@;
        let group: usize = barriers.groups.add(state);
        proof {
            assert(model =~= GroupModel::fresh(released, notifier));
            assert(model.members[0] == released);
            assert(barriers@.group(group as int) == model);
            assert(barriers@.groups.state =~= before@.groups.grown(model).state);
            assert forall|r: int, i: int|
                #![trigger barriers@.groups.state[r].members[i]]
                barriers@.groups.state.dom().contains(r) && 0 <= i
                    < barriers@.groups.state[r].members.len() implies barriers@.groups.state[r].members[i]
                < barriers@.flags.len() by {
                if r != group {
                    assert(before@.groups.state[r].members[i] < before@.flags.len());
                }
            }
        }
        SurfaceBarrier { group, released }
    }

    /// Initializes a new barrier that tracks `surfaces`.
    ///
    /// Returns the barrier and the surfaces on which its blocker has to be placed, in order.
    pub fn with_surfaces(barriers: &mut Barriers, notifier: u64, surfaces: &[u64]) -> (r: (
        Self,
        Vec<u64>,
    ))
        requires
            old(barriers).wf(),
        ensures
            final(barriers).wf(),
            r.0.lives_in(final(barriers)@),
            r.0.group() == old(barriers)@.groups.root.len(),
            r.0.flag() == old(barriers)@.flags.len(),
            final(barriers)@.flags == old(barriers)@.flags.push(false),
            final(barriers)@.groups == old(barriers)@.groups.grown(
                GroupModel::fresh(r.0.flag() as usize, notifier).registered(surfaces@),
            ),
            r.1@ == newcomers(Set::empty(), surfaces@),
            r.1@.no_duplicates(),
            forall|s: u64| #[trigger] r.1@.contains(s) <==> surfaces@.contains(s),
    {
        let ghost before = *barriers;
        let barrier = SurfaceBarrier::new(barriers, notifier);
        let ghost middle = *barriers;
        let fresh = barrier.register_surfaces(barriers, surfaces);
        proof {
            let group = GroupModel::fresh(barrier.flag() as usize, notifier);
            assert(middle@.group(barrier.group()) == group);
            assert(group.surfaces.dom() =~= Set::<u64>::empty());
            assert(barriers@.groups =~= before@.groups.grown(group.registered(surfaces@)));
        }
        (barrier, fresh)
    }

    /// Registers surfaces to be tracked by this barrier.
    ///
    /// Returns the surfaces that were not tracked yet, in order, on which the barrier's blocker
    /// has to be placed. Registering additional surfaces re-arms the ready notification.
    pub fn register_surfaces(&self, barriers: &mut Barriers, surfaces: &[u64]) -> (fresh: Vec<u64>)
        requires
            old(barriers).wf(),
            self.lives_in(old(barriers)@),
        ensures
            final(barriers).wf(),
            final(barriers)@ == old(barriers)@.with_group(
                self.group(),
                old(barriers)@.group(self.group()).registered(surfaces@),
            ),
            fresh@ == newcomers(
                old(barriers)@.group(self.group()).surfaces.dom(),
                surfaces@,
            ),
            fresh@.no_duplicates(),
            forall|s: u64| #[trigger]
                fresh@.contains(s) <==> surfaces@.contains(s) && !old(barriers)@.group(
                    self.group(),
                ).surfaces.dom().contains(s),
    {
        let ghost before = *barriers;
        let ghost root = before.groups@.root[self.group as int];
        proof {
            assert(before.groups@.state.dom().contains(root));
        }
        let mut state = barriers.take(self.group);
        let fresh = state.register(surfaces);
        proof {
            assert forall|i: int| 0 <= i < state@.members.len() implies #[trigger] state@.members[i]
                < barriers@.flags.len() by {
                assert(before@.groups.state[root].members[i] < before@.flags.len());
            }
        }
        barriers.put(self.group, state);
        proof {
            assert(barriers@.groups.state =~= before@.with_group(
                self.group(),
                before@.group(self.group()).registered(surfaces@),
            ).groups.state);
        }
        fresh
    }

    /// Queries if the ready notification has fired.
    pub fn is_ready(&self, barriers: &Barriers) -> (ready: bool)
        requires
            barriers.wf(),
            self.lives_in(barriers@),
        ensures
            ready == barriers@.group(self.group()).signaled,
    {
        proof {
            assert(barriers.groups@.state.dom().contains(barriers.groups@.root[self.group as int]));
        }
        barriers.groups.get(self.group).signaled
    }

    /// Queries if this barrier has been released, whatever the barriers fused with it did.
    pub fn is_released(&self, barriers: &Barriers) -> (released: bool)
        requires
            self.lives_in(barriers@),
        ensures
            released == barriers@.flags[self.flag()],
    {
        barriers.flags.get(self.released)
    }

    /// Releases this barrier.
    ///
    /// Returns the clients whose blockers have to be evaluated again, each once. If other
    /// barriers were fused with this one, the clients are only woken by the last release. After
    /// that the group tracks no surface any more.
    ///
    /// `clients` maps every surface that is alive and has a client to that client.
    pub fn release(&self, barriers: &mut Barriers, clients: &HashMap<u64, u64>) -> (woken: Vec<u64>)
        requires
            old(barriers).wf(),
            self.lives_in(old(barriers)@),
        ensures
            final(barriers).wf(),
            final(barriers)@ == old(barriers)@.released(self.group(), self.flag()),
            ({
                let group = old(barriers)@.group(self.group());
                let all = group.all_released(final(barriers)@.flags);
                &&& woken@.no_duplicates()
                &&& forall|c: u64| #[trigger]
                    woken@.contains(c) <==> all && exists|s: u64| #[trigger]
                        group.surfaces.dom().contains(s) && clients@.contains_key(s) && clients@[s]
                            == c
            }),
    {
        let ghost before = *barriers;
        let ghost root = before.groups@.root[self.group as int];
        let ghost group = before@.group(self.group());
        proof {
            assert(before.groups@.state.dom().contains(root));
        }
        barriers.flags.raise(self.released);
        proof {
            assert(barriers@.groups =~= before@.groups);
        }
        let mut state = barriers.take(self.group);
        proof {
            assert forall|i: int| 0 <= i < state@.members.len() implies #[trigger] state@.members[i]
                < barriers@.flags.len() by {
                assert(before@.groups.state[root].members[i] < before@.flags.len());
            }
        }
        let mut woken: Vec<u64> = Vec::new();
        if state.all_released_now(&barriers.flags) {
            let mut surfaces: Table<BarrierSurfaceEntry> = Table::new();
            std::mem::swap(&mut state.surfaces, &mut surfaces);
            proof {
                surfaces.lemma_order();
                assert(surfaces@ == group.surfaces);
            }
            let mut seen: HashSet<u64> = HashSet::new();
            let mut i: usize = 0;
            while i < surfaces.len()
                invariant
                    surfaces.wf(),
                    i <= surfaces.order().len(),
                    woken@.no_duplicates(),
                    forall|c: u64| #[trigger] seen@.contains(c) <==> woken@.contains(c),
                    forall|c: u64| #[trigger]
                        woken@.contains(c) <==> exists|k: int|
                            0 <= k < i && clients@.contains_key(#[trigger] surfaces.order()[k])
                                && clients@[surfaces.order()[k]] == c,
                decreases surfaces.order().len() - i,
            {
                let (surface, _entry) = surfaces.entry(i);
                let ghost previous = woken@;
                if let Some(client) = clients.get(&surface) {
                    let client: u64 = *client;
                    if seen.insert(client) {
                        woken.push(client);
                        proof {
                            assert(!previous.contains(client));
                            assert(woken@.no_duplicates());
                            assert forall|c: u64| #[trigger] woken@.contains(c) <==> previous.contains(c)
                                || c == client by {
                                if previous.contains(c) {
                                    let k = choose|k: int| 0 <= k < previous.len() && previous[k] == c;
                                    assert(woken@[k] == c);
                                }
                                assert(woken@[previous.len() as int] == client);
                            }
                        }
                    }
                }
                proof {
                    assert forall|c: u64| #[trigger] woken@.contains(c) <==> exists|k: int|
                        0 <= k < i + 1 && clients@.contains_key(#[trigger] surfaces.order()[k])
                            && clients@[surfaces.order()[k]] == c by {
                        assert(previous.contains(c) ==> woken@.contains(c));
                        if previous.contains(c) {
                            let k = choose|k: int|
                                0 <= k < i && clients@.contains_key(#[trigger] surfaces.order()[k])
                                    && clients@[surfaces.order()[k]] == c;
                            assert(clients@.contains_key(surfaces.order()[k]));
                        } else if woken@.contains(c) {
                            assert(clients@.contains_key(surfaces.order()[i as int]));
                        }
                        if exists|k: int|
                            0 <= k < i + 1 && clients@.contains_key(#[trigger] surfaces.order()[k])
                                && clients@[surfaces.order()[k]] == c {
                            let k = choose|k: int|
                                0 <= k < i + 1 && clients@.contains_key(#[trigger] surfaces.order()[k])
                                    && clients@[surfaces.order()[k]] == c;
                            if k < i {
                                assert(previous.contains(c));
                            }
                        }
                    }
                }
                i = i + 1;
            }
            proof {
                surfaces.lemma_order();
                assert forall|c: u64| #[trigger] woken@.contains(c) <==> exists|s: u64| #[trigger]
                    group.surfaces.dom().contains(s) && clients@.contains_key(s) && clients@[s] == c by {
                    if woken@.contains(c) {
                        let k = choose|k: int|
                            0 <= k < i && clients@.contains_key(#[trigger] surfaces.order()[k])
                                && clients@[surfaces.order()[k]] == c;
                        assert(surfaces.order().contains(surfaces.order()[k]));
                        assert(group.surfaces.dom().contains(surfaces.order()[k]));
                    }
                    if exists|s: u64| #[trigger]
                        group.surfaces.dom().contains(s) && clients@.contains_key(s) && clients@[s]
                            == c {
                        let s = choose|s: u64| #[trigger]
                            group.surfaces.dom().contains(s) && clients@.contains_key(s) && clients@[s]
                                == c;
                        assert(surfaces.order().contains(s));
                        let k = choose|k: int|
                            0 <= k < surfaces.order().len() && surfaces.order()[k] == s;
                        assert(clients@.contains_key(surfaces.order()[k]));
                    }
                }
                assert(state@ =~= GroupModel { surfaces: Map::empty(), ..group });
            }
        }
        barriers.put(self.group, state);
        proof {
            assert(barriers@.groups.state =~= before@.groups.stored(self.group(), state@).state);
        }
        woken
    }

    /// The blocker this barrier places on its surfaces.
    pub fn blocker(&self) -> (blocker: SurfaceBarrierBlocker)
        ensures
            blocker.group() == self.group(),
    {
        SurfaceBarrierBlocker { group: self.group }
    }
}

/// The delayed blocker a surface barrier places on its surfaces.
#[derive(Debug, Clone, Copy, PartialEq, Eq, Structural)]
pub struct SurfaceBarrierBlocker {
    group: usize,
}

impl SurfaceBarrierBlocker {
    /// The handle of the barrier's group.
    pub closed spec fn group(&self) -> int {
        self.group as int
    }

    /// What this blocker is to the other delayed blockers of its transaction.
    pub fn as_peer(&self) -> (peer: DelayedPeer)
        ensures
            peer matches DelayedPeer::Barrier(g) && g == self.group(),
    {
        DelayedPeer::Barrier(self.group)
    }

    /// The state of the blocker: released once every barrier of the group is released.
    pub fn state(&self, barriers: &Barriers) -> (state: BlockerState)
        requires
            barriers.wf(),
            barriers@.groups.has(self.group()),
        ensures
            state == if barriers@.group(self.group()).all_released(barriers@.flags) {
                BlockerState::Released
            } else {
                BlockerState::Pending
            },
    {
        let ghost root = barriers.groups@.root[self.group as int];
        proof {
            assert(barriers.groups@.state.dom().contains(root));
        }
        let group = barriers.groups.get(self.group);
        proof {
            assert forall|i: int| 0 <= i < group@.members.len() implies #[trigger] group@.members[i]
                < barriers@.flags.len() by {
                assert(barriers@.groups.state[root].members[i] < barriers@.flags.len());
            }
        }
        if group.all_released_now(&barriers.flags) {
            BlockerState::Released
        } else {
            BlockerState::Pending
        }
    }

    /// A surface barrier is a delayed blocker.
    pub fn kind(&self) -> (kind: BlockerKind)
        ensures
            kind == BlockerKind::Delayed,
    {
        BlockerKind::Delayed
    }

    /// Takes note of an event of a transaction this blocker is part of, and returns the
    /// notifiers that became due.
    ///
    /// `surfaces` are the surfaces of the transaction and `delayed` all its delayed blockers;
    /// `alive` holds the surfaces that are still alive.
    pub fn notify(
        &self,
        barriers: &mut Barriers,
        kind: NotifyKind,
        surfaces: &[u64],
        delayed: &[DelayedPeer],
        alive: &HashSet<u64>,
    ) -> (due: Vec<u64>)
        requires
            old(barriers).wf(),
            old(barriers)@.groups.has(self.group()),
            old(barriers)@.knows(delayed@),
        ensures
            final(barriers).wf(),
            ({
                let fused = match kind {
                    NotifyKind::Ready => old(barriers)@.fused_with_all(self.group(), delayed@),
                    NotifyKind::Cancelled => old(barriers)@,
                };
                let group = match kind {
                    NotifyKind::Ready => fused.group(self.group()).marked(
                        surfaces@,
                        any_foreign_pending(delayed@),
                    ),
                    NotifyKind::Cancelled => fused.group(self.group()).without(surfaces@),
                };
                &&& due@ == group.due(alive@)
                &&& final(barriers)@ == fused.with_group(self.group(), group.evaluated(alive@))
            }),
    {
        let ghost before = *barriers;
        let mut foreign_pending: bool = false;
        if kind == NotifyKind::Ready {
            let mut i: usize = 0;
            assert(delayed@.take(0) =~= Seq::<DelayedPeer>::empty());
            while i < delayed.len()
                invariant
                    barriers.wf(),
                    i <= delayed@.len(),
                    before@.groups.has(self.group()),
                    before@.knows(delayed@),
                    barriers@ == before@.fused_with_all(self.group(), delayed@.take(i as int)),
                    foreign_pending == any_foreign_pending(delayed@.take(i as int)),
                decreases delayed@.len() - i,
            {
                let ghost taken = delayed@.take(i as int);
                let ghost next = delayed@.take(i + 1);
                proof {
                    lemma_fused_has(before@, self.group(), taken);
                    assert(next.drop_last() =~= taken);
                    assert(next.last() == delayed@[i as int]);
                    assert(any_foreign_pending(next) <==> any_foreign_pending(taken) || next.last()
                        == DelayedPeer::Foreign(BlockerState::Pending)) by {
                        if any_foreign_pending(taken) {
                            let k = choose|k: int|
                                0 <= k < taken.len() && #[trigger] taken[k] == DelayedPeer::Foreign(
                                    BlockerState::Pending,
                                );
                            assert(next[k] == DelayedPeer::Foreign(BlockerState::Pending));
                        }
                        if any_foreign_pending(next) {
                            let k = choose|k: int|
                                0 <= k < next.len() && #[trigger] next[k] == DelayedPeer::Foreign(
                                    BlockerState::Pending,
                                );
                            if k < i {
                                assert(taken[k] == DelayedPeer::Foreign(BlockerState::Pending));
                            }
                        }
                        assert(next[i as int] == next.last());
                    }
                }
                match delayed[i] {
                    DelayedPeer::Barrier(peer) => {
                        assert(before@.groups.has(peer as int)) by {
                            assert(delayed@[i as int] == DelayedPeer::Barrier(peer));
                        }
                        barriers.fuse(self.group, peer);
                    },
                    DelayedPeer::Foreign(state) => {
                        if state == BlockerState::Pending {
                            foreign_pending = true;
                        }
                    },
                }
                i = i + 1;
            }
            assert(delayed@.take(i as int) =~= delayed@);
        }
        let ghost fused = *barriers;
        let ghost root = fused.groups@.root[self.group as int];
        proof {
            lemma_fused_has(before@, self.group(), delayed@);
            assert(fused.groups@.state.dom().contains(root));
        }
        let mut state = barriers.take(self.group);
        match kind {
            NotifyKind::Ready => state.mark(surfaces, foreign_pending),
            NotifyKind::Cancelled => state.forget(surfaces),
        }
        let ghost group = state@;
        proof {
            assert forall|i: int| 0 <= i < state@.members.len() implies #[trigger] state@.members[i]
                < barriers@.flags.len() by {
                assert(fused@.groups.state[root].members[i] < fused@.flags.len());
            }
        }
        barriers.put(self.group, state);
        let due = barriers.maybe_signal(self.group, alive);
        proof {
            assert(barriers@.groups.state =~= fused@.with_group(
                self.group(),
                group.evaluated(alive@),
            ).groups.state);
        }
        due
    }
}

/// Fusing keeps the barriers well formed, makes both handles share one group and leaves every
/// other group alone. The shared group waits for the surfaces of both groups and is released
/// exactly if both were; its notifiers are those of both.
pub proof fn law_fuse(m: BarriersModel, a: int, b: int)
    requires
        m.well_formed(),
        m.groups.has(a),
        m.groups.has(b),
    ensures
        m.fused(a, b).well_formed(),
        m.fused(a, b).groups.joined(a, b),
        m.fused(a, b).group(a) == m.fused(a, b).group(b),
        m.fused(a, b).group(a).all_released(m.flags) <==> m.group(a).all_released(m.flags)
            && m.group(b).all_released(m.flags),
        m.fused(a, b).group(a).surfaces.dom() == m.group(a).surfaces.dom() + m.group(
            b,
        ).surfaces.dom(),
        forall|n: u64| #[trigger]
            m.fused(a, b).group(a).notifiers.contains(n) <==> m.group(a).notifiers.contains(n) || m.group(
                b,
            ).notifiers.contains(n),
        forall|f: usize| #[trigger]
            m.fused(a, b).group(a).members.contains(f) <==> m.group(a).members.contains(f) || m.group(
                b,
            ).members.contains(f),
        !m.groups.joined(a, b) ==> !m.fused(a, b).group(a).signaled,
        forall|h: int|
            m.groups.has(h) && !m.groups.joined(h, a) && !m.groups.joined(h, b)
                ==> #[trigger] m.fused(a, b).group(h) == m.group(h),
{
    if !m.groups.joined(a, b) {
        let (first, second) = if m.groups.root[a] < m.groups.root[b] {
            (a, b)
        } else {
            (b, a)
        };
        let one = m.group(first);
        let two = m.group(second);
        let both = one.merged(two);
        let after = m.fused(a, b);
        assert(m.groups.state.dom().contains(m.groups.root[a]));
        assert(m.groups.state.dom().contains(m.groups.root[b]));
        assert(after.group(first) == both);
        assert(after.group(second) == both);
        lemma_both_halves(one.members, two.members);
        lemma_both_halves(one.notifiers, two.notifiers);
        assert(both.all_released(m.flags) <==> one.all_released(m.flags) && two.all_released(m.flags))
            by {
            if both.all_released(m.flags) {
                assert forall|i: int| 0 <= i < one.members.len() implies m.flags[#[trigger] one.members[i] as int] by {
                    assert(both.members[i] == one.members[i]);
                }
                assert forall|i: int| 0 <= i < two.members.len() implies m.flags[#[trigger] two.members[i] as int] by {
                    assert(both.members[one.members.len() + i] == two.members[i]);
                }
            }
        }
        assert(both.surfaces.dom() =~= m.group(a).surfaces.dom() + m.group(b).surfaces.dom());
        assert forall|r: int, i: int|
            #![trigger after.groups.state[r].members[i]]
            after.groups.state.dom().contains(r) && 0 <= i < after.groups.state[r].members.len() implies after.groups.state[r].members[i]
            < after.flags.len() by {
            if r == m.groups.root[first] {
                let n = one.members.len();
                if i < n {
                    assert(m.groups.state[r].members[i] < m.flags.len());
                } else {
                    assert(m.groups.state[m.groups.root[second]].members[i - n] < m.flags.len());
                }
            } else {
                assert(m.groups.state[r].members[i] < m.flags.len());
            }
        }
    } else {
        assert(m.group(a) == m.group(b));
        assert(m.group(a).surfaces.dom() =~= m.group(a).surfaces.dom() + m.group(b).surfaces.dom());
    }
}

/// What is in one sequence after another is in either of them.
proof fn lemma_both_halves<T>(one: Seq<T>, two: Seq<T>)
    ensures
        forall|x: T| #[trigger] (one + two).contains(x) <==> one.contains(x) || two.contains(x),
{
    assert forall|x: T| #[trigger] (one + two).contains(x) <==> one.contains(x) || two.contains(x) by {
        if one.contains(x) {
            let i = choose|i: int| 0 <= i < one.len() && one[i] == x;
            assert((one + two)[i] == x);
        }
        if two.contains(x) {
            let i = choose|i: int| 0 <= i < two.len() && two[i] == x;
            assert((one + two)[one.len() + i] == x);
        }
    }
}

/// A barrier lives on through the fusion of any two groups, and through every change of a
/// group's surfaces.
pub proof fn law_barrier_lives_on(
    barrier: SurfaceBarrier,
    m: BarriersModel,
    a: int,
    b: int,
    group: GroupModel,
)
    requires
        m.well_formed(),
        barrier.lives_in(m),
        m.groups.has(a),
        m.groups.has(b),
        group.members == m.group(a).members,
    ensures
        barrier.lives_in(m.fused(a, b)),
        barrier.lives_in(m.with_group(a, group)),
{
    law_fuse(m, a, b);
    assert(m.groups.state.dom().contains(m.groups.root[a]));
    if m.groups.joined(barrier.group(), a) {
        assert(m.group(barrier.group()) == m.group(a));
        assert(m.fused(a, b).group(barrier.group()) == m.fused(a, b).group(a));
    } else if m.groups.joined(barrier.group(), b) {
        assert(m.group(barrier.group()) == m.group(b));
        assert(m.fused(a, b).group(barrier.group()) == m.fused(a, b).group(b));
    }
}

/// No state is applied before every barrier of a group was released: while a barrier's own flag
/// is down, the blockers of its group and of whatever is fused with it are pending.
pub proof fn law_unreleased_barrier_blocks(barrier: SurfaceBarrier, m: BarriersModel, peer: int)
    requires
        m.well_formed(),
        barrier.lives_in(m),
        m.groups.has(peer),
        !m.flags[barrier.flag()],
    ensures
        !m.group(barrier.group()).all_released(m.flags),
        !m.fused(barrier.group(), peer).group(peer).all_released(m.flags),
{
    let members = m.group(barrier.group()).members;
    let i = choose|i: int| 0 <= i < members.len() && members[i] == barrier.flag() as usize;
    assert(!m.flags[members[i] as int]);
    law_fuse(m, barrier.group(), peer);
}

/// The release of a barrier resolves the blockers of its group exactly if the other barriers of
/// the group were released before.
pub proof fn law_last_release_resolves(group: GroupModel, flags: Seq<bool>, flag: int)
    requires
        0 <= flag < flags.len(),
        forall|i: int| 0 <= i < group.members.len() ==> #[trigger] group.members[i] < flags.len(),
    ensures
        group.all_released(flags.update(flag, true)) <==> forall|i: int|
            0 <= i < group.members.len() && group.members[i] != flag
                ==> flags[#[trigger] group.members[i] as int],
{
    let after = flags.update(flag, true);
    if group.all_released(after) {
        assert forall|i: int| 0 <= i < group.members.len() && group.members[i] != flag implies flags[#[trigger] group.members[i] as int] by {
            assert(after[group.members[i] as int]);
        }
    }
}

/// When notifiers are due, some surface is alive, and every surface that is alive waits for
/// nothing but the group.
pub proof fn law_due_when_only_the_group_blocks(group: GroupModel, alive: Set<u64>)
    requires
        group.due(alive).len() > 0,
    ensures
        exists|s: u64| #[trigger] group.surfaces.dom().contains(s) && alive.contains(s),
        forall|s: u64| #[trigger]
            group.surfaces.dom().contains(s) && alive.contains(s) ==> group.surfaces[s].notified
                && !group.surfaces[s].foreign_pending,
        group.evaluated(alive).signaled,
{
}

/// The notification is sent at most once: after it was, neither further notifications, nor
/// cancelled surfaces, nor surfaces that are tracked already make the notifiers due again.
pub proof fn law_notified_once(
    group: GroupModel,
    surfaces: Seq<u64>,
    foreign_pending: bool,
    alive: Set<u64>,
)
    requires
        group.signaled,
    ensures
        group.due(alive) == Seq::<u64>::empty(),
        group.evaluated(alive) == group,
        group.marked(surfaces, foreign_pending).signaled,
        group.without(surfaces).signaled,
        (forall|i: int| 0 <= i < surfaces.len() ==> group.surfaces.dom().contains(#[trigger] surfaces[i]))
            ==> group.registered(surfaces).signaled,
{
}

/// Registering a surface that was not tracked yet re-arms the notification, and the notifiers
/// are not due again while that surface is alive and its transaction was not reported.
pub proof fn law_registering_rearms(group: GroupModel, surfaces: Seq<u64>, new: u64, alive: Set<u64>)
    requires
        surfaces.contains(new),
        !group.surfaces.dom().contains(new),
    ensures
        !group.registered(surfaces).signaled,
        alive.contains(new) ==> group.registered(surfaces).due(alive) == Seq::<u64>::empty(),
{
    let i = choose|i: int| 0 <= i < surfaces.len() && surfaces[i] == new;
    assert(!group.surfaces.dom().contains(surfaces[i]));
    assert(group.registered(surfaces).surfaces.dom().contains(new));
}

/// A foreign pending delayed blocker defers the notification for as long as one of the
/// transaction's tracked surfaces is alive.
pub proof fn law_foreign_blocker_defers(
    group: GroupModel,
    surfaces: Seq<u64>,
    waiting: u64,
    alive: Set<u64>,
)
    requires
        group.surfaces.dom().contains(waiting),
        surfaces.contains(waiting),
        alive.contains(waiting),
    ensures
        group.marked(surfaces, true).due(alive) == Seq::<u64>::empty(),
{
    assert(group.marked(surfaces, true).surfaces.dom().contains(waiting));
}

/// Cancelled transactions do not stall a group: it becomes ready once its other surfaces are.
pub proof fn law_cancelled_surfaces_are_not_waited_for(
    group: GroupModel,
    cancelled: Seq<u64>,
    alive: Set<u64>,
)
    ensures
        group.without(cancelled).ready(alive) <==> {
            &&& forall|s: u64| #[trigger]
                group.surfaces.dom().contains(s) && alive.contains(s) && !cancelled.contains(s)
                    ==> group.surfaces[s].notified && !group.surfaces[s].foreign_pending
            &&& exists|s: u64| #[trigger]
                group.surfaces.dom().contains(s) && alive.contains(s) && !cancelled.contains(s)
        },
{
    let rest = group.without(cancelled);
    assert forall|s: u64| #[trigger] rest.surfaces.dom().contains(s) <==> group.surfaces.dom().contains(s)
        && !cancelled.contains(s) by {
        assert(cancelled.to_set().contains(s) <==> cancelled.contains(s));
    }
    if rest.ready(alive) {
        assert forall|s: u64| #[trigger] group.surfaces.dom().contains(s) && alive.contains(s)
            && !cancelled.contains(s) implies group.surfaces[s].notified
            && !group.surfaces[s].foreign_pending by {
            assert(rest.surfaces.dom().contains(s));
        }
        let s = choose|s: u64| #[trigger] rest.surfaces.dom().contains(s) && alive.contains(s);
        assert(group.surfaces.dom().contains(s));
    }
    if exists|s: u64| #[trigger]
        group.surfaces.dom().contains(s) && alive.contains(s) && !cancelled.contains(s) {
        let s = choose|s: u64| #[trigger]
            group.surfaces.dom().contains(s) && alive.contains(s) && !cancelled.contains(s);
        assert(rest.surfaces.dom().contains(s));
    }
}

/// A group that absorbs another takes over its entries as they are, and its members and notifiers
/// behind its own.
proof fn law_absorbing_changes_no_entry(state: &mut BarrierGroupState, other: BarrierGroupState, s: u64)
    requires
        call_ensures(BarrierGroupState::absorb, (state, other), ()),
    ensures
        ({
            let one = old(state)@.surfaces;
            let both = final(state)@.surfaces;
            &&& both.dom().contains(s) <==> one.dom().contains(s) || other@.surfaces.dom().contains(s)
            &&& other@.surfaces.dom().contains(s) ==> both[s] == other@.surfaces[s]
            &&& one.dom().contains(s) && !other@.surfaces.dom().contains(s) ==> both[s] == one[s]
            &&& final(state)@.members == old(state)@.members + other@.members
            &&& final(state)@.notifiers == old(state)@.notifiers + other@.notifiers
            &&& !final(state)@.signaled
        }),
{
}

/// A group marks exactly the named surfaces that it waits for, and forgets exactly the named ones.
proof fn law_marking_and_forgetting(
    marked: &mut BarrierGroupState,
    forgotten: &mut BarrierGroupState,
    surfaces: &[u64],
    foreign_pending: bool,
    s: u64,
)
    requires
        call_ensures(BarrierGroupState::mark, (marked, surfaces, foreign_pending), ()),
        call_ensures(BarrierGroupState::forget, (forgotten, surfaces), ()),
    ensures
        final(marked)@.surfaces.dom() == old(marked)@.surfaces.dom(),
        old(marked)@.surfaces.dom().contains(s) ==> final(marked)@.surfaces[s] == (
        if surfaces@.contains(s) {
            BarrierSurfaceEntry { notified: true, foreign_pending }
        } else {
            old(marked)@.surfaces[s]
        }),
        final(forgotten)@.surfaces.dom().contains(s) <==> old(forgotten)@.surfaces.dom().contains(s)
            && !surfaces@.contains(s),
        final(forgotten)@.surfaces.dom().contains(s) ==> final(forgotten)@.surfaces[s] == old(
            forgotten
        )@.surfaces[s],
{
    assert(final(marked)@.surfaces.dom() =~= old(marked)@.surfaces.dom());
}

} // verus!
