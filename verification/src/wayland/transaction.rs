//! The transaction model for surface states.
//!
//! Each surface has a pending transaction into which its newly committed state is recorded. On
//! commit the pending transactions of synchronized children are merged into the one of their
//! parent. A finalized transaction waits in a queue until all its blockers are released and no
//! earlier transaction touches one of its surfaces; if a blocker is cancelled, the transaction
//! is dropped.

use std::collections::HashSet;

use vstd::prelude::*;

use crate::wayland::blocker::{BlockerKind, BlockerState, NotifyKind};
use crate::wayland::forest::Forest;
use crate::wayland::forest::ForestModel;

verus! {

broadcast use vstd::std_specs::hash::group_hash_axioms;

/// A number that identifies a commit. Numbers wrap around, so of two that are far apart the
/// larger one is the older one.
#[derive(Debug, Clone, Copy, PartialEq, Eq, Structural)]
pub struct Serial(pub u32);

impl Serial {
    /// Whether `self` comes before `other`.
    pub open spec fn before(self, other: Serial) -> bool {
        if self.0 < other.0 {
            other.0 - self.0 < 0x7fff_ffff
        } else {
            self.0 - other.0 >= 0x7fff_ffff
        }
    }

    /// The later of two serials.
    pub open spec fn later(self, other: Serial) -> Serial {
        if self.before(other) {
            other
        } else {
            self
        }
    }

    /// Whether this serial comes before another.
    pub fn is_before(&self, other: &Serial) -> (before: bool)
        ensures
            before == self.before(*other),
    {
        if self.0 < other.0 {
            other.0 - self.0 < 0x7fff_ffff
        } else {
            self.0 - other.0 >= 0x7fff_ffff
        }
    }
}

/// Of two different serials one comes before the other, and not both; none comes before itself.
pub proof fn law_serials_are_ordered(a: Serial, b: Serial)
    ensures
        !a.before(a),
        a != b ==> (a.before(b) <==> !b.before(a)),
{
}

/// A surface: the object, and the number by which its client knows it. A number can be used
/// again once the object is gone.
#[derive(Debug, Clone, Copy, PartialEq, Eq, Structural)]
pub struct Surface {
    pub object: u64,
    pub protocol_id: u32,
}

/// The commit of a surface that takes part in a transaction.
#[derive(Debug, Clone, Copy, PartialEq, Eq, Structural)]
pub struct SurfaceCommit {
    pub surface: Surface,
    pub serial: Serial,
}

/// The kind of a blocker, and its state at the moment.
#[derive(Debug, Clone, Copy, PartialEq, Eq, Structural)]
pub struct BlockerInfo {
    pub kind: BlockerKind,
    pub state: BlockerState,
}

/// What surrounds the transactions at one moment: the surfaces that are alive, and the
/// blockers, by number.
pub struct Snapshot {
    pub alive: HashSet<u64>,
    pub blockers: Vec<BlockerInfo>,
}

/// What a [`Snapshot`] means.
#[verifier::ext_equal]
pub struct SnapshotModel {
    pub alive: Set<u64>,
    pub blockers: Seq<BlockerInfo>,
}

impl Snapshot {
    pub open spec fn view(&self) -> SnapshotModel {
        SnapshotModel { alive: self.alive@, blockers: self.blockers@ }
    }
}

/// What a pending transaction has collected.
pub struct TransactionState {
    surfaces: Vec<SurfaceCommit>,
    blockers: Vec<usize>,
}

/// What a [`TransactionState`] means.
#[verifier::ext_equal]
pub struct StateModel {
    pub surfaces: Seq<SurfaceCommit>,
    pub blockers: Seq<usize>,
}

impl StateModel {
    /// Nothing collected yet.
    pub open spec fn empty() -> StateModel {
        StateModel { surfaces: Seq::empty(), blockers: Seq::empty() }
    }

    /// Whether a commit of `surface` was recorded at this index.
    pub open spec fn has_at(self, surface: Surface, i: int) -> bool {
        0 <= i < self.surfaces.len() && self.surfaces[i].surface == surface
    }

    /// No surface is listed twice.
    pub open spec fn distinct(self) -> bool {
        forall|i: int, j: int|
            0 <= i < self.surfaces.len() && 0 <= j < self.surfaces.len()
                && #[trigger] self.surfaces[i].surface == #[trigger] self.surfaces[j].surface ==> i
                == j
    }

    /// The commit that is recorded for a surface.
    pub open spec fn serial_of(self, surface: Surface) -> Option<Serial> {
        if exists|i: int| self.has_at(surface, i) {
            let i = choose|i: int| self.has_at(surface, i);
            Some(self.surfaces[i].serial)
        } else {
            None
        }
    }

    /// The state with a commit recorded: of a surface that is listed already the later commit
    /// counts, any other is appended.
    pub open spec fn recorded(self, commit: SurfaceCommit) -> StateModel {
        if exists|i: int| self.has_at(commit.surface, i) {
            let i = choose|i: int| self.has_at(commit.surface, i);
            StateModel {
                surfaces: self.surfaces.update(
                    i,
                    SurfaceCommit {
                        surface: commit.surface,
                        serial: self.surfaces[i].serial.later(commit.serial),
                    },
                ),
                ..self
            }
        } else {
            StateModel { surfaces: self.surfaces.push(commit), ..self }
        }
    }

    /// The state with every commit recorded whose surface is alive.
    pub open spec fn recorded_all(self, commits: Seq<SurfaceCommit>, alive: Set<u64>) -> StateModel
        decreases commits.len(),
    {
        if commits.len() == 0 {
            self
        } else {
            let before = self.recorded_all(commits.drop_last(), alive);
            if alive.contains(commits.last().surface.object) {
                before.recorded(commits.last())
            } else {
                before
            }
        }
    }

    /// The state after another one was merged into it.
    pub open spec fn merged(self, other: StateModel, alive: Set<u64>) -> StateModel {
        StateModel {
            surfaces: self.recorded_all(other.surfaces, alive).surfaces,
            blockers: self.blockers + other.blockers,
        }
    }
}

impl TransactionState {
    pub closed spec fn view(&self) -> StateModel {
        StateModel { surfaces: self.surfaces@, blockers: self.blockers@ }
    }

    fn empty() -> (state: Self)
        ensures
            state@ == StateModel::empty(),
    {
        let state = TransactionState { surfaces: Vec::new(), blockers: Vec::new() };
        assert(state@ =~= StateModel::empty());
        state
    }

    /// Records a commit.
    fn insert(&mut self, commit: SurfaceCommit)
        requires
            old(self)@.distinct(),
        ensures
            final(self)@ == old(self)@.recorded(commit),
            final(self)@.distinct(),
    {
        let ghost before = self@;
        let mut i: usize = 0;
        while i < self.surfaces.len()
            invariant
                self@ == before,
                before == old(self)@,
                before.distinct(),
                i <= self.surfaces@.len(),
                forall|k: int| 0 <= k < i ==> !#[trigger] before.has_at(commit.surface, k),
            decreases self.surfaces@.len() - i,
        {
            if self.surfaces[i].surface == commit.surface {
                assert(before.has_at(commit.surface, i as int));
                if self.surfaces[i].serial.is_before(&commit.serial) {
                    self.surfaces[i] = commit;
                }
                proof {
                    let k = choose|k: int| before.has_at(commit.surface, k);
                    assert(before.surfaces[k].surface == before.surfaces[i as int].surface);
                    assert(k == i);
                    assert(self@ =~= before.recorded(commit));
                    lemma_recorded_distinct(before, commit);
                }
                return ;
            }
            i = i + 1;
        }
        self.surfaces.push(commit);
        proof {
            assert(!exists|k: int| before.has_at(commit.surface, k));
            assert(self@.surfaces =~= before.recorded(commit).surfaces);
            lemma_recorded_distinct(before, commit);
        }
    }
}

/// Recording a commit lists no surface twice.
proof fn lemma_recorded_distinct(state: StateModel, commit: SurfaceCommit)
    requires
        state.distinct(),
    ensures
        state.recorded(commit).distinct(),
{
    let after = state.recorded(commit);
    if exists|i: int| state.has_at(commit.surface, i) {
        let i = choose|i: int| state.has_at(commit.surface, i);
        assert forall|a: int, b: int|
            0 <= a < after.surfaces.len() && 0 <= b < after.surfaces.len()
                && #[trigger] after.surfaces[a].surface == #[trigger] after.surfaces[b].surface implies a
            == b by {
            assert(after.surfaces[a].surface == state.surfaces[a].surface);
            assert(after.surfaces[b].surface == state.surfaces[b].surface);
        }
    } else {
        let n = state.surfaces.len();
        assert forall|a: int, b: int|
            0 <= a < after.surfaces.len() && 0 <= b < after.surfaces.len()
                && #[trigger] after.surfaces[a].surface == #[trigger] after.surfaces[b].surface implies a
            == b by {
            if a < n && b < n {
                assert(state.surfaces[a].surface == state.surfaces[b].surface);
            } else if a < n {
                assert(state.has_at(commit.surface, a));
            } else if b < n {
                assert(state.has_at(commit.surface, b));
            }
        }
    }
}

/// The later of two commits, either of which may be missing.
pub open spec fn latest(a: Option<Serial>, b: Option<Serial>) -> Option<Serial> {
    match (a, b) {
        (Some(a), Some(b)) => Some(a.later(b)),
        (Some(a), None) => Some(a),
        (None, b) => b,
    }
}

/// Only the list of surfaces decides which commit is recorded for a surface.
proof fn lemma_same_surfaces(a: StateModel, b: StateModel, surface: Surface)
    requires
        a.surfaces == b.surfaces,
        a.distinct(),
    ensures
        a.serial_of(surface) == b.serial_of(surface),
{
    if exists|i: int| a.has_at(surface, i) {
        let i = choose|i: int| a.has_at(surface, i);
        assert(b.has_at(surface, i));
        let j = choose|j: int| b.has_at(surface, j);
        assert(a.surfaces[i].surface == a.surfaces[j].surface);
    } else if exists|i: int| b.has_at(surface, i) {
        let i = choose|i: int| b.has_at(surface, i);
        assert(a.has_at(surface, i));
    }
}

/// In a list without duplicates, whatever commit is listed for a surface is the one recorded.
proof fn lemma_serial_at(state: StateModel, surface: Surface, i: int)
    requires
        state.distinct(),
        state.has_at(surface, i),
    ensures
        state.serial_of(surface) == Some(state.surfaces[i].serial),
{
    let j = choose|j: int| state.has_at(surface, j);
    assert(state.surfaces[i].surface == state.surfaces[j].surface);
}

/// Recording a commit changes what is recorded for its surface to the later commit, and nothing
/// else.
pub proof fn law_record(state: StateModel, commit: SurfaceCommit, surface: Surface)
    requires
        state.distinct(),
    ensures
        state.recorded(commit).distinct(),
        state.recorded(commit).serial_of(surface) == if surface == commit.surface {
            latest(state.serial_of(surface), Some(commit.serial))
        } else {
            state.serial_of(surface)
        },
{
    lemma_recorded_distinct(state, commit);
    let after = state.recorded(commit);
    if exists|i: int| state.has_at(commit.surface, i) {
        let i = choose|i: int| state.has_at(commit.surface, i);
        assert(after.has_at(commit.surface, i));
        lemma_serial_at(after, commit.surface, i);
        lemma_serial_at(state, commit.surface, i);
        if surface != commit.surface {
            if exists|k: int| state.has_at(surface, k) {
                let k = choose|k: int| state.has_at(surface, k);
                assert(after.has_at(surface, k));
                lemma_serial_at(after, surface, k);
            } else if exists|k: int| after.has_at(surface, k) {
                let k = choose|k: int| after.has_at(surface, k);
                assert(state.has_at(surface, k));
            }
        }
    } else {
        let n = state.surfaces.len() as int;
        assert(after.has_at(commit.surface, n));
        lemma_serial_at(after, commit.surface, n);
        if surface != commit.surface {
            if exists|k: int| state.has_at(surface, k) {
                let k = choose|k: int| state.has_at(surface, k);
                assert(after.has_at(surface, k));
                lemma_serial_at(after, surface, k);
            } else if exists|k: int| after.has_at(surface, k) {
                let k = choose|k: int| after.has_at(surface, k);
                assert(state.has_at(surface, k));
            }
        }
    }
}

/// Recording a list of commits, each of another surface.
proof fn lemma_recorded_all(
    state: StateModel,
    commits: Seq<SurfaceCommit>,
    whole: StateModel,
    alive: Set<u64>,
)
    requires
        state.distinct(),
        whole.distinct(),
        commits.len() <= whole.surfaces.len(),
        commits == whole.surfaces.take(commits.len() as int),
    ensures
        state.recorded_all(commits, alive).distinct(),
        forall|s: Surface| #[trigger]
            state.recorded_all(commits, alive).serial_of(s) == if alive.contains(s.object) {
                latest(
                    state.serial_of(s),
                    (StateModel { surfaces: commits, blockers: Seq::empty() }).serial_of(s),
                )
            } else {
                state.serial_of(s)
            },
    decreases commits.len(),
{
    let part = StateModel { surfaces: commits, blockers: Seq::empty() };
    if commits.len() == 0 {
        assert forall|s: Surface| #[trigger] part.serial_of(s) == None::<Serial> by {}
    } else {
        let fewer = commits.drop_last();
        let n = fewer.len() as int;
        assert(fewer =~= whole.surfaces.take(n));
        lemma_recorded_all(state, fewer, whole, alive);
        let before = state.recorded_all(fewer, alive);
        let less = StateModel { surfaces: fewer, blockers: Seq::empty() };
        let commit = commits.last();
        assert(part.distinct()) by {
            assert forall|i: int, j: int|
                0 <= i < part.surfaces.len() && 0 <= j < part.surfaces.len()
                    && #[trigger] part.surfaces[i].surface == #[trigger] part.surfaces[j].surface implies i
                == j by {
                assert(whole.surfaces[i].surface == whole.surfaces[j].surface);
            }
        }
        assert(less.distinct()) by {
            assert forall|i: int, j: int|
                0 <= i < less.surfaces.len() && 0 <= j < less.surfaces.len()
                    && #[trigger] less.surfaces[i].surface == #[trigger] less.surfaces[j].surface implies i
                == j by {
                assert(whole.surfaces[i].surface == whole.surfaces[j].surface);
            }
        }
        assert(part.has_at(commit.surface, n));
        lemma_serial_at(part, commit.surface, n);
        assert forall|s: Surface| #[trigger] part.serial_of(s) == (if s == commit.surface {
            Some(commit.serial)
        } else {
            less.serial_of(s)
        }) by {
            if s != commit.surface {
                if exists|k: int| less.has_at(s, k) {
                    let k = choose|k: int| less.has_at(s, k);
                    assert(part.has_at(s, k));
                    lemma_serial_at(part, s, k);
                } else if exists|k: int| part.has_at(s, k) {
                    let k = choose|k: int| part.has_at(s, k);
                    assert(less.has_at(s, k));
                }
            }
        }
        assert(less.serial_of(commit.surface) == None::<Serial>) by {
            if exists|k: int| less.has_at(commit.surface, k) {
                let k = choose|k: int| less.has_at(commit.surface, k);
                assert(whole.surfaces[k].surface == whole.surfaces[n].surface);
            }
        }
        assert forall|s: Surface| #[trigger] state.recorded_all(commits, alive).serial_of(s) == (
        if alive.contains(s.object) {
            latest(state.serial_of(s), part.serial_of(s))
        } else {
            state.serial_of(s)
        }) by {
            law_record(before, commit, s);
            assert(before.serial_of(s) == if alive.contains(s.object) {
                latest(state.serial_of(s), less.serial_of(s))
            } else {
                state.serial_of(s)
            });
        }
        lemma_recorded_distinct(before, commit);
    }
}

/// All pending transactions, with the state their handles share.
pub struct PendingTransactions {
    states: Forest<TransactionState>,
    live: Vec<bool>,
}

/// What [`PendingTransactions`] mean.
#[verifier::ext_equal]
pub struct PendingModel {
    /// The collected states.
    pub states: ForestModel<StateModel>,
    /// Which handles are still held by someone.
    pub live: Seq<bool>,
}

impl PendingModel {
    /// What the transaction of a handle has collected.
    pub open spec fn state(self, handle: int) -> StateModel {
        self.states.resolve(handle)
    }

    /// The transactions with another state behind a handle.
    pub open spec fn with_state(self, handle: int, state: StateModel) -> PendingModel {
        PendingModel { states: self.states.stored(handle, state), ..self }
    }

    /// Whether no other handle to the same transaction is held.
    pub open spec fn is_last(self, handle: int) -> bool {
        forall|h: int|
            self.states.has(h) && h != handle && #[trigger] self.live[h] ==> !self.states.joined(
                h,
                handle,
            )
    }

    /// The transactions after that of `from` was merged into that of `into`.
    pub open spec fn merged(self, from: int, into: int, alive: Set<u64>) -> PendingModel {
        if self.states.joined(from, into) {
            self
        } else {
            PendingModel {
                states: self.states.linked(from, into).stored(
                    into,
                    self.state(into).merged(self.state(from), alive),
                ),
                ..self
            }
        }
    }

    /// The handles resolve to states, none of which lists a surface twice.
    pub open spec fn well_formed(self) -> bool {
        &&& self.states.well_formed()
        &&& self.live.len() == self.states.root.len()
        &&& forall|r: int| #[trigger]
            self.states.state.dom().contains(r) ==> self.states.state[r].distinct()
    }
}

impl PendingTransactions {
    pub closed spec fn view(&self) -> PendingModel {
        PendingModel {
            states: ForestModel {
                root: self.states@.root,
                state: self.states@.state.map_values(|s: TransactionState| s@),
            },
            live: self.live@,
        }
    }

    pub closed spec fn wf(&self) -> bool {
        &&& self.states.wf()
        &&& self.states@.well_formed()
        &&& self@.well_formed()
    }

    /// No transactions.
    pub fn new() -> (pending: Self)
        ensures
            pending.wf(),
            pending@.states.root == Seq::<int>::empty(),
    {
        PendingTransactions { states: Forest::new(), live: Vec::new() }
    }

    /// Takes the state behind a handle out; an empty one takes its place.
    fn take(&mut self, handle: usize) -> (state: TransactionState)
        requires
            old(self).wf(),
            old(self)@.states.has(handle as int),
        ensures
            final(self).wf(),
            final(self)@ == old(self)@.with_state(handle as int, StateModel::empty()),
            state@ == old(self)@.state(handle as int),
            state@.distinct(),
    {
        let ghost before = *self;
        proof {
            assert(before.states@.state.dom().contains(before.states@.root[handle as int]));
            assert(before@.states.state.dom().contains(before.states@.root[handle as int]));
        }
        let empty = TransactionState::empty();
        let ghost model = empty@;
        let state = self.states.replace(handle, empty);
        proof {
            assert(self@.states.state =~= before@.states.stored(handle as int, model).state);
            assert(self@ =~= before@.with_state(handle as int, model));
        }
        state
    }

    /// Puts a state behind a handle.
    fn put(&mut self, handle: usize, state: TransactionState)
        requires
            old(self).wf(),
            old(self)@.states.has(handle as int),
            state@.distinct(),
        ensures
            final(self).wf(),
            final(self)@ == old(self)@.with_state(handle as int, state@),
    {
        let ghost before = *self;
        proof {
            assert(before.states@.state.dom().contains(before.states@.root[handle as int]));
        }
        let _previous = self.states.replace(handle, state);
        proof {
            assert(self@.states.state =~= before@.states.stored(handle as int, state@).state);
            assert(self@ =~= before@.with_state(handle as int, state@));
        }
    }
}

/// A handle to a pending transaction.
pub struct PendingTransaction {
    node: usize,
}

impl PendingTransaction {
    /// The number of the handle.
    pub closed spec fn handle(&self) -> int {
        self.node as int
    }

    /// Whether the handle is one of `pending`'s, and was not given back.
    pub open spec fn lives_in(&self, pending: PendingModel) -> bool {
        &&& pending.states.has(self.handle())
        &&& pending.live[self.handle()]
    }

    /// Starts a new, empty transaction.
    pub fn new(pending: &mut PendingTransactions) -> (handle: Self)
        requires
            old(pending).wf(),
        ensures
            final(pending).wf(),
            handle.lives_in(final(pending)@),
            handle.handle() == old(pending)@.states.root.len(),
            final(pending)@.states == old(pending)@.states.grown(StateModel::empty()),
            final(pending)@.live == old(pending)@.live.push(true),
            final(pending)@.is_last(handle.handle()),
    {
        let ghost before = *pending;
        let empty = TransactionState::empty();
        let ghost model = empty@;
        let node: usize = pending.states.add(empty);
        pending.live.push(true);
        proof {
            assert(pending@.states.state =~= before@.states.grown(model).state);
            assert forall|h: int|
                pending@.states.has(h) && h != node && #[trigger] pending@.live[h] implies !pending@.states.joined(
                h,
                node as int,
            ) by {
                assert(before.states@.root[h] < before.states@.root.len());
            }
        }
        PendingTransaction { node }
    }

    /// Records the commit of a surface.
    pub fn insert_state(&self, pending: &mut PendingTransactions, surface: Surface, id: Serial)
        requires
            old(pending).wf(),
            self.lives_in(old(pending)@),
        ensures
            final(pending).wf(),
            final(pending)@ == old(pending)@.with_state(
                self.handle(),
                old(pending)@.state(self.handle()).recorded(SurfaceCommit { surface, serial: id }),
            ),
    {
        let ghost before = *pending;
        let mut state = pending.take(self.node);
        state.insert(SurfaceCommit { surface, serial: id });
        pending.put(self.node, state);
        assert(pending@.states.state =~= before@.with_state(self.handle(), state@).states.state);
    }

    /// Adds a blocker.
    pub fn add_blocker(&self, pending: &mut PendingTransactions, blocker: usize)
        requires
            old(pending).wf(),
            self.lives_in(old(pending)@),
        ensures
            final(pending).wf(),
            ({
                let state = old(pending)@.state(self.handle());
                final(pending)@ == old(pending)@.with_state(
                    self.handle(),
                    StateModel { blockers: state.blockers.push(blocker), ..state },
                )
            }),
    {
        let ghost before = *pending;
        let mut state = pending.take(self.node);
        let ghost model = state@;
        state.blockers.push(blocker);
        assert(state@ =~= (StateModel { blockers: model.blockers.push(blocker), ..model }));
        pending.put(self.node, state);
        assert(pending@.states.state =~= before@.with_state(self.handle(), state@).states.state);
    }

    /// Whether two handles belong to the same transaction.
    pub fn is_same_as(&self, other: &PendingTransaction, pending: &PendingTransactions) -> (same: bool)
        requires
            pending.wf(),
            self.lives_in(pending@),
            other.lives_in(pending@),
        ensures
            same == pending@.states.joined(self.handle(), other.handle()),
    {
        pending.states.find(self.node) == pending.states.find(other.node)
    }

    /// Merges this transaction into another one. Both handles belong to the same transaction
    /// afterwards. Commits of surfaces that are gone are left out.
    pub fn merge_into(
        &self,
        into: &PendingTransaction,
        pending: &mut PendingTransactions,
        alive: &HashSet<u64>,
    )
        requires
            old(pending).wf(),
            self.lives_in(old(pending)@),
            into.lives_in(old(pending)@),
        ensures
            final(pending).wf(),
            final(pending)@ == old(pending)@.merged(self.handle(), into.handle(), alive@),
    {
        if self.is_same_as(into, pending) {
            return ;
        }
        let ghost before = *pending;
        let ghost from_root = before.states@.root[self.node as int];
        let ghost into_root = before.states@.root[into.node as int];
        proof {
            assert(before.states@.state.dom().contains(from_root));
            assert(before.states@.state.dom().contains(into_root));
            assert(before@.states.state.dom().contains(from_root));
            assert(before@.states.state.dom().contains(into_root));
        }
        let mine = pending.states.link(self.node, into.node);
        let ghost middle = *pending;
        proof {
            assert(middle@.states.state =~= before@.states.linked(self.handle(), into.handle()).state);
            assert(middle@.states.root =~= before@.states.linked(self.handle(), into.handle()).root);
            assert(middle@.well_formed()) by {
                assert forall|r: int| #[trigger] middle@.states.state.dom().contains(r) implies middle@.states.state[r].distinct() by {
                    assert(before@.states.state.dom().contains(r));
                }
            }
        }
        let mut state = pending.take(into.node);
        let ghost target = state@;
        assert(target == before@.state(into.handle()));
        let mut i: usize = 0;
        assert(mine@.surfaces.take(0) =~= Seq::<SurfaceCommit>::empty());
        while i < mine.surfaces.len()
            invariant
                i <= mine.surfaces@.len(),
                mine@.surfaces == mine.surfaces@,
                state@.distinct(),
                state@.surfaces == target.recorded_all(mine@.surfaces.take(i as int), alive@).surfaces,
                state@.blockers == target.blockers,
                target.recorded_all(mine@.surfaces.take(i as int), alive@).blockers
                    == target.blockers,
            decreases mine.surfaces@.len() - i,
        {
            let commit = mine.surfaces[i];
            proof {
                let next = mine@.surfaces.take(i + 1);
                assert(next.drop_last() =~= mine@.surfaces.take(i as int));
                assert(next.last() == commit);
                assert(state@ =~= target.recorded_all(mine@.surfaces.take(i as int), alive@));
            }
            if alive.contains(&commit.surface.object) {
                state.insert(commit);
            }
            i = i + 1;
        }
        assert(mine@.surfaces.take(i as int) =~= mine@.surfaces);
        let mut blockers = mine.blockers;
        state.blockers.append(&mut blockers);
        proof {
            assert(state@ =~= target.merged(mine@, alive@));
        }
        pending.put(into.node, state);
        proof {
            assert(mine@ == before@.state(self.handle()));
            assert(pending@.states.state =~= before@.merged(
                self.handle(),
                into.handle(),
                alive@,
            ).states.state);
        }
    }

    /// Gives the handle back.
    pub fn discard(self, pending: &mut PendingTransactions)
        requires
            old(pending).wf(),
            self.lives_in(old(pending)@),
        ensures
            final(pending).wf(),
            final(pending)@.states == old(pending)@.states,
            final(pending)@.live == old(pending)@.live.update(self.handle(), false),
    {
        pending.live[self.node] = false;
    }

    /// Whether this is the last handle to its transaction.
    pub fn is_last_handle(&self, pending: &PendingTransactions) -> (last: bool)
        requires
            pending.wf(),
            self.lives_in(pending@),
        ensures
            last == pending@.is_last(self.handle()),
    {
        let root: usize = pending.states.find(self.node);
        let mut h: usize = 0;
        while h < pending.live.len()
            invariant
                pending.wf(),
                self.lives_in(pending@),
                root == pending@.states.root[self.handle()],
                h <= pending.live@.len(),
                forall|k: int|
                    0 <= k < h && k != self.handle() && #[trigger] pending@.live[k]
                        ==> !pending@.states.joined(k, self.handle()),
            decreases pending.live@.len() - h,
        {
            if h != self.node && pending.live[h] && pending.states.find(h) == root {
                assert(pending@.live[h as int]);
                return false;
            }
            h = h + 1;
        }
        true
    }

    /// Turns the pending transaction into one that can be queued. This has to be the last
    /// handle to it.
    pub fn finalize(self, pending: &mut PendingTransactions) -> (transaction: Transaction)
        requires
            old(pending).wf(),
            self.lives_in(old(pending)@),
            old(pending)@.is_last(self.handle()),
        ensures
            final(pending).wf(),
            final(pending)@.states == old(pending)@.states.stored(
                self.handle(),
                StateModel::empty(),
            ),
            final(pending)@.live == old(pending)@.live.update(self.handle(), false),
            transaction@ == (TransactionModel {
                surfaces: old(pending)@.state(self.handle()).surfaces,
                blockers: old(pending)@.state(self.handle()).blockers,
                last_pending_delayed: None,
            }),
    {
        let state = pending.take(self.node);
        let ghost middle = *pending;
        pending.live[self.node] = false;
        assert(pending@.states =~= middle@.states);
        Transaction { surfaces: state.surfaces, blockers: state.blockers, last_pending_delayed: None }
    }
}

/// A transaction that waits to be applied.
pub struct Transaction {
    surfaces: Vec<SurfaceCommit>,
    blockers: Vec<usize>,
    /// The number of pending delayed blockers at the last notification, if there was one.
    last_pending_delayed: Option<usize>,
}

/// What a [`Transaction`] means.
#[verifier::ext_equal]
pub struct TransactionModel {
    pub surfaces: Seq<SurfaceCommit>,
    pub blockers: Seq<usize>,
    pub last_pending_delayed: Option<usize>,
}

/// A notification that is due to the delayed blockers of a transaction.
pub struct DelayedNotification {
    /// What happened to the transaction.
    pub kind: NotifyKind,
    /// The surfaces of the transaction that are alive.
    pub surfaces: Vec<Surface>,
    /// The delayed blockers of the transaction, which are to be notified in this order.
    pub delayed: Vec<usize>,
}

/// What a [`DelayedNotification`] means.
#[verifier::ext_equal]
pub struct NotificationModel {
    pub kind: NotifyKind,
    pub surfaces: Seq<Surface>,
    pub delayed: Seq<usize>,
}

impl DelayedNotification {
    pub open spec fn view(&self) -> NotificationModel {
        NotificationModel { kind: self.kind, surfaces: self.surfaces@, delayed: self.delayed@ }
    }
}

/// What becomes of a transaction in one pass over its queue.
pub enum Verdict {
    /// It is ready to be applied.
    Apply,
    /// It is cancelled and dropped.
    Discard,
    /// It waits for an immediate blocker or for an earlier transaction.
    Wait,
    /// It only waits for delayed blockers.
    Delayed,
}

impl SnapshotModel {
    /// Whether a surface is alive.
    pub open spec fn lives(self, commit: SurfaceCommit) -> bool {
        self.alive.contains(commit.surface.object)
    }

    /// Whether a blocker is evaluated when only blockers of the given kind are.
    pub open spec fn counts(self, blocker: usize, kind: Option<BlockerKind>) -> bool {
        kind matches Some(kind) ==> self.blockers[blocker as int].kind == kind
    }

    /// Whether a blocker is in this state.
    pub open spec fn is_in(self, blocker: usize, state: BlockerState) -> bool {
        self.blockers[blocker as int].state == state
    }

    /// Whether a blocker is a delayed one.
    pub open spec fn is_delayed(self, blocker: usize) -> bool {
        self.blockers[blocker as int].kind == BlockerKind::Delayed
    }
}

impl TransactionModel {
    /// Whether the snapshot says something of every blocker of the transaction.
    pub open spec fn known_in(self, world: SnapshotModel) -> bool {
        forall|i: int|
            0 <= i < self.blockers.len() ==> #[trigger] self.blockers[i] < world.blockers.len()
    }

    /// Whether one of the surfaces is alive.
    pub open spec fn any_alive(self, world: SnapshotModel) -> bool {
        exists|i: int| 0 <= i < self.surfaces.len() && world.lives(#[trigger] self.surfaces[i])
    }

    /// Whether a blocker of the given kind is in the given state.
    pub open spec fn any_blocker(
        self,
        kind: Option<BlockerKind>,
        state: BlockerState,
        world: SnapshotModel,
    ) -> bool {
        exists|i: int|
            0 <= i < self.blockers.len() && world.counts(#[trigger] self.blockers[i], kind)
                && world.is_in(self.blockers[i], state)
    }

    /// The state of the transaction with regard to its blockers of the given kind, or to all of
    /// them.
    pub open spec fn state(self, kind: Option<BlockerKind>, world: SnapshotModel) -> BlockerState {
        if !self.any_alive(world) {
            BlockerState::Cancelled
        } else if self.any_blocker(kind, BlockerState::Cancelled, world) {
            BlockerState::Cancelled
        } else if self.any_blocker(kind, BlockerState::Pending, world) {
            BlockerState::Pending
        } else {
            BlockerState::Released
        }
    }

    /// The delayed blockers.
    pub open spec fn delayed(self, world: SnapshotModel) -> Seq<usize> {
        self.blockers.filter(|b: usize| world.is_delayed(b))
    }

    /// The delayed blockers that are pending.
    pub open spec fn pending_delayed(self, world: SnapshotModel) -> Seq<usize> {
        self.blockers.filter(|b: usize| world.is_delayed(b) && world.is_in(b, BlockerState::Pending))
    }

    /// The surfaces that are alive.
    pub open spec fn live_surfaces(self, world: SnapshotModel) -> Seq<Surface> {
        self.surfaces.filter(|c: SurfaceCommit| world.lives(c)).map_values(
            |c: SurfaceCommit| c.surface,
        )
    }

    /// The notification that is due to the delayed blockers, if there are any.
    pub open spec fn notification(self, kind: NotifyKind, world: SnapshotModel) -> Seq<
        NotificationModel,
    > {
        if self.delayed(world).len() == 0 {
            Seq::empty()
        } else {
            seq![
                NotificationModel {
                    kind,
                    surfaces: self.live_surfaces(world),
                    delayed: self.delayed(world),
                },
            ]
        }
    }

    /// Whether a live surface of the transaction has the given protocol id.
    pub open spec fn touches(self, id: u32, world: SnapshotModel) -> bool {
        exists|i: int|
            0 <= i < self.surfaces.len() && world.lives(#[trigger] self.surfaces[i])
                && self.surfaces[i].surface.protocol_id == id
    }

    /// The protocol ids of the live surfaces.
    pub open spec fn live_ids(self, world: SnapshotModel) -> Set<u32> {
        Set::new(|id: u32| self.touches(id, world))
    }

    /// What becomes of the transaction, if transactions before it still wait that touch the
    /// surfaces with these protocol ids.
    pub open spec fn verdict(self, seen: Set<u32>, world: SnapshotModel) -> Verdict {
        match self.state(Some(BlockerKind::Immediate), world) {
            BlockerState::Cancelled => Verdict::Discard,
            BlockerState::Pending => Verdict::Wait,
            BlockerState::Released => if exists|id: u32|
                #[trigger] seen.contains(id) && self.touches(id, world) {
                Verdict::Wait
            } else {
                match self.state(None, world) {
                    BlockerState::Cancelled => Verdict::Discard,
                    BlockerState::Pending => Verdict::Delayed,
                    BlockerState::Released => Verdict::Apply,
                }
            },
        }
    }

    /// Whether the number of pending delayed blockers is not the one that was last reported.
    pub open spec fn is_news(self, world: SnapshotModel) -> bool {
        !(self.last_pending_delayed matches Some(n) && n == self.pending_delayed(world).len())
    }

    /// The transaction after the number of its pending delayed blockers was reported.
    pub open spec fn reported(self, world: SnapshotModel) -> TransactionModel {
        TransactionModel {
            last_pending_delayed: Some(self.pending_delayed(world).len() as usize),
            ..self
        }
    }
}

/// What one pass over a queue results in.
#[verifier::ext_equal]
pub struct Pass {
    /// The transactions that stay in the queue.
    pub kept: Seq<TransactionModel>,
    /// The transactions that are ready to be applied.
    pub ready: Seq<TransactionModel>,
    /// The notifications that became due.
    pub notifications: Seq<NotificationModel>,
    /// The protocol ids of the live surfaces that waiting transactions touch.
    pub seen: Set<u32>,
}

impl Pass {
    /// The pass before the first transaction.
    pub open spec fn start() -> Pass {
        Pass {
            kept: Seq::empty(),
            ready: Seq::empty(),
            notifications: Seq::empty(),
            seen: Set::empty(),
        }
    }

    /// The pass after one more transaction.
    pub open spec fn then_visit(self, t: TransactionModel, world: SnapshotModel) -> Pass {
        match t.verdict(self.seen, world) {
            Verdict::Apply => Pass { ready: self.ready.push(t), ..self },
            Verdict::Discard => Pass {
                notifications: self.notifications + t.notification(NotifyKind::Cancelled, world),
                ..self
            },
            Verdict::Wait => Pass {
                kept: self.kept.push(t),
                seen: self.seen + t.live_ids(world),
                ..self
            },
            Verdict::Delayed => Pass {
                kept: self.kept.push(t.reported(world)),
                notifications: if t.is_news(world) {
                    self.notifications + t.notification(NotifyKind::Ready, world)
                } else {
                    self.notifications
                },
                seen: self.seen + t.live_ids(world),
                ..self
            },
        }
    }
}

/// One pass over a queue, from the oldest transaction to the newest.
pub open spec fn pass_over(queue: Seq<TransactionModel>, world: SnapshotModel) -> Pass
    decreases queue.len(),
{
    if queue.len() == 0 {
        Pass::start()
    } else {
        pass_over(queue.drop_last(), world).then_visit(queue.last(), world)
    }
}

/// What becomes of the transaction at index `i` of a queue.
pub open spec fn verdict_at(queue: Seq<TransactionModel>, i: int, world: SnapshotModel) -> Verdict {
    queue[i].verdict(pass_over(queue.take(i), world).seen, world)
}

impl Transaction {
    pub closed spec fn view(&self) -> TransactionModel {
        TransactionModel {
            surfaces: self.surfaces@,
            blockers: self.blockers@,
            last_pending_delayed: self.last_pending_delayed,
        }
    }

    /// Computes the state of the transaction with regard to its blockers.
    ///
    /// - if all surfaces are gone, or at least one blocker is cancelled, it is cancelled
    /// - otherwise, if at least one blocker is pending, it is pending
    /// - otherwise all blockers are released, and so is the transaction
    ///
    /// With a `kind`, only the blockers of that kind count.
    pub fn state(&self, kind: Option<BlockerKind>, world: &Snapshot) -> (state: BlockerState)
        requires
            self@.known_in(world@),
        ensures
            state == self@.state(kind, world@),
    {
        if !self.any_alive(world) {
            return BlockerState::Cancelled;
        }
        let mut pending: bool = false;
        let mut i: usize = 0;
        while i < self.blockers.len()
            invariant
                i <= self.blockers@.len(),
                self@.known_in(world@),
                self@.any_alive(world@),
                forall|k: int|
                    0 <= k < i && world@.counts(#[trigger] self@.blockers[k], kind)
                        ==> !world@.is_in(self@.blockers[k], BlockerState::Cancelled),
                pending == exists|k: int|
                    0 <= k < i && world@.counts(#[trigger] self@.blockers[k], kind) && world@.is_in(
                        self@.blockers[k],
                        BlockerState::Pending,
                    ),
            decreases self.blockers@.len() - i,
        {
            assert(self@.blockers[i as int] < world@.blockers.len());
            let info = world.blockers[self.blockers[i]];
            let counts: bool = match kind {
                Some(kind) => info.kind == kind,
                None => true,
            };
            assert(counts == world@.counts(self@.blockers[i as int], kind));
            if counts {
                match info.state {
                    BlockerState::Cancelled => {
                        assert(world@.counts(self@.blockers[i as int], kind));
                        return BlockerState::Cancelled;
                    },
                    BlockerState::Pending => {
                        pending = true;
                        assert(world@.counts(self@.blockers[i as int], kind));
                    },
                    BlockerState::Released => {},
                }
            }
            i = i + 1;
        }
        assert(!self@.any_blocker(kind, BlockerState::Cancelled, world@));
        if pending {
            BlockerState::Pending
        } else {
            BlockerState::Released
        }
    }

    fn any_alive(&self, world: &Snapshot) -> (any: bool)
        ensures
            any == self@.any_alive(world@),
    {
        let mut i: usize = 0;
        while i < self.surfaces.len()
            invariant
                i <= self.surfaces@.len(),
                forall|k: int| 0 <= k < i ==> !world@.lives(#[trigger] self@.surfaces[k]),
            decreases self.surfaces@.len() - i,
        {
            if world.alive.contains(&self.surfaces[i].surface.object) {
                assert(world@.lives(self@.surfaces[i as int]));
                return true;
            }
            i = i + 1;
        }
        false
    }

    fn delayed_blockers(&self, world: &Snapshot) -> (delayed: Vec<usize>)
        requires
            self@.known_in(world@),
        ensures
            delayed@ == self@.delayed(world@),
    {
        let ghost is_delayed = |b: usize| world@.is_delayed(b);
        let mut delayed: Vec<usize> = Vec::new();
        let mut i: usize = 0;
        proof {
            reveal(Seq::filter);
            assert(self@.blockers.take(0) =~= Seq::<usize>::empty());
        }
        while i < self.blockers.len()
            invariant
                i <= self.blockers@.len(),
                self@.known_in(world@),
                is_delayed == (|b: usize| world@.is_delayed(b)),
                delayed@ == self@.blockers.take(i as int).filter(is_delayed),
            decreases self.blockers@.len() - i,
        {
            proof {
                reveal(Seq::filter);
                assert(self@.blockers[i as int] < world@.blockers.len());
                assert(self@.blockers.take(i + 1).drop_last() =~= self@.blockers.take(i as int));
            }
            let blocker: usize = self.blockers[i];
            if world.blockers[blocker].kind == BlockerKind::Delayed {
                delayed.push(blocker);
            }
            i = i + 1;
        }
        assert(self@.blockers.take(i as int) =~= self@.blockers);
        delayed
    }

    fn count_pending_delayed(&self, world: &Snapshot) -> (count: usize)
        requires
            self@.known_in(world@),
        ensures
            count == self@.pending_delayed(world@).len(),
    {
        let ghost waits = |b: usize| world@.is_delayed(b) && world@.is_in(b, BlockerState::Pending);
        let mut count: usize = 0;
        let mut i: usize = 0;
        proof {
            reveal(Seq::filter);
            assert(self@.blockers.take(0) =~= Seq::<usize>::empty());
        }
        while i < self.blockers.len()
            invariant
                i <= self.blockers@.len(),
                count <= i,
                self@.known_in(world@),
                waits == (|b: usize|
                    world@.is_delayed(b) && world@.is_in(b, BlockerState::Pending)),
                count == self@.blockers.take(i as int).filter(waits).len(),
            decreases self.blockers@.len() - i,
        {
            proof {
                reveal(Seq::filter);
                assert(self@.blockers[i as int] < world@.blockers.len());
                assert(self@.blockers.take(i + 1).drop_last() =~= self@.blockers.take(i as int));
            }
            let info = world.blockers[self.blockers[i]];
            if info.kind == BlockerKind::Delayed && info.state == BlockerState::Pending {
                count = count + 1;
            }
            i = i + 1;
        }
        assert(self@.blockers.take(i as int) =~= self@.blockers);
        count
    }

    fn live_surfaces(&self, world: &Snapshot) -> (surfaces: Vec<Surface>)
        ensures
            surfaces@ == self@.live_surfaces(world@),
    {
        let ghost lives = |c: SurfaceCommit| world@.lives(c);
        let ghost pick = |c: SurfaceCommit| c.surface;
        let mut surfaces: Vec<Surface> = Vec::new();
        let mut i: usize = 0;
        proof {
            reveal(Seq::filter);
            assert(self@.surfaces.take(0) =~= Seq::<SurfaceCommit>::empty());
            assert(surfaces@ =~= self@.surfaces.take(0).filter(lives).map_values(pick));
        }
        while i < self.surfaces.len()
            invariant
                i <= self.surfaces@.len(),
                lives == (|c: SurfaceCommit| world@.lives(c)),
                pick == (|c: SurfaceCommit| c.surface),
                surfaces@ == self@.surfaces.take(i as int).filter(lives).map_values(pick),
            decreases self.surfaces@.len() - i,
        {
            let ghost done = self@.surfaces.take(i as int).filter(lives);
            let ghost next = self@.surfaces.take(i + 1).filter(lives);
            proof {
                reveal(Seq::filter);
                assert(self@.surfaces.take(i + 1).drop_last() =~= self@.surfaces.take(i as int));
            }
            let commit = self.surfaces[i];
            if world.alive.contains(&commit.surface.object) {
                surfaces.push(commit.surface);
                assert(next == done.push(commit));
                assert(surfaces@ =~= next.map_values(pick));
            }
            i = i + 1;
        }
        assert(self@.surfaces.take(i as int) =~= self@.surfaces);
        surfaces
    }

    /// Appends the notification that is due to the delayed blockers, if there are any.
    fn notify(&self, kind: NotifyKind, world: &Snapshot, due: &mut Vec<DelayedNotification>)
        requires
            self@.known_in(world@),
        ensures
            views(final(due)@) == views(old(due)@) + self@.notification(kind, world@),
    {
        let ghost before = views(due@);
        let delayed = self.delayed_blockers(world);
        if delayed.len() != 0 {
            let notification = DelayedNotification {
                kind,
                surfaces: self.live_surfaces(world),
                delayed,
            };
            let ghost model = notification@;
            due.push(notification);
            proof {
                assert(model =~= self@.notification(kind, world@)[0]);
                assert(views(due@) =~= before + self@.notification(kind, world@));
            }
        } else {
            assert(views(due@) =~= before + self@.notification(kind, world@));
        }
    }

    fn touches_any(&self, seen: &HashSet<u32>, world: &Snapshot) -> (touches: bool)
        ensures
            touches == exists|id: u32| #[trigger] seen@.contains(id) && self@.touches(id, world@),
    {
        let mut i: usize = 0;
        while i < self.surfaces.len()
            invariant
                i <= self.surfaces@.len(),
                forall|k: int|
                    0 <= k < i && world@.lives(#[trigger] self@.surfaces[k]) ==> !seen@.contains(
                        self@.surfaces[k].surface.protocol_id,
                    ),
            decreases self.surfaces@.len() - i,
        {
            let surface = self.surfaces[i].surface;
            if world.alive.contains(&surface.object) {
                assert(world@.lives(self@.surfaces[i as int]));
                if seen.contains(&surface.protocol_id) {
                    assert(self@.touches(surface.protocol_id, world@));
                    return true;
                }
            }
            i = i + 1;
        }
        false
    }

    fn mark_seen(&self, seen: &mut HashSet<u32>, world: &Snapshot)
        ensures
            final(seen)@ == old(seen)@ + self@.live_ids(world@),
    {
        let ghost before = seen@;
        let mut i: usize = 0;
        while i < self.surfaces.len()
            invariant
                i <= self.surfaces@.len(),
                forall|id: u32| #[trigger]
                    seen@.contains(id) <==> before.contains(id) || exists|k: int|
                        0 <= k < i && world@.lives(#[trigger] self@.surfaces[k])
                            && self@.surfaces[k].surface.protocol_id == id,
            decreases self.surfaces@.len() - i,
        {
            let surface = self.surfaces[i].surface;
            let ghost previous = seen@;
            if world.alive.contains(&surface.object) {
                let _new = seen.insert(surface.protocol_id);
            }
            proof {
                assert forall|id: u32| #[trigger] seen@.contains(id) <==> before.contains(id)
                    || exists|k: int|
                    0 <= k < i + 1 && world@.lives(#[trigger] self@.surfaces[k])
                        && self@.surfaces[k].surface.protocol_id == id by {
                    assert(previous.contains(id) ==> seen@.contains(id));
                    if seen@.contains(id) && !previous.contains(id) {
                        assert(world@.lives(self@.surfaces[i as int]));
                    }
                }
            }
            i = i + 1;
        }
        assert(seen@ =~= before + self@.live_ids(world@));
    }

    /// The next surface to apply the state of, starting with the surface at index `from`:
    /// surfaces that are gone are skipped.
    pub fn next_to_apply(&self, from: usize, alive: &HashSet<u64>) -> (next: Option<(usize, SurfaceCommit)>)
        ensures
            match next {
                Some((i, commit)) => from <= i < self@.surfaces.len() && commit
                    == self@.surfaces[i as int] && alive@.contains(commit.surface.object)
                    && forall|k: int|
                    from <= k < i ==> !alive@.contains(#[trigger] self@.surfaces[k].surface.object),
                None => forall|k: int|
                    from <= k < self@.surfaces.len() ==> !alive@.contains(
                        #[trigger] self@.surfaces[k].surface.object,
                    ),
            },
    {
        let mut i: usize = from;
        while i < self.surfaces.len()
            invariant
                from <= i,
                forall|k: int|
                    from <= k < i ==> !alive@.contains(#[trigger] self@.surfaces[k].surface.object),
            decreases self.surfaces@.len() - i,
        {
            if alive.contains(&self.surfaces[i].surface.object) {
                return Some((i, self.surfaces[i]));
            }
            i = i + 1;
        }
        None
    }
}

/// The meanings of a list of notifications.
pub open spec fn views(notifications: Seq<DelayedNotification>) -> Seq<NotificationModel> {
    notifications.map_values(|n: DelayedNotification| n@)
}

/// The meanings of a list of transactions.
pub open spec fn transactions(list: Seq<Transaction>) -> Seq<TransactionModel> {
    list.map_values(|t: Transaction| t@)
}

/// The transactions of a client that wait to be applied, oldest first.
pub struct TransactionQueue {
    transactions: Vec<Transaction>,
    /// Kept between passes to use its allocation again.
    seen_surfaces: HashSet<u32>,
}

impl TransactionQueue {
    pub closed spec fn view(&self) -> Seq<TransactionModel> {
        transactions(self.transactions@)
    }

    /// An empty queue.
    pub fn new() -> (queue: Self)
        ensures
            queue@ == Seq::<TransactionModel>::empty(),
    {
        let queue = TransactionQueue { transactions: Vec::new(), seen_surfaces: HashSet::new() };
        assert(queue@ =~= Seq::<TransactionModel>::empty());
        queue
    }

    /// Appends a transaction.
    pub fn append(&mut self, t: Transaction)
        ensures
            final(self)@ == old(self)@.push(t@),
    {
        let ghost before = self@;
        self.transactions.push(t);
        assert(self@ =~= before.push(t@));
    }

    /// Whether no transaction waits.
    pub fn is_empty(&self) -> (empty: bool)
        ensures
            empty == (self@.len() == 0),
    {
        self.transactions.len() == 0
    }

    /// Removes and returns all transactions that are ready to be applied.
    ///
    /// Additionally returns the notifications for delayed blockers that became due during this
    /// pass.
    pub fn take_ready(&mut self, world: &Snapshot) -> (r: (Vec<Transaction>, Vec<DelayedNotification>))
        requires
            forall|i: int| 0 <= i < old(self)@.len() ==> #[trigger] old(self)@[i].known_in(world@),
        ensures
            final(self)@ == pass_over(old(self)@, world@).kept,
            transactions(r.0@) == pass_over(old(self)@, world@).ready,
            views(r.1@) == pass_over(old(self)@, world@).notifications,
    {
        let ghost queue = self@;
        let ghost w = world@;
        let mut ready: Vec<Transaction> = Vec::new();
        let mut notifications: Vec<DelayedNotification> = Vec::new();
        self.seen_surfaces.clear();
        let mut i: usize = 0;
        let ghost mut n: int = 0;
        proof {
            assert(queue.take(0) =~= Seq::<TransactionModel>::empty());
            assert(self@.take(0) =~= Seq::<TransactionModel>::empty());
            assert(self@.skip(0) =~= queue.skip(0));
            assert(transactions(ready@) =~= Seq::<TransactionModel>::empty());
            assert(views(notifications@) =~= Seq::<NotificationModel>::empty());
            assert(self.seen_surfaces@ =~= Set::<u32>::empty());
        }
        while i < self.transactions.len()
            invariant
                w == world@,
                0 <= n <= queue.len(),
                i <= self@.len(),
                self@.len() == self.transactions@.len(),
                forall|k: int| 0 <= k < queue.len() ==> #[trigger] queue[k].known_in(w),
                self@.take(i as int) == pass_over(queue.take(n), w).kept,
                self@.skip(i as int) == queue.skip(n),
                transactions(ready@) == pass_over(queue.take(n), w).ready,
                views(notifications@) == pass_over(queue.take(n), w).notifications,
                self.seen_surfaces@ == pass_over(queue.take(n), w).seen,
            decreases queue.len() - n,
        {
            let ghost t = self@[i as int];
            let ghost before = self@;
            let ghost pass = pass_over(queue.take(n), w);
            let ghost due_before = views(notifications@);
            proof {
                assert(self@.skip(i as int)[0] == t);
                assert(self@.skip(i as int).len() == queue.skip(n).len());
                assert(queue.skip(n)[0] == queue[n]);
                assert(t == queue[n]);
                assert(t.known_in(w));
                assert(queue.take(n + 1).drop_last() =~= queue.take(n));
                assert(queue.take(n + 1).last() == t);
                assert(pass_over(queue.take(n + 1), w) == pass.then_visit(t, w));
                assert(self.transactions@[i as int]@ == t);
                assert(queue.skip(n + 1) =~= before.skip(i + 1)) by {
                    assert forall|k: int| 0 <= k < queue.len() - n - 1 implies #[trigger] queue.skip(
                        n + 1,
                    )[k] == before.skip(i + 1)[k] by {
                        assert(queue.skip(n)[k + 1] == before.skip(i as int)[k + 1]);
                    }
                }
            }
            let mut skip: bool = false;
            match self.transactions[i].state(Some(BlockerKind::Immediate), world) {
                BlockerState::Cancelled => {
                    let transaction = self.transactions.remove(i);
                    transaction.notify(NotifyKind::Cancelled, world, &mut notifications);
                    proof {
                        n = n + 1;
                        assert(self@ =~= before.remove(i as int));
                        assert(self@.take(i as int) =~= before.take(i as int));
                        assert(self@.skip(i as int) =~= before.skip(i + 1));
                    }
                    continue ;
                },
                BlockerState::Pending => {
                    skip = true;
                },
                BlockerState::Released => {
                    skip = self.transactions[i].touches_any(&self.seen_surfaces, world);
                },
            }
            if skip {
                self.transactions[i].mark_seen(&mut self.seen_surfaces, world);
                proof {
                    assert(self@ =~= before);
                    assert(self@.take(i + 1) =~= self@.take(i as int).push(t));
                }
                i = i + 1;
            } else {
                match self.transactions[i].state(None, world) {
                    BlockerState::Pending => {
                        let pending: usize = self.transactions[i].count_pending_delayed(world);
                        let news: bool = match self.transactions[i].last_pending_delayed {
                            Some(last) => last != pending,
                            None => true,
                        };
                        if news {
                            self.transactions[i].last_pending_delayed = Some(pending);
                            self.transactions[i].notify(NotifyKind::Ready, world, &mut notifications);
                        }
                        self.transactions[i].mark_seen(&mut self.seen_surfaces, world);
                        proof {
                            let after = t.reported(w);
                            assert(self@[i as int] =~= after);
                            assert(self@ =~= before.update(i as int, after));
                            assert(after.live_ids(w) =~= t.live_ids(w)) by {
                                assert forall|id: u32| after.touches(id, w) == t.touches(id, w) by {}
                            }
                            assert(after.notification(NotifyKind::Ready, w) == t.notification(
                                NotifyKind::Ready,
                                w,
                            ));
                            assert(self@.take(i + 1) =~= before.take(i as int).push(after));
                            assert(self@.skip(i + 1) =~= before.skip(i + 1));
                        }
                        i = i + 1;
                    },
                    BlockerState::Released => {
                        let transaction = self.transactions.remove(i);
                        let ghost ready_before = transactions(ready@);
                        ready.push(transaction);
                        proof {
                            assert(transactions(ready@) =~= ready_before.push(t));
                            assert(self@ =~= before.remove(i as int));
                            assert(self@.take(i as int) =~= before.take(i as int));
                            assert(self@.skip(i as int) =~= before.skip(i + 1));
                        }
                    },
                    BlockerState::Cancelled => {
                        let transaction = self.transactions.remove(i);
                        transaction.notify(NotifyKind::Cancelled, world, &mut notifications);
                        proof {
                            assert(self@ =~= before.remove(i as int));
                            assert(self@.take(i as int) =~= before.take(i as int));
                            assert(self@.skip(i as int) =~= before.skip(i + 1));
                        }
                    },
                }
            }
            proof {
                n = n + 1;
            }
        }
        proof {
            assert(self@.skip(i as int).len() == 0);
            assert(queue.take(n) =~= queue);
            assert(self@.take(i as int) =~= self@);
        }
        (ready, notifications)
    }
}

/// The surfaces that waiting transactions touch only become more in the course of a pass, and a
/// waiting transaction's own surfaces are among them.
proof fn lemma_seen(queue: Seq<TransactionModel>, i: int, j: int, world: SnapshotModel)
    requires
        0 <= i <= j <= queue.len(),
    ensures
        pass_over(queue.take(i), world).seen.subset_of(pass_over(queue.take(j), world).seen),
        i < j && (verdict_at(queue, i, world) is Wait || verdict_at(queue, i, world) is Delayed)
            ==> queue[i].live_ids(world).subset_of(pass_over(queue.take(j), world).seen),
    decreases j - i,
{
    if i < j {
        lemma_seen(queue, i, j - 1, world);
        assert(queue.take(j).drop_last() =~= queue.take(j - 1));
        assert(queue.take(j).last() == queue[j - 1]);
    }
}

/// For each surface, states are applied in order: a transaction is not applied while an earlier
/// one that touches the same live surface stays in the queue.
pub proof fn law_order_is_kept(
    queue: Seq<TransactionModel>,
    i: int,
    j: int,
    id: u32,
    world: SnapshotModel,
)
    requires
        0 <= i < j < queue.len(),
        queue[i].touches(id, world),
        queue[j].touches(id, world),
        verdict_at(queue, i, world) is Wait || verdict_at(queue, i, world) is Delayed,
    ensures
        verdict_at(queue, j, world) is Wait || verdict_at(queue, j, world) is Discard,
{
    lemma_seen(queue, i, j, world);
    assert(queue[i].live_ids(world).contains(id));
    assert(pass_over(queue.take(j), world).seen.contains(id));
}

/// The indices of the transactions of a queue that are applied, or those that are kept.
pub open spec fn chosen(queue: Seq<TransactionModel>, applied: bool, world: SnapshotModel) -> Seq<int>
    decreases queue.len(),
{
    if queue.len() == 0 {
        Seq::empty()
    } else {
        let before = chosen(queue.drop_last(), applied, world);
        let verdict = verdict_at(queue, queue.len() - 1, world);
        if if applied {
            verdict is Apply
        } else {
            verdict is Wait || verdict is Delayed
        } {
            before.push(queue.len() - 1)
        } else {
            before
        }
    }
}

/// A prefix of a queue is judged like the whole.
proof fn lemma_prefix_verdict(queue: Seq<TransactionModel>, n: int, i: int, world: SnapshotModel)
    requires
        0 <= i < n <= queue.len(),
    ensures
        verdict_at(queue.take(n), i, world) == verdict_at(queue, i, world),
{
    assert(queue.take(n).take(i) =~= queue.take(i));
}

/// Each transaction ends in one place: those that are applied are handed out, those that wait
/// are kept, both in the order of the queue, and the others are dropped.
pub proof fn law_each_transaction_once(queue: Seq<TransactionModel>, world: SnapshotModel)
    ensures
        ({
            let pass = pass_over(queue, world);
            let applied = chosen(queue, true, world);
            let kept = chosen(queue, false, world);
            &&& forall|i: int|
                #![trigger applied.contains(i)]
                applied.contains(i) <==> 0 <= i < queue.len() && verdict_at(queue, i, world) is Apply
            &&& forall|i: int|
                #![trigger kept.contains(i)]
                kept.contains(i) <==> 0 <= i < queue.len() && (verdict_at(queue, i, world) is Wait
                    || verdict_at(queue, i, world) is Delayed)
            &&& forall|a: int, b: int| 0 <= a < b < applied.len() ==> #[trigger] applied[a] < #[trigger] applied[b]
            &&& forall|a: int, b: int| 0 <= a < b < kept.len() ==> #[trigger] kept[a] < #[trigger] kept[b]
            &&& pass.ready == Seq::new(applied.len(), |k: int| queue[applied[k]])
            &&& pass.kept == Seq::new(
                kept.len(),
                |k: int|
                    if verdict_at(queue, kept[k], world) is Delayed {
                        queue[kept[k]].reported(world)
                    } else {
                        queue[kept[k]]
                    },
            )
        }),
    decreases queue.len(),
{
    if queue.len() > 0 {
        let shorter = queue.drop_last();
        let n = shorter.len() as int;
        law_each_transaction_once(shorter, world);
        assert(shorter =~= queue.take(n));
        assert forall|i: int| 0 <= i < n implies #[trigger] verdict_at(shorter, i, world)
            == verdict_at(queue, i, world) by {
            lemma_prefix_verdict(queue, n, i, world);
        }
        let pass = pass_over(queue, world);
        let pass0 = pass_over(shorter, world);
        let applied = chosen(queue, true, world);
        let kept = chosen(queue, false, world);
        let applied0 = chosen(shorter, true, world);
        let kept0 = chosen(shorter, false, world);
        lemma_push_contains(applied0, n);
        lemma_push_contains(kept0, n);
        assert forall|k: int| 0 <= k < applied0.len() implies 0 <= #[trigger] applied0[k] < n by {
            assert(applied0.contains(applied0[k]));
        }
        assert forall|k: int| 0 <= k < kept0.len() implies 0 <= #[trigger] kept0[k] < n by {
            assert(kept0.contains(kept0[k]));
        }
        assert forall|i: int|
            #![trigger applied.contains(i)]
            applied.contains(i) <==> 0 <= i < queue.len() && verdict_at(queue, i, world) is Apply by {
            assert(applied0.contains(i) <==> 0 <= i < n && verdict_at(shorter, i, world) is Apply);
        }
        assert forall|i: int|
            #![trigger kept.contains(i)]
            kept.contains(i) <==> 0 <= i < queue.len() && (verdict_at(queue, i, world) is Wait
                || verdict_at(queue, i, world) is Delayed) by {
            assert(kept0.contains(i) <==> 0 <= i < n && (verdict_at(shorter, i, world) is Wait
                || verdict_at(shorter, i, world) is Delayed));
        }
        assert(pass.ready =~= Seq::new(applied.len(), |k: int| queue[applied[k]]));
        assert(pass.kept =~= Seq::new(
            kept.len(),
            |k: int|
                if verdict_at(queue, kept[k], world) is Delayed {
                    queue[kept[k]].reported(world)
                } else {
                    queue[kept[k]]
                },
        )) by {
            assert forall|k: int| 0 <= k < kept0.len() implies #[trigger] pass.kept[k] == (if verdict_at(
                queue,
                kept[k],
                world,
            ) is Delayed {
                queue[kept[k]].reported(world)
            } else {
                queue[kept[k]]
            }) by {
                assert(pass0.kept[k] == pass.kept[k]);
                assert(kept0[k] == kept[k]);
                assert(verdict_at(shorter, kept0[k], world) == verdict_at(queue, kept[k], world));
            }
        }
    }
}

/// What is in a sequence after something was appended.
proof fn lemma_push_contains(s: Seq<int>, x: int)
    ensures
        forall|y: int| #[trigger] s.push(x).contains(y) <==> s.contains(y) || y == x,
{
    assert forall|y: int| #[trigger] s.push(x).contains(y) <==> s.contains(y) || y == x by {
        if s.contains(y) {
            let k = choose|k: int| 0 <= k < s.len() && s[k] == y;
            assert(s.push(x)[k] == y);
        }
        assert(s.push(x)[s.len() as int] == x);
    }
}

/// A transaction is only applied when one of its surfaces is alive and all its blockers are
/// released.
pub proof fn law_applied_means_released(
    queue: Seq<TransactionModel>,
    i: int,
    b: int,
    world: SnapshotModel,
)
    requires
        0 <= i < queue.len(),
        0 <= b < queue[i].blockers.len(),
        verdict_at(queue, i, world) is Apply,
    ensures
        queue[i].any_alive(world),
        world.is_in(queue[i].blockers[b], BlockerState::Released),
{
    let t = queue[i];
    assert(world.counts(t.blockers[b], None));
    assert(!t.any_blocker(None, BlockerState::Cancelled, world));
    assert(!t.any_blocker(None, BlockerState::Pending, world));
}

/// A cancelled blocker cancels the whole transaction as soon as it is evaluated.
pub proof fn law_cancelled_blocker_cancels(
    t: TransactionModel,
    b: int,
    seen: Set<u32>,
    world: SnapshotModel,
)
    requires
        0 <= b < t.blockers.len(),
        world.is_in(t.blockers[b], BlockerState::Cancelled),
    ensures
        !(t.verdict(seen, world) is Apply),
        !world.is_delayed(t.blockers[b]) ==> t.verdict(seen, world) is Discard,
        !(t.verdict(seen, world) is Wait) ==> t.verdict(seen, world) is Discard,
{
    assert(world.counts(t.blockers[b], None));
    assert(t.any_blocker(None, BlockerState::Cancelled, world));
    if !world.is_delayed(t.blockers[b]) {
        assert(world.counts(t.blockers[b], Some(BlockerKind::Immediate)));
        assert(t.any_blocker(Some(BlockerKind::Immediate), BlockerState::Cancelled, world));
    }
}

impl SnapshotModel {
    /// Whether the other moment can follow this one: the same surfaces are alive, and only
    /// pending blockers have changed their state.
    pub open spec fn is_followed_by(self, later: SnapshotModel) -> bool {
        &&& later.alive == self.alive
        &&& later.blockers.len() == self.blockers.len()
        &&& forall|b: int|
            #![trigger later.blockers[b]]
            0 <= b < self.blockers.len() ==> later.blockers[b].kind == self.blockers[b].kind && (
            self.blockers[b].state == BlockerState::Pending || later.blockers[b].state
                == self.blockers[b].state)
    }
}

proof fn lemma_blockers_settle(
    t: TransactionModel,
    kind: Option<BlockerKind>,
    world: SnapshotModel,
    later: SnapshotModel,
)
    requires
        t.known_in(world),
        world.is_followed_by(later),
    ensures
        t.any_alive(later) == t.any_alive(world),
        t.any_blocker(kind, BlockerState::Cancelled, world) ==> t.any_blocker(
            kind,
            BlockerState::Cancelled,
            later,
        ),
        t.state(kind, world) == BlockerState::Released ==> t.state(kind, later)
            == BlockerState::Released,
        t.state(kind, world) == BlockerState::Cancelled ==> t.state(kind, later)
            == BlockerState::Cancelled,
{
    assert forall|i: int|
        0 <= i < t.surfaces.len() implies #[trigger] world.lives(t.surfaces[i]) == later.lives(
        t.surfaces[i],
    ) by {}
    if t.any_alive(world) {
        let i = choose|i: int| 0 <= i < t.surfaces.len() && world.lives(#[trigger] t.surfaces[i]);
        assert(later.lives(t.surfaces[i]));
    }
    if t.any_alive(later) {
        let i = choose|i: int| 0 <= i < t.surfaces.len() && later.lives(#[trigger] t.surfaces[i]);
        assert(world.lives(t.surfaces[i]));
    }
    if t.any_blocker(kind, BlockerState::Cancelled, world) {
        let i = choose|i: int|
            0 <= i < t.blockers.len() && world.counts(#[trigger] t.blockers[i], kind)
                && world.is_in(t.blockers[i], BlockerState::Cancelled);
        assert(later.blockers[t.blockers[i] as int].state == BlockerState::Cancelled);
        assert(later.counts(t.blockers[i], kind));
    }
    if t.state(kind, world) == BlockerState::Released {
        assert forall|i: int, state: BlockerState|
            0 <= i < t.blockers.len() && later.counts(#[trigger] t.blockers[i], kind)
                && #[trigger] later.is_in(t.blockers[i], state) implies state
            == BlockerState::Released by {
            assert(later.blockers[t.blockers[i] as int].kind
                == world.blockers[t.blockers[i] as int].kind);
            assert(world.counts(t.blockers[i], kind));
            assert(!t.any_blocker(kind, BlockerState::Cancelled, world));
            assert(!t.any_blocker(kind, BlockerState::Pending, world));
            assert(!world.is_in(t.blockers[i], BlockerState::Cancelled));
            assert(!world.is_in(t.blockers[i], BlockerState::Pending));
        }
        assert(!t.any_blocker(kind, BlockerState::Cancelled, later));
        assert(!t.any_blocker(kind, BlockerState::Pending, later));
    }
}

/// What waits at a later moment has waited before, so that it holds back no more than before.
proof fn lemma_fewer_wait(queue: Seq<TransactionModel>, world: SnapshotModel, later: SnapshotModel)
    requires
        forall|i: int| 0 <= i < queue.len() ==> #[trigger] queue[i].known_in(world),
        world.is_followed_by(later),
    ensures
        pass_over(queue, later).seen.subset_of(pass_over(queue, world).seen),
    decreases queue.len(),
{
    if queue.len() > 0 {
        let t = queue.last();
        lemma_fewer_wait(queue.drop_last(), world, later);
        lemma_blockers_settle(t, Some(BlockerKind::Immediate), world, later);
        lemma_blockers_settle(t, None, world, later);
        assert(t.live_ids(world) =~= t.live_ids(later)) by {
            assert forall|id: u32| t.touches(id, world) == t.touches(id, later) by {
                assert forall|i: int|
                    0 <= i < t.surfaces.len() implies #[trigger] world.lives(t.surfaces[i])
                    == later.lives(t.surfaces[i]) by {}
                if t.touches(id, world) {
                    let i = choose|i: int|
                        0 <= i < t.surfaces.len() && world.lives(#[trigger] t.surfaces[i])
                            && t.surfaces[i].surface.protocol_id == id;
                    assert(later.lives(t.surfaces[i]));
                }
                if t.touches(id, later) {
                    let i = choose|i: int|
                        0 <= i < t.surfaces.len() && later.lives(#[trigger] t.surfaces[i])
                            && t.surfaces[i].surface.protocol_id == id;
                    assert(world.lives(t.surfaces[i]));
                }
            }
        }
        let seen = pass_over(queue.drop_last(), world).seen;
        let seen_later = pass_over(queue.drop_last(), later).seen;
        assert forall|id: u32|
            #[trigger] seen_later.contains(id) && t.touches(id, later) implies seen.contains(id)
            && t.touches(id, world) by {
            assert(t.live_ids(later).contains(id));
            assert(t.live_ids(world).contains(id));
        }
        assert(t.verdict(seen, world) is Apply || t.verdict(seen, world) is Discard ==> t.verdict(
            seen_later,
            later,
        ) is Apply || t.verdict(seen_later, later) is Discard);
    }
}

/// Releasing what a transaction waits for applies it: if only delayed blockers held it back, and
/// they are released while nothing else than pending blockers changes, the next pass hands it
/// out.
pub proof fn law_released_transaction_is_applied(
    queue: Seq<TransactionModel>,
    i: int,
    world: SnapshotModel,
    later: SnapshotModel,
)
    requires
        0 <= i < queue.len(),
        forall|k: int| 0 <= k < queue.len() ==> #[trigger] queue[k].known_in(world),
        world.is_followed_by(later),
        verdict_at(queue, i, world) is Delayed,
        forall|b: int|
            0 <= b < queue[i].blockers.len() ==> later.is_in(
                #[trigger] queue[i].blockers[b],
                BlockerState::Released,
            ),
    ensures
        verdict_at(queue, i, later) is Apply,
{
    let t = queue[i];
    lemma_fewer_wait(queue.take(i), world, later);
    lemma_blockers_settle(t, Some(BlockerKind::Immediate), world, later);
    lemma_blockers_settle(t, None, world, later);
    let seen = pass_over(queue.take(i), world).seen;
    let seen_later = pass_over(queue.take(i), later).seen;
    assert forall|id: u32| #[trigger] seen_later.contains(id) implies !t.touches(id, later) by {
        assert(seen.contains(id));
        if t.touches(id, later) {
            let k = choose|k: int|
                0 <= k < t.surfaces.len() && later.lives(#[trigger] t.surfaces[k])
                    && t.surfaces[k].surface.protocol_id == id;
            assert(world.lives(t.surfaces[k]));
            assert(t.touches(id, world));
        }
    }
    assert(!t.any_blocker(None, BlockerState::Cancelled, later));
    assert(!t.any_blocker(None, BlockerState::Pending, later));
}

/// If nothing blocks any transaction of a queue, all of them are applied at once and in order.
pub proof fn law_unblocked_queue_is_applied(queue: Seq<TransactionModel>, world: SnapshotModel)
    requires
        forall|i: int|
            0 <= i < queue.len() ==> #[trigger] queue[i].state(None, world)
                == BlockerState::Released,
    ensures
        pass_over(queue, world) == (Pass { ready: queue, ..Pass::start() }),
    decreases queue.len(),
{
    if queue.len() > 0 {
        assert forall|i: int| 0 <= i < queue.drop_last().len() implies #[trigger] queue.drop_last()[i].state(
            None,
            world,
        ) == BlockerState::Released by {
            assert(queue[i].state(None, world) == BlockerState::Released);
        }
        law_unblocked_queue_is_applied(queue.drop_last(), world);
        let t = queue.last();
        assert(queue[queue.len() - 1].state(None, world) == BlockerState::Released);
        lemma_immediate_is_weaker(t, world);
        assert(queue.drop_last().push(t) =~= queue);
        assert(pass_over(queue, world) =~= (Pass { ready: queue, ..Pass::start() }));
    } else {
        assert(pass_over(queue, world) =~= (Pass { ready: queue, ..Pass::start() }));
    }
}

/// A transaction whose blockers are all released has no immediate blocker that is not.
proof fn lemma_immediate_is_weaker(t: TransactionModel, world: SnapshotModel)
    requires
        t.state(None, world) == BlockerState::Released,
    ensures
        t.state(Some(BlockerKind::Immediate), world) == BlockerState::Released,
{
    let immediate = Some(BlockerKind::Immediate);
    if t.any_blocker(immediate, BlockerState::Cancelled, world) {
        let i = choose|i: int|
            0 <= i < t.blockers.len() && world.counts(#[trigger] t.blockers[i], immediate)
                && world.is_in(t.blockers[i], BlockerState::Cancelled);
        assert(world.counts(t.blockers[i], None));
    }
    if t.any_blocker(immediate, BlockerState::Pending, world) {
        let i = choose|i: int|
            0 <= i < t.blockers.len() && world.counts(#[trigger] t.blockers[i], immediate)
                && world.is_in(t.blockers[i], BlockerState::Pending);
        assert(world.counts(t.blockers[i], None));
    }
}

/// The notification that a pass sends for the transaction at index `i` of a queue: that it was
/// cancelled, or that it only waits for delayed blockers and their number has changed.
pub open spec fn notice_at(queue: Seq<TransactionModel>, i: int, world: SnapshotModel) -> Seq<
    NotificationModel,
> {
    match verdict_at(queue, i, world) {
        Verdict::Discard => queue[i].notification(NotifyKind::Cancelled, world),
        Verdict::Delayed => if queue[i].is_news(world) {
            queue[i].notification(NotifyKind::Ready, world)
        } else {
            Seq::empty()
        },
        _ => Seq::empty(),
    }
}

/// The notifications for the first `n` transactions of a queue, in order.
pub open spec fn notices(queue: Seq<TransactionModel>, n: int, world: SnapshotModel) -> Seq<
    NotificationModel,
>
    decreases n,
{
    if n <= 0 {
        Seq::empty()
    } else {
        notices(queue, n - 1, world) + notice_at(queue, n - 1, world)
    }
}

proof fn lemma_notices(queue: Seq<TransactionModel>, n: int, world: SnapshotModel)
    requires
        0 <= n <= queue.len(),
    ensures
        pass_over(queue.take(n), world).notifications == notices(queue, n, world),
    decreases n,
{
    if n > 0 {
        lemma_notices(queue, n - 1, world);
        assert(queue.take(n).drop_last() =~= queue.take(n - 1));
        assert(queue.take(n).last() == queue[n - 1]);
        let before = pass_over(queue.take(n - 1), world).notifications;
        assert(before + Seq::<NotificationModel>::empty() =~= before);
    }
}

/// A pass notifies the delayed blockers of a transaction when it is dropped because it was
/// cancelled, and when it only waits for delayed blockers whose number has changed since it was
/// last reported; in the order of the queue, and at no other time.
pub proof fn law_notifications_follow_a_schedule(
    queue: Seq<TransactionModel>,
    t: TransactionModel,
    world: SnapshotModel,
    later: SnapshotModel,
)
    requires
        t.blockers.len() <= usize::MAX,
    ensures
        pass_over(queue, world).notifications == notices(queue, queue.len() as int, world),
        t.reported(world).is_news(later) <==> t.pending_delayed(later).len()
            != t.pending_delayed(world).len(),
{
    assert(queue.take(queue.len() as int) =~= queue);
    lemma_notices(queue, queue.len() as int, world);
    t.blockers.lemma_filter_len(
        |b: usize| world.is_delayed(b) && world.is_in(b, BlockerState::Pending),
    );
}

/// As long as nothing changes, a second pass applies nothing, drops nothing and notifies nobody
/// again.
pub proof fn law_second_pass_changes_nothing(queue: Seq<TransactionModel>, world: SnapshotModel)
    requires
        forall|i: int| 0 <= i < queue.len() ==> #[trigger] queue[i].blockers.len() <= usize::MAX,
    ensures
        ({
            let first = pass_over(queue, world);
            pass_over(first.kept, world) == (Pass {
                kept: first.kept,
                ready: Seq::empty(),
                notifications: Seq::empty(),
                seen: first.seen,
            })
        }),
    decreases queue.len(),
{
    let first = pass_over(queue, world);
    let again = pass_over(first.kept, world);
    if queue.len() > 0 {
        let shorter = queue.drop_last();
        assert forall|i: int| 0 <= i < shorter.len() implies #[trigger] shorter[i].blockers.len()
            <= usize::MAX by {
            assert(queue[i].blockers.len() <= usize::MAX);
        }
        law_second_pass_changes_nothing(shorter, world);
        let before = pass_over(shorter, world);
        let t = queue.last();
        assert(queue[queue.len() - 1].blockers.len() <= usize::MAX);
        match t.verdict(before.seen, world) {
            Verdict::Wait => {
                assert(first.kept.drop_last() =~= before.kept);
            },
            Verdict::Delayed => {
                let u = t.reported(world);
                let immediate = Some(BlockerKind::Immediate);
                assert(first.kept.drop_last() =~= before.kept);
                assert(first.kept.last() == u);
                assert(u.any_alive(world) == t.any_alive(world));
                assert forall|kind: Option<BlockerKind>, state: BlockerState|
                    u.any_blocker(kind, state, world) == t.any_blocker(kind, state, world) by {}
                assert(u.state(immediate, world) == t.state(immediate, world));
                assert(u.state(None, world) == t.state(None, world));
                assert forall|id: u32| u.touches(id, world) == t.touches(id, world) by {}
                assert(u.live_ids(world) =~= t.live_ids(world));
                assert(u.verdict(before.seen, world) == t.verdict(before.seen, world));
                let waits = |b: usize|
                    world.is_delayed(b) && world.is_in(b, BlockerState::Pending);
                t.blockers.lemma_filter_len(waits);
                assert(u.pending_delayed(world) == t.pending_delayed(world));
                assert(!u.is_news(world));
                assert(u.reported(world) =~= u);
            },
            _ => {},
        }
        assert(again =~= (Pass {
            kept: first.kept,
            ready: Seq::empty(),
            notifications: Seq::empty(),
            seen: first.seen,
        }));
    } else {
        assert(again =~= (Pass {
            kept: first.kept,
            ready: Seq::empty(),
            notifications: Seq::empty(),
            seen: first.seen,
        }));
    }
}

/// Merging makes two handles belong to one transaction. Of every surface that is alive it holds
/// the later commit, and it has the blockers of both.
pub proof fn law_merge(m: PendingModel, from: int, into: int, alive: Set<u64>)
    requires
        m.well_formed(),
        m.states.has(from),
        m.states.has(into),
        !m.states.joined(from, into),
    ensures
        m.merged(from, into, alive).well_formed(),
        m.merged(from, into, alive).states.joined(from, into),
        m.merged(from, into, alive).state(from) == m.merged(from, into, alive).state(into),
        m.merged(from, into, alive).state(into).blockers == m.state(into).blockers + m.state(
            from,
        ).blockers,
        forall|s: Surface|
            #![trigger m.merged(from, into, alive).state(into).serial_of(s)]
            m.merged(from, into, alive).state(into).serial_of(s) == if alive.contains(s.object) {
                latest(m.state(into).serial_of(s), m.state(from).serial_of(s))
            } else {
                m.state(into).serial_of(s)
            },
{
    let after = m.merged(from, into, alive);
    let mine = m.state(from);
    let target = m.state(into);
    assert(m.states.state.dom().contains(m.states.root[from]));
    assert(m.states.state.dom().contains(m.states.root[into]));
    assert(mine.surfaces.take(mine.surfaces.len() as int) =~= mine.surfaces);
    lemma_recorded_all(target, mine.surfaces, mine, alive);
    let merged = target.merged(mine, alive);
    assert(after.state(into) == merged);
    assert(after.state(from) == merged);
    assert forall|s: Surface| #[trigger] merged.serial_of(s) == (if alive.contains(s.object) {
        latest(target.serial_of(s), mine.serial_of(s))
    } else {
        target.serial_of(s)
    }) by {
        lemma_same_surfaces(merged, target.recorded_all(mine.surfaces, alive), s);
        lemma_same_surfaces(
            StateModel { surfaces: mine.surfaces, blockers: Seq::empty() },
            mine,
            s,
        );
    }
    assert forall|r: int| #[trigger] after.states.state.dom().contains(r) implies after.states.state[r].distinct() by {
        if r == m.states.root[into] {
            assert(after.states.state[r] == merged);
        } else {
            assert(m.states.state.dom().contains(r));
        }
    }
}

/// The surfaces of a transaction, in their order.
pub open spec fn surface_order(commits: Seq<SurfaceCommit>) -> Seq<Surface> {
    commits.map_values(|c: SurfaceCommit| c.surface)
}

/// Merging keeps the order of the surfaces: first those of the transaction that is merged into,
/// each at its place, then the other ones that are alive, in the order of their transaction.
pub proof fn law_merge_keeps_the_order(into: StateModel, from: StateModel, alive: Set<u64>)
    requires
        into.distinct(),
        from.distinct(),
    ensures
        surface_order(into.merged(from, alive).surfaces) == surface_order(into.surfaces)
            + surface_order(from.surfaces).filter(
            |s: Surface| alive.contains(s.object) && !surface_order(into.surfaces).contains(s),
        ),
{
    lemma_recorded_order(into, from.surfaces, alive);
}

proof fn lemma_recorded_order(into: StateModel, commits: Seq<SurfaceCommit>, alive: Set<u64>)
    requires
        into.distinct(),
        forall|i: int, j: int|
            0 <= i < commits.len() && 0 <= j < commits.len() && #[trigger] commits[i].surface
                == #[trigger] commits[j].surface ==> i == j,
    ensures
        surface_order(into.recorded_all(commits, alive).surfaces) == surface_order(into.surfaces)
            + surface_order(commits).filter(
            |s: Surface| alive.contains(s.object) && !surface_order(into.surfaces).contains(s),
        ),
    decreases commits.len(),
{
    reveal(Seq::filter);
    let known = surface_order(into.surfaces);
    let joins = |s: Surface| alive.contains(s.object) && !known.contains(s);
    let names = surface_order(commits);
    if commits.len() == 0 {
        assert(names.filter(joins) =~= Seq::<Surface>::empty());
        assert(known + Seq::<Surface>::empty() =~= known);
    } else {
        let rest = commits.drop_last();
        let last = commits.last();
        assert forall|i: int, j: int|
            0 <= i < rest.len() && 0 <= j < rest.len() && #[trigger] rest[i].surface
                == #[trigger] rest[j].surface implies i == j by {
            assert(rest[i] == commits[i] && rest[j] == commits[j]);
        }
        lemma_recorded_order(into, rest, alive);
        assert(names.drop_last() =~= surface_order(rest));
        assert(names.last() == last.surface);
        let before = into.recorded_all(rest, alive);
        let listed = surface_order(before.surfaces);
        let joined = surface_order(rest).filter(joins);
        assert(listed == known + joined);
        if alive.contains(last.surface.object) {
            assert(!joined.contains(last.surface)) by {
                if joined.contains(last.surface) {
                    surface_order(rest).lemma_filter_contains_rev(joins, last.surface);
                    let k = surface_order(rest).index_of(last.surface);
                    assert(commits[k].surface == commits[commits.len() - 1].surface);
                }
            }
            let after = before.recorded(last);
            if exists|i: int| before.has_at(last.surface, i) {
                let i = choose|i: int| before.has_at(last.surface, i);
                assert(0 <= i < listed.len() && listed[i] == last.surface);
                assert(listed.len() == known.len() + joined.len());
                if i < known.len() {
                    assert(known[i] == last.surface);
                } else {
                    assert((known + joined)[i] == joined[i - known.len()]);
                    assert(joined.contains(last.surface));
                }
                assert(surface_order(after.surfaces) =~= listed);
            } else {
                assert(!known.contains(last.surface)) by {
                    if known.contains(last.surface) {
                        let k = known.index_of(last.surface);
                        assert(listed[k] == last.surface);
                        assert(before.has_at(last.surface, k));
                    }
                }
                assert(surface_order(after.surfaces) =~= listed.push(last.surface));
                assert((known + joined).push(last.surface) =~= known + joined.push(last.surface));
            }
        }
    }
}

} // verus!
