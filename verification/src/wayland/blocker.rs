//! Blockers: what holds back the state of a transaction.

use vstd::prelude::*;

verus! {

/// Kind of a blocker.
#[derive(Debug, Copy, Clone, PartialEq, Eq, Structural)]
pub enum BlockerKind {
    /// An immediate blocker, which needs to be cleared before all delayed blockers.
    Immediate,
    /// A delayed blocker, which is evaluated after all immediate blockers are cleared.
    Delayed,
}

/// The transaction event a delayed blocker is notified about.
#[derive(Debug, Clone, Copy, PartialEq, Eq, Structural)]
pub enum NotifyKind {
    /// All immediate blockers of the transaction have been cleared; it only waits for its
    /// delayed blockers.
    Ready,
    /// The transaction has been cancelled and its state will be discarded. The blocker will
    /// never be evaluated for this transaction again.
    Cancelled,
}

/// States of a blocker.
#[derive(Debug, Clone, Copy, PartialEq, Eq, Hash, Structural)]
pub enum BlockerState {
    /// The block is pending and not resolved yet.
    Pending,
    /// The block got released and changes can be applied.
    Released,
    /// The block got cancelled and changes should be discarded.
    Cancelled,
}

/// The flags shared between the handles of barriers.
pub struct Flags {
    set: Vec<bool>,
}

impl Flags {
    pub closed spec fn view(&self) -> Seq<bool> {
        self.set@
    }

    /// No flags.
    pub fn new() -> (flags: Self)
        ensures
            flags@ == Seq::<bool>::empty(),
    {
        Flags { set: Vec::new() }
    }

    /// Adds a flag and returns its slot.
    pub fn add(&mut self, value: bool) -> (slot: usize)
        ensures
            final(self)@ == old(self)@.push(value),
            slot == old(self)@.len(),
    {
        let slot: usize = self.set.len();
        self.set.push(value);
        slot
    }

    /// Reads a flag.
    pub fn get(&self, slot: usize) -> (value: bool)
        requires
            slot < self@.len(),
        ensures
            value == self@[slot as int],
    {
        self.set[slot]
    }

    /// Raises a flag.
    pub fn raise(&mut self, slot: usize)
        requires
            slot < old(self)@.len(),
        ensures
            final(self)@ == old(self)@.update(slot as int, true),
    {
        self.set[slot] = true;
    }
}

/// A simple barrier. Copies of a barrier share its flag; two barriers are equal if they do.
#[derive(Debug, Clone, Copy, PartialEq, Eq, Structural)]
pub struct Barrier {
    slot: usize,
}

impl Barrier {
    /// The flag this barrier waits for.
    pub closed spec fn slot(&self) -> int {
        self.slot as int
    }

    /// Whether the barrier's flag is one of `flags`.
    pub open spec fn lives_in(&self, flags: Seq<bool>) -> bool {
        0 <= self.slot() < flags.len()
    }

    /// Initializes a new barrier with the provided state. It differs from every barrier made
    /// before.
    pub fn new(flags: &mut Flags, signaled: bool) -> (barrier: Self)
        ensures
            final(flags)@ == old(flags)@.push(signaled),
            barrier.slot() == old(flags)@.len(),
            forall|other: Barrier| #[trigger] other.lives_in(old(flags)@) ==> other != barrier,
    {
        Barrier { slot: flags.add(signaled) }
    }

    /// Queries if this barrier has been signaled.
    pub fn is_signaled(&self, flags: &Flags) -> (signaled: bool)
        requires
            self.lives_in(flags@),
        ensures
            signaled == flags@[self.slot()],
    {
        flags.get(self.slot)
    }

    /// Signals this barrier, and no other.
    pub fn signal(&self, flags: &mut Flags)
        requires
            self.lives_in(old(flags)@),
        ensures
            final(flags)@ == old(flags)@.update(self.slot(), true),
    {
        flags.raise(self.slot)
    }

    /// The state of the blocker: released once the barrier is signaled, pending before.
    pub fn state(&self, flags: &Flags) -> (state: BlockerState)
        requires
            self.lives_in(flags@),
        ensures
            state == if flags@[self.slot()] {
                BlockerState::Released
            } else {
                BlockerState::Pending
            },
    {
        if self.is_signaled(flags) {
            BlockerState::Released
        } else {
            BlockerState::Pending
        }
    }

    /// A plain barrier is an immediate blocker.
    pub fn kind(&self) -> (kind: BlockerKind)
        ensures
            kind == BlockerKind::Immediate,
    {
        BlockerKind::Immediate
    }
}

/// Signalling a barrier is permanent: neither signalling others nor adding barriers lowers a
/// flag again.
pub proof fn law_signal_is_permanent(barrier: Barrier, other: Barrier, flags: Seq<bool>, fresh: bool)
    requires
        barrier.lives_in(flags),
        other.lives_in(flags),
        flags[barrier.slot()],
    ensures
        flags.update(other.slot(), true)[barrier.slot()],
        flags.push(fresh)[barrier.slot()],
{
}

} // verus!
