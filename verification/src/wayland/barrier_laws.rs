//! What fusing, marking and releasing do to the surfaces that groups of barriers wait for.

use vstd::prelude::*;

use crate::wayland::blocker::BlockerState;
use crate::wayland::surface_barrier;
use crate::wayland::surface_barrier::{BarrierSurfaceEntry, BarriersModel, DelayedPeer, GroupModel};

verus! {

/// Fusing changes no entry: a surface of exactly one of two groups is in the fused group what it
/// was before. A surface of both is there what it was in the group that was made later.
pub proof fn law_fusing_changes_no_entry(m: BarriersModel, a: int, b: int, surface: u64)
    requires
        m.well_formed(),
        m.groups.has(a),
        m.groups.has(b),
    ensures
        ({
            let one = m.group(a).surfaces;
            let two = m.group(b).surfaces;
            let both = m.fused(a, b).group(a).surfaces;
            &&& both.dom().contains(surface) <==> one.dom().contains(surface) || two.dom().contains(
                surface,
            )
            &&& one.dom().contains(surface) && !two.dom().contains(surface) ==> both[surface]
                == one[surface]
            &&& !one.dom().contains(surface) && two.dom().contains(surface) ==> both[surface]
                == two[surface]
            &&& one.dom().contains(surface) && two.dom().contains(surface) ==> both[surface] == (
            if m.groups.root[a] < m.groups.root[b] {
                two[surface]
            } else {
                one[surface]
            })
        }),
{
    surface_barrier::law_fuse(m, a, b);
    assert(m.groups.state.dom().contains(m.groups.root[a]));
    assert(m.groups.state.dom().contains(m.groups.root[b]));
}

/// Fusing loses and invents no barrier: the fused group has the members and the notifiers of the
/// two, each as often as before, and those of the group that was made first come first. The
/// flags stay, and so do all other groups.
pub proof fn law_fusing_keeps_members_and_notifiers(m: BarriersModel, a: int, b: int)
    requires
        m.well_formed(),
        m.groups.has(a),
        m.groups.has(b),
        !m.groups.joined(a, b),
    ensures
        ({
            let both = m.fused(a, b).group(a);
            let (first, second) = if m.groups.root[a] < m.groups.root[b] {
                (m.group(a), m.group(b))
            } else {
                (m.group(b), m.group(a))
            };
            &&& both.members.len() == first.members.len() + second.members.len()
            &&& both.notifiers.len() == first.notifiers.len() + second.notifiers.len()
            &&& forall|i: int|
                0 <= i < first.members.len() ==> #[trigger] both.members[i] == first.members[i]
            &&& forall|i: int|
                0 <= i < second.members.len() ==> both.members[first.members.len() + i]
                    == #[trigger] second.members[i]
            &&& forall|i: int|
                0 <= i < first.notifiers.len() ==> #[trigger] both.notifiers[i] == first.notifiers[i]
            &&& forall|i: int|
                0 <= i < second.notifiers.len() ==> both.notifiers[first.notifiers.len() + i]
                    == #[trigger] second.notifiers[i]
            &&& !both.signaled
        }),
        m.fused(a, b).flags == m.flags,
        m.fused(a, b).groups.root.len() == m.groups.root.len(),
        forall|h: int|
            #![trigger m.fused(a, b).groups.root[h]]
            m.groups.has(h) ==> (m.fused(a, b).groups.joined(h, a) <==> m.groups.joined(h, a)
                || m.groups.joined(h, b)),
{
    surface_barrier::law_fuse(m, a, b);
    assert(m.groups.state.dom().contains(m.groups.root[a]));
    assert(m.groups.state.dom().contains(m.groups.root[b]));
}

/// What a transaction's barriers have in common once they are fused: each of them is in one group
/// with the first, the group waits for exactly the surfaces that theirs waited for, and an entry
/// on which all of their groups agree stays as it was.
pub proof fn law_fusing_with_peers_changes_no_entry(
    m: BarriersModel,
    handle: int,
    peers: Seq<DelayedPeer>,
    surface: u64,
    entry: BarrierSurfaceEntry,
)
    requires
        m.well_formed(),
        m.groups.has(handle),
        m.knows(peers),
        m.group(handle).surfaces.dom().contains(surface) ==> m.group(handle).surfaces[surface] == entry,
        forall|i: int|
            0 <= i < peers.len() ==> (#[trigger] peers[i] matches DelayedPeer::Barrier(peer) ==> (
            m.group(peer as int).surfaces.dom().contains(surface) ==> m.group(
                peer as int,
            ).surfaces[surface] == entry)),
    ensures
        ({
            let after = m.fused_with_all(handle, peers);
            let group = after.group(handle);
            &&& after.well_formed()
            &&& after.flags == m.flags
            &&& after.groups.root.len() == m.groups.root.len()
            &&& group.surfaces.dom().contains(surface) <==> {
                ||| m.group(handle).surfaces.dom().contains(surface)
                ||| exists|i: int|
                    0 <= i < peers.len() && (#[trigger] peers[i] matches DelayedPeer::Barrier(peer)
                        && m.group(peer as int).surfaces.dom().contains(surface))
            }
            &&& group.surfaces.dom().contains(surface) ==> group.surfaces[surface] == entry
            &&& forall|i: int|
                0 <= i < peers.len() ==> (#[trigger] peers[i] matches DelayedPeer::Barrier(peer)
                    ==> after.groups.joined(peer as int, handle))
            &&& forall|h: int| #[trigger]
                m.groups.has(h) ==> {
                    ||| after.groups.joined(h, handle)
                    ||| after.group(h) == m.group(h)
                }
        }),
    decreases peers.len(),
{
    if peers.len() > 0 {
        let rest = peers.drop_last();
        assert forall|i: int| 0 <= i < rest.len() implies #[trigger] rest[i] == peers[i] by {}
        law_fusing_with_peers_changes_no_entry(m, handle, rest, surface, entry);
        let before = m.fused_with_all(handle, rest);
        let after = m.fused_with_all(handle, peers);
        let n = peers.len() - 1;
        assert(peers.last() == peers[n]);
        match peers[n] {
            DelayedPeer::Barrier(last) => {
                let last = last as int;
                assert(m.groups.has(last));
                assert(after == before.fused(handle, last));
                surface_barrier::law_fuse(before, handle, last);
                law_fusing_changes_no_entry(before, handle, last, surface);
                if !before.groups.joined(handle, last) {
                    law_fusing_keeps_members_and_notifiers(before, handle, last);
                    assert(before.groups.has(last));
                    assert(before.group(last) == m.group(last));
                }
                assert forall|i: int| 0 <= i < peers.len() implies (
                #[trigger] peers[i] matches DelayedPeer::Barrier(peer) ==> after.groups.joined(
                    peer as int,
                    handle,
                )) by {
                    if i < n {
                        assert(rest[i] == peers[i]);
                    }
                    if let DelayedPeer::Barrier(peer) = peers[i] {
                        assert(after.groups.root[peer as int] == after.groups.root[peer as int]);
                    }
                }
                assert forall|h: int| #[trigger] m.groups.has(h) implies {
                    ||| after.groups.joined(h, handle)
                    ||| after.group(h) == m.group(h)
                } by {
                    assert(before.groups.has(h));
                    assert(after.groups.root[h] == after.groups.root[h]);
                    if !before.groups.joined(handle, last) && !after.groups.joined(h, handle) {
                        assert(!before.groups.joined(h, handle));
                        assert(!before.groups.joined(h, last));
                        assert(after.group(h) == before.group(h));
                    }
                }
                let tracks = m.group(last).surfaces.dom().contains(surface);
                if before.groups.joined(handle, last) {
                    assert(after == before);
                    assert(before.group(last) == before.group(handle));
                    if tracks {
                        lemma_joined_keeps_surfaces(m, handle, rest, last, surface);
                    }
                }
            },
            DelayedPeer::Foreign(_) => {
                assert(after == before);
                assert forall|i: int| 0 <= i < peers.len() implies (
                #[trigger] peers[i] matches DelayedPeer::Barrier(peer) ==> after.groups.joined(
                    peer as int,
                    handle,
                )) by {
                    if i < n {
                        assert(rest[i] == peers[i]);
                    }
                }
            },
        }
        let known_in_rest = exists|i: int|
            0 <= i < rest.len() && (#[trigger] rest[i] matches DelayedPeer::Barrier(peer) && m.group(
                peer as int,
            ).surfaces.dom().contains(surface));
        let known_in_peers = exists|i: int|
            0 <= i < peers.len() && (#[trigger] peers[i] matches DelayedPeer::Barrier(peer) && m.group(
                peer as int,
            ).surfaces.dom().contains(surface));
        if known_in_rest {
            let i = choose|i: int|
                0 <= i < rest.len() && (#[trigger] rest[i] matches DelayedPeer::Barrier(peer)
                    && m.group(peer as int).surfaces.dom().contains(surface));
            assert(rest[i] == peers[i]);
            assert(known_in_peers);
        }
        if known_in_peers {
            let i = choose|i: int|
                0 <= i < peers.len() && (#[trigger] peers[i] matches DelayedPeer::Barrier(peer)
                    && m.group(peer as int).surfaces.dom().contains(surface));
            if i < n {
                assert(rest[i] == peers[i]);
                assert(known_in_rest);
            }
        }
    }
}

/// A group that has been fused into another is not forgotten: its surfaces are waited for there.
proof fn lemma_joined_keeps_surfaces(
    m: BarriersModel,
    handle: int,
    peers: Seq<DelayedPeer>,
    other: int,
    surface: u64,
)
    requires
        m.well_formed(),
        m.groups.has(handle),
        m.groups.has(other),
        m.knows(peers),
        m.group(other).surfaces.dom().contains(surface),
    ensures
        m.fused_with_all(handle, peers).well_formed(),
        m.fused_with_all(handle, peers).groups.root.len() == m.groups.root.len(),
        m.fused_with_all(handle, peers).group(other).surfaces.dom().contains(surface),
    decreases peers.len(),
{
    if peers.len() > 0 {
        let rest = peers.drop_last();
        assert forall|i: int| 0 <= i < rest.len() implies #[trigger] rest[i] == peers[i] by {}
        lemma_joined_keeps_surfaces(m, handle, rest, other, surface);
        let before = m.fused_with_all(handle, rest);
        assert(peers.last() == peers[peers.len() - 1]);
        if let DelayedPeer::Barrier(last) = peers.last() {
            let last = last as int;
            surface_barrier::law_fuse(before, handle, last);
            if !before.groups.joined(handle, last) {
                law_fusing_keeps_members_and_notifiers(before, handle, last);
                let after = before.fused(handle, last);
                assert(before.groups.has(other));
                assert(after.groups.root[other] == after.groups.root[other]);
                if before.groups.joined(other, handle) || before.groups.joined(other, last) {
                    assert(after.groups.joined(other, handle));
                    assert(after.group(other) == after.group(handle));
                } else {
                    assert(after.group(other) == before.group(other));
                }
            }
        }
    }
}

/// Fusing with peers joins them all, drops no surface and touches no flag.
pub proof fn lemma_fused_keeps(
    m: BarriersModel,
    handle: int,
    peers: Seq<DelayedPeer>,
    other: int,
    surface: u64,
)
    requires
        m.well_formed(),
        m.groups.has(handle),
        m.groups.has(other),
        m.knows(peers),
    ensures
        ({
            let after = m.fused_with_all(handle, peers);
            &&& after.well_formed()
            &&& after.flags == m.flags
            &&& after.groups.root.len() == m.groups.root.len()
            &&& m.group(other).surfaces.dom().contains(surface) ==> after.group(
                other,
            ).surfaces.dom().contains(surface)
            &&& forall|i: int|
                0 <= i < peers.len() ==> (#[trigger] peers[i] matches DelayedPeer::Barrier(peer)
                    ==> after.groups.joined(peer as int, handle))
        }),
    decreases peers.len(),
{
    if peers.len() > 0 {
        let rest = peers.drop_last();
        assert forall|i: int| 0 <= i < rest.len() implies #[trigger] rest[i] == peers[i] by {}
        lemma_fused_keeps(m, handle, rest, other, surface);
        let before = m.fused_with_all(handle, rest);
        let after = m.fused_with_all(handle, peers);
        let n = peers.len() - 1;
        assert(peers.last() == peers[n]);
        if m.group(other).surfaces.dom().contains(surface) {
            lemma_joined_keeps_surfaces(m, handle, peers, other, surface);
        }
        if let DelayedPeer::Barrier(last) = peers[n] {
            let last = last as int;
            surface_barrier::law_fuse(before, handle, last);
            if !before.groups.joined(handle, last) {
                law_fusing_keeps_members_and_notifiers(before, handle, last);
            }
        }
        assert forall|i: int| 0 <= i < peers.len() implies (#[trigger] peers[i] matches DelayedPeer::Barrier(
            peer,
        ) ==> after.groups.joined(peer as int, handle)) by {
            if i < n {
                assert(rest[i] == peers[i]);
            }
            if let DelayedPeer::Barrier(peer) = peers[i] {
                assert(m.groups.has(peer as int));
                assert(after.groups.root[peer as int] == after.groups.root[peer as int]);
            }
        }
    }
}

/// A transaction that is ready does not stand for surfaces that it does not hold: while a live
/// surface of one of the groups that it fuses has not been reported, nothing is due.
pub proof fn law_unreported_surface_defers(
    m: BarriersModel,
    handle: int,
    peers: Seq<DelayedPeer>,
    surfaces: Seq<u64>,
    waiting: u64,
    foreign_pending: bool,
    alive: Set<u64>,
)
    requires
        m.well_formed(),
        m.groups.has(handle),
        m.knows(peers),
        m.group(handle).surfaces.dom().contains(waiting) || exists|i: int|
            0 <= i < peers.len() && (#[trigger] peers[i] matches DelayedPeer::Barrier(peer) && m.group(
                peer as int,
            ).surfaces.dom().contains(waiting)),
        m.group(handle).surfaces.dom().contains(waiting) ==> !m.group(
            handle,
        ).surfaces[waiting].notified,
        forall|i: int|
            0 <= i < peers.len() ==> (#[trigger] peers[i] matches DelayedPeer::Barrier(peer) ==> (
            m.group(peer as int).surfaces.dom().contains(waiting) ==> !m.group(
                peer as int,
            ).surfaces[waiting].notified)),
        alive.contains(waiting),
        !surfaces.contains(waiting),
    ensures
        m.fused_with_all(handle, peers).group(handle).marked(surfaces, foreign_pending).due(alive)
            == Seq::<u64>::empty(),
        !m.fused_with_all(handle, peers).group(handle).marked(surfaces, foreign_pending).ready(alive),
    decreases peers.len(),
{
    lemma_unreported_stays_unreported(m, handle, peers, waiting);
    let group = m.fused_with_all(handle, peers).group(handle).marked(surfaces, foreign_pending);
    assert(group.surfaces.dom().contains(waiting));
    assert(!group.surfaces[waiting].notified);
}

/// What is not reported in any of the groups that are fused is not reported afterwards.
pub proof fn lemma_unreported_stays_unreported(
    m: BarriersModel,
    handle: int,
    peers: Seq<DelayedPeer>,
    waiting: u64,
)
    requires
        m.well_formed(),
        m.groups.has(handle),
        m.knows(peers),
        m.group(handle).surfaces.dom().contains(waiting) ==> !m.group(
            handle,
        ).surfaces[waiting].notified,
        forall|i: int|
            0 <= i < peers.len() ==> (#[trigger] peers[i] matches DelayedPeer::Barrier(peer) ==> (
            m.group(peer as int).surfaces.dom().contains(waiting) ==> !m.group(
                peer as int,
            ).surfaces[waiting].notified)),
    ensures
        ({
            let after = m.fused_with_all(handle, peers);
            let group = after.group(handle);
            &&& after.well_formed()
            &&& after.groups.root.len() == m.groups.root.len()
            &&& group.surfaces.dom().contains(waiting) ==> !group.surfaces[waiting].notified
            &&& m.group(handle).surfaces.dom().contains(waiting) ==> group.surfaces.dom().contains(
                waiting,
            )
            &&& forall|i: int|
                0 <= i < peers.len() ==> (#[trigger] peers[i] matches DelayedPeer::Barrier(peer) ==> (
                m.group(peer as int).surfaces.dom().contains(waiting)
                    ==> group.surfaces.dom().contains(waiting)))
            &&& forall|h: int| #[trigger]
                m.groups.has(h) ==> {
                    ||| after.groups.joined(h, handle)
                    ||| after.group(h) == m.group(h)
                }
        }),
    decreases peers.len(),
{
    if peers.len() > 0 {
        let rest = peers.drop_last();
        assert forall|i: int| 0 <= i < rest.len() implies #[trigger] rest[i] == peers[i] by {}
        lemma_unreported_stays_unreported(m, handle, rest, waiting);
        let before = m.fused_with_all(handle, rest);
        let after = m.fused_with_all(handle, peers);
        let group = after.group(handle);
        let n = peers.len() - 1;
        assert(peers.last() == peers[n]);
        if let DelayedPeer::Barrier(last) = peers[n] {
            let last = last as int;
            assert(m.groups.has(last));
            surface_barrier::law_fuse(before, handle, last);
            law_fusing_changes_no_entry(before, handle, last, waiting);
            assert(after == before.fused(handle, last));
            if !before.groups.joined(handle, last) {
                law_fusing_keeps_members_and_notifiers(before, handle, last);
                assert(before.group(last) == m.group(last));
            } else if m.group(last).surfaces.dom().contains(waiting) {
                lemma_joined_keeps_surfaces(m, handle, rest, last, waiting);
            }
            assert forall|h: int| #[trigger] m.groups.has(h) implies {
                ||| after.groups.joined(h, handle)
                ||| after.group(h) == m.group(h)
            } by {
                assert(before.groups.has(h));
                assert(after.groups.root[h] == after.groups.root[h]);
                if !before.groups.joined(handle, last) && !after.groups.joined(h, handle) {
                    assert(after.group(h) == before.group(h));
                }
            }
        }
        assert forall|i: int| 0 <= i < peers.len() implies (#[trigger] peers[i] matches DelayedPeer::Barrier(
            peer,
        ) ==> (m.group(peer as int).surfaces.dom().contains(waiting) ==> group.surfaces.dom().contains(
            waiting,
        ))) by {
            if i < n {
                assert(rest[i] == peers[i]);
            }
        }
    }
}

/// The ready notification goes to exactly the notifiers of the group, in their order, and it goes
/// out exactly when it has not gone out before, at least one surface is alive, and every live
/// surface has been reported with nothing foreign outstanding. From then on the group counts as
/// notified; else it stays as it was.
pub proof fn law_when_notifiers_are_due(group: GroupModel, alive: Set<u64>, witness: u64)
    ensures
        ({
            let fit = |s: u64|
                alive.contains(s) && group.surfaces.dom().contains(s) ==> group.surfaces[s]
                    == BarrierSurfaceEntry { notified: true, foreign_pending: false };
            &&& !group.signaled && alive.contains(witness) && group.surfaces.dom().contains(witness) && (
            forall|s: u64| #[trigger] fit(s)) ==> {
                &&& group.due(alive) == group.notifiers
                &&& group.evaluated(alive).signaled
            }
            &&& group.signaled ==> group.due(alive) == Seq::<u64>::empty()
            &&& !fit(witness) ==> group.due(alive) == Seq::<u64>::empty()
                && group.evaluated(alive).signaled == group.signaled
            &&& (forall|s: u64| !(alive.contains(s) && #[trigger] group.surfaces.dom().contains(s)))
                ==> group.due(alive) == Seq::<u64>::empty() && group.evaluated(alive).signaled
                == group.signaled
            &&& group.evaluated(alive).surfaces == group.surfaces
            &&& group.evaluated(alive).members == group.members
            &&& group.evaluated(alive).notifiers == group.notifiers
        }),
{
    let fit = |s: u64|
        alive.contains(s) && group.surfaces.dom().contains(s) ==> group.surfaces[s]
            == BarrierSurfaceEntry { notified: true, foreign_pending: false };
    if !group.signaled && alive.contains(witness) && group.surfaces.dom().contains(witness) && (
    forall|s: u64| #[trigger] fit(s)) {
        assert forall|s: u64| #[trigger]
            group.surfaces.dom().contains(s) && alive.contains(s) implies group.surfaces[s].notified
            && !group.surfaces[s].foreign_pending by {
            assert(fit(s));
        }
    }
}

/// A report touches exactly the tracked surfaces that it names: those are reported, with what is
/// still outstanding beside them, and everything else of the group stays.
pub proof fn law_a_report_marks_what_it_names(
    group: GroupModel,
    surfaces: Seq<u64>,
    foreign_pending: bool,
    s: u64,
)
    ensures
        ({
            let after = group.marked(surfaces, foreign_pending);
            &&& after.surfaces.dom().contains(s) <==> group.surfaces.dom().contains(s)
            &&& group.surfaces.dom().contains(s) && surfaces.contains(s) ==> {
                &&& after.surfaces[s].notified
                &&& after.surfaces[s].foreign_pending == foreign_pending
            }
            &&& group.surfaces.dom().contains(s) && !surfaces.contains(s) ==> after.surfaces[s]
                == group.surfaces[s]
            &&& after.members == group.members
            &&& after.notifiers == group.notifiers
            &&& after.signaled == group.signaled
        }),
{
}

/// A cancelled transaction takes exactly its own surfaces out of the group.
pub proof fn law_cancelling_forgets_what_it_names(group: GroupModel, surfaces: Seq<u64>, s: u64)
    ensures
        ({
            let after = group.without(surfaces);
            &&& after.surfaces.dom().contains(s) <==> group.surfaces.dom().contains(s)
                && !surfaces.contains(s)
            &&& after.surfaces.dom().contains(s) ==> after.surfaces[s] == group.surfaces[s]
            &&& after.members == group.members
            &&& after.notifiers == group.notifiers
            &&& after.signaled == group.signaled
        }),
{
}

/// Registering adds exactly the named surfaces, not yet reported, and changes nothing that was
/// already known. It takes back the notification only if a surface is new.
pub proof fn law_registering_adds_unreported_surfaces(group: GroupModel, surfaces: Seq<u64>, s: u64)
    ensures
        ({
            let after = group.registered(surfaces);
            &&& after.surfaces.dom().contains(s) <==> group.surfaces.dom().contains(s)
                || surfaces.contains(s)
            &&& group.surfaces.dom().contains(s) ==> after.surfaces[s] == group.surfaces[s]
            &&& !group.surfaces.dom().contains(s) && surfaces.contains(s) ==> {
                &&& !after.surfaces[s].notified
                &&& !after.surfaces[s].foreign_pending
                &&& !after.signaled
            }
            &&& after.surfaces.dom() == group.surfaces.dom() ==> after.signaled == group.signaled
            &&& after.members == group.members
            &&& after.notifiers == group.notifiers
        }),
{
    let after = group.registered(surfaces);
    if after.surfaces.dom() == group.surfaces.dom() {
        assert forall|i: int| 0 <= i < surfaces.len() implies group.surfaces.dom().contains(
            #[trigger] surfaces[i],
        ) by {
            assert(surfaces.contains(surfaces[i]));
            assert(after.surfaces.dom().contains(surfaces[i]));
        }
    }
}

/// The surfaces that registering finds new are the named ones that are not known, each once, in
/// the order in which they are first named.
pub proof fn law_newcomers_in_order(known: Set<u64>, surfaces: Seq<u64>)
    ensures
        forall|s: u64| #[trigger]
            surface_barrier::newcomers(known, surfaces).contains(s) <==> surfaces.contains(s)
                && !known.contains(s),
        surface_barrier::newcomers(known, surfaces).no_duplicates(),
        forall|i: int, j: int|
            0 <= i < j < surface_barrier::newcomers(known, surfaces).len() ==> first_named(
                surfaces,
                #[trigger] surface_barrier::newcomers(known, surfaces)[i],
            ) < first_named(surfaces, #[trigger] surface_barrier::newcomers(known, surfaces)[j]),
    decreases surfaces.len(),
{
    let fresh = surface_barrier::newcomers(known, surfaces);
    if surfaces.len() > 0 {
        let rest = surfaces.drop_last();
        let last = surfaces.last();
        let before = surface_barrier::newcomers(known, rest);
        law_newcomers_in_order(known, rest);
        assert(surfaces == rest.push(last));
        assert forall|s: u64| surfaces.contains(s) <==> rest.contains(s) || s == last by {
            if rest.contains(s) {
                let i = choose|i: int| 0 <= i < rest.len() && rest[i] == s;
                assert(surfaces[i] == s);
            }
            assert(surfaces[surfaces.len() - 1] == last);
        }
        assert forall|s: u64| rest.contains(s) implies first_named(surfaces, s) == first_named(rest, s)
            && 0 <= first_named(rest, s) < rest.len() by {
            lemma_first_named(rest, s);
            lemma_first_named(surfaces, s);
            let i = first_named(rest, s);
            let j = first_named(surfaces, s);
            assert(surfaces[i] == rest[i]);
            if j < rest.len() {
                assert(rest[j] == surfaces[j]);
            }
        }
        assert forall|s: u64| #[trigger] fresh.contains(s) <==> surfaces.contains(s) && !known.contains(
            s,
        ) by {
            if fresh == before.push(last) {
                if before.contains(s) {
                    let i = choose|i: int| 0 <= i < before.len() && before[i] == s;
                    assert(fresh[i] == s);
                }
                assert(fresh[before.len() as int] == last);
            }
        }
        assert forall|i: int, j: int| 0 <= i < j < fresh.len() implies first_named(
            surfaces,
            #[trigger] fresh[i],
        ) < first_named(surfaces, #[trigger] fresh[j]) by {
            assert(fresh[i] == before[i]);
            assert(before.contains(before[i]));
            assert(rest.contains(before[i]));
            if j < before.len() {
                assert(fresh[j] == before[j]);
                assert(before.contains(before[j]));
                assert(rest.contains(before[j]));
            } else {
                assert(fresh[j] == last);
                assert(!rest.contains(last));
                lemma_first_named(surfaces, last);
                let k = first_named(surfaces, last);
                if k < rest.len() {
                    assert(rest[k] == last);
                }
            }
        }
    }
}

/// The place at which a surface is first named.
pub open spec fn first_named(surfaces: Seq<u64>, s: u64) -> int {
    choose|i: int|
        0 <= i < surfaces.len() && #[trigger] surfaces[i] == s && forall|j: int|
            0 <= j < i ==> surfaces[j] != s
}

proof fn lemma_first_named(surfaces: Seq<u64>, s: u64)
    requires
        surfaces.contains(s),
    ensures
        0 <= first_named(surfaces, s) < surfaces.len(),
        surfaces[first_named(surfaces, s)] == s,
        forall|j: int| 0 <= j < first_named(surfaces, s) ==> surfaces[j] != s,
{
    let i = choose|i: int| 0 <= i < surfaces.len() && surfaces[i] == s;
    lemma_least(surfaces, s, i);
}

proof fn lemma_least(surfaces: Seq<u64>, s: u64, i: int)
    requires
        0 <= i < surfaces.len(),
        surfaces[i] == s,
    ensures
        exists|i: int|
            0 <= i < surfaces.len() && #[trigger] surfaces[i] == s && forall|j: int|
                0 <= j < i ==> surfaces[j] != s,
    decreases i,
{
    if exists|j: int| 0 <= j < i && surfaces[j] == s {
        let j = choose|j: int| 0 <= j < i && surfaces[j] == s;
        lemma_least(surfaces, s, j);
    }
}

/// A release raises the barrier's own flag and no other, and leaves all other groups alone. The
/// barrier's group keeps its members and its notifiers; it stops waiting for its surfaces exactly
/// when no member is left unreleased.
pub proof fn law_release_touches_one_barrier(m: BarriersModel, handle: int, flag: int, h: int)
    requires
        m.well_formed(),
        m.groups.has(handle),
        m.groups.has(h),
        0 <= flag < m.flags.len(),
    ensures
        ({
            let after = m.released(handle, flag);
            let group = after.group(handle);
            &&& after.flags.len() == m.flags.len()
            &&& after.flags[flag]
            &&& forall|f: int|
                0 <= f < m.flags.len() && f != flag ==> #[trigger] after.flags[f] == m.flags[f]
            &&& after.groups.root == m.groups.root
            &&& !m.groups.joined(h, handle) ==> after.group(h) == m.group(h)
            &&& group.members == m.group(handle).members
            &&& group.notifiers == m.group(handle).notifiers
            &&& group.signaled == m.group(handle).signaled
            &&& (exists|i: int|
                0 <= i < group.members.len() && #[trigger] group.members[i] != flag
                    && !m.flags[group.members[i] as int]) ==> group.surfaces == m.group(
                handle,
            ).surfaces
            &&& (forall|i: int|
                0 <= i < group.members.len() ==> #[trigger] group.members[i] == flag
                    || m.flags[group.members[i] as int]) ==> group.surfaces == Map::<
                u64,
                BarrierSurfaceEntry,
            >::empty()
        }),
{
    assert(m.groups.state.dom().contains(m.groups.root[handle]));
    let group = m.group(handle);
    assert forall|i: int| 0 <= i < group.members.len() implies #[trigger] group.members[i]
        < m.flags.len() by {
        assert(m.groups.state[m.groups.root[handle]].members[i] < m.flags.len());
    }
    surface_barrier::law_last_release_resolves(group, m.flags, flag);
    let after = m.released(handle, flag).group(handle);
    assert(after.members == group.members);
    if exists|i: int|
        0 <= i < after.members.len() && #[trigger] after.members[i] != flag
            && !m.flags[after.members[i] as int] {
        let i = choose|i: int|
            0 <= i < after.members.len() && #[trigger] after.members[i] != flag
                && !m.flags[after.members[i] as int];
        assert(group.members[i] != flag);
        assert(!group.all_released(m.flags.update(flag, true)));
    }
    if forall|i: int|
        0 <= i < after.members.len() ==> #[trigger] after.members[i] == flag
            || m.flags[after.members[i] as int] {
        assert forall|i: int| 0 <= i < group.members.len() && group.members[i] != flag implies m.flags[
        #[trigger] group.members[i] as int] by {
            assert(after.members[i] == group.members[i]);
        }
        assert(group.all_released(m.flags.update(flag, true)));
    }
}

/// A barrier of its own waits for nothing and notifies only for itself: its group has one member,
/// which blocks until its flag is up, and one notifier, which is not due while nothing is
/// registered.
pub proof fn law_new_barrier_stands_alone(
    member: usize,
    notifier: u64,
    flags: Seq<bool>,
    alive: Set<u64>,
)
    requires
        member < flags.len(),
    ensures
        GroupModel::fresh(member, notifier).all_released(flags) <==> flags[member as int],
        GroupModel::fresh(member, notifier).members == seq![member],
        GroupModel::fresh(member, notifier).notifiers == seq![notifier],
        !GroupModel::fresh(member, notifier).signaled,
        forall|s: u64| !#[trigger] GroupModel::fresh(member, notifier).surfaces.dom().contains(s),
        GroupModel::fresh(member, notifier).due(alive) == Seq::<u64>::empty(),
{
    let group = GroupModel::fresh(member, notifier);
    assert(group.members[0] == member);
    if flags[member as int] {
        assert forall|i: int| 0 <= i < group.members.len() implies flags[#[trigger] group.members[i] as int] by {}
    }
}

/// A foreign blocker counts exactly while it is pending; barriers never do.
pub proof fn law_foreign_and_pending(peers: Seq<DelayedPeer>, peer: DelayedPeer)
    ensures
        !surface_barrier::any_foreign_pending(Seq::<DelayedPeer>::empty()),
        surface_barrier::any_foreign_pending(peers.push(peer)) <==> {
            ||| surface_barrier::any_foreign_pending(peers)
            ||| (peer matches DelayedPeer::Foreign(state) && state is Pending)
        },
{
    let all = peers.push(peer);
    let n = peers.len() as int;
    assert(all[n] == peer);
    if surface_barrier::any_foreign_pending(peers) {
        let i = choose|i: int|
            0 <= i < peers.len() && #[trigger] peers[i] == DelayedPeer::Foreign(BlockerState::Pending);
        assert(all[i] == peers[i]);
        assert(surface_barrier::any_foreign_pending(all));
    }
    if surface_barrier::any_foreign_pending(all) {
        let i = choose|i: int|
            0 <= i < all.len() && #[trigger] all[i] == DelayedPeer::Foreign(BlockerState::Pending);
        if i < n {
            assert(all[i] == peers[i]);
        }
    }
}

} // verus!
