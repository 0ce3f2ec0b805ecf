//! Submissions to the device's queue, and the resources that they hold on to.
//!
//! Every submission signals the next point of a timeline. Its command buffers are recycled once
//! that point is reached.

use vstd::prelude::*;

use crate::backend::renderer::vulkan::device::{CleanupItem, CleanupQueue};
use crate::backend::renderer::vulkan::device;
use crate::backend::renderer::vulkan::error::VulkanError;
use crate::backend::renderer::vulkan::fence::{BinarySemaphore, VulkanFence};

verus! {

/// Number of command buffers that are allocated at once.
pub const COMMAND_BUFFER_BATCH: u32 = 4;

/// A submission that may still be executing.
#[derive(Debug)]
pub struct InFlight {
    pub point: u64,
    pub command_buffers: Vec<u64>,
}

/// What a submission waits for before it executes.
#[derive(Debug, Clone, Copy, PartialEq, Eq, Structural)]
pub enum QueueWait {
    /// A binary semaphore.
    Semaphore(u64),
    /// A point on the timeline.
    Point(u64),
}

/// What a submission signals when it completes.
#[derive(Debug, Clone, Copy, PartialEq, Eq, Structural)]
pub enum QueueSignal {
    /// A binary semaphore.
    Semaphore(u64),
    /// A point on the timeline.
    Point(u64),
}

/// A submission that is about to be handed to the queue.
#[derive(Debug)]
pub struct QueueSubmit {
    pub point: u64,
    pub command_buffers: Vec<u64>,
    pub waits: Vec<QueueWait>,
    pub signals: Vec<QueueSignal>,
    /// The semaphores among the waits.
    pub binary_waits: Vec<u64>,
    /// The semaphore that is signaled for an export.
    pub export_semaphore: Option<u64>,
}

/// The contents of a [`QueueSubmit`].
#[verifier::ext_equal]
pub struct SubmitModel {
    pub point: u64,
    pub command_buffers: Seq<u64>,
    pub waits: Seq<QueueWait>,
    pub signals: Seq<QueueSignal>,
    pub binary_waits: Seq<u64>,
    pub export_semaphore: Option<u64>,
}

impl QueueSubmit {
    pub open spec fn view(&self) -> SubmitModel {
        SubmitModel {
            point: self.point,
            command_buffers: self.command_buffers@,
            waits: self.waits@,
            signals: self.signals@,
            binary_waits: self.binary_waits@,
            export_semaphore: self.export_semaphore,
        }
    }
}

/// The semaphores as resources.
pub open spec fn semaphore_items(semaphores: Seq<u64>) -> Seq<CleanupItem> {
    semaphores.map_values(|s: u64| CleanupItem::Semaphore(s))
}

/// The submissions of a renderer.
#[derive(Debug)]
pub struct Submissions {
    /// The point of the latest submission.
    timeline_point: u64,
    in_flight: Vec<InFlight>,
    free_command_buffers: Vec<u64>,
    pending_timeline_waits: Vec<u64>,
    pending_binary_waits: Vec<u64>,
}

/// What a submission that may be executing means.
#[verifier::ext_equal]
pub struct Flight {
    pub point: u64,
    pub command_buffers: Seq<u64>,
}

/// What completed submissions leave behind.
#[verifier::ext_equal]
pub struct Drained {
    /// The submissions that may still be executing.
    pub left: Seq<Flight>,
    /// The command buffers of the others.
    pub recycled: Seq<u64>,
}

/// The submissions from `i` on without those up to the completed point. Each of these gives its
/// buffers back when it is met, and the last submission takes its place.
pub open spec fn drained(list: Seq<Flight>, i: int, completed: u64) -> Drained
    decreases list.len() - i,
{
    if i < 0 || i >= list.len() {
        Drained { left: list, recycled: Seq::empty() }
    } else if list[i].point <= completed {
        let rest = drained(list.update(i, list.last()).drop_last(), i, completed);
        Drained { left: rest.left, recycled: list[i].command_buffers + rest.recycled }
    } else {
        drained(list, i + 1, completed)
    }
}

/// The meanings of a list of submissions.
pub open spec fn listed(list: Seq<InFlight>) -> Seq<Flight> {
    list.map_values(
        |flight: InFlight|
            Flight { point: flight.point, command_buffers: flight.command_buffers@ },
    )
}

/// The contents of [`Submissions`].
#[verifier::ext_equal]
pub struct SubmissionsModel {
    /// The point of the latest submission.
    pub point: u64,
    /// The submissions that may be executing: their points and command buffers.
    pub in_flight: Map<u64, Seq<u64>>,
    /// The same submissions, in the order in which completed ones are looked for.
    pub order: Seq<Flight>,
    /// The command buffers that can be recorded anew.
    pub free: Seq<u64>,
    /// Points to wait for with the next submission.
    pub timeline_waits: Seq<u64>,
    /// Semaphores to wait for with the next submission.
    pub binary_waits: Seq<u64>,
}

impl SubmissionsModel {
    /// Whether a command buffer is part of a submission that may be executing.
    pub open spec fn executes(self, buffer: u64) -> bool {
        exists|point: u64| #[trigger]
            self.in_flight.contains_key(point) && self.in_flight[point].contains(buffer)
    }

    /// The point that the next submission signals.
    pub open spec fn next_point(self) -> u64 {
        (self.point + 1) as u64
    }

    /// A submission of the given buffers.
    pub open spec fn submit(
        self,
        command_buffers: Seq<u64>,
        extra_binary_waits: Seq<u64>,
        extra_timeline_waits: Seq<u64>,
        export_semaphore: Option<u64>,
    ) -> SubmitModel {
        let point = self.next_point();
        let binary_waits = self.binary_waits + extra_binary_waits;
        SubmitModel {
            point,
            command_buffers,
            waits: binary_waits.map_values(|s: u64| QueueWait::Semaphore(s)) + (self.timeline_waits
                + extra_timeline_waits).map_values(|p: u64| QueueWait::Point(p)),
            signals: match export_semaphore {
                Some(semaphore) => seq![QueueSignal::Point(point), QueueSignal::Semaphore(semaphore)],
                None => seq![QueueSignal::Point(point)],
            },
            binary_waits,
            export_semaphore,
        }
    }
}

/// The points and command buffers of submissions.
pub closed spec fn flights(list: Seq<InFlight>) -> Map<u64, Seq<u64>>
    decreases list.len(),
{
    if list.len() == 0 {
        Map::empty()
    } else {
        flights(list.drop_last()).insert(list.last().point, list.last().command_buffers@)
    }
}

/// No two submissions have the same point.
spec fn distinct_points(list: Seq<InFlight>) -> bool {
    forall|i: int, j: int|
        0 <= i < j < list.len() ==> (#[trigger] list[i]).point != (#[trigger] list[j]).point
}

/// The map holds what the list does.
proof fn lemma_flights(list: Seq<InFlight>)
    requires
        distinct_points(list),
    ensures
        forall|i: int|
            0 <= i < list.len() ==> #[trigger] flights(list).contains_key(list[i].point) && flights(
                list,
            )[list[i].point] == list[i].command_buffers@,
        forall|point: u64| #[trigger]
            flights(list).contains_key(point) ==> exists|i: int|
                0 <= i < list.len() && (#[trigger] list[i]).point == point,
    decreases list.len(),
{
    if list.len() > 0 {
        let rest = list.drop_last();
        let last = list.last();
        assert forall|i: int, j: int| 0 <= i < j < rest.len() implies (#[trigger] rest[i]).point != (
        #[trigger] rest[j]).point by {
            assert(rest[i] == list[i] && rest[j] == list[j]);
        }
        lemma_flights(rest);
        assert forall|i: int| 0 <= i < list.len() implies #[trigger] flights(list).contains_key(
            list[i].point,
        ) && flights(list)[list[i].point] == list[i].command_buffers@ by {
            if i < rest.len() {
                assert(rest[i] == list[i]);
                assert(flights(rest).contains_key(rest[i].point));
                assert(list[i].point != list[list.len() - 1].point);
            }
        }
        assert forall|point: u64| #[trigger] flights(list).contains_key(point) implies exists|i: int|
            0 <= i < list.len() && (#[trigger] list[i]).point == point by {
            if point == last.point {
                assert(list[list.len() - 1].point == point);
            } else {
                assert(flights(rest).contains_key(point));
                let i = choose|i: int| 0 <= i < rest.len() && (#[trigger] rest[i]).point == point;
                assert(list[i] == rest[i]);
            }
        }
    }
}

impl Submissions {
    pub closed spec fn view(&self) -> SubmissionsModel {
        SubmissionsModel {
            point: self.timeline_point,
            in_flight: flights(self.in_flight@),
            order: listed(self.in_flight@),
            free: self.free_command_buffers@,
            timeline_waits: self.pending_timeline_waits@,
            binary_waits: self.pending_binary_waits@,
        }
    }

    /// Every submission has a point of its own, none later than the latest one. A command buffer
    /// is free, or part of at most one submission, or with whoever records it.
    pub closed spec fn wf(&self) -> bool {
        &&& distinct_points(self.in_flight@)
        &&& forall|i: int|
            0 <= i < self.in_flight@.len() ==> (#[trigger] self.in_flight@[i]).point
                <= self.timeline_point
        &&& buffers_apart(self.in_flight@, self.free_command_buffers@)
    }

    /// Nothing was submitted yet.
    pub fn new() -> (submissions: Self)
        ensures
            submissions.wf(),
            submissions@ == (SubmissionsModel {
                point: 0,
                in_flight: Map::empty(),
                order: Seq::empty(),
                free: Seq::empty(),
                timeline_waits: Seq::empty(),
                binary_waits: Seq::empty(),
            }),
    {
        let submissions = Submissions {
            timeline_point: 0,
            in_flight: Vec::new(),
            free_command_buffers: Vec::new(),
            pending_timeline_waits: Vec::new(),
            pending_binary_waits: Vec::new(),
        };
        assert(submissions@.order =~= Seq::<Flight>::empty());
        submissions
    }

    /// The point of the latest submission.
    pub fn timeline_point(&self) -> (point: u64)
        ensures
            point == self@.point,
    {
        self.timeline_point
    }

    /// The point that the next submission signals.
    pub fn next_point(&self) -> (point: u64)
        requires
            self@.point < u64::MAX,
        ensures
            point == self@.next_point(),
            point == self@.point + 1,
    {
        self.timeline_point + 1
    }

    /// Recycles the command buffers of the submissions up to the completed point of the
    /// timeline. Returns them: they have to be reset before they are recorded anew.
    pub fn cleanup(&mut self, completed: u64) -> (recycled: Vec<u64>)
        requires
            old(self).wf(),
        ensures
            final(self).wf(),
            final(self)@ == (SubmissionsModel {
                in_flight: old(self)@.in_flight.restrict(Set::new(|p: u64| p > completed)),
                order: drained(old(self)@.order, 0, completed).left,
                free: old(self)@.free + recycled@,
                ..old(self)@
            }),
            recycled@ == drained(old(self)@.order, 0, completed).recycled,
            forall|b: u64| #[trigger]
                recycled@.contains(b) <==> exists|point: u64|
                    point <= completed && #[trigger] old(self)@.in_flight.contains_key(point)
                        && old(self)@.in_flight[point].contains(b),
            forall|b: u64| #[trigger] recycled@.contains(b) ==> !final(self)@.executes(b),
    {
        let ghost before = self@;
        let mut recycled: Vec<u64> = Vec::new();
        let ghost mut gone: Set<u64> = Set::empty();
        let mut i: usize = 0;
        proof {
            lemma_flights(self.in_flight@);
        }
        assert(self@.in_flight =~= before.in_flight.remove_keys(gone));
        while i < self.in_flight.len()
            invariant
                self.wf(),
                i <= self.in_flight@.len(),
                forall|k: int| 0 <= k < i ==> (#[trigger] self.in_flight@[k]).point > completed,
                self@ == (SubmissionsModel {
                    in_flight: before.in_flight.remove_keys(gone),
                    order: self@.order,
                    free: before.free + recycled@,
                    ..before
                }),
                drained(self@.order, i as int, completed).left == drained(
                    before.order,
                    0,
                    completed,
                ).left,
                recycled@ + drained(self@.order, i as int, completed).recycled == drained(
                    before.order,
                    0,
                    completed,
                ).recycled,
                forall|point: u64| #[trigger]
                    gone.contains(point) ==> point <= completed && before.in_flight.contains_key(
                        point,
                    ),
                forall|b: u64| #[trigger]
                    recycled@.contains(b) <==> exists|point: u64| #[trigger]
                        gone.contains(point) && before.in_flight[point].contains(b),
            decreases self.in_flight@.len() - i,
        {
            if self.in_flight[i].point <= completed {
                let ghost list = self.in_flight@;
                let ghost current = self@;
                let ghost free = self.free_command_buffers@;
                let ghost earlier = recycled@;
                let done = self.in_flight.swap_remove(i);
                let ghost buffers = done.command_buffers@;
                proof {
                    lemma_flights(list);
                    assert(flights(list).contains_key(list[i as int].point));
                    lemma_swap_remove(list, i as int);
                }
                let mut k: usize = 0;
                while k < done.command_buffers.len()
                    invariant
                        k <= buffers.len(),
                        buffers == done.command_buffers@,
                        self.free_command_buffers@ == free + buffers.take(k as int),
                        recycled@ == earlier + buffers.take(k as int),
                        self.in_flight@ == list.update(i as int, list.last()).drop_last(),
                        self.timeline_point == current.point,
                        self.pending_timeline_waits@ == current.timeline_waits,
                        self.pending_binary_waits@ == current.binary_waits,
                    decreases buffers.len() - k,
                {
                    let buffer: u64 = done.command_buffers[k];
                    self.free_command_buffers.push(buffer);
                    recycled.push(buffer);
                    assert(buffers.take(k + 1) =~= buffers.take(k as int).push(buffer));
                    k = k + 1;
                }
                assert(buffers.take(k as int) =~= buffers);
                proof {
                    let point = list[i as int].point;
                    lemma_recycled(list, i as int, free);
                    let next = current.order.update(i as int, current.order.last()).drop_last();
                    assert(self@.order =~= next);
                    assert(current.order[i as int].command_buffers == buffers);
                    let rest = drained(next, i as int, completed).recycled;
                    assert(earlier + (buffers + rest) =~= recycled@ + rest);
                    assert(self@.in_flight =~= before.in_flight.remove_keys(gone.insert(point)));
                    assert(self@.free =~= before.free + recycled@);
                    assert forall|b: u64| #[trigger] recycled@.contains(b) <==> exists|p: u64|
                        #[trigger] gone.insert(point).contains(p) && before.in_flight[p].contains(b) by {
                        lemma_concat_contains(earlier, buffers, b);
                        if earlier.contains(b) {
                            let p = choose|p: u64| #[trigger]
                                gone.contains(p) && before.in_flight[p].contains(b);
                            assert(gone.insert(point).contains(p));
                        }
                        if buffers.contains(b) {
                            assert(gone.insert(point).contains(point));
                        }
                        if exists|p: u64| #[trigger]
                            gone.insert(point).contains(p) && before.in_flight[p].contains(b) {
                            let p = choose|p: u64| #[trigger]
                                gone.insert(point).contains(p) && before.in_flight[p].contains(b);
                            if p != point {
                                assert(gone.contains(p));
                            }
                        }
                    }
                    gone = gone.insert(point);
                }
            } else {
                i = i + 1;
            }
        }
        proof {
            assert(recycled@ + Seq::<u64>::empty() =~= recycled@);
            lemma_flights(self.in_flight@);
            assert forall|point: u64| #[trigger] before.in_flight.contains_key(point) && point
                <= completed implies gone.contains(point) by {
                if !gone.contains(point) {
                    assert(flights(self.in_flight@).contains_key(point));
                }
            }
            assert(self@.in_flight =~= before.in_flight.restrict(
                Set::new(|p: u64| p > completed),
            ));
            assert forall|b: u64| #[trigger] recycled@.contains(b) <==> exists|point: u64|
                point <= completed && #[trigger] before.in_flight.contains_key(point)
                    && before.in_flight[point].contains(b) by {
                if recycled@.contains(b) {
                    let p = choose|p: u64| #[trigger]
                        gone.contains(p) && before.in_flight[p].contains(b);
                    assert(before.in_flight.contains_key(p));
                }
                if exists|point: u64|
                    point <= completed && #[trigger] before.in_flight.contains_key(point)
                        && before.in_flight[point].contains(b) {
                    let p = choose|p: u64|
                        p <= completed && #[trigger] before.in_flight.contains_key(p)
                            && before.in_flight[p].contains(b);
                    assert(gone.contains(p));
                }
            }
            assert forall|b: u64| #[trigger] recycled@.contains(b) implies !self@.executes(b) by {
                lemma_concat_contains(before.free, recycled@, b);
            }
        }
        recycled
    }

    /// Takes a free command buffer, if there is one.
    pub fn take_command_buffer(&mut self) -> (buffer: Option<u64>)
        requires
            old(self).wf(),
        ensures
            final(self).wf(),
            if old(self)@.free.len() == 0 {
                buffer is None && final(self)@ == old(self)@
            } else {
                &&& buffer == Some(old(self)@.free.last())
                &&& final(self)@ == (SubmissionsModel {
                    free: old(self)@.free.drop_last(),
                    ..old(self)@
                })
                &&& !final(self)@.free.contains(buffer->0)
                &&& !final(self)@.executes(buffer->0)
            },
    {
        let ghost free = self.free_command_buffers@;
        let buffer = self.free_command_buffers.pop();
        proof {
            if free.len() > 0 {
                lemma_fewer_free(self.in_flight@, free);
                lemma_flights(self.in_flight@);
                assert(free.contains(free.last()));
            }
        }
        buffer
    }

    /// Takes one of the command buffers that were allocated because none was free. The others
    /// are free from now on.
    pub fn add_command_buffers(&mut self, buffers: Vec<u64>) -> (buffer: u64)
        requires
            old(self).wf(),
            buffers@.len() > 0,
            buffers@.no_duplicates(),
            forall|b: u64| #[trigger]
                buffers@.contains(b) ==> !old(self)@.free.contains(b) && !old(self)@.executes(b),
        ensures
            final(self).wf(),
            buffer == buffers@.last(),
            final(self)@ == (SubmissionsModel {
                free: old(self)@.free + buffers@.drop_last(),
                ..old(self)@
            }),
    {
        let ghost before = self@;
        let ghost list = self.in_flight@;
        let ghost free = self.free_command_buffers@;
        let count: usize = buffers.len() - 1;
        let mut i: usize = 0;
        while i < count
            invariant
                i <= count < buffers@.len(),
                self.free_command_buffers@ == free + buffers@.take(i as int),
                self.in_flight@ == list,
                self.timeline_point == before.point,
                self.pending_timeline_waits@ == before.timeline_waits,
                self.pending_binary_waits@ == before.binary_waits,
            decreases count - i,
        {
            self.free_command_buffers.push(buffers[i]);
            assert(buffers@.take(i + 1) =~= buffers@.take(i as int).push(buffers@[i as int]));
            i = i + 1;
        }
        proof {
            assert(buffers@.take(count as int) =~= buffers@.drop_last());
            lemma_flights(list);
            let added = buffers@.drop_last();
            assert forall|b: u64| #[trigger] added.contains(b) implies !free.contains(b) && (forall|
                i: int,
            |
                0 <= i < list.len() ==> !(#[trigger] list[i]).command_buffers@.contains(b)) by {
                let k = added.index_of(b);
                assert(buffers@[k] == b);
                assert(buffers@.contains(b));
                assert forall|i: int| 0 <= i < list.len() implies !(
                #[trigger] list[i]).command_buffers@.contains(b) by {
                    assert(before.in_flight.contains_key(list[i].point));
                }
            }
            lemma_more_free(list, free, added);
        }
        buffers[count]
    }

    /// Prepares a submission of command buffers that signals the next timeline point.
    ///
    /// It waits for what was scheduled, and for the semaphores and points given here. Where it
    /// is to be exported as a sync file, `export_semaphore` is signaled too.
    pub fn submit(
        &mut self,
        command_buffers: Vec<u64>,
        extra_binary_waits: &Vec<u64>,
        extra_timeline_waits: &Vec<u64>,
        export_semaphore: Option<u64>,
    ) -> (submit: QueueSubmit)
        requires
            old(self).wf(),
            old(self)@.point < u64::MAX,
        ensures
            final(self).wf(),
            final(self)@ == (SubmissionsModel {
                timeline_waits: Seq::empty(),
                binary_waits: Seq::empty(),
                ..old(self)@
            }),
            submit@ == old(self)@.submit(
                command_buffers@,
                extra_binary_waits@,
                extra_timeline_waits@,
                export_semaphore,
            ),
    {
        let ghost before = self@;
        let point: u64 = self.next_point();
        let mut binary_waits: Vec<u64> = Vec::new();
        let mut timeline_waits: Vec<u64> = Vec::new();
        std::mem::swap(&mut binary_waits, &mut self.pending_binary_waits);
        std::mem::swap(&mut timeline_waits, &mut self.pending_timeline_waits);
        append_all(&mut binary_waits, extra_binary_waits);
        append_all(&mut timeline_waits, extra_timeline_waits);

        let mut waits: Vec<QueueWait> = Vec::new();
        let ghost semaphores = binary_waits@.map_values(|s: u64| QueueWait::Semaphore(s));
        let ghost points = timeline_waits@.map_values(|p: u64| QueueWait::Point(p));
        let mut i: usize = 0;
        while i < binary_waits.len()
            invariant
                i <= binary_waits@.len(),
                semaphores == binary_waits@.map_values(|s: u64| QueueWait::Semaphore(s)),
                waits@ == semaphores.take(i as int),
            decreases binary_waits@.len() - i,
        {
            waits.push(QueueWait::Semaphore(binary_waits[i]));
            assert(semaphores.take(i + 1) =~= semaphores.take(i as int).push(semaphores[i as int]));
            i = i + 1;
        }
        assert(semaphores.take(i as int) =~= semaphores);
        let mut k: usize = 0;
        while k < timeline_waits.len()
            invariant
                k <= timeline_waits@.len(),
                points == timeline_waits@.map_values(|p: u64| QueueWait::Point(p)),
                waits@ == semaphores + points.take(k as int),
            decreases timeline_waits@.len() - k,
        {
            waits.push(QueueWait::Point(timeline_waits[k]));
            assert(points.take(k + 1) =~= points.take(k as int).push(points[k as int]));
            k = k + 1;
        }
        assert(points.take(k as int) =~= points);

        let mut signals: Vec<QueueSignal> = Vec::new();
        signals.push(QueueSignal::Point(point));
        if let Some(semaphore) = export_semaphore {
            signals.push(QueueSignal::Semaphore(semaphore));
        }
        let submit = QueueSubmit {
            point,
            command_buffers,
            waits,
            signals,
            binary_waits,
            export_semaphore,
        };
        assert(submit@ =~= before.submit(
            command_buffers@,
            extra_binary_waits@,
            extra_timeline_waits@,
            export_semaphore,
        ));
        submit
    }

    /// Takes note of a submission that was handed to the queue. The semaphores it waited for
    /// are destroyed once it has completed.
    pub fn submitted(&mut self, submit: QueueSubmit, cleanup: &mut CleanupQueue) -> (fence:
        VulkanFence)
        requires
            old(self).wf(),
            submit@.point == old(self)@.point + 1,
            submit@.command_buffers.no_duplicates(),
            forall|b: u64| #[trigger]
                submit@.command_buffers.contains(b) ==> !old(self)@.free.contains(b) && !old(
                    self,
                )@.executes(b),
        ensures
            final(self).wf(),
            final(self)@ == (SubmissionsModel {
                point: submit@.point,
                in_flight: old(self)@.in_flight.insert(submit@.point, submit@.command_buffers),
                order: old(self)@.order.push(
                    Flight { point: submit@.point, command_buffers: submit@.command_buffers },
                ),
                ..old(self)@
            }),
            final(cleanup)@ == old(cleanup)@ + device::deferred(
                submit@.point,
                semaphore_items(submit@.binary_waits),
            ),
            fence.point == submit@.point,
            fence.binary == match submit@.export_semaphore {
                Some(semaphore) => Some(BinarySemaphore::Unexported(semaphore)),
                None => None,
            },
    {
        let ghost list = self.in_flight@;
        let ghost before = self@;
        let point: u64 = submit.point;
        let items = semaphores_to_destroy(&submit.binary_waits);
        cleanup.defer_destroy(point, &items);
        self.timeline_point = point;
        let flight = InFlight { point, command_buffers: submit.command_buffers };
        self.in_flight.push(flight);
        proof {
            lemma_flights(list);
            assert(self.in_flight@.drop_last() =~= list);
            assert(self@.order =~= before.order.push(
                Flight { point, command_buffers: flight.command_buffers@ },
            ));
            assert forall|b: u64| #[trigger]
                flight.command_buffers@.contains(b) implies !self.free_command_buffers@.contains(b)
                && (forall|i: int|
                0 <= i < list.len() ==> !(#[trigger] list[i]).command_buffers@.contains(b)) by {
                assert forall|i: int| 0 <= i < list.len() implies !(
                #[trigger] list[i]).command_buffers@.contains(b) by {
                    assert(before.in_flight.contains_key(list[i].point));
                }
            }
            lemma_one_more(list, self.free_command_buffers@, flight);
        }
        let binary = match submit.export_semaphore {
            Some(semaphore) => Some(BinarySemaphore::Unexported(semaphore)),
            None => None,
        };
        VulkanFence { point, binary }
    }

    /// Takes note of a submission whose further resources are destroyed once it has completed.
    pub fn submitted_one_shot(
        &mut self,
        submit: QueueSubmit,
        items: &Vec<CleanupItem>,
        cleanup: &mut CleanupQueue,
    ) -> (fence: VulkanFence)
        requires
            old(self).wf(),
            submit@.point == old(self)@.point + 1,
            submit@.command_buffers.no_duplicates(),
            forall|b: u64| #[trigger]
                submit@.command_buffers.contains(b) ==> !old(self)@.free.contains(b) && !old(
                    self,
                )@.executes(b),
        ensures
            final(self).wf(),
            final(self)@ == (SubmissionsModel {
                point: submit@.point,
                in_flight: old(self)@.in_flight.insert(submit@.point, submit@.command_buffers),
                order: old(self)@.order.push(
                    Flight { point: submit@.point, command_buffers: submit@.command_buffers },
                ),
                ..old(self)@
            }),
            final(cleanup)@ == old(cleanup)@ + device::deferred(
                submit@.point,
                semaphore_items(submit@.binary_waits),
            ) + device::deferred(submit@.point, items@),
            fence.point == submit@.point,
            fence.binary == match submit@.export_semaphore {
                Some(semaphore) => Some(BinarySemaphore::Unexported(semaphore)),
                None => None,
            },
    {
        let fence = self.submitted(submit, cleanup);
        cleanup.defer_destroy(fence.point, items);
        fence
    }
}

impl QueueSubmit {
    /// The semaphores that have to be destroyed because the queue refused the submission: the
    /// one for its export, and those it would have waited for.
    pub fn refused(&self) -> (items: Vec<CleanupItem>)
        ensures
            items@ == match self@.export_semaphore {
                Some(semaphore) => semaphore_items(seq![semaphore] + self@.binary_waits),
                None => semaphore_items(self@.binary_waits),
            },
    {
        let mut all: Vec<u64> = Vec::new();
        if let Some(semaphore) = self.export_semaphore {
            all.push(semaphore);
        }
        append_all(&mut all, &self.binary_waits);
        assert(self.export_semaphore is None ==> all@ =~= self.binary_waits@);
        semaphores_to_destroy(&all)
    }
}

fn append_all(list: &mut Vec<u64>, more: &Vec<u64>)
    ensures
        final(list)@ == old(list)@ + more@,
{
    let ghost before = list@;
    let mut i: usize = 0;
    while i < more.len()
        invariant
            i <= more@.len(),
            list@ == before + more@.take(i as int),
        decreases more@.len() - i,
    {
        list.push(more[i]);
        assert(more@.take(i + 1) =~= more@.take(i as int).push(more@[i as int]));
        i = i + 1;
    }
    assert(more@.take(i as int) =~= more@);
}

fn semaphores_to_destroy(semaphores: &Vec<u64>) -> (items: Vec<CleanupItem>)
    ensures
        items@ == semaphore_items(semaphores@),
{
    let mut items: Vec<CleanupItem> = Vec::new();
    let ghost all = semaphore_items(semaphores@);
    let mut i: usize = 0;
    while i < semaphores.len()
        invariant
            i <= semaphores@.len(),
            all == semaphore_items(semaphores@),
            items@ == all.take(i as int),
        decreases semaphores@.len() - i,
    {
        items.push(CleanupItem::Semaphore(semaphores[i]));
        assert(all.take(i + 1) =~= all.take(i as int).push(all[i as int]));
        i = i + 1;
    }
    assert(all.take(i as int) =~= all);
    items
}

proof fn lemma_fewer_free(list: Seq<InFlight>, free: Seq<u64>)
    requires
        buffers_apart(list, free),
        free.len() > 0,
    ensures
        buffers_apart(list, free.drop_last()),
{
    let rest = free.drop_last();
    assert forall|i: int, b: u64|
        0 <= i < list.len() && #[trigger] list[i].command_buffers@.contains(
            b,
        ) implies !rest.contains(b) by {
        if rest.contains(b) {
            assert(free[rest.index_of(b)] == b);
        }
    }
}

proof fn lemma_more_free(list: Seq<InFlight>, free: Seq<u64>, added: Seq<u64>)
    requires
        buffers_apart(list, free),
        added.no_duplicates(),
        forall|b: u64| #[trigger]
            added.contains(b) ==> !free.contains(b) && (forall|i: int|
                0 <= i < list.len() ==> !(#[trigger] list[i]).command_buffers@.contains(b)),
    ensures
        buffers_apart(list, free + added),
{
    let all = free + added;
    assert forall|a: int, b: int| 0 <= a < b < all.len() implies all[a] != all[b] by {
        if a < free.len() && b >= free.len() {
            assert(added.contains(added[b - free.len()]));
            assert(free.contains(free[a]));
        }
    }
    assert forall|i: int, b: u64|
        0 <= i < list.len() && #[trigger] list[i].command_buffers@.contains(
            b,
        ) implies !all.contains(b) by {
        lemma_concat_contains(free, added, b);
    }
}

proof fn lemma_one_more(list: Seq<InFlight>, free: Seq<u64>, flight: InFlight)
    requires
        buffers_apart(list, free),
        flight.command_buffers@.no_duplicates(),
        forall|b: u64| #[trigger]
            flight.command_buffers@.contains(b) ==> !free.contains(b) && (forall|i: int|
                0 <= i < list.len() ==> !(#[trigger] list[i]).command_buffers@.contains(b)),
    ensures
        buffers_apart(list.push(flight), free),
{
}

proof fn lemma_concat_contains(a: Seq<u64>, b: Seq<u64>, x: u64)
    ensures
        (a + b).contains(x) <==> a.contains(x) || b.contains(x),
{
    if a.contains(x) {
        let i = a.index_of(x);
        assert((a + b)[i] == x);
    }
    if b.contains(x) {
        let i = b.index_of(x);
        assert((a + b)[a.len() + i] == x);
    }
}

/// The list without one of its elements, in whose place the last one is put.
spec fn swap_removed(list: Seq<InFlight>, i: int) -> Seq<InFlight> {
    list.update(i, list.last()).drop_last()
}

/// Where an element of the shortened list was.
spec fn place_before(list: Seq<InFlight>, i: int, k: int) -> int {
    if k == i {
        list.len() - 1
    } else {
        k
    }
}

proof fn lemma_swap_remove(list: Seq<InFlight>, i: int)
    requires
        distinct_points(list),
        0 <= i < list.len(),
    ensures
        distinct_points(swap_removed(list, i)),
        flights(swap_removed(list, i)) == flights(list).remove(list[i].point),
        forall|k: int|
            0 <= k < list.len() - 1 ==> #[trigger] swap_removed(list, i)[k] == list[place_before(
                list,
                i,
                k,
            )],
{
    let after = swap_removed(list, i);
    lemma_flights(list);
    assert forall|a: int, b: int| 0 <= a < b < after.len() implies (#[trigger] after[a]).point != (
    #[trigger] after[b]).point by {
        let x = place_before(list, i, a);
        let y = place_before(list, i, b);
        assert(list[x].point != list[y].point);
    }
    lemma_flights(after);
    assert forall|p: u64| #[trigger] flights(after).contains_key(p) <==> flights(list).remove(
        list[i].point,
    ).contains_key(p) by {
        if flights(after).contains_key(p) {
            let k = choose|k: int| 0 <= k < after.len() && (#[trigger] after[k]).point == p;
            let x = place_before(list, i, k);
            assert(flights(list).contains_key(list[x].point));
            assert(list[x].point != list[i].point);
        }
        if flights(list).contains_key(p) && p != list[i].point {
            let k = choose|k: int| 0 <= k < list.len() && (#[trigger] list[k]).point == p;
            let x = if k == list.len() - 1 {
                i
            } else {
                k
            };
            assert(after[x].point == p);
            assert(flights(after).contains_key(after[x].point));
        }
    }
    assert forall|p: u64| #[trigger] flights(after).contains_key(p) implies flights(after)[p]
        == flights(list)[p] by {
        let k = choose|k: int| 0 <= k < after.len() && (#[trigger] after[k]).point == p;
        assert(flights(after).contains_key(after[k].point));
        assert(flights(list).contains_key(list[place_before(list, i, k)].point));
    }
    assert(flights(after) =~= flights(list).remove(list[i].point));
}

/// The rules on command buffers.
spec fn buffers_apart(list: Seq<InFlight>, free: Seq<u64>) -> bool {
    &&& free.no_duplicates()
    &&& forall|i: int|
        0 <= i < list.len() ==> (#[trigger] list[i]).command_buffers@.no_duplicates()
    &&& forall|i: int, b: u64|
        0 <= i < list.len() && #[trigger] list[i].command_buffers@.contains(b) ==> !free.contains(b)
    &&& forall|i: int, j: int, b: u64|
        0 <= i < j < list.len() && #[trigger] list[i].command_buffers@.contains(b)
            ==> !#[trigger] list[j].command_buffers@.contains(b)
}

proof fn lemma_recycled(list: Seq<InFlight>, i: int, free: Seq<u64>)
    requires
        distinct_points(list),
        buffers_apart(list, free),
        0 <= i < list.len(),
    ensures
        buffers_apart(swap_removed(list, i), free + list[i].command_buffers@),
{
    let after = swap_removed(list, i);
    let buffers = list[i].command_buffers@;
    let all = free + buffers;
    lemma_swap_remove(list, i);
    assert forall|a: int, b: int| 0 <= a < b < all.len() implies all[a] != all[b] by {
        if a < free.len() && b >= free.len() {
            assert(buffers.contains(buffers[b - free.len()]));
            assert(free.contains(free[a]));
        }
    }
    assert forall|k: int| 0 <= k < after.len() implies (
    #[trigger] after[k]).command_buffers@.no_duplicates() by {
        assert(after[k] == list[place_before(list, i, k)]);
    }
    assert forall|k: int, b: u64|
        0 <= k < after.len() && #[trigger] after[k].command_buffers@.contains(
            b,
        ) implies !all.contains(b) by {
        let x = place_before(list, i, k);
        assert(list[x].command_buffers@.contains(b));
        lemma_concat_contains(free, buffers, b);
        if buffers.contains(b) {
            if x < i {
                assert(!list[i].command_buffers@.contains(b));
            } else {
                assert(!list[x].command_buffers@.contains(b));
            }
        }
    }
    assert forall|k: int, m: int, b: u64|
        0 <= k < m < after.len() && #[trigger] after[k].command_buffers@.contains(
            b,
        ) implies !#[trigger] after[m].command_buffers@.contains(b) by {
        let x = place_before(list, i, k);
        let y = place_before(list, i, m);
        assert(list[x].command_buffers@.contains(b));
        if list[y].command_buffers@.contains(b) {
            if x < y {
                assert(!list[y].command_buffers@.contains(b));
            } else {
                assert(!list[x].command_buffers@.contains(b));
            }
        }
    }
}

/// A step in waiting for a sync point.
#[derive(Debug, Clone, Copy, PartialEq, Eq, Structural)]
pub enum WaitEvent {
    /// The wait starts. If the sync point stems from this renderer, its point on the timeline
    /// is known.
    Start { reached: bool, own_point: Option<u64> },
    /// The sync point was exported as a sync file, and that was imported as a semaphore; `None`
    /// if one of the two did not work.
    Imported(Option<u64>),
    /// The sync point was waited for; the wait was interrupted or not.
    Waited { interrupted: bool },
}

/// What is to be done next to wait for a sync point.
#[derive(Debug, PartialEq, Eq)]
pub enum WaitAction {
    /// Nothing more.
    Done,
    /// Export the sync point, and import it as a semaphore.
    Import,
    /// Block until the sync point is reached.
    Block,
    /// Report the error.
    Fail(VulkanError),
}

impl SubmissionsModel {
    /// The waits after a step.
    pub open spec fn after_wait(self, event: WaitEvent) -> SubmissionsModel {
        match event {
            WaitEvent::Start { reached: false, own_point: Some(point) } => SubmissionsModel {
                timeline_waits: self.timeline_waits.push(point),
                ..self
            },
            WaitEvent::Imported(Some(semaphore)) => SubmissionsModel {
                binary_waits: self.binary_waits.push(semaphore),
                ..self
            },
            _ => self,
        }
    }
}

/// What is to be done after a step.
pub open spec fn wait_action(event: WaitEvent) -> WaitAction {
    match event {
        WaitEvent::Start { reached, own_point } => if reached || own_point is Some {
            WaitAction::Done
        } else {
            WaitAction::Import
        },
        WaitEvent::Imported(semaphore) => if semaphore is Some {
            WaitAction::Done
        } else {
            WaitAction::Block
        },
        WaitEvent::Waited { interrupted } => if interrupted {
            WaitAction::Fail(VulkanError::SyncInterrupted)
        } else {
            WaitAction::Done
        },
    }
}

impl Submissions {
    /// Waits for a sync point, with the next submission if possible: a fence of this renderer is
    /// waited for on its timeline, a native one with a semaphore.
    pub fn handle_wait(&mut self, event: WaitEvent) -> (action: WaitAction)
        requires
            old(self).wf(),
        ensures
            final(self).wf(),
            final(self)@ == old(self)@.after_wait(event),
            action == wait_action(event),
    {
        match event {
            WaitEvent::Start { reached, own_point } => {
                if reached {
                    return WaitAction::Done;
                }
                match own_point {
                    Some(point) => {
                        self.pending_timeline_waits.push(point);
                        WaitAction::Done
                    },
                    None => WaitAction::Import,
                }
            },
            WaitEvent::Imported(Some(semaphore)) => {
                self.pending_binary_waits.push(semaphore);
                WaitAction::Done
            },
            WaitEvent::Imported(None) => WaitAction::Block,
            WaitEvent::Waited { interrupted } => if interrupted {
                WaitAction::Fail(VulkanError::SyncInterrupted)
            } else {
                WaitAction::Done
            },
        }
    }
}

/// A wait is not lost: when it is over without blocking, either the sync point was reached, or
/// the next submission waits for it.
pub proof fn law_waits_are_scheduled(
    queue: SubmissionsModel,
    event: WaitEvent,
    command_buffers: Seq<u64>,
    binary_waits: Seq<u64>,
    timeline_waits: Seq<u64>,
    export_semaphore: Option<u64>,
)
    requires
        wait_action(event) is Done,
    ensures
        ({
            let waits = queue.after_wait(event).submit(
                command_buffers,
                binary_waits,
                timeline_waits,
                export_semaphore,
            ).waits;
            match event {
                WaitEvent::Start { reached, own_point } => reached || waits.contains(
                    QueueWait::Point(own_point->0),
                ),
                WaitEvent::Imported(semaphore) => waits.contains(
                    QueueWait::Semaphore(semaphore->0),
                ),
                WaitEvent::Waited { interrupted } => !interrupted,
            }
        }),
{
    let after = queue.after_wait(event);
    let waits = after.submit(command_buffers, binary_waits, timeline_waits, export_semaphore).waits;
    let semaphores = after.binary_waits + binary_waits;
    match event {
        WaitEvent::Start { reached: false, own_point: Some(point) } => {
            let k = semaphores.len() + after.timeline_waits.len() - 1;
            assert(waits[k] == QueueWait::Point(point));
        },
        WaitEvent::Imported(Some(semaphore)) => {
            let k = after.binary_waits.len() - 1;
            assert(waits[k] == QueueWait::Semaphore(semaphore));
        },
        _ => {},
    }
}

/// The accesses to a buffer that a sync file stands for.
#[derive(Debug, Clone, Copy, PartialEq, Eq, Structural)]
pub struct SyncAccess {
    pub read: bool,
    pub write: bool,
}

/// The outcome of taking the fences out of one plane of a buffer.
#[derive(Debug, Clone, Copy, PartialEq, Eq, Structural)]
pub enum FenceExport {
    /// They were exported as a sync file, and that imported as a semaphore if possible.
    File(Option<u64>),
    /// They cannot be exported.
    Failed,
}

/// Synchronization with other users of a buffer, through the fences that the kernel attaches
/// to it.
#[derive(Debug, Clone, Copy, PartialEq, Eq, Structural)]
pub struct ImplicitSync {
    /// Whether semaphores can be exchanged with the kernel.
    pub semaphores: bool,
    /// Whether the kernel supports to export and import sync files; `None` until the first
    /// attempt.
    pub interop: Option<bool>,
}

impl ImplicitSync {
    /// Nothing was tried yet.
    pub fn new(semaphores: bool) -> (sync: Self)
        ensures
            sync == (ImplicitSync { semaphores, interop: None }),
    {
        ImplicitSync { semaphores, interop: None }
    }

    /// The fences that have to be exported before an access: writing waits for all prior
    /// accesses, reading only for prior writes. `None` if the access has to block on the buffer
    /// instead.
    pub fn acquire(&self, write: bool) -> (access: Option<SyncAccess>)
        ensures
            access == if self.interop == Some(false) || !self.semaphores {
                None
            } else {
                Some(SyncAccess { read: true, write })
            },
    {
        let unsupported = match self.interop {
            Some(supported) => !supported,
            None => false,
        };
        if unsupported || !self.semaphores {
            None
        } else {
            Some(SyncAccess { read: true, write })
        }
    }

    /// Takes note of the outcome for one plane of a buffer. The semaphore joins the waits;
    /// returns whether the access has to block on the plane instead.
    pub fn acquired(&mut self, export: FenceExport, waits: &mut Vec<u64>) -> (block: bool)
        ensures
            block == (export is Failed),
            final(self).semaphores == old(self).semaphores,
            final(self).interop == match export {
                FenceExport::File(_) => Some(true),
                FenceExport::Failed => if old(self).interop is None {
                    Some(false)
                } else {
                    old(self).interop
                },
            },
            final(waits)@ == match export {
                FenceExport::File(Some(semaphore)) => old(waits)@.push(semaphore),
                _ => old(waits)@,
            },
    {
        match export {
            FenceExport::File(semaphore) => {
                self.interop = Some(true);
                if let Some(semaphore) = semaphore {
                    waits.push(semaphore);
                }
                false
            },
            FenceExport::Failed => {
                if self.interop.is_none() {
                    self.interop = Some(false);
                }
                true
            },
        }
    }

    /// What a sync file stands for when it is attached to a buffer after an access; `None` if
    /// the kernel does not support that.
    pub fn release(&self, write: bool) -> (access: Option<SyncAccess>)
        ensures
            access == if self.interop == Some(false) {
                None
            } else {
                Some(SyncAccess { read: !write, write })
            },
    {
        match self.interop {
            Some(false) => None,
            _ => Some(SyncAccess { read: !write, write }),
        }
    }
}

/// A submission signals the next point of the timeline, and a semaphore exactly if one is to be
/// exported. It waits for everything that is pending and everything that is asked for besides,
/// and for nothing else.
pub proof fn law_what_a_submission_waits_for(
    queue: SubmissionsModel,
    command_buffers: Seq<u64>,
    binary_waits: Seq<u64>,
    timeline_waits: Seq<u64>,
    export_semaphore: Option<u64>,
    semaphore: u64,
    point: u64,
)
    requires
        queue.point < u64::MAX,
    ensures
        ({
            let submit = queue.submit(
                command_buffers,
                binary_waits,
                timeline_waits,
                export_semaphore,
            );
            &&& submit.point == queue.point + 1
            &&& submit.command_buffers == command_buffers
            &&& submit.export_semaphore == export_semaphore
            &&& submit.waits.contains(QueueWait::Semaphore(semaphore)) <==> queue.binary_waits.contains(
                semaphore,
            ) || binary_waits.contains(semaphore)
            &&& submit.waits.contains(QueueWait::Point(point)) <==> queue.timeline_waits.contains(point)
                || timeline_waits.contains(point)
            &&& submit.waits.len() == queue.binary_waits.len() + binary_waits.len()
                + queue.timeline_waits.len() + timeline_waits.len()
            &&& submit.binary_waits.contains(semaphore) <==> queue.binary_waits.contains(semaphore)
                || binary_waits.contains(semaphore)
            &&& submit.binary_waits.len() == queue.binary_waits.len() + binary_waits.len()
            &&& submit.signals.contains(QueueSignal::Point(point)) <==> point == submit.point
            &&& submit.signals.contains(QueueSignal::Semaphore(semaphore)) <==> export_semaphore
                == Some(semaphore)
        }),
{
    let submit = queue.submit(command_buffers, binary_waits, timeline_waits, export_semaphore);
    let semaphores = queue.binary_waits + binary_waits;
    let points = queue.timeline_waits + timeline_waits;
    let n = semaphores.len();
    lemma_in_either(queue.binary_waits, binary_waits, semaphore);
    lemma_in_either(queue.timeline_waits, timeline_waits, point);
    if semaphores.contains(semaphore) {
        let i = choose|i: int| 0 <= i < n && semaphores[i] == semaphore;
        assert(submit.waits[i] == QueueWait::Semaphore(semaphore));
    }
    if submit.waits.contains(QueueWait::Semaphore(semaphore)) {
        let i = choose|i: int|
            0 <= i < submit.waits.len() && submit.waits[i] == QueueWait::Semaphore(semaphore);
        assert(i < n);
        assert(semaphores[i] == semaphore);
    }
    if points.contains(point) {
        let i = choose|i: int| 0 <= i < points.len() && points[i] == point;
        assert(submit.waits[n + i] == QueueWait::Point(point));
    }
    if submit.waits.contains(QueueWait::Point(point)) {
        let i = choose|i: int|
            0 <= i < submit.waits.len() && submit.waits[i] == QueueWait::Point(point);
        assert(i >= n);
        assert(points[i - n] == point);
    }
    assert(submit.signals[0] == QueueSignal::Point(submit.point));
    if export_semaphore is Some {
        assert(submit.signals[1] == QueueSignal::Semaphore(export_semaphore->0));
    }
}

proof fn lemma_in_either(a: Seq<u64>, b: Seq<u64>, x: u64)
    ensures
        (a + b).contains(x) <==> a.contains(x) || b.contains(x),
{
    if a.contains(x) {
        let i = choose|i: int| 0 <= i < a.len() && a[i] == x;
        assert((a + b)[i] == x);
    }
    if b.contains(x) {
        let i = choose|i: int| 0 <= i < b.len() && b[i] == x;
        assert((a + b)[a.len() + i] == x);
    }
}

/// A wait for a sync point adds at most that sync point to what is pending: its point on the own
/// timeline if it has one, or else the semaphore as which it was imported. Nothing is added for
/// what is already reached or was waited for. What cannot be waited for on the device is imported,
/// or else blocked on; only an interrupted wait fails.
pub proof fn law_a_wait_adds_its_own_point(queue: SubmissionsModel, event: WaitEvent)
    ensures
        ({
            let after = queue.after_wait(event);
            &&& after.point == queue.point && after.in_flight == queue.in_flight && after.order
                == queue.order && after.free == queue.free
            &&& match event {
                WaitEvent::Start { reached, own_point } => {
                    &&& after.binary_waits == queue.binary_waits
                    &&& reached || own_point is None ==> after.timeline_waits == queue.timeline_waits
                    &&& !reached && own_point is Some ==> after.timeline_waits
                        == queue.timeline_waits.push(own_point->0)
                    &&& wait_action(event) is Import <==> !reached && own_point is None
                    &&& wait_action(event) is Done <==> reached || own_point is Some
                },
                WaitEvent::Imported(semaphore) => {
                    &&& after.timeline_waits == queue.timeline_waits
                    &&& semaphore is None ==> after.binary_waits == queue.binary_waits
                    &&& semaphore is Some ==> after.binary_waits == queue.binary_waits.push(
                        semaphore->0,
                    )
                    &&& wait_action(event) is Block <==> semaphore is None
                    &&& wait_action(event) is Done <==> semaphore is Some
                },
                WaitEvent::Waited { interrupted } => {
                    &&& after.timeline_waits == queue.timeline_waits
                    &&& after.binary_waits == queue.binary_waits
                    &&& wait_action(event) == WaitAction::Fail(VulkanError::SyncInterrupted)
                        <==> interrupted
                    &&& wait_action(event) is Done <==> !interrupted
                },
            }
        }),
{
}

/// Draining takes out exactly the submissions that are complete: those that are left are still
/// executing, and each submission is left or gives its command buffers back.
pub proof fn law_draining_keeps_what_executes(list: Seq<Flight>, i: int, completed: u64, f: Flight)
    requires
        0 <= i <= list.len(),
        forall|k: int| 0 <= k < i ==> (#[trigger] list[k]).point > completed,
    ensures
        ({
            let done = drained(list, i, completed);
            &&& forall|k: int| 0 <= k < done.left.len() ==> (#[trigger] done.left[k]).point > completed
            &&& done.left.contains(f) <==> list.contains(f) && f.point > completed
            &&& list.contains(f) && f.point <= completed ==> forall|k: int|
                0 <= k < f.command_buffers.len() ==> done.recycled.contains(
                    #[trigger] f.command_buffers[k],
                )
        }),
    decreases list.len() - i,
{
    if i < list.len() {
        if list[i].point <= completed {
            let shorter = list.update(i, list.last()).drop_last();
            assert forall|k: int| 0 <= k < i implies (#[trigger] shorter[k]).point > completed by {
                assert(shorter[k] == list[k]);
            }
            law_draining_keeps_what_executes(shorter, i, completed, f);
            let rest = drained(shorter, i, completed);
            let done = drained(list, i, completed);
            assert(shorter.contains(f) || f == list[i] <==> list.contains(f)) by {
                if shorter.contains(f) {
                    let k = choose|k: int| 0 <= k < shorter.len() && shorter[k] == f;
                    if k == i {
                        assert(list[list.len() - 1] == f);
                    } else {
                        assert(list[k] == f);
                    }
                }
                if list.contains(f) {
                    let k = choose|k: int| 0 <= k < list.len() && list[k] == f;
                    if k == list.len() - 1 && k != i {
                        assert(shorter[i] == f);
                    } else if k != i {
                        assert(shorter[k] == f);
                    }
                }
            }
            assert forall|b: u64| list[i].command_buffers.contains(b) || rest.recycled.contains(
                b,
            ) implies #[trigger] done.recycled.contains(b) by {
                lemma_in_either(list[i].command_buffers, rest.recycled, b);
            }
            if list.contains(f) && f.point <= completed {
                assert forall|k: int| 0 <= k < f.command_buffers.len() implies done.recycled.contains(
                    #[trigger] f.command_buffers[k],
                ) by {
                    if f == list[i] {
                        assert(list[i].command_buffers.contains(f.command_buffers[k]));
                    }
                }
            }
        } else {
            law_draining_keeps_what_executes(list, i + 1, completed, f);
        }
    }
}

/// Every semaphore that is no longer needed is destroyed, each as itself.
pub proof fn law_semaphores_are_destroyed_as_themselves(semaphores: Seq<u64>, i: int)
    requires
        0 <= i < semaphores.len(),
    ensures
        semaphore_items(semaphores).len() == semaphores.len(),
        semaphore_items(semaphores)[i] == CleanupItem::Semaphore(semaphores[i]),
{
}

} // verus!
