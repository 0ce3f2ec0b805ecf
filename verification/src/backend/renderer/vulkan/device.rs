//! Device state shared between the renderer, textures and fences.

use vstd::prelude::*;

use crate::backend::renderer::vulkan::formats::has_flags;
use crate::backend::renderer::vulkan::formats;

verus! {

/// Resources whose destruction is deferred until a timeline point completes.
#[derive(Debug, Clone, Copy, PartialEq, Eq, Structural)]
pub enum CleanupItem {
    Image(u64),
    ImageView(u64),
    Memory(u64),
    Buffer(u64),
    Semaphore(u64),
    /// A pool, and a descriptor set from it.
    DescriptorSet(u64, u64),
    ShaderModule(u64),
}

/// A resource, and the point at which it is no longer used.
#[derive(Debug, Clone, Copy, PartialEq, Eq, Structural)]
pub struct Deferred {
    pub point: u64,
    pub item: CleanupItem,
}

/// The resources that wait for their destruction.
#[derive(Debug)]
pub struct CleanupQueue {
    waiting: Vec<Deferred>,
}

/// The given items, all of which wait for `point`.
pub open spec fn deferred(point: u64, items: Seq<CleanupItem>) -> Seq<Deferred> {
    items.map_values(|item: CleanupItem| Deferred { point, item })
}

/// The items that can be destroyed once `up_to` is reached, in order.
pub open spec fn due(waiting: Seq<Deferred>, up_to: u64) -> Seq<CleanupItem> {
    waiting.filter(|d: Deferred| d.point <= up_to).map_values(|d: Deferred| d.item)
}

/// The items that have to wait on.
pub open spec fn not_due(waiting: Seq<Deferred>, up_to: u64) -> Seq<Deferred> {
    waiting.filter(|d: Deferred| d.point > up_to)
}

impl CleanupQueue {
    pub closed spec fn view(&self) -> Seq<Deferred> {
        self.waiting@
    }

    /// An empty queue.
    pub fn new() -> (queue: Self)
        ensures
            queue@ == Seq::<Deferred>::empty(),
    {
        CleanupQueue { waiting: Vec::new() }
    }

    /// Queues resources for destruction once `point` is reached on the timeline.
    pub fn defer_destroy(&mut self, point: u64, items: &Vec<CleanupItem>)
        ensures
            final(self)@ == old(self)@ + deferred(point, items@),
    {
        let ghost before = self@;
        let mut i: usize = 0;
        assert(self@ =~= before + deferred(point, items@).take(0));
        while i < items.len()
            invariant
                i <= items@.len(),
                self@ == before + deferred(point, items@).take(i as int),
            decreases items@.len() - i,
        {
            self.waiting.push(Deferred { point, item: items[i] });
            assert(self@ =~= before + deferred(point, items@).take(i + 1));
            i = i + 1;
        }
        assert(deferred(point, items@).take(i as int) =~= deferred(point, items@));
    }

    /// Removes and returns all queued resources whose timeline point completed; they are to be
    /// destroyed in this order.
    pub fn process_cleanup(&mut self, up_to: u64) -> (items: Vec<CleanupItem>)
        ensures
            items@ == due(old(self)@, up_to),
            final(self)@ == not_due(old(self)@, up_to),
    {
        let ghost before = self@;
        let ghost is_due = |d: Deferred| d.point <= up_to;
        let ghost waits = |d: Deferred| d.point > up_to;
        let ghost pick = |d: Deferred| d.item;
        let mut items: Vec<CleanupItem> = Vec::new();
        let mut kept: Vec<Deferred> = Vec::new();
        let mut i: usize = 0;
        proof {
            reveal(Seq::filter);
            assert(before.take(0) =~= Seq::<Deferred>::empty());
            assert(items@ =~= before.take(0).filter(is_due).map_values(pick));
        }
        while i < self.waiting.len()
            invariant
                self@ == before,
                i <= self.waiting@.len(),
                is_due == (|d: Deferred| d.point <= up_to),
                waits == (|d: Deferred| d.point > up_to),
                pick == (|d: Deferred| d.item),
                items@ == before.take(i as int).filter(is_due).map_values(pick),
                kept@ == before.take(i as int).filter(waits),
            decreases self.waiting@.len() - i,
        {
            let entry = self.waiting[i];
            let ghost done = before.take(i as int).filter(is_due);
            let ghost next = before.take(i + 1).filter(is_due);
            proof {
                reveal(Seq::filter);
                assert(before.take(i + 1).drop_last() =~= before.take(i as int));
            }
            if entry.point <= up_to {
                items.push(entry.item);
                assert(next == done.push(entry));
                assert(items@ =~= next.map_values(pick));
            } else {
                kept.push(entry);
            }
            i = i + 1;
        }
        assert(before.take(i as int) =~= before);
        self.waiting = kept;
        items
    }
}

/// Nothing is destroyed before its point is reached, and what stays behind waits for a later
/// one.
pub proof fn law_nothing_is_destroyed_early(waiting: Seq<Deferred>, up_to: u64)
    ensures
        forall|item: CleanupItem| #[trigger]
            due(waiting, up_to).contains(item) ==> exists|i: int|
                0 <= i < waiting.len() && (#[trigger] waiting[i]).item == item && waiting[i].point
                    <= up_to,
        forall|d: Deferred| #[trigger] not_due(waiting, up_to).contains(d) ==> d.point > up_to,
{
    let is_due = |d: Deferred| d.point <= up_to;
    let waits = |d: Deferred| d.point > up_to;
    assert forall|item: CleanupItem| #[trigger] due(waiting, up_to).contains(item) implies exists|
        i: int,
    |
        0 <= i < waiting.len() && (#[trigger] waiting[i]).item == item && waiting[i].point <= up_to by {
        let k = choose|k: int| 0 <= k < due(waiting, up_to).len() && due(waiting, up_to)[k] == item;
        let d = waiting.filter(is_due)[k];
        waiting.lemma_filter_contains_rev(is_due, d);
        lemma_filtered_is_due(waiting, is_due, k);
        let i = choose|i: int| 0 <= i < waiting.len() && waiting[i] == d;
        assert(waiting[i].item == item);
    }
    assert forall|d: Deferred| #[trigger] not_due(waiting, up_to).contains(d) implies d.point
        > up_to by {
        let k = choose|k: int|
            0 <= k < not_due(waiting, up_to).len() && not_due(waiting, up_to)[k] == d;
        lemma_filtered_is_due(waiting, waits, k);
    }
}

/// What is picked from a list satisfies the condition, and was in the list.
proof fn lemma_filtered_is_due(waiting: Seq<Deferred>, pred: spec_fn(Deferred) -> bool, k: int)
    requires
        0 <= k < waiting.filter(pred).len(),
    ensures
        pred(waiting.filter(pred)[k]),
        waiting.contains(waiting.filter(pred)[k]),
    decreases waiting.len(),
{
    reveal(Seq::filter);
    if waiting.len() > 0 {
        let fewer = waiting.drop_last();
        if k < fewer.filter(pred).len() {
            lemma_filtered_is_due(fewer, pred, k);
            let d = fewer.filter(pred)[k];
            let i = choose|i: int| 0 <= i < fewer.len() && fewer[i] == d;
            assert(waiting[i] == d);
        } else {
            assert(waiting[waiting.len() - 1] == waiting.last());
        }
    }
}

/// Every resource is destroyed or waits on, and at the very end all are destroyed.
pub proof fn law_everything_is_destroyed_once(waiting: Seq<Deferred>, up_to: u64)
    ensures
        due(waiting, up_to).len() + not_due(waiting, up_to).len() == waiting.len(),
        due(waiting, u64::MAX) == waiting.map_values(|d: Deferred| d.item),
        not_due(waiting, u64::MAX) == Seq::<Deferred>::empty(),
    decreases waiting.len(),
{
    reveal(Seq::filter);
    if waiting.len() > 0 {
        law_everything_is_destroyed_once(waiting.drop_last(), up_to);
        let all = |d: Deferred| d.point <= u64::MAX;
        let pick = |d: Deferred| d.item;
        assert(waiting.filter(all) == waiting.drop_last().filter(all).push(waiting.last()));
        assert(due(waiting, u64::MAX) =~= waiting.drop_last().map_values(pick).push(
            waiting.last().item,
        ));
        assert(waiting.map_values(pick) =~= waiting.drop_last().map_values(pick).push(
            waiting.last().item,
        ));
    } else {
        assert(due(waiting, u64::MAX) =~= waiting.map_values(|d: Deferred| d.item));
    }
}

/// The point up to which all submissions completed: the value of the timeline semaphore, or the
/// end of time if it cannot be read any more.
pub fn completed_point(counter: Option<u64>) -> (point: u64)
    ensures
        point == match counter {
            Some(value) => value,
            None => u64::MAX,
        },
{
    match counter {
        Some(value) => value,
        None => u64::MAX,
    }
}

/// Memory that is local to the device.
pub const MEMORY_DEVICE_LOCAL: u32 = 0x1;

/// Memory that the host can map and sees without flushing.
pub const MEMORY_HOST_VISIBLE_COHERENT: u32 = 0x6;

/// The memory types of a device, by their property flags. There are at most 32.
#[derive(Debug)]
pub struct MemoryTypes {
    pub flags: Vec<u32>,
}

/// Whether a memory type is among `type_bits` and has the wanted properties.
pub open spec fn is_suitable(flags: Seq<u32>, i: int, type_bits: u32, props: u32) -> bool {
    &&& type_bits & (1u32 << (i as u32)) != 0
    &&& formats::contains_flags(flags[i], props)
}

/// Whether a memory type is the first suitable one.
pub open spec fn is_first_suitable(flags: Seq<u32>, i: int, type_bits: u32, props: u32) -> bool {
    &&& 0 <= i < flags.len()
    &&& is_suitable(flags, i, type_bits, props)
    &&& forall|k: int| 0 <= k < i ==> !#[trigger] is_suitable(flags, k, type_bits, props)
}

impl MemoryTypes {
    /// Finds the first memory type in `type_bits` with the given property flags.
    pub fn find_memory_type(&self, type_bits: u32, props: u32) -> (index: Option<u32>)
        requires
            self.flags@.len() <= 32,
        ensures
            match index {
                Some(i) => is_first_suitable(self.flags@, i as int, type_bits, props),
                None => forall|i: int|
                    0 <= i < self.flags@.len() ==> !#[trigger] is_suitable(
                        self.flags@,
                        i,
                        type_bits,
                        props,
                    ),
            },
    {
        let mut i: u32 = 0;
        while (i as usize) < self.flags.len()
            invariant
                i <= self.flags@.len() <= 32,
                forall|k: int|
                    0 <= k < i ==> !#[trigger] is_suitable(self.flags@, k, type_bits, props),
            decreases self.flags@.len() - i,
        {
            if type_bits & (1u32 << i) != 0 && has_flags(self.flags[i as usize], props) {
                return Some(i);
            }
            i = i + 1;
        }
        None
    }

    /// Finds the memory type for an image: device-local if possible.
    pub fn find_image_memory(&self, type_bits: u32) -> (index: Option<u32>)
        requires
            self.flags@.len() <= 32,
        ensures
            match index {
                Some(i) => is_first_suitable(
                    self.flags@,
                    i as int,
                    type_bits,
                    MEMORY_DEVICE_LOCAL,
                ) || (is_first_suitable(self.flags@, i as int, type_bits, 0) && forall|k: int|
                    0 <= k < self.flags@.len() ==> !#[trigger] is_suitable(
                        self.flags@,
                        k,
                        type_bits,
                        MEMORY_DEVICE_LOCAL,
                    )),
                None => forall|k: int|
                    0 <= k < self.flags@.len() ==> !#[trigger] is_suitable(
                        self.flags@,
                        k,
                        type_bits,
                        0,
                    ),
            },
    {
        match self.find_memory_type(type_bits, MEMORY_DEVICE_LOCAL) {
            Some(index) => Some(index),
            None => self.find_memory_type(type_bits, 0),
        }
    }
}

/// What is deferred keeps its order and its point. What is due is taken out in that order, and
/// what is not due stays in it.
pub proof fn law_deferred_in_order(
    a: Seq<Deferred>,
    b: Seq<Deferred>,
    d: Deferred,
    point: u64,
    items: Seq<CleanupItem>,
    up_to: u64,
)
    ensures
        deferred(point, items).len() == items.len(),
        forall|i: int|
            0 <= i < items.len() ==> (#[trigger] deferred(point, items)[i]).point == point && deferred(
                point,
                items,
            )[i].item == items[i],
        due(a + b, up_to) == due(a, up_to) + due(b, up_to),
        not_due(a + b, up_to) == not_due(a, up_to) + not_due(b, up_to),
        d.point <= up_to ==> due(seq![d], up_to) == seq![d.item] && not_due(seq![d], up_to).len() == 0,
        d.point > up_to ==> due(seq![d], up_to).len() == 0 && not_due(seq![d], up_to) == seq![d],
{
    reveal(Seq::filter);
    let now = |d: Deferred| d.point <= up_to;
    let later = |d: Deferred| d.point > up_to;
    let item = |d: Deferred| d.item;
    Seq::filter_distributes_over_add(a, b, now);
    Seq::filter_distributes_over_add(a, b, later);
    assert(due(a + b, up_to) =~= due(a, up_to) + due(b, up_to));
    let one = seq![d];
    let none = Seq::<Deferred>::empty();
    assert(one.drop_last() =~= none);
    assert(one.last() == d);
    assert(none.filter(now) =~= none);
    assert(none.filter(later) =~= none);
    if d.point <= up_to {
        assert(one.filter(now) =~= one);
        assert(one.map_values(item) =~= seq![d.item]);
    } else {
        assert(one.filter(later) =~= one);
    }
}

/// A memory type can be used exactly if its bit is among the ones that are allowed and it has all
/// of the properties that are asked for.
pub proof fn law_suitable_memory(flags: Seq<u32>, i: int, type_bits: u32, props: u32)
    requires
        0 <= i < flags.len() <= 32,
    ensures
        is_suitable(flags, i, type_bits, props) ==> type_bits & (1u32 << (i as u32)) != 0,
        is_suitable(flags, i, type_bits, props) ==> flags[i] & props == props,
        type_bits & (1u32 << (i as u32)) != 0 && flags[i] & props == props ==> is_suitable(
            flags,
            i,
            type_bits,
            props,
        ),
        is_suitable(flags, i, type_bits, 0) <==> type_bits & (1u32 << (i as u32)) != 0,
        is_suitable(flags, i, type_bits, props) ==> is_suitable(flags, i, type_bits, 0),
{
    let f = flags[i];
    assert(f & 0u32 == 0u32) by (bit_vector);
}

} // verus!
