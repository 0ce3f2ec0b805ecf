//! Rendering on several devices: one renderer for each node that was added.
//!
//! Nodes are told apart by their device numbers.

use vstd::prelude::*;

use crate::backend::renderer::vulkan::error::{SwapFailure, VulkanError};
use crate::table::Table;

verus! {

/// Buffers that can be rendered into.
pub const RENDERING: u32 = 0x4;

/// The type of devices that are implemented in software.
pub const DEVICE_TYPE_CPU: i32 = 4;

/// Errors raised by the [`VulkanBackend`].
#[derive(Debug, PartialEq, Eq)]
pub enum Error {
    /// The instance could not be created.
    Instance(String),
    /// A Vulkan API call returned an error.
    Vk(i32),
    /// An error of a renderer.
    Renderer(VulkanError),
}

impl Error {
    /// What the error means: without an instance nothing works, an error of a renderer is what
    /// it is there.
    pub fn swap_failure(&self) -> (failure: SwapFailure)
        ensures
            failure == match self {
                Error::Renderer(error) if !error.is_fatal() => SwapFailure::TemporaryFailure,
                _ => SwapFailure::ContextLost,
            },
    {
        match self {
            Error::Instance(_) | Error::Vk(_) => SwapFailure::ContextLost,
            Error::Renderer(error) => error.swap_failure(),
        }
    }
}

/// A device that allocates buffers, and for what they are allocated.
#[derive(Debug)]
pub struct GbmAllocator<A> {
    pub gbm: A,
    pub flags: u32,
}

/// The nodes to render on.
#[derive(Debug)]
pub struct VulkanBackend<A> {
    devices: Table<GbmAllocator<A>>,
    allocator_flags: u32,
    needs_enumeration: bool,
}

/// The nodes of a physical device, as far as it has them.
#[derive(Debug, Clone, Copy, PartialEq, Eq, Structural)]
pub struct DeviceNodes {
    pub render: Option<u64>,
    pub primary: Option<u64>,
}

impl DeviceNodes {
    /// Whether the device drives a node.
    pub open spec fn drives(self, node: u64) -> bool {
        self.render == Some(node) || self.primary == Some(node)
    }
}

/// Returns whether a physical device drives the given node.
pub fn phd_matches_node(phd: &DeviceNodes, node: u64) -> (matches: bool)
    ensures
        matches == phd.drives(node),
{
    let render = match phd.render {
        Some(id) => id == node,
        None => false,
    };
    let primary = match phd.primary {
        Some(id) => id == node,
        None => false,
    };
    render || primary
}

/// Finds the first physical device that drives a node.
pub fn find_device(phds: &Vec<DeviceNodes>, node: u64) -> (place: Option<usize>)
    ensures
        match place {
            Some(i) => {
                &&& i < phds@.len()
                &&& phds@[i as int].drives(node)
                &&& forall|k: int| 0 <= k < i ==> !(#[trigger] phds@[k]).drives(node)
            },
            None => forall|k: int| 0 <= k < phds@.len() ==> !(#[trigger] phds@[k]).drives(node),
        },
{
    let mut i: usize = 0;
    while i < phds.len()
        invariant
            i <= phds@.len(),
            forall|k: int| 0 <= k < i ==> !(#[trigger] phds@[k]).drives(node),
        decreases phds@.len() - i,
    {
        if phd_matches_node(&phds[i], node) {
            return Some(i);
        }
        i = i + 1;
    }
    None
}

/// Whether a device of this type is implemented in software.
pub fn is_software(device_type: i32) -> (software: bool)
    ensures
        software <==> device_type == DEVICE_TYPE_CPU,
{
    device_type == DEVICE_TYPE_CPU
}

/// A device of the [`VulkanBackend`]: a node, and the renderer for it.
#[derive(Debug)]
pub struct VulkanDevice<R> {
    pub node: u64,
    pub software: bool,
    pub renderer: R,
}

impl<R> VulkanDevice<R> {
    /// The renderer of the device.
    pub fn renderer(&self) -> (renderer: &R)
        ensures
            *renderer == self.renderer,
    {
        &self.renderer
    }

    /// The node of the device.
    pub fn node(&self) -> (node: u64)
        ensures
            node == self.node,
    {
        self.node
    }

    /// Whether buffers of other devices can be imported. Software cannot.
    pub fn can_do_cross_device_imports(&self) -> (can: bool)
        ensures
            can <==> !self.software,
    {
        !self.software
    }
}

/// The nodes of some devices.
pub open spec fn listed_nodes<R>(list: Seq<VulkanDevice<R>>) -> Seq<u64> {
    list.map_values(|d: VulkanDevice<R>| d.node)
}

/// The devices whose nodes are known.
pub open spec fn known_devices<R>(list: Seq<VulkanDevice<R>>, nodes: Set<u64>) -> Seq<
    VulkanDevice<R>,
>
    decreases list.len(),
{
    if list.len() == 0 {
        Seq::empty()
    } else {
        let before = known_devices(list.drop_last(), nodes);
        if nodes.contains(list.last().node) {
            before.push(list.last())
        } else {
            before
        }
    }
}

proof fn lemma_unknown_device<R>(list: Seq<VulkanDevice<R>>, nodes: Set<u64>, i: int)
    requires
        0 <= i < list.len(),
        !nodes.contains(list[i].node),
    ensures
        known_devices(list, nodes) == known_devices(list.remove(i), nodes),
    decreases list.len(),
{
    if i == list.len() - 1 {
        assert(list.remove(i) =~= list.drop_last());
    } else {
        lemma_unknown_device(list.drop_last(), nodes, i);
        assert(list.drop_last().remove(i) =~= list.remove(i).drop_last());
        assert(list.remove(i).last() == list.last());
    }
}

fn is_listed<R>(list: &Vec<VulkanDevice<R>>, node: u64) -> (listed: bool)
    ensures
        listed == listed_nodes(list@).contains(node),
{
    let mut i: usize = 0;
    while i < list.len()
        invariant
            i <= list@.len(),
            forall|k: int| 0 <= k < i ==> (#[trigger] list@[k]).node != node,
        decreases list@.len() - i,
    {
        if list[i].node == node {
            assert(listed_nodes(list@)[i as int] == node);
            return true;
        }
        i = i + 1;
    }
    proof {
        if listed_nodes(list@).contains(node) {
            let k = listed_nodes(list@).index_of(node);
            assert(list@[k].node == node);
        }
    }
    false
}

impl<A> VulkanBackend<A> {
    /// The nodes that were added, with their allocators.
    pub closed spec fn nodes(&self) -> Map<u64, GbmAllocator<A>> {
        self.devices@
    }

    /// The nodes in the order in which they were added.
    pub closed spec fn node_order(&self) -> Seq<u64> {
        self.devices.order()
    }

    /// For what buffers are allocated on nodes that are added from now on.
    pub closed spec fn flags(&self) -> u32 {
        self.allocator_flags
    }

    /// Whether nodes were added or removed since the devices were last enumerated.
    pub closed spec fn is_outdated(&self) -> bool {
        self.needs_enumeration
    }

    pub closed spec fn wf(&self) -> bool {
        self.devices.wf()
    }

    /// The name of this way to render.
    pub fn identifier() -> (name: &'static str)
        ensures
            name@ == "gbm_vulkan"@,
    {
        "gbm_vulkan"
    }

    /// Sets for what buffers are allocated on the nodes of this backend.
    ///
    /// Only affects nodes that are added after calling this method.
    pub fn set_allocator_flags(&mut self, flags: u32)
        requires
            old(self).wf(),
        ensures
            final(self).wf(),
            final(self).flags() == flags,
            final(self).nodes() == old(self).nodes(),
            final(self).node_order() == old(self).node_order(),
            final(self).is_outdated() == old(self).is_outdated(),
    {
        self.allocator_flags = flags;
    }

    /// Adds a node with the device that allocates its buffers. A node that was added before
    /// stays as it is.
    pub fn add_node(&mut self, node: u64, gbm: A)
        requires
            old(self).wf(),
        ensures
            final(self).wf(),
            final(self).flags() == old(self).flags(),
            if old(self).nodes().contains_key(node) {
                &&& final(self).nodes() == old(self).nodes()
                &&& final(self).node_order() == old(self).node_order()
                &&& final(self).is_outdated() == old(self).is_outdated()
            } else {
                &&& final(self).nodes() == old(self).nodes().insert(
                    node,
                    GbmAllocator { gbm, flags: old(self).flags() },
                )
                &&& final(self).node_order() == old(self).node_order().push(node)
                &&& final(self).is_outdated()
            },
    {
        if self.devices.position(node).is_some() {
            return;
        }
        self.devices.insert(node, GbmAllocator { gbm, flags: self.allocator_flags });
        self.needs_enumeration = true;
    }

    /// Removes a node.
    pub fn remove_node(&mut self, node: u64)
        requires
            old(self).wf(),
        ensures
            final(self).wf(),
            final(self).flags() == old(self).flags(),
            final(self).nodes() == old(self).nodes().remove(node),
            final(self).node_order() == old(self).node_order().filter(|n: u64| n != node),
            final(self).is_outdated() == (old(self).is_outdated() || old(
                self,
            ).nodes().contains_key(node)),
    {
        if self.devices.position(node).is_some() {
            self.needs_enumeration = true;
        }
        self.devices.remove(node);
    }

    /// Whether the devices have to be enumerated anew.
    pub fn needs_enumeration(&self) -> (needs: bool)
        ensures
            needs == self.is_outdated(),
    {
        self.needs_enumeration
    }

    /// Starts to enumerate the devices: those whose nodes were removed are dropped. The others
    /// stay, so that their renderers are not replaced.
    pub fn start_enumeration<R>(&mut self, list: &mut Vec<VulkanDevice<R>>)
        requires
            old(self).wf(),
        ensures
            final(self).wf(),
            final(self).flags() == old(self).flags(),
            final(self).nodes() == old(self).nodes(),
            final(self).node_order() == old(self).node_order(),
            !final(self).is_outdated(),
            final(list)@ == known_devices(old(list)@, old(self).nodes().dom()),
    {
        self.needs_enumeration = false;
        let ghost nodes = self.devices@.dom();
        let ghost before = list@;
        let mut i: usize = 0;
        assert(before.take(0) =~= Seq::<VulkanDevice<R>>::empty());
        while i < list.len()
            invariant
                self.wf(),
                nodes == self.devices@.dom(),
                i <= list@.len(),
                known_devices(list@, nodes) == known_devices(before, nodes),
                known_devices(list@.take(i as int), nodes) == list@.take(i as int),
            decreases list@.len() - i,
        {
            let ghost current = list@;
            assert(current.take(i + 1) =~= current.take(i as int).push(current[i as int]));
            assert(current.take(i + 1).drop_last() =~= current.take(i as int));
            if self.devices.position(list[i].node).is_some() {
                i = i + 1;
            } else {
                proof {
                    lemma_unknown_device(current, nodes, i as int);
                }
                list.remove(i);
                assert(list@.take(i as int) =~= current.take(i as int));
            }
        }
        assert(list@.take(i as int) =~= list@);
    }

    /// The nodes for which no device is listed yet.
    pub fn new_nodes<R>(&self, list: &Vec<VulkanDevice<R>>) -> (nodes: Vec<u64>)
        requires
            self.wf(),
        ensures
            nodes@ == self.node_order().filter(|n: u64| !listed_nodes(list@).contains(n)),
    {
        let ghost order = self.devices.order();
        let ghost fresh = |n: u64| !listed_nodes(list@).contains(n);
        let mut nodes: Vec<u64> = Vec::new();
        let mut i: usize = 0;
        proof {
            reveal(Seq::filter);
        }
        assert(order.take(0) =~= Seq::<u64>::empty());
        while i < self.devices.len()
            invariant
                self.wf(),
                order == self.devices.order(),
                fresh == (|n: u64| !listed_nodes(list@).contains(n)),
                i <= order.len(),
                nodes@ == order.take(i as int).filter(fresh),
            decreases order.len() - i,
        {
            let (node, _) = self.devices.entry(i);
            proof {
                reveal(Seq::filter);
                assert(order.take(i + 1).drop_last() =~= order.take(i as int));
                assert(order.take(i + 1).last() == node);
            }
            if !is_listed(list, node) {
                nodes.push(node);
            }
            i = i + 1;
        }
        assert(order.take(i as int) =~= order);
        nodes
    }

    /// The allocator of a node.
    pub fn allocator(&self, node: u64) -> (allocator: Option<&GbmAllocator<A>>)
        requires
            self.wf(),
        ensures
            match allocator {
                Some(allocator) => self.nodes().contains_key(node) && *allocator
                    == self.nodes()[node],
                None => !self.nodes().contains_key(node),
            },
    {
        match self.devices.position(node) {
            Some(i) => Some(self.devices.entry(i).1),
            None => None,
        }
    }
}

impl<A> Default for VulkanBackend<A> {
    /// No nodes; buffers are allocated for rendering.
    fn default() -> (backend: Self)
        ensures
            backend.wf(),
            backend.nodes() == Map::<u64, GbmAllocator<A>>::empty(),
            backend.node_order() == Seq::<u64>::empty(),
            backend.flags() == RENDERING,
            backend.is_outdated(),
    {
        VulkanBackend { devices: Table::new(), allocator_flags: RENDERING, needs_enumeration: true }
    }
}

proof fn lemma_known_devices<R>(list: Seq<VulkanDevice<R>>, nodes: Set<u64>)
    requires
        listed_nodes(list).no_duplicates(),
    ensures
        listed_nodes(known_devices(list, nodes)).no_duplicates(),
        forall|n: u64| #[trigger]
            listed_nodes(known_devices(list, nodes)).contains(n) <==> listed_nodes(list).contains(n)
                && nodes.contains(n),
    decreases list.len(),
{
    if list.len() > 0 {
        let rest = list.drop_last();
        let last = list.last();
        assert(listed_nodes(list) =~= listed_nodes(rest).push(last.node));
        assert(listed_nodes(rest).no_duplicates()) by {
            assert forall|i: int, j: int| 0 <= i < j < rest.len() implies listed_nodes(rest)[i]
                != listed_nodes(rest)[j] by {
                assert(listed_nodes(list)[i] != listed_nodes(list)[j]);
            }
        }
        lemma_known_devices(rest, nodes);
        let before = known_devices(rest, nodes);
        assert(listed_nodes(before.push(last)) =~= listed_nodes(before).push(last.node));
        assert(!listed_nodes(rest).contains(last.node)) by {
            if listed_nodes(rest).contains(last.node) {
                let k = listed_nodes(rest).index_of(last.node);
                assert(listed_nodes(list)[k] == listed_nodes(list)[list.len() - 1]);
            }
        }
        assert(!listed_nodes(before).contains(last.node));
        assert(listed_nodes(before).push(last.node).no_duplicates()) by {
            let names = listed_nodes(before);
            assert forall|i: int, j: int| 0 <= i < j < names.push(last.node).len() implies names.push(
                last.node,
            )[i] != names.push(last.node)[j] by {
                if j == names.len() {
                    assert(names.contains(names[i]));
                }
            }
        }
        assert forall|n: u64| #[trigger]
            listed_nodes(known_devices(list, nodes)).contains(n) <==> listed_nodes(list).contains(n)
                && nodes.contains(n) by {
            lemma_push_contains(listed_nodes(rest), last.node, n);
            lemma_push_contains(listed_nodes(before), last.node, n);
        }
    } else {
        assert(listed_nodes(known_devices(list, nodes)) =~= Seq::<u64>::empty());
        assert(listed_nodes(list) =~= Seq::<u64>::empty());
    }
}

proof fn lemma_push_contains(list: Seq<u64>, item: u64, n: u64)
    ensures
        list.push(item).contains(n) <==> list.contains(n) || n == item,
{
    if list.contains(n) {
        let k = list.index_of(n);
        assert(list.push(item)[k] == n);
    }
    if n == item {
        assert(list.push(item)[list.len() as int] == n);
    }
}

/// Enumerating gives every node at most one device, and only nodes that were added: with the
/// devices that are kept, and one more for each of some new nodes, no node is listed twice.
pub proof fn law_one_device_per_node<R>(
    list: Seq<VulkanDevice<R>>,
    nodes: Set<u64>,
    added: Seq<VulkanDevice<R>>,
)
    requires
        listed_nodes(list).no_duplicates(),
        listed_nodes(added).no_duplicates(),
        forall|i: int|
            0 <= i < added.len() ==> nodes.contains((#[trigger] added[i]).node) && !listed_nodes(
                known_devices(list, nodes),
            ).contains(added[i].node),
    ensures
        listed_nodes(known_devices(list, nodes) + added).no_duplicates(),
        forall|i: int|
            0 <= i < (known_devices(list, nodes) + added).len() ==> nodes.contains(
                (#[trigger] (known_devices(list, nodes) + added)[i]).node,
            ),
{
    let kept = known_devices(list, nodes);
    let all = kept + added;
    lemma_known_devices(list, nodes);
    assert forall|i: int, j: int| 0 <= i < j < all.len() implies listed_nodes(all)[i]
        != listed_nodes(all)[j] by {
        if j < kept.len() {
            assert(listed_nodes(kept)[i] != listed_nodes(kept)[j]);
        } else if i >= kept.len() {
            assert(listed_nodes(added)[i - kept.len()] != listed_nodes(added)[j - kept.len()]);
        } else {
            assert(all[j] == added[j - kept.len()]);
            assert(listed_nodes(kept)[i] == all[i].node);
            assert(listed_nodes(kept).contains(all[i].node));
        }
    }
    assert forall|i: int| 0 <= i < all.len() implies nodes.contains((#[trigger] all[i]).node) by {
        if i < kept.len() {
            assert(listed_nodes(kept)[i] == all[i].node);
            assert(listed_nodes(kept).contains(all[i].node));
        } else {
            assert(all[i] == added[i - kept.len()]);
        }
    }
}

/// The devices of nodes that are gone are dropped, and all others stay, in their order.
pub proof fn law_devices_stay_in_order<R>(
    a: Seq<VulkanDevice<R>>,
    b: Seq<VulkanDevice<R>>,
    device: VulkanDevice<R>,
    nodes: Set<u64>,
)
    ensures
        known_devices(a + b, nodes) == known_devices(a, nodes) + known_devices(b, nodes),
        nodes.contains(device.node) ==> known_devices(seq![device], nodes) == seq![device],
        !nodes.contains(device.node) ==> known_devices(seq![device], nodes).len() == 0,
    decreases b.len(),
{
    let one = seq![device];
    assert(one.drop_last() =~= Seq::<VulkanDevice<R>>::empty());
    assert(known_devices(one.drop_last(), nodes) =~= Seq::<VulkanDevice<R>>::empty());
    assert(one.last() == device);
    if nodes.contains(device.node) {
        assert(known_devices(one, nodes) =~= seq![device]);
    }
    if b.len() == 0 {
        assert(a + b =~= a);
        assert(known_devices(a, nodes) + known_devices(b, nodes) =~= known_devices(a, nodes));
    } else {
        law_devices_stay_in_order(a, b.drop_last(), device, nodes);
        assert((a + b).drop_last() =~= a + b.drop_last());
        assert((a + b).last() == b.last());
        assert(known_devices(a + b, nodes) =~= known_devices(a, nodes) + known_devices(b, nodes));
    }
}

/// A device drives its render node and its primary node, and no other.
pub proof fn law_nodes_of_a_device(nodes: DeviceNodes, node: u64)
    ensures
        nodes.render == Some(node) ==> nodes.drives(node),
        nodes.primary == Some(node) ==> nodes.drives(node),
        nodes.drives(node) ==> nodes.render == Some(node) || nodes.primary == Some(node),
{
}

/// A node that is added has an allocator with the flags of that time, and devices are looked for
/// anew; a node that is known stays as it is. A node that is removed is gone, and only that one.
pub proof fn law_nodes<A>(
    more: &mut VulkanBackend<A>,
    node: u64,
    gbm: A,
    fewer: &mut VulkanBackend<A>,
    other: u64,
)
    requires
        call_ensures(VulkanBackend::<A>::add_node, (more, node, gbm), ()),
        call_ensures(VulkanBackend::<A>::remove_node, (fewer, node), ()),
    ensures
        final(more).nodes().contains_key(node),
        !old(more).nodes().contains_key(node) ==> final(more).nodes()[node].gbm == gbm && final(
            more
        ).nodes()[node].flags == old(more).flags() && final(more).is_outdated(),
        old(more).nodes().contains_key(node) ==> final(more).nodes() == old(more).nodes(),
        other != node ==> (final(more).nodes().contains_key(other) <==> old(more).nodes().contains_key(
            other,
        )),
        !final(fewer).nodes().contains_key(node),
        other != node ==> (final(fewer).nodes().contains_key(other) <==> old(
            fewer
        ).nodes().contains_key(other)),
        old(fewer).nodes().contains_key(node) ==> final(fewer).is_outdated(),
{
}

/// When devices are looked for, exactly those of known nodes stay, and exactly the nodes without a
/// device are new.
pub proof fn law_enumeration<A, R>(
    backend: &mut VulkanBackend<A>,
    list: &mut Vec<VulkanDevice<R>>,
    asked: &VulkanBackend<A>,
    listed: &Vec<VulkanDevice<R>>,
    nodes: Vec<u64>,
    node: u64,
    i: int,
)
    requires
        call_ensures(VulkanBackend::<A>::start_enumeration::<R>, (backend, list), ()),
        call_ensures(VulkanBackend::<A>::new_nodes::<R>, (asked, listed), nodes),
    ensures
        !final(backend).is_outdated(),
        0 <= i < final(list)@.len() ==> old(backend).nodes().contains_key(final(list)@[i].node)
            && old(list)@.contains(final(list)@[i]),
        0 <= i < old(list)@.len() && old(backend).nodes().contains_key(old(list)@[i].node)
            ==> final(list)@.contains(old(list)@[i]),
        nodes@.contains(node) <==> asked.node_order().contains(node) && forall|k: int|
            0 <= k < listed@.len() ==> (#[trigger] listed@[k]).node != node,
{
    lemma_known_device_at(old(list)@, old(backend).nodes().dom(), i);
    let fresh = |n: u64| !listed_nodes(listed@).contains(n);
    let order = asked.node_order();
    assert(nodes@ == order.filter(fresh));
    let unlisted = forall|k: int| 0 <= k < listed@.len() ==> (#[trigger] listed@[k]).node != node;
    assert(unlisted <==> !listed_nodes(listed@).contains(node)) by {
        let all = listed_nodes(listed@);
        if all.contains(node) {
            let k = choose|k: int| 0 <= k < all.len() && all[k] == node;
            assert(listed@[k].node == node);
        }
        if !unlisted {
            let k = choose|k: int| 0 <= k < listed@.len() && (#[trigger] listed@[k]).node == node;
            assert(all[k] == node);
        }
    }
    if nodes@.contains(node) {
        let k = choose|k: int| 0 <= k < nodes@.len() && nodes@[k] == node;
        order.lemma_filter_pred(fresh, k);
        order.lemma_filter_contains_rev(fresh, node);
    }
    if order.contains(node) && unlisted {
        let k = choose|k: int| 0 <= k < order.len() && order[k] == node;
        order.lemma_filter_contains(fresh, k);
    }
}

proof fn lemma_known_device_at<R>(list: Seq<VulkanDevice<R>>, nodes: Set<u64>, i: int)
    ensures
        0 <= i < known_devices(list, nodes).len() ==> nodes.contains(known_devices(list, nodes)[i].node)
            && list.contains(known_devices(list, nodes)[i]),
        0 <= i < list.len() && nodes.contains(list[i].node) ==> known_devices(list, nodes).contains(
            list[i],
        ),
    decreases list.len(),
{
    if list.len() > 0 {
        let rest = list.drop_last();
        let n = list.len() - 1;
        lemma_known_device_at(rest, nodes, i);
        let before = known_devices(rest, nodes);
        let after = known_devices(list, nodes);
        assert(list.last() == list[n]);
        if 0 <= i < before.len() {
            let k = choose|k: int| 0 <= k < rest.len() && rest[k] == before[i];
            assert(list[k] == before[i]);
        }
        if 0 <= i < n && nodes.contains(list[i].node) {
            assert(rest[i] == list[i]);
            let k = choose|k: int| 0 <= k < before.len() && before[k] == list[i];
            assert(after[k] == list[i]);
        }
        if i == n && nodes.contains(list[n].node) {
            assert(after[before.len() as int] == list[n]);
        }
    }
}

/// A device that is found drives the node, and none before it does. Only the processor counts as
/// software, and only a device that is not software takes part in imports from others.
pub proof fn law_devices<R>(
    phds: &Vec<DeviceNodes>,
    node: u64,
    place: Option<usize>,
    device_type: i32,
    software: bool,
    device: &VulkanDevice<R>,
    can: bool,
    i: int,
)
    requires
        call_ensures(find_device, (phds, node), place),
        call_ensures(is_software, (device_type,), software),
        call_ensures(VulkanDevice::<R>::can_do_cross_device_imports, (device,), can),
        0 <= i < phds@.len(),
    ensures
        place matches Some(p) ==> p < phds@.len() && (phds@[p as int].render == Some(node)
            || phds@[p as int].primary == Some(node)),
        place matches Some(p) ==> (phds@[i].render == Some(node) || phds@[i].primary == Some(node) ==> p
            <= i),
        software <==> device_type == 4,
        can <==> !device.software,
{
    if let Some(p) = place {
        if i < p {
            assert(!phds@[i].drives(node));
        }
    }
}

} // verus!
