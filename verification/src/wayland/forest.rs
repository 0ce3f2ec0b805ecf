//! A union-find forest of shared states.
//!
//! Every node either holds a state or has been fused into another node. Handles stay valid
//! after a fusion: they resolve to the state at the root of their tree.

use vstd::prelude::*;

verus! {

/// A node of a [`Forest`].
pub enum Node<T> {
    /// The node is a root and holds the state shared by its tree.
    State(T),
    /// The node was fused into the node with this index.
    Fused(usize),
}

/// A forest of nodes, addressed by index.
pub struct Forest<T> {
    nodes: Vec<Node<T>>,
    /// An upper bound on the number of links between a node and its root.
    distance: Ghost<Seq<nat>>,
}

/// What a [`Forest`] means: the root each handle resolves to, and the state of every root.
#[verifier::ext_equal]
pub struct ForestModel<T> {
    /// The root of every handle.
    pub root: Seq<int>,
    /// The states of the roots.
    pub state: Map<int, T>,
}

impl<T> ForestModel<T> {
    /// Whether `handle` was handed out by this forest.
    pub open spec fn has(self, handle: int) -> bool {
        0 <= handle < self.root.len()
    }

    /// The state a handle resolves to.
    pub open spec fn resolve(self, handle: int) -> T {
        self.state[self.root[handle]]
    }

    /// Whether two handles resolve to the same state.
    pub open spec fn joined(self, a: int, b: int) -> bool {
        self.root[a] == self.root[b]
    }

    /// The forest with one more tree, holding only the node of a fresh handle.
    pub open spec fn grown(self, state: T) -> ForestModel<T> {
        ForestModel {
            root: self.root.push(self.root.len() as int),
            state: self.state.insert(self.root.len() as int, state),
        }
    }

    /// The forest with another state at the root of `handle`.
    pub open spec fn stored(self, handle: int, state: T) -> ForestModel<T> {
        ForestModel { root: self.root, state: self.state.insert(self.root[handle], state) }
    }

    /// The forest in which the tree of `from` hangs below the tree of `into`.
    pub open spec fn linked(self, from: int, into: int) -> ForestModel<T> {
        ForestModel {
            root: self.root.map_values(
                |r: int|
                    if r == self.root[from] {
                        self.root[into]
                    } else {
                        r
                    },
            ),
            state: self.state.remove(self.root[from]),
        }
    }

    /// Every handle resolves to a root that is its own root, and exactly the roots hold a
    /// state.
    pub open spec fn well_formed(self) -> bool {
        &&& forall|i: int|
            0 <= i < self.root.len() ==> {
                &&& 0 <= #[trigger] self.root[i] < self.root.len()
                &&& self.root[self.root[i]] == self.root[i]
            }
        &&& forall|r: int| #[trigger]
            self.state.dom().contains(r) <==> 0 <= r < self.root.len() && self.root[r] == r
    }
}

/// The root reached from node `i`.
spec fn root_of<T>(nodes: Seq<Node<T>>, distance: Seq<nat>, i: int) -> int
    decreases distance[i],
{
    match nodes[i] {
        Node::State(_) => i,
        Node::Fused(into) => if distance[into as int] < distance[i] {
            root_of(nodes, distance, into as int)
        } else {
            i
        },
    }
}

spec fn links_ok<T>(nodes: Seq<Node<T>>, distance: Seq<nat>) -> bool {
    &&& distance.len() == nodes.len()
    &&& forall|i: int|
        0 <= i < nodes.len() ==> (#[trigger] nodes[i] matches Node::Fused(into) ==> into
            < nodes.len() && distance[into as int] < distance[i])
}

proof fn lemma_root_is_root<T>(nodes: Seq<Node<T>>, distance: Seq<nat>, i: int)
    requires
        links_ok(nodes, distance),
        0 <= i < nodes.len(),
    ensures
        0 <= root_of(nodes, distance, i) < nodes.len(),
        nodes[root_of(nodes, distance, i)] is State,
    decreases distance[i],
{
    if let Node::Fused(into) = nodes[i] {
        lemma_root_is_root(nodes, distance, into as int);
    }
}

/// Replacing states, appending nodes or changing the distances leaves the roots alone.
proof fn lemma_root_same<T>(
    nodes: Seq<Node<T>>,
    distance: Seq<nat>,
    other: Seq<Node<T>>,
    other_distance: Seq<nat>,
    i: int,
)
    requires
        links_ok(nodes, distance),
        links_ok(other, other_distance),
        nodes.len() <= other.len(),
        forall|k: int|
            0 <= k < nodes.len() ==> match #[trigger] nodes[k] {
                Node::State(_) => other[k] is State,
                Node::Fused(into) => other[k] == Node::<T>::Fused(into),
            },
        0 <= i < nodes.len(),
    ensures
        root_of(other, other_distance, i) == root_of(nodes, distance, i),
    decreases distance[i],
{
    match nodes[i] {
        Node::State(_) => {
            assert(other[i] is State);
        },
        Node::Fused(into) => {
            assert(other[i] == Node::<T>::Fused(into));
            lemma_root_same(nodes, distance, other, other_distance, into as int);
        },
    }
}

/// Redirecting the root `from` to `into` moves exactly the handles below `from`.
proof fn lemma_root_linked<T>(
    nodes: Seq<Node<T>>,
    distance: Seq<nat>,
    other: Seq<Node<T>>,
    other_distance: Seq<nat>,
    from: int,
    into: usize,
    i: int,
)
    requires
        links_ok(nodes, distance),
        links_ok(other, other_distance),
        0 <= from < nodes.len(),
        nodes[from] is State,
        other == nodes.update(from, Node::Fused(into)),
        into < nodes.len(),
        root_of(nodes, distance, into as int) != from,
        0 <= i < nodes.len(),
    ensures
        root_of(other, other_distance, i) == if root_of(nodes, distance, i) == from {
            root_of(nodes, distance, into as int)
        } else {
            root_of(nodes, distance, i)
        },
    decreases other_distance[i],
{
    if i == from {
        assert(other[i] == Node::<T>::Fused(into));
        lemma_root_linked(nodes, distance, other, other_distance, from, into, into as int);
    } else if let Node::Fused(next) = nodes[i] {
        assert(other[i] == Node::<T>::Fused(next));
        lemma_root_linked(nodes, distance, other, other_distance, from, into, next as int);
    } else {
        assert(other[i] is State);
    }
}

impl<T> Forest<T> {
    pub closed spec fn view(&self) -> ForestModel<T> {
        ForestModel {
            root: Seq::new(self.nodes@.len(), |i: int| root_of(self.nodes@, self.distance@, i)),
            state: Map::new(
                |r: int| 0 <= r < self.nodes@.len() && self.nodes@[r] is State,
                |r: int| self.nodes@[r]->State_0,
            ),
        }
    }

    /// The links never form a cycle.
    pub closed spec fn wf(&self) -> bool {
        links_ok(self.nodes@, self.distance@)
    }

    proof fn lemma_model(&self)
        requires
            self.wf(),
        ensures
            self@.well_formed(),
            self@.root.len() == self.nodes@.len(),
    {
        assert forall|i: int| 0 <= i < self@.root.len() implies {
            &&& 0 <= #[trigger] self@.root[i] < self@.root.len()
            &&& self@.root[self@.root[i]] == self@.root[i]
        } by {
            lemma_root_is_root(self.nodes@, self.distance@, i);
        }
        assert forall|r: int| #[trigger] self@.state.dom().contains(r) <==> 0 <= r
            < self@.root.len() && self@.root[r] == r by {
            if 0 <= r < self.nodes@.len() {
                lemma_root_is_root(self.nodes@, self.distance@, r);
            }
        }
    }

    /// An empty forest.
    pub fn new() -> (forest: Self)
        ensures
            forest.wf(),
            forest@.root == Seq::<int>::empty(),
            forest@.state == Map::<int, T>::empty(),
    {
        let forest = Forest { nodes: Vec::new(), distance: Ghost(Seq::empty()) };
        assert(forest@.state =~= Map::<int, T>::empty());
        forest
    }

    /// The number of handles that were handed out.
    pub fn len(&self) -> (n: usize)
        ensures
            n == self@.root.len(),
    {
        self.nodes.len()
    }

    /// Adds a tree with the given state and returns its handle.
    pub fn add(&mut self, state: T) -> (handle: usize)
        requires
            old(self).wf(),
        ensures
            final(self).wf(),
            final(self)@ == old(self)@.grown(state),
            final(self)@.well_formed(),
            handle == old(self)@.root.len(),
    {
        let handle: usize = self.nodes.len();
        let ghost before = *self;
        self.nodes.push(Node::State(state));
        proof {
            self.distance@ = self.distance@.push(0);
            assert(links_ok(self.nodes@, self.distance@)) by {
                assert forall|i: int| 0 <= i < self.nodes@.len() implies (#[trigger] self.nodes@[i]
                    matches Node::Fused(into) ==> into < self.nodes@.len()
                    && self.distance@[into as int] < self.distance@[i]) by {
                    if i < before.nodes@.len() {
                        assert(self.nodes@[i] == before.nodes@[i]);
                    }
                }
            }
            assert forall|i: int| 0 <= i < before.nodes@.len() implies self@.root[i]
                == before@.root[i] by {
                lemma_root_same(before.nodes@, before.distance@, self.nodes@, self.distance@, i);
            }
            assert(self@.root =~= before@.grown(state).root);
            assert(self@.state =~= before@.grown(state).state);
            self.lemma_model();
        }
        handle
    }

    /// The root a handle resolves to.
    pub fn find(&self, handle: usize) -> (root: usize)
        requires
            self.wf(),
            self@.has(handle as int),
        ensures
            root == self@.root[handle as int],
            self@.has(root as int),
            self@.root[root as int] == root,
            self@.well_formed(),
    {
        proof {
            self.lemma_model();
        }
        let mut next: usize = handle;
        loop
            invariant
                self.wf(),
                self@.well_formed(),
                next < self.nodes@.len(),
                self@.root.len() == self.nodes@.len(),
                self@.has(handle as int),
                root_of(self.nodes@, self.distance@, next as int) == self@.root[handle as int],
            decreases self.distance@[next as int],
        {
            match &self.nodes[next] {
                Node::State(_) => {
                    return next;
                },
                Node::Fused(into) => {
                    next = *into;
                },
            }
        }
    }

    /// The state a handle resolves to.
    pub fn get(&self, handle: usize) -> (state: &T)
        requires
            self.wf(),
            self@.has(handle as int),
        ensures
            *state == self@.resolve(handle as int),
    {
        let root: usize = self.find(handle);
        match &self.nodes[root] {
            Node::State(state) => state,
            Node::Fused(_) => {
                proof {
                    assert(self@.state.dom().contains(root as int));
                    assert(false);
                }
                vstd::pervasive::unreached()
            },
        }
    }

    /// Stores a state at the root of a handle and returns the one it replaces.
    pub fn replace(&mut self, handle: usize, state: T) -> (previous: T)
        requires
            old(self).wf(),
            old(self)@.has(handle as int),
        ensures
            final(self).wf(),
            final(self)@ == old(self)@.stored(handle as int, state),
            final(self)@.well_formed(),
            previous == old(self)@.resolve(handle as int),
    {
        let root: usize = self.find(handle);
        let ghost before = *self;
        proof {
            assert(self@.state.dom().contains(root as int));
        }
        let mut node: Node<T> = Node::State(state);
        std::mem::swap(&mut self.nodes[root], &mut node);
        proof {
            assert(self.nodes@ == before.nodes@.update(root as int, Node::State(state)));
            assert(links_ok(self.nodes@, self.distance@)) by {
                assert forall|i: int| 0 <= i < self.nodes@.len() implies (#[trigger] self.nodes@[i]
                    matches Node::Fused(into) ==> into < self.nodes@.len()
                    && self.distance@[into as int] < self.distance@[i]) by {
                    if i != root {
                        assert(self.nodes@[i] == before.nodes@[i]);
                    }
                }
            }
            assert forall|i: int| 0 <= i < before.nodes@.len() implies self@.root[i]
                == before@.root[i] by {
                lemma_root_same(before.nodes@, before.distance@, self.nodes@, self.distance@, i);
            }
            assert(self@.root =~= before@.root);
            assert(self@.state =~= before@.stored(handle as int, state).state);
            self.lemma_model();
        }
        match node {
            Node::State(previous) => previous,
            Node::Fused(_) => {
                proof {
                    assert(false);
                }
                vstd::pervasive::unreached()
            },
        }
    }

    /// Fuses the tree of `from` into the tree of `into`: from now on every handle of the former
    /// resolves to the state of the latter. Returns the state that `from` resolved to.
    pub fn link(&mut self, from: usize, into: usize) -> (state: T)
        requires
            old(self).wf(),
            old(self)@.has(from as int),
            old(self)@.has(into as int),
            !old(self)@.joined(from as int, into as int),
        ensures
            final(self).wf(),
            final(self)@ == old(self)@.linked(from as int, into as int),
            final(self)@.well_formed(),
            state == old(self)@.resolve(from as int),
    {
        let root: usize = self.find(from);
        let ghost before = *self;
        proof {
            assert(self@.state.dom().contains(root as int));
        }
        let mut node: Node<T> = Node::Fused(into);
        std::mem::swap(&mut self.nodes[root], &mut node);
        proof {
            let target = before@.root[into as int];
            self.distance@ = Seq::new(
                before.distance@.len(),
                |i: int|
                    if before@.root[i] == root {
                        before.distance@[i] + before.distance@[into as int] + 1
                    } else {
                        before.distance@[i]
                    },
            );
            assert(self.nodes@ == before.nodes@.update(root as int, Node::Fused(into)));
            assert(links_ok(self.nodes@, self.distance@)) by {
                assert forall|i: int| 0 <= i < self.nodes@.len() implies (#[trigger] self.nodes@[i]
                    matches Node::Fused(next) ==> next < self.nodes@.len()
                    && self.distance@[next as int] < self.distance@[i]) by {
                    if i != root {
                        assert(self.nodes@[i] == before.nodes@[i]);
                        if let Node::Fused(next) = before.nodes@[i] {
                            assert(before@.root[i] == before@.root[next as int]);
                        }
                    }
                }
            }
            assert forall|i: int| 0 <= i < before.nodes@.len() implies self@.root[i]
                == before@.linked(from as int, into as int).root[i] by {
                lemma_root_linked(
                    before.nodes@,
                    before.distance@,
                    self.nodes@,
                    self.distance@,
                    root as int,
                    into,
                    i,
                );
            }
            assert(self@.root =~= before@.linked(from as int, into as int).root);
            assert(self@.state =~= before@.linked(from as int, into as int).state);
            self.lemma_model();
        }
        match node {
            Node::State(state) => state,
            Node::Fused(_) => {
                proof {
                    assert(false);
                }
                vstd::pervasive::unreached()
            },
        }
    }
}

} // verus!
