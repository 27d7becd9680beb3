//! The structure of the widget tree: which node is whose child.
//!
//! Identifiers are handed out in increasing order and never again, so a
//! parent always has a smaller identifier than its children.

use vstd::prelude::*;
use crate::widget::Id;

verus! {

/// The identifier of the root of every tree.
pub const ROOT: Id = 0;

/// One node of the tree, as contracts see it.
pub struct Node {
    /// The node's parent; the root and removed nodes have none.
    pub parent: Option<Id>,
    /// The node's children, in paint order.
    pub children: Seq<Id>,
    /// The node is in the tree.
    pub live: bool,
}

/// The node is in the tree.
pub open spec fn is_live(nodes: Seq<Node>, id: Id) -> bool {
    id < nodes.len() && nodes[id as int].live
}

/// `child` is a child of `parent`.
pub open spec fn is_child(nodes: Seq<Node>, parent: Id, child: Id) -> bool {
    parent < nodes.len() && nodes[parent as int].children.contains(child)
}

/// The nodes form a tree: the root is in it and has no parent; every other
/// node of it is a child, exactly once, of its parent, which is in the tree and
/// was created before it; and the children of a node are in the tree and have
/// that node as their parent.
#[verifier::opaque]
pub open spec fn well_formed(nodes: Seq<Node>) -> bool {
    &&& 1 <= nodes.len() <= usize::MAX
    &&& nodes[0].live
    &&& nodes[0].parent.is_none()
    &&& forall|i: int|
        0 < i < nodes.len() && (#[trigger] nodes[i]).live ==> {
            &&& nodes[i].parent.is_some()
            &&& nodes[i].parent.unwrap() < i
            &&& nodes[nodes[i].parent.unwrap() as int].live
            &&& nodes[nodes[i].parent.unwrap() as int].children.contains(i as Id)
        }
    &&& forall|i: int|
        0 <= i < nodes.len() && !(#[trigger] nodes[i]).live ==> nodes[i].children.len() == 0
            && nodes[i].parent.is_none()
    &&& forall|i: int, k: int|
        0 <= i < nodes.len() && 0 <= k < nodes[i].children.len() ==> {
            &&& (#[trigger] nodes[i].children[k]) < nodes.len()
            &&& nodes[nodes[i].children[k] as int].live
            &&& nodes[nodes[i].children[k] as int].parent == Some(i as Id)
        }
    &&& forall|i: int| 0 <= i < nodes.len() ==> (#[trigger] nodes[i]).children.no_duplicates()
}

/// `node` is `ancestor` or lies below it.
pub open spec fn descends(nodes: Seq<Node>, node: Id, ancestor: Id) -> bool
    decreases node,
{
    node == ancestor || (node < nodes.len() && nodes[node as int].parent.is_some()
        && nodes[node as int].parent.unwrap() < node && descends(
        nodes,
        nodes[node as int].parent.unwrap(),
        ancestor,
    ))
}

/// A tree has its root, and no more nodes than there are identifiers.
pub proof fn root_in_tree(nodes: Seq<Node>)
    requires
        well_formed(nodes),
    ensures
        1 <= nodes.len() <= usize::MAX,
        is_live(nodes, ROOT),
        nodes[ROOT as int].parent.is_none(),
{
    reveal(well_formed);
}

/// In a tree a child has a greater identifier than its parent.
pub proof fn child_is_younger(nodes: Seq<Node>, parent: Id, child: Id)
    requires
        well_formed(nodes),
        is_child(nodes, parent, child),
    ensures
        parent < child < nodes.len(),
        nodes[child as int].live,
        nodes[parent as int].live,
        nodes[child as int].parent == Some(parent),
{
    reveal(well_formed);
    let k = choose|k: int|
        0 <= k < nodes[parent as int].children.len() && nodes[parent as int].children[k] == child;
    assert(nodes[parent as int].children[k] == child);
    assert(nodes[child as int].live);
    if !nodes[parent as int].live {
        assert(nodes[parent as int].children.len() == 0);
    }
}

/// The tree with one more node, the last child of `parent`. Its identifier
/// is the number of identifiers handed out before.
pub open spec fn with_child(nodes: Seq<Node>, parent: Id) -> Seq<Node> {
    nodes.update(
        parent as int,
        Node {
            children: nodes[parent as int].children.push(nodes.len() as Id),
            ..nodes[parent as int]
        },
    ).push(Node { parent: Some(parent), children: Seq::empty(), live: true })
}

/// A node that is not in the tree, as contracts see it.
pub open spec fn gone() -> Node {
    Node { parent: None, children: Seq::empty(), live: false }
}

/// `node` can be removed: it is in the tree and is not the root.
pub open spec fn can_remove(nodes: Seq<Node>, node: Id) -> bool {
    0 < node && is_live(nodes, node)
}

/// The tree without `node` and everything below it: those nodes are gone,
/// `node` has left its parent's children, whose order is otherwise kept, and
/// nothing else has changed.
pub open spec fn removed(nodes: Seq<Node>, node: Id) -> Seq<Node> {
    let parent = nodes[node as int].parent.unwrap();
    Seq::new(
        nodes.len(),
        |j: int|
            if descends(nodes, j as Id, node) {
                gone()
            } else if j == parent {
                Node {
                    children: nodes[j].children.remove(nodes[j].children.index_of(node)),
                    ..nodes[j]
                }
            } else {
                nodes[j]
            },
    )
}

/// What lies below a node has a greater identifier.
pub proof fn descendant_is_younger(nodes: Seq<Node>, node: Id, ancestor: Id)
    requires
        descends(nodes, node, ancestor),
    ensures
        ancestor <= node,
    decreases node,
{
    if node != ancestor {
        descendant_is_younger(nodes, nodes[node as int].parent.unwrap(), ancestor);
    }
}

/// Taking one value out of a sequence without repetitions leaves the other
/// values, in their order, and not that value.
proof fn lemma_remove_one(s: Seq<Id>, k: int)
    requires
        s.no_duplicates(),
        0 <= k < s.len(),
    ensures
        s.index_of(s[k]) == k,
        s.remove(k).no_duplicates(),
        !s.remove(k).contains(s[k]),
        forall|v: Id| v != s[k] && s.contains(v) ==> #[trigger] s.remove(k).contains(v),
        forall|j: int| 0 <= j < s.remove(k).len() ==> s.contains(#[trigger] s.remove(k)[j]),
{
    let r = s.remove(k);
    assert(s.contains(s[k]));
    assert forall|j: int| 0 <= j < r.len() implies s.contains(#[trigger] r[j]) && r[j] != s[k] by {
        if j < k {
            assert(r[j] == s[j]);
        } else {
            assert(r[j] == s[j + 1]);
        }
    }
    assert forall|a: int, b: int| 0 <= a < r.len() && 0 <= b < r.len() && a != b implies r[a]
        != r[b] by {
        let a2 = if a < k { a } else { a + 1 };
        let b2 = if b < k { b } else { b + 1 };
        assert(r[a] == s[a2]);
        assert(r[b] == s[b2]);
    }
    assert forall|v: Id| v != s[k] && s.contains(v) implies #[trigger] r.contains(v) by {
        let j = choose|j: int| 0 <= j < s.len() && s[j] == v;
        if j < k {
            assert(r[j] == v);
        } else {
            assert(r[j - 1] == v);
        }
    }
}

/// Removing a node and what lies below it leaves a tree a tree.
pub proof fn removal_keeps_tree(nodes: Seq<Node>, node: Id)
    requires
        well_formed(nodes),
        can_remove(nodes, node),
    ensures
        well_formed(removed(nodes, node)),
{
    reveal(well_formed);
    let after = removed(nodes, node);
    let p = nodes[node as int].parent.unwrap();
    assert(nodes[node as int].live);
    assert(nodes[p as int].children.contains(node));
    let at = choose|k: int|
        0 <= k < nodes[p as int].children.len() && nodes[p as int].children[k] == node;
    assert(nodes[p as int].children.no_duplicates());
    lemma_remove_one(nodes[p as int].children, at);
    assert(!descends(nodes, p, node)) by {
        if descends(nodes, p, node) {
            descendant_is_younger(nodes, p, node);
        }
    }
    assert(!descends(nodes, 0, node)) by {
        if descends(nodes, 0, node) {
            descendant_is_younger(nodes, 0, node);
        }
    }
    assert forall|i: int| 0 < i < after.len() && (#[trigger] after[i]).live implies {
        &&& after[i].parent.is_some()
        &&& after[i].parent.unwrap() < i
        &&& after[after[i].parent.unwrap() as int].live
        &&& after[after[i].parent.unwrap() as int].children.contains(i as Id)
    } by {
        assert(nodes[i].live);
        let q = nodes[i].parent.unwrap();
        assert(!descends(nodes, q, node));
        assert(nodes[q as int].children.contains(i as Id));
    }
    assert forall|i: int| 0 <= i < after.len() && !(#[trigger] after[i]).live implies after[i].children.len()
        == 0 && after[i].parent.is_none() by {
        if !descends(nodes, i as Id, node) {
            assert(!nodes[i].live);
        }
    }
    assert forall|i: int, k: int|
        0 <= i < after.len() && 0 <= k < after[i].children.len() implies {
        &&& (#[trigger] after[i].children[k]) < after.len()
        &&& after[after[i].children[k] as int].live
        &&& after[after[i].children[k] as int].parent == Some(i as Id)
    } by {
        let c = after[i].children[k];
        assert(!descends(nodes, i as Id, node));
        assert(nodes[i].children.contains(c) && c != node) by {
            if i == p as int {
                assert(nodes[i].children.contains(c));
            } else {
                assert(nodes[i].children[k] == c);
                if c == node {
                    assert(nodes[c as int].parent == Some(i as Id));
                }
            }
        }
        child_is_younger(nodes, i as Id, c);
        assert(!descends(nodes, c, node));
    }
    assert forall|i: int| 0 <= i < after.len() implies (#[trigger] after[i]).children.no_duplicates() by {
        assert(nodes[i].children.no_duplicates());
    }
}

/// The parent of a removed node stays in the tree.
pub proof fn removal_drops_parent_last(nodes: Seq<Node>, node: Id)
    requires
        well_formed(nodes),
        can_remove(nodes, node),
    ensures
        nodes[node as int].parent.is_some(),
        is_live(nodes, nodes[node as int].parent.unwrap()),
        !descends(nodes, nodes[node as int].parent.unwrap(), node),
        is_live(removed(nodes, node), nodes[node as int].parent.unwrap()),
{
    reveal(well_formed);
    assert(nodes[node as int].live);
    let p = nodes[node as int].parent.unwrap();
    if descends(nodes, p, node) {
        descendant_is_younger(nodes, p, node);
    }
}

/// What the tree keeps for one node.
struct NodeData {
    parent: Option<Id>,
    children: Vec<Id>,
    live: bool,
}

/// The arena that owns the tree's structure.
pub struct Graph {
    nodes: Vec<NodeData>,
}

impl View for Graph {
    type V = Seq<Node>;

    closed spec fn view(&self) -> Seq<Node> {
        Seq::new(
            self.nodes@.len(),
            |i: int|
                Node {
                    parent: self.nodes@[i].parent,
                    children: self.nodes@[i].children@,
                    live: self.nodes@[i].live,
                },
        )
    }
}

impl Graph {
    /// The structure is a tree.
    pub open spec fn wf(&self) -> bool {
        well_formed(self@)
    }

    /// The tree that holds the root and nothing else.
    pub fn new() -> (graph: Graph)
        ensures
            graph.wf(),
            graph@ == seq![Node { parent: None, children: Seq::empty(), live: true }],
    {
        let mut nodes: Vec<NodeData> = Vec::new();
        nodes.push(NodeData { parent: None, children: Vec::new(), live: true });
        let graph = Graph { nodes };
        proof {
            reveal(well_formed);
        }
        assert(graph@ =~= seq![Node { parent: None, children: Seq::empty(), live: true }]);
        graph
    }

    /// The number of identifiers handed out so far.
    pub fn len(&self) -> (n: usize)
        ensures
            n == self@.len(),
    {
        self.nodes.len()
    }

    pub fn is_live(&self, id: Id) -> (live: bool)
        ensures
            live == is_live(self@, id),
    {
        id < self.nodes.len() && self.nodes[id].live
    }

    /// The parent of `id`; `None` for the root and for what is not in the
    /// tree.
    pub fn parent(&self, id: Id) -> (parent: Option<Id>)
        ensures
            id < self@.len() ==> parent == self@[id as int].parent,
            id >= self@.len() ==> parent.is_none(),
    {
        if id < self.nodes.len() {
            self.nodes[id].parent
        } else {
            None
        }
    }

    /// The children of `id`, in paint order; none for what was never in
    /// the tree.
    pub fn children(&self, id: Id) -> (children: &[Id])
        ensures
            id < self@.len() ==> children@ == self@[id as int].children,
            id >= self@.len() ==> children@.len() == 0,
    {
        if id < self.nodes.len() {
            self.nodes[id].children.as_slice()
        } else {
            &[]
        }
    }

    /// `child` is a child of `parent`.
    pub fn has_child(&self, parent: Id, child: Id) -> (found: bool)
        ensures
            found == is_child(self@, parent, child),
    {
        if parent >= self.nodes.len() {
            return false;
        }
        let children = &self.nodes[parent].children;
        let mut k: usize = 0;
        while k < children.len()
            invariant
                k <= children@.len(),
                parent < self.nodes@.len(),
                children@ == self@[parent as int].children,
                forall|j: int| 0 <= j < k ==> children@[j] != child,
            decreases children@.len() - k,
        {
            if children[k] == child {
                return true;
            }
            k += 1;
        }
        false
    }

    /// Add a node as the last child of `parent` and return its identifier,
    /// which is the next one not handed out yet. Nothing is added where
    /// `parent` is not in the tree, or where no identifier is left.
    pub fn add_child(&mut self, parent: Id) -> (id: Option<Id>)
        requires
            old(self).wf(),
        ensures
            final(self).wf(),
            id.is_some() <==> is_live(old(self)@, parent) && old(self)@.len() < usize::MAX,
            id.is_none() ==> final(self)@ == old(self)@,
            id.is_some() ==> id.unwrap() == old(self)@.len() && final(self)@ == with_child(
                old(self)@,
                parent,
            ),
    {
        if !self.is_live(parent) || self.nodes.len() == usize::MAX {
            return None;
        }
        let id = self.nodes.len();
        self.nodes[parent].children.push(id);
        self.nodes.push(NodeData { parent: Some(parent), children: Vec::new(), live: true });
        proof {
            let before = old(self)@;
            assert(self@ =~= with_child(before, parent));
            growth_keeps_tree(before, parent);
        }
        Some(id)
    }

    /// Remove `node` and everything below it, and return what was removed,
    /// in increasing order. The root cannot be removed, nor what is not in
    /// the tree: then nothing changes and nothing is returned.
    pub fn remove(&mut self, node: Id) -> (taken: Vec<Id>)
        requires
            old(self).wf(),
        ensures
            final(self).wf(),
            !can_remove(old(self)@, node) ==> taken@.len() == 0 && final(self)@ == old(self)@,
            can_remove(old(self)@, node) ==> final(self)@ == removed(old(self)@, node),
            forall|x: Id|
                taken@.contains(x) <==> can_remove(old(self)@, node) && x < old(self)@.len()
                    && descends(old(self)@, x, node),
            forall|a: int, b: int| 0 <= a < b < taken@.len() ==> taken@[a] < taken@[b],
    {
        let mut taken: Vec<Id> = Vec::new();
        if node == 0 || !self.is_live(node) {
            return taken;
        }
        let ghost before = self@;
        proof {
            reveal(well_formed);
        }
        let parent = self.nodes[node].parent.unwrap();
        assert(before[node as int].live);
        assert(before[parent as int].children.contains(node));
        let count = self.nodes[parent].children.len();
        assert(count == before[parent as int].children.len());
        let mut at: usize = 0;
        while self.nodes[parent].children[at] != node
            invariant
                self@ == before,
                parent < before.len(),
                count == before[parent as int].children.len(),
                exists|k: int|
                    at <= k < before[parent as int].children.len()
                        && before[parent as int].children[k] == node,
            decreases before[parent as int].children.len() - at,
        {
            at += 1;
        }
        proof {
            lemma_remove_one(before[parent as int].children, at as int);
            assert forall|j: Id| j < node implies !descends(before, j, node) by {
                if descends(before, j, node) {
                    descendant_is_younger(before, j, node);
                }
            }
        }
        self.nodes[parent].children.remove(at);
        proof {
            assert(self@ =~= before.update(
                parent as int,
                Node {
                    children: before[parent as int].children.remove(at as int),
                    ..before[parent as int]
                },
            ));
            assert forall|j: int| 0 <= j < node implies self@[j] == removed(before, node)[j] by {
                assert(!descends(before, j as Id, node));
            }
            assert forall|x: Id| taken@.contains(x) <==> x < node && descends(before, x, node) by {
                if x < node {
                    assert(!descends(before, x, node));
                }
            }
        }
        let mut i: usize = node;
        while i < self.nodes.len()
            invariant
                well_formed(before),
                can_remove(before, node),
                parent == before[node as int].parent.unwrap(),
                parent < node <= i <= before.len(),
                self@.len() == before.len(),
                forall|j: int| 0 <= j < i ==> self@[j] == removed(before, node)[j],
                forall|j: int| i <= j < before.len() ==> self@[j] == before[j],
                forall|x: Id| taken@.contains(x) <==> x < i && descends(before, x, node),
                forall|a: int, b: int| 0 <= a < b < taken@.len() ==> taken@[a] < taken@[b],
                forall|a: int| 0 <= a < taken@.len() ==> taken@[a] < i,
            decreases before.len() - i,
        {
            proof {
                reveal(well_formed);
            }
            let below = if i == node {
                true
            } else if self.nodes[i].live {
                let q = self.nodes[i].parent.unwrap();
                assert(before[i as int].live);
                assert(self@[q as int] == removed(before, node)[q as int]);
                !self.nodes[q].live
            } else {
                false
            };
            assert(below == descends(before, i, node)) by {
                if i != node && before[i as int].live {
                    let q = before[i as int].parent.unwrap();
                    assert(before[q as int].live);
                }
            }
            let ghost earlier = taken@;
            if below {
                self.nodes[i] = NodeData { parent: None, children: Vec::new(), live: false };
                taken.push(i);
                assert(taken@[earlier.len() as int] == i);
            }
            proof {
                assert forall|x: Id| taken@.contains(x) <==> x < i + 1 && descends(
                    before,
                    x,
                    node,
                ) by {
                    if taken@.contains(x) {
                        let a = choose|a: int| 0 <= a < taken@.len() && taken@[a] == x;
                        if a < earlier.len() {
                            assert(earlier[a] == x);
                            assert(earlier.contains(x));
                        }
                    }
                    if x < i + 1 && descends(before, x, node) {
                        if x < i {
                            assert(earlier.contains(x));
                            let a = choose|a: int| 0 <= a < earlier.len() && earlier[a] == x;
                            assert(taken@[a] == x);
                        }
                    }
                }
                assert forall|a: int, b: int| 0 <= a < b < taken@.len() implies taken@[a]
                    < taken@[b] by {
                    if below && b == earlier.len() {
                        assert(taken@[a] == earlier[a]);
                    }
                }
            }
            i += 1;
        }
        proof {
            assert(self@ =~= removed(before, node));
            removal_keeps_tree(before, node);
        }
        taken
    }
}

/// A new last child leaves a tree a tree.
pub proof fn growth_keeps_tree(before: Seq<Node>, parent: Id)
    requires
        well_formed(before),
        is_live(before, parent),
        before.len() < usize::MAX,
    ensures
        well_formed(with_child(before, parent)),
{
    reveal(well_formed);
    let id = before.len() as Id;
    let grown = before[parent as int].children.push(id);
    let after = before.update(
        parent as int,
        Node { children: grown, ..before[parent as int] },
    ).push(Node { parent: Some(parent), children: Seq::empty(), live: true });
    assert forall|i: int, k: int|
        0 <= i < after.len() && 0 <= k < after[i].children.len() implies {
        &&& (#[trigger] after[i].children[k]) < after.len()
        &&& after[after[i].children[k] as int].live
        &&& after[after[i].children[k] as int].parent == Some(i as Id)
    } by {
        if i == parent as int {
            if k < before[i].children.len() {
                assert(after[i].children[k] == before[i].children[k]);
            }
        } else if i < before.len() {
            assert(after[i].children[k] == before[i].children[k]);
        }
    }
    assert forall|i: int| 0 < i < after.len() && (#[trigger] after[i]).live implies {
        &&& after[i].parent.is_some()
        &&& after[i].parent.unwrap() < i
        &&& after[after[i].parent.unwrap() as int].live
        &&& after[after[i].parent.unwrap() as int].children.contains(i as Id)
    } by {
        if i < before.len() {
            assert(before[i].live);
            let p = before[i].parent.unwrap();
            assert(before[p as int].children.contains(i as Id));
            if p == parent {
                let k = choose|k: int|
                    0 <= k < before[p as int].children.len() && before[p as int].children[k]
                        == i as Id;
                assert(grown[k] == i as Id);
            }
        } else {
            assert(grown[grown.len() - 1] == id);
        }
    }
    assert forall|i: int| 0 <= i < after.len() implies (#[trigger] after[i]).children.no_duplicates() by {
        if i == parent as int {
            assert(before[i].children.no_duplicates());
            assert forall|a: int, b: int|
                0 <= a < grown.len() && 0 <= b < grown.len() && a != b implies grown[a]
                != grown[b] by {
                if a < before[i].children.len() {
                    assert(before[i].children[a] < before.len());
                }
                if b < before[i].children.len() {
                    assert(before[i].children[b] < before.len());
                }
            }
        } else if i < before.len() {
            assert(before[i].children.no_duplicates());
        }
    }
    assert forall|i: int| 0 <= i < after.len() && !(#[trigger] after[i]).live implies after[i].children.len()
        == 0 && after[i].parent.is_none() by {
        assert(!before[i].live);
    }
}

} // verus!
