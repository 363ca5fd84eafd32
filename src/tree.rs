use vstd::prelude::*;

verus! {

/// A labelled node with an ordered sequence of owned children.
#[derive(Debug)]
pub struct Node {
    pub name: String,
    pub children: Vec<Node>,
}

/// Number of nodes in the tree rooted at `n`.
pub open spec fn node_count(n: Node) -> nat
    decreases n, 1nat,
{
    1 + children_count(n, n.children.len() as nat)
}

/// Number of nodes in the subtrees of the first `k` children of `n`.
pub open spec fn children_count(n: Node, k: nat) -> nat
    decreases n, 0nat, k,
{
    if k == 0 || k > n.children.len() {
        0
    } else {
        children_count(n, (k - 1) as nat) + node_count(n.children[k - 1])
    }
}

/// `n` is a leaf labelled `name`.
pub open spec fn is_leaf_named(n: Node, name: Seq<char>) -> bool {
    n.name@ == name && n.children@.len() == 0
}

/// `n` is labelled `name` and its children are leaves labelled by `names`,
/// in that order.
pub open spec fn is_flat_of(n: Node, name: Seq<char>, names: Seq<Seq<char>>) -> bool {
    &&& n.name@ == name
    &&& n.children@.len() == names.len()
    &&& forall|i: int| 0 <= i < names.len() ==> #[trigger] is_leaf_named(n.children@[i], names[i])
}

/// The labels of a list of strings.
pub open spec fn labels(v: Seq<String>) -> Seq<Seq<char>> {
    v.map_values(|s: String| s@)
}

/// `a` and `b` have the same labels in the same shape.
pub open spec fn same_tree(a: Node, b: Node) -> bool
    decreases a, 1nat,
{
    &&& a.name@ == b.name@
    &&& a.children.len() == b.children.len()
    &&& same_children(a, b, a.children.len() as nat)
}

/// The first `k` children of `a` and of `b` are pairwise the same tree.
pub open spec fn same_children(a: Node, b: Node, k: nat) -> bool
    decreases a, 0nat, k,
{
    if k == 0 {
        true
    } else if k > a.children.len() || k > b.children.len() {
        false
    } else {
        same_children(a, b, (k - 1) as nat) && same_tree(a.children[k - 1], b.children[k - 1])
    }
}

impl Node {
    /// A leaf labelled `name`.
    pub fn singleton(name: String) -> (r: Node)
        ensures
            r.name == name,
            is_leaf_named(r, name@),
    {
        Node { name, children: Vec::new() }
    }

    /// A node labelled `name` whose children are leaves labelled by
    /// `children`, in order; with no names it is a leaf.
    pub fn flat(name: String, children: Vec<String>) -> (r: Node)
        ensures
            r.name == name,
            is_flat_of(r, name@, labels(children@)),
            forall|i: int| 0 <= i < children@.len() ==> r.children@[i].name == children@[i],
    {
        if children.len() == 0 {
            Self::singleton(name)
        } else {
            let mut nodes: Vec<Node> = Vec::new();
            let mut i: usize = 0;
            while i < children.len()
                invariant
                    i <= children@.len(),
                    nodes@.len() == i,
                    forall|k: int| 0 <= k < i ==> (#[trigger] nodes@[k]).name == children@[k],
                    forall|k: int|
                        0 <= k < i ==> is_leaf_named(#[trigger] nodes@[k], labels(children@)[k]),
                decreases children.len() - i,
            {
                let leaf = Self::singleton(children[i].clone());
                assert(labels(children@)[i as int] == children@[i as int]@);
                nodes.push(leaf);
                i = i + 1;
            }
            let r = Node { name, children: nodes };
            assert(forall|k: int| 0 <= k < children@.len() ==> r.children@[k] == nodes@[k]);
            r
        }
    }

    /// Appends `child` after the existing children.
    pub fn add_child(&mut self, child: Node)
        ensures
            final(self).name == old(self).name,
            final(self).children@ == old(self).children@.push(child),
    {
        self.children.push(child);
    }
}

} // verus!
