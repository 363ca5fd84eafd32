use vstd::prelude::*;

use crate::indent::{token_text, Indent};
use crate::render::{
    child_prefix, child_rows, continued, join_lines, line_text, prefix_text, rendered, rows, Row,
};
use crate::tree::{
    children_count, is_flat_of, is_leaf_named, node_count, same_children, same_tree, Node,
};

verus! {

/// Depth and label of each node of the tree rooted at `n`, depth first in
/// child order, with `n` itself at depth `d`.
pub open spec fn preorder(n: Node, d: nat) -> Seq<(nat, Seq<char>)>
    decreases n, 1nat,
{
    seq![(d, n.name@)] + child_preorder(n, d, n.children.len() as nat)
}

/// Depths and labels of the subtrees of the first `k` children of `n`,
/// where `n` is at depth `d`.
pub open spec fn child_preorder(n: Node, d: nat, k: nat) -> Seq<(nat, Seq<char>)>
    decreases n, 0nat, k,
{
    if k == 0 || k > n.children.len() {
        seq![]
    } else {
        child_preorder(n, d, (k - 1) as nat) + preorder(n.children[k - 1], d + 1)
    }
}

/// Each line of a subtree carries its node's depth in prefix tokens and its
/// node's label; every line below the first keeps the continued prefix.
pub proof fn lemma_rows_shape(n: Node, p: Seq<Indent>, l: bool)
    ensures
        rows(n, p, l).len() == node_count(n),
        preorder(n, p.len()).len() == node_count(n),
        rows(n, p, l)[0] == (p, n.name@),
        forall|j: int|
            0 <= j < rows(n, p, l).len() ==> {
                &&& (#[trigger] rows(n, p, l)[j]).0.len() == preorder(n, p.len())[j].0
                &&& rows(n, p, l)[j].1 == preorder(n, p.len())[j].1
            },
        forall|j: int|
            1 <= j < rows(n, p, l).len() ==> {
                &&& (#[trigger] rows(n, p, l)[j]).0.len() > p.len()
                &&& rows(n, p, l)[j].0.subrange(0, p.len() as int) == continued(p, l)
            },
    decreases n, 1nat,
{
    let len = n.children.len() as nat;
    lemma_child_rows_shape(n, p, l, len);
    let c = child_rows(n, p, l, len);
    let r = rows(n, p, l);
    assert(r =~= seq![(p, n.name@)] + c);
    assert(preorder(n, p.len()) =~= seq![(p.len(), n.name@)] + child_preorder(n, p.len(), len));
    assert forall|j: int| 1 <= j < r.len() implies r[j] == c[j - 1] by {}
}

/// The lines of the first `k` subtrees: one per node, each with its depth and
/// label, each keeping the continued prefix of the parent.
pub proof fn lemma_child_rows_shape(n: Node, p: Seq<Indent>, l: bool, k: nat)
    requires
        k <= n.children.len(),
    ensures
        child_rows(n, p, l, k).len() == children_count(n, k),
        child_preorder(n, p.len(), k).len() == children_count(n, k),
        forall|j: int|
            0 <= j < child_rows(n, p, l, k).len() ==> {
                &&& (#[trigger] child_rows(n, p, l, k)[j]).0.len() == child_preorder(
                    n,
                    p.len(),
                    k,
                )[j].0
                &&& child_rows(n, p, l, k)[j].1 == child_preorder(n, p.len(), k)[j].1
                &&& child_rows(n, p, l, k)[j].0.len() > p.len()
                &&& child_rows(n, p, l, k)[j].0.subrange(0, p.len() as int) == continued(p, l)
            },
    decreases n, 0nat, k,
{
    if k > 0 {
        let cl = k == n.children.len();
        let child = n.children[k - 1];
        let q = child_prefix(p, l, cl);
        lemma_child_rows_shape(n, p, l, (k - 1) as nat);
        lemma_rows_shape(child, q, cl);
        let a = child_rows(n, p, l, (k - 1) as nat);
        let b = rows(child, q, cl);
        let c = child_rows(n, p, l, k);
        assert(c =~= a + b);
        assert(q.len() == p.len() + 1);
        assert(child_preorder(n, p.len(), k) =~= child_preorder(n, p.len(), (k - 1) as nat)
            + preorder(child, q.len()));
        assert(q.subrange(0, p.len() as int) =~= continued(p, l));
        assert(continued(q, cl).subrange(0, p.len() as int) =~= continued(p, l));
        assert forall|j: int| a.len() <= j < c.len() implies c[j].0.subrange(
            0,
            p.len() as int,
        ) == continued(p, l) by {
            let jj = j - a.len();
            assert(c[j] == b[jj]);
            if jj > 0 {
                assert(b[jj].0.subrange(0, p.len() as int) =~= b[jj].0.subrange(
                    0,
                    q.len() as int,
                ).subrange(0, p.len() as int));
            }
        }
    }
}

/// Within the lines of the first `k` subtrees, the lines of child `i` start
/// at `children_count(n, i)` and follow one another unchanged.
pub proof fn lemma_child_segment(n: Node, p: Seq<Indent>, l: bool, k: nat, i: nat)
    requires
        i < k <= n.children.len(),
    ensures
        children_count(n, i) + node_count(n.children[i as int]) <= children_count(n, k),
        forall|j: int|
            0 <= j < node_count(n.children[i as int]) ==> #[trigger] child_rows(n, p, l, k)[children_count(n, i) as int + j]
                == rows(
                n.children[i as int],
                child_prefix(p, l, i + 1 == n.children.len()),
                i + 1 == n.children.len(),
            )[j],
    decreases k,
{
    let a = child_rows(n, p, l, (k - 1) as nat);
    let cl = k == n.children.len();
    let b = rows(n.children[k - 1], child_prefix(p, l, cl), cl);
    assert(child_rows(n, p, l, k) =~= a + b);
    lemma_child_rows_shape(n, p, l, (k - 1) as nat);
    if i + 1 < k {
        lemma_child_segment(n, p, l, (k - 1) as nat, i);
    } else {
        lemma_child_rows_shape(n, p, l, i);
        lemma_rows_shape(n.children[i as int], child_prefix(p, l, cl), cl);
    }
}

/// A leaf is drawn as exactly its label: no prefix, no newline.
pub proof fn law_leaf_renders_as_name(n: Node)
    requires
        n.children@.len() == 0,
    ensures
        rendered(n) == n.name@,
{
    assert(child_rows(n, seq![], true, 0) =~= seq![]);
    assert(rows(n, seq![], true) =~= seq![(seq![], n.name@)]);
    assert(prefix_text(seq![]) =~= seq![]);
    assert(rendered(n) =~= n.name@);
}

/// The line of child `i` of a node ends its prefix with `Last` when that
/// child is the last one and with `Split` otherwise, at every level.
pub proof fn law_last_child_connector(n: Node, p: Seq<Indent>, l: bool, i: nat)
    requires
        i < n.children.len(),
    ensures
        rows(n, p, l)[1 + children_count(n, i) as int].1 == n.children[i as int].name@,
        rows(n, p, l)[1 + children_count(n, i) as int].0.len() == p.len() + 1,
        rows(n, p, l)[1 + children_count(n, i) as int].0.last() == (if i + 1 == n.children.len() {
            Indent::Last
        } else {
            Indent::Split
        }),
{
    let len = n.children.len() as nat;
    let cl = i + 1 == len;
    lemma_child_segment(n, p, l, len, i);
    lemma_rows_shape(n.children[i as int], child_prefix(p, l, cl), cl);
    lemma_child_rows_shape(n, p, l, len);
    let c = child_rows(n, p, l, len);
    assert(rows(n, p, l) =~= seq![(p, n.name@)] + c);
    assert(c[children_count(n, i) as int + 0] == rows(n.children[i as int], child_prefix(p, l, cl), cl)[0]);
}

/// On every line below child `i` of a node, the column of that child's
/// connector is a vertical bar while siblings follow it and blank once it
/// is the last child.
pub proof fn law_continuation_column(n: Node, p: Seq<Indent>, l: bool, i: nat, j: int)
    requires
        i < n.children.len(),
        1 + children_count(n, i) < j < 1 + children_count(n, i) + node_count(
            n.children[i as int],
        ),
    ensures
        rows(n, p, l)[j].0.len() > p.len() + 1,
        rows(n, p, l)[j].0[p.len() as int] == (if i + 1 == n.children.len() {
            Indent::Blank
        } else {
            Indent::Uplink
        }),
{
    let len = n.children.len() as nat;
    let cl = i + 1 == len;
    let q = child_prefix(p, l, cl);
    let b = rows(n.children[i as int], q, cl);
    lemma_child_segment(n, p, l, len, i);
    lemma_rows_shape(n.children[i as int], q, cl);
    lemma_child_rows_shape(n, p, l, len);
    let c = child_rows(n, p, l, len);
    assert(rows(n, p, l) =~= seq![(p, n.name@)] + c);
    let jj = j - 1 - children_count(n, i);
    assert(c[children_count(n, i) as int + jj] == b[jj]);
    assert(b[jj].0.subrange(0, q.len() as int) == continued(q, cl));
    assert(b[jj].0[p.len() as int] == b[jj].0.subrange(0, q.len() as int)[p.len() as int]);
}

/// Each prefix token takes four characters: its glyph and a space.
pub proof fn lemma_prefix_text_len(p: Seq<Indent>)
    ensures
        prefix_text(p).len() == 4 * p.len(),
    decreases p.len(),
{
    if p.len() > 0 {
        lemma_prefix_text_len(p.drop_last());
    }
}

/// Every line starts with four characters per level of depth, then the
/// node's label.
pub proof fn law_prefix_width(n: Node)
    ensures
        rows(n, seq![], true).len() == node_count(n),
        forall|j: int|
            0 <= j < node_count(n) ==> {
                &&& prefix_text((#[trigger] rows(n, seq![], true)[j]).0).len() == 4 * preorder(
                    n,
                    0,
                )[j].0
                &&& line_text(rows(n, seq![], true)[j]) == prefix_text(
                    rows(n, seq![], true)[j].0,
                ) + preorder(n, 0)[j].1
            },
{
    lemma_rows_shape(n, seq![], true);
    assert forall|j: int| 0 <= j < node_count(n) implies prefix_text(
        (#[trigger] rows(n, seq![], true)[j]).0,
    ).len() == 4 * preorder(n, 0)[j].0 by {
        lemma_prefix_text_len(rows(n, seq![], true)[j].0);
    }
}

/// Number of newline characters in `s`.
pub open spec fn newline_count(s: Seq<char>) -> nat
    decreases s.len(),
{
    if s.len() == 0 {
        0
    } else {
        newline_count(s.drop_last()) + if s.last() == '\n' {
            1nat
        } else {
            0nat
        }
    }
}

/// Newlines of a concatenation add up.
pub proof fn lemma_newline_count_add(a: Seq<char>, b: Seq<char>)
    ensures
        newline_count(a + b) == newline_count(a) + newline_count(b),
    decreases b.len(),
{
    if b.len() > 0 {
        assert((a + b).drop_last() =~= a + b.drop_last());
        lemma_newline_count_add(a, b.drop_last());
    }
}

/// A text without a newline character counts none.
pub proof fn lemma_no_newline(s: Seq<char>)
    requires
        !s.contains('\n'),
    ensures
        newline_count(s) == 0,
    decreases s.len(),
{
    if s.len() > 0 {
        assert(s.drop_last().len() < s.len());
        assert(!s.drop_last().contains('\n')) by {
            if s.drop_last().contains('\n') {
                let i = choose|i: int| 0 <= i < s.drop_last().len() && s.drop_last()[i] == '\n';
                assert(s[i] == '\n');
            }
        }
        lemma_no_newline(s.drop_last());
        assert(s[s.len() - 1] != '\n');
    }
}

/// A prefix never holds a newline.
pub proof fn lemma_prefix_text_no_newline(p: Seq<Indent>)
    ensures
        !prefix_text(p).contains('\n'),
    decreases p.len(),
{
    if p.len() > 0 {
        lemma_prefix_text_no_newline(p.drop_last());
        let a = prefix_text(p.drop_last());
        let t = token_text(p.last()) + seq![' '];
        assert(prefix_text(p) =~= a + t);
        if prefix_text(p).contains('\n') {
            let i = choose|i: int| 0 <= i < prefix_text(p).len() && prefix_text(p)[i] == '\n';
            if i < a.len() {
                assert(a[i] == '\n');
            } else {
                assert(t[i - a.len()] == '\n');
            }
        }
    }
}

/// Lines without newlines, joined, hold one newline fewer than lines.
pub proof fn lemma_join_newlines(rs: Seq<Row>)
    requires
        rs.len() > 0,
        forall|k: int| 0 <= k < rs.len() ==> !(#[trigger] line_text(rs[k])).contains('\n'),
    ensures
        newline_count(join_lines(rs)) + 1 == rs.len(),
    decreases rs.len(),
{
    lemma_no_newline(line_text(rs.last()));
    if rs.len() > 1 {
        let d = rs.drop_last();
        assert forall|k: int| 0 <= k < d.len() implies !(#[trigger] line_text(d[k])).contains(
            '\n',
        ) by {
            assert(d[k] == rs[k]);
        }
        lemma_join_newlines(d);
        lemma_newline_count_add(join_lines(d), seq!['\n']);
        lemma_newline_count_add(join_lines(d) + seq!['\n'], line_text(rs.last()));
        assert(seq!['\n'].drop_last() =~= Seq::<char>::empty());
        assert(newline_count(Seq::<char>::empty()) == 0);
        assert(seq!['\n'].last() == '\n');
        assert(newline_count(seq!['\n']) == 1);
        assert(join_lines(rs) == join_lines(d) + seq!['\n'] + line_text(rs.last()));
    } else {
        assert(rs.last() == rs[0]);
    }
}

/// When no label holds a newline, the text has exactly one line per node:
/// one newline fewer than nodes.
pub proof fn law_one_line_per_node(n: Node)
    requires
        forall|k: int|
            0 <= k < preorder(n, 0).len() ==> !(#[trigger] preorder(n, 0)[k]).1.contains('\n'),
    ensures
        rows(n, seq![], true).len() == node_count(n),
        newline_count(rendered(n)) + 1 == node_count(n),
{
    let rs = rows(n, seq![], true);
    lemma_rows_shape(n, seq![], true);
    assert forall|k: int| 0 <= k < rs.len() implies !(#[trigger] line_text(rs[k])).contains(
        '\n',
    ) by {
        let a = prefix_text(rs[k].0);
        let b = rs[k].1;
        assert(b == preorder(n, 0)[k].1);
        lemma_prefix_text_no_newline(rs[k].0);
        if line_text(rs[k]).contains('\n') {
            let i = choose|i: int| 0 <= i < line_text(rs[k]).len() && line_text(rs[k])[i] == '\n';
            if i < a.len() {
                assert(a[i] == '\n');
            } else {
                assert(b[i - a.len()] == '\n');
            }
        }
    }
    lemma_join_newlines(rs);
}

/// Trees with the same labels in the same shape are drawn alike.
pub proof fn lemma_same_tree_rows(a: Node, b: Node, p: Seq<Indent>, l: bool)
    requires
        same_tree(a, b),
    ensures
        rows(a, p, l) == rows(b, p, l),
    decreases a, 1nat,
{
    lemma_same_tree_child_rows(a, b, p, l, a.children.len() as nat);
}

/// Pairwise same children stay pairwise the same on fewer of them.
pub proof fn lemma_same_children_prefix(a: Node, b: Node, k: nat, m: nat)
    requires
        same_children(a, b, k),
        m <= k,
    ensures
        same_children(a, b, m),
    decreases k,
{
    if m < k {
        lemma_same_children_prefix(a, b, (k - 1) as nat, m);
    }
}

/// The `k`-th children of trees of the same shape are of the same shape.
pub proof fn lemma_same_tree_child_rows_step(a: Node, b: Node, k: nat)
    requires
        same_tree(a, b),
        0 < k <= a.children.len(),
    ensures
        same_children(a, b, (k - 1) as nat),
        same_tree(a.children[k - 1], b.children[k - 1]),
{
    lemma_same_children_prefix(a, b, a.children.len() as nat, k);
}

/// The first `k` subtrees of trees of the same shape are drawn alike.
pub proof fn lemma_same_tree_child_rows(a: Node, b: Node, p: Seq<Indent>, l: bool, k: nat)
    requires
        same_tree(a, b),
        k <= a.children.len(),
    ensures
        child_rows(a, p, l, k) == child_rows(b, p, l, k),
    decreases a, 0nat, k,
{
    if k > 0 {
        lemma_same_tree_child_rows(a, b, p, l, (k - 1) as nat);
        let cl = k == a.children.len();
        lemma_same_tree_child_rows_step(a, b, k);
        lemma_same_tree_rows(a.children[k - 1], b.children[k - 1], child_prefix(p, l, cl), cl);
    }
}

/// A flat node built from no names is the leaf of the same label, and is
/// drawn as that leaf is.
pub proof fn law_flat_without_names_is_singleton(a: Node, b: Node, name: Seq<char>)
    requires
        is_flat_of(a, name, seq![]),
        is_leaf_named(b, name),
    ensures
        same_tree(a, b),
        rendered(a) == rendered(b),
{
    lemma_same_tree_rows(a, b, seq![], true);
}

/// The first `k` children of two nodes whose children are leaves of the
/// same names are pairwise the same tree.
pub proof fn lemma_flat_same_children(a: Node, b: Node, names: Seq<Seq<char>>, k: nat)
    requires
        k <= names.len(),
        a.children@.len() == names.len(),
        b.children@.len() == names.len(),
        forall|i: int| 0 <= i < names.len() ==> #[trigger] is_leaf_named(a.children@[i], names[i]),
        forall|i: int| 0 <= i < names.len() ==> #[trigger] is_leaf_named(b.children@[i], names[i]),
    ensures
        same_children(a, b, k),
    decreases k,
{
    if k > 0 {
        lemma_flat_same_children(a, b, names, (k - 1) as nat);
        let i = k - 1;
        assert(is_leaf_named(a.children@[i], names[i]));
        assert(is_leaf_named(b.children@[i], names[i]));
        assert(a.children[i] == a.children@[i]);
        assert(b.children[i] == b.children@[i]);
        assert(same_children(a.children[i], b.children[i], 0));
        assert(same_tree(a.children[i], b.children[i]));
    }
}

/// A flat node is the tree built by hand from the same label and leaves of
/// the same names in the same order, and is drawn as that tree is.
pub proof fn law_flat_is_manual_tree(a: Node, b: Node, name: Seq<char>, names: Seq<Seq<char>>)
    requires
        is_flat_of(a, name, names),
        b.name@ == name,
        b.children@.len() == names.len(),
        forall|i: int| 0 <= i < names.len() ==> #[trigger] is_leaf_named(b.children@[i], names[i]),
    ensures
        same_tree(a, b),
        rendered(a) == rendered(b),
{
    lemma_flat_same_children(a, b, names, names.len());
    lemma_same_tree_rows(a, b, seq![], true);
}

} // verus!
