use vstd::prelude::*;

use crate::indent::{token_text, Indent};
use crate::tree::Node;

verus! {

/// The prefix that continues below a node drawn with `prefix`: the
/// connector that drew it becomes a blank column when it was the last
/// sibling, a vertical bar otherwise.
pub open spec fn continued(prefix: Seq<Indent>, is_last: bool) -> Seq<Indent> {
    if prefix.len() == 0 {
        prefix
    } else {
        prefix.update(
            prefix.len() - 1,
            if is_last {
                Indent::Blank
            } else {
                Indent::Uplink
            },
        )
    }
}

/// The connector of a child: `Last` for the last child, `Split` otherwise.
pub open spec fn connector(child_last: bool) -> Indent {
    if child_last {
        Indent::Last
    } else {
        Indent::Split
    }
}

/// The prefix tokens a child is drawn with.
pub open spec fn child_prefix(prefix: Seq<Indent>, is_last: bool, child_last: bool) -> Seq<Indent> {
    continued(prefix, is_last).push(connector(child_last))
}

/// Text of a prefix: each token's glyph followed by one space.
pub open spec fn prefix_text(p: Seq<Indent>) -> Seq<char>
    decreases p.len(),
{
    if p.len() == 0 {
        seq![]
    } else {
        prefix_text(p.drop_last()) + token_text(p.last()) + seq![' ']
    }
}

/// One output line: its prefix tokens and the node's name.
pub type Row = (Seq<Indent>, Seq<char>);

/// The lines drawn for the tree rooted at `n`, depth first in child order,
/// when `n` itself is drawn with `prefix` and `is_last` tells whether it is
/// the last among its siblings.
pub open spec fn rows(n: Node, prefix: Seq<Indent>, is_last: bool) -> Seq<Row>
    decreases n, 1nat,
{
    seq![(prefix, n.name@)] + child_rows(n, prefix, is_last, n.children.len() as nat)
}

/// The lines drawn for the subtrees of the first `k` children of `n`.
pub open spec fn child_rows(n: Node, prefix: Seq<Indent>, is_last: bool, k: nat) -> Seq<Row>
    decreases n, 0nat, k,
{
    if k == 0 || k > n.children.len() {
        seq![]
    } else {
        let child_last = k == n.children.len();
        child_rows(n, prefix, is_last, (k - 1) as nat) + rows(
            n.children[k - 1],
            child_prefix(prefix, is_last, child_last),
            child_last,
        )
    }
}

/// The text of one line.
pub open spec fn line_text(r: Row) -> Seq<char> {
    prefix_text(r.0) + r.1
}

/// Lines joined by newlines, with no newline after the last one.
pub open spec fn join_lines(rs: Seq<Row>) -> Seq<char>
    decreases rs.len(),
{
    if rs.len() == 0 {
        seq![]
    } else if rs.len() == 1 {
        line_text(rs[0])
    } else {
        join_lines(rs.drop_last()) + seq!['\n'] + line_text(rs.last())
    }
}

/// The text of the tree rooted at `n`, drawn as a root.
pub open spec fn rendered(n: Node) -> Seq<char> {
    join_lines(rows(n, seq![], true))
}

/// Joining two non-empty runs of lines puts one newline between them.
pub proof fn lemma_join_append(a: Seq<Row>, b: Seq<Row>)
    requires
        a.len() > 0,
        b.len() > 0,
    ensures
        join_lines(a + b) == join_lines(a) + seq!['\n'] + join_lines(b),
    decreases b.len(),
{
    if b.len() == 1 {
        assert((a + b).drop_last() =~= a);
    } else {
        assert((a + b).drop_last() =~= a + b.drop_last());
        lemma_join_append(a, b.drop_last());
    }
}

impl Node {
    /// Draws this node with `prefix` and, below it, its subtrees.
    pub fn render(&self, prefix: &Vec<Indent>, is_last: bool) -> (r: String)
        ensures
            r@ == join_lines(rows(*self, prefix@, is_last)),
        decreases self,
    {
        let mut result = String::new();
        let mut j: usize = 0;
        while j < prefix.len()
            invariant
                j <= prefix.len(),
                result@ == prefix_text(prefix@.subrange(0, j as int)),
            decreases prefix.len() - j,
        {
            assert(prefix@.subrange(0, j + 1).drop_last() =~= prefix@.subrange(0, j as int));
            result.append(prefix[j].glyph());
            proof {
                reveal_strlit(" ");
            }
            result.append(" ");
            j = j + 1;
        }
        assert(prefix@.subrange(0, prefix.len() as int) =~= prefix@);
        result.append(self.name.as_str());
        let ghost first: Seq<Row> = seq![(prefix@, self.name@)];
        assert(result@ == join_lines(first));
        let n = self.children.len();
        let mut i: usize = 0;
        while i < n
            invariant
                n == self.children.len(),
                i <= n,
                first == seq![(prefix@, self.name@)],
                result@ == join_lines(first + child_rows(*self, prefix@, is_last, i as nat)),
            decreases n - i,
        {
            let child_last = i + 1 == n;
            let child_prefix_v = make_child_prefix(prefix, is_last, child_last);
            let sub = self.children[i].render(&child_prefix_v, child_last);
            proof {
                let before = first + child_rows(*self, prefix@, is_last, i as nat);
                let part = rows(self.children[i as int], child_prefix_v@, child_last);
                assert(first.len() == 1);
                assert(before.len() >= 1);
                assert(part.len() >= 1);
                lemma_join_append(before, part);
                assert(before + part =~= first + child_rows(*self, prefix@, is_last, (i + 1) as nat));
                reveal_strlit("\n");
            }
            result.append("\n");
            result.append(sub.as_str());
            i = i + 1;
        }
        assert(first + child_rows(*self, prefix@, is_last, n as nat) =~= rows(*self, prefix@, is_last));
        result
    }

    /// The whole tree as text: one line per node, no trailing newline.
    pub fn to_string(&self) -> (r: String)
        ensures
            r@ == rendered(*self),
    {
        let prefix: Vec<Indent> = Vec::new();
        proof {
            assert(prefix@ =~= seq![]);
        }
        self.render(&prefix, true)
    }
}

/// Builds the prefix that a child of a node drawn with `prefix` is drawn with.
fn make_child_prefix(prefix: &Vec<Indent>, is_last: bool, child_last: bool) -> (r: Vec<Indent>)
    ensures
        r@ == child_prefix(prefix@, is_last, child_last),
{
    let ghost base = continued(prefix@, is_last);
    let mut out: Vec<Indent> = Vec::new();
    let n = prefix.len();
    let mut j: usize = 0;
    while j < n
        invariant
            n == prefix.len(),
            j <= n,
            base.len() == n,
            forall|k: int| 0 <= k < n - 1 ==> base[k] == prefix@[k],
            n > 0 ==> base[n - 1] == (if is_last {
                Indent::Blank
            } else {
                Indent::Uplink
            }),
            out@ =~= base.subrange(0, j as int),
        decreases n - j,
    {
        if j + 1 == n {
            if is_last {
                out.push(Indent::Blank);
            } else {
                out.push(Indent::Uplink);
            }
        } else {
            out.push(prefix[j]);
        }
        j = j + 1;
    }
    assert(out@ =~= base);
    if child_last {
        out.push(Indent::Last);
    } else {
        out.push(Indent::Split);
    }
    assert(out@ =~= child_prefix(prefix@, is_last, child_last));
    out
}

} // verus!
