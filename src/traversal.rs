use vstd::prelude::*;

use crate::render::step_in;
use crate::tree::{SyntaxTree, TreeCursor};

verus! {

/// One event of a depth-first walk; `node` is a preorder index.
#[derive(Clone, Copy, Debug, PartialEq, Eq, Structural)]
pub enum Step {
    /// The line of the previous node ends.
    LineFeed,
    /// A node is about to be shown, `indent_level` levels deep.
    Indent { node: usize, indent_level: usize },
    /// The walk enters a node.
    Node { node: usize, indent_level: usize },
    /// The walk leaves a node after its children.
    AfterChildren { node: usize },
}

/// A node is shown if it is named, or if every node is to be shown.
pub open spec fn qualifies(t: &SyntaxTree, show_all: bool, i: int) -> bool {
    show_all || t.nodes@[i].is_named
}

/// The nodes among the first `k` in preorder that are shown, in order.
pub open spec fn qualifying_before(t: &SyntaxTree, show_all: bool, k: int) -> Seq<usize>
    decreases k,
{
    if k <= 0 {
        Seq::empty()
    } else if qualifies(t, show_all, k - 1) {
        qualifying_before(t, show_all, k - 1).push((k - 1) as usize)
    } else {
        qualifying_before(t, show_all, k - 1)
    }
}

/// How many nodes of `s` are shown.
pub open spec fn qualifying_count(t: &SyntaxTree, show_all: bool, s: Seq<usize>) -> int
    decreases s.len(),
{
    if s.len() == 0 {
        0
    } else {
        qualifying_count(t, show_all, s.drop_last()) + if qualifies(t, show_all, s.last() as int) {
            1int
        } else {
            0
        }
    }
}

/// The nodes that the steps enter, in order.
pub open spec fn entered(steps: Seq<Step>) -> Seq<usize>
    decreases steps.len(),
{
    if steps.len() == 0 {
        Seq::empty()
    } else {
        match steps.last() {
            Step::Node { node, .. } => entered(steps.drop_last()).push(node),
            _ => entered(steps.drop_last()),
        }
    }
}

/// How many times the steps leave a node.
pub open spec fn left_count(steps: Seq<Step>) -> int
    decreases steps.len(),
{
    if steps.len() == 0 {
        0
    } else {
        left_count(steps.drop_last()) + match steps.last() {
            Step::AfterChildren { .. } => 1int,
            _ => 0,
        }
    }
}

proof fn lemma_push_step(s: Seq<Step>, x: Step)
    ensures
        entered(s.push(x)) == (match x {
            Step::Node { node, .. } => entered(s).push(node),
            _ => entered(s),
        }),
        left_count(s.push(x)) == left_count(s) + (match x {
            Step::AfterChildren { .. } => 1int,
            _ => 0,
        }),
{
    assert(s.push(x).drop_last() =~= s);
}

proof fn lemma_qualifying_len(t: &SyntaxTree, show_all: bool, k: int)
    ensures
        qualifying_before(t, show_all, k).len() <= if k < 0 {
            0
        } else {
            k
        },
    decreases k,
{
    if k > 0 {
        lemma_qualifying_len(t, show_all, k - 1);
    }
}

proof fn lemma_qualifying_step(t: &SyntaxTree, show_all: bool, k: int, a: Seq<usize>)
    requires
        0 <= k <= usize::MAX,
    ensures
        qualifying_before(t, show_all, k + 1).len() == qualifying_before(t, show_all, k).len()
            + if qualifies(t, show_all, k) {
            1int
        } else {
            0
        },
        qualifying_count(t, show_all, a.push(k as usize)) == qualifying_count(t, show_all, a)
            + if qualifies(t, show_all, k) {
            1int
        } else {
            0
        },
{
    assert(a.push(k as usize).drop_last() =~= a);
}

/// Where steps stand relative to each other: an indent step opens every
/// node step, for the same node and level; a line feed comes before every
/// indent step but the first step, and only there.
#[verifier::opaque]
pub open spec fn well_shaped(s: Seq<Step>) -> bool {
    &&& forall|k: int|
        0 <= k < s.len() && (#[trigger] s[k]) is Node ==> k >= 1 && s[k - 1] == (Step::Indent {
            node: s[k]->Node_node,
            indent_level: s[k]->Node_indent_level,
        })
    &&& forall|k: int|
        0 <= k < s.len() && (#[trigger] s[k]) is Indent ==> k + 1 < s.len() && s[k + 1] == (
        Step::Node { node: s[k]->Indent_node, indent_level: s[k]->Indent_indent_level })
            && (k == 0 || s[k - 1] == Step::LineFeed)
    &&& forall|k: int|
        0 <= k < s.len() && (#[trigger] s[k]) is LineFeed ==> k > 0 && k + 1 < s.len() && s[k
            + 1] is Indent
    &&& s.len() > 0 ==> s[0] is Indent
}

proof fn lemma_shape_open(s: Seq<Step>, node: usize, indent_level: usize)
    requires
        well_shaped(s),
    ensures
        ({
            let g = if s.len() > 0 {
                s.push(Step::LineFeed)
            } else {
                s
            };
            well_shaped(
                g.push(Step::Indent { node, indent_level }).push(Step::Node { node, indent_level }),
            )
        }),
{
    reveal(well_shaped);
    let g = if s.len() > 0 {
        s.push(Step::LineFeed)
    } else {
        s
    };
    let r = g.push(Step::Indent { node, indent_level }).push(Step::Node { node, indent_level });
    assert forall|k: int| 0 <= k < r.len() && (#[trigger] r[k]) is Indent implies k + 1 < r.len()
        && r[k + 1] == (Step::Node { node: r[k]->Indent_node, indent_level: r[k]->Indent_indent_level })
        && (k == 0 || r[k - 1] == Step::LineFeed) by {
        if k < s.len() {
            assert(r[k] == s[k]);
            if k + 1 < s.len() {
                assert(r[k + 1] == s[k + 1]);
            } else {
                assert(s[k] is Indent);
            }
            if k > 0 {
                assert(r[k - 1] == s[k - 1]);
            }
        }
    }
    assert forall|k: int| 0 <= k < r.len() && (#[trigger] r[k]) is Node implies k >= 1 && r[k
        - 1] == (Step::Indent { node: r[k]->Node_node, indent_level: r[k]->Node_indent_level }) by {
        if k < s.len() {
            assert(r[k] == s[k]);
            assert(r[k - 1] == s[k - 1]);
        }
    }
    assert forall|k: int| 0 <= k < r.len() && (#[trigger] r[k]) is LineFeed implies k > 0 && k
        + 1 < r.len() && r[k + 1] is Indent by {
        if k < s.len() {
            assert(r[k] == s[k]);
            if k + 1 < s.len() {
                assert(r[k + 1] == s[k + 1]);
            }
        }
    }
}

proof fn lemma_shape_close(s: Seq<Step>, node: usize)
    requires
        well_shaped(s),
        s.len() > 0,
    ensures
        well_shaped(s.push(Step::AfterChildren { node })),
{
    reveal(well_shaped);
    let r = s.push(Step::AfterChildren { node });
    assert forall|k: int| 0 <= k < r.len() && (#[trigger] r[k]) is Indent implies k + 1 < r.len()
        && r[k + 1] == (Step::Node { node: r[k]->Indent_node, indent_level: r[k]->Indent_indent_level })
        && (k == 0 || r[k - 1] == Step::LineFeed) by {
        assert(r[k] == s[k]);
        assert(r[k + 1] == s[k + 1]);
        if k > 0 {
            assert(r[k - 1] == s[k - 1]);
        }
    }
    assert forall|k: int| 0 <= k < r.len() && (#[trigger] r[k]) is Node implies k >= 1 && r[k
        - 1] == (Step::Indent { node: r[k]->Node_node, indent_level: r[k]->Node_indent_level }) by {
        assert(r[k] == s[k]);
        assert(r[k - 1] == s[k - 1]);
    }
    assert forall|k: int| 0 <= k < r.len() && (#[trigger] r[k]) is LineFeed implies k > 0 && k
        + 1 < r.len() && r[k + 1] is Indent by {
        assert(r[k] == s[k]);
        if k + 1 < s.len() {
            assert(r[k + 1] == s[k + 1]);
        }
    }
}

proof fn lemma_qualifying_nonempty(t: &SyntaxTree, show_all: bool, j: int, k: int)
    requires
        0 <= j < k,
        qualifies(t, show_all, j),
    ensures
        qualifying_before(t, show_all, k).len() > 0,
    decreases k,
{
    if j < k - 1 {
        lemma_qualifying_nonempty(t, show_all, j, k - 1);
    }
}

proof fn lemma_entered_len(s: Seq<Step>)
    ensures
        entered(s).len() <= s.len(),
        left_count(s) >= 0,
    decreases s.len(),
{
    if s.len() > 0 {
        lemma_entered_len(s.drop_last());
    }
}

/// Walks `t` depth first without recursion, keeping only a cursor and a flag
/// that says whether the current node's children are still to be visited.
/// Only the nodes that qualify (named ones, or all with `show_all`) give
/// steps; every shown node but the first starts a new line.
#[verifier::rlimit(100)]
pub fn traversal_steps(t: &SyntaxTree, show_all: bool) -> (r: Vec<Step>)
    requires
        t.well_formed(),
    ensures
        entered(r@) == qualifying_before(t, show_all, t.len()),
        left_count(r@) == qualifying_before(t, show_all, t.len()).len(),
        forall|k: int| 0 <= k < r@.len() ==> step_in(t, #[trigger] r@[k]),
        well_shaped(r@),
        r@.len() <= 4 * t.len(),
{
    let mut cursor = TreeCursor::new(t);
    let mut out: Vec<Step> = Vec::new();
    let mut needs_visit_children = true;
    let mut needs_newline = false;
    proof {
        reveal(well_shaped);
    }
    loop
        invariant_except_break
            cursor.valid(t),
            entered(out@) == qualifying_before(
                t,
                show_all,
                if needs_visit_children {
                    cursor.current as int
                } else {
                    t.end_of(cursor.current as int)
                },
            ),
            left_count(out@) == qualifying_before(
                t,
                show_all,
                if needs_visit_children {
                    cursor.current as int
                } else {
                    t.end_of(cursor.current as int)
                },
            ).len() - qualifying_count(t, show_all, cursor.ancestors@) - if !needs_visit_children
                && qualifies(t, show_all, cursor.current as int) {
                1int
            } else {
                0
            },
        invariant
            t.well_formed(),
            forall|k: int| 0 <= k < out@.len() ==> step_in(t, #[trigger] out@[k]),
            well_shaped(out@),
            needs_newline == (out@.len() > 0),
            out@.len() <= 3 * entered(out@).len() + left_count(out@),
        ensures
            entered(out@) == qualifying_before(t, show_all, t.len()),
            left_count(out@) == qualifying_before(t, show_all, t.len()).len(),
            out@.len() <= 4 * t.len(),
        decreases 2 * t.len() - 2 * (if needs_visit_children {
            cursor.current as int
        } else {
            t.end_of(cursor.current as int)
        }) + cursor.ancestors@.len() + if needs_visit_children {
            0int
        } else {
            1
        },
    {
        let node = cursor.current;
        let level = cursor.depth();
        let shown = show_all || t.nodes[node].is_named;
        let ghost before = cursor;
        proof {
            t.lemma_end_bounds(node as int);
        }
        if needs_visit_children {
            if shown {
                proof {
                    lemma_shape_open(out@, node, level);
                }
                if needs_newline {
                    proof {
                        lemma_push_step(out@, Step::LineFeed);
                    }
                    out.push(Step::LineFeed);
                }
                needs_newline = true;
                proof {
                    lemma_push_step(out@, Step::Indent { node, indent_level: level });
                }
                out.push(Step::Indent { node, indent_level: level });
                proof {
                    lemma_push_step(out@, Step::Node { node, indent_level: level });
                }
                out.push(Step::Node { node, indent_level: level });
            }
            proof {
                lemma_qualifying_step(t, show_all, node as int, before.ancestors@);
            }
            if cursor.goto_first_child(t) {
            } else {
                needs_visit_children = false;
            }
        } else {
            if shown {
                proof {
                    lemma_push_step(out@, Step::AfterChildren { node });
                    lemma_qualifying_nonempty(t, show_all, node as int, t.end_of(node as int));
                    lemma_entered_len(out@);
                    lemma_shape_close(out@, node);
                }
                out.push(Step::AfterChildren { node });
            }
            if cursor.goto_next_sibling(t) {
                needs_visit_children = true;
            } else if cursor.goto_parent(t) {
                proof {
                    let a = before.ancestors@;
                    let p = a.last() as int;
                    assert(p < node < t.end_of(p));
                    t.lemma_nested(p, node as int);
                    lemma_qualifying_step(t, show_all, p, cursor.ancestors@);
                    assert(a =~= cursor.ancestors@.push(p as usize));
                }
            } else {
                proof {
                    lemma_qualifying_len(t, show_all, t.len());
                    lemma_entered_len(out@);
                }
                break;
            }
        }
    }
    out
}

proof fn lemma_qualifying_members(t: &SyntaxTree, show_all: bool, k: int)
    requires
        0 <= k <= usize::MAX,
    ensures
        forall|j: int|
            0 <= j <= usize::MAX ==> (#[trigger] qualifying_before(t, show_all, k).contains(
                j as usize,
            ) <==> (j < k && qualifies(t, show_all, j))),
    decreases k,
{
    if k > 0 {
        lemma_qualifying_members(t, show_all, k - 1);
        let p = qualifying_before(t, show_all, k - 1);
        assert forall|j: int| 0 <= j <= usize::MAX implies (#[trigger] qualifying_before(
            t,
            show_all,
            k,
        ).contains(j as usize) <==> (j < k && qualifies(t, show_all, j))) by {
            if qualifies(t, show_all, k - 1) {
                let q = p.push((k - 1) as usize);
                assert(q.contains(j as usize) <==> (p.contains(j as usize) || j == k - 1)) by {
                    if q.contains(j as usize) {
                        let w = choose|w: int| 0 <= w < q.len() && q[w] == j as usize;
                        if w < p.len() {
                            assert(p[w] == j as usize);
                        }
                    }
                    if p.contains(j as usize) {
                        let w = choose|w: int| 0 <= w < p.len() && p[w] == j as usize;
                        assert(q[w] == j as usize);
                    }
                    if j == k - 1 {
                        assert(q[p.len() as int] == j as usize);
                    }
                }
            }
        }
    }
}

/// Without `show_all`, the nodes that a walk enters (and leaves) are exactly
/// the named nodes of the tree.
pub proof fn law_walk_shows_named_nodes(t: &SyntaxTree, i: int)
    requires
        0 <= i < t.len(),
        t.len() <= usize::MAX,
    ensures
        qualifying_before(t, false, t.len()).contains(i as usize) <==> t.nodes@[i].is_named,
{
    lemma_qualifying_members(t, false, t.len());
}

} // verus!
