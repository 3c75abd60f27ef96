use vstd::prelude::*;

use crate::render::{decimal, push_decimal};
use crate::tree::{NodeInfo, SyntaxTree, TreeCursor};

verus! {

/// The scan from node `i`, whose siblings end before `bound`: a node with an
/// error below it is reported if it is itself an error or missing, else the
/// scan goes on at its first child; a node without one hands over to its next
/// sibling. The scan never climbs back to a parent.
pub open spec fn first_error_from(t: &SyntaxTree, i: int, bound: int) -> Option<usize>
    decreases t.len() - i,
{
    if i < 0 || i >= t.len() {
        None
    } else if t.nodes@[i].has_error {
        if t.nodes@[i].is_error || t.nodes@[i].is_missing {
            Some(i as usize)
        } else if i + 1 < t.end_of(i) {
            first_error_from(t, i + 1, t.end_of(i))
        } else {
            None
        }
    } else if i < t.end_of(i) < bound <= t.len() {
        first_error_from(t, t.end_of(i), bound)
    } else {
        None
    }
}

/// The node that the error scan from the root reports.
pub open spec fn first_error(t: &SyntaxTree) -> Option<usize> {
    first_error_from(t, 0, t.len())
}

/// Where the siblings of the cursor's node end.
pub open spec fn sibling_bound(t: &SyntaxTree, c: TreeCursor) -> int {
    if c.ancestors@.len() == 0 {
        t.len()
    } else {
        t.end_of(c.ancestors@.last() as int)
    }
}

/// Finds one node that carries a parse error, by the scan that
/// `first_error` describes.
pub fn find_first_error(t: &SyntaxTree) -> (r: Option<usize>)
    requires
        t.well_formed(),
    ensures
        r == first_error(t),
{
    let mut cursor = TreeCursor::new(t);
    loop
        invariant
            t.well_formed(),
            cursor.valid(t),
            first_error_from(t, cursor.current as int, sibling_bound(t, cursor)) == first_error(t),
        decreases t.len() - cursor.current,
    {
        let i = cursor.current;
        let node = &t.nodes[i];
        if node.has_error {
            if node.is_error || node.is_missing {
                return Some(i);
            }
            if !cursor.goto_first_child(t) {
                return None;
            }
            proof {
                assert(cursor.ancestors@.last() == i);
            }
        } else {
            proof {
                t.lemma_end_bounds(i as int);
                if cursor.ancestors@.len() > 0 {
                    t.lemma_end_bounds(cursor.ancestors@.last() as int);
                }
            }
            if !cursor.goto_next_sibling(t) {
                return None;
            }
        }
    }
}

/// The chain of first children from the root down to `k`: each node on it
/// above `k` has an error below it, is not itself an error or missing, and
/// has the next one as its first child.
pub open spec fn error_chain_to(t: &SyntaxTree, k: int) -> bool {
    forall|j: int|
        0 <= j < k ==> {
            &&& #[trigger] t.nodes@[j].has_error
            &&& !t.nodes@[j].is_error
            &&& !t.nodes@[j].is_missing
            &&& j + 1 < t.end_of(j)
        }
}

proof fn lemma_chain_reaches(t: &SyntaxTree, k: int, j: int, bound: int)
    requires
        t.well_formed(),
        0 <= j <= k < t.len(),
        error_chain_to(t, k),
    ensures
        first_error_from(t, j, bound) == first_error_from(t, k, t.end_of(k - 1)) || j == k,
    decreases k - j,
{
    if j < k {
        assert(t.nodes@[j].has_error);
        if j + 1 < k {
            lemma_chain_reaches(t, k, j + 1, t.end_of(j));
        }
    }
}

/// Along the chain every later bound is the end of the node above.
proof fn lemma_chain_result(t: &SyntaxTree, k: int)
    requires
        t.well_formed(),
        0 <= k < t.len(),
        error_chain_to(t, k),
    ensures
        k == 0 ==> first_error(t) == first_error_from(t, 0, t.len()),
        k > 0 ==> first_error(t) == first_error_from(t, k, t.end_of(k - 1)),
{
    if k > 0 {
        lemma_chain_reaches(t, k, 0, t.len());
    }
}

/// An error or missing node reached from the root through first children
/// whose subtrees hold errors is the one reported.
pub proof fn law_error_on_first_child_chain(t: &SyntaxTree, k: int)
    requires
        t.well_formed(),
        0 <= k < t.len(),
        error_chain_to(t, k),
        t.nodes@[k].has_error,
        t.nodes@[k].is_error || t.nodes@[k].is_missing,
    ensures
        first_error(t) == Some(k as usize),
{
    lemma_chain_result(t, k);
}

proof fn lemma_clean_siblings(t: &SyntaxTree, k: int, c: int)
    requires
        t.well_formed(),
        0 <= k < c < t.end_of(k),
        k < t.len(),
        forall|d: int| k < d < t.end_of(k) ==> !(#[trigger] t.nodes@[d].has_error),
    ensures
        first_error_from(t, c, t.end_of(k)) is None,
    decreases t.len() - c,
{
    t.lemma_end_bounds(k);
    t.lemma_end_bounds(c);
    t.lemma_nested(k, c);
    assert(!t.nodes@[c].has_error);
    if t.end_of(c) < t.end_of(k) {
        lemma_clean_siblings(t, k, t.end_of(c));
    }
}

/// The scan does not climb back: once it descends into node `k`, whose
/// subtree below it holds no error flag, nothing is reported, even where a
/// later sibling of `k` or of one of its ancestors is an error.
pub proof fn law_no_return_to_parent(t: &SyntaxTree, k: int)
    requires
        t.well_formed(),
        0 <= k < t.len(),
        error_chain_to(t, k),
        t.nodes@[k].has_error,
        !t.nodes@[k].is_error,
        !t.nodes@[k].is_missing,
        forall|d: int| k < d < t.end_of(k) ==> !(#[trigger] t.nodes@[d].has_error),
    ensures
        first_error(t) is None,
{
    lemma_chain_result(t, k);
    if k + 1 < t.end_of(k) {
        lemma_clean_siblings(t, k, k + 1);
    }
}

/// A kind with each newline written as `\n`.
pub open spec fn newlines_escaped(s: Seq<char>) -> Seq<char>
    decreases s.len(),
{
    if s.len() == 0 {
        Seq::empty()
    } else {
        newlines_escaped(s.drop_last()) + if s.last() == '\n' {
            "\\n"@
        } else {
            seq![s.last()]
        }
    }
}

/// How a reported node is described: `MISSING` before a missing one (its
/// kind quoted when unnamed), then its range.
pub open spec fn error_text(n: NodeInfo) -> Seq<char> {
    "("@ + (if n.is_missing {
        if n.is_named {
            "MISSING "@ + n.kind@
        } else {
            "MISSING \""@ + newlines_escaped(n.kind@) + "\""@
        }
    } else {
        n.kind@
    }) + " ["@ + decimal(n.start_position.row as nat) + ", "@ + decimal(
        n.start_position.column as nat,
    ) + "] - ["@ + decimal(n.end_position.row as nat) + ", "@ + decimal(
        n.end_position.column as nat,
    ) + "])"@
}

/// Describes a node that the error scan reported.
pub fn describe_error(n: &NodeInfo) -> (r: String)
    ensures
        r@ == error_text(*n),
{
    let mut r = String::new();
    r.append("(");
    if n.is_missing {
        if n.is_named {
            r.append("MISSING ");
            r.append(n.kind.as_str());
        } else {
            r.append("MISSING \"");
            let k = n.kind.as_str();
            let len = k.unicode_len();
            let mut i: usize = 0;
            let ghost start = r@;
            while i < len
                invariant
                    i <= len == k@.len(),
                    r@ == start + newlines_escaped(k@.take(i as int)),
                decreases len - i,
            {
                let c = k.get_char(i);
                if c == '\n' {
                    r.append("\\n");
                } else {
                    r.append(k.substring_char(i, i + 1));
                }
                proof {
                    assert(k@.take(i as int + 1).drop_last() =~= k@.take(i as int));
                    assert(k@.subrange(i as int, i as int + 1) =~= seq![c]);
                    assert(r@ =~= start + newlines_escaped(k@.take(i as int + 1)));
                }
                i = i + 1;
            }
            proof {
                assert(k@.take(len as int) =~= k@);
            }
            r.append("\"");
        }
    } else {
        r.append(n.kind.as_str());
    }
    r.append(" [");
    push_decimal(&mut r, n.start_position.row);
    r.append(", ");
    push_decimal(&mut r, n.start_position.column);
    r.append("] - [");
    push_decimal(&mut r, n.end_position.row);
    r.append(", ");
    push_decimal(&mut r, n.end_position.column);
    r.append("])");
    assert(r@ =~= error_text(*n));
    r
}

} // verus!
