use vstd::prelude::*;

use crate::position::Point;

verus! {

/// One node of a parse tree, as the walks read it.
#[derive(Clone, Debug)]
pub struct NodeInfo {
    pub kind: String,
    pub is_named: bool,
    /// The node's role in its parent, if the grammar gives it one.
    pub field_name: Option<String>,
    pub start_byte: usize,
    pub end_byte: usize,
    pub start_position: Point,
    pub end_position: Point,
    /// Some node of the subtree, this one included, is an error or missing.
    pub has_error: bool,
    pub is_error: bool,
    pub is_missing: bool,
    /// One past the preorder index of the last node of this node's subtree.
    pub subtree_end: usize,
}

/// A parse tree with its nodes in preorder: node 0 is the root, a node's
/// first child directly follows it, and its next sibling starts where its
/// subtree ends.
#[derive(Clone, Debug)]
pub struct SyntaxTree {
    pub nodes: Vec<NodeInfo>,
}

impl SyntaxTree {
    pub open spec fn len(&self) -> int {
        self.nodes@.len() as int
    }

    pub open spec fn end_of(&self, i: int) -> int {
        self.nodes@[i].subtree_end as int
    }

    pub open spec fn well_formed(&self) -> bool {
        &&& self.len() > 0
        &&& self.end_of(0) == self.len()
        &&& self.subtrees_nest()
    }

    /// Each subtree ends after its root and within the tree, and lies inside
    /// the subtree of every node whose subtree it starts in.
    #[verifier::opaque]
    pub open spec fn subtrees_nest(&self) -> bool {
        &&& forall|i: int| 0 <= i < self.len() ==> i < #[trigger] self.end_of(i) <= self.len()
        &&& forall|i: int, j: int|
            0 <= i < j < self.end_of(i) ==> #[trigger] self.end_of(j) <= #[trigger] self.end_of(i)
    }

    pub proof fn lemma_end_bounds(&self, i: int)
        requires
            self.well_formed(),
            0 <= i < self.len(),
        ensures
            i < self.end_of(i) <= self.len(),
    {
        reveal(SyntaxTree::subtrees_nest);
    }

    pub proof fn lemma_nested(&self, i: int, j: int)
        requires
            self.well_formed(),
            0 <= i < j < self.end_of(i),
        ensures
            self.end_of(j) <= self.end_of(i),
    {
        reveal(SyntaxTree::subtrees_nest);
    }
}

/// Some child of a node, from the one at `c` on through next siblings up to
/// `bound`, is named.
pub open spec fn named_child_from(t: &SyntaxTree, c: int, bound: int) -> bool
    decreases t.len() - c,
{
    if c < 0 || c >= bound || c >= t.len() {
        false
    } else if t.nodes@[c].is_named {
        true
    } else if c < t.end_of(c) <= t.len() {
        named_child_from(t, t.end_of(c), bound)
    } else {
        false
    }
}

/// Node `i` has a named child.
pub open spec fn has_named_child(t: &SyntaxTree, i: int) -> bool {
    named_child_from(t, i + 1, t.end_of(i))
}

impl SyntaxTree {
    /// Whether node `i` has a named child.
    pub fn node_has_named_child(&self, i: usize) -> (r: bool)
        requires
            self.well_formed(),
            i < self.len(),
        ensures
            r == has_named_child(self, i as int),
    {
        proof {
            self.lemma_end_bounds(i as int);
        }
        let bound = self.nodes[i].subtree_end;
        let mut c = i + 1;
        while c < bound
            invariant
                self.well_formed(),
                i < c <= self.len(),
                bound == self.end_of(i as int) <= self.len(),
                named_child_from(self, c as int, bound as int) == has_named_child(self, i as int),
            decreases self.len() - c,
        {
            if self.nodes[c].is_named {
                return true;
            }
            proof {
                self.lemma_end_bounds(c as int);
            }
            c = self.nodes[c].subtree_end;
        }
        false
    }
}

/// A position in a tree: the node it stands on and the path of ancestors
/// from the root down to that node's parent.
pub struct TreeCursor {
    pub ancestors: Vec<usize>,
    pub current: usize,
}

/// Each node of the path lies strictly inside the subtree of the one before,
/// and the path starts at the root.
pub open spec fn path_ok(t: &SyntaxTree, ancestors: Seq<usize>, current: int) -> bool {
    &&& 0 <= current < t.len()
    &&& ancestors.len() == 0 ==> current == 0
    &&& ancestors.len() > 0 ==> ancestors[0] == 0
    &&& forall|k: int|
        0 <= k < ancestors.len() ==> {
            let next = if k + 1 < ancestors.len() {
                ancestors[k + 1] as int
            } else {
                current
            };
            ancestors[k] < next < t.end_of(#[trigger] ancestors[k] as int)
        }
}

impl TreeCursor {
    pub open spec fn valid(&self, t: &SyntaxTree) -> bool {
        path_ok(t, self.ancestors@, self.current as int)
    }

    /// A cursor on the root of `t`.
    pub fn new(t: &SyntaxTree) -> (r: TreeCursor)
        requires
            t.well_formed(),
        ensures
            r.valid(t),
            r.current == 0,
            r.ancestors@.len() == 0,
    {
        TreeCursor { ancestors: Vec::new(), current: 0 }
    }

    pub fn depth(&self) -> (r: usize)
        ensures
            r == self.ancestors@.len(),
    {
        self.ancestors.len()
    }

    /// Moves to the first child, if the current node has one.
    pub fn goto_first_child(&mut self, t: &SyntaxTree) -> (moved: bool)
        requires
            t.well_formed(),
            old(self).valid(t),
        ensures
            final(self).valid(t),
            moved == (old(self).current + 1 < t.end_of(old(self).current as int)),
            moved ==> final(self).current == old(self).current + 1 && final(self).ancestors@
                == old(self).ancestors@.push(old(self).current),
            !moved ==> *final(self) == *old(self),
    {
        let c = self.current;
        proof {
            t.lemma_end_bounds(c as int);
        }
        if c + 1 < t.nodes[c].subtree_end {
            self.ancestors.push(c);
            self.current = c + 1;
            proof {
                let a = self.ancestors@;
                assert forall|k: int| 0 <= k < a.len() implies {
                    let next = if k + 1 < a.len() {
                        a[k + 1] as int
                    } else {
                        self.current as int
                    };
                    a[k] < next < t.end_of(#[trigger] a[k] as int)
                } by {
                    if k + 1 < a.len() {
                        assert(a[k] == old(self).ancestors@[k]);
                        assert(a[k + 1] == (if k + 1 < old(self).ancestors@.len() {
                            old(self).ancestors@[k + 1]
                        } else {
                            c
                        }));
                    }
                }
            }
            true
        } else {
            false
        }
    }

    /// Moves to the next sibling, if the current node has one.
    #[verifier::rlimit(30)]
    pub fn goto_next_sibling(&mut self, t: &SyntaxTree) -> (moved: bool)
        requires
            t.well_formed(),
            old(self).valid(t),
        ensures
            final(self).valid(t),
            moved == (old(self).ancestors@.len() > 0 && t.end_of(old(self).current as int)
                < t.end_of(old(self).ancestors@.last() as int)),
            moved ==> final(self).current == t.end_of(old(self).current as int)
                && final(self).ancestors@ == old(self).ancestors@,
            !moved ==> *final(self) == *old(self),
    {
        let n = self.ancestors.len();
        if n == 0 {
            return false;
        }
        let parent = self.ancestors[n - 1];
        let next = t.nodes[self.current].subtree_end;
        if next < t.nodes[parent].subtree_end {
            proof {
                t.lemma_end_bounds(parent as int);
                t.lemma_end_bounds(self.current as int);
            }
            self.current = next;
            proof {
                let a = self.ancestors@;
                assert forall|k: int| 0 <= k < a.len() implies {
                    let nx = if k + 1 < a.len() {
                        a[k + 1] as int
                    } else {
                        self.current as int
                    };
                    a[k] < nx < t.end_of(#[trigger] a[k] as int)
                } by {
                    if k + 1 == a.len() {
                        assert(a[k] < old(self).current);
                    }
                }
            }
            true
        } else {
            false
        }
    }

    /// Moves to the parent, unless the cursor stands on the root.
    pub fn goto_parent(&mut self, t: &SyntaxTree) -> (moved: bool)
        requires
            t.well_formed(),
            old(self).valid(t),
        ensures
            final(self).valid(t),
            moved == (old(self).ancestors@.len() > 0),
            moved ==> final(self).current == old(self).ancestors@.last()
                && final(self).ancestors@ == old(self).ancestors@.drop_last(),
            !moved ==> *final(self) == *old(self),
    {
        if self.ancestors.len() == 0 {
            return false;
        }
        match self.ancestors.pop() {
            Some(p) => {
                self.current = p;
                proof {
                    let a = self.ancestors@;
                    assert forall|k: int| 0 <= k < a.len() implies {
                        let nx = if k + 1 < a.len() {
                            a[k + 1] as int
                        } else {
                            self.current as int
                        };
                        a[k] < nx < t.end_of(#[trigger] a[k] as int)
                    } by {
                        assert(a[k] == old(self).ancestors@[k]);
                        assert(old(self).ancestors@[k + 1] == (if k + 1 < a.len() {
                            a[k + 1]
                        } else {
                            p
                        }));
                    }
                    let k = old(self).ancestors@.len() - 1;
                    assert(old(self).ancestors@[k] < t.end_of(old(self).ancestors@[k] as int));
                }
                true
            },
            None => false,
        }
    }
}

} // verus!
