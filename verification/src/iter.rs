//! A lazy, forward-only traversal of one subtree in document order,
//! re-validating tree liveness at every step.

use vstd::prelude::*;

use crate::dom::NodeData;
use crate::dom::in_subtree;
use crate::dom::tree_wf;
use crate::tree::DOMNode;
use crate::tree::TreeRef;
use crate::tree::tree_of;

verus! {

/// The first index at `from` or later that lies in the subtree of `root`.
pub open spec fn next_descendant(t: Seq<NodeData>, root: int, from: int) -> Option<usize>
    decreases t.len() - from,
{
    if from < 0 || from >= t.len() {
        None
    } else if in_subtree(t, from, root) {
        Some(from as usize)
    } else {
        next_descendant(t, root, from + 1)
    }
}

/// A restartable-once, owned traversal over the subtree of `root`: the
/// root first, then every descendant in document order.  Exhaustion on a
/// released tree is immediate.
pub struct NodeIter {
    pub tree: TreeRef,
    pub root: usize,
    pub cur: usize,
    pub started: bool,
}

impl NodeIter {
    /// The document this iterator walks.
    pub open spec fn dom(self) -> Seq<NodeData> {
        tree_of(self.tree)
    }

    /// The iterator designates real nodes of a well-formed document.
    pub open spec fn wf(self) -> bool {
        &&& tree_wf(self.dom())
        &&& self.root < self.dom().len()
        &&& self.cur < self.dom().len()
    }

    /// A traversal of the subtree rooted at `node`.
    pub fn of(node: &DOMNode) -> (r: NodeIter)
        requires
            node.wf(),
        ensures
            r.wf(),
            r.dom() == node.dom(),
            r.root == node.node,
            !r.started,
    {
        NodeIter { tree: node.tree.dup(), root: node.node, cur: node.node, started: false }
    }

    /// The next node of the traversal: the root on the first call, then
    /// the following node of the subtree in document order; `None` once
    /// exhausted or when the tree has been released.
    pub fn next(&mut self) -> (r: Option<DOMNode>)
        requires
            old(self).wf(),
        ensures
            final(self).wf(),
            final(self).dom() == old(self).dom(),
            final(self).root == old(self).root,
            r matches Some(h) ==> h.wf() && h.dom() == old(self).dom() && ({
                if !old(self).started {
                    h.node == old(self).root && final(self).started
                } else {
                    next_descendant(old(self).dom(), old(self).root as int, old(self).cur + 1)
                        == Some(h.node) && final(self).cur == h.node
                }
            }),
    {
        let rc = match self.tree.upgrade() {
            Some(rc) => rc,
            None => {
                return None;
            },
        };
        if !self.started {
            self.started = true;
            self.cur = self.root;
            return Some(DOMNode { tree: self.tree.dup(), node: self.root });
        }
        let n = rc.nodes.len();
        let mut i = self.cur + 1;
        while i < n
            invariant
                *self == *old(self),
                old(self).started,
                tree_wf(self.dom()),
                rc@ == self.dom(),
                n == self.dom().len(),
                self.root < n,
                old(self).cur + 1 <= i,
                next_descendant(self.dom(), self.root as int, old(self).cur + 1)
                    == next_descendant(self.dom(), self.root as int, i as int),
            decreases n - i,
        {
            if rc.is_in_subtree(i, self.root) {
                proof {
                    assert(in_subtree(self.dom(), i as int, self.root as int));
                    assert(next_descendant(self.dom(), self.root as int, i as int) == Some(i));
                }
                self.cur = i;
                return Some(DOMNode { tree: self.tree.dup(), node: i });
            }
            i = i + 1;
        }
        None
    }
}

} // verus!
