//! The borrowing traversal iterator: yields references to every item of a
//! tree, depth-first and pre-order, without recursion.

use vstd::prelude::*;
use crate::merkle_item::ItemModel;
use crate::merkle_item::MerkleItem;
use crate::merkle_node::MerkleNode;

verus! {

/// The items of a subtree in depth-first pre-order: a node's own item
/// first, then the items of each child subtree, children in their stored
/// (ascending) order.
pub open spec fn preorder(n: MerkleNode) -> Seq<ItemModel>
    decreases n, 0int,
{
    seq![n.item@] + preorder_from(n.children@, 0)
}

/// The pre-order items of the subtrees rooted at `ns[i..]`, concatenated.
pub open spec fn preorder_from(ns: Seq<MerkleNode>, i: int) -> Seq<ItemModel>
    decreases ns, ns.len() - i,
{
    if i < 0 || i >= ns.len() {
        Seq::empty()
    } else {
        preorder(ns[i]) + preorder_from(ns, i + 1)
    }
}

/// The pre-order items still pending on a borrowing cursor stack, top of
/// the stack first.
pub open spec fn preorder_stack(st: Seq<&MerkleNode>) -> Seq<ItemModel>
    decreases st.len(),
{
    if st.len() == 0 {
        Seq::empty()
    } else {
        preorder(*st.last()) + preorder_stack(st.drop_last())
    }
}

/// Node iterator: yields borrowed items of a tree in depth-first
/// pre-order.  The pending work is held on an explicit heap stack, so
/// traversal depth is bounded by memory, not by the call stack.
pub struct MerkleNodeIter<'a> {
    stack: Vec<&'a MerkleNode>,
}

impl<'a> MerkleNodeIter<'a> {
    /// The items the iterator has yet to yield, in order.
    pub closed spec fn remaining(self) -> Seq<ItemModel> {
        preorder_stack(self.stack@)
    }

    /// Starts a traversal over the subtree rooted at a node.
    pub fn new(node: &'a MerkleNode) -> (r: Self)
        ensures
            r.remaining() == preorder(*node),
    {
        let mut stack: Vec<&'a MerkleNode> = Vec::new();
        stack.push(node);
        proof {
            assert(stack@.drop_last() =~= Seq::<&MerkleNode>::empty());
            assert(preorder_stack(Seq::<&MerkleNode>::empty()) == Seq::<ItemModel>::empty());
            assert(preorder_stack(stack@) =~= preorder(*node));
        }
        Self { stack }
    }

    /// Yields the next pending item, or nothing once the traversal is
    /// exhausted; an exhausted iterator keeps yielding nothing.
    pub fn next(&mut self) -> (r: Option<&'a MerkleItem>)
        ensures
            old(self).remaining().len() == 0 ==> r is None && final(self).remaining()
                == old(self).remaining(),
            old(self).remaining().len() > 0 ==> (r matches Some(item) && item@
                == old(self).remaining()[0] && final(self).remaining() == old(self).remaining()
                .drop_first()),
    {
        let popped = self.stack.pop();
        match popped {
            None => {
                proof {
                    assert(self.remaining() =~= old(self).remaining());
                }
                None
            },
            Some(n) => {
                let ghost rest = self.stack@;
                let ghost children0 = n.children@;
                let mut j = n.children.len();
                proof {
                    assert(old(self).stack@.drop_last() =~= rest);
                    assert(old(self).remaining() =~= preorder(*n) + preorder_stack(rest));
                    assert(preorder_from(children0, j as int) =~= Seq::<ItemModel>::empty());
                }
                while j > 0
                    invariant
                        j <= children0.len(),
                        children0 == n.children@,
                        preorder_stack(self.stack@) =~= preorder_from(children0, j as int)
                            + preorder_stack(rest),
                    decreases j,
                {
                    j = j - 1;
                    let ghost st0 = self.stack@;
                    let c: &'a MerkleNode = &n.children[j];
                    self.stack.push(c);
                    proof {
                        assert(self.stack@.drop_last() =~= st0);
                        assert(preorder_stack(self.stack@) == preorder(*c) + preorder_stack(st0));
                        assert(preorder_from(children0, j as int) == preorder(
                            children0[j as int],
                        ) + preorder_from(children0, (j as int) + 1));
                        assert(preorder(*c) + (preorder_from(children0, (j as int) + 1)
                            + preorder_stack(rest)) =~= preorder_from(children0, j as int)
                            + preorder_stack(rest));
                    }
                }
                proof {
                    assert(old(self).remaining() =~= seq![n.item@] + (preorder_from(children0, 0)
                        + preorder_stack(rest)));
                    assert(self.remaining() =~= old(self).remaining().drop_first());
                }
                Some(&n.item)
            },
        }
    }
}

impl MerkleNode {
    /// Returns an iterator over each file and directory descendant of the
    /// current node, the node itself included and yielded first.
    pub fn iter(&self) -> (r: MerkleNodeIter<'_>)
        ensures
            r.remaining() == preorder(*self),
    {
        MerkleNodeIter::new(self)
    }
}

} // verus!
