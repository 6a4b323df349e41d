//! The consuming traversal iterator: destroys a tree as it yields every
//! item in depth-first pre-order, without recursion.

use vstd::prelude::*;
use crate::merkle_item::ItemModel;
use crate::merkle_item::MerkleItem;
use crate::merkle_node::MerkleNode;
use crate::merkle_node_iter::preorder;
use crate::merkle_node_iter::preorder_from;

verus! {

/// The pre-order items still pending on an owning cursor stack, top of
/// the stack first.
pub open spec fn preorder_stack_owned(st: Seq<MerkleNode>) -> Seq<ItemModel>
    decreases st.len(),
{
    if st.len() == 0 {
        Seq::empty()
    } else {
        preorder(st.last()) + preorder_stack_owned(st.drop_last())
    }
}

/// Owned node iterator: consumes a tree and yields its items in
/// depth-first pre-order.  The pending work is held on an explicit heap
/// stack, so traversal depth is bounded by memory, not by the call stack.
pub struct MerkleNodeIntoIter {
    stack: Vec<MerkleNode>,
}

impl MerkleNodeIntoIter {
    /// The items the iterator has yet to yield, in order.
    pub closed spec fn remaining(self) -> Seq<ItemModel> {
        preorder_stack_owned(self.stack@)
    }

    /// Starts a consuming traversal over the subtree rooted at a node.
    pub fn new(node: MerkleNode) -> (r: Self)
        ensures
            r.remaining() == preorder(node),
    {
        let mut stack: Vec<MerkleNode> = Vec::new();
        let ghost node0 = node;
        stack.push(node);
        proof {
            assert(stack@.drop_last() =~= Seq::<MerkleNode>::empty());
            assert(preorder_stack_owned(Seq::<MerkleNode>::empty()) == Seq::<ItemModel>::empty());
            assert(preorder_stack_owned(stack@) =~= preorder(node0));
        }
        Self { stack }
    }

    /// Yields the next pending item, or nothing once the traversal is
    /// exhausted; an exhausted iterator keeps yielding nothing.
    pub fn next(&mut self) -> (r: Option<MerkleItem>)
        ensures
            old(self).remaining().len() == 0 ==> r is None && final(self).remaining()
                == old(self).remaining(),
            old(self).remaining().len() > 0 ==> (r matches Some(item) && item@
                == old(self).remaining()[0] && final(self).remaining() == old(self).remaining()
                .drop_first()),
    {
        let popped = self.stack.pop();
        match popped {
            None => {
                proof {
                    assert(self.remaining() =~= old(self).remaining());
                }
                None
            },
            Some(n) => {
                let ghost n0 = n;
                let ghost rest = self.stack@;
                let MerkleNode { item, children } = n;
                let mut children = children;
                let ghost children0 = children@;
                proof {
                    assert(old(self).stack@.drop_last() =~= rest);
                    assert(old(self).remaining() =~= preorder(n0) + preorder_stack_owned(rest));
                    assert(preorder_from(children0, children0.len() as int) =~= Seq::<
                        ItemModel,
                    >::empty());
                }
                while children.len() > 0
                    invariant
                        children@.len() <= children0.len(),
                        children@ =~= children0.take(children@.len() as int),
                        preorder_stack_owned(self.stack@) =~= preorder_from(
                            children0,
                            children@.len() as int,
                        ) + preorder_stack_owned(rest),
                    decreases children@.len(),
                {
                    let ghost j: int = children@.len() - 1;
                    let c = children.pop().unwrap();
                    let ghost st0 = self.stack@;
                    self.stack.push(c);
                    proof {
                        assert(c == children0[j]);
                        assert(self.stack@.drop_last() =~= st0);
                        assert(preorder_stack_owned(self.stack@) == preorder(c)
                            + preorder_stack_owned(st0));
                        assert(preorder_from(children0, j) == preorder(children0[j])
                            + preorder_from(children0, j + 1));
                        assert(preorder(c) + (preorder_from(children0, j + 1)
                            + preorder_stack_owned(rest)) =~= preorder_from(children0, j)
                            + preorder_stack_owned(rest));
                        assert(children@ =~= children0.take(children@.len() as int));
                    }
                }
                proof {
                    assert(old(self).remaining() =~= seq![n0.item@] + (preorder_from(children0, 0)
                        + preorder_stack_owned(rest)));
                    assert(self.remaining() =~= old(self).remaining().drop_first());
                }
                Some(item)
            },
        }
    }
}

impl MerkleNode {
    /// Consumes the node and returns an iterator over every item of its
    /// subtree, the node's own item yielded first.
    pub fn into_iter(self) -> (r: MerkleNodeIntoIter)
        ensures
            r.remaining() == preorder(self),
    {
        MerkleNodeIntoIter::new(self)
    }
}

} // verus!
