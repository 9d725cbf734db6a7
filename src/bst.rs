//! A binary search tree of distinct `u32` values.
use vstd::prelude::*;

verus! {

pub struct Node {
    val: u32,
    left: Option<Box<Node>>,
    right: Option<Box<Node>>,
}

impl Node {
    /// The values held by the tree rooted here.
    pub closed spec fn values(&self) -> Set<u32>
        decreases self,
    {
        Node::subtree_values(self.left).union(Node::subtree_values(self.right)).insert(self.val)
    }

    pub closed spec fn subtree_values(t: Option<Box<Node>>) -> Set<u32>
        decreases t,
    {
        match t {
            None => Set::empty(),
            Some(n) => n.values(),
        }
    }

    /// The values in in-order traversal order: left subtree, this value, right subtree.
    pub closed spec fn in_order_values(&self) -> Seq<u32>
        decreases self,
    {
        Node::subtree_in_order(self.left).push(self.val) + Node::subtree_in_order(self.right)
    }

    pub closed spec fn subtree_in_order(t: Option<Box<Node>>) -> Seq<u32>
        decreases t,
    {
        match t {
            None => Seq::empty(),
            Some(n) => n.in_order_values(),
        }
    }

    /// Smaller values lie to the left, larger ones to the right, at every node.
    pub closed spec fn ordered(&self) -> bool
        decreases self,
    {
        &&& forall|v: u32| Node::subtree_values(self.left).contains(v) ==> v < self.val
        &&& forall|v: u32| Node::subtree_values(self.right).contains(v) ==> v > self.val
        &&& Node::subtree_ordered(self.left)
        &&& Node::subtree_ordered(self.right)
    }

    pub closed spec fn subtree_ordered(t: Option<Box<Node>>) -> bool
        decreases t,
    {
        match t {
            None => true,
            Some(n) => n.ordered(),
        }
    }

    /// A tree holding `newval` alone.
    pub fn new(newval: u32) -> (r: Box<Node>)
        ensures
            r.ordered(),
            r.values() == set![newval],
    {
        let r = Box::new(Node { val: newval, left: None, right: None });
        proof {
            assert(r.values() =~= set![newval]);
        }
        r
    }

    fn add_to_subtree(t: &mut Option<Box<Node>>, newval: u32) -> (r: bool)
        requires
            Node::subtree_ordered(*old(t)),
        ensures
            Node::subtree_ordered(*final(t)),
            Node::subtree_values(*final(t)) == Node::subtree_values(*old(t)).insert(newval),
            r == !Node::subtree_values(*old(t)).contains(newval),
        decreases *old(t),
    {
        match t.take() {
            None => {
                *t = Some(Node::new(newval));
                true
            },
            Some(mut n) => {
                let r = n.add(newval);
                *t = Some(n);
                r
            },
        }
    }

    /// Adds `newval`; returns whether it was not already in the tree.
    pub fn add(&mut self, newval: u32) -> (r: bool)
        requires
            old(self).ordered(),
        ensures
            final(self).ordered(),
            final(self).values() == old(self).values().insert(newval),
            r == !old(self).values().contains(newval),
        decreases *old(self),
    {
        if newval == self.val {
            proof {
                assert(self.values().insert(newval) =~= self.values());
            }
            false
        } else if newval < self.val {
            assert(!Node::subtree_values(self.right).contains(newval));
            let r = Node::add_to_subtree(&mut self.left, newval);
            proof {
                assert(self.values() =~= old(self).values().insert(newval));
            }
            r
        } else {
            assert(!Node::subtree_values(self.left).contains(newval));
            let r = Node::add_to_subtree(&mut self.right, newval);
            proof {
                assert(self.values() =~= old(self).values().insert(newval));
            }
            r
        }
    }

    fn subtree_contains(t: &Option<Box<Node>>, val: u32) -> (r: bool)
        requires
            Node::subtree_ordered(*t),
        ensures
            r == Node::subtree_values(*t).contains(val),
        decreases *t,
    {
        match t {
            None => false,
            Some(n) => n.contains(val),
        }
    }

    /// Whether `val` is in the tree.
    pub fn contains(&self, val: u32) -> (r: bool)
        requires
            self.ordered(),
        ensures
            r == self.values().contains(val),
        decreases *self,
    {
        if val == self.val {
            true
        } else if val < self.val {
            assert(!Node::subtree_values(self.right).contains(val));
            Node::subtree_contains(&self.left, val)
        } else {
            assert(!Node::subtree_values(self.left).contains(val));
            Node::subtree_contains(&self.right, val)
        }
    }

    fn collect_subtree(t: &Option<Box<Node>>, out: &mut Vec<u32>)
        ensures
            final(out)@ == old(out)@ + Node::subtree_in_order(*t),
        decreases *t,
    {
        match t {
            None => {
                assert(old(out)@ + Seq::<u32>::empty() =~= old(out)@);
            },
            Some(n) => n.collect(out),
        }
    }

    fn collect(&self, out: &mut Vec<u32>)
        ensures
            final(out)@ == old(out)@ + self.in_order_values(),
        decreases *self,
    {
        Node::collect_subtree(&self.left, out);
        out.push(self.val);
        Node::collect_subtree(&self.right, out);
        assert(final(out)@ =~= old(out)@ + self.in_order_values());
    }

    /// The values of the tree in in-order traversal order (ascending, for an ordered tree).
    pub fn in_order(&self) -> (r: Vec<u32>)
        ensures
            r@ == self.in_order_values(),
    {
        let mut out: Vec<u32> = Vec::new();
        self.collect(&mut out);
        assert(out@ =~= self.in_order_values());
        out
    }
}

} // verus!
