//! A Treiber-style stack.
//!
//! On a multiprocessor the stack chains heap nodes from an atomic top
//! pointer and swings that pointer by compare-and-swap.  Here the stack
//! owns its nodes, chained by their stable allocation indices, and the
//! swing of the top is the update the winning compare-and-swap performs.

use vstd::prelude::*;

verus! {

struct Node<T> {
    val: T,
    next: Option<usize>,
}

/// A last-in, first-out stack of values.
pub struct Stack<T> {
    nodes: Vec<Node<T>>,
    top: Option<usize>,
}

impl<T> View for Stack<T> {
    type V = Seq<T>;

    /// The values on the stack, bottom first.
    closed spec fn view(&self) -> Seq<T> {
        self.nodes@.map_values(|n: Node<T>| n.val)
    }
}

impl<T> Stack<T> {
    /// The chain invariant: nodes stand in allocation order, each naming
    /// its predecessor, and the top names the newest node.
    pub closed spec fn wf(self) -> bool {
        &&& forall|i: int|
            0 <= i < self.nodes@.len() ==> (#[trigger] self.nodes@[i].next) == if i == 0 {
                None::<usize>
            } else {
                Some((i - 1) as usize)
            }
        &&& self.top == if self.nodes@.len() == 0 {
            None::<usize>
        } else {
            Some((self.nodes@.len() - 1) as usize)
        }
    }

    /// An empty stack.
    pub fn new() -> (r: Stack<T>)
        ensures
            r.wf(),
            r@.len() == 0,
    {
        let r = Stack { nodes: Vec::new(), top: None };
        proof {
            assert(r@ =~= Seq::<T>::empty());
        }
        r
    }

    /// Pushes a value: a fresh node naming the old top becomes the new top.
    pub fn push(&mut self, val: T)
        requires
            old(self).wf(),
        ensures
            final(self).wf(),
            final(self)@ == old(self)@.push(val),
    {
        let next = self.top;
        self.nodes.push(Node { val, next });
        self.top = Some(self.nodes.len() - 1);
        proof {
            assert(final(self)@ =~= old(self)@.push(val));
        }
    }

    /// Pops the newest value, or nothing from an empty stack.
    pub fn pop(&mut self) -> (r: Option<T>)
        requires
            old(self).wf(),
        ensures
            final(self).wf(),
            old(self)@.len() == 0 ==> r is None && *final(self) == *old(self),
            old(self)@.len() > 0 ==> (r matches Some(v) && v == old(self)@.last()
                && final(self)@ == old(self)@.drop_last()),
    {
        match self.top {
            None => None,
            Some(_) => {
                let node = self.nodes.pop().unwrap();
                self.top = node.next;
                proof {
                    assert(final(self)@ =~= old(self)@.drop_last());
                }
                Some(node.val)
            },
        }
    }
}

} // verus!
