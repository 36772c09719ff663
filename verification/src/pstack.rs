//! A persistent stack: pushing and popping return new stacks that share
//! their tails with the old ones.

use std::rc::Rc;
use vstd::prelude::*;

verus! {

/// One link of the stack.
pub struct Node<T> {
    value: Rc<T>,
    next: Option<Rc<Node<T>>>,
}

/// A persistent stack of `T`. Its view is the sequence of values from the
/// bottom up: the last element is the top.
pub struct PStack<T> {
    head: Option<Rc<Node<T>>>,
    size: usize,
}

/// A shared handle to the same chain of links.
fn clone_link<T>(link: &Option<Rc<Node<T>>>) -> (r: Option<Rc<Node<T>>>)
    ensures
        r == *link,
{
    match link {
        None => None,
        Some(rc) => Some(rc.clone()),
    }
}

/// The values hanging off a chain of links, bottom of the stack first.
pub closed spec fn node_seq<T>(n: Option<Rc<Node<T>>>) -> Seq<T>
    decreases n,
{
    match n {
        None => Seq::empty(),
        Some(node) => node_seq(node.next).push(*node.value),
    }
}

impl<T> View for PStack<T> {
    type V = Seq<T>;

    closed spec fn view(&self) -> Seq<T> {
        node_seq(self.head)
    }
}

impl<T> Clone for PStack<T> {
    /// A clone shares the whole chain and holds the same values.
    fn clone(&self) -> (r: Self)
        ensures
            r@ == self@,
    {
        proof {
            use_type_invariant(self);
        }
        PStack { head: clone_link(&self.head), size: self.size }
    }
}

impl<T> PStack<T> {
    #[verifier::type_invariant]
    pub closed spec fn type_inv(self) -> bool {
        self.size == node_seq(self.head).len()
    }

    /// An empty stack.
    pub fn new() -> (r: Self)
        ensures
            r@ == Seq::<T>::empty(),
    {
        PStack { head: None, size: 0 }
    }

    /// A new stack with `value` on top; the old stack is untouched.
    pub fn push(&self, value: T) -> (r: Self)
        requires
            self@.len() < usize::MAX,
        ensures
            r@ == self@.push(value),
    {
        proof {
            use_type_invariant(self);
        }
        PStack {
            head: Some(Rc::new(Node { value: Rc::new(value), next: clone_link(&self.head) })),
            size: self.size + 1,
        }
    }

    /// The top value and the stack below it; `None` on an empty stack.
    pub fn pop(&self) -> (r: Option<(Rc<T>, Self)>)
        ensures
            self@.len() == 0 ==> r is None,
            self@.len() > 0 ==> (r matches Some((v, rest)) && *v == self@.last() && rest@ == self@
                .drop_last()),
    {
        proof {
            use_type_invariant(self);
        }
        match &self.head {
            None => None,
            Some(node) => {
                let rest = PStack { head: clone_link(&node.next), size: self.size - 1 };
                proof {
                    assert(self@.drop_last() =~= node_seq(node.next));
                }
                Some((node.value.clone(), rest))
            },
        }
    }

    /// How many values are on the stack.
    pub fn len(&self) -> (r: usize)
        ensures
            r == self@.len(),
    {
        proof {
            use_type_invariant(self);
        }
        self.size
    }

    /// Whether the stack holds no value.
    pub fn is_empty(&self) -> (r: bool)
        ensures
            r == (self@.len() == 0),
    {
        proof {
            use_type_invariant(self);
        }
        self.head.is_none()
    }

    /// The values from the top down, each shared with the stack.
    pub fn iter(&self) -> (r: Vec<Rc<T>>)
        ensures
            r@.len() == self@.len(),
            forall|i: int| 0 <= i < r@.len() ==> *#[trigger] r@[i] == self@[self@.len() - 1 - i],
    {
        proof {
            use_type_invariant(self);
        }
        let mut out: Vec<Rc<T>> = Vec::new();
        let mut current: &Option<Rc<Node<T>>> = &self.head;
        let ghost total = self@.len() as int;
        while current.is_some()
            invariant
                total == self@.len(),
                out@.len() + node_seq(*current).len() == total,
                node_seq(*current) == self@.subrange(0, total - out@.len()),
                forall|i: int| 0 <= i < out@.len() ==> *#[trigger] out@[i] == self@[total - 1 - i],
            decreases node_seq(*current).len(),
        {
            let node = current.as_ref().unwrap();
            out.push(node.value.clone());
            proof {
                assert(node_seq(*current).last() == self@[total - 1 - (out@.len() - 1)]);
                assert(node_seq(node.next) =~= self@.subrange(0, total - out@.len()));
            }
            current = &node.next;
        }
        out
    }
}

impl<T> Default for PStack<T> {
    /// An empty stack.
    fn default() -> (r: Self)
        ensures
            r@ == Seq::<T>::empty(),
    {
        PStack::new()
    }
}

} // verus!
