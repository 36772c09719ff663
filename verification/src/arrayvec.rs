//! A vector with a fixed capacity `N`: pushes beyond the capacity are
//! rejected and hand the value back.

use vstd::prelude::*;

verus! {

/// A vector holding at most `N` elements.
pub struct ArrayVec<T, const N: usize> {
    elems: Vec<T>,
}

impl<T, const N: usize> View for ArrayVec<T, N> {
    type V = Seq<T>;

    closed spec fn view(&self) -> Seq<T> {
        self.elems@
    }
}

impl<T, const N: usize> ArrayVec<T, N> {
    /// An empty vector.
    pub fn new() -> (r: Self)
        ensures
            r@ == Seq::<T>::empty(),
    {
        let elems: Vec<T> = Vec::new();
        proof {
            assert(elems@ =~= Seq::<T>::empty());
        }
        ArrayVec { elems }
    }

    /// How many elements are held.
    pub fn len(&self) -> (r: usize)
        ensures
            r == self@.len(),
    {
        self.elems.len()
    }

    /// How many elements can be held.
    pub fn capacity(&self) -> (r: usize)
        ensures
            r == N,
    {
        N
    }

    /// Whether no element is held.
    pub fn is_empty(&self) -> (r: bool)
        ensures
            r == (self@.len() == 0),
    {
        self.elems.is_empty()
    }

    /// Appends `obj`; a full vector rejects the push and returns the value.
    pub fn push(&mut self, obj: T) -> (r: Result<(), T>)
        ensures
            old(self)@.len() < N ==> r is Ok && final (self)@ == old(self)@.push(obj),
            old(self)@.len() >= N ==> (r matches Err(o) && o == obj && final (self)@ == old(
                self,
            )@),
    {
        if self.elems.len() >= N {
            return Err(obj);
        }
        self.elems.push(obj);
        Ok(())
    }

    /// Removes and returns the most recently pushed element.
    pub fn pop(&mut self) -> (r: Option<T>)
        ensures
            old(self)@.len() == 0 ==> r is None && final (self)@ == old(self)@,
            old(self)@.len() > 0 ==> (r matches Some(v) && v == old(self)@.last() && final (self)@
                == old(self)@.drop_last()),
    {
        if self.elems.is_empty() {
            return None;
        }
        let v = self.elems.pop().unwrap();
        Some(v)
    }

    /// A shared borrow of the element at `index`.
    pub fn index(&self, index: usize) -> (r: &T)
        requires
            index < self@.len(),
        ensures
            *r == self@[index as int],
    {
        &self.elems[index]
    }

    /// Replaces the element at `index`, returning the previous value.
    pub fn set(&mut self, index: usize, value: T) -> (r: T)
        requires
            index < old(self)@.len(),
        ensures
            r == old(self)@[index as int],
            final (self)@ == old(self)@.update(index as int, value),
    {
        let previous = self.elems.remove(index);
        self.elems.insert(index, value);
        proof {
            assert(self@ =~= old(self)@.update(index as int, value));
        }
        previous
    }
}

impl<T, const N: usize> Default for ArrayVec<T, N> {
    /// An empty vector.
    fn default() -> (r: Self)
        ensures
            r@ == Seq::<T>::empty(),
    {
        ArrayVec::new()
    }
}

} // verus!
