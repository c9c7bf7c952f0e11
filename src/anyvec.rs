//! The capabilities a growable, ordered store must offer to back this crate's collections,
//! and their implementation for `Vec`.

use vstd::prelude::*;

verus! {

/// Reading side of a `Vec`-like store. Its view is the sequence of its elements.
pub trait AnyVec<T>: View<V = Seq<T>> + Sized {
    fn new() -> (r: Self)
        ensures
            r@ == Seq::<T>::empty(),
    ;

    fn len(&self) -> (r: usize)
        ensures
            r == self@.len(),
    ;

    /// The element at `index`, which must be in bounds.
    fn at(&self, index: usize) -> (r: &T)
        requires
            index < self@.len(),
        ensures
            *r == self@[index as int],
    ;

    fn get(&self, index: usize) -> (r: Option<&T>)
        ensures
            index < self@.len() ==> r == Some(&self@[index as int]),
            index >= self@.len() ==> r is None,
    ;

    fn last(&self) -> (r: Option<&T>)
        ensures
            self@.len() > 0 ==> r == Some(&self@.last()),
            self@.len() == 0 ==> r is None,
    ;

    fn as_slice(&self) -> (r: &[T])
        ensures
            r@ == self@,
    ;
}

/// Changing side of a `Vec`-like store.
pub trait AnyVecMut<T>: AnyVec<T> {
    fn clear(&mut self)
        ensures
            final(self)@ == Seq::<T>::empty(),
    ;

    /// Removes the elements from `from` up to `to`, not handing them back.
    fn drain(&mut self, from: usize, to: usize)
        requires
            from <= to <= old(self)@.len(),
        ensures
            final(self)@ == old(self)@.take(from as int) + old(self)@.skip(to as int),
    ;

    /// The element at `index`, which must be in bounds, open to change.
    fn at_mut(&mut self, index: usize) -> (r: &mut T)
        requires
            index < old(self)@.len(),
        ensures
            *r == old(self)@[index as int],
            final(self)@ == old(self)@.update(index as int, *final(r)),
    ;

    fn get_mut(&mut self, index: usize) -> (r: Option<&mut T>)
        ensures
            index >= old(self)@.len() ==> r is None && final(self)@ == old(self)@,
            index < old(self)@.len() ==> (r matches Some(e) && *e == old(self)@[index as int]
                && final(self)@ == old(self)@.update(index as int, *final(e))),
    ;

    fn insert(&mut self, index: usize, element: T)
        requires
            index <= old(self)@.len(),
        ensures
            final(self)@ == old(self)@.insert(index as int, element),
    ;

    fn pop(&mut self) -> (r: Option<T>)
        ensures
            old(self)@.len() > 0 ==> r == Some(old(self)@.last()) && final(self)@ == old(
                self,
            )@.drop_last(),
            old(self)@.len() == 0 ==> r is None && final(self)@ == old(self)@,
    ;

    fn push(&mut self, value: T)
        ensures
            final(self)@ == old(self)@.push(value),
    ;

    fn remove(&mut self, index: usize) -> (r: T)
        requires
            index < old(self)@.len(),
        ensures
            r == old(self)@[index as int],
            final(self)@ == old(self)@.remove(index as int),
    ;

    /// Keeps the first `len` elements.
    fn truncate(&mut self, len: usize)
        ensures
            len <= old(self)@.len() ==> final(self)@ == old(self)@.take(len as int),
            len > old(self)@.len() ==> final(self)@ == old(self)@,
    ;
}

impl<T> AnyVec<T> for Vec<T> {
    fn new() -> (r: Self) {
        Vec::new()
    }

    fn len(&self) -> (r: usize) {
        Vec::len(self)
    }

    fn at(&self, index: usize) -> (r: &T) {
        &self[index]
    }

    fn get(&self, index: usize) -> (r: Option<&T>) {
        if index < Vec::len(self) {
            Some(&self[index])
        } else {
            None
        }
    }

    fn last(&self) -> (r: Option<&T>) {
        let n = Vec::len(self);
        if n > 0 {
            Some(&self[n - 1])
        } else {
            None
        }
    }

    fn as_slice(&self) -> (r: &[T]) {
        Vec::as_slice(self)
    }
}

impl<T> AnyVecMut<T> for Vec<T> {
    fn clear(&mut self) {
        Vec::clear(self)
    }

    fn drain(&mut self, from: usize, to: usize) {
        let mut tail = Vec::split_off(self, to);
        Vec::truncate(self, from);
        Vec::append(self, &mut tail);
    }

    fn at_mut(&mut self, index: usize) -> (r: &mut T) {
        &mut self[index]
    }

    fn get_mut(&mut self, index: usize) -> (r: Option<&mut T>) {
        if index < Vec::len(self) {
            Some(&mut self[index])
        } else {
            None
        }
    }

    fn insert(&mut self, index: usize, element: T) {
        Vec::insert(self, index, element)
    }

    fn pop(&mut self) -> (r: Option<T>) {
        Vec::pop(self)
    }

    fn push(&mut self, value: T) {
        Vec::push(self, value)
    }

    fn remove(&mut self, index: usize) -> (r: T) {
        Vec::remove(self, index)
    }

    fn truncate(&mut self, len: usize) {
        Vec::truncate(self, len)
    }
}

} // verus!
