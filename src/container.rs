use vstd::prelude::*;

verus! {

/// Interface to a variable length storage container whose `push` fails
/// once the container is full.
pub trait SmaContainer<T>: Sized {
    /// The elements held, in insertion order.
    spec fn items(&self) -> Seq<T>;

    /// The number of elements the container can hold.
    spec fn capacity(&self) -> nat;

    /// Adds an element to the collection, or hands it back when full.
    fn push(&mut self, value: T) -> (r: core::result::Result<(), T>)
        ensures
            final(self).capacity() == old(self).capacity(),
            old(self).items().len() < old(self).capacity() ==> r is Ok && final(self).items()
                == old(self).items().push(value),
            old(self).items().len() >= old(self).capacity() ==> r == Err::<(), T>(value)
                && final(self).items() == old(self).items(),
    ;
}

/// A vector with a fixed capacity.
pub struct BoundedVec<T> {
    items: Vec<T>,
    capacity: usize,
}

impl<T> BoundedVec<T> {
    /// An empty vector that holds at most `capacity` elements.
    pub fn new(capacity: usize) -> (r: BoundedVec<T>)
        ensures
            r.items() == Seq::<T>::empty(),
            r.capacity() == capacity,
    {
        BoundedVec { items: Vec::new(), capacity }
    }

    /// Returns the number of elements held.
    pub fn len(&self) -> (r: usize)
        ensures
            r == self.items().len(),
    {
        self.items.len()
    }

    /// Returns whether no element is held.
    pub fn is_empty(&self) -> (r: bool)
        ensures
            r == (self.items().len() == 0),
    {
        self.items.len() == 0
    }

    /// Consumes the container and returns its elements.
    pub fn into_vec(self) -> (r: Vec<T>)
        ensures
            r@ == self.items(),
    {
        self.items
    }
}

impl<T> SmaContainer<T> for BoundedVec<T> {
    closed spec fn items(&self) -> Seq<T> {
        self.items@
    }

    closed spec fn capacity(&self) -> nat {
        self.capacity as nat
    }

    fn push(&mut self, value: T) -> (r: core::result::Result<(), T>) {
        if self.items.len() >= self.capacity {
            return Err(value);
        }
        self.items.push(value);
        Ok(())
    }
}

} // verus!
