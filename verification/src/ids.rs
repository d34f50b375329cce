//! Unique, comparable identifiers, parameterized by a phantom category so
//! that, say, task and tag identifiers cannot be mixed up.

use vstd::prelude::*;
use core::marker::PhantomData;

verus! {

/// An identifier of category `C`. Identifiers are compared by their
/// counter value; an allocator never hands the same value out twice.
#[derive(Copy, Debug)]
pub struct Id<C> {
    value: u64,
    category: PhantomData<C>,
}

impl<C> Clone for Id<C> {
    fn clone(&self) -> (r: Self)
        ensures
            r == *self,
    {
        Id { value: self.value, category: self.category }
    }
}

impl<C> View for Id<C> {
    type V = u64;

    closed spec fn view(&self) -> u64 {
        self.value
    }
}

impl<C> Id<C> {
    /// Build an identifier holding the given value. Used where values are
    /// dictated from the outside, e.g. read from a persisted document.
    pub fn from_value(value: u64) -> (r: Self)
        ensures
            r@ == value,
    {
        Id { value, category: PhantomData }
    }

    /// The identifier's raw counter value.
    pub fn value(&self) -> (v: u64)
        ensures
            v == self@,
    {
        self.value
    }
}

impl<C> PartialEq for Id<C> {
    fn eq(&self, other: &Id<C>) -> (r: bool) {
        self.value == other.value
    }
}

impl<C> vstd::std_specs::cmp::PartialEqSpecImpl for Id<C> {
    open spec fn obeys_eq_spec() -> bool {
        true
    }

    open spec fn eq_spec(&self, other: &Id<C>) -> bool {
        self@ == other@
    }
}

/// A monotonically increasing allocator for identifiers of category `C`:
/// every identifier it returns is distinct from every one it returned
/// before.
#[derive(Debug)]
pub struct IdGen<C> {
    next: u64,
    category: PhantomData<C>,
}

impl<C> IdGen<C> {
    /// The value the next allocated identifier will hold; all previously
    /// allocated identifiers hold smaller values.
    pub closed spec fn spec_next(self) -> u64 {
        self.next
    }

    /// Create an allocator that has handed out nothing yet.
    pub fn new() -> (r: Self)
        ensures
            r.spec_next() == 0,
    {
        IdGen { next: 0, category: PhantomData }
    }

    /// Allocate the next identifier.
    pub fn fresh(&mut self) -> (r: Id<C>)
        requires
            old(self).spec_next() < u64::MAX,
        ensures
            r@ == old(self).spec_next(),
            final(self).spec_next() == old(self).spec_next() + 1,
    {
        let id = Id { value: self.next, category: PhantomData };
        self.next = self.next + 1;
        id
    }
}

} // verus!
