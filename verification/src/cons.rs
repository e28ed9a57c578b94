use vstd::prelude::*;

verus! {

/// A cons pair: a head and a tail, the building block of heterogeneous
/// lists.
#[derive(Debug)]
pub struct Cons<A, B>(pub A, pub B);

/// Build a cons pair from a head and a tail.
pub fn cons<A, B>(a: A, b: B) -> (r: Cons<A, B>)
    ensures
        r.0 == a,
        r.1 == b,
{
    Cons(a, b)
}

impl<A, B> Cons<A, B> {
    /// The head, by reference.
    pub fn car(&self) -> (r: &A)
        ensures
            *r == self.0,
    {
        &self.0
    }

    /// The tail, by reference.
    pub fn cdr(&self) -> (r: &B)
        ensures
            *r == self.1,
    {
        &self.1
    }

    /// The head, by value.
    pub fn into_car(self) -> (r: A)
        ensures
            r == self.0,
    {
        self.0
    }

    /// The tail, by value.
    pub fn into_cdr(self) -> (r: B)
        ensures
            r == self.1,
    {
        self.1
    }
}

impl<A, B> From<(A, B)> for Cons<A, B> {
    fn from(pair: (A, B)) -> (r: Cons<A, B>)
        ensures
            r.0 == pair.0,
            r.1 == pair.1,
    {
        Cons(pair.0, pair.1)
    }
}

impl<A, B> vstd::std_specs::convert::FromSpecImpl<(A, B)> for Cons<A, B> {
    open spec fn obeys_from_spec() -> bool {
        true
    }

    open spec fn from_spec(pair: (A, B)) -> Cons<A, B> {
        Cons(pair.0, pair.1)
    }
}

/// The empty end of a heterogeneous list.
#[derive(Debug)]
pub struct HNil;

} // verus!
