use vstd::prelude::*;

verus! {

/// A tuple treated as a collection: values push on at the back and pop
/// off again, and every length is its own type.
#[derive(Debug)]
pub struct Tup<D>(pub D);

impl Tup<()> {
    /// Grow the empty collection by one value.
    pub fn push<T0>(self, data: T0) -> (r: Tup<(T0,)>)
        ensures
            r.0.0 == data,
    {
        Tup((data,))
    }
}

impl<T0> Tup<(T0,)> {
    /// Grow the collection by one value.
    pub fn push<T1>(self, data: T1) -> (r: Tup<(T0, T1)>)
        ensures
            r.0.0 == self.0.0,
            r.0.1 == data,
    {
        let Tup(self_data) = self;
        Tup((self_data.0, data))
    }

    /// Take the last value back off.
    pub fn pop(self) -> (r: (Tup<()>, T0))
        ensures
            r.1 == self.0.0,
    {
        let Tup(self_data) = self;
        (Tup(()), self_data.0)
    }
}

impl<T0, T1> Tup<(T0, T1)> {
    /// Grow the collection by one value.
    pub fn push<T2>(self, data: T2) -> (r: Tup<(T0, T1, T2)>)
        ensures
            r.0.0 == self.0.0,
            r.0.1 == self.0.1,
            r.0.2 == data,
    {
        let Tup(self_data) = self;
        Tup((self_data.0, self_data.1, data))
    }

    /// Take the last value back off.
    pub fn pop(self) -> (r: (Tup<(T0,)>, T1))
        ensures
            r.0.0.0 == self.0.0,
            r.1 == self.0.1,
    {
        let Tup(self_data) = self;
        (Tup((self_data.0,)), self_data.1)
    }
}

impl<T0, T1, T2> Tup<(T0, T1, T2)> {
    /// Grow the collection by one value.
    pub fn push<T3>(self, data: T3) -> (r: Tup<(T0, T1, T2, T3)>)
        ensures
            r.0.0 == self.0.0,
            r.0.1 == self.0.1,
            r.0.2 == self.0.2,
            r.0.3 == data,
    {
        let Tup(self_data) = self;
        Tup((self_data.0, self_data.1, self_data.2, data))
    }

    /// Take the last value back off.
    pub fn pop(self) -> (r: (Tup<(T0, T1)>, T2))
        ensures
            r.0.0.0 == self.0.0,
            r.0.0.1 == self.0.1,
            r.1 == self.0.2,
    {
        let Tup(self_data) = self;
        (Tup((self_data.0, self_data.1)), self_data.2)
    }
}

impl<T0, T1, T2, T3> Tup<(T0, T1, T2, T3)> {
    /// Grow the collection by one value.
    pub fn push<T4>(self, data: T4) -> (r: Tup<(T0, T1, T2, T3, T4)>)
        ensures
            r.0.0 == self.0.0,
            r.0.1 == self.0.1,
            r.0.2 == self.0.2,
            r.0.3 == self.0.3,
            r.0.4 == data,
    {
        let Tup(self_data) = self;
        Tup((self_data.0, self_data.1, self_data.2, self_data.3, data))
    }

    /// Take the last value back off.
    pub fn pop(self) -> (r: (Tup<(T0, T1, T2)>, T3))
        ensures
            r.0.0.0 == self.0.0,
            r.0.0.1 == self.0.1,
            r.0.0.2 == self.0.2,
            r.1 == self.0.3,
    {
        let Tup(self_data) = self;
        (Tup((self_data.0, self_data.1, self_data.2)), self_data.3)
    }
}

} // verus!
