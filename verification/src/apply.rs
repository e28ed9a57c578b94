use vstd::prelude::*;

verus! {

/// Run a function on a value in pipeline position: `x.apply(f)` is
/// `f(x)`, for chaining a series of steps without intermediate
/// bindings.  Every sized type gets it through the blanket
/// implementation below.
pub trait Apply<R>: Sized {
    fn apply<F: FnOnce(Self) -> R>(self, f: F) -> (r: R)
        requires
            call_requires(f, (self,)),
        ensures
            call_ensures(f, (self,), r),
    ;
}

impl<T: Sized, R> Apply<R> for T {
    fn apply<F: FnOnce(Self) -> R>(self, f: F) -> (r: R) {
        f(self)
    }
}

} // verus!
