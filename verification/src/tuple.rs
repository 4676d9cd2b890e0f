use vstd::prelude::*;

verus! {

/// A pair of values of two independent types.
pub struct Tuple<T, U> {
    pub first: T,
    pub second: U,
}

impl<T, U> Tuple<T, U> {
    /// Builds the pair that holds `first` and `second`, in that order.
    pub fn new(first: T, second: U) -> (pair: Tuple<T, U>)
        ensures
            pair.first == first,
            pair.second == second,
    {
        Tuple { first, second }
    }
}

} // verus!
