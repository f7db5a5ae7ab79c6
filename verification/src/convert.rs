use vstd::prelude::*;

verus! {

/// `From::from` of a type to itself, which std documents to return its
/// argument unchanged. Through it a value that is of a field's own type
/// already is taken as it is.
pub assume_specification<T>[ <T as From<T>>::from ](t: T) -> (r: T)
    ensures
        r == t,
;

/// `c` is what converting `s` can give.
pub open spec fn converts<S: TryInto<V>, V>(s: S, c: Result<V, S::Error>) -> bool {
    call_ensures(S::try_into, (s,), c)
}

} // verus!
