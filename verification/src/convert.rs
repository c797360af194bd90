use vstd::prelude::*;

verus! {

/// `Vec::from` on an array: a vector that holds the items of the array, in the array's order.
#[verifier::external_body]
pub(crate) fn array_into_vec<T, const N: usize>(items: [T; N]) -> (v: Vec<T>)
    ensures
        v@ == items@,
{
    Vec::from(items)
}

/// `<[T; N]>::try_from` on a vector: the vector's items as an array, in the
/// vector's order, where the vector holds exactly `N` of them; else the
/// vector comes back as the error.
#[verifier::external_body]
pub(crate) fn vec_into_array<T, const N: usize>(items: Vec<T>) -> (r: Result<[T; N], Vec<T>>)
    ensures
        items.len() == N ==> r is Ok && r->Ok_0@ == items@,
        items.len() != N ==> r is Err && r->Err_0@ == items@,
{
    <[T; N]>::try_from(items)
}

} // verus!
