use vstd::prelude::*;

verus! {

/// A payload-free enumeration whose variants map one-to-one onto the positions
/// `0..ENUM_SIZE`.
///
/// `index_of` and `variant_at` are the mathematical model of that mapping, and
/// `bijection` is what an implementation promises of it; `index` and
/// `from_index_unchecked` are the model's executable counterparts.
pub trait TrivialEnum: Sized {
    /// The number of variants.
    const ENUM_SIZE: usize;

    /// The position of a variant.
    spec fn index_of(self) -> usize;

    /// The variant at position `i`, for `i < ENUM_SIZE`.
    spec fn variant_at(i: usize) -> Self;

    /// Every variant's position lies below `ENUM_SIZE`, the variant at that
    /// position is the variant itself, and every position below `ENUM_SIZE`
    /// is the position of the variant found there.
    proof fn bijection(v: Self, i: usize)
        ensures
            v.index_of() < Self::ENUM_SIZE,
            Self::variant_at(v.index_of()) == v,
            i < Self::ENUM_SIZE ==> Self::variant_at(i).index_of() == i,
    ;

    /// The position of the variant.
    fn index(self) -> (idx: usize)
        ensures
            idx == self.index_of(),
            idx < Self::ENUM_SIZE,
    ;

    /// The variant at position `val`, which must lie below `ENUM_SIZE`.
    fn from_index_unchecked(val: usize) -> (v: Self)
        requires
            val < Self::ENUM_SIZE,
        ensures
            v == Self::variant_at(val),
            v.index_of() == val,
    ;

    /// The variant at position `val`, if `val` lies below `ENUM_SIZE`.
    fn from_index(val: usize) -> (r: Option<Self>)
        ensures
            r == if val < Self::ENUM_SIZE {
                Some(Self::variant_at(val))
            } else {
                None
            },
    {
        if val < Self::ENUM_SIZE {
            Some(Self::from_index_unchecked(val))
        } else {
            None
        }
    }
}

/// The variants found at the given positions, in the same order.
pub open spec fn variants_at<E: TrivialEnum>(at: Seq<nat>) -> Seq<E> {
    at.map_values(|i: nat| E::variant_at(i as usize))
}

/// No two variants share a position.
pub proof fn lemma_index_injective<E: TrivialEnum>(a: E, b: E)
    requires
        a.index_of() == b.index_of(),
    ensures
        a == b,
{
    E::bijection(a, 0);
    E::bijection(b, 0);
}

} // verus!
