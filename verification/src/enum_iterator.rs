use core::marker::PhantomData;
use vstd::prelude::*;
use crate::trivial_enum::TrivialEnum;

verus! {

/// A cursor over all variants of `E` in the order of their positions, which
/// can be consumed from both ends.
pub struct EnumIterator<E: TrivialEnum> {
    begin: usize,
    end: usize,
    key: PhantomData<E>,
}

/// The variants at the positions `begin`, `begin + 1`, ..., `end - 1`.
pub open spec fn variant_range<E: TrivialEnum>(begin: nat, end: nat) -> Seq<E> {
    Seq::new((end - begin) as nat, |k: int| E::variant_at((begin + k) as usize))
}

/// The variants at the positions from 0 to `ENUM_SIZE` are all the variants,
/// each exactly once and at the place of its position.
pub proof fn lemma_variant_range_complete<E: TrivialEnum>()
    ensures
        variant_range::<E>(0, E::ENUM_SIZE as nat).len() == E::ENUM_SIZE,
        forall|k: int|
            0 <= k < E::ENUM_SIZE ==> (#[trigger] variant_range::<E>(
                0,
                E::ENUM_SIZE as nat,
            )[k]).index_of() == k,
        forall|v: E| #[trigger]
            variant_range::<E>(0, E::ENUM_SIZE as nat)[v.index_of() as int] == v,
{
    let all = variant_range::<E>(0, E::ENUM_SIZE as nat);
    assert forall|k: int| 0 <= k < E::ENUM_SIZE implies (#[trigger] all[k]).index_of() == k by {
        E::bijection(all[k], k as usize);
    }
    assert forall|v: E| #[trigger] all[v.index_of() as int] == v by {
        E::bijection(v, 0);
    }
}

impl<E: TrivialEnum> View for EnumIterator<E> {
    type V = Seq<E>;

    /// The variants still to come, lowest position first.
    open spec fn view(&self) -> Seq<E> {
        variant_range(self.front(), self.back())
    }
}

impl<E: TrivialEnum> EnumIterator<E> {
    #[verifier::type_invariant]
    spec fn ordered(self) -> bool {
        self.begin <= self.end <= E::ENUM_SIZE
    }

    /// The position of the next variant from the front.
    pub closed spec fn front(self) -> nat {
        self.begin as nat
    }

    /// The position one past the next variant from the back.
    pub closed spec fn back(self) -> nat {
        self.end as nat
    }

    /// A cursor over all variants.
    pub fn new() -> (it: Self)
        ensures
            it.front() == 0,
            it.back() == E::ENUM_SIZE,
            it@ == variant_range::<E>(0, E::ENUM_SIZE as nat),
    {
        EnumIterator { begin: 0, end: E::ENUM_SIZE, key: PhantomData }
    }

    /// Takes the variant at the lowest position off the cursor.
    pub fn next(&mut self) -> (r: Option<E>)
        ensures
            old(self)@.len() == 0 ==> r is None && *final(self) == *old(self),
            old(self)@.len() > 0 ==> r == Some(old(self)@.first()),
            old(self)@.len() > 0 ==> final(self)@ == old(self)@.drop_first(),
            old(self)@.len() > 0 ==> final(self).front() == old(self).front() + 1,
            old(self)@.len() > 0 ==> final(self).back() == old(self).back(),
            final(self)@.len() == if old(self)@.len() == 0 {
                0
            } else {
                old(self)@.len() - 1
            },
    {
        proof {
            use_type_invariant(&*self);
        }
        if self.begin >= self.end {
            return None;
        }
        let res = E::from_index_unchecked(self.begin);
        self.begin += 1;
        proof {
            assert(self@ =~= old(self)@.drop_first());
        }
        Some(res)
    }

    /// Takes the variant at the highest position off the cursor.
    pub fn next_back(&mut self) -> (r: Option<E>)
        ensures
            old(self)@.len() == 0 ==> r is None && *final(self) == *old(self),
            old(self)@.len() > 0 ==> r == Some(old(self)@.last()),
            old(self)@.len() > 0 ==> final(self)@ == old(self)@.drop_last(),
            old(self)@.len() > 0 ==> final(self).front() == old(self).front(),
            old(self)@.len() > 0 ==> final(self).back() == old(self).back() - 1,
            final(self)@.len() == if old(self)@.len() == 0 {
                0
            } else {
                old(self)@.len() - 1
            },
    {
        proof {
            use_type_invariant(&*self);
        }
        if self.begin >= self.end {
            return None;
        }
        self.end -= 1;
        proof {
            assert(self@ =~= old(self)@.drop_last());
        }
        Some(E::from_index_unchecked(self.end))
    }

    /// The number of variants still to come.
    pub fn len(&self) -> (n: usize)
        ensures
            n == self@.len(),
            n == self.back() - self.front(),
            self.front() <= self.back() <= E::ENUM_SIZE,
    {
        proof {
            use_type_invariant(self);
        }
        self.end - self.begin
    }
}

impl<E: TrivialEnum> Default for EnumIterator<E> {
    /// A cursor over all variants.
    fn default() -> (it: Self)
        ensures
            it.front() == 0,
            it.back() == E::ENUM_SIZE,
            it@ == variant_range::<E>(0, E::ENUM_SIZE as nat),
    {
        EnumIterator::new()
    }
}

} // verus!
