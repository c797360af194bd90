use core::marker::PhantomData;
use core::ops::IndexMut;
use vstd::prelude::*;
use crate::convert::{array_into_vec, vec_into_array};
use crate::trivial_enum::TrivialEnum;
use crate::vector_math::{is_slot, VectorMath};

verus! {

/// One value of `T` for every variant of `E`, held in an array of `N ==
/// E::ENUM_SIZE` slots: the slot of a variant is the one at its position.
pub struct EnumArray<E: TrivialEnum, T, const N: usize> {
    values: [T; N],
    key: PhantomData<E>,
}

/// The value of the last pair whose variant stands at position `i`, if there is such a pair.
pub open spec fn last_write<E: TrivialEnum, T>(pairs: Seq<(E, T)>, i: int) -> Option<T>
    decreases pairs.len(),
{
    if pairs.len() == 0 {
        None
    } else if pairs.last().0.index_of() == i {
        Some(pairs.last().1)
    } else {
        last_write(pairs.drop_last(), i)
    }
}

/// The items of `v` in reverse order.
fn reversed<T>(v: Vec<T>) -> (r: Vec<T>)
    ensures
        r@ == v@.reverse(),
{
    let ghost all = v@;
    let mut v = v;
    let mut r: Vec<T> = Vec::new();
    while v.len() > 0
        invariant
            v@ == all.take(v.len() as int),
            r.len() + v.len() == all.len(),
            forall|i: int| 0 <= i < r.len() ==> r@[i] == all[all.len() - 1 - i],
        decreases v.len(),
    {
        match v.pop() {
            Some(x) => r.push(x),
            None => {},
        }
    }
    proof {
        assert(r@ =~= all.reverse());
    }
    r
}

/// The slot at position `i`, for writing.
fn slot_mut<T, const N: usize>(values: &mut [T; N], i: usize) -> (slot: &mut T)
    requires
        i < N,
    ensures
        *slot == old(values)@[i as int],
        final(values)@ == old(values)@.update(i as int, *final(slot)),
    no_unwind
{
    &mut values[i]
}

impl<E: TrivialEnum, T, const N: usize> View for EnumArray<E, T, N> {
    type V = Seq<T>;

    /// The values, by position.
    closed spec fn view(&self) -> Seq<T> {
        self.values@
    }
}

impl<E: TrivialEnum, T, const N: usize> EnumArray<E, T, N> {
    #[verifier::type_invariant]
    spec fn sized(self) -> bool {
        N == E::ENUM_SIZE
    }

    /// The value held for `key`.
    pub open spec fn get(self, key: E) -> T {
        self@[key.index_of() as int]
    }

    /// An array has one slot for each position.
    pub proof fn lemma_len(self)
        ensures
            self@.len() == N,
    {
    }

    /// Succeeds where the array has as many slots as `E` has variants.
    pub fn const_validate_size()
        requires
            E::ENUM_SIZE == N,
    {
    }

    fn from_vec(values: Vec<T>) -> (s: Self)
        requires
            E::ENUM_SIZE == N,
            values.len() == N,
        ensures
            s@ == values@,
    {
        match vec_into_array(values) {
            Ok(values) => EnumArray { values, key: PhantomData },
            Err(_) => vstd::pervasive::unreached(),
        }
    }

    /// An array that holds a clone of `value` in every slot.
    pub fn fill(value: &T) -> (s: Self) where T: Clone
        requires
            E::ENUM_SIZE == N,
        ensures
            s@.len() == N,
            forall|i: int| 0 <= i < N ==> cloned(*value, #[trigger] s@[i]),
    {
        let mut values: Vec<T> = Vec::new();
        while values.len() < N
            invariant
                values.len() <= N,
                forall|i: int| 0 <= i < values.len() ==> cloned(*value, #[trigger] values@[i]),
            decreases N - values.len(),
        {
            values.push(value.clone());
        }
        Self::from_vec(values)
    }

    /// An array that holds a default value in every slot.
    pub fn default() -> (s: Self) where T: Default
        requires
            E::ENUM_SIZE == N,
        ensures
            s@.len() == N,
            forall|i: int| 0 <= i < N ==> call_ensures(T::default, (), #[trigger] s@[i]),
    {
        let mut values: Vec<T> = Vec::new();
        while values.len() < N
            invariant
                values.len() <= N,
                forall|i: int|
                    0 <= i < values.len() ==> call_ensures(T::default, (), #[trigger] values@[i]),
            decreases N - values.len(),
        {
            values.push(T::default());
        }
        Self::from_vec(values)
    }

    /// An array that holds a default value in every slot.
    pub fn new() -> (s: Self) where T: Default
        requires
            E::ENUM_SIZE == N,
        ensures
            s@.len() == N,
            forall|i: int| 0 <= i < N ==> call_ensures(T::default, (), #[trigger] s@[i]),
    {
        Self::default()
    }

    /// An array that holds `val` for `ty` and a default value for every other variant.
    pub fn from_single(ty: E, val: T) -> (s: Self) where T: Default
        requires
            E::ENUM_SIZE == N,
        ensures
            s@.len() == N,
            s.get(ty) == val,
            forall|i: int|
                0 <= i < N && i != ty.index_of() ==> call_ensures(T::default, (), #[trigger] s@[i]),
    {
        let mut res = Self::default();
        proof {
            E::bijection(ty, 0);
        }
        *res.index_mut(ty) = val;
        res
    }

    /// An array that holds `val.1` for `val.0` and a default value for every other variant.
    pub fn from_pair(val: (E, T)) -> (s: Self) where T: Default
        requires
            E::ENUM_SIZE == N,
        ensures
            s@.len() == N,
            s.get(val.0) == val.1,
            forall|i: int|
                0 <= i < N && i != val.0.index_of() ==> call_ensures(
                    T::default,
                    (),
                    #[trigger] s@[i],
                ),
    {
        Self::from_single(val.0, val.1)
    }

    /// An array filled from pairs of a variant and a value. Where several
    /// pairs name one variant, the last of them counts; a variant that no
    /// pair names gets a default value.
    pub fn from_iter(pairs: Vec<(E, T)>) -> (s: Self) where T: Default
        requires
            E::ENUM_SIZE == N,
        ensures
            s@.len() == N,
            forall|i: int|
                0 <= i < N ==> match last_write(pairs@, i) {
                    Some(val) => #[trigger] s@[i] == val,
                    None => call_ensures(T::default, (), s@[i]),
                },
    {
        let ghost all = pairs@;
        let mut res = Self::default();
        for pair in it: pairs.into_iter()
            invariant
                E::ENUM_SIZE == N,
                it.seq() == all,
                res@.len() == N,
                forall|i: int|
                    0 <= i < N ==> match last_write(all.take(it.index() as int), i) {
                        Some(val) => #[trigger] res@[i] == val,
                        None => call_ensures(T::default, (), res@[i]),
                    },
        {
            proof {
                let k = it.index() as int;
                assert(all.take(k + 1).drop_last() =~= all.take(k));
                assert(all.take(k + 1).last() == pair);
                E::bijection(pair.0, 0);
            }
            *res.index_mut(pair.0) = pair.1;
        }
        proof {
            assert(all.take(all.len() as int) =~= all);
        }
        res
    }
}

impl<E: TrivialEnum, T, const N: usize> core::ops::Index<E> for EnumArray<E, T, N> {
    type Output = T;

    /// The value held for `index`.
    fn index(&self, index: E) -> (value: &T)
        ensures
            *value == self.get(index),
    {
        proof {
            use_type_invariant(self);
        }
        &self.values[index.index()]
    }
}

impl<E: TrivialEnum, T, const N: usize> vstd::std_specs::core::IndexSpecImpl<E> for EnumArray<E, T, N> {
    open spec fn index_req(&self, index: &E) -> bool {
        true
    }
}

impl<E: TrivialEnum, T, const N: usize> core::ops::IndexMut<E> for EnumArray<E, T, N> {
    /// The slot of `index`, for writing.
    fn index_mut(&mut self, index: E) -> (slot: &mut T)
        ensures
            *slot == old(self).get(index),
            final(self)@ == old(self)@.update(index.index_of() as int, *final(slot)),
    {
        proof {
            use_type_invariant(&*self);
        }
        let i = index.index();
        slot_mut(&mut self.values, i)
    }
}

impl<E: TrivialEnum, T, const N: usize> VectorMath for EnumArray<E, T, N> {
    type ElementType = T;

    open spec fn elements(self) -> Seq<T> {
        self@
    }

    fn into_zip_with<F: FnMut(T, T) -> T>(self, other: Self, mut f: F) -> (r: Self) {
        proof {
            use_type_invariant(&self);
        }
        let ghost left = self@;
        let ghost right = other@;
        let ghost combine = f;
        let mut rest = reversed(array_into_vec(other.values));
        let mut values: Vec<T> = Vec::new();
        for x in it: array_into_vec(self.values).into_iter()
            invariant
                f == combine,
                E::ENUM_SIZE == N,
                left.len() == N,
                right.len() == N,
                it.seq() == left,
                rest@ == right.skip(it.index() as int).reverse(),
                values.len() == it.index(),
                forall|i: int| 0 <= i < N ==> call_requires(f, (#[trigger] left[i], right[i])),
                forall|i: int|
                    0 <= i < values.len() ==> call_ensures(
                        f,
                        (left[i], right[i]),
                        #[trigger] values@[i],
                    ),
        {
            let ghost k = it.index() as int;
            proof {
                assert(right.skip(k).reverse().drop_last() =~= right.skip(k + 1).reverse());
                assert(right.skip(k).reverse().last() == right[k]);
            }
            match rest.pop() {
                Some(y) => {
                    let z = f(x, y);
                    values.push(z);
                },
                None => vstd::pervasive::unreached(),
            }
        }
        Self::from_vec(values)
    }

    fn assign_zip_with<F: FnMut(&mut T, T)>(&mut self, other: Self, mut f: F) {
        proof {
            use_type_invariant(&*self);
        }
        let ghost left = self@;
        let ghost right = other@;
        let ghost combine = f;
        let mut i: usize = 0;
        for y in it: array_into_vec(other.values).into_iter()
            invariant
                f == combine,
                E::ENUM_SIZE == N,
                left.len() == N,
                right.len() == N,
                it.seq() == right,
                i == it.index(),
                self@.len() == N,
                forall|j: int| i <= j < N ==> self@[j] == left[j],
                forall|j: int, slot: &mut T|
                    0 <= j < N && *slot == left[j] ==> #[trigger] call_requires(
                        f,
                        (slot, right[j]),
                    ),
                forall|j: int|
                    #![trigger is_slot(j, i as nat)]
                    is_slot(j, i as nat) ==> exists|slot: &mut T|
                        #![trigger call_ensures(f, (slot, right[j]), ())]
                        {
                            &&& *slot == left[j]
                            &&& *final(slot) == self@[j]
                            &&& call_ensures(f, (slot, right[j]), ())
                        },
        {
            let ghost before = self@;
            f(slot_mut(&mut self.values, i), y);
            i = i + 1;
            proof {
                assert forall|j: int|
                    #![trigger is_slot(j, i as nat)]
                    is_slot(j, i as nat) implies exists|slot: &mut T|
                    #![trigger call_ensures(f, (slot, right[j]), ())]
                    {
                        &&& *slot == left[j]
                        &&& *final(slot) == self@[j]
                        &&& call_ensures(f, (slot, right[j]), ())
                    } by {
                    if j < i - 1 {
                        assert(is_slot(j, (i - 1) as nat));
                        assert(self@[j] == before[j]);
                    }
                }
            }
        }
    }
}

} // verus!
