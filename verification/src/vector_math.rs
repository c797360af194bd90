use vstd::prelude::*;
use vstd::std_specs::ops::{AddSpec, DivSpec, MulSpec, SubSpec};

verus! {

/// Whether `i` is the position of one of `n` slots.
pub open spec fn is_slot(i: int, n: nat) -> bool {
    0 <= i < n
}

/// A container whose elements can be combined, slot by slot, with those of
/// another container of the same shape.
pub trait VectorMath: Sized {
    type ElementType;

    /// The elements of the container, in slot order.
    spec fn elements(self) -> Seq<Self::ElementType>;

    /// A new container whose slot `i` holds `f(self[i], other[i])`.
    fn into_zip_with<F: FnMut(Self::ElementType, Self::ElementType) -> Self::ElementType>(
        self,
        other: Self,
        f: F,
    ) -> (r: Self)
        requires
            self.elements().len() == other.elements().len(),
            forall|i: int|
                0 <= i < self.elements().len() ==> call_requires(
                    f,
                    (#[trigger] self.elements()[i], other.elements()[i]),
                ),
        ensures
            r.elements().len() == self.elements().len(),
            forall|i: int|
                0 <= i < self.elements().len() ==> call_ensures(
                    f,
                    (self.elements()[i], other.elements()[i]),
                    #[trigger] r.elements()[i],
                ),
    ;

    /// Runs `f(&mut self[i], other[i])` on every slot `i`.
    fn assign_zip_with<F: FnMut(&mut Self::ElementType, Self::ElementType)>(
        &mut self,
        other: Self,
        f: F,
    )
        requires
            old(self).elements().len() == other.elements().len(),
            forall|i: int, slot: &mut Self::ElementType|
                0 <= i < other.elements().len() && *slot == old(self).elements()[i]
                    ==> #[trigger] call_requires(f, (slot, other.elements()[i])),
        ensures
            final(self).elements().len() == old(self).elements().len(),
            forall|i: int|
                #![trigger is_slot(i, other.elements().len())]
                #![trigger final(self).elements()[i]]
                is_slot(i, other.elements().len()) ==> exists|slot: &mut Self::ElementType|
                    #![trigger call_ensures(f, (slot, other.elements()[i]), ())]
                    {
                        &&& *slot == old(self).elements()[i]
                        &&& *final(slot) == final(self).elements()[i]
                        &&& call_ensures(f, (slot, other.elements()[i]), ())
                    },
    ;
}

/// A wrapper that gives a container the arithmetic operators, applied slot by slot.
#[derive(Copy, Clone, Debug, Default)]
pub struct Vector<A>(pub A);

impl<A> From<A> for Vector<A> {
    /// The wrapper around `value`.
    fn from(value: A) -> (v: Self)
        ensures
            v.0 == value,
    {
        Vector(value)
    }
}

impl<A> vstd::std_specs::convert::FromSpecImpl<A> for Vector<A> {
    open spec fn obeys_from_spec() -> bool {
        true
    }

    open spec fn from_spec(value: A) -> Self {
        Vector(value)
    }
}

impl<A, I, O> core::ops::Index<I> for Vector<A> where
    A: VectorMath + core::ops::Index<I, Output = O>,
{
    type Output = O;

    /// What the wrapped container holds at `index`.
    fn index(&self, index: I) -> (value: &O)
        ensures
            call_ensures(<A as core::ops::Index<I>>::index, (&self.0, index), value),
    {
        self.0.index(index)
    }
}

impl<A, I, O> vstd::std_specs::core::IndexSpecImpl<I> for Vector<A> where
    A: VectorMath + core::ops::Index<I, Output = O>,
{
    open spec fn index_req(&self, index: &I) -> bool {
        vstd::std_specs::core::IndexSpec::index_req(&self.0, index)
    }
}

impl<A: VectorMath> Vector<A> {
    /// The elements of the wrapped container, in slot order.
    pub open spec fn elements(self) -> Seq<A::ElementType> {
        self.0.elements()
    }
}

impl<A> core::ops::Add for Vector<A> where
    A: VectorMath,
    A::ElementType: core::ops::Add<A::ElementType, Output = A::ElementType>,
{
    type Output = Self;

    /// The container whose slot `i` holds `self[i] + rhs[i]`.
    fn add(self, rhs: Self) -> (sum: Self)
        ensures
            sum.elements().len() == self.elements().len(),
            forall|i: int|
                0 <= i < self.elements().len() ==> call_ensures(
                    <A::ElementType as core::ops::Add>::add,
                    (self.elements()[i], rhs.elements()[i]),
                    #[trigger] sum.elements()[i],
                ),
            A::ElementType::obeys_add_spec() ==> forall|i: int|
                0 <= i < self.elements().len() ==> #[trigger] sum.elements()[i]
                    == self.elements()[i].add_spec(rhs.elements()[i]),
    {
        let plus = |a: A::ElementType, b: A::ElementType| -> (c: A::ElementType)
            requires
                a.add_req(b),
            ensures
                call_ensures(<A::ElementType as core::ops::Add>::add, (a, b), c),
                A::ElementType::obeys_add_spec() ==> c == a.add_spec(b),
            { a + b };
        Vector(self.0.into_zip_with(rhs.0, plus))
    }
}

impl<A> vstd::std_specs::ops::AddSpecImpl for Vector<A> where
    A: VectorMath,
    A::ElementType: core::ops::Add<A::ElementType, Output = A::ElementType>,
{
    /// The sum is pinned down slot by slot, which need not pin down the
    /// container as a whole: `add_spec` names one container with the right slots.
    open spec fn obeys_add_spec() -> bool {
        false
    }

    /// The containers have the same number of slots, and `+` is defined on every pair of elements.
    open spec fn add_req(self, rhs: Self) -> bool {
        &&& self.elements().len() == rhs.elements().len()
        &&& forall|i: int|
            0 <= i < self.elements().len() ==> (#[trigger] self.elements()[i]).add_req(
                rhs.elements()[i],
            )
    }

    open spec fn add_spec(self, rhs: Self) -> Self {
        choose|sum: Self|
            {
                &&& sum.elements().len() == self.elements().len()
                &&& forall|i: int|
                    0 <= i < self.elements().len() ==> #[trigger] sum.elements()[i]
                        == self.elements()[i].add_spec(rhs.elements()[i])
            }
    }
}

impl<A> core::ops::Sub for Vector<A> where
    A: VectorMath,
    A::ElementType: core::ops::Sub<A::ElementType, Output = A::ElementType>,
{
    type Output = Self;

    /// The container whose slot `i` holds `self[i] - rhs[i]`.
    fn sub(self, rhs: Self) -> (difference: Self)
        ensures
            difference.elements().len() == self.elements().len(),
            forall|i: int|
                0 <= i < self.elements().len() ==> call_ensures(
                    <A::ElementType as core::ops::Sub>::sub,
                    (self.elements()[i], rhs.elements()[i]),
                    #[trigger] difference.elements()[i],
                ),
            A::ElementType::obeys_sub_spec() ==> forall|i: int|
                0 <= i < self.elements().len() ==> #[trigger] difference.elements()[i]
                    == self.elements()[i].sub_spec(rhs.elements()[i]),
    {
        let minus = |a: A::ElementType, b: A::ElementType| -> (c: A::ElementType)
            requires
                a.sub_req(b),
            ensures
                call_ensures(<A::ElementType as core::ops::Sub>::sub, (a, b), c),
                A::ElementType::obeys_sub_spec() ==> c == a.sub_spec(b),
            { a - b };
        Vector(self.0.into_zip_with(rhs.0, minus))
    }
}

impl<A> vstd::std_specs::ops::SubSpecImpl for Vector<A> where
    A: VectorMath,
    A::ElementType: core::ops::Sub<A::ElementType, Output = A::ElementType>,
{
    /// The difference is pinned down slot by slot, which need not pin down the
    /// container as a whole: `sub_spec` names one container with the right slots.
    open spec fn obeys_sub_spec() -> bool {
        false
    }

    /// The containers have the same number of slots, and `-` is defined on every pair of elements.
    open spec fn sub_req(self, rhs: Self) -> bool {
        &&& self.elements().len() == rhs.elements().len()
        &&& forall|i: int|
            0 <= i < self.elements().len() ==> (#[trigger] self.elements()[i]).sub_req(
                rhs.elements()[i],
            )
    }

    open spec fn sub_spec(self, rhs: Self) -> Self {
        choose|difference: Self|
            {
                &&& difference.elements().len() == self.elements().len()
                &&& forall|i: int|
                    0 <= i < self.elements().len() ==> #[trigger] difference.elements()[i]
                        == self.elements()[i].sub_spec(rhs.elements()[i])
            }
    }
}

impl<A> core::ops::Mul for Vector<A> where
    A: VectorMath,
    A::ElementType: core::ops::Mul<A::ElementType, Output = A::ElementType>,
{
    type Output = Self;

    /// The container whose slot `i` holds `self[i] * rhs[i]`.
    fn mul(self, rhs: Self) -> (product: Self)
        ensures
            product.elements().len() == self.elements().len(),
            forall|i: int|
                0 <= i < self.elements().len() ==> call_ensures(
                    <A::ElementType as core::ops::Mul>::mul,
                    (self.elements()[i], rhs.elements()[i]),
                    #[trigger] product.elements()[i],
                ),
            A::ElementType::obeys_mul_spec() ==> forall|i: int|
                0 <= i < self.elements().len() ==> #[trigger] product.elements()[i]
                    == self.elements()[i].mul_spec(rhs.elements()[i]),
    {
        let times = |a: A::ElementType, b: A::ElementType| -> (c: A::ElementType)
            requires
                a.mul_req(b),
            ensures
                call_ensures(<A::ElementType as core::ops::Mul>::mul, (a, b), c),
                A::ElementType::obeys_mul_spec() ==> c == a.mul_spec(b),
            { a * b };
        Vector(self.0.into_zip_with(rhs.0, times))
    }
}

impl<A> vstd::std_specs::ops::MulSpecImpl for Vector<A> where
    A: VectorMath,
    A::ElementType: core::ops::Mul<A::ElementType, Output = A::ElementType>,
{
    /// The product is pinned down slot by slot, which need not pin down the
    /// container as a whole: `mul_spec` names one container with the right slots.
    open spec fn obeys_mul_spec() -> bool {
        false
    }

    /// The containers have the same number of slots, and `*` is defined on every pair of elements.
    open spec fn mul_req(self, rhs: Self) -> bool {
        &&& self.elements().len() == rhs.elements().len()
        &&& forall|i: int|
            0 <= i < self.elements().len() ==> (#[trigger] self.elements()[i]).mul_req(
                rhs.elements()[i],
            )
    }

    open spec fn mul_spec(self, rhs: Self) -> Self {
        choose|product: Self|
            {
                &&& product.elements().len() == self.elements().len()
                &&& forall|i: int|
                    0 <= i < self.elements().len() ==> #[trigger] product.elements()[i]
                        == self.elements()[i].mul_spec(rhs.elements()[i])
            }
    }
}

impl<A> core::ops::Div for Vector<A> where
    A: VectorMath,
    A::ElementType: core::ops::Div<A::ElementType, Output = A::ElementType>,
{
    type Output = Self;

    /// The container whose slot `i` holds `self[i] / rhs[i]`.
    fn div(self, rhs: Self) -> (quotient: Self)
        ensures
            quotient.elements().len() == self.elements().len(),
            forall|i: int|
                0 <= i < self.elements().len() ==> call_ensures(
                    <A::ElementType as core::ops::Div>::div,
                    (self.elements()[i], rhs.elements()[i]),
                    #[trigger] quotient.elements()[i],
                ),
            A::ElementType::obeys_div_spec() ==> forall|i: int|
                0 <= i < self.elements().len() ==> #[trigger] quotient.elements()[i]
                    == self.elements()[i].div_spec(rhs.elements()[i]),
    {
        let over = |a: A::ElementType, b: A::ElementType| -> (c: A::ElementType)
            requires
                a.div_req(b),
            ensures
                call_ensures(<A::ElementType as core::ops::Div>::div, (a, b), c),
                A::ElementType::obeys_div_spec() ==> c == a.div_spec(b),
            { a / b };
        Vector(self.0.into_zip_with(rhs.0, over))
    }
}

impl<A> vstd::std_specs::ops::DivSpecImpl for Vector<A> where
    A: VectorMath,
    A::ElementType: core::ops::Div<A::ElementType, Output = A::ElementType>,
{
    /// The quotient is pinned down slot by slot, which need not pin down the
    /// container as a whole: `div_spec` names one container with the right slots.
    open spec fn obeys_div_spec() -> bool {
        false
    }

    /// The containers have the same number of slots, and `/` is defined on every pair of elements.
    open spec fn div_req(self, rhs: Self) -> bool {
        &&& self.elements().len() == rhs.elements().len()
        &&& forall|i: int|
            0 <= i < self.elements().len() ==> (#[trigger] self.elements()[i]).div_req(
                rhs.elements()[i],
            )
    }

    open spec fn div_spec(self, rhs: Self) -> Self {
        choose|quotient: Self|
            {
                &&& quotient.elements().len() == self.elements().len()
                &&& forall|i: int|
                    0 <= i < self.elements().len() ==> #[trigger] quotient.elements()[i]
                        == self.elements()[i].div_spec(rhs.elements()[i])
            }
    }
}

impl<A> Vector<A> where A: VectorMath, A::ElementType: Copy {
    /// Replaces every slot `self[i]` by `self[i] + rhs[i]`.
    pub fn add_assign(&mut self, rhs: Self) where
        A::ElementType: core::ops::Add<A::ElementType, Output = A::ElementType>,

        requires
            old(self).add_req(rhs),
        ensures
            final(self).elements().len() == old(self).elements().len(),
            forall|i: int|
                0 <= i < old(self).elements().len() ==> call_ensures(
                    <A::ElementType as core::ops::Add>::add,
                    (old(self).elements()[i], rhs.elements()[i]),
                    #[trigger] final(self).elements()[i],
                ),
            A::ElementType::obeys_add_spec() ==> forall|i: int|
                0 <= i < old(self).elements().len() ==> #[trigger] final(self).elements()[i]
                    == old(self).elements()[i].add_spec(rhs.elements()[i]),
    {
        let plus = |a: &mut A::ElementType, b: A::ElementType|
            requires
                (*old(a)).add_req(b),
            ensures
                call_ensures(<A::ElementType as core::ops::Add>::add, (*old(a), b), *final(a)),
                A::ElementType::obeys_add_spec() ==> *final(a) == (*old(a)).add_spec(b),
            {
                *a = *a + b;
            };
        self.0.assign_zip_with(rhs.0, plus);
    }

    /// Replaces every slot `self[i]` by `self[i] - rhs[i]`.
    pub fn sub_assign(&mut self, rhs: Self) where
        A::ElementType: core::ops::Sub<A::ElementType, Output = A::ElementType>,

        requires
            old(self).sub_req(rhs),
        ensures
            final(self).elements().len() == old(self).elements().len(),
            forall|i: int|
                0 <= i < old(self).elements().len() ==> call_ensures(
                    <A::ElementType as core::ops::Sub>::sub,
                    (old(self).elements()[i], rhs.elements()[i]),
                    #[trigger] final(self).elements()[i],
                ),
            A::ElementType::obeys_sub_spec() ==> forall|i: int|
                0 <= i < old(self).elements().len() ==> #[trigger] final(self).elements()[i]
                    == old(self).elements()[i].sub_spec(rhs.elements()[i]),
    {
        let minus = |a: &mut A::ElementType, b: A::ElementType|
            requires
                (*old(a)).sub_req(b),
            ensures
                call_ensures(<A::ElementType as core::ops::Sub>::sub, (*old(a), b), *final(a)),
                A::ElementType::obeys_sub_spec() ==> *final(a) == (*old(a)).sub_spec(b),
            {
                *a = *a - b;
            };
        self.0.assign_zip_with(rhs.0, minus);
    }

    /// Replaces every slot `self[i]` by `self[i] * rhs[i]`.
    pub fn mul_assign(&mut self, rhs: Self) where
        A::ElementType: core::ops::Mul<A::ElementType, Output = A::ElementType>,

        requires
            old(self).mul_req(rhs),
        ensures
            final(self).elements().len() == old(self).elements().len(),
            forall|i: int|
                0 <= i < old(self).elements().len() ==> call_ensures(
                    <A::ElementType as core::ops::Mul>::mul,
                    (old(self).elements()[i], rhs.elements()[i]),
                    #[trigger] final(self).elements()[i],
                ),
            A::ElementType::obeys_mul_spec() ==> forall|i: int|
                0 <= i < old(self).elements().len() ==> #[trigger] final(self).elements()[i]
                    == old(self).elements()[i].mul_spec(rhs.elements()[i]),
    {
        let times = |a: &mut A::ElementType, b: A::ElementType|
            requires
                (*old(a)).mul_req(b),
            ensures
                call_ensures(<A::ElementType as core::ops::Mul>::mul, (*old(a), b), *final(a)),
                A::ElementType::obeys_mul_spec() ==> *final(a) == (*old(a)).mul_spec(b),
            {
                *a = *a * b;
            };
        self.0.assign_zip_with(rhs.0, times);
    }

    /// Replaces every slot `self[i]` by `self[i] / rhs[i]`.
    pub fn div_assign(&mut self, rhs: Self) where
        A::ElementType: core::ops::Div<A::ElementType, Output = A::ElementType>,

        requires
            old(self).div_req(rhs),
        ensures
            final(self).elements().len() == old(self).elements().len(),
            forall|i: int|
                0 <= i < old(self).elements().len() ==> call_ensures(
                    <A::ElementType as core::ops::Div>::div,
                    (old(self).elements()[i], rhs.elements()[i]),
                    #[trigger] final(self).elements()[i],
                ),
            A::ElementType::obeys_div_spec() ==> forall|i: int|
                0 <= i < old(self).elements().len() ==> #[trigger] final(self).elements()[i]
                    == old(self).elements()[i].div_spec(rhs.elements()[i]),
    {
        let over = |a: &mut A::ElementType, b: A::ElementType|
            requires
                (*old(a)).div_req(b),
            ensures
                call_ensures(<A::ElementType as core::ops::Div>::div, (*old(a), b), *final(a)),
                A::ElementType::obeys_div_spec() ==> *final(a) == (*old(a)).div_spec(b),
            {
                *a = *a / b;
            };
        self.0.assign_zip_with(rhs.0, over);
    }
}

} // verus!
