use std::ops::Index;
use tricenum::{Vector, VectorMath};

/// A container of the test's own: three slots.
#[derive(Clone, Copy, Debug, PartialEq, Eq, Default)]
struct Triple([i64; 3]);

impl VectorMath for Triple {
    type ElementType = i64;

    fn elements(self) -> vstd::seq::Seq<i64> {
        panic!("a model is never run")
    }

    fn into_zip_with<F: FnMut(i64, i64) -> i64>(self, other: Self, mut f: F) -> Self {
        Triple([f(self.0[0], other.0[0]), f(self.0[1], other.0[1]), f(self.0[2], other.0[2])])
    }

    fn assign_zip_with<F: FnMut(&mut i64, i64)>(&mut self, other: Self, mut f: F) {
        for (s, v) in self.0.iter_mut().zip(other.0) {
            f(s, v);
        }
    }
}

impl Index<usize> for Triple {
    type Output = i64;

    fn index(&self, index: usize) -> &i64 {
        &self.0[index]
    }
}

#[test]
fn any_container_with_zip_gets_the_operators() {
    let a = Vector(Triple([1, 2, 3]));
    let b = Vector(Triple([10, 20, 30]));
    assert_eq!((a + b).0, Triple([11, 22, 33]));
    assert_eq!((b - a).0, Triple([9, 18, 27]));
    assert_eq!((a * b).0, Triple([10, 40, 90]));
    assert_eq!((b / a).0, Triple([10, 10, 10]));
    assert_eq!((a - b).0, Triple([-9, -18, -27]));
    assert_eq!((a / b).0, Triple([0, 0, 0]));
}

#[test]
fn the_mutating_forms_change_the_left_operand() {
    let mut v = Vector(Triple([1, 2, 3]));
    v.add_assign(Vector(Triple([10, 20, 30])));
    assert_eq!(v.0, Triple([11, 22, 33]));
    v.mul_assign(Vector(Triple([2, 3, 4])));
    assert_eq!(v.0, Triple([22, 66, 132]));
    v.sub_assign(Vector(Triple([2, 6, 12])));
    assert_eq!(v.0, Triple([20, 60, 120]));
    v.div_assign(Vector(Triple([20, 7, -60])));
    assert_eq!(v.0, Triple([1, 8, -2]));
}

#[test]
fn the_wrapper_indexes_through_and_converts() {
    let v: Vector<Triple> = Triple([7, 8, 9]).into();
    assert_eq!(v[0], 7);
    assert_eq!(v[2], 9);
    assert_eq!(Vector::from(Triple([7, 8, 9])).0, v.0);
    let copy = v;
    assert_eq!(copy.0, v.0);
    assert_eq!(v.clone().0, Triple([7, 8, 9]));
    assert_eq!(Vector::<Triple>::default().0, Triple([0, 0, 0]));
    assert_eq!(format!("{:?}", v), "Vector(Triple([7, 8, 9]))");
}
