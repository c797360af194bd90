use tricenum::{EnumArray, TrivialEnum, Vector, VectorMath};

#[derive(Clone, Copy, PartialEq, Eq, Debug)]
enum Slot {
    First,
    Second,
    Third,
    Fourth,
    Fifth,
    Last,
}

impl TrivialEnum for Slot {
    const ENUM_SIZE: usize = 6;

    fn index_of(self) -> usize {
        self.index()
    }

    fn variant_at(i: usize) -> Self {
        Self::from_index_unchecked(i)
    }

    fn bijection(_v: Self, _i: usize) {}

    fn index(self) -> usize {
        match self {
            Slot::First => 0,
            Slot::Second => 1,
            Slot::Third => 2,
            Slot::Fourth => 3,
            Slot::Fifth => 4,
            Slot::Last => 5,
        }
    }

    fn from_index_unchecked(val: usize) -> Self {
        match val {
            0 => Slot::First,
            1 => Slot::Second,
            2 => Slot::Third,
            3 => Slot::Fourth,
            4 => Slot::Fifth,
            5 => Slot::Last,
            _ => panic!("index out of range"),
        }
    }
}

const ALL: [Slot; 6] =
    [Slot::First, Slot::Second, Slot::Third, Slot::Fourth, Slot::Fifth, Slot::Last];

type Six<T> = EnumArray<Slot, T, 6>;

fn counting(from: i32, step: i32) -> Six<i32> {
    let mut a: Six<i32> = EnumArray::new();
    for (k, s) in ALL.iter().enumerate() {
        a[*s] = from + step * (k as i32);
    }
    a
}

#[test]
fn collect_from_pairs_covers_every_variant() {
    let a: Six<i32> = EnumArray::from_iter(vec![(Slot::First, 1), (Slot::Last, 2)]);
    assert_eq!(a[Slot::First], 1);
    assert_eq!(a[Slot::Last], 2);
    assert_eq!(a[Slot::Second], 0);
    assert_eq!(a[Slot::Third], 0);
    assert_eq!(a[Slot::Fourth], 0);
    assert_eq!(a[Slot::Fifth], 0);
}

#[test]
fn collect_from_pairs_last_write_wins() {
    let a: Six<i32> = EnumArray::from_iter(vec![(Slot::First, 1), (Slot::First, 2)]);
    assert_eq!(a[Slot::First], 2);
    let b: Six<i32> =
        EnumArray::from_iter(vec![(Slot::Third, 7), (Slot::First, 1), (Slot::Third, 9)]);
    assert_eq!(b[Slot::Third], 9);
    assert_eq!(b[Slot::First], 1);
}

#[test]
fn collect_from_no_pairs_is_all_default() {
    let a: Six<u8> = EnumArray::from_iter(Vec::new());
    for s in ALL {
        assert_eq!(a[s], 0);
    }
}

#[test]
fn fill_clones_into_every_slot() {
    let a: Six<String> = EnumArray::fill(&String::from("x"));
    for s in ALL {
        assert_eq!(a[s], "x");
    }
}

#[test]
fn default_and_new_are_all_default() {
    let a: Six<i64> = EnumArray::default();
    let b: Six<String> = EnumArray::new();
    for s in ALL {
        assert_eq!(a[s], 0);
        assert_eq!(b[s], "");
    }
}

#[test]
fn from_single_sets_one_slot() {
    let a: Six<i32> = EnumArray::from_single(Slot::Fourth, 42);
    let b: Six<i32> = EnumArray::from_pair((Slot::Fourth, 42));
    for s in ALL {
        let expected = if s == Slot::Fourth { 42 } else { 0 };
        assert_eq!(a[s], expected);
        assert_eq!(b[s], expected);
    }
}

#[test]
fn index_mut_writes_one_slot() {
    let mut a: Six<i32> = EnumArray::fill(&5);
    a[Slot::Second] = 8;
    *std::ops::IndexMut::index_mut(&mut a, Slot::Last) += 1;
    assert_eq!(a[Slot::First], 5);
    assert_eq!(a[Slot::Second], 8);
    assert_eq!(a[Slot::Last], 6);
    assert_eq!(*std::ops::Index::index(&a, Slot::Third), 5);
}

#[test]
fn into_zip_with_visits_slots_in_order() {
    let a = counting(0, 1);
    let b = counting(10, 10);
    let mut seen = Vec::new();
    let c = a.into_zip_with(b, |x, y| {
        seen.push((x, y));
        y - x
    });
    assert_eq!(seen, vec![(0, 10), (1, 20), (2, 30), (3, 40), (4, 50), (5, 60)]);
    assert_eq!(c[Slot::First], 10);
    assert_eq!(c[Slot::Fourth], 37);
    assert_eq!(c[Slot::Last], 55);
}

#[test]
fn assign_zip_with_visits_slots_in_order() {
    let mut a = counting(0, 1);
    let b = counting(10, 10);
    let mut seen = Vec::new();
    a.assign_zip_with(b, |x, y| {
        seen.push((*x, y));
        *x = *x * y;
    });
    assert_eq!(seen, vec![(0, 10), (1, 20), (2, 30), (3, 40), (4, 50), (5, 60)]);
    assert_eq!(a[Slot::First], 0);
    assert_eq!(a[Slot::Second], 20);
    assert_eq!(a[Slot::Last], 300);
}

#[test]
fn vector_sum_is_slot_by_slot() {
    let a = counting(1, 2);
    let b = counting(100, -3);
    let c = Vector(counting(1, 2)) + Vector(counting(100, -3));
    for s in ALL {
        assert_eq!(c[s], a[s] + b[s]);
    }
    assert_eq!(c[Slot::First], 101);
    assert_eq!(c[Slot::Last], 96);
}

#[test]
fn vector_operators_give_exact_values() {
    let d = Vector(counting(10, 10)) - Vector(counting(1, 1));
    assert_eq!(d[Slot::First], 9);
    assert_eq!(d[Slot::Third], 27);
    let m = Vector(counting(1, 1)) * Vector(counting(2, 2));
    assert_eq!(m[Slot::Second], 8);
    assert_eq!(m[Slot::Last], 72);
    let q = Vector(counting(20, 20)) / Vector(counting(1, 1));
    assert_eq!(q[Slot::First], 20);
    assert_eq!(q[Slot::Fifth], 20);
    let r = Vector(counting(7, 0)) / Vector(counting(2, 1));
    assert_eq!(r[Slot::First], 3);
    assert_eq!(r[Slot::Last], 1);
}

#[test]
fn vector_assign_operators_give_exact_values() {
    let mut v = Vector(counting(10, 10));
    v.add_assign(Vector(counting(1, 1)));
    assert_eq!(v[Slot::First], 11);
    assert_eq!(v[Slot::Last], 66);
    v.sub_assign(Vector(counting(1, 0)));
    assert_eq!(v[Slot::First], 10);
    assert_eq!(v[Slot::Last], 65);
    v.mul_assign(Vector(counting(2, 0)));
    assert_eq!(v[Slot::Second], 42);
    v.div_assign(Vector(counting(4, 0)));
    assert_eq!(v[Slot::Second], 10);
    assert_eq!(v[Slot::Last], 32);
}

#[test]
fn vector_wraps_and_indexes_through() {
    let v: Vector<Six<i32>> = Vector::from(counting(3, 1));
    assert_eq!(v[Slot::Third], 5);
    assert_eq!(v.0[Slot::Third], 5);
    let w: Vector<Six<i32>> = counting(3, 1).into();
    assert_eq!(w[Slot::Last], 8);
    let d: Vector<i32> = Vector::default();
    assert_eq!(d.0, 0);
}
