use tricenum::{EnumBitset, EnumBitsetIter, TrivialEnum};

#[allow(dead_code)]
#[derive(PartialEq, Eq, Debug)]
enum TestEnum {
    First,
    Second,
    Third,
    Fourth,
    Fith,
    Last,
}

impl TrivialEnum for TestEnum {
    const ENUM_SIZE: usize = 6;

    fn index_of(self) -> usize {
        self.index()
    }

    fn variant_at(i: usize) -> Self {
        Self::from_index_unchecked(i)
    }

    fn bijection(_v: Self, _i: usize) {}

    fn index(self) -> usize {
        match self {
            TestEnum::First => 0,
            TestEnum::Second => 1,
            TestEnum::Third => 2,
            TestEnum::Fourth => 3,
            TestEnum::Fith => 4,
            TestEnum::Last => 5,
        }
    }

    fn from_index_unchecked(val: usize) -> Self {
        match val {
            0 => TestEnum::First,
            1 => TestEnum::Second,
            2 => TestEnum::Third,
            3 => TestEnum::Fourth,
            4 => TestEnum::Fith,
            5 => TestEnum::Last,
            _ => panic!("index out of range"),
        }
    }
}

#[test]
fn test_from_iter() {
    let bitset: EnumBitset<TestEnum> = EnumBitset::from_iter(vec![TestEnum::First, TestEnum::Last]);
    assert!(bitset.is_set(TestEnum::First));
    assert!(bitset.is_set(TestEnum::Last));
    assert!(!bitset.is_set(TestEnum::Second));
}

#[test]
fn test_from() {
    let bitset: EnumBitset<TestEnum> =
        EnumBitset::from_array([TestEnum::First, TestEnum::Last, TestEnum::Third]);
    assert!(bitset.is_set(TestEnum::First));
    assert!(bitset.is_set(TestEnum::Last));
    assert!(!bitset.is_set(TestEnum::Second));
}

#[test]
fn test_iterator() {
    let bitset: EnumBitset<TestEnum> = EnumBitset::from_array([
        TestEnum::Fourth,
        TestEnum::First,
        TestEnum::Last,
        TestEnum::Third,
    ]);
    let mut it = bitset.iter();

    assert_eq!(Some(TestEnum::First), it.next());
    assert_eq!(Some(TestEnum::Third), it.next());
    assert_eq!(Some(TestEnum::Fourth), it.next());
    assert_eq!(Some(TestEnum::Last), it.next());
    assert_eq!(None, it.next());
    assert_eq!(None, it.next());
}

#[test]
fn test_double_ended_iterator() {
    let bitset: EnumBitset<TestEnum> = EnumBitset::from_array([
        TestEnum::First,
        TestEnum::Last,
        TestEnum::Fourth,
        TestEnum::Third,
    ]);
    let mut it = bitset.iter();

    assert_eq!(Some(TestEnum::Last), it.next_back());
    assert_eq!(Some(TestEnum::Fourth), it.next_back());

    assert_eq!(Some(TestEnum::First), it.next());
    assert_eq!(Some(TestEnum::Third), it.next());
    assert_eq!(None, it.next());
    assert_eq!(None, it.next());
}

const ALL: [fn() -> TestEnum; 6] = [
    || TestEnum::First,
    || TestEnum::Second,
    || TestEnum::Third,
    || TestEnum::Fourth,
    || TestEnum::Fith,
    || TestEnum::Last,
];

fn members(set: &EnumBitset<TestEnum>) -> Vec<bool> {
    ALL.iter().map(|v| set.is_set(v())).collect()
}

fn drain(mut it: EnumBitsetIter<TestEnum>) -> Vec<TestEnum> {
    let mut out = Vec::new();
    while let Some(v) = it.next() {
        out.push(v);
    }
    out
}

#[test]
fn new_set_is_empty() {
    let set: EnumBitset<TestEnum> = EnumBitset::new();
    assert!(set.is_none());
    assert_eq!(members(&set), vec![false; 6]);
    assert_eq!(set.iter().len(), 0);
    assert_eq!(set.iter().next(), None);
    assert_eq!(set.iter().next_back(), None);
    EnumBitset::<TestEnum>::const_validate_size();
}

#[test]
fn from_variant_holds_one_variant() {
    let set = EnumBitset::from_variant(TestEnum::Third);
    assert_eq!(members(&set), vec![false, false, true, false, false, false]);
    assert!(!set.is_none());
    assert_eq!(drain(set.iter()), vec![TestEnum::Third]);
}

#[test]
fn set_unset_and_set_to_change_one_bit() {
    let mut set: EnumBitset<TestEnum> = EnumBitset::new();
    set.set(TestEnum::Second);
    set.set(TestEnum::Last);
    set.set(TestEnum::Second);
    assert_eq!(members(&set), vec![false, true, false, false, false, true]);
    set.unset(TestEnum::Second);
    set.unset(TestEnum::Fourth);
    assert_eq!(members(&set), vec![false, false, false, false, false, true]);
    set.set_to(TestEnum::First, true);
    set.set_to(TestEnum::Last, false);
    set.set_to(TestEnum::Third, false);
    assert_eq!(members(&set), vec![true, false, false, false, false, false]);
    set.unset(TestEnum::First);
    assert!(set.is_none());
}

#[test]
fn duplicates_count_once() {
    let set = EnumBitset::from_iter(vec![TestEnum::Third, TestEnum::Third, TestEnum::Third]);
    assert_eq!(set.iter().len(), 1);
    assert_eq!(drain(set.iter()), vec![TestEnum::Third]);
    let none: EnumBitset<TestEnum> = EnumBitset::from_iter(Vec::new());
    assert!(none.is_none());
    let empty: [TestEnum; 0] = [];
    assert!(EnumBitset::from_array(empty).is_none());
}

#[test]
fn is_any_set_tells_overlap() {
    let a = EnumBitset::from_array([TestEnum::First, TestEnum::Third]);
    let b = EnumBitset::from_array([TestEnum::Third, TestEnum::Last]);
    let c = EnumBitset::from_array([TestEnum::Second, TestEnum::Last]);
    assert!(a.is_any_set(b));
    assert!(!a.is_any_set(c));
    assert!(b.is_any_set(c));
    assert!(!a.is_any_set(EnumBitset::new()));
    assert!(!EnumBitset::<TestEnum>::new().is_any_set(EnumBitset::new()));
}

#[test]
fn index_reads_membership() {
    let a = EnumBitset::from_array([TestEnum::First, TestEnum::Third]);
    assert!(a[TestEnum::First]);
    assert!(!a[TestEnum::Second]);
    assert!(a[TestEnum::Third]);
}

#[test]
fn boolean_algebra_gives_exact_members() {
    let a = EnumBitset::from_array([TestEnum::First, TestEnum::Third, TestEnum::Fourth]);
    let b = EnumBitset::from_array([TestEnum::Third, TestEnum::Last]);
    assert_eq!(members(&(a | b)), vec![true, false, true, true, false, true]);
    assert_eq!(members(&(a & b)), vec![false, false, true, false, false, false]);
    assert_eq!(members(&(a ^ b)), vec![true, false, false, true, false, true]);
    assert_eq!(members(&!a), vec![false, true, false, false, true, true]);

    let mut c = a;
    c |= b;
    assert_eq!(members(&c), vec![true, false, true, true, false, true]);
    let mut d = a;
    d &= b;
    assert_eq!(members(&d), vec![false, false, true, false, false, false]);
    let mut e = a;
    e ^= b;
    assert_eq!(members(&e), vec![true, false, false, true, false, true]);
}

#[test]
fn union_with_itself_and_with_empty_changes_nothing() {
    let a = EnumBitset::from_array([TestEnum::Second, TestEnum::Fith]);
    let empty: EnumBitset<TestEnum> = EnumBitset::new();
    assert_eq!(members(&(a | a)), members(&a));
    assert_eq!(members(&(a | empty)), members(&a));
    assert_eq!(members(&(empty | a)), members(&a));
    assert_eq!((a | a).iter().len(), 2);
}

#[test]
fn complement_twice_is_the_set() {
    let a = EnumBitset::from_array([TestEnum::Second, TestEnum::Fith]);
    let back = !!a;
    assert_eq!(members(&back), members(&a));
    assert_eq!(drain(back.iter()), vec![TestEnum::Second, TestEnum::Fith]);
    // The complement also has the bits above the six variants, so it is never empty.
    let full = EnumBitset::from_array([
        TestEnum::First,
        TestEnum::Second,
        TestEnum::Third,
        TestEnum::Fourth,
        TestEnum::Fith,
        TestEnum::Last,
    ]);
    assert_eq!(members(&!full), vec![false; 6]);
    assert!(!(!full).is_none());
    assert!((!!full & full).iter().len() == 6);
}

#[test]
fn copies_are_independent() {
    let a = EnumBitset::from_variant(TestEnum::First);
    let mut b = a;
    let c = a.clone();
    b.set(TestEnum::Last);
    assert_eq!(members(&a), vec![true, false, false, false, false, false]);
    assert_eq!(members(&b), vec![true, false, false, false, false, true]);
    assert_eq!(members(&c), members(&a));
}

#[test]
fn iteration_is_ascending_from_the_front_and_descending_from_the_back() {
    let set = EnumBitset::from_array([
        TestEnum::Fourth,
        TestEnum::First,
        TestEnum::Last,
        TestEnum::Third,
    ]);
    assert_eq!(
        drain(set.iter()),
        vec![TestEnum::First, TestEnum::Third, TestEnum::Fourth, TestEnum::Last]
    );
    let mut it = set.into_iter();
    assert_eq!(it.next_back(), Some(TestEnum::Last));
    assert_eq!(it.next_back(), Some(TestEnum::Fourth));
    assert_eq!(it.next_back(), Some(TestEnum::Third));
    assert_eq!(it.next_back(), Some(TestEnum::First));
    assert_eq!(it.next_back(), None);
    assert_eq!(it.next(), None);
}

#[test]
fn len_counts_what_is_left() {
    let set = EnumBitset::from_array([
        TestEnum::Fourth,
        TestEnum::First,
        TestEnum::Last,
        TestEnum::Third,
    ]);
    let mut it = EnumBitsetIter::new(&set);
    assert_eq!(it.len(), 4);
    assert_eq!(it.next_back(), Some(TestEnum::Last));
    assert_eq!(it.len(), 3);
    assert_eq!(it.next_back(), Some(TestEnum::Fourth));
    assert_eq!(it.len(), 2);
    assert_eq!(it.next(), Some(TestEnum::First));
    assert_eq!(it.len(), 1);
    assert_eq!(it.next(), Some(TestEnum::Third));
    assert_eq!(it.len(), 0);
    assert_eq!(it.next(), None);
    assert_eq!(it.next_back(), None);
    assert_eq!(it.len(), 0);
    // The set itself is untouched by the cursor.
    assert_eq!(set.iter().len(), 4);
}

/// A position in `0..32`, as an enumeration with 32 variants.
#[derive(Clone, Copy, PartialEq, Eq, Debug)]
struct Wide(u8);

impl TrivialEnum for Wide {
    const ENUM_SIZE: usize = 32;

    fn index_of(self) -> usize {
        self.index()
    }

    fn variant_at(i: usize) -> Self {
        Self::from_index_unchecked(i)
    }

    fn bijection(_v: Self, _i: usize) {}

    fn index(self) -> usize {
        self.0 as usize
    }

    fn from_index_unchecked(val: usize) -> Self {
        assert!(val < 32);
        Wide(val as u8)
    }
}

#[test]
fn the_full_word_is_usable() {
    let mut set: EnumBitset<Wide> = EnumBitset::from_array([Wide(31), Wide(0), Wide(16)]);
    assert!(set.is_set(Wide(31)));
    assert!(set.is_set(Wide(0)));
    assert!(!set.is_set(Wide(30)));
    let mut it = set.iter();
    assert_eq!(it.len(), 3);
    assert_eq!(it.next(), Some(Wide(0)));
    assert_eq!(it.next(), Some(Wide(16)));
    assert_eq!(it.next(), Some(Wide(31)));
    assert_eq!(it.next(), None);
    let mut back = set.iter();
    assert_eq!(back.next_back(), Some(Wide(31)));
    assert_eq!(back.next_back(), Some(Wide(16)));
    assert_eq!(back.next_back(), Some(Wide(0)));
    assert_eq!(back.next_back(), None);

    set.unset(Wide(0));
    set.unset(Wide(16));
    let mut last = set.iter();
    assert_eq!(last.next(), Some(Wide(31)));
    assert_eq!(last.len(), 0);

    let all = !EnumBitset::<Wide>::new();
    let mut it = all.iter();
    assert_eq!(it.len(), 32);
    for k in 0..32u8 {
        assert_eq!(it.next(), Some(Wide(k)));
    }
    assert_eq!(it.next(), None);
    assert!((!all).is_none());
}

#[test]
fn complement_masked_to_the_variants_round_trips() {
    let full = EnumBitset::from_array([
        TestEnum::First,
        TestEnum::Second,
        TestEnum::Third,
        TestEnum::Fourth,
        TestEnum::Fith,
        TestEnum::Last,
    ]);
    let a = EnumBitset::from_array([TestEnum::Second, TestEnum::Fith]);
    let rest = !a & full;
    assert_eq!(
        drain(rest.iter()),
        vec![TestEnum::First, TestEnum::Third, TestEnum::Fourth, TestEnum::Last]
    );
    let back = !rest & full;
    assert_eq!(drain(back.iter()), vec![TestEnum::Second, TestEnum::Fith]);
    assert!((rest & a).is_none());
    assert_eq!((rest | a).iter().len(), 6);
}

#[test]
fn only_a_complement_has_bits_that_stand_for_no_variant() {
    let a = EnumBitset::from_array([TestEnum::Second, TestEnum::Last]);
    assert!(a.holds_only_variants());
    assert!(EnumBitset::<TestEnum>::new().holds_only_variants());
    assert!(!(!a).holds_only_variants());
    assert!((!a & a).holds_only_variants());
    assert!((!!a).holds_only_variants());
    assert!((!EnumBitset::<Wide>::new()).holds_only_variants());
}
