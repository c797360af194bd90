use core::marker::PhantomData;
use vstd::prelude::*;
use crate::bits::{
    bit, lemma_bit_algebra, lemma_bit_cleared, lemma_bit_single, lemma_high_bits, lemma_highest_bit,
    lemma_lowest_bit, lemma_pop_highest, lemma_pop_lowest, lemma_positions_count,
    lemma_positions_empty, lemma_positions_sorted, ones, positions, single,
};
use crate::convert::array_into_vec;
use crate::trivial_enum::{lemma_index_injective, variants_at, TrivialEnum};

verus! {

/// A set of variants of `E`, packed into one 32-bit word: bit `i` of the word
/// says whether the variant at position `i` is in the set.
pub struct EnumBitset<E: TrivialEnum> {
    flags: u32,
    phantom: PhantomData<E>,
}

impl<E: TrivialEnum> Clone for EnumBitset<E> {
    fn clone(&self) -> (s: Self)
        ensures
            s == *self,
    {
        *self
    }
}

impl<E: TrivialEnum> Copy for EnumBitset<E> {

}

impl<E: TrivialEnum> View for EnumBitset<E> {
    type V = Set<E>;

    /// The variants in the set.
    open spec fn view(&self) -> Set<E> {
        Set::new(|v: E| self.has(v))
    }
}

/// The word with the bit of each of the given variants set.
pub open spec fn word_of<E: TrivialEnum>(items: Seq<E>) -> u32
    decreases items.len(),
{
    if items.len() == 0 {
        0
    } else {
        word_of(items.drop_last()) | single(items.last().index_of() as nat)
    }
}

/// A bit of `word_of(items)` is set exactly where one of the items stands at that position.
pub proof fn lemma_word_of_bits<E: TrivialEnum>(items: Seq<E>)
    requires
        E::ENUM_SIZE <= 32,
    ensures
        forall|i: nat| #[trigger]
            bit(word_of(items), i) == exists|k: int|
                0 <= k < items.len() && #[trigger] items[k].index_of() as nat == i,
    decreases items.len(),
{
    assert forall|i: nat| #[trigger]
        bit(word_of(items), i) == exists|k: int|
            0 <= k < items.len() && #[trigger] items[k].index_of() as nat == i by {
        if items.len() == 0 {
            lemma_bit_algebra(0, 0, i);
        } else {
            let front = items.drop_last();
            let last = items.last();
            lemma_word_of_bits(front);
            E::bijection(last, 0);
            lemma_bit_algebra(word_of(front), single(last.index_of() as nat), i);
            lemma_bit_single(last.index_of() as nat, i);
            if bit(word_of(items), i) {
                if bit(word_of(front), i) {
                    let k = choose|k: int|
                        0 <= k < front.len() && #[trigger] front[k].index_of() as nat == i;
                    assert(items[k].index_of() as nat == i);
                } else {
                    assert(items[items.len() - 1].index_of() as nat == i);
                }
            } else {
                if exists|k: int|
                    0 <= k < items.len() && #[trigger] items[k].index_of() as nat == i {
                    let k = choose|k: int|
                        0 <= k < items.len() && #[trigger] items[k].index_of() as nat == i;
                    if k < front.len() {
                        assert(front[k].index_of() as nat == i);
                    }
                }
            }
        }
    }
}

impl<E: TrivialEnum> EnumBitset<E> {
    #[verifier::type_invariant]
    spec fn fits(self) -> bool {
        E::ENUM_SIZE <= 32
    }

    /// The backing word.
    pub closed spec fn word(self) -> u32 {
        self.flags
    }

    /// The set whose backing word is `w`.
    pub closed spec fn of_word(w: u32) -> Self {
        EnumBitset { flags: w, phantom: PhantomData }
    }

    /// Whether `v` is in the set.
    pub open spec fn has(self, v: E) -> bool {
        bit(self.word(), v.index_of() as nat)
    }

    /// No bit is set at or above position `ENUM_SIZE`: every set bit stands for a variant.
    pub open spec fn is_proper(self) -> bool {
        forall|i: nat| bit(self.word(), i) ==> i < E::ENUM_SIZE
    }

    /// The variants in the set, lowest position first.
    pub open spec fn ordered(self) -> Seq<E> {
        variants_at(positions(self.word(), 0, 32))
    }

    /// The set with no variant in it.
    pub open spec fn empty() -> Self {
        Self::of_word(0)
    }

    /// The set that holds `v` alone.
    pub open spec fn only(v: E) -> Self {
        Self::of_word(single(v.index_of() as nat))
    }

    /// The set of the variants that are in `self` or in `rhs`.
    pub open spec fn union(self, rhs: Self) -> Self {
        Self::of_word(self.word() | rhs.word())
    }

    /// The set of the variants that are in `self` and in `rhs`.
    pub open spec fn intersection(self, rhs: Self) -> Self {
        Self::of_word(self.word() & rhs.word())
    }

    /// The set of the variants that are in exactly one of `self` and `rhs`.
    pub open spec fn symmetric_difference(self, rhs: Self) -> Self {
        Self::of_word(self.word() ^ rhs.word())
    }

    /// The complement over all 32 bits of the word, the bits at or above `ENUM_SIZE` included.
    pub open spec fn complement(self) -> Self {
        Self::of_word(!self.word())
    }

    /// A set is its backing word: `of_word` and `word` undo each other.
    pub proof fn lemma_word(w: u32, s: Self)
        ensures
            Self::of_word(w).word() == w,
            Self::of_word(s.word()) == s,
    {
    }

    /// Succeeds where the bit-set is wide enough for `E`.
    pub fn const_validate_size()
        requires
            E::ENUM_SIZE <= 32,
    {
    }

    /// The empty set.
    pub fn new() -> (s: Self)
        requires
            E::ENUM_SIZE <= 32,
        ensures
            s == Self::empty(),
            s.word() == 0,
            s@ == Set::<E>::empty(),
            s.is_proper(),
    {
        let s = Self::new_raw_internal(0);
        proof {
            assert forall|i: nat| !bit(0u32, i) by {
                lemma_bit_algebra(0, 0, i);
            }
            assert(s@ =~= Set::<E>::empty());
        }
        s
    }

    fn new_raw_internal(flags: u32) -> (s: Self)
        requires
            E::ENUM_SIZE <= 32,
        ensures
            s == Self::of_word(flags),
            s.word() == flags,
    {
        EnumBitset { flags, phantom: PhantomData }
    }

    fn enum_as_flag(value: E) -> (flag: u32)
        requires
            E::ENUM_SIZE <= 32,
        ensures
            flag == single(value.index_of() as nat),
    {
        1u32 << value.index()
    }

    /// The set that holds `value` alone.
    pub fn from_variant(value: E) -> (s: Self)
        requires
            E::ENUM_SIZE <= 32,
        ensures
            s == Self::only(value),
            s.word() == single(value.index_of() as nat),
            s@ == Set::<E>::empty().insert(value),
            s.is_proper(),
    {
        let s = Self::new_raw_internal(Self::enum_as_flag(value));
        proof {
            E::bijection(value, 0);
            assert forall|i: nat| bit(s.word(), i) implies i < E::ENUM_SIZE by {
                lemma_bit_single(value.index_of() as nat, i);
            }
            assert forall|v: E| s.has(v) == (v == value) by {
                lemma_bit_single(value.index_of() as nat, v.index_of() as nat);
                if v.index_of() as nat == value.index_of() as nat {
                    lemma_index_injective(v, value);
                }
            }
            assert(s@ =~= Set::<E>::empty().insert(value));
        }
        s
    }

    /// The set of the given variants. A variant given more than once counts once.
    pub fn from_iter(items: Vec<E>) -> (s: Self)
        requires
            E::ENUM_SIZE <= 32,
        ensures
            s.word() == word_of(items@),
            s@ == items@.to_set(),
            s.is_proper(),
    {
        let ghost all = items@;
        let mut flags: u32 = 0;
        for v in it: items.into_iter()
            invariant
                E::ENUM_SIZE <= 32,
                it.seq() == all,
                flags == word_of(all.take(it.index() as int)),
        {
            proof {
                let k = it.index() as int;
                assert(all.take(k + 1).drop_last() =~= all.take(k));
                assert(all.take(k + 1).last() == v);
            }
            flags = flags | Self::enum_as_flag(v);
        }
        proof {
            assert(all.take(all.len() as int) =~= all);
            lemma_word_of_bits(all);
        }
        let s = Self::new_raw_internal(flags);
        proof {
            assert forall|v: E| s.has(v) == all.contains(v) by {
                if s.has(v) {
                    let k = choose|k: int|
                        0 <= k < all.len() && all[k].index_of() as nat == v.index_of() as nat;
                    lemma_index_injective(all[k], v);
                } else if all.contains(v) {
                    let k = choose|k: int| 0 <= k < all.len() && all[k] == v;
                    assert(all[k].index_of() as nat == v.index_of() as nat);
                }
            }
            assert(s@ =~= all.to_set());
            assert forall|i: nat| bit(s.word(), i) implies i < E::ENUM_SIZE by {
                let k = choose|k: int| 0 <= k < all.len() && all[k].index_of() as nat == i;
                E::bijection(all[k], 0);
            }
        }
        s
    }

    /// The set of the variants in the given array.
    pub fn from_array<const N: usize>(arr: [E; N]) -> (s: Self)
        requires
            E::ENUM_SIZE <= 32,
        ensures
            s.word() == word_of(arr@),
            s@ == arr@.to_set(),
            s.is_proper(),
    {
        Self::from_iter(array_into_vec(arr))
    }

    /// Whether every set bit stands for a variant, as `iter` asks.
    pub fn holds_only_variants(&self) -> (b: bool)
        ensures
            b == self.is_proper(),
    {
        proof {
            use_type_invariant(self);
        }
        if E::ENUM_SIZE >= 32 {
            assert forall|i: nat| bit(self.word(), i) implies i < E::ENUM_SIZE by {}
            true
        } else {
            let high = self.flags >> (E::ENUM_SIZE as u32);
            proof {
                lemma_high_bits(self.flags, E::ENUM_SIZE as nat);
                if high != 0 {
                    let i = choose|i: nat| bit(self.flags, i) && i >= E::ENUM_SIZE;
                    assert(bit(self.word(), i));
                } else {
                    assert forall|i: nat| bit(self.word(), i) implies i < E::ENUM_SIZE by {
                        assert(bit(self.flags, i));
                    }
                }
            }
            high == 0
        }
    }

    /// A cursor over the variants in the set.
    pub fn iter(&self) -> (it: EnumBitsetIter<E>)
        requires
            self.is_proper(),
        ensures
            it.word() == self.word(),
            it@ == self.ordered(),
    {
        EnumBitsetIter::new(self)
    }

    /// A cursor over the variants in the set.
    pub fn into_iter(self) -> (it: EnumBitsetIter<E>)
        requires
            self.is_proper(),
        ensures
            it.word() == self.word(),
            it@ == self.ordered(),
    {
        self.iter()
    }

    /// Whether `value` is in the set.
    pub fn is_set(&self, value: E) -> (b: bool)
        ensures
            b == self.has(value),
            b == self@.contains(value),
    {
        proof {
            use_type_invariant(self);
        }
        let ghost k = value.index_of() as u32;
        let ghost w = self.flags;
        proof {
            E::bijection(value, 0);
            assert(k < 32 ==> ((w & (1u32 << k)) != 0) == ((w >> k) & 1u32 == 1u32))
                by (bit_vector);
        }
        self.is_any_set(Self::from_variant(value))
    }

    /// Puts `value` into the set.
    pub fn set(&mut self, value: E)
        ensures
            *final(self) == old(self).union(Self::only(value)),
            final(self).word() == old(self).word() | single(value.index_of() as nat),
            final(self)@ == old(self)@.insert(value),
            old(self).is_proper() ==> final(self).is_proper(),
    {
        proof {
            use_type_invariant(&*self);
        }
        let ghost before = *self;
        let one = Self::from_variant(value);
        self.flags = self.flags | one.flags;
        proof {
            let after = *self;
            E::bijection(value, 0);
            assert forall|i: nat| #[trigger]
                bit(after.word(), i) == (bit(before.word(), i) || i == value.index_of() as nat) by {
                lemma_bit_algebra(before.word(), one.word(), i);
                lemma_bit_single(value.index_of() as nat, i);
            }
            assert forall|v: E| #[trigger] after.has(v) == (before.has(v) || v == value) by {
                if v.index_of() as nat == value.index_of() as nat {
                    lemma_index_injective(v, value);
                }
            }
            assert(after@ =~= before@.insert(value));
        }
    }

    /// Takes `value` out of the set.
    pub fn unset(&mut self, value: E)
        ensures
            *final(self) == old(self).intersection(Self::only(value).complement()),
            final(self).word() == old(self).word() & !single(value.index_of() as nat),
            final(self)@ == old(self)@.remove(value),
            old(self).is_proper() ==> final(self).is_proper(),
    {
        proof {
            use_type_invariant(&*self);
        }
        let ghost before = *self;
        let one = Self::from_variant(value);
        self.flags = self.flags & !one.flags;
        proof {
            let after = *self;
            E::bijection(value, 0);
            assert forall|i: nat| #[trigger]
                bit(after.word(), i) == (bit(before.word(), i) && i != value.index_of() as nat) by {
                lemma_bit_cleared(before.word(), value.index_of() as nat, i);
            }
            assert forall|v: E| #[trigger] after.has(v) == (before.has(v) && v != value) by {
                if v.index_of() as nat == value.index_of() as nat {
                    lemma_index_injective(v, value);
                }
            }
            assert(after@ =~= before@.remove(value));
        }
    }

    /// Puts `value` into the set or takes it out, as `should_be_set` says.
    pub fn set_to(&mut self, value: E, should_be_set: bool)
        ensures
            final(self).word() == if should_be_set {
                old(self).word() | single(value.index_of() as nat)
            } else {
                old(self).word() & !single(value.index_of() as nat)
            },
            final(self)@ == if should_be_set {
                old(self)@.insert(value)
            } else {
                old(self)@.remove(value)
            },
            old(self).is_proper() ==> final(self).is_proper(),
    {
        if should_be_set {
            self.set(value);
        } else {
            self.unset(value);
        }
    }

    /// Whether the two backing words have a set bit in common. For proper
    /// sets that is: whether some variant is in both.
    pub fn is_any_set(&self, other: Self) -> (b: bool)
        ensures
            b == (self.word() & other.word() != 0),
            b == exists|i: nat| bit(self.word(), i) && bit(other.word(), i),
            self.is_proper() || other.is_proper() ==> b == !self@.disjoint(other@),
    {
        let both = self.flags & other.flags;
        proof {
            if both != 0 {
                lemma_lowest_bit(both);
                let i = both.trailing_zeros() as nat;
                lemma_bit_algebra(self.flags, other.flags, i);
                assert(bit(self.word(), i) && bit(other.word(), i));
                if self.is_proper() || other.is_proper() {
                    let v = E::variant_at(i as usize);
                    E::bijection(v, i as usize);
                    assert(self@.contains(v) && other@.contains(v));
                }
            } else {
                assert forall|v: E| !(self@.contains(v) && other@.contains(v)) by {
                    lemma_bit_algebra(self.flags, other.flags, v.index_of() as nat);
                    lemma_bit_algebra(0, 0, v.index_of() as nat);
                }
                assert forall|i: nat| !(bit(self.word(), i) && bit(other.word(), i)) by {
                    lemma_bit_algebra(self.flags, other.flags, i);
                    lemma_bit_algebra(0, 0, i);
                }
            }
        }
        both != 0
    }

    /// Whether the backing word is zero. For a proper set that is: whether
    /// no variant is in it.
    pub fn is_none(&self) -> (b: bool)
        ensures
            b == (self.word() == 0),
            b == forall|i: nat| !bit(self.word(), i),
            self.is_proper() ==> b == (self@ == Set::<E>::empty()),
    {
        proof {
            if self.flags != 0 {
                lemma_lowest_bit(self.flags);
                let i = self.flags.trailing_zeros() as nat;
                assert(bit(self.word(), i));
                if self.is_proper() {
                    let v = E::variant_at(i as usize);
                    E::bijection(v, i as usize);
                    assert(self@.contains(v));
                }
            } else {
                assert forall|v: E| !self@.contains(v) by {
                    lemma_bit_algebra(0, 0, v.index_of() as nat);
                }
                assert(self@ =~= Set::<E>::empty());
                assert forall|i: nat| !bit(self.word(), i) by {
                    lemma_bit_algebra(0, 0, i);
                }
            }
        }
        self.flags == 0
    }
}

impl<E: TrivialEnum> core::ops::Index<E> for EnumBitset<E> {
    type Output = bool;

    /// Whether `index` is in the set.
    fn index(&self, index: E) -> (b: &bool)
        ensures
            *b == self.has(index),
    {
        if self.is_set(index) {
            &true
        } else {
            &false
        }
    }
}

impl<E: TrivialEnum> vstd::std_specs::core::IndexSpecImpl<E> for EnumBitset<E> {
    open spec fn index_req(&self, index: &E) -> bool {
        true
    }
}

impl<E: TrivialEnum> EnumBitset<E> {
    /// Uniting a set with itself, or with the empty set on either side, gives the set back.
    pub proof fn lemma_union_idempotent(self)
        ensures
            self.union(self) == self,
            self.union(Self::empty()) == self,
            Self::empty().union(self) == self,
    {
        let w = self.word();
        assert(w | w == w) by (bit_vector);
        assert(w | 0u32 == w) by (bit_vector);
        assert(0u32 | w == w) by (bit_vector);
    }

    /// The complement of the complement of a set is the set: from the
    /// backing word, whatever it has at or above `ENUM_SIZE`, to the variants.
    pub proof fn lemma_complement_involution(self)
        ensures
            self.complement().complement() == self,
            self.complement().complement()@ == self@,
    {
        let w = self.word();
        assert(!(!w) == w) by (bit_vector);
    }

    /// The complement of a set holds exactly the variants that the set lacks.
    pub proof fn lemma_complement_members(self)
        requires
            E::ENUM_SIZE <= 32,
        ensures
            self.complement()@ == self@.complement(),
    {
        assert forall|v: E| self.complement().has(v) == !self.has(v) by {
            E::bijection(v, 0);
            lemma_bit_algebra(self.word(), 0, v.index_of() as nat);
        }
        assert(self.complement()@ =~= self@.complement());
    }

    /// The variants of a proper set in `ordered` come in strictly rising
    /// order of position, they are exactly the variants that the set has, and
    /// there are as many of them as the backing word has ones.
    pub proof fn lemma_ordered(self)
        requires
            E::ENUM_SIZE <= 32,
            self.is_proper(),
        ensures
            forall|k: int, l: int|
                0 <= k < l < self.ordered().len() ==> self.ordered()[k].index_of()
                    < self.ordered()[l].index_of(),
            forall|v: E| self.has(v) == self.ordered().contains(v),
            self.ordered().len() == ones(self.word()),
    {
        let at = positions(self.word(), 0, 32);
        let s = self.ordered();
        lemma_positions_sorted(self.word(), 0, 32);
        lemma_positions_count(self.word());
        assert forall|k: int| 0 <= k < s.len() implies #[trigger] s[k].index_of() == at[k] by {
            assert(bit(self.word(), at[k]));
            E::bijection(s[k], at[k] as usize);
        }
        assert forall|v: E| self.has(v) == s.contains(v) by {
            E::bijection(v, 0);
            if self.has(v) {
                assert(at.contains(v.index_of() as nat));
                let k = choose|k: int| 0 <= k < at.len() && at[k] == v.index_of() as nat;
                assert(s[k] == v);
            } else if s.contains(v) {
                let k = choose|k: int| 0 <= k < s.len() && s[k] == v;
                assert(s[k].index_of() == at[k]);
            }
        }
    }
}

impl<E: TrivialEnum> core::ops::BitOr for EnumBitset<E> {
    type Output = Self;

    /// The union of the two sets.
    fn bitor(self, rhs: Self) -> (s: Self)
        ensures
            s == self.union(rhs),
            s.word() == self.word() | rhs.word(),
            s@ == self@.union(rhs@),
            self.is_proper() && rhs.is_proper() ==> s.is_proper(),
    {
        proof {
            use_type_invariant(self);
        }
        let s = Self::new_raw_internal(self.flags | rhs.flags);
        proof {
            assert forall|i: nat| #[trigger]
                bit(s.word(), i) == (bit(self.word(), i) || bit(rhs.word(), i)) by {
                lemma_bit_algebra(self.word(), rhs.word(), i);
            }
            assert(s@ =~= self@.union(rhs@));
        }
        s
    }
}

impl<E: TrivialEnum> vstd::std_specs::ops::BitOrSpecImpl for EnumBitset<E> {
    open spec fn obeys_bitor_spec() -> bool {
        true
    }

    open spec fn bitor_req(self, rhs: Self) -> bool {
        true
    }

    open spec fn bitor_spec(self, rhs: Self) -> Self {
        self.union(rhs)
    }
}

impl<E: TrivialEnum> core::ops::BitAnd for EnumBitset<E> {
    type Output = Self;

    /// The intersection of the two sets.
    fn bitand(self, rhs: Self) -> (s: Self)
        ensures
            s == self.intersection(rhs),
            s.word() == self.word() & rhs.word(),
            s@ == self@.intersect(rhs@),
            self.is_proper() || rhs.is_proper() ==> s.is_proper(),
    {
        proof {
            use_type_invariant(self);
        }
        let s = Self::new_raw_internal(self.flags & rhs.flags);
        proof {
            assert forall|i: nat| #[trigger]
                bit(s.word(), i) == (bit(self.word(), i) && bit(rhs.word(), i)) by {
                lemma_bit_algebra(self.word(), rhs.word(), i);
            }
            assert(s@ =~= self@.intersect(rhs@));
        }
        s
    }
}

impl<E: TrivialEnum> vstd::std_specs::ops::BitAndSpecImpl for EnumBitset<E> {
    open spec fn obeys_bitand_spec() -> bool {
        true
    }

    open spec fn bitand_req(self, rhs: Self) -> bool {
        true
    }

    open spec fn bitand_spec(self, rhs: Self) -> Self {
        self.intersection(rhs)
    }
}

impl<E: TrivialEnum> core::ops::BitXor for EnumBitset<E> {
    type Output = Self;

    /// The symmetric difference of the two sets.
    fn bitxor(self, rhs: Self) -> (s: Self)
        ensures
            s == self.symmetric_difference(rhs),
            s.word() == self.word() ^ rhs.word(),
            forall|v: E| s@.contains(v) == (self@.contains(v) != rhs@.contains(v)),
            self.is_proper() && rhs.is_proper() ==> s.is_proper(),
    {
        proof {
            use_type_invariant(self);
        }
        let s = Self::new_raw_internal(self.flags ^ rhs.flags);
        proof {
            assert forall|i: nat| #[trigger]
                bit(s.word(), i) == (bit(self.word(), i) != bit(rhs.word(), i)) by {
                lemma_bit_algebra(self.word(), rhs.word(), i);
            }
        }
        s
    }
}

impl<E: TrivialEnum> vstd::std_specs::ops::BitXorSpecImpl for EnumBitset<E> {
    open spec fn obeys_bitxor_spec() -> bool {
        true
    }

    open spec fn bitxor_req(self, rhs: Self) -> bool {
        true
    }

    open spec fn bitxor_spec(self, rhs: Self) -> Self {
        self.symmetric_difference(rhs)
    }
}

impl<E: TrivialEnum> core::ops::Not for EnumBitset<E> {
    type Output = Self;

    /// Inverts all 32 bits of the word: the result holds every variant that
    /// `self` lacks, and also has each bit at or above `ENUM_SIZE` that `self` lacks.
    fn not(self) -> (s: Self)
        ensures
            s == self.complement(),
            s.word() == !self.word(),
            s@ == self@.complement(),
            forall|i: nat| i < 32 ==> bit(s.word(), i) == !bit(self.word(), i),
    {
        proof {
            use_type_invariant(self);
        }
        let s = Self::new_raw_internal(!self.flags);
        proof {
            assert forall|i: nat| i < 32 implies #[trigger] bit(s.word(), i) == !bit(
                self.word(),
                i,
            ) by {
                lemma_bit_algebra(self.word(), 0, i);
            }
            assert forall|v: E| s.has(v) == !self.has(v) by {
                E::bijection(v, 0);
            }
            assert(s@ =~= self@.complement());
        }
        s
    }
}

impl<E: TrivialEnum> vstd::std_specs::ops::NotSpecImpl for EnumBitset<E> {
    open spec fn obeys_not_spec() -> bool {
        true
    }

    open spec fn not_req(self) -> bool {
        true
    }

    open spec fn not_spec(self) -> Self {
        self.complement()
    }
}

impl<E: TrivialEnum> core::ops::BitOrAssign for EnumBitset<E> {
    /// Replaces the set by its union with `rhs`.
    fn bitor_assign(&mut self, rhs: Self)
        ensures
            *final(self) == old(self).union(rhs),
            final(self).word() == old(self).word() | rhs.word(),
            final(self)@ == old(self)@.union(rhs@),
            old(self).is_proper() && rhs.is_proper() ==> final(self).is_proper(),
    {
        *self = *self | rhs;
    }
}

impl<E: TrivialEnum> core::ops::BitAndAssign for EnumBitset<E> {
    /// Replaces the set by its intersection with `rhs`.
    fn bitand_assign(&mut self, rhs: Self)
        ensures
            *final(self) == old(self).intersection(rhs),
            final(self).word() == old(self).word() & rhs.word(),
            final(self)@ == old(self)@.intersect(rhs@),
            old(self).is_proper() || rhs.is_proper() ==> final(self).is_proper(),
    {
        *self = *self & rhs;
    }
}

impl<E: TrivialEnum> core::ops::BitXorAssign for EnumBitset<E> {
    /// Replaces the set by its symmetric difference with `rhs`.
    fn bitxor_assign(&mut self, rhs: Self)
        ensures
            *final(self) == old(self).symmetric_difference(rhs),
            final(self).word() == old(self).word() ^ rhs.word(),
            forall|v: E| final(self)@.contains(v) == (old(self)@.contains(v) != rhs@.contains(v)),
            old(self).is_proper() && rhs.is_proper() ==> final(self).is_proper(),
    {
        *self = *self ^ rhs;
    }
}

/// A cursor over the variants of a bit-set, which can be consumed from both ends.
pub struct EnumBitsetIter<E: TrivialEnum> {
    flags: u32,
    phantom: PhantomData<E>,
}

impl<E: TrivialEnum> View for EnumBitsetIter<E> {
    type V = Seq<E>;

    /// The variants still to come, lowest position first.
    open spec fn view(&self) -> Seq<E> {
        variants_at(positions(self.word(), 0, 32))
    }
}

impl<E: TrivialEnum> EnumBitsetIter<E> {
    #[verifier::type_invariant]
    spec fn bounded(self) -> bool {
        &&& E::ENUM_SIZE <= 32
        &&& forall|i: nat| bit(self.flags, i) ==> i < E::ENUM_SIZE
    }

    /// The bits of the variants still to come.
    pub closed spec fn word(self) -> u32 {
        self.flags
    }

    /// A cursor over the variants in `bitset`, which must have no bit that
    /// stands for no variant.
    pub fn new(bitset: &EnumBitset<E>) -> (it: Self)
        requires
            bitset.is_proper(),
        ensures
            it.word() == bitset.word(),
            it@ == bitset.ordered(),
    {
        proof {
            use_type_invariant(bitset);
            assert forall|i: nat| bit(bitset.flags, i) implies i < E::ENUM_SIZE by {
                assert(bit(bitset.word(), i));
            }
        }
        EnumBitsetIter { flags: bitset.flags, phantom: PhantomData }
    }

    /// Takes the variant at the lowest position off the cursor.
    pub fn next(&mut self) -> (r: Option<E>)
        ensures
            old(self)@.len() == 0 ==> r is None && final(self)@ == old(self)@,
            old(self)@.len() > 0 ==> r == Some(old(self)@.first()),
            old(self)@.len() > 0 ==> final(self)@ == old(self)@.drop_first(),
            final(self).word() == if old(self).word() == 0 {
                0
            } else {
                old(self).word() & !single(old(self).word().trailing_zeros() as nat)
            },
            final(self)@.len() == if old(self)@.len() == 0 {
                0
            } else {
                old(self)@.len() - 1
            },
    {
        proof {
            use_type_invariant(&*self);
            lemma_positions_empty(self.flags);
        }
        if self.flags == 0 {
            return None;
        }
        let ghost before = self.flags;
        proof {
            lemma_pop_lowest(before);
            lemma_lowest_bit(before);
        }
        let idx = self.flags.trailing_zeros() as usize;
        let cleared = self.flags & !(1u32 << idx);
        proof {
            assert forall|i: nat| bit(cleared, i) implies i < E::ENUM_SIZE by {
                lemma_bit_cleared(before, idx as nat, i);
            }
        }
        self.flags = cleared;
        proof {
            let low = idx as nat;
            let rest = positions(self.flags, 0, 32);
            let first = seq![E::variant_at(low as usize)];
            let others = variants_at::<E>(rest);
            assert(variants_at::<E>(seq![low] + rest) =~= first + others);
            assert((first + others).drop_first() =~= others);
        }
        Some(E::from_index_unchecked(idx))
    }

    /// Takes the variant at the highest position off the cursor.
    pub fn next_back(&mut self) -> (r: Option<E>)
        ensures
            old(self)@.len() == 0 ==> r is None && final(self)@ == old(self)@,
            old(self)@.len() > 0 ==> r == Some(old(self)@.last()),
            old(self)@.len() > 0 ==> final(self)@ == old(self)@.drop_last(),
            final(self).word() == if old(self).word() == 0 {
                0
            } else {
                old(self).word() & !single((31 - old(self).word().leading_zeros()) as nat)
            },
            final(self)@.len() == if old(self)@.len() == 0 {
                0
            } else {
                old(self)@.len() - 1
            },
    {
        proof {
            use_type_invariant(&*self);
            lemma_positions_empty(self.flags);
        }
        if self.flags == 0 {
            return None;
        }
        let ghost before = self.flags;
        proof {
            lemma_pop_highest(before);
            lemma_highest_bit(before);
        }
        let leading_zeroes = self.flags.leading_zeros() as usize;
        let idx = 31 - leading_zeroes;
        let cleared = self.flags & !(1u32 << idx);
        proof {
            assert forall|i: nat| bit(cleared, i) implies i < E::ENUM_SIZE by {
                lemma_bit_cleared(before, idx as nat, i);
            }
        }
        self.flags = cleared;
        proof {
            let top = idx as nat;
            let rest = positions(self.flags, 0, 32);
            let last = seq![E::variant_at(top as usize)];
            let others = variants_at::<E>(rest);
            assert(variants_at::<E>(rest + seq![top]) =~= others + last);
            assert((others + last).drop_last() =~= others);
        }
        Some(E::from_index_unchecked(idx))
    }

    /// The number of variants still to come: the number of ones in the word.
    pub fn len(&self) -> (n: usize)
        ensures
            n == self@.len(),
            n == ones(self.word()),
    {
        proof {
            lemma_positions_count(self.flags);
        }
        self.flags.count_ones() as usize
    }
}

} // verus!
