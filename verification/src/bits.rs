use vstd::prelude::*;

verus! {

/// Whether bit `i` of `w` is set. No bit at or above position 32 is ever set.
pub open spec fn bit(w: u32, i: nat) -> bool {
    i < 32 && (w >> (i as u32)) & 1u32 == 1u32
}

/// The word whose only set bit is bit `i`.
pub open spec fn single(i: nat) -> u32
    recommends
        i < 32,
{
    1u32 << (i as u32)
}

/// The positions in `[lo, hi)` of the set bits of `w`, lowest first.
pub open spec fn positions(w: u32, lo: nat, hi: nat) -> Seq<nat>
    decreases hi - lo,
{
    if lo >= hi {
        Seq::empty()
    } else if bit(w, lo) {
        seq![lo] + positions(w, (lo + 1) as nat, hi)
    } else {
        positions(w, (lo + 1) as nat, hi)
    }
}

/// The number of ones in the binary representation of `w`.
pub open spec fn ones(w: u32) -> nat
    decreases w,
{
    if w == 0 {
        0
    } else {
        (w % 2) as nat + ones(w / 2)
    }
}

/// `u32::count_ones`: the number of ones in the binary representation of the word.
pub assume_specification[ u32::count_ones ](w: u32) -> (n: u32)
    ensures
        n == ones(w),
;

/// How the bits of a combined word follow from the bits of its operands.
pub proof fn lemma_bit_algebra(a: u32, b: u32, i: nat)
    ensures
        bit(a | b, i) == (bit(a, i) || bit(b, i)),
        bit(a & b, i) == (bit(a, i) && bit(b, i)),
        bit(a ^ b, i) == (bit(a, i) != bit(b, i)),
        i < 32 ==> bit(!a, i) == !bit(a, i),
        !bit(0u32, i),
{
    if i < 32 {
        let k = i as u32;
        assert(k < 32 ==> (((a | b) >> k) & 1u32 == 1u32) == ((a >> k) & 1u32 == 1u32 || (b
            >> k) & 1u32 == 1u32)) by (bit_vector);
        assert(k < 32 ==> (((a & b) >> k) & 1u32 == 1u32) == ((a >> k) & 1u32 == 1u32 && (b
            >> k) & 1u32 == 1u32)) by (bit_vector);
        assert(k < 32 ==> (((a ^ b) >> k) & 1u32 == 1u32) == (((a >> k) & 1u32 == 1u32) != ((b >> k)
            & 1u32 == 1u32))) by (bit_vector);
        assert(k < 32 ==> (((!a) >> k) & 1u32 == 1u32) == !((a >> k) & 1u32 == 1u32))
            by (bit_vector);
        assert((0u32 >> k) & 1u32 == 0u32) by (bit_vector);
    }
}

/// The bits of a single-bit word.
pub proof fn lemma_bit_single(i: nat, j: nat)
    requires
        i < 32,
    ensures
        bit(single(i), j) == (i == j),
{
    if j < 32 {
        let a = i as u32;
        let b = j as u32;
        assert(a < 32 && b < 32 ==> ((((1u32 << a) >> b) & 1u32 == 1u32) == (a == b)))
            by (bit_vector);
    }
}

/// The lowest set bit of a non-zero word stands at the count of its trailing zeros.
pub proof fn lemma_lowest_bit(w: u32)
    requires
        w != 0,
    ensures
        w.trailing_zeros() < 32,
        bit(w, w.trailing_zeros() as nat),
        forall|i: nat| i < w.trailing_zeros() ==> !bit(w, i),
{
    vstd::std_specs::bits::axiom_u32_trailing_zeros(w);
    let tz = w.trailing_zeros();
    assert forall|i: nat| i < tz implies !bit(w, i) by {
        let k = i as u32;
        assert((w >> k) & 1u32 == 0u32);
    }
}

/// The highest set bit of a non-zero word stands at 31 less the count of its leading zeros.
pub proof fn lemma_highest_bit(w: u32)
    requires
        w != 0,
    ensures
        w.leading_zeros() < 32,
        bit(w, (31 - w.leading_zeros()) as nat),
        forall|i: nat| 31 - w.leading_zeros() < i ==> !bit(w, i),
{
    vstd::std_specs::bits::axiom_u32_leading_zeros(w);
    let lz = w.leading_zeros();
    let top = (31 - lz) as u32;
    assert((w >> top) & 1u32 != 0u32 ==> (w >> top) & 1u32 == 1u32) by (bit_vector);
    assert forall|i: nat| 31 - lz < i implies !bit(w, i) by {
        if i < 32 {
            let k = i as u32;
            assert((w >> k) & 1u32 == 0u32);
        }
    }
}

/// Clearing bit `i` leaves every other bit as it was.
pub proof fn lemma_bit_cleared(w: u32, i: nat, j: nat)
    requires
        i < 32,
    ensures
        bit(w & !single(i), j) == (bit(w, j) && j != i),
{
    lemma_bit_algebra(w, !single(i), j);
    lemma_bit_algebra(single(i), 0, j);
    lemma_bit_single(i, j);
}

/// Positions below which no bit is set can be left out of the scan.
pub proof fn lemma_positions_skip(w: u32, lo: nat, mid: nat, hi: nat)
    requires
        lo <= mid <= hi,
        forall|i: nat| lo <= i < mid ==> !bit(w, i),
    ensures
        positions(w, lo, hi) == positions(w, mid, hi),
    decreases mid - lo,
{
    if lo < mid {
        assert(!bit(w, lo));
        lemma_positions_skip(w, lo + 1, mid, hi);
    }
}

/// Words that agree on a range of bits have the same positions in it.
pub proof fn lemma_positions_agree(w: u32, v: u32, lo: nat, hi: nat)
    requires
        forall|i: nat| lo <= i < hi ==> bit(w, i) == bit(v, i),
    ensures
        positions(w, lo, hi) == positions(v, lo, hi),
    decreases hi - lo,
{
    if lo < hi {
        assert(bit(w, lo) == bit(v, lo));
        lemma_positions_agree(w, v, lo + 1, hi);
    }
}

/// A scan can be cut in two at any point.
pub proof fn lemma_positions_split(w: u32, lo: nat, mid: nat, hi: nat)
    requires
        lo <= mid <= hi,
    ensures
        positions(w, lo, hi) == positions(w, lo, mid) + positions(w, mid, hi),
    decreases mid - lo,
{
    if lo < mid {
        lemma_positions_split(w, lo + 1, mid, hi);
        let rest = positions(w, lo + 1, mid) + positions(w, mid, hi);
        assert(seq![lo] + rest =~= (seq![lo] + positions(w, lo + 1, mid)) + positions(w, mid, hi));
    } else {
        assert(positions(w, lo, mid) + positions(w, mid, hi) =~= positions(w, mid, hi));
    }
}

/// A scan holds exactly the set bits of its range, each once and in rising order.
pub proof fn lemma_positions_sorted(w: u32, lo: nat, hi: nat)
    ensures
        forall|k: int|
            0 <= k < positions(w, lo, hi).len() ==> lo <= #[trigger] positions(w, lo, hi)[k] < hi
                && bit(w, positions(w, lo, hi)[k]),
        forall|k: int, l: int|
            0 <= k < l < positions(w, lo, hi).len() ==> positions(w, lo, hi)[k] < positions(
                w,
                lo,
                hi,
            )[l],
        forall|i: nat| lo <= i < hi && bit(w, i) ==> positions(w, lo, hi).contains(i),
    decreases hi - lo,
{
    let s = positions(w, lo, hi);
    if lo < hi {
        let t = positions(w, lo + 1, hi);
        lemma_positions_sorted(w, lo + 1, hi);
        if bit(w, lo) {
            assert(s == seq![lo] + t);
            assert(s[0] == lo);
            assert forall|k: int| 1 <= k < s.len() implies s[k] == t[k - 1] by {}
            assert forall|i: nat| lo <= i < hi && bit(w, i) implies s.contains(i) by {
                if i == lo {
                    assert(s[0] == i);
                } else {
                    assert(t.contains(i));
                    let k = choose|k: int| 0 <= k < t.len() && t[k] == i;
                    assert(s[k + 1] == i);
                }
            }
        } else {
            assert(s == t);
        }
    }
}

/// A full scan finds as many positions as the word has ones.
pub proof fn lemma_positions_count(w: u32)
    ensures
        positions(w, 0, 32).len() == ones(w),
{
    lemma_positions_count_from(w, 0);
    assert(w >> 0u32 == w) by (bit_vector);
}

proof fn lemma_positions_count_from(w: u32, lo: nat)
    requires
        lo < 32,
    ensures
        positions(w, lo, 32).len() == ones(w >> (lo as u32)),
    decreases 32 - lo,
{
    let k = lo as u32;
    let x = w >> k;
    assert(x % 2 == x & 1u32) by (bit_vector);
    assert(x == 0 ==> x & 1u32 == 0u32) by (bit_vector);
    if lo == 31 {
        assert(positions(w, 32, 32) =~= Seq::empty());
        assert(k == 31 && x == w >> k ==> x / 2 == 0u32) by (bit_vector);
        assert(ones(x / 2) == 0);
    } else {
        let k1 = (lo + 1) as u32;
        lemma_positions_count_from(w, lo + 1);
        assert(k < 31 && k1 == k + 1 && x == w >> k ==> x / 2 == w >> k1) by (bit_vector);
        assert(ones(0u32) == 0);
    }
}

/// The lowest set bit of a word comes first in its scan; without that bit, the rest remains.
pub proof fn lemma_pop_lowest(w: u32)
    requires
        w != 0,
    ensures
        w.trailing_zeros() < 32,
        positions(w, 0, 32) == seq![w.trailing_zeros() as nat] + positions(
            w & !single(w.trailing_zeros() as nat),
            0,
            32,
        ),
{
    lemma_lowest_bit(w);
    let low = w.trailing_zeros() as nat;
    let rest = w & !single(low);
    assert forall|i: nat| #[trigger] bit(rest, i) == (bit(w, i) && i != low) by {
        lemma_bit_cleared(w, low, i);
    }
    lemma_positions_skip(w, 0, low, 32);
    lemma_positions_skip(rest, 0, low + 1, 32);
    lemma_positions_agree(w, rest, low + 1, 32);
}

/// The highest set bit of a word comes last in its scan; without that bit, the rest remains.
pub proof fn lemma_pop_highest(w: u32)
    requires
        w != 0,
    ensures
        w.leading_zeros() < 32,
        positions(w, 0, 32) == positions(
            w & !single((31 - w.leading_zeros()) as nat),
            0,
            32,
        ) + seq![(31 - w.leading_zeros()) as nat],
{
    lemma_highest_bit(w);
    let top = (31 - w.leading_zeros()) as nat;
    let rest = w & !single(top);
    assert forall|i: nat| #[trigger] bit(rest, i) == (bit(w, i) && i != top) by {
        lemma_bit_cleared(w, top, i);
    }
    lemma_positions_split(w, 0, top, 32);
    lemma_positions_split(rest, 0, top, 32);
    lemma_positions_agree(w, rest, 0, top);
    lemma_positions_skip(w, top + 1, 32, 32);
    lemma_positions_skip(rest, top, 32, 32);
    assert(positions(w, 32, 32) =~= Seq::empty());
    assert(positions(rest, 32, 32) =~= Seq::empty());
    assert(positions(w, top, 32) =~= seq![top]);
    assert(positions(rest, 0, top) + Seq::<nat>::empty() =~= positions(rest, 0, top));
}

/// The scan of a word is empty exactly when the word is zero.
pub proof fn lemma_positions_empty(w: u32)
    ensures
        (positions(w, 0, 32).len() == 0) == (w == 0),
{
    if w == 0 {
        assert forall|i: nat| !bit(w, i) by {
            lemma_bit_algebra(0, 0, i);
        }
        lemma_positions_skip(w, 0, 32, 32);
    } else {
        lemma_pop_lowest(w);
    }
}

/// A word shifted right by `n` is zero exactly when it has no set bit at or above position `n`.
pub proof fn lemma_high_bits(w: u32, n: nat)
    requires
        n < 32,
    ensures
        w >> (n as u32) == 0 ==> forall|i: nat| bit(w, i) ==> i < n,
        w >> (n as u32) != 0 ==> exists|i: nat| bit(w, i) && i >= n,
{
    let m = n as u32;
    let x = w >> m;
    if x != 0 {
        lemma_lowest_bit(x);
        let k = x.trailing_zeros();
        let at = (m + k) as u32;
        assert(m < 32 && k < 32 && at == m + k && ((w >> m) >> k) & 1u32 == 1u32 ==> at < 32 && (w
            >> at) & 1u32 == 1u32) by (bit_vector);
        assert(bit(w, at as nat));
    } else {
        assert forall|i: nat| bit(w, i) implies i < n by {
            let j = i as u32;
            assert(m <= j < 32 && w >> m == 0 ==> (w >> j) & 1u32 == 0u32) by (bit_vector);
        }
    }
}

} // verus!
