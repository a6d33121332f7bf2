//! Floating point numbers, ordered by their bits.
use vstd::prelude::*;
use vstd::arithmetic::power2::{
    lemma_pow2_pos, lemma_pow2_strictly_increases, lemma_pow2_unfold, pow2,
};

verus! {

/// The bits without the sign.
pub open spec fn magnitude(b: u32) -> int {
    if b < 0x8000_0000 {
        b as int
    } else {
        b - 0x8000_0000
    }
}

/// Not a number.
pub open spec fn nan(b: u32) -> bool {
    magnitude(b) > 0x7F80_0000
}

/// Where a number stands among the others; both zeros stand at 0.
pub open spec fn rank(b: u32) -> int {
    if b < 0x8000_0000 {
        magnitude(b)
    } else {
        -magnitude(b)
    }
}

/// `a > b`.
pub open spec fn above(a: u32, b: u32) -> bool {
    !nan(a) && !nan(b) && rank(a) > rank(b)
}

/// Whether the bits are those of no number.
pub fn is_nan(b: u32) -> (r: bool)
    ensures
        r == nan(b),
{
    let m: u32 = if b < 0x8000_0000 {
        b
    } else {
        b - 0x8000_0000
    };
    m > 0x7F80_0000
}

fn rank_of(b: u32) -> (r: i64)
    ensures
        r == rank(b),
{
    if b < 0x8000_0000 {
        b as i64
    } else {
        0x8000_0000i64 - b as i64
    }
}

/// Whether `a > b`. Nothing is above what is no number, nor below it.
pub fn is_above(a: u32, b: u32) -> (r: bool)
    ensures
        r == above(a, b),
{
    !is_nan(a) && !is_nan(b) && rank_of(a) > rank_of(b)
}

/// Where a value stands when what is no number comes below all numbers.
pub open spec fn standing(b: u32) -> int {
    if nan(b) {
        -0x8000_0000
    } else {
        rank(b)
    }
}

/// Where a value stands when what is no number comes below all numbers.
pub fn standing_of(b: u32) -> (r: i64)
    ensures
        r == standing(b),
{
    if is_nan(b) {
        -0x8000_0000
    } else {
        rank_of(b)
    }
}

/// `r` is where the first of the greatest values stands. A list that starts
/// with what is no number peaks there: no comparison ever moves on from it.
pub open spec fn is_peak(v: Seq<u32>, r: int) -> bool {
    &&& 0 <= r < v.len()
    &&& nan(v[0]) ==> r == 0
    &&& !nan(v[0]) ==> {
        &&& !nan(v[r])
        &&& forall|k: int| 0 <= k < v.len() ==> !above(#[trigger] v[k], v[r])
        &&& forall|k: int| 0 <= k < r ==> nan(#[trigger] v[k]) || above(v[r], v[k])
    }
}

/// The index of the greatest value, the first of several.
pub fn argmax(v: &[u32]) -> (r: usize)
    requires
        v@.len() > 0,
    ensures
        is_peak(v@, r as int),
{
    let mut best: usize = 0;
    let mut i: usize = 1;
    while i < v.len()
        invariant
            1 <= i <= v@.len(),
            0 <= best < i,
            is_peak(v@.take(i as int), best as int),
        decreases v@.len() - i,
    {
        let ghost before = v@.take(i as int);
        let ghost after = v@.take(i + 1);
        assert(forall|k: int| 0 <= k < i ==> before[k] == #[trigger] after[k]);
        assert(after[i as int] == v@[i as int]);
        assert(before[best as int] == v@[best as int]);
        assert(before[0] == v@[0]);
        if is_above(v[i], v[best]) {
            assert(forall|k: int| 0 <= k < i ==> !above(#[trigger] before[k], before[best as int]));
            assert forall|k: int| 0 <= k < i + 1 implies !above(#[trigger] after[k], after[i as int]) by {
                if k < i {
                    assert(!above(before[k], before[best as int]));
                }
            }
            assert forall|k: int| 0 <= k < i implies nan(#[trigger] after[k]) || above(
                after[i as int],
                after[k],
            ) by {
                assert(!above(before[k], before[best as int]));
            }
            best = i;
        } else {
            assert forall|k: int| 0 <= k < best implies nan(#[trigger] after[k]) || above(
                after[best as int],
                after[k],
            ) by {
                assert(nan(before[k]) || above(before[best as int], before[k]));
            }
            assert forall|k: int| 0 <= k < i + 1 implies !above(
                #[trigger] after[k],
                after[best as int],
            ) by {
                if k < i {
                    assert(!above(before[k], before[best as int]));
                }
            }
        }
        i += 1;
    }
    assert(v@.take(i as int) =~= v@);
    best
}

/// A list has one peak.
pub proof fn law_peak_unique(v: Seq<u32>, a: int, b: int)
    requires
        is_peak(v, a),
        is_peak(v, b),
    ensures
        a == b,
{
    if a < b {
        assert(nan(v[a]) || above(v[b], v[a]));
    }
    if b < a {
        assert(nan(v[b]) || above(v[a], v[b]));
    }
}

/// Where a single precision number stands in the order that has a place for
/// every pattern of bits: below zero the negative ones, negative zero last.
pub open spec fn total_rank(b: u32) -> int {
    if b < 0x8000_0000 {
        b as int
    } else {
        0x7FFF_FFFF - b
    }
}

/// Where the number stands among all patterns of bits.
pub fn total_rank_of(b: u32) -> (r: i64)
    ensures
        r == total_rank(b),
{
    if b < 0x8000_0000 {
        b as i64
    } else {
        0x7FFF_FFFFi64 - b as i64
    }
}

/// Where a double precision number stands in that order.
pub open spec fn total_rank_double(b: u64) -> int {
    if b < 0x8000_0000_0000_0000 {
        b as int
    } else {
        0x7FFF_FFFF_FFFF_FFFF - b
    }
}

/// Where the number stands among all patterns of bits.
pub fn total_rank_of_double(b: u64) -> (r: i128)
    ensures
        r == total_rank_double(b),
{
    if b < 0x8000_0000_0000_0000 {
        b as i128
    } else {
        0x7FFF_FFFF_FFFF_FFFFi128 - b as i128
    }
}

/// The total order agrees with `>` on numbers, but for the two zeros.
pub proof fn law_total_order_agrees(a: u32, b: u32)
    ensures
        above(a, b) ==> total_rank(a) > total_rank(b),
        !nan(a) && !nan(b) && total_rank(a) > total_rank(b) ==> above(a, b) || (rank(a) == 0
            && rank(b) == 0),
        total_rank(a) == total_rank(b) ==> a == b,
{
}

/// The value of a magnitude, in units of the smallest number above zero: the
/// low 23 bits are the fraction, to which an implied bit is added where the
/// exponent above them is not zero, and the exponent doubles the rest.
/// Infinity counts as the number that would follow the greatest.
pub open spec fn size_of_magnitude(m: int) -> int {
    let exponent = m / 0x80_0000;
    let fraction = m % 0x80_0000;
    if exponent == 0 {
        fraction
    } else {
        (fraction + 0x80_0000) * pow2((exponent - 1) as nat)
    }
}

/// The value of a number, in the same units, with its sign.
pub open spec fn value(b: u32) -> int {
    if b < 0x8000_0000 {
        size_of_magnitude(b as int)
    } else {
        -size_of_magnitude(b - 0x8000_0000)
    }
}

proof fn lemma_size_grows(a: int, b: int)
    requires
        0 <= a < b,
    ensures
        0 <= size_of_magnitude(a) < size_of_magnitude(b),
{
    let (ea, fa) = (a / 0x80_0000, a % 0x80_0000);
    let (eb, fb) = (b / 0x80_0000, b % 0x80_0000);
    if ea > 0 {
        lemma_pow2_pos((ea - 1) as nat);
    }
    if eb > 0 {
        lemma_pow2_pos((eb - 1) as nat);
        let q = pow2((eb - 1) as nat) as int;
        assert((fb + 0x80_0000) * q >= 0x80_0000 * q) by (nonlinear_arith)
            requires
                fb >= 0,
                q > 0,
        ;
        if ea == 0 {
            assert(0x80_0000 * q >= 0x80_0000) by (nonlinear_arith)
                requires
                    q > 0,
            ;
        } else {
            let p = pow2((ea - 1) as nat) as int;
            assert((fa + 0x80_0000) * p >= 0) by (nonlinear_arith)
                requires
                    fa >= 0,
                    p > 0,
            ;
            if ea == eb {
                assert((fa + 0x80_0000) * p < (fb + 0x80_0000) * p) by (nonlinear_arith)
                    requires
                        fa < fb,
                        p > 0,
                ;
            } else {
                lemma_pow2_unfold(ea as nat);
                assert((fa + 0x80_0000) * p < 0x80_0000 * (2 * p)) by (nonlinear_arith)
                    requires
                        fa < 0x80_0000,
                        p > 0,
                ;
                if ea < eb - 1 {
                    lemma_pow2_strictly_increases(ea as nat, (eb - 1) as nat);
                }
                assert(0x80_0000 * pow2(ea as nat) <= 0x80_0000 * q) by (nonlinear_arith)
                    requires
                        pow2(ea as nat) <= q,
                ;
            }
        }
    }
}

/// One number is above another exactly if its value is greater. No number are
/// the patterns with the highest exponent and a fraction.
pub proof fn law_above_is_greater(a: u32, b: u32)
    ensures
        nan(a) <==> (a as int % 0x8000_0000) / 0x80_0000 == 255 && a as int % 0x80_0000 != 0,
        above(a, b) <==> !nan(a) && !nan(b) && value(a) > value(b),
        !nan(a) && !nan(b) ==> (rank(a) == rank(b) <==> value(a) == value(b)),
{
    let (x, y) = (magnitude(a), magnitude(b));
    if x < y {
        lemma_size_grows(x, y);
    }
    if y < x {
        lemma_size_grows(y, x);
    }
    if x > 0 {
        lemma_size_grows(0, x);
    }
    if y > 0 {
        lemma_size_grows(0, y);
    }
    assert(size_of_magnitude(0) == 0);
}

/// The first of the greatest: no value of the list is greater than the peak's,
/// and every one before it is smaller or no number.
pub proof fn law_peak_is_greatest(v: Seq<u32>, r: int, k: int)
    requires
        is_peak(v, r),
        !nan(v[0]),
        0 <= k < v.len(),
        !nan(v[k]),
    ensures
        value(v[k]) <= value(v[r]),
        k < r ==> value(v[k]) < value(v[r]),
{
    law_above_is_greater(v[k], v[r]);
    law_above_is_greater(v[r], v[k]);
}

/// Double precision numbers stand in the order of their values: those without
/// a sign by their bits, those with one the other way round and below.
pub proof fn law_order_of_doubles(a: u64, b: u64)
    ensures
        a < 0x8000_0000_0000_0000 && b < 0x8000_0000_0000_0000 ==> (total_rank_double(a)
            > total_rank_double(b) <==> a > b),
        a >= 0x8000_0000_0000_0000 && b >= 0x8000_0000_0000_0000 ==> (total_rank_double(a)
            > total_rank_double(b) <==> a < b),
        a < 0x8000_0000_0000_0000 && b >= 0x8000_0000_0000_0000 ==> total_rank_double(a)
            > total_rank_double(b),
        total_rank_double(a) == total_rank_double(b) ==> a == b,
{
}

} // verus!
