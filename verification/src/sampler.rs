//! What sampling decides, given logits and probabilities by their bits.
use vstd::prelude::*;
use crate::floats::{
    above, argmax, is_above, is_nan, is_peak, law_above_is_greater, nan, standing, standing_of, value,
};

verus! {

/// Nothing to choose from.
#[derive(Debug, Clone, Copy, PartialEq, Eq, Structural)]
pub struct EmptyLogits;

/// The most likely token, the first of several.
pub fn greedy(logits: &[u32]) -> (r: Result<u32, EmptyLogits>)
    requires
        logits@.len() <= u32::MAX,
    ensures
        match r {
            Ok(t) => is_peak(logits@, t as int),
            Err(_) => logits@.len() == 0,
        },
{
    if logits.len() == 0 {
        return Err(EmptyLogits);
    }
    Ok(argmax(logits) as u32)
}

/// Token `t` stands among the first `n` of the history.
pub open spec fn occurs(history: Seq<u32>, t: u32, n: int) -> bool {
    exists|k: int| 0 <= k < n && k < history.len() && #[trigger] history[k] == t
}

fn flag_seen(history: &[u32], vocab: usize) -> (seen: Vec<bool>)
    ensures
        seen@.len() == vocab,
        forall|t: int|
            0 <= t < vocab ==> (#[trigger] seen@[t] <==> t <= u32::MAX && occurs(
                history@,
                t as u32,
                history@.len() as int,
            )),
{
    let mut seen: Vec<bool> = Vec::new();
    let mut i: usize = 0;
    while i < vocab
        invariant
            i <= vocab,
            seen@.len() == i,
            forall|t: int| 0 <= t < i ==> !(#[trigger] seen@[t]),
        decreases vocab - i,
    {
        seen.push(false);
        i += 1;
    }
    let mut k: usize = 0;
    while k < history.len()
        invariant
            k <= history@.len(),
            seen@.len() == vocab,
            forall|t: int|
                0 <= t < vocab ==> (#[trigger] seen@[t] <==> t <= u32::MAX && occurs(
                    history@,
                    t as u32,
                    k as int,
                )),
        decreases history@.len() - k,
    {
        let token = history[k];
        let ghost before = seen@;
        if (token as usize) < vocab {
            seen.set(token as usize, true);
        }
        assert forall|t: int| 0 <= t < vocab implies (#[trigger] seen@[t] <==> t <= u32::MAX
            && occurs(history@, t as u32, k + 1)) by {
            assert(before[t] <==> t <= u32::MAX && occurs(history@, t as u32, k as int));
            assert(history@[k as int] == token);
            if t <= u32::MAX && occurs(history@, t as u32, k as int) {
                let j = choose|j: int|
                    0 <= j < k && j < history@.len() && #[trigger] history@[j] == t as u32;
                assert(history@[j] == t as u32);
            }
            if t <= u32::MAX && occurs(history@, t as u32, k + 1) && t != token {
                let j = choose|j: int|
                    0 <= j < k + 1 && j < history@.len() && #[trigger] history@[j] == t as u32;
                assert(j < k);
            }
        }
        k += 1;
    }
    seen
}

/// The tokens whose logits a repetition penalty changes: each token of the
/// history that the vocabulary has, once, in rising order.
pub fn penalized(history: &[u32], vocab: usize) -> (out: Vec<usize>)
    ensures
        forall|t: usize| #[trigger]
            out@.contains(t) <==> t < vocab && t <= u32::MAX && history@.contains(t as u32),
        forall|i: int, j: int| 0 <= i < j < out@.len() ==> out@[i] < out@[j],
{
    let seen = flag_seen(history, vocab);
    let mut out: Vec<usize> = Vec::new();
    let mut t: usize = 0;
    while t < vocab
        invariant
            t <= vocab,
            seen@.len() == vocab,
            forall|i: int, j: int| 0 <= i < j < out@.len() ==> out@[i] < out@[j],
            forall|i: int| 0 <= i < out@.len() ==> (#[trigger] out@[i]) < t,
            forall|x: usize| #[trigger] out@.contains(x) <==> x < t && seen@[x as int],
        decreases vocab - t,
    {
        let ghost before = out@;
        if seen[t] {
            out.push(t);
            assert(out@[before.len() as int] == t);
        }
        assert forall|x: usize| #[trigger] out@.contains(x) <==> x < t + 1 && seen@[x as int] by {
            if before.contains(x) {
                let k = choose|k: int| 0 <= k < before.len() && before[k] == x;
                assert(out@[k] == x);
            }
            if out@.contains(x) && x != t {
                let k = choose|k: int| 0 <= k < out@.len() && out@[k] == x;
                assert(before[k] == x);
            }
            if out@.contains(x) && x == t && !seen@[t as int] {
                let k = choose|k: int| 0 <= k < out@.len() && out@[k] == x;
                assert(before[k] < t);
            }
        }
        t += 1;
    }
    assert forall|x: usize| #[trigger] out@.contains(x) <==> x < vocab && x <= u32::MAX
        && history@.contains(x as u32) by {
        if x < vocab {
            assert(seen@[x as int] <==> x <= u32::MAX && occurs(
                history@,
                x as u32,
                history@.len() as int,
            ));
            if x <= u32::MAX && history@.contains(x as u32) {
                let k = choose|k: int| 0 <= k < history@.len() && history@[k] == x as u32;
                assert(history@[k] == x as u32);
            }
        }
    }
    out
}

/// How many of the first `n` values stand at `floor` or above it.
pub open spec fn at_or_above(v: Seq<u32>, floor: int, n: int) -> int
    decreases n,
{
    if n <= 0 {
        0
    } else {
        at_or_above(v, floor, n - 1) + (if standing(v[n - 1]) >= floor {
            1int
        } else {
            0
        })
    }
}

/// `floor` is where the `k`-th greatest of the values stands: at least `k` of
/// them stand there or above, and fewer than `k` stand above.
pub open spec fn is_kth(v: Seq<u32>, k: int, floor: int) -> bool {
    at_or_above(v, floor, v.len() as int) >= k && at_or_above(v, floor + 1, v.len() as int) < k
}

fn count_at(v: &[u32], floor: u32) -> (n: usize)
    ensures
        n == at_or_above(v@, standing(floor), v@.len() as int),
{
    let mut n: usize = 0;
    let mut i: usize = 0;
    while i < v.len()
        invariant
            i <= v@.len(),
            n <= i,
            n == at_or_above(v@, standing(floor), i as int),
        decreases v@.len() - i,
    {
        if standing_of(v[i]) >= standing_of(floor) {
            n += 1;
        }
        i += 1;
    }
    n
}

proof fn lemma_counts_fall(v: Seq<u32>, a: int, b: int, n: int)
    requires
        a <= b,
    ensures
        at_or_above(v, a, n) >= at_or_above(v, b, n),
        at_or_above(v, b, n) >= 0,
    decreases n,
{
    if n > 0 {
        lemma_counts_fall(v, a, b, n - 1);
    }
}

proof fn lemma_counts_bound(v: Seq<u32>, floor: int, n: int)
    requires
        n >= 0,
    ensures
        0 <= at_or_above(v, floor, n) <= n,
    decreases n,
{
    if n > 0 {
        lemma_counts_bound(v, floor, n - 1);
    }
}

/// The value of which the `k`-th greatest is one: the greatest that leaves
/// fewer than `k` above it is stepped down from until `k` are reached.
fn kth_value(v: &[u32], k: usize) -> (r: u32)
    requires
        0 < k <= v@.len(),
    ensures
        is_kth(v@, k as int, standing(r)),
{
    let n: usize = v.len();
    let mut best: u32 = greatest(v);
    proof {
        lemma_none_above(v@, standing(best) + 1, n as int);
    }
    let mut left: usize = n;
    while count_at(v, best) < k
        invariant
            n == v@.len(),
            0 < k <= n,
            at_or_above(v@, standing(best) + 1, n as int) < k,
            exists|i: int| 0 <= i < n && standing(#[trigger] v@[i]) == standing(best),
            left >= n - at_or_above(v@, standing(best) + 1, n as int),
        decreases left,
    {
        let ghost old_best = best;
        proof {
            lemma_counts_bound(v@, standing(best), n as int);
        }
        let below = greatest_below(v, best);
        match below {
            Some(next) => {
                proof {
                    lemma_gap(v@, standing(next) + 1, standing(old_best), n as int);
                    let i = choose|i: int| 0 <= i < n && standing(#[trigger] v@[i]) == standing(old_best);
                    lemma_counts_step(v@, standing(old_best), n as int, i);
                }
                best = next;
                left = left - 1;
            },
            None => {
                proof {
                    lemma_all_at(v@, standing(best), n as int);
                }
                return best;
            },
        }
    }
    best
}

proof fn lemma_none_above(v: Seq<u32>, floor: int, n: int)
    requires
        0 <= n <= v.len(),
        forall|i: int| 0 <= i < n ==> standing(#[trigger] v[i]) < floor,
    ensures
        at_or_above(v, floor, n) == 0,
    decreases n,
{
    if n > 0 {
        lemma_none_above(v, floor, n - 1);
    }
}

proof fn lemma_all_at(v: Seq<u32>, floor: int, n: int)
    requires
        0 <= n <= v.len(),
        forall|i: int| 0 <= i < n ==> standing(#[trigger] v[i]) >= floor,
    ensures
        at_or_above(v, floor, n) == n,
    decreases n,
{
    if n > 0 {
        lemma_all_at(v, floor, n - 1);
    }
}

proof fn lemma_gap(v: Seq<u32>, a: int, b: int, n: int)
    requires
        0 <= n <= v.len(),
        a <= b,
        forall|i: int| 0 <= i < n ==> !(a <= standing(#[trigger] v[i]) < b),
    ensures
        at_or_above(v, a, n) == at_or_above(v, b, n),
    decreases n,
{
    if n > 0 {
        lemma_gap(v, a, b, n - 1);
    }
}

proof fn lemma_counts_step(v: Seq<u32>, floor: int, n: int, i: int)
    requires
        0 <= i < n <= v.len(),
        standing(v[i]) == floor,
    ensures
        at_or_above(v, floor, n) > at_or_above(v, floor + 1, n),
    decreases n,
{
    lemma_counts_fall(v, floor, floor + 1, n - 1);
    if i < n - 1 {
        lemma_counts_step(v, floor, n - 1, i);
    }
}

fn greatest(v: &[u32]) -> (r: u32)
    requires
        v@.len() > 0,
    ensures
        forall|i: int| 0 <= i < v@.len() ==> standing(#[trigger] v@[i]) <= standing(r),
        exists|i: int| 0 <= i < v@.len() && standing(#[trigger] v@[i]) == standing(r),
{
    let mut best: u32 = v[0];
    let mut i: usize = 1;
    assert(standing(v@[0]) == standing(best));
    while i < v.len()
        invariant
            1 <= i <= v@.len(),
            forall|k: int| 0 <= k < i ==> standing(#[trigger] v@[k]) <= standing(best),
            exists|k: int| 0 <= k < v@.len() && standing(#[trigger] v@[k]) == standing(best),
        decreases v@.len() - i,
    {
        if standing_of(v[i]) > standing_of(best) {
            best = v[i];
            assert(standing(v@[i as int]) == standing(best));
        }
        i += 1;
    }
    best
}

fn greatest_below(v: &[u32], bound: u32) -> (r: Option<u32>)
    ensures
        match r {
            Some(x) => {
                &&& standing(x) < standing(bound)
                &&& exists|i: int| 0 <= i < v@.len() && standing(#[trigger] v@[i]) == standing(x)
                &&& forall|i: int|
                    0 <= i < v@.len() ==> !(standing(x) + 1 <= standing(#[trigger] v@[i]) < standing(bound))
            },
            None => forall|i: int| 0 <= i < v@.len() ==> standing(#[trigger] v@[i]) >= standing(bound),
        },
{
    let mut best: Option<u32> = None;
    let mut i: usize = 0;
    while i < v.len()
        invariant
            i <= v@.len(),
            match best {
                Some(x) => {
                    &&& standing(x) < standing(bound)
                    &&& exists|k: int| 0 <= k < i && standing(#[trigger] v@[k]) == standing(x)
                    &&& forall|k: int|
                        0 <= k < i ==> !(standing(x) + 1 <= standing(#[trigger] v@[k]) < standing(bound))
                },
                None => forall|k: int| 0 <= k < i ==> standing(#[trigger] v@[k]) >= standing(bound),
            },
        decreases v@.len() - i,
    {
        let x = v[i];
        if standing_of(x) < standing_of(bound) {
            let better = match best {
                Some(b) => standing_of(x) > standing_of(b),
                None => true,
            };
            if better {
                assert(standing(v@[i as int]) == standing(x));
                best = Some(x);
            }
        }
        i += 1;
    }
    best
}

/// Which tokens stay when only the `top_k` most likely are kept: those that are
/// not below the `top_k`-th of them. What is no number comes last and is below
/// nothing. All stay where `top_k` is zero or there are no more.
pub fn top_k_keep(logits: &[u32], top_k: usize) -> (keep: Vec<bool>)
    ensures
        keep@.len() == logits@.len(),
        top_k == 0 || top_k >= logits@.len() ==> forall|i: int|
            0 <= i < keep@.len() ==> #[trigger] keep@[i],
        0 < top_k < logits@.len() ==> exists|floor: int|
            #![trigger is_kth(logits@, top_k as int, floor)]
            is_kth(logits@, top_k as int, floor) && forall|i: int|
                0 <= i < keep@.len() ==> (#[trigger] keep@[i] <==> nan(logits@[i]) || standing(
                    logits@[i],
                ) >= floor),
{
    let n: usize = logits.len();
    let mut keep: Vec<bool> = Vec::new();
    let mut i: usize = 0;
    if top_k == 0 || top_k >= n {
        while i < n
            invariant
                i <= n,
                keep@.len() == i,
                forall|k: int| 0 <= k < i ==> #[trigger] keep@[k],
            decreases n - i,
        {
            keep.push(true);
            i += 1;
        }
        return keep;
    }
    let floor = kth_value(logits, top_k);
    while i < n
        invariant
            i <= n,
            n == logits@.len(),
            keep@.len() == i,
            forall|k: int|
                0 <= k < i ==> (#[trigger] keep@[k] <==> nan(logits@[k]) || standing(logits@[k])
                    >= standing(floor)),
        decreases n - i,
    {
        keep.push(!is_above(floor, logits[i]));
        i += 1;
    }
    assert(is_kth(logits@, top_k as int, standing(floor)));
    keep
}

/// A list has one `k`-th place.
pub proof fn law_kth_unique(v: Seq<u32>, k: int, a: int, b: int)
    requires
        is_kth(v, k, a),
        is_kth(v, k, b),
    ensures
        a == b,
{
    if a < b {
        lemma_counts_fall(v, a + 1, b, v.len() as int);
    }
    if b < a {
        lemma_counts_fall(v, b + 1, a, v.len() as int);
    }
}

/// Token `a` is put before token `b`: it is more likely, or comes first among
/// equals. What is no number comes last.
pub open spec fn goes_before(probs: Seq<u32>, a: usize, b: usize) -> bool {
    standing(probs[a as int]) > standing(probs[b as int]) || (standing(probs[a as int])
        == standing(probs[b as int]) && a < b)
}

/// The places `lo..hi`, each once, with the most likely first.
pub open spec fn descending(probs: Seq<u32>, order: Seq<usize>, lo: int, hi: int) -> bool {
    &&& order.len() == hi - lo
    &&& forall|i: int| 0 <= i < order.len() ==> lo <= #[trigger] order[i] < hi
    &&& forall|i: int, j: int|
        0 <= i < j < order.len() ==> goes_before(probs, #[trigger] order[i], #[trigger] order[j])
    &&& forall|p: usize| lo <= p < hi ==> #[trigger] order.contains(p)
}

/// Two runs of places that follow each other, as one.
fn merged(probs: &[u32], left: &[usize], right: &[usize], mid: usize) -> (out: Vec<usize>)
    requires
        left@.len() <= mid,
        mid + right@.len() <= probs@.len(),
        descending(probs@, left@, mid - left@.len(), mid as int),
        descending(probs@, right@, mid as int, mid + right@.len()),
    ensures
        descending(probs@, out@, mid - left@.len(), mid + right@.len()),
{
    let ghost lo = mid - left@.len();
    let ghost hi = mid + right@.len();
    let mut out: Vec<usize> = Vec::new();
    let mut i: usize = 0;
    let mut j: usize = 0;
    while i < left.len() || j < right.len()
        invariant
            0 <= lo <= mid <= hi <= probs@.len(),
            descending(probs@, left@, lo, mid as int),
            descending(probs@, right@, mid as int, hi),
            i <= left@.len(),
            j <= right@.len(),
            out@.len() == i + j,
            forall|a: int| 0 <= a < out@.len() ==> lo <= #[trigger] out@[a] < hi,
            forall|a: int, b: int|
                0 <= a < b < out@.len() ==> goes_before(
                    probs@,
                    #[trigger] out@[a],
                    #[trigger] out@[b],
                ),
            forall|a: int, b: int|
                0 <= a < out@.len() && i <= b < left@.len() ==> goes_before(
                    probs@,
                    #[trigger] out@[a],
                    #[trigger] left@[b],
                ),
            forall|a: int, b: int|
                0 <= a < out@.len() && j <= b < right@.len() ==> goes_before(
                    probs@,
                    #[trigger] out@[a],
                    #[trigger] right@[b],
                ),
            forall|a: int| 0 <= a < i ==> out@.contains(#[trigger] left@[a]),
            forall|a: int| 0 <= a < j ==> out@.contains(#[trigger] right@[a]),
        decreases left@.len() - i + right@.len() - j,
    {
        let take_left = j >= right.len() || (i < left.len() && standing_of(probs[left[i]])
            >= standing_of(probs[right[j]]));
        let ghost before = out@;
        let next: usize = if take_left {
            left[i]
        } else {
            right[j]
        };
        out.push(next);
        if take_left {
            i += 1;
        } else {
            j += 1;
        }
        proof {
            assert forall|a: int| 0 <= a < i implies out@.contains(#[trigger] left@[a]) by {
                lemma_pushed(before, next, left@[a]);
            }
            assert forall|a: int| 0 <= a < j implies out@.contains(#[trigger] right@[a]) by {
                lemma_pushed(before, next, right@[a]);
            }
        }
    }
    proof {
        assert forall|p: usize| lo <= p < hi implies #[trigger] out@.contains(p) by {
            if p < mid {
                assert(left@.contains(p));
                let a = choose|a: int| 0 <= a < left@.len() && left@[a] == p;
                assert(out@.contains(left@[a]));
            } else {
                assert(right@.contains(p));
                let a = choose|a: int| 0 <= a < right@.len() && right@[a] == p;
                assert(out@.contains(right@[a]));
            }
        }
    }
    out
}

proof fn lemma_pushed(before: Seq<usize>, next: usize, x: usize)
    requires
        before.contains(x) || x == next,
    ensures
        before.push(next).contains(x),
{
    if before.contains(x) {
        let i = choose|i: int| 0 <= i < before.len() && before[i] == x;
        assert(before.push(next)[i] == x);
    } else {
        assert(before.push(next)[before.len() as int] == x);
    }
}

fn sorted_range(probs: &[u32], lo: usize, hi: usize) -> (order: Vec<usize>)
    requires
        lo <= hi <= probs@.len(),
    ensures
        descending(probs@, order@, lo as int, hi as int),
    decreases hi - lo,
{
    if hi - lo < 2 {
        let mut order: Vec<usize> = Vec::new();
        if lo < hi {
            order.push(lo);
            assert(order@[0] == lo);
        }
        return order;
    }
    let mid: usize = lo + (hi - lo) / 2;
    let left = sorted_range(probs, lo, mid);
    let right = sorted_range(probs, mid, hi);
    merged(probs, &left, &right, mid)
}

/// The tokens in the order of their probabilities, the most likely first. What
/// is no number comes last.
pub fn order_descending(probs: &[u32]) -> (order: Vec<usize>)
    ensures
        descending(probs@, order@, 0, probs@.len() as int),
{
    sorted_range(probs, 0, probs.len())
}

/// Behind what is no number there is no number.
pub proof fn law_nan_last(probs: Seq<u32>, order: Seq<usize>, i: int, j: int)
    requires
        descending(probs, order, 0, probs.len() as int),
        0 <= i < j < order.len(),
        nan(probs[order[i] as int]),
    ensures
        nan(probs[order[j] as int]),
{
    assert(goes_before(probs, order[i], order[j]));
}

/// The first of the running sums that reaches `goal`, or none.
pub fn first_reaching(sums: &[u32], goal: u32) -> (r: Option<usize>)
    ensures
        match r {
            Some(i) => i < sums@.len() && reaches(sums@[i as int], goal) && forall|k: int|
                0 <= k < i ==> !reaches(#[trigger] sums@[k], goal),
            None => forall|k: int| 0 <= k < sums@.len() ==> !reaches(#[trigger] sums@[k], goal),
        },
{
    let mut i: usize = 0;
    while i < sums.len()
        invariant
            i <= sums@.len(),
            forall|k: int| 0 <= k < i ==> !reaches(#[trigger] sums@[k], goal),
        decreases sums@.len() - i,
    {
        if !is_nan(sums[i]) && !is_nan(goal) && !is_above(goal, sums[i]) {
            return Some(i);
        }
        i += 1;
    }
    None
}

/// `sum >= goal`.
pub open spec fn reaches(sum: u32, goal: u32) -> bool {
    !nan(sum) && !nan(goal) && !above(goal, sum)
}

/// How many of the most likely tokens stay when they are to make up `top_p` of
/// the probability, given the running sums of their probabilities: up to and
/// including the first that gets there; all where none does.
pub fn nucleus_size(sums: &[u32], top_p: u32) -> (n: usize)
    ensures
        n <= sums@.len(),
        n < sums@.len() ==> n > 0 && reaches(sums@[n - 1], top_p),
        forall|k: int| 0 <= k < n - 1 ==> !reaches(#[trigger] sums@[k], top_p),
{
    let n: usize = sums.len();
    match first_reaching(sums, top_p) {
        Some(i) => i + 1,
        None => n,
    }
}

/// Which of the remaining tokens is drawn by the number `r` between zero and
/// one, given the running sums of their probabilities: the first whose sum
/// reaches it, or the last where rounding left the sums short.
pub fn draw(sums: &[u32], tokens: &[u32], r: u32) -> (t: u32)
    requires
        sums@.len() == tokens@.len(),
    ensures
        tokens@.len() == 0 ==> t == 0,
        tokens@.len() > 0 ==> exists|i: int|
            #![trigger tokens@[i]]
            0 <= i < tokens@.len() && t == tokens@[i] && (reaches(sums@[i], r) || i
                == tokens@.len() - 1) && forall|k: int|
                0 <= k < i ==> !reaches(#[trigger] sums@[k], r),
{
    match first_reaching(sums, r) {
        Some(i) => {
            assert(tokens@[i as int] == tokens@[i as int]);
            tokens[i]
        },
        None => if tokens.len() > 0 {
            assert(tokens@[tokens@.len() - 1] == tokens@.last());
            tokens[tokens.len() - 1]
        } else {
            0
        },
    }
}

/// The values that stand at `floor` or above it are counted one by one.
pub proof fn law_counted(v: Seq<u32>, floor: int, n: int)
    requires
        0 <= n <= v.len(),
    ensures
        Set::new(|i: int| 0 <= i < n && standing(v[i]) >= floor).finite(),
        at_or_above(v, floor, n) == Set::new(
            |i: int| 0 <= i < n && standing(v[i]) >= floor,
        ).len(),
    decreases n,
{
    let all = Set::new(|i: int| 0 <= i < n && standing(v[i]) >= floor);
    if n == 0 {
        assert(all =~= Set::empty());
    } else {
        law_counted(v, floor, n - 1);
        let before = Set::new(|i: int| 0 <= i < n - 1 && standing(v[i]) >= floor);
        if standing(v[n - 1]) >= floor {
            assert(all =~= before.insert(n - 1));
        } else {
            assert(all =~= before);
        }
    }
}

/// More likely tokens are put first, equally likely ones in their order, and
/// what is no number last.
pub proof fn law_more_likely_first(probs: Seq<u32>, a: usize, b: usize)
    requires
        a < probs.len(),
        b < probs.len(),
    ensures
        ({
            let (x, y) = (probs[a as int], probs[b as int]);
            &&& !nan(x) && !nan(y) && value(x) > value(y) ==> goes_before(probs, a, b)
            &&& !nan(x) && !nan(y) && value(x) == value(y) ==> (goes_before(probs, a, b) <==> a < b)
            &&& !nan(x) && nan(y) ==> goes_before(probs, a, b)
            &&& nan(x) && nan(y) ==> (goes_before(probs, a, b) <==> a < b)
            &&& goes_before(probs, a, b) ==> !goes_before(probs, b, a)
        }),
{
    law_above_is_greater(probs[a as int], probs[b as int]);
    law_above_is_greater(probs[b as int], probs[a as int]);
}

/// A sum reaches a goal if both are numbers and it is not smaller.
pub proof fn law_reaching(sum: u32, goal: u32)
    ensures
        reaches(sum, goal) <==> !nan(sum) && !nan(goal) && value(sum) >= value(goal),
{
    law_above_is_greater(goal, sum);
}

} // verus!
