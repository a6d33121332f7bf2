//! The orthogonal matrix that keys and queries are rotated by before keys are
//! quantized: signs of a Hadamard matrix.
use vstd::prelude::*;
use vstd::arithmetic::power2::{
    lemma2_to64, lemma_pow2_strictly_increases, lemma_pow2_unfold, pow2,
};

verus! {

/// The sign at row `i` and column `j` of the Hadamard matrix of size `2^k`:
/// each is four copies of the one before, the last of them negated.
pub open spec fn sign(k: nat, i: int, j: int) -> int
    decreases k,
{
    if k == 0 {
        1
    } else {
        let half = pow2((k - 1) as nat) as int;
        if i < half && j < half {
            sign((k - 1) as nat, i, j)
        } else if i < half {
            sign((k - 1) as nat, i, j - half)
        } else if j < half {
            sign((k - 1) as nat, i - half, j)
        } else {
            -sign((k - 1) as nat, i - half, j - half)
        }
    }
}

/// The exponent of the largest power of two that is at most `d`.
pub open spec fn exponent(d: nat) -> nat
    decreases d,
{
    if d < 2 {
        0
    } else {
        1 + exponent(d / 2)
    }
}

/// The entry at row `i` and column `j` of the matrix of size `d`, without the
/// scale of its Hadamard part: what that part does not cover is left as it is.
pub open spec fn rotation_entry(d: nat, i: int, j: int) -> int {
    let n = pow2(exponent(d)) as int;
    if i < n && j < n {
        sign(exponent(d), i, j)
    } else if i == j {
        1
    } else {
        0
    }
}

proof fn lemma_sign_is_one(k: nat, i: int, j: int)
    ensures
        sign(k, i, j) == 1 || sign(k, i, j) == -1,
    decreases k,
{
    if k > 0 {
        let half = pow2((k - 1) as nat) as int;
        lemma_sign_is_one((k - 1) as nat, i, j);
        lemma_sign_is_one((k - 1) as nat, i, j - half);
        lemma_sign_is_one((k - 1) as nat, i - half, j);
        lemma_sign_is_one((k - 1) as nat, i - half, j - half);
    }
}

/// The power of two that `exponent` gives is at most `d`, and twice it is not.
proof fn lemma_exponent(d: nat)
    requires
        d > 0,
    ensures
        pow2(exponent(d)) <= d < 2 * pow2(exponent(d)),
    decreases d,
{
    lemma2_to64();
    if d >= 2 {
        lemma_exponent(d / 2);
        lemma_pow2_unfold(exponent(d));
    }
}

proof fn lemma_exponent_unique(d: nat, k: nat)
    requires
        d > 0,
        pow2(k) <= d < 2 * pow2(k),
    ensures
        k == exponent(d),
{
    let e = exponent(d);
    lemma_exponent(d);
    lemma_pow2_unfold(k + 1);
    lemma_pow2_unfold(e + 1);
    if k < e {
        if k + 1 < e {
            lemma_pow2_strictly_increases(k + 1, e);
        }
    }
    if e < k {
        if e + 1 < k {
            lemma_pow2_strictly_increases(e + 1, k);
        }
    }
}

/// The sum over the first `n` columns of the products of rows `a` and `b`.
pub open spec fn dot(k: nat, a: int, b: int, n: int) -> int
    decreases n,
{
    if n <= 0 {
        0
    } else {
        dot(k, a, b, n - 1) + sign(k, a, n - 1) * sign(k, b, n - 1)
    }
}

/// The row of the smaller matrix that row `a` repeats.
spec fn folded(k: nat, a: int) -> int {
    if a < pow2((k - 1) as nat) {
        a
    } else {
        a - pow2((k - 1) as nat)
    }
}

/// What the second copy is multiplied by.
spec fn flip(k: nat, a: int) -> int {
    if a < pow2((k - 1) as nat) {
        1
    } else {
        -1
    }
}

proof fn lemma_dot_first(k: nat, a: int, b: int, n: int)
    requires
        k > 0,
        0 <= n <= pow2((k - 1) as nat),
    ensures
        dot(k, a, b, n) == dot((k - 1) as nat, folded(k, a), folded(k, b), n),
    decreases n,
{
    if n > 0 {
        lemma_dot_first(k, a, b, n - 1);
    }
}

proof fn lemma_dot_second(k: nat, a: int, b: int, n: int)
    requires
        k > 0,
        0 <= n <= pow2((k - 1) as nat),
    ensures
        dot(k, a, b, pow2((k - 1) as nat) + n) == dot(
            (k - 1) as nat,
            folded(k, a),
            folded(k, b),
            pow2((k - 1) as nat) as int,
        ) + flip(k, a) * flip(k, b) * dot((k - 1) as nat, folded(k, a), folded(k, b), n),
    decreases n,
{
    let half = pow2((k - 1) as nat) as int;
    let c = folded(k, a);
    let d = folded(k, b);
    let f = flip(k, a) * flip(k, b);
    if n == 0 {
        lemma_dot_first(k, a, b, half);
        assert(f * dot((k - 1) as nat, c, d, 0) == 0) by (nonlinear_arith)
            requires
                dot((k - 1) as nat, c, d, 0) == 0,
        ;
    } else {
        lemma_dot_second(k, a, b, n - 1);
        let x = sign((k - 1) as nat, c, n - 1);
        let y = sign((k - 1) as nat, d, n - 1);
        let j = half + n - 1;
        let fa = flip(k, a);
        let fb = flip(k, b);
        assert(j - half == n - 1);
        assert(sign(k, a, j) == if a < half {
            x
        } else {
            -x
        });
        assert(sign(k, b, j) == if b < half {
            y
        } else {
            -y
        });
        assert(1 * x == x && -1 * x == -x && 1 * y == y && -1 * y == -y) by (nonlinear_arith);
        assert(sign(k, a, j) == fa * x);
        assert(sign(k, b, j) == fb * y);
        assert((fa * x) * (fb * y) == (fa * fb) * (x * y)) by (nonlinear_arith);
        let before = dot((k - 1) as nat, c, d, n - 1);
        assert(f * (before + x * y) == f * before + f * (x * y)) by (nonlinear_arith);
    }
}

/// Different rows of a Hadamard matrix are orthogonal, and each row has the
/// matrix's size as the sum of its squares: scaled by the root of its size,
/// the matrix is orthogonal.
pub proof fn law_rows_orthogonal(k: nat, a: int, b: int)
    requires
        0 <= a < pow2(k),
        0 <= b < pow2(k),
    ensures
        dot(k, a, b, pow2(k) as int) == if a == b {
            pow2(k) as int
        } else {
            0
        },
    decreases k,
{
    lemma2_to64();
    if k == 0 {
        assert(dot(0, a, b, 1) == dot(0, a, b, 0) + 1 * 1);
    } else {
        lemma_pow2_unfold(k);
        let half = pow2((k - 1) as nat) as int;
        let c = folded(k, a);
        let d = folded(k, b);
        law_rows_orthogonal((k - 1) as nat, c, d);
        lemma_dot_second(k, a, b, half);
        let inner = dot((k - 1) as nat, c, d, half);
        let f = flip(k, a) * flip(k, b);
        assert(f == 1 || f == -1);
        assert(f == 1 ==> f * inner == inner);
        assert(f == -1 ==> f * inner == -inner);
    }
}

fn doubled(rows: &Vec<Vec<i8>>, k: Ghost<nat>) -> (out: Vec<Vec<i8>>)
    requires
        rows@.len() == pow2(k@),
        2 * rows@.len() <= usize::MAX,
        forall|i: int| 0 <= i < rows@.len() ==> (#[trigger] rows@[i])@.len() == pow2(k@),
        forall|i: int, j: int|
            0 <= i < rows@.len() && 0 <= j < rows@.len() ==> #[trigger] rows@[i]@[j] == sign(
                k@,
                i,
                j,
            ),
    ensures
        out@.len() == pow2(k@ + 1),
        forall|i: int| 0 <= i < out@.len() ==> (#[trigger] out@[i])@.len() == pow2(k@ + 1),
        forall|i: int, j: int|
            0 <= i < out@.len() && 0 <= j < out@.len() ==> #[trigger] out@[i]@[j] == sign(
                k@ + 1,
                i,
                j,
            ),
{
    proof {
        lemma_pow2_unfold(k@ + 1);
    }
    let n: usize = rows.len();
    let mut out: Vec<Vec<i8>> = Vec::new();
    let mut i: usize = 0;
    while i < 2 * n
        invariant
            i <= 2 * n,
            2 * n <= usize::MAX,
            n == rows@.len(),
            n == pow2(k@),
            2 * n == pow2(k@ + 1),
            out@.len() == i,
            forall|a: int| 0 <= a < n ==> (#[trigger] rows@[a])@.len() == n,
            forall|a: int, j: int|
                0 <= a < n && 0 <= j < n ==> #[trigger] rows@[a]@[j] == sign(k@, a, j),
            forall|a: int| 0 <= a < i ==> (#[trigger] out@[a])@.len() == 2 * n,
            forall|a: int, j: int|
                0 <= a < i && 0 <= j < 2 * n ==> #[trigger] out@[a]@[j] == sign(k@ + 1, a, j),
        decreases 2 * n - i,
    {
        let at: usize = if i < n {
            i
        } else {
            i - n
        };
        let mut row: Vec<i8> = Vec::new();
        let mut j: usize = 0;
        while j < 2 * n
            invariant
                j <= 2 * n,
                i < 2 * n,
                2 * n <= usize::MAX,
                n == rows@.len(),
                n == pow2(k@),
                at == if i < n {
                    i as int
                } else {
                    i - n
                },
                row@.len() == j,
                forall|a: int| 0 <= a < n ==> (#[trigger] rows@[a])@.len() == n,
                forall|a: int, b: int|
                    0 <= a < n && 0 <= b < n ==> #[trigger] rows@[a]@[b] == sign(k@, a, b),
                forall|b: int| 0 <= b < j ==> #[trigger] row@[b] == sign(k@ + 1, i as int, b),
            decreases 2 * n - j,
        {
            let b: usize = if j < n {
                j
            } else {
                j - n
            };
            let v: i8 = rows[at][b];
            proof {
                lemma_sign_is_one(k@, at as int, b as int);
                assert(v == sign(k@, at as int, b as int));
                assert((k@ + 1 - 1) as nat == k@);
            }
            if i >= n && j >= n {
                row.push(-v);
            } else {
                row.push(v);
            }
            j += 1;
        }
        let ghost before = out@;
        out.push(row);
        assert forall|a: int, b: int| 0 <= a < i + 1 && 0 <= b < 2 * n implies #[trigger] out@[a]@[b]
            == sign(k@ + 1, a, b) by {
            if a < i {
                assert(out@[a] == before[a]);
                assert(before[a]@[b] == sign(k@ + 1, a, b));
            }
        }
        i += 1;
    }
    out
}

fn hadamard(d: usize) -> (rows: Vec<Vec<i8>>)
    requires
        d > 0,
    ensures
        rows@.len() == pow2(exponent(d as nat)),
        rows@.len() <= d,
        forall|i: int| 0 <= i < rows@.len() ==> (#[trigger] rows@[i])@.len() == rows@.len(),
        forall|i: int, j: int|
            0 <= i < rows@.len() && 0 <= j < rows@.len() ==> #[trigger] rows@[i]@[j] == sign(
                exponent(d as nat),
                i,
                j,
            ),
{
    let mut one: Vec<i8> = Vec::new();
    one.push(1);
    let mut rows: Vec<Vec<i8>> = Vec::new();
    rows.push(one);
    let ghost mut k: nat = 0;
    proof {
        lemma2_to64();
    }
    while rows.len() <= d / 2
        invariant
            d > 0,
            rows@.len() == pow2(k),
            rows@.len() <= d,
            rows@.len() >= 1,
            forall|i: int| 0 <= i < rows@.len() ==> (#[trigger] rows@[i])@.len() == pow2(k),
            forall|i: int, j: int|
                0 <= i < rows@.len() && 0 <= j < rows@.len() ==> #[trigger] rows@[i]@[j] == sign(
                    k,
                    i,
                    j,
                ),
        decreases d - rows@.len(),
    {
        let next = doubled(&rows, Ghost(k));
        proof {
            lemma_pow2_unfold(k + 1);
            k = k + 1;
        }
        rows = next;
    }
    proof {
        lemma_exponent_unique(d as nat, k);
    }
    rows
}

/// The rotation of size `d`, row by row, and the size of its Hadamard part,
/// whose entries are still to be divided by the root of that size.
pub fn generate_hadamard_orthogonal(d: usize) -> (r: (Vec<Vec<i8>>, usize))
    requires
        d > 0,
    ensures
        r.1 == pow2(exponent(d as nat)),
        r.1 <= d < 2 * r.1,
        r.0@.len() == d,
        forall|i: int| 0 <= i < d ==> (#[trigger] r.0@[i])@.len() == d,
        forall|i: int, j: int|
            0 <= i < d && 0 <= j < d ==> #[trigger] r.0@[i]@[j] == rotation_entry(d as nat, i, j),
{
    let part = hadamard(d);
    let n: usize = part.len();
    proof {
        lemma_exponent(d as nat);
    }
    let mut out: Vec<Vec<i8>> = Vec::new();
    let mut i: usize = 0;
    while i < d
        invariant
            i <= d,
            n == part@.len(),
            n <= d,
            n == pow2(exponent(d as nat)),
            forall|a: int| 0 <= a < n ==> (#[trigger] part@[a])@.len() == n,
            forall|a: int, b: int|
                0 <= a < n && 0 <= b < n ==> #[trigger] part@[a]@[b] == sign(
                    exponent(d as nat),
                    a,
                    b,
                ),
            out@.len() == i,
            forall|a: int| 0 <= a < i ==> (#[trigger] out@[a])@.len() == d,
            forall|a: int, b: int|
                0 <= a < i && 0 <= b < d ==> #[trigger] out@[a]@[b] == rotation_entry(
                    d as nat,
                    a,
                    b,
                ),
        decreases d - i,
    {
        let mut row: Vec<i8> = Vec::new();
        let mut j: usize = 0;
        while j < d
            invariant
                i < d,
                j <= d,
                n == part@.len(),
                n == pow2(exponent(d as nat)),
                forall|a: int| 0 <= a < n ==> (#[trigger] part@[a])@.len() == n,
                forall|a: int, b: int|
                    0 <= a < n && 0 <= b < n ==> #[trigger] part@[a]@[b] == sign(
                        exponent(d as nat),
                        a,
                        b,
                    ),
                row@.len() == j,
                forall|b: int|
                    0 <= b < j ==> #[trigger] row@[b] == rotation_entry(d as nat, i as int, b),
            decreases d - j,
        {
            let v: i8 = if i < n && j < n {
                part[i][j]
            } else if i == j {
                1
            } else {
                0
            };
            row.push(v);
            j += 1;
        }
        let ghost before = out@;
        out.push(row);
        assert forall|a: int, b: int| 0 <= a < i + 1 && 0 <= b < d implies #[trigger] out@[a]@[b]
            == rotation_entry(d as nat, a, b) by {
            if a < i {
                assert(out@[a] == before[a]);
                assert(before[a]@[b] == rotation_entry(d as nat, a, b));
            }
        }
        i += 1;
    }
    (out, n)
}

/// The matrix of twice the size repeats the smaller one in its four quarters,
/// the last of them with the signs turned.
pub proof fn law_quarters(k: nat, i: int, j: int)
    requires
        0 <= i < pow2(k),
        0 <= j < pow2(k),
    ensures
        ({
            let n = pow2(k) as int;
            &&& sign(0, 0, 0) == 1
            &&& sign(k + 1, i, j) == sign(k, i, j)
            &&& sign(k + 1, i, j + n) == sign(k, i, j)
            &&& sign(k + 1, i + n, j) == sign(k, i, j)
            &&& sign(k + 1, i + n, j + n) == -sign(k, i, j)
        }),
{
}

/// The matrix is the Hadamard matrix of the greatest power of two that fits,
/// and leaves everything else as it is.
pub proof fn law_rotation_entries(d: nat, k: nat, i: int, j: int)
    requires
        pow2(k) <= d < 2 * pow2(k),
        0 <= i < d,
        0 <= j < d,
    ensures
        i < pow2(k) && j < pow2(k) ==> rotation_entry(d, i, j) == sign(k, i, j),
        !(i < pow2(k) && j < pow2(k)) ==> rotation_entry(d, i, j) == (if i == j {
            1int
        } else {
            0
        }),
{
    lemma_exponent_unique(d, k);
}

} // verus!
