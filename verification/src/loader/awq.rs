//! AWQ packed weights.
//!
//! - `qweight`: words, `[in_features, out_features / 8]`, eight 4-bit integers
//!   per word along the output axis.
//! - `qzeros`: words, `[in_features / group_size, out_features / 8]`, packed
//!   in the same way, one zero point per group and output channel.
//! - `scales`: `[in_features / group_size, out_features]`.
//!
//! A weight is its integer less its zero point, times its scale.
use vstd::prelude::*;
use crate::loader::packed::{
    all_below, base_of, bits_at, ceil_div, component, div_up, field_of_word, law_nibbles_read_back,
    lemma_component, lemma_no_component, PackError, Unpacked, WordMatrix,
};
use crate::text::Text;

verus! {

/// The field of a word that holds column `i` of its eight columns: 0, 4, 1, 5,
/// 2, 6, 3, 7.
pub open spec fn lane(i: int) -> u32 {
    (i / 2 + 4 * (i % 2)) as u32
}

/// Every field of a word holds exactly one of its eight columns.
pub proof fn law_lanes_permute()
    ensures
        forall|i: int| 0 <= i < 8 ==> 0 <= #[trigger] lane(i) < 8,
        forall|i: int, j: int| 0 <= i < 8 && 0 <= j < 8 && #[trigger] lane(i) == #[trigger] lane(j) ==> i == j,
{
}

/// The part of a packed layer that a tensor name speaks of.
pub open spec fn awq_part(name: Text) -> Option<(Text, Text)> {
    match component(name, ".qweight"@, "qweight"@) {
        Some(c) => Some(c),
        None => match component(name, ".qzeros"@, "qzeros"@) {
            Some(c) => Some(c),
            None => component(name, ".scales"@, "scales"@),
        },
    }
}

/// The layer and the part that a tensor name speaks of, if it is one of the
/// three parts of a packed layer.
pub fn awq_component<'a>(name: &'a str) -> (r: Option<(&'a str, &'static str)>)
    ensures
        match r {
            Some((base, kind)) => awq_part(name@) == Some((base@, kind@)),
            None => awq_part(name@) is None,
        },
{
    if let Some(base) = base_of(name, ".qweight") {
        return Some((base, "qweight"));
    }
    if let Some(base) = base_of(name, ".qzeros") {
        return Some((base, "qzeros"));
    }
    if let Some(base) = base_of(name, ".scales") {
        return Some((base, "scales"));
    }
    None
}

/// The integer of input `k` and output `n`, less its zero point.
pub open spec fn awq_value(
    qweight: WordMatrix,
    qzeros: WordMatrix,
    group_size: int,
    k: int,
    n: int,
) -> int {
    bits_at(qweight.word(k, n / 8), 4, lane(n % 8)) - bits_at(
        qzeros.word(k / group_size, n / 8),
        4,
        lane(n % 8),
    )
}

fn awq_row(qweight: &WordMatrix, qzeros: &WordMatrix, group_size: usize, k: usize) -> (row: Vec<i32>)
    requires
        qweight.wf(),
        qzeros.wf(),
        group_size > 0,
        qweight.cols * 8 <= usize::MAX,
        qzeros.cols == qweight.cols,
        k < qweight.rows,
        k as int / (group_size as int) < qzeros.rows,
    ensures
        row.len() == qweight.cols * 8,
        forall|n: int|
            0 <= n < row.len() ==> #[trigger] row@[n] == awq_value(
                *qweight,
                *qzeros,
                group_size as int,
                k as int,
                n,
            ),
{
    let cols: usize = qweight.cols * 8;
    let group: usize = k / group_size;
    let mut row: Vec<i32> = Vec::new();
    let mut n: usize = 0;
    while n < cols
        invariant
            n <= cols,
            cols == qweight.cols * 8,
            qweight.wf(),
            qzeros.wf(),
            qzeros.cols == qweight.cols,
            k < qweight.rows,
            group == k as int / (group_size as int),
            group < qzeros.rows,
            row.len() == n,
            forall|m: int|
                0 <= m < n ==> #[trigger] row@[m] == awq_value(
                    *qweight,
                    *qzeros,
                    group_size as int,
                    k as int,
                    m,
                ),
        decreases cols - n,
    {
        let i: u32 = (n % 8) as u32;
        let lane_i: u32 = i / 2 + 4 * (i % 2);
        assert(lane_i == lane(n as int % 8));
        let w: u32 = field_of_word(qweight.at(k, n / 8), 4, lane_i);
        let z: u32 = field_of_word(qzeros.at(group, n / 8), 4, lane_i);
        assert(1u32 << 4 == 16u32) by (bit_vector);
        row.push(w as i32 - z as i32);
        n += 1;
    }
    row
}

/// Unpacks one layer: row `k` holds the integers of input `k`, less their zero
/// points, to be scaled by the scales of group `groups[k]`.
pub fn dequantize_awq_linear(
    qweight: &WordMatrix,
    qzeros: &WordMatrix,
    group_size: usize,
) -> (r: Result<Unpacked, PackError>)
    requires
        qweight.wf(),
        qzeros.wf(),
        group_size > 0,
        qweight.cols * 8 <= usize::MAX,
    ensures
        match r {
            Ok(u) => {
                &&& qzeros.cols == qweight.cols
                &&& qzeros.rows == ceil_div(qweight.rows as nat, group_size as nat)
                &&& u.values.len() == qweight.rows
                &&& forall|k: int|
                    0 <= k < qweight.rows ==> (#[trigger] u.values@[k]).len() == qweight.cols * 8
                &&& forall|k: int, n: int|
                    #![trigger u.values@[k]@[n]]
                    0 <= k < qweight.rows && 0 <= n < qweight.cols * 8 ==> u.values@[k]@[n]
                        == awq_value(*qweight, *qzeros, group_size as int, k, n)
                &&& u.groups.len() == qweight.rows
                &&& forall|k: int|
                    0 <= k < qweight.rows ==> #[trigger] u.groups@[k] == k / (group_size as int)
            },
            Err(PackError::OutMismatch(a, b)) => a == qweight.cols && b == qzeros.cols && a != b,
            Err(PackError::GroupMismatch(a, b)) => qzeros.cols == qweight.cols && a == qzeros.rows
                && b == ceil_div(qweight.rows as nat, group_size as nat) && a != b,
            Err(_) => false,
        },
{
    if qzeros.cols != qweight.cols {
        return Err(PackError::OutMismatch(qweight.cols, qzeros.cols));
    }
    let expected: usize = div_up(qweight.rows, group_size);
    if qzeros.rows != expected {
        return Err(PackError::GroupMismatch(qzeros.rows, expected));
    }
    let mut values: Vec<Vec<i32>> = Vec::new();
    let mut groups: Vec<usize> = Vec::new();
    let mut k: usize = 0;
    while k < qweight.rows
        invariant
            k <= qweight.rows,
            qweight.wf(),
            qzeros.wf(),
            group_size > 0,
            qweight.cols * 8 <= usize::MAX,
            qzeros.cols == qweight.cols,
            qzeros.rows == expected,
            forall|j: int|
                #![trigger j / (group_size as int)]
                0 <= j < qweight.rows ==> j / (group_size as int) < expected,
            values.len() == k,
            groups.len() == k,
            forall|j: int| 0 <= j < k ==> #[trigger] groups@[j] == j / (group_size as int),
            forall|j: int| 0 <= j < k ==> (#[trigger] values@[j]).len() == qweight.cols * 8,
            forall|j: int, n: int|
                #![trigger values@[j]@[n]]
                0 <= j < k && 0 <= n < qweight.cols * 8 ==> values@[j]@[n] == awq_value(
                    *qweight,
                    *qzeros,
                    group_size as int,
                    j,
                    n,
                ),
        decreases qweight.rows - k,
    {
        assert(k as int / (group_size as int) < expected);
        values.push(awq_row(qweight, qzeros, group_size, k));
        groups.push(k / group_size);
        k += 1;
    }
    Ok(Unpacked { values, groups })
}

/// Each suffix names its own part of a layer.
pub proof fn law_parts_are_told(base: Text)
    ensures
        awq_part(base + ".qweight"@) == Some((base, "qweight"@)),
        awq_part(base + ".qzeros"@) == Some((base, "qzeros"@)),
        awq_part(base + ".scales"@) == Some((base, "scales"@)),
{
    reveal_strlit(".qweight");
    reveal_strlit(".qzeros");
    reveal_strlit(".scales");
    lemma_component(base, ".qweight"@, "qweight"@);
    lemma_component(base, ".qzeros"@, "qzeros"@);
    lemma_component(base, ".scales"@, "scales"@);
    lemma_no_component(base, ".qzeros"@, ".qweight"@, 1);
    lemma_no_component(base, ".scales"@, ".qweight"@, 1);
    lemma_no_component(base, ".scales"@, ".qzeros"@, 2);
}

/// Eight columns in a word: 0, 2, 4 and 6 in the low half, 1, 3, 5 and 7 in the
/// high half.
pub open spec fn interleaved(v: Seq<u32>) -> u32 {
    v[0] | v[2] << 4 | v[4] << 8 | v[6] << 12 | v[1] << 16 | v[3] << 20 | v[5] << 24 | v[7] << 28
}

/// Where integers and zero points were written interleaved, a weight is its
/// integer less the zero point of its group and column.
pub proof fn law_weights_read_back(
    qweight: WordMatrix,
    qzeros: WordMatrix,
    group_size: int,
    k: int,
    n: int,
    w: Seq<u32>,
    z: Seq<u32>,
)
    requires
        n >= 0,
        all_below(w, 8, 16),
        all_below(z, 8, 16),
        qweight.word(k, n / 8) == interleaved(w),
        qzeros.word(k / group_size, n / 8) == interleaved(z),
    ensures
        awq_value(qweight, qzeros, group_size, k, n) == w[n % 8] - z[n % 8],
{
    law_nibbles_read_back(w[0], w[2], w[4], w[6], w[1], w[3], w[5], w[7]);
    law_nibbles_read_back(z[0], z[2], z[4], z[6], z[1], z[3], z[5], z[7]);
    let i = n % 8;
    assert(0 <= i < 8);
    assert(lane(0) == 0 && lane(1) == 4 && lane(2) == 1 && lane(3) == 5 && lane(4) == 2 && lane(5)
        == 6 && lane(6) == 3 && lane(7) == 7);
}

} // verus!
