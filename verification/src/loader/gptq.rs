//! GPTQ packed weights.
//!
//! - `qweight`: words, `[in_features / 8, out_features]`, eight 4-bit integers
//!   per word along the input axis.
//! - `qzeros`: words, `[in_features / group_size, out_features / 8]`.
//! - `scales`: `[in_features / group_size, out_features]`.
//! - `g_idx`: `[in_features]`, the group of each input; without it the inputs
//!   are grouped in order.
//!
//! A weight is its integer, less its zero point plus one, times its scale.
use vstd::prelude::*;
use crate::loader::packed::{
    all_below, base_of, bits_at, ceil_div, component, div_up, field_of_word, law_words_read_back,
    lemma_component, lemma_no_component, nibbles, PackError, Unpacked, WordMatrix,
};
use crate::text::Text;

verus! {

/// The part of a packed layer that a tensor name speaks of.
pub open spec fn gptq_part(name: Text) -> Option<(Text, Text)> {
    match component(name, ".qweight"@, "qweight"@) {
        Some(c) => Some(c),
        None => match component(name, ".qzeros"@, "qzeros"@) {
            Some(c) => Some(c),
            None => match component(name, ".scales"@, "scales"@) {
                Some(c) => Some(c),
                None => component(name, ".g_idx"@, "g_idx"@),
            },
        },
    }
}

/// The layer and the part that a tensor name speaks of, if it is one of the
/// four parts of a packed layer.
pub fn gptq_component<'a>(name: &'a str) -> (r: Option<(&'a str, &'static str)>)
    ensures
        match r {
            Some((base, kind)) => gptq_part(name@) == Some((base@, kind@)),
            None => gptq_part(name@) is None,
        },
{
    if let Some(base) = base_of(name, ".qweight") {
        return Some((base, "qweight"));
    }
    if let Some(base) = base_of(name, ".qzeros") {
        return Some((base, "qzeros"));
    }
    if let Some(base) = base_of(name, ".scales") {
        return Some((base, "scales"));
    }
    if let Some(base) = base_of(name, ".g_idx") {
        return Some((base, "g_idx"));
    }
    None
}

/// The group of input `k`.
pub open spec fn group_of(g_idx: Option<Seq<u32>>, group_size: int, k: int) -> int {
    match g_idx {
        Some(g) => g[k] as int,
        None => k / group_size,
    }
}

/// The list behind an optional reference.
pub open spec fn list_of(g: Option<&Vec<u32>>) -> Option<Seq<u32>> {
    match g {
        Some(v) => Some(v@),
        None => None,
    }
}

/// The integer of input `k` and output `n`, less its zero point plus one.
pub open spec fn gptq_value(
    qweight: WordMatrix,
    qzeros: WordMatrix,
    group: int,
    k: int,
    n: int,
) -> int {
    bits_at(qweight.word(k / 8, n), 4, (k % 8) as u32) - (bits_at(
        qzeros.word(group, n / 8),
        4,
        (n % 8) as u32,
    ) + 1)
}

fn gptq_row(qweight: &WordMatrix, qzeros: &WordMatrix, group: usize, k: usize) -> (row: Vec<i32>)
    requires
        qweight.wf(),
        qzeros.wf(),
        qzeros.cols * 8 == qweight.cols,
        k as int / 8 < qweight.rows,
        qweight.cols > 0 ==> group < qzeros.rows,
    ensures
        row.len() == qweight.cols,
        forall|n: int|
            0 <= n < row.len() ==> #[trigger] row@[n] == gptq_value(
                *qweight,
                *qzeros,
                group as int,
                k as int,
                n,
            ),
{
    let mut row: Vec<i32> = Vec::new();
    let mut n: usize = 0;
    while n < qweight.cols
        invariant
            n <= qweight.cols,
            qweight.wf(),
            qzeros.wf(),
            qzeros.cols * 8 == qweight.cols,
            k as int / 8 < qweight.rows,
            qweight.cols > 0 ==> group < qzeros.rows,
            row.len() == n,
            forall|m: int|
                0 <= m < n ==> #[trigger] row@[m] == gptq_value(
                    *qweight,
                    *qzeros,
                    group as int,
                    k as int,
                    m,
                ),
        decreases qweight.cols - n,
    {
        let w: u32 = field_of_word(qweight.at(k / 8, n), 4, (k % 8) as u32);
        let z: u32 = field_of_word(qzeros.at(group, n / 8), 4, (n % 8) as u32);
        assert(1u32 << 4 == 16u32) by (bit_vector);
        row.push(w as i32 - (z as i32 + 1));
        n += 1;
    }
    row
}

/// Unpacks one layer: row `k` holds the integers of input `k`, less their zero
/// points plus one, to be scaled by the scales of group `groups[k]`.
pub fn dequantize_gptq_linear(
    qweight: &WordMatrix,
    qzeros: &WordMatrix,
    g_idx: Option<&Vec<u32>>,
    group_size: usize,
) -> (r: Result<Unpacked, PackError>)
    requires
        qweight.wf(),
        qzeros.wf(),
        group_size > 0,
        qweight.rows * 8 <= usize::MAX,
        qzeros.cols * 8 <= usize::MAX,
        list_of(g_idx) matches Some(g) ==> qweight.cols > 0 && g.len() == qweight.rows * 8
            ==> forall|k: int| 0 <= k < g.len() ==> #[trigger] g[k] < qzeros.rows,
    ensures
        ({
            let inputs = qweight.rows * 8;
            let expected = ceil_div(inputs as nat, group_size as nat);
            match r {
                Ok(u) => {
                    &&& qzeros.cols * 8 == qweight.cols
                    &&& qzeros.rows == expected
                    &&& list_of(g_idx) matches Some(g) ==> g.len() == inputs
                    &&& u.values.len() == inputs
                    &&& forall|k: int|
                        0 <= k < inputs ==> (#[trigger] u.values@[k]).len() == qweight.cols
                    &&& forall|k: int, n: int|
                        #![trigger u.values@[k]@[n]]
                        0 <= k < inputs && 0 <= n < qweight.cols ==> u.values@[k]@[n]
                            == gptq_value(
                            *qweight,
                            *qzeros,
                            group_of(list_of(g_idx), group_size as int, k),
                            k,
                            n,
                        )
                    &&& u.groups.len() == inputs
                    &&& forall|k: int|
                        0 <= k < inputs ==> #[trigger] u.groups@[k] == group_of(
                            list_of(g_idx),
                            group_size as int,
                            k,
                        )
                },
                Err(PackError::OutMismatch(a, b)) => a == qweight.cols && b == qzeros.cols * 8 && a
                    != b,
                Err(PackError::GroupMismatch(a, b)) => qzeros.cols * 8 == qweight.cols && a
                    == qzeros.rows && b == expected && a != b,
                Err(PackError::IndexMismatch(a, b)) => qzeros.cols * 8 == qweight.cols
                    && qzeros.rows == expected && list_of(g_idx) is Some && a == list_of(
                    g_idx,
                )->0.len() && b == inputs && a != b,
                Err(_) => false,
            }
        }),
{
    let inputs: usize = qweight.rows * 8;
    if qzeros.cols * 8 != qweight.cols {
        return Err(PackError::OutMismatch(qweight.cols, qzeros.cols * 8));
    }
    let expected: usize = div_up(inputs, group_size);
    if qzeros.rows != expected {
        return Err(PackError::GroupMismatch(qzeros.rows, expected));
    }
    if let Some(g) = g_idx {
        if g.len() != inputs {
            return Err(PackError::IndexMismatch(g.len(), inputs));
        }
    }
    let ghost list = list_of(g_idx);
    let mut values: Vec<Vec<i32>> = Vec::new();
    let mut groups: Vec<usize> = Vec::new();
    let mut k: usize = 0;
    while k < inputs
        invariant
            k <= inputs,
            inputs == qweight.rows * 8,
            qweight.wf(),
            qzeros.wf(),
            group_size > 0,
            qzeros.cols * 8 == qweight.cols,
            qzeros.rows == expected,
            list == list_of(g_idx),
            list matches Some(g) ==> g.len() == inputs,
            list matches Some(g) ==> qweight.cols > 0 ==> forall|j: int|
                0 <= j < g.len() ==> #[trigger] g[j] < qzeros.rows,
            forall|j: int|
                #![trigger j / (group_size as int)]
                0 <= j < inputs ==> j / (group_size as int) < expected,
            values.len() == k,
            groups.len() == k,
            forall|j: int|
                0 <= j < k ==> #[trigger] groups@[j] == group_of(list, group_size as int, j),
            forall|j: int| 0 <= j < k ==> (#[trigger] values@[j]).len() == qweight.cols,
            forall|j: int, n: int|
                #![trigger values@[j]@[n]]
                0 <= j < k && 0 <= n < qweight.cols ==> values@[j]@[n] == gptq_value(
                    *qweight,
                    *qzeros,
                    group_of(list, group_size as int, j),
                    j,
                    n,
                ),
        decreases inputs - k,
    {
        let group: usize = match g_idx {
            Some(g) => g[k] as usize,
            None => k / group_size,
        };
        assert(k as int / (group_size as int) < expected);
        values.push(gptq_row(qweight, qzeros, group, k));
        groups.push(group);
        k += 1;
    }
    Ok(Unpacked { values, groups })
}

/// Each suffix names its own part of a layer.
pub proof fn law_parts_are_told(base: Text)
    ensures
        gptq_part(base + ".qweight"@) == Some((base, "qweight"@)),
        gptq_part(base + ".qzeros"@) == Some((base, "qzeros"@)),
        gptq_part(base + ".scales"@) == Some((base, "scales"@)),
        gptq_part(base + ".g_idx"@) == Some((base, "g_idx"@)),
{
    reveal_strlit(".qweight");
    reveal_strlit(".qzeros");
    reveal_strlit(".scales");
    reveal_strlit(".g_idx");
    lemma_component(base, ".qweight"@, "qweight"@);
    lemma_component(base, ".qzeros"@, "qzeros"@);
    lemma_component(base, ".scales"@, "scales"@);
    lemma_component(base, ".g_idx"@, "g_idx"@);
    lemma_no_component(base, ".qzeros"@, ".qweight"@, 1);
    lemma_no_component(base, ".scales"@, ".qweight"@, 1);
    lemma_no_component(base, ".scales"@, ".qzeros"@, 2);
    lemma_no_component(base, ".g_idx"@, ".qweight"@, 1);
    lemma_no_component(base, ".g_idx"@, ".qzeros"@, 1);
    lemma_no_component(base, ".g_idx"@, ".scales"@, 1);
}

/// Where integers were written eight inputs to a word and zero points eight
/// outputs to a word, a weight is its integer less the zero point of its group
/// and output, less one.
pub proof fn law_weights_read_back(
    qweight: WordMatrix,
    qzeros: WordMatrix,
    group: int,
    k: int,
    n: int,
    w: Seq<u32>,
    z: Seq<u32>,
)
    requires
        k >= 0,
        n >= 0,
        all_below(w, 8, 16),
        all_below(z, 8, 16),
        qweight.word(k / 8, n) == nibbles(w),
        qzeros.word(group, n / 8) == nibbles(z),
    ensures
        gptq_value(qweight, qzeros, group, k, n) == w[k % 8] - z[n % 8] - 1,
{
    law_words_read_back(w, k % 8);
    law_words_read_back(z, n % 8);
}

/// The group of an input is the one that the list gives; without a list the
/// inputs are grouped in order, `group_size` at a time.
pub proof fn law_groups(g: Seq<u32>, group_size: int, group: int, k: int)
    requires
        group_size > 0,
    ensures
        group_of(Some(g), group_size, k) == g[k],
        group * group_size <= k < (group + 1) * group_size ==> group_of(None, group_size, k)
            == group,
{
    if group * group_size <= k < (group + 1) * group_size {
        let r = k - group * group_size;
        assert((group + 1) * group_size == group * group_size + group_size) by (nonlinear_arith);
        assert(group * group_size == group_size * group) by (nonlinear_arith);
        vstd::arithmetic::div_mod::lemma_fundamental_div_mod_converse(k, group_size, group, r);
    }
}

} // verus!
