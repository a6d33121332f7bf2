//! Matrices of packed small integers.
use vstd::prelude::*;
use crate::text::{chars_of, ends, is_at, Text};

verus! {

/// A matrix of words, row by row.
#[derive(Debug)]
pub struct WordMatrix {
    pub rows: usize,
    pub cols: usize,
    pub data: Vec<u32>,
}

impl WordMatrix {
    /// There are as many words as the shape says.
    pub open spec fn wf(self) -> bool {
        self.data@.len() == self.rows * self.cols
    }

    /// The word in row `r` and column `c`.
    pub open spec fn word(self, r: int, c: int) -> u32 {
        self.data@[r * self.cols + c]
    }

    /// Reads the word in row `r` and column `c`.
    pub fn at(&self, r: usize, c: usize) -> (w: u32)
        requires
            self.wf(),
            r < self.rows,
            c < self.cols,
        ensures
            w == self.word(r as int, c as int),
    {
        proof {
            lemma_cell(r as int, c as int, self.rows as int, self.cols as int);
        }
        let n: usize = self.data.len();
        assert(r * self.cols + c < n);
        assert(r * self.cols >= 0) by (nonlinear_arith)
            requires
                r >= 0,
                self.cols >= 0,
        ;
        self.data[r * self.cols + c]
    }
}

/// A cell of a matrix lies within it.
pub proof fn lemma_cell(r: int, c: int, rows: int, cols: int)
    requires
        0 <= r < rows,
        0 <= c < cols,
    ensures
        0 <= r * cols + c < rows * cols,
{
    assert(r * cols + c < rows * cols) by (nonlinear_arith)
        requires
            0 <= r < rows,
            0 <= c < cols,
    ;
    assert(0 <= r * cols) by (nonlinear_arith)
        requires
            0 <= r,
            0 < cols,
    ;
}

/// Field `i` of a word that is divided into fields of `width` bits, the first
/// in the lowest bits.
pub open spec fn bits_at(word: u32, width: u32, i: u32) -> u32 {
    (word >> ((width * i) as u32)) & (((1u32 << width) - 1) as u32)
}

/// Reads field `i` of a word.
pub fn field_of_word(word: u32, width: u32, i: u32) -> (v: u32)
    requires
        1 <= width < 32,
        width * i < 32,
    ensures
        v == bits_at(word, width, i),
        v < 1u32 << width,
{
    proof {
        assert(1u32 << width >= 2u32) by (bit_vector)
            requires
                1 <= width < 32,
        ;
        let m = ((1u32 << width) - 1) as u32;
        let w = word >> ((width * i) as u32);
        assert(w & m <= m) by (bit_vector);
    }
    (word >> (width * i)) & ((1u32 << width) - 1)
}

/// Writing eight small integers into a word, the first in the lowest bits, and
/// reading its fields gives the integers back.
pub proof fn law_nibbles_read_back(
    v0: u32,
    v1: u32,
    v2: u32,
    v3: u32,
    v4: u32,
    v5: u32,
    v6: u32,
    v7: u32,
)
    requires
        v0 < 16,
        v1 < 16,
        v2 < 16,
        v3 < 16,
        v4 < 16,
        v5 < 16,
        v6 < 16,
        v7 < 16,
    ensures
        ({
            let word = v0 | v1 << 4 | v2 << 8 | v3 << 12 | v4 << 16 | v5 << 20 | v6 << 24 | v7
                << 28;
            &&& bits_at(word, 4, 0) == v0
            &&& bits_at(word, 4, 1) == v1
            &&& bits_at(word, 4, 2) == v2
            &&& bits_at(word, 4, 3) == v3
            &&& bits_at(word, 4, 4) == v4
            &&& bits_at(word, 4, 5) == v5
            &&& bits_at(word, 4, 6) == v6
            &&& bits_at(word, 4, 7) == v7
        }),
{
    let word = v0 | v1 << 4 | v2 << 8 | v3 << 12 | v4 << 16 | v5 << 20 | v6 << 24 | v7 << 28;
    assert((1u32 << 4) == 16) by (bit_vector);
    assert((word >> 0) & 15 == v0 && (word >> 4) & 15 == v1 && (word >> 8) & 15 == v2 && (word
        >> 12) & 15 == v3 && (word >> 16) & 15 == v4 && (word >> 20) & 15 == v5 && (word >> 24) & 15
        == v6 && (word >> 28) & 15 == v7) by (bit_vector)
        requires
            word == v0 | v1 << 4 | v2 << 8 | v3 << 12 | v4 << 16 | v5 << 20 | v6 << 24 | v7 << 28,
            v0 < 16,
            v1 < 16,
            v2 < 16,
            v3 < 16,
            v4 < 16,
            v5 < 16,
            v6 < 16,
            v7 < 16,
    ;
}

/// Writing four bytes into a word, the first in the lowest bits, and reading
/// its fields gives the bytes back.
pub proof fn law_bytes_read_back(v0: u32, v1: u32, v2: u32, v3: u32)
    requires
        v0 < 256,
        v1 < 256,
        v2 < 256,
        v3 < 256,
    ensures
        ({
            let word = v0 | v1 << 8 | v2 << 16 | v3 << 24;
            &&& bits_at(word, 8, 0) == v0
            &&& bits_at(word, 8, 1) == v1
            &&& bits_at(word, 8, 2) == v2
            &&& bits_at(word, 8, 3) == v3
        }),
{
    let word = v0 | v1 << 8 | v2 << 16 | v3 << 24;
    assert((1u32 << 8) == 256) by (bit_vector);
    assert((word >> 0) & 255 == v0 && (word >> 8) & 255 == v1 && (word >> 16) & 255 == v2 && (word
        >> 24) & 255 == v3) by (bit_vector)
        requires
            word == v0 | v1 << 8 | v2 << 16 | v3 << 24,
            v0 < 256,
            v1 < 256,
            v2 < 256,
            v3 < 256,
    ;
}

/// Why packed tensors do not fit together.
#[derive(Debug, Clone, Copy, PartialEq, Eq, Structural)]
pub enum PackError {
    /// The output axes differ: of the weight, and of what belongs to it.
    OutMismatch(usize, usize),
    /// There are not as many groups as the input axis asks for: the number
    /// there is, and the number there should be.
    GroupMismatch(usize, usize),
    /// The group index list does not cover the input axis: its length, and
    /// the length that it should have.
    IndexMismatch(usize, usize),
    /// The biases do not have the shape of the scales: their shape.
    BiasMismatch(usize, usize),
}

/// `n` divided by `size`, rounded up.
pub open spec fn ceil_div(n: nat, size: nat) -> nat {
    if n % size == 0 {
        n / size
    } else {
        n / size + 1
    }
}

/// Divides, rounding up.
pub fn div_up(n: usize, size: usize) -> (q: usize)
    requires
        size > 0,
    ensures
        q == ceil_div(n as nat, size as nat),
        forall|k: int| #![trigger k / (size as int)] 0 <= k < n ==> k / (size as int) < q,
{
    let whole: usize = n / size;
    proof {
        vstd::arithmetic::div_mod::lemma_fundamental_div_mod(n as int, size as int);
        assert forall|k: int| #![trigger k / (size as int)] 0 <= k < n implies k / (size as int)
            < ceil_div(n as nat, size as nat) by {
            vstd::arithmetic::div_mod::lemma_fundamental_div_mod(k, size as int);
            let q = k / size as int;
            let w = n as int / size as int;
            let d = size as int;
            if n % size == 0 {
                assert(q < w) by (nonlinear_arith)
                    requires
                        d > 0,
                        k == d * q + k % d,
                        0 <= k % d,
                        k < d * w,
                ;
            } else {
                assert(q <= w) by (nonlinear_arith)
                    requires
                        d > 0,
                        k == d * q + k % d,
                        0 <= k % d,
                        k < d * w + d,
                ;
            }
        }
        assert(whole < usize::MAX || n % size == 0) by (nonlinear_arith)
            requires
                whole == n as int / size as int,
                n == size * (n as int / size as int) + n % size,
                size > 0,
                0 <= n % size,
                n <= usize::MAX,
        ;
    }
    if n % size == 0 {
        whole
    } else {
        whole + 1
    }
}

/// Small integers, row by row, with the group of scales that each input
/// feature belongs to.
#[derive(Debug)]
pub struct Unpacked {
    pub values: Vec<Vec<i32>>,
    pub groups: Vec<usize>,
}

/// `name` ends in `suffix`: the name without it.
pub fn base_of<'a>(name: &'a str, suffix: &str) -> (base: Option<&'a str>)
    ensures
        match base {
            Some(b) => ends(name@, suffix@) && b@ == name@.take(name@.len() - suffix@.len()),
            None => !ends(name@, suffix@),
        },
{
    let nc = chars_of(name);
    let sc = chars_of(suffix);
    if sc.len() > nc.len() || !is_at(&nc, &sc, nc.len() - sc.len()) {
        return None;
    }
    Some(name.substring_char(0, nc.len() - sc.len()))
}

/// `name` without `suffix`, and what the suffix stands for.
pub open spec fn component(name: Text, suffix: Text, kind: Text) -> Option<(Text, Text)> {
    if ends(name, suffix) {
        Some((name.take(name.len() - suffix.len()), kind))
    } else {
        None
    }
}

/// The rows of a matrix stand one behind the other.
pub proof fn law_row_by_row(m: WordMatrix, r: int, c: int)
    requires
        m.wf(),
        0 <= r < m.rows,
        0 <= c < m.cols,
    ensures
        m.word(r, c) == m.data@.subrange(r * m.cols, (r + 1) * m.cols)[c],
        m.word(0, c) == m.data@[c],
        r + 1 < m.rows ==> m.word(r + 1, 0) == m.data@[r * m.cols + m.cols],
{
    lemma_cell(r, c, m.rows as int, m.cols as int);
    let w = m.cols as int;
    assert((r + 1) * w == r * w + w) by (nonlinear_arith);
    assert((r + 1) * w <= m.rows * w) by (nonlinear_arith)
        requires
            r + 1 <= m.rows,
            w >= 0,
    ;
    assert(0 * w == 0) by (nonlinear_arith);
    assert(r * w >= 0) by (nonlinear_arith)
        requires
            r >= 0,
            w >= 0,
    ;
}

/// Eight small integers in a word, the first in the lowest bits.
pub open spec fn nibbles(v: Seq<u32>) -> u32 {
    v[0] | v[1] << 4 | v[2] << 8 | v[3] << 12 | v[4] << 16 | v[5] << 20 | v[6] << 24 | v[7] << 28
}

/// Four bytes in a word, the first in the lowest bits.
pub open spec fn octets(v: Seq<u32>) -> u32 {
    v[0] | v[1] << 8 | v[2] << 16 | v[3] << 24
}

/// So many integers, each below `bound`.
pub open spec fn all_below(v: Seq<u32>, n: nat, bound: int) -> bool {
    v.len() == n && forall|i: int| 0 <= i < n ==> #[trigger] v[i] < bound
}

/// What was written into a word is what its fields hold.
pub proof fn law_words_read_back(v: Seq<u32>, i: int)
    ensures
        all_below(v, 8, 16) && 0 <= i < 8 ==> bits_at(nibbles(v), 4, i as u32) == v[i],
        all_below(v, 4, 256) && 0 <= i < 4 ==> bits_at(octets(v), 8, i as u32) == v[i],
{
    if all_below(v, 8, 16) && 0 <= i < 8 {
        law_nibbles_read_back(v[0], v[1], v[2], v[3], v[4], v[5], v[6], v[7]);
    }
    if all_below(v, 4, 256) && 0 <= i < 4 {
        law_bytes_read_back(v[0], v[1], v[2], v[3]);
    }
}

/// A division that rounds up gives the smallest number of groups that holds
/// everything.
pub proof fn law_groups_suffice(n: nat, size: nat)
    requires
        size > 0,
    ensures
        ceil_div(n, size) * size >= n,
        ceil_div(n, size) * size < n + size,
{
    let q = n as int / size as int;
    vstd::arithmetic::div_mod::lemma_fundamental_div_mod(n as int, size as int);
    assert((q + 1) * size == q * size + size) by (nonlinear_arith);
    assert(q * size == size * q) by (nonlinear_arith);
}

/// A name that was made of a layer and a suffix is taken apart again.
pub proof fn lemma_component(base: Text, suffix: Text, kind: Text)
    ensures
        component(base + suffix, suffix, kind) == Some((base, kind)),
{
    let name = base + suffix;
    assert(name.subrange(base.len() as int, name.len() as int) =~= suffix);
    assert(name.take(base.len() as int) =~= base);
}

/// A name does not end in a suffix that differs from its own at the `d`th
/// character from the end.
pub proof fn lemma_no_component(base: Text, own: Text, other: Text, d: int)
    requires
        0 < d <= own.len(),
        d <= other.len(),
        own[own.len() - d] != other[other.len() - d],
    ensures
        !ends(base + own, other),
{
    let name = base + own;
    if ends(name, other) {
        let tail = name.subrange(name.len() - other.len(), name.len() as int);
        assert(tail[other.len() - d] == name[name.len() - d]);
    }
}

} // verus!
