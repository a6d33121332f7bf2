//! MLX packed weights.
//!
//! - `weight`: words, `[out_features, in_features / (32 / bits)]`, the first
//!   integer of a word in its lowest bits.
//! - `scales` and `biases`: `[out_features, in_features / group_size]`.
//!
//! A weight is its integer times its scale, plus its bias.
use vstd::prelude::*;
use crate::json::{as_size, as_text, at, field, get, size_of, str_of, Json};
use crate::loader::packed::{
    all_below, base_of, bits_at, ceil_div, component, div_up, field_of_word, law_words_read_back,
    lemma_component, lemma_no_component, nibbles, octets, PackError, Unpacked, WordMatrix,
};
use crate::text::{same, Text};

verus! {

/// How the weights of a checkpoint are packed.
#[derive(Debug, Clone, Copy, PartialEq, Eq, Structural)]
pub struct MlxQuantConfig {
    pub group_size: usize,
    pub bits: usize,
}

/// Why the packing of a checkpoint is not supported. `S` is how text is held.
#[derive(Debug)]
pub enum MlxError<S = String> {
    UnsupportedMode(S),
    MissingGroupSize,
    MissingBits,
    UnsupportedBits(usize),
    ZeroGroupSize,
}

impl View for MlxError {
    type V = MlxError<Text>;

    open spec fn view(&self) -> MlxError<Text> {
        match *self {
            MlxError::UnsupportedMode(s) => MlxError::UnsupportedMode(s@),
            MlxError::MissingGroupSize => MlxError::MissingGroupSize,
            MlxError::MissingBits => MlxError::MissingBits,
            MlxError::UnsupportedBits(b) => MlxError::UnsupportedBits(b),
            MlxError::ZeroGroupSize => MlxError::ZeroGroupSize,
        }
    }
}

/// What the `quantization` block of a configuration says.
pub open spec fn mlx_packing(config: Json) -> Result<Option<MlxQuantConfig>, MlxError<Text>> {
    match field(config, "quantization"@) {
        None => Ok(None),
        Some(q) => {
            let mode = match str_of(field(q, "mode"@)) {
                Some(m) => m,
                None => "affine"@,
            };
            if mode != "affine"@ {
                Err(MlxError::UnsupportedMode(mode))
            } else {
                match size_of(field(q, "group_size"@)) {
                    None => Err(MlxError::MissingGroupSize),
                    Some(group_size) => match size_of(field(q, "bits"@)) {
                        None => Err(MlxError::MissingBits),
                        Some(bits) => if bits != 4 && bits != 8 {
                            Err(MlxError::UnsupportedBits(bits))
                        } else if group_size == 0 {
                            Err(MlxError::ZeroGroupSize)
                        } else {
                            Ok(Some(MlxQuantConfig { group_size, bits }))
                        },
                    },
                }
            }
        },
    }
}

/// Reads how a checkpoint is packed, if it is.
pub fn detect_mlx_quantization(config_json: &Json) -> (r: Result<Option<MlxQuantConfig>, MlxError>)
    ensures
        match r {
            Ok(q) => mlx_packing(*config_json) == Ok::<_, MlxError<Text>>(q),
            Err(e) => mlx_packing(*config_json) == Err::<Option<MlxQuantConfig>, _>(e@),
        },
{
    let q = match get(config_json, "quantization") {
        Some(q) => q,
        None => return Ok(None),
    };
    if let Some(mode) = as_text(get(q, "mode")) {
        if !same(mode, "affine") {
            return Err(MlxError::UnsupportedMode(mode.clone()));
        }
    }
    let group_size: usize = match as_size(get(q, "group_size")) {
        Some(v) => v,
        None => return Err(MlxError::MissingGroupSize),
    };
    let bits: usize = match as_size(get(q, "bits")) {
        Some(v) => v,
        None => return Err(MlxError::MissingBits),
    };
    if bits != 4 && bits != 8 {
        return Err(MlxError::UnsupportedBits(bits));
    }
    if group_size == 0 {
        return Err(MlxError::ZeroGroupSize);
    }
    Ok(Some(MlxQuantConfig { group_size, bits }))
}

/// The part of a packed layer that a tensor name may speak of.
pub open spec fn mlx_part(name: Text) -> Option<(Text, Text)> {
    match component(name, ".weight"@, "weight"@) {
        Some(c) => Some(c),
        None => match component(name, ".scales"@, "scales"@) {
            Some(c) => Some(c),
            None => component(name, ".biases"@, "biases"@),
        },
    }
}

/// The layer and the part that a tensor name speaks of, if the tensor may be
/// one of the three parts of a packed layer. A name that ends in `.weight`
/// alone does not tell: the other two parts have to be there as well.
pub fn mlx_component<'a>(name: &'a str) -> (r: Option<(&'a str, &'static str)>)
    ensures
        match r {
            Some((base, kind)) => mlx_part(name@) == Some((base@, kind@)),
            None => mlx_part(name@) is None,
        },
{
    if let Some(base) = base_of(name, ".weight") {
        return Some((base, "weight"));
    }
    if let Some(base) = base_of(name, ".scales") {
        return Some((base, "scales"));
    }
    if let Some(base) = base_of(name, ".biases") {
        return Some((base, "biases"));
    }
    None
}

/// The integer of output `o` and input `p`.
pub open spec fn mlx_value(weight: WordMatrix, bits: int, o: int, p: int) -> u32 {
    let per_word = 32int / bits;
    bits_at(weight.word(o, p / per_word), bits as u32, (p % per_word) as u32)
}

fn mlx_row(weight: &WordMatrix, bits: usize, o: usize) -> (row: Vec<i32>)
    requires
        weight.wf(),
        1 <= bits < 32,
        o < weight.rows,
        weight.cols * (32int / bits as int) <= usize::MAX,
    ensures
        row.len() == weight.cols * (32int / bits as int),
        forall|p: int|
            0 <= p < row.len() ==> #[trigger] row@[p] == mlx_value(
                *weight,
                bits as int,
                o as int,
                p,
            ),
{
    let per_word: usize = 32 / bits;
    let inputs: usize = weight.cols * per_word;
    let mut row: Vec<i32> = Vec::new();
    let mut p: usize = 0;
    while p < inputs
        invariant
            p <= inputs,
            weight.wf(),
            1 <= bits < 32,
            o < weight.rows,
            per_word == 32int / bits as int,
            inputs == weight.cols * per_word,
            row.len() == p,
            forall|q: int|
                0 <= q < p ==> #[trigger] row@[q] == mlx_value(*weight, bits as int, o as int, q),
        decreases inputs - p,
    {
        proof {
            assert(per_word >= 1 && per_word * bits <= 32) by (nonlinear_arith)
                requires
                    1 <= bits < 32,
                    per_word == 32int / bits as int,
            ;
            vstd::arithmetic::div_mod::lemma_fundamental_div_mod(p as int, per_word as int);
            let c = p as int / per_word as int;
            let i = p as int % per_word as int;
            let cols = weight.cols as int;
            let w = per_word as int;
            assert(c < cols) by (nonlinear_arith)
                requires
                    p == w * c + i,
                    0 <= i,
                    p < cols * w,
                    w >= 1,
            ;
            assert(bits * i < 32) by (nonlinear_arith)
                requires
                    0 <= i < w,
                    w * bits <= 32,
                    bits >= 1,
            ;
            let b = bits as u32;
            assert(1u32 << b <= 0x8000_0000u32) by (bit_vector)
                requires
                    1 <= b < 32,
            ;
        }
        let v: u32 = field_of_word(weight.at(o, p / per_word), bits as u32, (p % per_word) as u32);
        row.push(v as i32);
        p += 1;
    }
    row
}

/// Unpacks one layer: row `o` holds the integers of output `o`; input `p` is
/// scaled and shifted by the scales and biases of group `groups[p]`.
/// `scales` and `biases` are the shapes of those two tensors.
pub fn dequantize_mlx_linear(
    weight: &WordMatrix,
    scales: (usize, usize),
    biases: (usize, usize),
    group_size: usize,
    bits: usize,
) -> (r: Result<Unpacked, PackError>)
    requires
        weight.wf(),
        group_size > 0,
        1 <= bits < 32,
        weight.cols * (32int / bits as int) <= usize::MAX,
    ensures
        ({
            let inputs = weight.cols * (32int / bits as int);
            let expected = ceil_div(inputs as nat, group_size as nat);
            match r {
                Ok(u) => {
                    &&& scales.0 == weight.rows
                    &&& scales.1 == expected
                    &&& biases == scales
                    &&& u.values.len() == weight.rows
                    &&& forall|o: int|
                        0 <= o < weight.rows ==> (#[trigger] u.values@[o]).len() == inputs
                    &&& forall|o: int, p: int|
                        #![trigger u.values@[o]@[p]]
                        0 <= o < weight.rows && 0 <= p < inputs ==> u.values@[o]@[p] == mlx_value(
                            *weight,
                            bits as int,
                            o,
                            p,
                        )
                    &&& u.groups.len() == inputs
                    &&& forall|p: int|
                        0 <= p < inputs ==> #[trigger] u.groups@[p] == p / (group_size as int)
                },
                Err(PackError::OutMismatch(a, b)) => a == weight.rows && b == scales.0 && a != b,
                Err(PackError::GroupMismatch(a, b)) => scales.0 == weight.rows && a == scales.1 && b
                    == expected && a != b,
                Err(PackError::BiasMismatch(a, b)) => scales.0 == weight.rows && scales.1
                    == expected && biases == (a, b) && biases != scales,
                Err(_) => false,
            }
        }),
{
    let per_word: usize = 32 / bits;
    let inputs: usize = weight.cols * per_word;
    if scales.0 != weight.rows {
        return Err(PackError::OutMismatch(weight.rows, scales.0));
    }
    let expected: usize = div_up(inputs, group_size);
    if scales.1 != expected {
        return Err(PackError::GroupMismatch(scales.1, expected));
    }
    if biases.0 != weight.rows || biases.1 != expected {
        return Err(PackError::BiasMismatch(biases.0, biases.1));
    }
    let mut values: Vec<Vec<i32>> = Vec::new();
    let mut o: usize = 0;
    while o < weight.rows
        invariant
            o <= weight.rows,
            weight.wf(),
            1 <= bits < 32,
            inputs == weight.cols * (32int / bits as int),
            values.len() == o,
            forall|j: int| 0 <= j < o ==> (#[trigger] values@[j]).len() == inputs,
            forall|j: int, p: int|
                #![trigger values@[j]@[p]]
                0 <= j < o && 0 <= p < inputs ==> values@[j]@[p] == mlx_value(
                    *weight,
                    bits as int,
                    j,
                    p,
                ),
        decreases weight.rows - o,
    {
        values.push(mlx_row(weight, bits, o));
        o += 1;
    }
    let mut groups: Vec<usize> = Vec::new();
    let mut p: usize = 0;
    while p < inputs
        invariant
            p <= inputs,
            group_size > 0,
            groups.len() == p,
            forall|j: int| 0 <= j < p ==> #[trigger] groups@[j] == j / (group_size as int),
        decreases inputs - p,
    {
        groups.push(p / group_size);
        p += 1;
    }
    Ok(Unpacked { values, groups })
}

/// Each suffix names its own part of a layer.
pub proof fn law_parts_are_told(base: Text)
    ensures
        mlx_part(base + ".weight"@) == Some((base, "weight"@)),
        mlx_part(base + ".scales"@) == Some((base, "scales"@)),
        mlx_part(base + ".biases"@) == Some((base, "biases"@)),
{
    reveal_strlit(".weight");
    reveal_strlit(".scales");
    reveal_strlit(".biases");
    lemma_component(base, ".weight"@, "weight"@);
    lemma_component(base, ".scales"@, "scales"@);
    lemma_component(base, ".biases"@, "biases"@);
    assert(".weight"@.len() == 7 && ".weight"@[6] == 't');
    assert(".scales"@.len() == 7 && ".scales"@[6] == 's' && ".scales"@[3] == 'a');
    assert(".biases"@.len() == 7 && ".biases"@[6] == 's' && ".biases"@[3] == 'a');
    lemma_no_component(base, ".scales"@, ".weight"@, 1);
    lemma_no_component(base, ".biases"@, ".weight"@, 1);
    lemma_no_component(base, ".biases"@, ".scales"@, 3);
}

/// Where integers were written into words one after the other, they are read
/// back as they were written, of four bits or of eight.
pub proof fn law_weights_read_back(weight: WordMatrix, o: int, p: int, v: Seq<u32>)
    requires
        p >= 0,
    ensures
        all_below(v, 8, 16) && weight.word(o, p / 8) == nibbles(v) ==> mlx_value(weight, 4, o, p)
            == v[p % 8],
        all_below(v, 4, 256) && weight.word(o, p / 4) == octets(v) ==> mlx_value(weight, 8, o, p)
            == v[p % 4],
{
    law_words_read_back(v, p % 8);
    law_words_read_back(v, p % 4);
}

/// A block that names a group size and four or eight bits, and no mode but
/// `affine`, is taken at its word; of any other the first thing that is wrong
/// is told; a configuration without a block is not packed.
pub proof fn law_packing_is_read(config: Json)
    ensures
        field(config, "quantization"@) is None ==> mlx_packing(config) == Ok::<
            Option<MlxQuantConfig>,
            MlxError<Text>,
        >(None),
        field(config, "quantization"@) matches Some(q) ==> {
            let mode = str_of(field(q, "mode"@));
            let size = size_of(field(q, "group_size"@));
            let bits = size_of(field(q, "bits"@));
            let affine = mode is None || mode == Some("affine"@);
            let right = bits == Some(4usize) || bits == Some(8usize);
            match mlx_packing(config) {
                Ok(p) => {
                    &&& affine && right
                    &&& p matches Some(c) && Some(c.group_size) == size && Some(c.bits) == bits
                        && c.group_size > 0
                },
                Err(MlxError::UnsupportedMode(m)) => mode == Some(m) && m != "affine"@,
                Err(MlxError::MissingGroupSize) => affine && size is None,
                Err(MlxError::MissingBits) => affine && size is Some && bits is None,
                Err(MlxError::UnsupportedBits(b)) => affine && size is Some && bits == Some(b)
                    && !right,
                Err(MlxError::ZeroGroupSize) => affine && right && size == Some(0usize),
            }
        },
{
}

} // verus!
