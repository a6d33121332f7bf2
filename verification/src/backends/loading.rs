//! What is decided while a model's weights are loaded.
use vstd::prelude::*;
use crate::backends::weights::CacheBudget;
use crate::graph::scan::{numbered, numbered_parts};
use crate::json::{
    array_of, as_array, as_size, as_text, as_u64, at, field, field_of, get, get_in, size_of, str_of,
    u64_of, Json,
};
use crate::loader::awq::{awq_component, awq_part};
use crate::loader::gptq::{gptq_component, gptq_part};
use crate::profile::BackendChoice;
use crate::text::{
    begins, contains, cut_at_last, cut_back, dec, ends, ends_with, free_of, has, join2,
    law_cut_back, law_decimal_reads_back, law_text_stands, lemma_cut, lemma_dec_digits,
    lemma_first_part, lowercase, parse_upto, same, split, split_on, texts, to_lowercase, value_upto,
    Text,
};
use crate::types::{KvCacheConfig, KvDtype, ModelMeta, WeightDtype};

verus! {

/// An extension of files that hold weights.
pub open spec fn weight_extension(ext: Text) -> bool {
    let low = lowercase(ext);
    low == "safetensors"@ || low == "bin"@ || low == "gguf"@
}

/// Whether a file with this extension holds weights.
pub fn is_weight_file(ext: &str) -> (b: bool)
    ensures
        b == weight_extension(ext@),
{
    let low = to_lowercase(ext);
    same(&low, "safetensors") || same(&low, "bin") || same(&low, "gguf")
}

/// Whether a file with this extension is a GGUF file.
pub fn is_gguf_file(ext: &str) -> (b: bool)
    ensures
        b == (lowercase(ext@) == "gguf"@),
{
    same(&to_lowercase(ext), "gguf")
}

/// The bytes of the first `n` files that hold weights.
pub open spec fn weight_bytes(exts: Seq<Text>, lens: Seq<u64>, n: nat) -> nat
    decreases n,
{
    if n == 0 || n > exts.len() || n > lens.len() {
        0
    } else {
        weight_bytes(exts, lens, (n - 1) as nat) + (if weight_extension(exts[n - 1]) {
            lens[n - 1] as nat
        } else {
            0
        })
    }
}

proof fn lemma_weight_bytes_grow(exts: Seq<Text>, lens: Seq<u64>, n: nat, m: nat)
    requires
        n <= m <= exts.len(),
        exts.len() == lens.len(),
    ensures
        weight_bytes(exts, lens, n) <= weight_bytes(exts, lens, m),
    decreases m,
{
    if n < m {
        lemma_weight_bytes_grow(exts, lens, n, (m - 1) as nat);
    }
}

/// The size of the model in a directory: the bytes of its files that hold
/// weights, given the extension and the length of each file.
pub fn estimated_bytes(exts: &[String], lens: &[u64]) -> (n: u64)
    requires
        exts@.len() == lens@.len(),
        weight_bytes(texts(exts@), lens@, exts@.len()) <= u64::MAX,
    ensures
        n == weight_bytes(texts(exts@), lens@, exts@.len()),
{
    let mut sum: u64 = 0;
    let mut i: usize = 0;
    while i < exts.len()
        invariant
            i <= exts@.len(),
            exts@.len() == lens@.len(),
            weight_bytes(texts(exts@), lens@, exts@.len()) <= u64::MAX,
            sum == weight_bytes(texts(exts@), lens@, i as nat),
        decreases exts@.len() - i,
    {
        assert(texts(exts@)[i as int] == exts@[i as int]@);
        proof {
            lemma_weight_bytes_grow(texts(exts@), lens@, (i + 1) as nat, exts@.len());
        }
        if is_weight_file(&exts[i]) {
            sum = sum + lens[i];
        }
        i += 1;
    }
    sum
}

/// The chosen device could not be set up.
#[derive(Debug, Clone, Copy, PartialEq, Eq, Structural)]
pub struct DeviceFailed {
    pub wanted: BackendChoice,
}

/// The device that the model runs on. One that could not be set up is
/// replaced by the processor only where the user allows that.
pub fn settle_device(wanted: BackendChoice, ready: bool, allow_cpu_fallback: bool) -> (r: Result<
    BackendChoice,
    DeviceFailed,
>)
    ensures
        r == (if wanted == BackendChoice::Cpu || ready {
            Ok::<BackendChoice, DeviceFailed>(wanted)
        } else if allow_cpu_fallback {
            Ok(BackendChoice::Cpu)
        } else {
            Err(DeviceFailed { wanted })
        }),
{
    if wanted == BackendChoice::Cpu || ready {
        Ok(wanted)
    } else if allow_cpu_fallback {
        Ok(BackendChoice::Cpu)
    } else {
        Err(DeviceFailed { wanted })
    }
}

/// The backend's name on a device.
pub fn backend_name(device: BackendChoice) -> (name: &'static str)
    ensures
        name@ == match device {
            BackendChoice::Cpu => "candle-cpu"@,
            BackendChoice::Cuda => "candle-cuda"@,
            BackendChoice::Metal => "candle-metal"@,
        },
{
    match device {
        BackendChoice::Cpu => "candle-cpu",
        BackendChoice::Cuda => "candle-cuda",
        BackendChoice::Metal => "candle-metal",
    }
}

/// Left free on the device for activations and the KV cache.
pub const VRAM_HEADROOM: u64 = 2_097_152_000;

/// Taken to be free where it could not be measured.
pub const UNMEASURED_VRAM: u64 = 1_572_864_000;

/// How many bytes of weights may be kept on the device.
pub fn cache_budget(free_vram: Option<u64>, cpu: bool) -> (n: u64)
    ensures
        ({
            let measured = match free_vram {
                Some(v) => v,
                None => 0,
            };
            let free = if measured == 0 && !cpu {
                UNMEASURED_VRAM
            } else {
                measured
            };
            n == if free > VRAM_HEADROOM {
                free - VRAM_HEADROOM
            } else {
                0
            }
        }),
        free_vram matches Some(v) ==> (v > 2_097_152_000 ==> n == v - 2_097_152_000),
        free_vram matches Some(v) ==> (v <= 2_097_152_000 ==> n == 0),
        free_vram is None ==> n == 0,
{
    let mut free: u64 = match free_vram {
        Some(v) => v,
        None => 0,
    };
    if free == 0 && !cpu {
        free = UNMEASURED_VRAM;
    }
    if free > VRAM_HEADROOM {
        free - VRAM_HEADROOM
    } else {
        0
    }
}

/// A tensor that no matrix product reads: an embedding, a norm, a bias, a
/// scale, or a table of frequencies or rotations. `low` is its name in lower
/// case.
pub open spec fn side_tensor(low: Text) -> bool {
    has(low, "embed"@) || has(low, "embd"@) || has(low, "norm"@) || has(low, "bias"@) || has(
        low,
        "scale"@,
    ) || has(low, "freq"@) || has(low, "rotors"@) || has(low, "rot"@)
}

/// A tensor that is dequantized on the device while the budget lasts.
pub open spec fn counted_tensor(low: Text) -> bool {
    side_tensor(low) && !(has(low, "freq"@) || has(low, "rot"@) || has(
        low,
        "per_layer_token_embd"@,
    ))
}

fn is_side_tensor(low: &str) -> (b: bool)
    ensures
        b == side_tensor(low@),
{
    contains(low, "embed") || contains(low, "embd") || contains(low, "norm") || contains(low, "bias")
        || contains(low, "scale") || contains(low, "freq") || contains(low, "rotors") || contains(
        low,
        "rot",
    )
}

/// How a load is to place tensors.
#[derive(Debug, Clone, Copy, PartialEq, Eq, Structural)]
pub struct Placing {
    /// The device is a CUDA device.
    pub cuda: bool,
    /// Everything is dequantized by hand, out of system memory.
    pub explicit_dequantize: bool,
    /// Embeddings go to the device whatever the budget.
    pub vram_embeddings: bool,
}

/// Bytes taken of the budget by the first `n` tensors.
pub open spec fn placed_bytes(
    names: Seq<Text>,
    elements: Seq<u64>,
    how: Placing,
    limit: nat,
    n: nat,
) -> nat
    decreases n,
{
    if n == 0 {
        0
    } else {
        let used = placed_bytes(names, elements, how, limit, (n - 1) as nat);
        if how.cuda && counted_tensor(lowercase(names[n - 1])) && used + 4 * elements[n - 1]
            <= limit {
            used + 4 * elements[n - 1] as nat
        } else {
            used
        }
    }
}

/// Tensor `i` goes to the device.
pub open spec fn on_device(
    names: Seq<Text>,
    elements: Seq<u64>,
    how: Placing,
    limit: nat,
    i: int,
) -> bool {
    let low = lowercase(names[i]);
    let used = placed_bytes(names, elements, how, limit, i as nat);
    !how.explicit_dequantize && (side_tensor(low) ==> how.vram_embeddings || (how.cuda
        && counted_tensor(low) && used + 4 * elements[i] <= limit))
}

/// For each tensor of a GGUF file, whether it goes to the device. Those that
/// are dequantized there take four bytes per element out of the budget, in the
/// order of the list.
pub fn place_tensors(names: &[String], elements: &[u64], how: Placing, limit: u64) -> (out: Vec<
    bool,
>)
    requires
        names@.len() == elements@.len(),
        forall|i: int| 0 <= i < elements@.len() ==> 4 * #[trigger] elements@[i] <= u64::MAX,
    ensures
        out@.len() == names@.len(),
        forall|i: int|
            0 <= i < out@.len() ==> #[trigger] out@[i] == on_device(
                texts(names@),
                elements@,
                how,
                limit as nat,
                i,
            ),
{
    let mut budget = CacheBudget::new(limit);
    let mut out: Vec<bool> = Vec::new();
    let mut i: usize = 0;
    while i < names.len()
        invariant
            i <= names@.len(),
            names@.len() == elements@.len(),
            forall|k: int| 0 <= k < elements@.len() ==> 4 * #[trigger] elements@[k] <= u64::MAX,
            out@.len() == i,
            budget.limit() == limit,
            budget.used() == placed_bytes(texts(names@), elements@, how, limit as nat, i as nat),
            forall|k: int|
                0 <= k < i ==> #[trigger] out@[k] == on_device(
                    texts(names@),
                    elements@,
                    how,
                    limit as nat,
                    k,
                ),
        decreases names@.len() - i,
    {
        assert(texts(names@)[i as int] == names@[i as int]@);
        let low = to_lowercase(&names[i]);
        let side = is_side_tensor(&low);
        let counted = side && !contains(&low, "freq") && !contains(&low, "rot") && !contains(
            &low,
            "per_layer_token_embd",
        );
        let bytes: u64 = 4 * elements[i];
        let fit = how.cuda && counted && budget.take(bytes);
        out.push(!how.explicit_dequantize && (!side || how.vram_embeddings || fit));
        i += 1;
    }
    out
}

/// The tensors that are dequantized on the device stay within the budget.
pub proof fn law_placing_within_budget(
    names: Seq<Text>,
    elements: Seq<u64>,
    how: Placing,
    limit: nat,
    n: nat,
)
    ensures
        placed_bytes(names, elements, how, limit, n) <= limit,
    decreases n,
{
    if n > 0 {
        law_placing_within_budget(names, elements, how, limit, (n - 1) as nat);
    }
}

/// What becomes of a quantized weight once all are loaded.
#[derive(Debug, Clone, Copy, PartialEq, Eq, Structural)]
pub enum Eager {
    /// Dequantized and kept.
    Dequantize,
    /// Multiplied as it is.
    Multiply,
    /// Left as it is: only matrices can be multiplied.
    Keep,
}

/// What to do with the weight `name` of `rank` dimensions.
pub fn eager_use(name: &str, rank: usize) -> (e: Eager)
    ensures
        e == (if side_tensor(lowercase(name@)) {
            Eager::Dequantize
        } else if rank == 2 {
            Eager::Multiply
        } else {
            Eager::Keep
        }),
{
    if is_side_tensor(&to_lowercase(name)) {
        Eager::Dequantize
    } else if rank == 2 {
        Eager::Multiply
    } else {
        Eager::Keep
    }
}

/// Where a weight stands in the order of caching: its layer; the token
/// embedding first; everything else behind.
pub open spec fn layer_rank(name: Text) -> usize {
    match numbered(name, "model.layers."@) {
        Some((layer, _)) => layer,
        None => if name == "model.embed_tokens.weight"@ {
            0
        } else {
            999
        },
    }
}

fn rank_of(name: &str) -> (r: usize)
    ensures
        r == layer_rank(name@),
{
    match numbered_parts(name, "model.layers.") {
        Some((layer, _)) => layer,
        None => if same(name, "model.embed_tokens.weight") {
            0
        } else {
            999
        },
    }
}

/// Where a name of rank `rank` is put: behind all that come no later.
pub open spec fn slot(names: Seq<Text>, rank: usize) -> int
    decreases names.len(),
{
    if names.len() == 0 {
        0
    } else if layer_rank(names.last()) > rank {
        slot(names.drop_last(), rank)
    } else {
        names.len() as int
    }
}

/// Names by rank, those of one rank in the order given.
pub open spec fn by_layer(names: Seq<Text>) -> Seq<Text>
    decreases names.len(),
{
    if names.len() == 0 {
        Seq::empty()
    } else {
        let sorted = by_layer(names.drop_last());
        sorted.insert(slot(sorted, layer_rank(names.last())), names.last())
    }
}

fn find_slot(names: &Vec<String>, rank: usize) -> (i: usize)
    ensures
        i == slot(texts(names@), rank),
        i <= names@.len(),
{
    let mut i: usize = names.len();
    assert(texts(names@).take(i as int) =~= texts(names@));
    while i > 0
        invariant
            i <= names@.len(),
            slot(texts(names@), rank) == slot(texts(names@).take(i as int), rank),
        decreases i,
    {
        let ghost front = texts(names@).take(i as int);
        assert(front.last() == names@[i - 1]@);
        assert(front.drop_last() =~= texts(names@).take(i - 1));
        if rank_of(&names[i - 1]) <= rank {
            return i;
        }
        i -= 1;
    }
    i
}

/// The weights in the order in which they are cached: earlier layers first.
pub fn layer_order(names: &[String]) -> (out: Vec<String>)
    ensures
        texts(out@) == by_layer(texts(names@)),
{
    let mut out: Vec<String> = Vec::new();
    assert(texts(out@) =~= by_layer(texts(names@).take(0)));
    let mut i: usize = 0;
    while i < names.len()
        invariant
            i <= names@.len(),
            texts(out@) == by_layer(texts(names@).take(i as int)),
        decreases names@.len() - i,
    {
        let ghost front = texts(names@).take(i + 1);
        assert(front.drop_last() =~= texts(names@).take(i as int));
        assert(front.last() == names@[i as int]@);
        let ghost before = out@;
        let k = find_slot(&out, rank_of(&names[i]));
        out.insert(k, names[i].clone());
        assert(texts(out@) =~= texts(before).insert(k as int, names@[i as int]@));
        i += 1;
    }
    assert(texts(names@).take(i as int) =~= texts(names@));
    out
}

proof fn lemma_slot_splits(names: Seq<Text>, rank: usize)
    requires
        forall|i: int, j: int|
            0 <= i <= j < names.len() ==> layer_rank(#[trigger] names[i]) <= layer_rank(
                #[trigger] names[j],
            ),
    ensures
        0 <= slot(names, rank) <= names.len(),
        forall|i: int| 0 <= i < slot(names, rank) ==> layer_rank(#[trigger] names[i]) <= rank,
        forall|i: int| slot(names, rank) <= i < names.len() ==> layer_rank(#[trigger] names[i]) > rank,
    decreases names.len(),
{
    if names.len() > 0 && layer_rank(names.last()) > rank {
        let rest = names.drop_last();
        assert(forall|i: int| 0 <= i < rest.len() ==> rest[i] == names[i]);
        lemma_slot_splits(rest, rank);
        assert forall|i: int| slot(names, rank) <= i < names.len() implies layer_rank(
            #[trigger] names[i],
        ) > rank by {
            if i < rest.len() {
                assert(layer_rank(rest[i]) > rank);
            }
        }
        assert forall|i: int| 0 <= i < slot(names, rank) implies layer_rank(#[trigger] names[i])
            <= rank by {
            assert(layer_rank(rest[i]) <= rank);
        }
    } else if names.len() > 0 {
        assert forall|i: int| 0 <= i < names.len() implies layer_rank(#[trigger] names[i])
            <= rank by {
            assert(layer_rank(names[i]) <= layer_rank(names[names.len() - 1]));
        }
    }
}

/// Ordering by layer keeps every name, and no name stands before one of an
/// earlier layer.
pub proof fn law_by_layer_sorts(names: Seq<Text>)
    ensures
        by_layer(names).to_multiset() == names.to_multiset(),
        by_layer(names).len() == names.len(),
        forall|i: int, j: int|
            0 <= i <= j < by_layer(names).len() ==> layer_rank(#[trigger] by_layer(names)[i])
                <= layer_rank(#[trigger] by_layer(names)[j]),
    decreases names.len(),
{
    broadcast use vstd::seq_lib::group_to_multiset_ensures;

    if names.len() > 0 {
        let rest = names.drop_last();
        law_by_layer_sorts(rest);
        let sorted = by_layer(rest);
        let name = names.last();
        let k = slot(sorted, layer_rank(name));
        lemma_slot_splits(sorted, layer_rank(name));
        assert(rest.push(name) =~= names);
        let out = sorted.insert(k, name);
        assert(out.to_multiset() =~= sorted.to_multiset().insert(name));
        assert forall|i: int, j: int| 0 <= i <= j < out.len() implies layer_rank(#[trigger] out[i])
            <= layer_rank(#[trigger] out[j]) by {
            let a = if i < k {
                i
            } else {
                i - 1
            };
            let b = if j < k {
                j
            } else {
                j - 1
            };
            if i != k && j != k {
                assert(out[i] == sorted[a] && out[j] == sorted[b]);
            } else if i == k && j != k {
                assert(out[j] == sorted[b]);
                assert(layer_rank(sorted[b]) > layer_rank(name));
            } else if j == k && i != k {
                assert(out[i] == sorted[a]);
                assert(layer_rank(sorted[a]) <= layer_rank(name));
            }
        }
    } else {
        assert(by_layer(names) =~= names);
    }
}

/// How a checkpoint packs its linear layers.
#[derive(Debug, Clone, Copy, PartialEq, Eq, Structural)]
pub enum PackedMethod {
    Awq,
    Gptq,
}

/// The packing and the group size that a configuration names.
pub open spec fn packing(config: Json) -> Option<(PackedMethod, usize)> {
    let q = field(config, "quantization_config"@);
    let size = match size_of(field_of(q, "group_size"@)) {
        Some(n) => n,
        None => 128,
    };
    match str_of(field_of(q, "quant_method"@)) {
        Some(m) => if lowercase(m) == "awq"@ {
            Some((PackedMethod::Awq, size))
        } else if lowercase(m) == "gptq"@ {
            Some((PackedMethod::Gptq, size))
        } else {
            None
        },
        None => None,
    }
}

/// Reads how the checkpoint packs its weights, where it does so in a way that
/// is unpacked on loading.
pub fn packed_quant(config: &Json) -> (r: Option<(PackedMethod, usize)>)
    ensures
        r == packing(*config),
{
    let q = get(config, "quantization_config");
    let size: usize = match as_size(get_in(q, "group_size")) {
        Some(n) => n,
        None => 128,
    };
    match as_text(get_in(q, "quant_method")) {
        Some(m) => {
            let low = to_lowercase(m);
            if same(&low, "awq") {
                Some((PackedMethod::Awq, size))
            } else if same(&low, "gptq") {
                Some((PackedMethod::Gptq, size))
            } else {
                None
            }
        },
        None => None,
    }
}

/// The layer that a tensor is a part of.
pub open spec fn packed_base(method: PackedMethod, name: Text) -> Option<Text> {
    let part = match method {
        PackedMethod::Awq => awq_part(name),
        PackedMethod::Gptq => gptq_part(name),
    };
    match part {
        Some((base, _)) => Some(base),
        None => None,
    }
}

fn base_for(method: PackedMethod, name: &str) -> (r: Option<String>)
    ensures
        match r {
            Some(base) => packed_base(method, name@) == Some(base@),
            None => packed_base(method, name@) is None,
        },
{
    let part = match method {
        PackedMethod::Awq => awq_component(name),
        PackedMethod::Gptq => gptq_component(name),
    };
    match part {
        Some((base, _)) => Some(base.to_string()),
        None => None,
    }
}

/// The packed layers among the first names, each once, in order of appearance.
pub open spec fn packed_bases(method: PackedMethod, names: Seq<Text>) -> Seq<Text>
    decreases names.len(),
{
    if names.len() == 0 {
        Seq::empty()
    } else {
        let found = packed_bases(method, names.drop_last());
        match packed_base(method, names.last()) {
            Some(base) => if found.contains(base) {
                found
            } else {
                found.push(base)
            },
            None => found,
        }
    }
}

/// A tensor that a packed layer lacks.
#[derive(Debug, Clone)]
pub struct PackedMissing<S = String> {
    pub method: PackedMethod,
    pub name: S,
}

impl View for PackedMissing {
    type V = PackedMissing<Text>;

    open spec fn view(&self) -> PackedMissing<Text> {
        PackedMissing { method: self.method, name: self.name@ }
    }
}

/// The first part that the layer `base` lacks.
pub open spec fn lacking(names: Seq<Text>, base: Text) -> Option<Text> {
    if !names.contains(base + ".qweight"@) {
        Some(base + ".qweight"@)
    } else if !names.contains(base + ".qzeros"@) {
        Some(base + ".qzeros"@)
    } else if !names.contains(base + ".scales"@) {
        Some(base + ".scales"@)
    } else {
        None
    }
}

/// The first part that one of the layers lacks.
pub open spec fn first_lacking(names: Seq<Text>, bases: Seq<Text>) -> Option<Text>
    decreases bases.len(),
{
    if bases.len() == 0 {
        None
    } else {
        match first_lacking(names, bases.drop_last()) {
            Some(part) => Some(part),
            None => lacking(names, bases.last()),
        }
    }
}

/// The names that are no part of a packed layer.
pub open spec fn unpacked(method: PackedMethod, names: Seq<Text>) -> Seq<Text>
    decreases names.len(),
{
    if names.len() == 0 {
        Seq::empty()
    } else {
        let found = unpacked(method, names.drop_last());
        if packed_base(method, names.last()) is None {
            found.push(names.last())
        } else {
            found
        }
    }
}

fn is_listed(names: &[String], name: &str) -> (b: bool)
    ensures
        b == texts(names@).contains(name@),
{
    let mut i: usize = 0;
    while i < names.len()
        invariant
            i <= names@.len(),
            forall|k: int| 0 <= k < i ==> texts(names@)[k] != name@,
        decreases names@.len() - i,
    {
        if same(&names[i], name) {
            assert(texts(names@)[i as int] == name@);
            return true;
        }
        i += 1;
    }
    false
}

fn check_parts(method: PackedMethod, names: &[String], base: &str) -> (r: Result<(), PackedMissing>)
    ensures
        match r {
            Ok(_) => lacking(texts(names@), base@) is None,
            Err(e) => e.method == method && lacking(texts(names@), base@) == Some(e.name@),
        },
{
    let name = join2(base, ".qweight");
    if !is_listed(names, &name) {
        return Err(PackedMissing { method, name });
    }
    let name = join2(base, ".qzeros");
    if !is_listed(names, &name) {
        return Err(PackedMissing { method, name });
    }
    let name = join2(base, ".scales");
    if !is_listed(names, &name) {
        return Err(PackedMissing { method, name });
    }
    Ok(())
}

proof fn lemma_lacking_stays(names: Seq<Text>, bases: Seq<Text>, n: int)
    requires
        0 <= n <= bases.len(),
        first_lacking(names, bases.take(n)) is Some,
    ensures
        first_lacking(names, bases) == first_lacking(names, bases.take(n)),
    decreases bases.len(),
{
    if n == bases.len() {
        assert(bases.take(n) =~= bases);
    } else {
        assert(bases.drop_last().take(n) =~= bases.take(n));
        lemma_lacking_stays(names, bases.drop_last(), n);
    }
}

/// What a packed checkpoint's tensors come to: the layers to unpack, and the
/// tensors to take as they are.
#[derive(Debug, Clone)]
pub struct PackedPlan {
    /// Each becomes the one tensor of its name with `.weight` behind it.
    pub layers: Vec<String>,
    pub kept: Vec<String>,
}

fn collect_bases(method: PackedMethod, names: &[String]) -> (r: (Vec<String>, Vec<String>))
    ensures
        texts(r.0@) == packed_bases(method, texts(names@)),
        texts(r.1@) == unpacked(method, texts(names@)),
{
    let mut bases: Vec<String> = Vec::new();
    let mut kept: Vec<String> = Vec::new();
    assert(texts(bases@) =~= packed_bases(method, texts(names@).take(0)));
    assert(texts(kept@) =~= unpacked(method, texts(names@).take(0)));
    let mut i: usize = 0;
    while i < names.len()
        invariant
            i <= names@.len(),
            texts(bases@) == packed_bases(method, texts(names@).take(i as int)),
            texts(kept@) == unpacked(method, texts(names@).take(i as int)),
        decreases names@.len() - i,
    {
        let ghost front = texts(names@).take(i + 1);
        assert(front.drop_last() =~= texts(names@).take(i as int));
        assert(front.last() == names@[i as int]@);
        let ghost b0 = bases@;
        let ghost k0 = kept@;
        match base_for(method, &names[i]) {
            Some(base) => {
                if !is_listed(&bases, &base) {
                    bases.push(base);
                    assert(texts(bases@) =~= texts(b0).push(base@));
                }
            },
            None => {
                kept.push(names[i].clone());
                assert(texts(kept@) =~= texts(k0).push(names@[i as int]@));
            },
        }
        i += 1;
    }
    assert(texts(names@).take(i as int) =~= texts(names@));
    (bases, kept)
}

/// Groups the tensors of a packed checkpoint by layer. Every layer needs its
/// weights, its zero points and its scales.
pub fn plan_packed(method: PackedMethod, names: &[String]) -> (r: Result<PackedPlan, PackedMissing>)
    ensures
        ({
            let bases = packed_bases(method, texts(names@));
            match r {
                Ok(plan) => first_lacking(texts(names@), bases) is None && texts(plan.layers@)
                    == bases && texts(plan.kept@) == unpacked(method, texts(names@)),
                Err(e) => e.method == method && first_lacking(texts(names@), bases) == Some(
                    e.name@,
                ),
            }
        }),
{
    let (layers, kept) = collect_bases(method, names);
    let ghost bases = texts(layers@);
    let mut i: usize = 0;
    assert(bases.take(0) =~= Seq::<Text>::empty());
    while i < layers.len()
        invariant
            i <= layers@.len(),
            bases == texts(layers@),
            bases == packed_bases(method, texts(names@)),
            first_lacking(texts(names@), bases.take(i as int)) is None,
        decreases layers@.len() - i,
    {
        let ghost front = bases.take(i + 1);
        assert(front.drop_last() =~= bases.take(i as int));
        assert(front.last() == layers@[i as int]@);
        if let Err(e) = check_parts(method, names, &layers[i]) {
            proof {
                lemma_lacking_stays(texts(names@), bases, i + 1);
            }
            return Err(e);
        }
        i += 1;
    }
    assert(bases.take(i as int) =~= bases);
    Ok(PackedPlan { layers, kept })
}

/// Every tensor of a packed checkpoint is either kept or a part of a layer
/// that is unpacked; none is both.
pub proof fn law_packed_plan_covers(method: PackedMethod, names: Seq<Text>, i: int)
    requires
        0 <= i < names.len(),
    ensures
        packed_base(method, names[i]) matches Some(base) ==> packed_bases(method, names).contains(
            base,
        ),
        packed_base(method, names[i]) is None <==> unpacked(method, names).contains(names[i]),
    decreases names.len(),
{
    let rest = names.drop_last();
    let found = packed_bases(method, rest);
    lemma_unpacked_sound(method, names);
    if i < rest.len() {
        law_packed_plan_covers(method, rest, i);
        if let Some(base) = packed_base(method, names[i]) {
            let k = choose|k: int| 0 <= k < found.len() && found[k] == base;
            assert(packed_bases(method, names)[k] == base);
        } else {
            let kept = unpacked(method, rest);
            let k = choose|k: int| 0 <= k < kept.len() && kept[k] == names[i];
            assert(unpacked(method, names)[k] == names[i]);
        }
    } else {
        if let Some(base) = packed_base(method, names[i]) {
            if !found.contains(base) {
                assert(packed_bases(method, names)[found.len() as int] == base);
            }
        } else {
            assert(unpacked(method, names)[unpacked(method, rest).len() as int] == names[i]);
        }
    }
}

proof fn lemma_unpacked_sound(method: PackedMethod, names: Seq<Text>)
    ensures
        forall|k: int|
            0 <= k < unpacked(method, names).len() ==> packed_base(
                method,
                #[trigger] unpacked(method, names)[k],
            ) is None,
    decreases names.len(),
{
    if names.len() > 0 {
        lemma_unpacked_sound(method, names.drop_last());
    }
}

/// What a tokenizer file says of one token's text.
pub open spec fn content_listed(token: Json, candidates: Seq<Text>) -> bool {
    str_of(field(token, "content"@)) matches Some(c) && candidates.contains(c)
}

/// The first of `n` entries that is one of the candidates and whose key is a
/// token id.
pub open spec fn id_by_key(entries: Seq<(String, Json)>, candidates: Seq<Text>, n: nat) -> Option<
    nat,
>
    decreases n,
{
    if n == 0 || n > entries.len() {
        None
    } else {
        match id_by_key(entries, candidates, (n - 1) as nat) {
            Some(id) => Some(id),
            None => if content_listed(entries[n - 1].1, candidates) {
                value_upto(entries[n - 1].0@, u32::MAX as nat)
            } else {
                None
            },
        }
    }
}

/// The first of `n` tokens that is one of the candidates and has an id.
pub open spec fn id_by_field(tokens: Seq<Json>, candidates: Seq<Text>, n: nat) -> Option<u32>
    decreases n,
{
    if n == 0 || n > tokens.len() {
        None
    } else {
        match id_by_field(tokens, candidates, (n - 1) as nat) {
            Some(id) => Some(id),
            None => if content_listed(tokens[n - 1], candidates) {
                match u64_of(field(tokens[n - 1], "id"@)) {
                    Some(id) => Some(id as u32),
                    None => None,
                }
            } else {
                None
            },
        }
    }
}

/// The id of a candidate in a tokenizer file.
pub open spec fn id_in(file: Json, candidates: Seq<Text>) -> Option<u32> {
    let keyed = match field(file, "added_tokens_decoder"@) {
        Some(Json::Object(entries)) => id_by_key(entries@, candidates, entries@.len()),
        _ => None,
    };
    match keyed {
        Some(id) => Some(id as u32),
        None => match array_of(field(file, "added_tokens"@)) {
            Some(tokens) => id_by_field(tokens, candidates, tokens.len()),
            None => None,
        },
    }
}

/// The id of a candidate in the first file that has one.
pub open spec fn id_among(files: Seq<Json>, candidates: Seq<Text>) -> Option<u32>
    decreases files.len(),
{
    if files.len() == 0 {
        None
    } else {
        match id_in(files[0], candidates) {
            Some(id) => Some(id),
            None => id_among(files.skip(1), candidates),
        }
    }
}

/// The candidates, in the order in which they are looked for.
pub open spec fn hf_ends() -> Seq<Text> {
    seq!["<|im_end|>"@, "<end_of_turn>"@, "<|endoftext|>"@, "</s>"@]
}

fn hf_candidates() -> (v: Vec<String>)
    ensures
        texts(v@) == hf_ends(),
{
    let mut v: Vec<String> = Vec::new();
    v.push("<|im_end|>".to_string());
    v.push("<end_of_turn>".to_string());
    v.push("<|endoftext|>".to_string());
    v.push("</s>".to_string());
    assert(texts(v@) =~= hf_ends());
    v
}

fn is_candidate(token: &Json, candidates: &[String]) -> (b: bool)
    ensures
        b == content_listed(*token, texts(candidates@)),
{
    match as_text(get(token, "content")) {
        Some(c) => is_listed(candidates, c),
        None => false,
    }
}

proof fn lemma_key_stays(entries: Seq<(String, Json)>, c: Seq<Text>, n: nat, m: nat)
    requires
        n <= m <= entries.len(),
        id_by_key(entries, c, n) is Some,
    ensures
        id_by_key(entries, c, m) == id_by_key(entries, c, n),
    decreases m,
{
    if n < m {
        lemma_key_stays(entries, c, n, (m - 1) as nat);
    }
}

proof fn lemma_field_stays(tokens: Seq<Json>, c: Seq<Text>, n: nat, m: nat)
    requires
        n <= m <= tokens.len(),
        id_by_field(tokens, c, n) is Some,
    ensures
        id_by_field(tokens, c, m) == id_by_field(tokens, c, n),
    decreases m,
{
    if n < m {
        lemma_field_stays(tokens, c, n, (m - 1) as nat);
    }
}

fn find_by_key(entries: &Vec<(String, Json)>, candidates: &[String]) -> (r: Option<u32>)
    ensures
        match r {
            Some(id) => id_by_key(entries@, texts(candidates@), entries@.len()) == Some(id as nat),
            None => id_by_key(entries@, texts(candidates@), entries@.len()) is None,
        },
{
    let mut i: usize = 0;
    while i < entries.len()
        invariant
            i <= entries@.len(),
            id_by_key(entries@, texts(candidates@), i as nat) is None,
        decreases entries@.len() - i,
    {
        if is_candidate(&entries[i].1, candidates) {
            if let Some(id) = parse_upto(&entries[i].0, u32::MAX as u64) {
                proof {
                    lemma_key_stays(
                        entries@,
                        texts(candidates@),
                        (i + 1) as nat,
                        entries@.len(),
                    );
                }
                return Some(id as u32);
            }
        }
        i += 1;
    }
    None
}

fn find_by_field(tokens: &Vec<Json>, candidates: &[String]) -> (r: Option<u32>)
    ensures
        r == id_by_field(tokens@, texts(candidates@), tokens@.len()),
{
    let mut i: usize = 0;
    while i < tokens.len()
        invariant
            i <= tokens@.len(),
            id_by_field(tokens@, texts(candidates@), i as nat) is None,
        decreases tokens@.len() - i,
    {
        if is_candidate(&tokens[i], candidates) {
            if let Some(id) = as_u64(get(&tokens[i], "id")) {
                proof {
                    lemma_field_stays(tokens@, texts(candidates@), (i + 1) as nat, tokens@.len());
                }
                return Some(id as u32);
            }
        }
        i += 1;
    }
    None
}

fn find_in_file(file: &Json, candidates: &[String]) -> (r: Option<u32>)
    ensures
        r == id_in(*file, texts(candidates@)),
{
    if let Some(Json::Object(entries)) = get(file, "added_tokens_decoder") {
        if let Some(id) = find_by_key(entries, candidates) {
            return Some(id);
        }
    }
    match as_array(get(file, "added_tokens")) {
        Some(tokens) => find_by_field(tokens, candidates),
        None => None,
    }
}

/// The end-of-text token by the text of a special token, in those tokenizer
/// files of the model that could be read, in their order.
pub fn find_eos_in_hf_tokenizer_files(files: &[Json], candidates: &[String]) -> (r: Option<u32>)
    ensures
        r == id_among(files@, texts(candidates@)),
{
    let mut i: usize = 0;
    assert(files@.skip(0) =~= files@);
    while i < files.len()
        invariant
            i <= files@.len(),
            id_among(files@, texts(candidates@)) == id_among(
                files@.skip(i as int),
                texts(candidates@),
            ),
        decreases files@.len() - i,
    {
        assert(files@.skip(i as int)[0] == files@[i as int]);
        assert(files@.skip(i as int).skip(1) =~= files@.skip(i + 1));
        if let Some(id) = find_in_file(&files[i], candidates) {
            return Some(id);
        }
        i += 1;
    }
    None
}

/// The end-of-text token of a model directory: what the configuration says, or
/// else the id of a common end-of-turn token. It is not guessed.
pub fn eos_from_config(config: &Json, files: &[Json]) -> (r: Option<u32>)
    ensures
        r == match u64_of(field(*config, "eos_token_id"@)) {
            Some(id) => Some(id as u32),
            None => id_among(files@, hf_ends()),
        },
{
    match as_u64(get(config, "eos_token_id")) {
        Some(id) => Some(id as u32),
        None => find_eos_in_hf_tokenizer_files(files, &hf_candidates()),
    }
}

/// What a model read from a configuration file is settled to: half precision,
/// some name for its architecture, and the tokenizer's chat template where it
/// brings none.
pub open spec fn settled(
    meta: ModelMeta<Text, Seq<bool>>,
    tokenizer: Option<Json>,
) -> ModelMeta<Text, Seq<bool>> {
    ModelMeta {
        weight_dtype: WeightDtype::F16,
        arch: if meta.arch.len() == 0 {
            "unknown"@
        } else {
            meta.arch
        },
        chat_template: match meta.chat_template {
            Some(t) => Some(t),
            None => str_of(field_of(tokenizer, "chat_template"@)),
        },
        ..meta
    }
}

/// Settles what the configuration file left open; `tokenizer` is the
/// tokenizer's own configuration, where it could be read.
pub fn settle_meta(meta: ModelMeta, tokenizer: Option<&Json>) -> (out: ModelMeta)
    ensures
        out@ == settled(meta@, at(tokenizer)),
{
    let mut out = meta;
    out.weight_dtype = WeightDtype::F16;
    if crate::text::chars_of(&out.arch).len() == 0 {
        out.arch = "unknown".to_string();
    }
    if out.chat_template.is_none() {
        if let Some(t) = as_text(get_in(tokenizer, "chat_template")) {
            out.chat_template = Some(t.clone());
        }
    }
    out
}

/// The KV cache's element type, by the user's wish.
pub open spec fn kv_dtype(wish: Option<Text>) -> KvDtype {
    if wish == Some("q8"@) || wish == Some("Q8"@) {
        KvDtype::Q8
    } else if wish == Some("q4"@) || wish == Some("Q4"@) {
        KvDtype::Q4
    } else {
        KvDtype::F16
    }
}

/// Tokens per block of the KV cache.
pub const BLOCK_SIZE: usize = 16;

/// The KV cache of a model.
pub fn kv_config(meta: &ModelMeta, wish: Option<&str>) -> (c: KvCacheConfig)
    ensures
        c.block_size == 16,
        c == (KvCacheConfig {
            n_layers: meta.n_layers,
            n_kv_heads: meta.n_kv_heads,
            head_dim: meta.head_dim,
            block_size: BLOCK_SIZE,
            dtype: kv_dtype(
                match wish {
                    Some(w) => Some(w@),
                    None => None,
                },
            ),
        }),
{
    let dtype = match wish {
        Some(w) => if same(w, "q8") || same(w, "Q8") {
            KvDtype::Q8
        } else if same(w, "q4") || same(w, "Q4") {
            KvDtype::Q4
        } else {
            KvDtype::F16
        },
        None => KvDtype::F16,
    };
    KvCacheConfig {
        n_layers: meta.n_layers,
        n_kv_heads: meta.n_kv_heads,
        head_dim: meta.head_dim,
        block_size: BLOCK_SIZE,
        dtype,
    }
}

/// A model file's path without its extension and without what stands behind
/// the last dot before that, such as the name of a quantization.
pub open spec fn model_stem(path: Text) -> Text {
    match cut_back(path, '.') {
        Some((name, _)) => match cut_back(name, '.') {
            Some((stem, _)) => stem,
            None => name,
        },
        None => path,
    }
}

/// The paths at which a model's projector file is looked for, in order.
pub open spec fn projector_paths(path: Text) -> Seq<Text> {
    let stem = model_stem(path);
    seq![
        stem + "-mmproj-f16.gguf"@,
        stem + ".mmproj.gguf"@,
        stem + "-mmproj.gguf"@,
        stem + ".BF16-mmproj.gguf"@,
        stem + "-mmproj-f32.gguf"@,
    ]
}

/// The paths at which a projector file may stand beside the model file `path`.
pub fn mmproj_candidates(path: &str) -> (out: Vec<String>)
    ensures
        texts(out@) == projector_paths(path@),
{
    let stem = match cut_at_last(path, '.') {
        Some((name, _)) => match cut_at_last(&name, '.') {
            Some((stem, _)) => stem,
            None => name,
        },
        None => path.to_string(),
    };
    let mut out: Vec<String> = Vec::new();
    out.push(join2(&stem, "-mmproj-f16.gguf"));
    out.push(join2(&stem, ".mmproj.gguf"));
    out.push(join2(&stem, "-mmproj.gguf"));
    out.push(join2(&stem, ".BF16-mmproj.gguf"));
    out.push(join2(&stem, "-mmproj-f32.gguf"));
    assert(texts(out@) =~= projector_paths(path@));
    out
}

/// A file beside the model is its projector: by its name, and because either
/// name holds the other's first part. `name` and `stem` are in lower case.
pub open spec fn projector_name(name: Text, stem: Text) -> bool {
    has(name, "mmproj"@) && ends(name, ".gguf"@) && (has(name, split(stem, '-')[0]) || has(
        stem,
        split(name, '-')[0],
    ))
}

/// Whether the file `file_name` is the projector of the model whose file has
/// the stem `model_file_stem`.
pub fn is_mmproj_for(file_name: &str, model_file_stem: &str) -> (b: bool)
    ensures
        b == projector_name(lowercase(file_name@), lowercase(model_file_stem@)),
{
    let name = to_lowercase(file_name);
    let stem = to_lowercase(model_file_stem);
    let stem_parts = split_on(&stem, '-');
    let name_parts = split_on(&name, '-');
    proof {
        crate::text::lemma_split_nonempty(stem@, '-');
        crate::text::lemma_split_nonempty(name@, '-');
        assert(texts(stem_parts@).len() == stem_parts@.len());
        assert(texts(name_parts@).len() == name_parts@.len());
        assert(texts(stem_parts@)[0] == stem_parts@[0]@);
        assert(texts(name_parts@)[0] == name_parts@[0]@);
    }
    contains(&name, "mmproj") && ends_with(&name, ".gguf") && (contains(&name, &stem_parts[0])
        || contains(&stem, &name_parts[0]))
}

/// Files hold weights by these three extensions, in whatever case, and by no
/// others.
pub proof fn law_weight_files(ext: Text)
    ensures
        weight_extension(ext) <==> lowercase(ext) == "safetensors"@ || lowercase(ext) == "bin"@
            || lowercase(ext) == "gguf"@,
{
}

/// A model is as large as its weight files together: each adds its length, and
/// no other file adds anything.
pub proof fn law_weight_bytes_add_up(exts: Seq<Text>, lens: Seq<u64>, ext: Text, len: u64)
    requires
        exts.len() == lens.len(),
    ensures
        weight_bytes(seq![], seq![], 0) == 0,
        weight_bytes(exts.push(ext), lens.push(len), exts.len() + 1) == weight_bytes(
            exts,
            lens,
            exts.len(),
        ) + (if lowercase(ext) == "safetensors"@ || lowercase(ext) == "bin"@ || lowercase(ext)
            == "gguf"@ {
            len as int
        } else {
            0
        }),
{
    lemma_weight_bytes_front(exts, lens, ext, len, exts.len());
}

proof fn lemma_weight_bytes_front(exts: Seq<Text>, lens: Seq<u64>, ext: Text, len: u64, n: nat)
    requires
        exts.len() == lens.len(),
        n <= exts.len(),
    ensures
        weight_bytes(exts.push(ext), lens.push(len), n) == weight_bytes(exts, lens, n),
    decreases n,
{
    if n > 0 {
        lemma_weight_bytes_front(exts, lens, ext, len, (n - 1) as nat);
        assert(exts.push(ext)[n - 1] == exts[n - 1]);
        assert(lens.push(len)[n - 1] == lens[n - 1]);
    }
}

/// By which words in its name a tensor is known as one that no matrix product
/// reads, and which of those are counted against the budget.
pub proof fn law_side_tensors(low: Text)
    ensures
        has(low, "embed"@) ==> side_tensor(low),
        has(low, "embd"@) ==> side_tensor(low),
        has(low, "norm"@) ==> side_tensor(low),
        has(low, "bias"@) ==> side_tensor(low),
        has(low, "scale"@) ==> side_tensor(low),
        has(low, "freq"@) ==> side_tensor(low),
        has(low, "rotors"@) ==> side_tensor(low),
        has(low, "rot"@) ==> side_tensor(low),
        !(has(low, "embed"@)) && !(has(low, "embd"@)) && !(has(low, "norm"@)) && !(has(low, "bias"@)) && !(has(low, "scale"@)) && !(has(low, "freq"@)) && !(has(low, "rotors"@)) && !(has(low, "rot"@)) ==> !side_tensor(low),
        counted_tensor(low) <==> side_tensor(low) && !(has(low, "freq"@)) && !(has(low, "rot"@))
            && !(has(low, "per_layer_token_embd"@)),
{
}

/// A tensor for matrix products goes to the device unless everything is
/// dequantized by hand; any other goes there if embeddings are wanted there,
/// or on a CUDA device while four bytes for each of its elements are left.
pub proof fn law_placing(names: Seq<Text>, elements: Seq<u64>, how: Placing, limit: nat, i: int)
    requires
        0 <= i < names.len(),
        names.len() == elements.len(),
    ensures
        ({
            let low = lowercase(names[i]);
            let used = placed_bytes(names, elements, how, limit, i as nat);
            let fits = how.cuda && counted_tensor(low) && used + 4 * elements[i] <= limit;
            &&& how.explicit_dequantize ==> !on_device(names, elements, how, limit, i)
            &&& !how.explicit_dequantize && !side_tensor(low) ==> on_device(
                names,
                elements,
                how,
                limit,
                i,
            )
            &&& !how.explicit_dequantize && side_tensor(low) ==> (on_device(
                names,
                elements,
                how,
                limit,
                i,
            ) <==> how.vram_embeddings || fits)
            &&& placed_bytes(names, elements, how, limit, 0) == 0
            &&& placed_bytes(names, elements, how, limit, (i + 1) as nat) == used + (if fits {
                4 * elements[i]
            } else {
                0
            })
        }),
{
}

/// A weight of a layer is ranked by the layer, the token embedding before all,
/// and what belongs to no layer at 999.
pub proof fn law_ranks(layer: usize, rest: Text, name: Text)
    ensures
        layer_rank("model.layers."@ + dec(layer as nat) + "."@ + rest) == layer,
        layer_rank("model.embed_tokens.weight"@) == 0,
        !(begins(name, "model.layers."@)) && name != "model.embed_tokens.weight"@ ==> layer_rank(
            name,
        ) == 999,
{
    reveal(numbered);
    reveal_strlit("model.layers.");
    reveal_strlit("model.embed_tokens.weight");
    reveal_strlit(".");
    let prefix = "model.layers."@;
    let s = prefix + dec(layer as nat) + "."@ + rest;
    lemma_dec_digits(layer as nat);
    law_decimal_reads_back(layer as nat);
    lemma_cut(dec(layer as nat), '.', rest);
    assert(s.subrange(0, prefix.len() as int) =~= prefix);
    assert(s.skip(prefix.len() as int) =~= dec(layer as nat).push('.') + rest);
    let embed = "model.embed_tokens.weight"@;
    if begins(embed, prefix) {
        assert(embed.subrange(0, 13)[6] == embed[6]);
        assert(prefix[6] == 'l' && embed[6] == 'e');
    }
}

/// The packing is the one that the configuration names, in whatever case, with
/// its group size or 128.
pub proof fn law_packing_is_named(config: Json, m: Text)
    requires
        str_of(field_of(field(config, "quantization_config"@), "quant_method"@)) == Some(m),
    ensures
        ({
            let size = size_of(field_of(field(config, "quantization_config"@), "group_size"@));
            let n = if size is Some {
                size->0
            } else {
                128usize
            };
            &&& lowercase(m) == "awq"@ ==> packing(config) == Some((PackedMethod::Awq, n))
            &&& lowercase(m) == "gptq"@ ==> packing(config) == Some((PackedMethod::Gptq, n))
            &&& lowercase(m) != "awq"@ && lowercase(m) != "gptq"@ ==> packing(config) is None
        }),
{
    reveal_strlit("awq");
    reveal_strlit("gptq");
    assert("awq"@.len() != "gptq"@.len());
}

/// The parts of a packed layer belong to the layer; a list of groups is a part
/// under GPTQ alone.
pub proof fn law_parts_belong(base: Text)
    ensures
        forall|method: PackedMethod| #[trigger]
            packed_base(method, base + ".qweight"@) == Some(base),
        forall|method: PackedMethod| #[trigger]
            packed_base(method, base + ".qzeros"@) == Some(base),
        forall|method: PackedMethod| #[trigger]
            packed_base(method, base + ".scales"@) == Some(base),
        packed_base(PackedMethod::Gptq, base + ".g_idx"@) == Some(base),
{
    crate::loader::awq::law_parts_are_told(base);
    crate::loader::gptq::law_parts_are_told(base);
}

/// A layer lacks nothing if and only if its integers, its zero points and its
/// scales are there; otherwise it lacks the first of them that is not.
pub proof fn law_what_a_layer_lacks(names: Seq<Text>, base: Text)
    ensures
        lacking(names, base) is None <==> names.contains(base + ".qweight"@) && names.contains(
            base + ".qzeros"@,
        ) && names.contains(base + ".scales"@),
        lacking(names, base) matches Some(part) ==> !names.contains(part) && (part == base
            + ".qweight"@ || part == base + ".qzeros"@ || part == base + ".scales"@),
{
}

/// Something is lacking if and only if one of the layers lacks something.
pub proof fn law_first_lacking(names: Seq<Text>, bases: Seq<Text>)
    ensures
        first_lacking(names, bases) is None <==> forall|i: int|
            0 <= i < bases.len() ==> lacking(names, #[trigger] bases[i]) is None,
        first_lacking(names, bases) matches Some(part) ==> !names.contains(part),
    decreases bases.len(),
{
    if bases.len() > 0 {
        let front = bases.drop_last();
        law_first_lacking(names, front);
        law_what_a_layer_lacks(names, bases.last());
        assert(bases[bases.len() - 1] == bases.last());
        assert forall|i: int| 0 <= i < front.len() implies #[trigger] front[i] == bases[i] by {}
        if first_lacking(names, bases) is None {
            assert forall|i: int| 0 <= i < bases.len() implies lacking(names, #[trigger] bases[i])
                is None by {
                if i < front.len() {
                    assert(front[i] == bases[i]);
                }
            }
        } else if first_lacking(names, front) is Some {
            let i = choose|i: int|
                0 <= i < front.len() && !(lacking(names, #[trigger] front[i]) is None);
            assert(bases[i] == front[i]);
        }
    }
}

/// An end that is found among added tokens is one of them: its text is one of
/// the candidates, and its id is its own. Without such a token none is found.
pub proof fn law_end_is_a_token(tokens: Seq<Json>, candidates: Seq<Text>, n: nat)
    requires
        n <= tokens.len(),
    ensures
        match id_by_field(tokens, candidates, n) {
            Some(id) => exists|i: int|
                0 <= i < n && str_of(field(#[trigger] tokens[i], "content"@)) is Some
                    && candidates.contains(str_of(field(tokens[i], "content"@))->0) && (u64_of(
                    field(tokens[i], "id"@),
                ) matches Some(v) && id == v as u32),
            None => forall|i: int|
                0 <= i < n ==> !(str_of(field(#[trigger] tokens[i], "content"@)) matches Some(c)
                    && candidates.contains(c)) || u64_of(field(tokens[i], "id"@)) is None,
        },
    decreases n,
{
    if n > 0 {
        law_end_is_a_token(tokens, candidates, (n - 1) as nat);
        if id_by_field(tokens, candidates, n) is Some && id_by_field(
            tokens,
            candidates,
            (n - 1) as nat,
        ) is None {
            assert(str_of(field(tokens[n - 1], "content"@)) is Some);
        }
    }
}

/// The same of tokens that are listed under their ids.
pub proof fn law_end_is_a_key(entries: Seq<(String, Json)>, candidates: Seq<Text>, n: nat)
    requires
        n <= entries.len(),
    ensures
        match id_by_key(entries, candidates, n) {
            Some(id) => exists|i: int|
                0 <= i < n && str_of(field((#[trigger] entries[i]).1, "content"@)) is Some
                    && candidates.contains(str_of(field(entries[i].1, "content"@))->0)
                    && value_upto(entries[i].0@, 0xFFFF_FFFF) == Some(id),
            None => forall|i: int|
                0 <= i < n ==> !(str_of(field((#[trigger] entries[i]).1, "content"@)) matches Some(c)
                    && candidates.contains(c)) || value_upto(entries[i].0@, 0xFFFF_FFFF) is None,
        },
    decreases n,
{
    if n > 0 {
        law_end_is_a_key(entries, candidates, (n - 1) as nat);
        if id_by_key(entries, candidates, n) is Some && id_by_key(
            entries,
            candidates,
            (n - 1) as nat,
        ) is None {
            assert(str_of(field(entries[n - 1].1, "content"@)) is Some);
        }
    }
}

/// The end of a text is looked for under these four texts.
pub proof fn law_ends_looked_for(word: Text)
    ensures
        hf_ends().contains(word) <==> word == "<|im_end|>"@ || word == "<end_of_turn>"@ || word
            == "<|endoftext|>"@ || word == "</s>"@,
{
    let all = hf_ends();
    assert(all[0] == "<|im_end|>"@ && all[1] == "<end_of_turn>"@);
    assert(all[2] == "<|endoftext|>"@ && all[3] == "</s>"@);
}

/// Settling a model fills in what is open and changes nothing else: its
/// weights are half precision, a nameless architecture is unknown, and a
/// missing template is the tokenizer's.
pub proof fn law_settling(meta: ModelMeta<Text, Seq<bool>>, tokenizer: Option<Json>)
    ensures
        ({
            let out = settled(meta, tokenizer);
            &&& out.weight_dtype == WeightDtype::F16
            &&& meta.arch.len() > 0 ==> out.arch == meta.arch
            &&& meta.arch.len() == 0 ==> out.arch == "unknown"@
            &&& meta.chat_template is Some ==> out.chat_template == meta.chat_template
            &&& meta.chat_template is None ==> out.chat_template == str_of(
                field_of(tokenizer, "chat_template"@),
            )
            &&& meta == (ModelMeta {
                weight_dtype: meta.weight_dtype,
                arch: meta.arch,
                chat_template: meta.chat_template,
                ..out
            })
        }),
{
}

/// The cache holds eight or four bits if the user asks for them, in either
/// case, and half precision otherwise.
pub proof fn law_cache_types(wish: Option<Text>)
    ensures
        kv_dtype(Some("q8"@)) == KvDtype::Q8,
        kv_dtype(Some("Q8"@)) == KvDtype::Q8,
        kv_dtype(Some("q4"@)) == KvDtype::Q4,
        kv_dtype(Some("Q4"@)) == KvDtype::Q4,
        wish != Some("q8"@) && wish != Some("Q8"@) && wish != Some("q4"@) && wish != Some("Q4"@)
            ==> kv_dtype(wish) == KvDtype::F16,
{
    reveal_strlit("q8");
    reveal_strlit("Q8");
    reveal_strlit("q4");
    reveal_strlit("Q4");
    assert("q8"@.len() == 2);
    assert("Q8"@.len() == 2);
    assert("q4"@.len() == 2);
    assert("Q4"@.len() == 2);
    assert("q8"@[0] != "Q8"@[0]);
    assert("q8"@[1] != "q4"@[1]);
    assert("q8"@[0] != "Q4"@[0]);
    assert("Q8"@[0] != "q4"@[0]);
    assert("Q8"@[1] != "Q4"@[1]);
    assert("q4"@[0] != "Q4"@[0]);
}

/// A projector stands beside the model under one of five names, made of the
/// model's name without its extension and its quantization.
pub proof fn law_projector_paths(stem: Text, quant: Text, ext: Text)
    requires
        free_of(quant, '.'),
        free_of(ext, '.'),
    ensures
        projector_paths((stem.push('.') + quant).push('.') + ext) == seq![
            stem + "-mmproj-f16.gguf"@,
            stem + ".mmproj.gguf"@,
            stem + "-mmproj.gguf"@,
            stem + ".BF16-mmproj.gguf"@,
            stem + "-mmproj-f32.gguf"@,
        ],
        free_of(stem, '.') ==> model_stem(stem.push('.') + ext) == stem,
        free_of(stem, '.') ==> model_stem(stem) == stem,
{
    law_cut_back(stem.push('.') + quant, '.', ext);
    law_cut_back(stem, '.', quant);
    law_cut_back(stem, '.', ext);
    if free_of(stem, '.') {
        law_cut_back(stem, '.', stem);
    }
}

/// A file is a projector only by its name, and then only if its name and the
/// model's share their first part, up to the first dash.
pub proof fn law_projector_names(first: Text, a: Text, b: Text)
    requires
        free_of(first, '-'),
    ensures
        ends(first.push('-') + a, ".gguf"@) && has(first.push('-') + a, "mmproj"@)
            ==> projector_name(first.push('-') + a, first.push('-') + b),
        !(ends(a, ".gguf"@)) || !(has(a, "mmproj"@)) ==> !projector_name(a, b),
{
    let name = first.push('-') + a;
    let stem = first.push('-') + b;
    lemma_first_part(first, '-', b);
    law_text_stands(seq![], first, seq!['-'] + a);
    assert(name =~= Seq::<char>::empty() + first + (seq!['-'] + a));
}

/// In one file the tokens that are listed under their ids come first, then the
/// list of added tokens; of several files the first that has one counts.
pub proof fn law_where_ends_are_found(
    file: Json,
    rest: Seq<Json>,
    candidates: Seq<Text>,
    entries: Seq<(String, Json)>,
    tokens: Seq<Json>,
)
    ensures
        field(file, "added_tokens_decoder"@) matches Some(Json::Object(own)) ==> (own@ == entries
            ==> (id_by_key(entries, candidates, entries.len()) matches Some(id) ==> id_in(
            file,
            candidates,
        ) == Some(id as u32))),
        field(file, "added_tokens_decoder"@) is None && array_of(field(file, "added_tokens"@)) == Some(
            tokens,
        ) ==> id_in(file, candidates) == id_by_field(tokens, candidates, tokens.len()),
        field(file, "added_tokens_decoder"@) is None && array_of(field(file, "added_tokens"@)) is None
            ==> id_in(file, candidates) is None,
        id_in(file, candidates) is Some ==> id_among(seq![file] + rest, candidates) == id_in(
            file,
            candidates,
        ),
        id_in(file, candidates) is None ==> id_among(seq![file] + rest, candidates) == id_among(
            rest,
            candidates,
        ),
        id_among(seq![], candidates) is None,
{
    let all = seq![file] + rest;
    assert(all[0] == file);
    assert(all.skip(1) =~= rest);
}

} // verus!
