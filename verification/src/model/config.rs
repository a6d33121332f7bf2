//! `config.json` of a checkpoint directory.
use vstd::prelude::*;
use crate::json::{
    any_key_with, array_of, as_array, as_bool, as_double, as_size, as_text, at, bool_of, double_of,
    entry, field, field_of, first, get, get_in, has_key_with, or, parse_json, parsed_json, size_of,
    str_of, Json,
};
use crate::text::{begins, contains, has, join2, lowercase, same, to_lowercase, Text};
use crate::types::{
    flags_opt, is_gemma_arch, is_gemma_name, mentions_gemma, text_opt, HiddenAct, ModelMeta, Real,
    WeightDtype, EPS_DEFAULT, ROPE_THETA_DEFAULT,
};

verus! {

/// Why a configuration cannot be used. `S` is how text is held.
#[derive(Debug)]
pub enum ConfigError<S = String> {
    /// The text is not JSON; what the parser says of it.
    NotJson(S),
    /// Pre-quantized by this method, in a packing that cannot be unpacked.
    UnsupportedQuantization(S),
    MissingVocabSize,
    MissingHiddenSize,
    MissingNumHiddenLayers,
    MissingNumAttentionHeads,
    ZeroNumAttentionHeads,
    MissingIntermediateSize,
    /// The activation function is not one of the supported ones.
    UnknownHiddenAct(S),
    MissingHiddenAct,
}

impl View for ConfigError {
    type V = ConfigError<Text>;

    open spec fn view(&self) -> ConfigError<Text> {
        match *self {
            ConfigError::NotJson(s) => ConfigError::NotJson(s@),
            ConfigError::UnsupportedQuantization(s) => ConfigError::UnsupportedQuantization(s@),
            ConfigError::MissingVocabSize => ConfigError::MissingVocabSize,
            ConfigError::MissingHiddenSize => ConfigError::MissingHiddenSize,
            ConfigError::MissingNumHiddenLayers => ConfigError::MissingNumHiddenLayers,
            ConfigError::MissingNumAttentionHeads => ConfigError::MissingNumAttentionHeads,
            ConfigError::ZeroNumAttentionHeads => ConfigError::ZeroNumAttentionHeads,
            ConfigError::MissingIntermediateSize => ConfigError::MissingIntermediateSize,
            ConfigError::UnknownHiddenAct(s) => ConfigError::UnknownHiddenAct(s@),
            ConfigError::MissingHiddenAct => ConfigError::MissingHiddenAct,
        }
    }
}

impl ConfigError {
    /// The error in words.
    pub fn message(&self) -> (out: String)
        ensures
            out@ == error_text(self@),
    {
        match self {
            ConfigError::NotJson(e) => join2("Failed to parse config.json: ", e),
            ConfigError::UnsupportedQuantization(method) => {
                let mut out = join2("this model is pre-quantized with '", method);
                out.append(
                    "', which llm-rs does not yet support (no dequantization kernel for this packed-weight format) - use a GGUF-quantized version of this model instead, or its unquantized/F16 safetensors version",
                );
                out
            },
            ConfigError::MissingVocabSize => "vocab_size missing from config".to_string(),
            ConfigError::MissingHiddenSize => "hidden_size missing from config".to_string(),
            ConfigError::MissingNumHiddenLayers =>
                "num_hidden_layers missing from config".to_string(),
            ConfigError::MissingNumAttentionHeads =>
                "num_attention_heads missing from config".to_string(),
            ConfigError::ZeroNumAttentionHeads =>
                "num_attention_heads must be nonzero (malformed config.json)".to_string(),
            ConfigError::MissingIntermediateSize =>
                "intermediate_size missing from config".to_string(),
            ConfigError::UnknownHiddenAct(other) => {
                let mut out = join2("config.json's hidden_act = \"", other);
                out.append(
                    "\" is not a recognized activation function (this codebase currently supports SiLU and GeLU variants only) - defaulting silently here would run the wrong MLP math with no warning",
                );
                out
            },
            ConfigError::MissingHiddenAct =>
                "config.json is missing the hidden_act field - cannot determine this model's MLP activation function without guessing, which risks running the wrong MLP math silently".to_string(),
        }
    }
}

/// What `ConfigError::message` says.
pub open spec fn error_text(e: ConfigError<Text>) -> Text {
    match e {
        ConfigError::NotJson(e) => "Failed to parse config.json: "@ + e,
        ConfigError::UnsupportedQuantization(method) => "this model is pre-quantized with '"@
            + method
            + "', which llm-rs does not yet support (no dequantization kernel for this packed-weight format) - use a GGUF-quantized version of this model instead, or its unquantized/F16 safetensors version"@,
        ConfigError::MissingVocabSize => "vocab_size missing from config"@,
        ConfigError::MissingHiddenSize => "hidden_size missing from config"@,
        ConfigError::MissingNumHiddenLayers => "num_hidden_layers missing from config"@,
        ConfigError::MissingNumAttentionHeads => "num_attention_heads missing from config"@,
        ConfigError::ZeroNumAttentionHeads =>
            "num_attention_heads must be nonzero (malformed config.json)"@,
        ConfigError::MissingIntermediateSize => "intermediate_size missing from config"@,
        ConfigError::UnknownHiddenAct(other) => "config.json's hidden_act = \""@ + other
            + "\" is not a recognized activation function (this codebase currently supports SiLU and GeLU variants only) - defaulting silently here would run the wrong MLP math with no warning"@,
        ConfigError::MissingHiddenAct =>
            "config.json is missing the hidden_act field - cannot determine this model's MLP activation function without guessing, which risks running the wrong MLP math silently"@,
    }
}

/// A key at the top level, or else under `text_config`.
pub open spec fn lookup(val: Json, key: Text) -> Option<Json> {
    or(field(val, key), field_of(field(val, "text_config"@), key))
}

/// The quantization method that the checkpoint names, if it names any
/// quantization at all.
pub open spec fn quant_method(val: Json) -> Option<Text> {
    match field(val, "quantization_config"@) {
        Some(qc) => Some(
            match str_of(field(qc, "quant_method"@)) {
                Some(m) => m,
                None => "unknown"@,
            },
        ),
        None => None,
    }
}

/// The method packs weights in a way that cannot be unpacked.
pub open spec fn unpackable(method: Text) -> bool {
    let m = lowercase(method);
    m == "bitsandbytes"@ || m == "bnb"@ || m == "bnb_4bit"@
}

/// The activation function's name.
pub open spec fn act_text(val: Json) -> Option<Text> {
    str_of(or(lookup(val, "hidden_act"@), lookup(val, "hidden_activation"@)))
}

/// The activation function that a name stands for.
pub open spec fn act_of(name: Text) -> Option<HiddenAct> {
    if has(name, "gelu"@) {
        Some(HiddenAct::GeLU)
    } else if has(name, "silu"@) || has(name, "swish"@) {
        Some(HiddenAct::SiLU)
    } else {
        None
    }
}

/// What keeps the configuration from being used, the first thing in the order
/// in which fields are read.
pub open spec fn problem(val: Json) -> Option<ConfigError<Text>> {
    if quant_method(val) matches Some(m) && unpackable(m) {
        Some(ConfigError::UnsupportedQuantization(quant_method(val)->0))
    } else if size_of(lookup(val, "vocab_size"@)) is None {
        Some(ConfigError::MissingVocabSize)
    } else if size_of(lookup(val, "hidden_size"@)) is None {
        Some(ConfigError::MissingHiddenSize)
    } else if size_of(lookup(val, "num_hidden_layers"@)) is None {
        Some(ConfigError::MissingNumHiddenLayers)
    } else if size_of(lookup(val, "num_attention_heads"@)) is None {
        Some(ConfigError::MissingNumAttentionHeads)
    } else if size_of(lookup(val, "num_attention_heads"@)) == Some(0usize) {
        Some(ConfigError::ZeroNumAttentionHeads)
    } else if size_of(lookup(val, "intermediate_size"@)) is None {
        Some(ConfigError::MissingIntermediateSize)
    } else {
        match act_text(val) {
            Some(name) => if act_of(name) is None {
                Some(ConfigError::UnknownHiddenAct(name))
            } else {
                None
            },
            None => Some(ConfigError::MissingHiddenAct),
        }
    }
}

/// A size, or a default.
pub open spec fn size_or(o: Option<Json>, default: usize) -> usize {
    match size_of(o) {
        Some(v) => v,
        None => default,
    }
}

/// A double precision number as a `Real`.
pub open spec fn real_of(o: Option<Json>) -> Option<Real> {
    match double_of(o) {
        Some(bits) => Some(Real::Double(bits)),
        None => None,
    }
}

/// A number, or a default.
pub open spec fn real_or(o: Option<Json>, default: Real) -> Real {
    match real_of(o) {
        Some(r) => r,
        None => default,
    }
}

/// The rope base that the nested table gives for a kind of attention.
pub open spec fn nested_theta(val: Json, kind: Text) -> Option<Real> {
    real_of(field_of(field_of(lookup(val, "rope_parameters"@), kind), "rope_theta"@))
}

/// The element type that the checkpoint names.
pub open spec fn dtype_of(name: Option<Text>) -> WeightDtype {
    if name == Some("float32"@) {
        WeightDtype::F32
    } else if name == Some("bfloat16"@) {
        WeightDtype::BF16
    } else {
        WeightDtype::F16
    }
}

/// An element of `no_rope_layers` read as a flag: a truth value, or a number
/// other than zero.
pub open spec fn loose_flag(j: Json) -> bool {
    match j {
        Json::Bool(b) => b,
        Json::Number(n) => match n.signed {
            Some(i) => i != 0,
            None => match n.unsigned {
                Some(u) => u != 0,
                None => false,
            },
        },
        _ => false,
    }
}

/// Which layers go without position.
pub open spec fn no_rope(val: Json, layers: usize) -> Seq<bool> {
    match array_of(field(val, "no_rope_layers"@)) {
        Some(a) => a.map_values(|j: Json| loose_flag(j)),
        None => Seq::new(layers as nat, |i: int| false),
    }
}

/// Which layers attend within the sliding window.
pub open spec fn sliding(val: Json) -> Option<Seq<bool>> {
    match array_of(lookup(val, "layer_types"@)) {
        Some(a) => Some(a.map_values(|j: Json| str_of(Some(j)) == Some("sliding_attention"@))),
        None => None,
    }
}

/// Flags of a list of truth values; anything else counts as false.
pub open spec fn flags_of(o: Option<Json>) -> Option<Seq<bool>> {
    match array_of(o) {
        Some(a) => Some(a.map_values(|j: Json| bool_of(Some(j)) == Some(true))),
        None => None,
    }
}

/// The block that describes the vision encoder.
pub open spec fn vision_block(val: Json) -> Option<Json> {
    or(
        field(val, "vision_config"@),
        or(
            field(val, "vision_config_dict"@),
            or(field(val, "image_config"@), field(val, "multimodal_config"@)),
        ),
    )
}

/// The model has a vision encoder.
pub open spec fn sees(val: Json) -> bool {
    vision_block(val) is Some || has_key_with(val, "vision_"@) || has_key_with(val, "image_"@)
        || has_key_with(val, "video_"@) || has_key_with(val, "multimodal_"@)
}

/// The block that describes the audio encoder.
pub open spec fn audio_block(val: Json) -> Option<Json> {
    or(field(val, "audio_config"@), field(val, "audio_config_dict"@))
}

/// The model has an audio encoder.
pub open spec fn hears(val: Json) -> bool {
    audio_block(val) is Some || has_key_with(val, "audio_"@)
}

/// A field of the encoder, from its block, or else from the top level under
/// its flat name. `nested` and `flat` hold the values under each.
pub open spec fn encoder_size(
    block: Option<Json>,
    present: bool,
    nested: Option<Json>,
    flat: Option<Json>,
) -> Option<usize> {
    if block is Some {
        size_of(nested)
    } else if present {
        size_of(flat)
    } else {
        None
    }
}

/// The names under `architectures`.
pub open spec fn names_in(a: Seq<Json>) -> Seq<Text>
    decreases a.len(),
{
    if a.len() == 0 {
        seq![]
    } else {
        let rest = names_in(a.drop_last());
        match a.last() {
            Json::Str(s) => rest.push(s@),
            _ => rest,
        }
    }
}

/// The model type, empty where none is given.
pub open spec fn model_type(val: Json) -> Text {
    match str_of(field(val, "model_type"@)) {
        Some(t) => t,
        None => seq![],
    }
}

/// The model belongs to the Gemma family.
pub open spec fn gemma(val: Json) -> bool {
    is_gemma_name(
        model_type(val),
        match array_of(field(val, "architectures"@)) {
            Some(a) => names_in(a),
            None => seq![],
        },
    )
}

/// The metadata that a usable configuration describes.
pub open spec fn meta_of(val: Json) -> ModelMeta<Text, Seq<bool>> {
    let hidden = size_or(lookup(val, "hidden_size"@), 0);
    let layers = size_or(lookup(val, "num_hidden_layers"@), 0);
    let heads = size_or(lookup(val, "num_attention_heads"@), 0);
    let head_dim = size_or(lookup(val, "head_dim"@), (hidden / heads) as usize);
    let vb = vision_block(val);
    let ab = audio_block(val);
    ModelMeta {
        vocab_size: size_or(lookup(val, "vocab_size"@), 0),
        hidden_dim: hidden,
        n_layers: layers,
        n_heads: heads,
        n_kv_heads: size_or(lookup(val, "num_key_value_heads"@), heads),
        head_dim,
        intermediate_dim: size_or(lookup(val, "intermediate_size"@), 0),
        max_seq_len: size_or(lookup(val, "max_position_embeddings"@), 2048),
        rope_theta: match nested_theta(val, "full_attention"@) {
            Some(r) => r,
            None => real_or(lookup(val, "rope_theta"@), Real::Single(ROPE_THETA_DEFAULT)),
        },
        weight_dtype: dtype_of(str_of(or(lookup(val, "torch_dtype"@), lookup(val, "dtype"@)))),
        rms_norm_eps: real_or(lookup(val, "rms_norm_eps"@), Real::Single(EPS_DEFAULT)),
        tie_word_embeddings: bool_of(lookup(val, "tie_word_embeddings"@)) == Some(true),
        hidden_act: act_of(act_text(val)->0)->0,
        no_rope_layers: no_rope(val, layers),
        has_vision_encoder: sees(val),
        vision_hidden_dim: encoder_size(
            vb,
            sees(val),
            or(field_of(vb, "hidden_size"@), field_of(vb, "hidden_dim"@)),
            or(field(val, "vision_hidden_size"@), field(val, "vision_hidden_dim"@)),
        ),
        vision_patch_size: encoder_size(
            vb,
            sees(val),
            field_of(vb, "patch_size"@),
            field(val, "vision_patch_size"@),
        ),
        vision_image_size: encoder_size(
            vb,
            sees(val),
            field_of(vb, "image_size"@),
            field(val, "vision_image_size"@),
        ),
        vision_num_layers: encoder_size(
            vb,
            sees(val),
            or(field_of(vb, "num_hidden_layers"@), field_of(vb, "num_layers"@)),
            or(field(val, "vision_num_hidden_layers"@), field(val, "vision_num_layers"@)),
        ),
        vision_num_heads: encoder_size(
            vb,
            sees(val),
            or(field_of(vb, "num_attention_heads"@), field_of(vb, "num_heads"@)),
            or(field(val, "vision_num_attention_heads"@), field(val, "vision_num_heads"@)),
        ),
        vision_projection_dim: encoder_size(
            vb,
            sees(val),
            or(field_of(vb, "projection_dim"@), field_of(vb, "projection_size"@)),
            field(val, "vision_projection_dim"@),
        ),
        spatial_merge_size: encoder_size(
            vb,
            sees(val),
            field_of(vb, "spatial_merge_size"@),
            field(val, "spatial_merge_size"@),
        ),
        is_deepstack_layers: flags_of(field_of(vb, "is_deepstack_layers"@)),
        projector_type: if vb is Some {
            str_of(field_of(vb, "projector_type"@))
        } else if sees(val) {
            str_of(field(val, "projector_type"@))
        } else {
            None
        },
        has_audio_encoder: hears(val),
        audio_hidden_dim: encoder_size(
            ab,
            hears(val),
            or(
                or(field_of(ab, "hidden_size"@), field_of(ab, "hidden_dim"@)),
                field_of(ab, "d_model"@),
            ),
            or(field(val, "audio_hidden_size"@), field(val, "audio_hidden_dim"@)),
        ),
        audio_block_count: encoder_size(
            ab,
            hears(val),
            or(
                or(field_of(ab, "num_hidden_layers"@), field_of(ab, "num_layers"@)),
                field_of(ab, "encoder_layers"@),
            ),
            or(field(val, "audio_num_hidden_layers"@), field(val, "audio_num_layers"@)),
        ),
        audio_embedding_length: encoder_size(
            ab,
            hears(val),
            or(field_of(ab, "embedding_length"@), field_of(ab, "hidden_size"@)),
            field(val, "audio_embedding_length"@),
        ),
        audio_num_mel_bins: encoder_size(
            ab,
            hears(val),
            or(field_of(ab, "num_mel_bins"@), field_of(ab, "n_mels"@)),
            field(val, "audio_num_mel_bins"@),
        ),
        shared_kv_layers: size_of(lookup(val, "num_kv_shared_layers"@)),
        sliding_window_pattern: sliding(val),
        sliding_window: size_of(lookup(val, "sliding_window"@)),
        key_length: size_of(lookup(val, "global_head_dim"@)),
        key_length_swa: Some(head_dim),
        rope_theta_swa: nested_theta(val, "sliding_attention"@),
        final_logit_softcapping: real_of(lookup(val, "final_logit_softcapping"@)),
        is_gemma: gemma(val),
        ple_dim: size_of(lookup(val, "hidden_size_per_layer_input"@)),
        embed_scale: if gemma(val) {
            Some(Real::SqrtOf(hidden))
        } else {
            None
        },
        arch: model_type(val),
        chat_template: None,
        eos_token_str: if gemma(val) {
            Some("<end_of_turn>"@)
        } else {
            None
        },
    }
}

fn find<'a>(val: &'a Json, key: &str) -> (r: Option<&'a Json>)
    ensures
        at(r) == lookup(*val, key@),
{
    first(get(val, key), get_in(get(val, "text_config"), key))
}

fn size_default(o: Option<&Json>, default: usize) -> (v: usize)
    ensures
        v == size_or(at(o), default),
{
    match as_size(o) {
        Some(v) => v,
        None => default,
    }
}

fn as_real(o: Option<&Json>) -> (r: Option<Real>)
    ensures
        r == real_of(at(o)),
{
    match as_double(o) {
        Some(bits) => Some(Real::Double(bits)),
        None => None,
    }
}

fn real_default(o: Option<&Json>, default: Real) -> (r: Real)
    ensures
        r == real_or(at(o), default),
{
    match as_real(o) {
        Some(r) => r,
        None => default,
    }
}

fn theta_in(val: &Json, kind: &str) -> (r: Option<Real>)
    ensures
        r == nested_theta(*val, kind@),
{
    as_real(get_in(get_in(find(val, "rope_parameters"), kind), "rope_theta"))
}

fn weight_dtype(val: &Json) -> (d: WeightDtype)
    ensures
        d == dtype_of(str_of(or(lookup(*val, "torch_dtype"@), lookup(*val, "dtype"@)))),
{
    proof {
        reveal_strlit("float32");
        reveal_strlit("bfloat16");
    }
    match as_text(first(find(val, "torch_dtype"), find(val, "dtype"))) {
        Some(name) => if same(name, "float32") {
            WeightDtype::F32
        } else if same(name, "bfloat16") {
            WeightDtype::BF16
        } else {
            WeightDtype::F16
        },
        None => WeightDtype::F16,
    }
}

fn read_flag(j: &Json) -> (b: bool)
    ensures
        b == loose_flag(*j),
{
    match j {
        Json::Bool(b) => *b,
        Json::Number(n) => match n.signed {
            Some(i) => i != 0,
            None => match n.unsigned {
                Some(u) => u != 0,
                None => false,
            },
        },
        _ => false,
    }
}

fn read_flags(a: &Vec<Json>) -> (out: Vec<bool>)
    ensures
        out@ == a@.map_values(|j: Json| loose_flag(j)),
{
    let mut out: Vec<bool> = Vec::new();
    let mut i: usize = 0;
    while i < a.len()
        invariant
            i <= a.len(),
            out.len() == i,
            forall|k: int| 0 <= k < i ==> out@[k] == loose_flag(#[trigger] a@[k]),
        decreases a.len() - i,
    {
        out.push(read_flag(&a[i]));
        i += 1;
    }
    assert(out@ =~= a@.map_values(|j: Json| loose_flag(j)));
    out
}

fn all_false(n: usize) -> (out: Vec<bool>)
    ensures
        out@ == Seq::new(n as nat, |i: int| false),
{
    let mut out: Vec<bool> = Vec::new();
    let mut i: usize = 0;
    while i < n
        invariant
            i <= n,
            out.len() == i,
            forall|k: int| 0 <= k < i ==> !#[trigger] out@[k],
        decreases n - i,
    {
        out.push(false);
        i += 1;
    }
    assert(out@ =~= Seq::new(n as nat, |i: int| false));
    out
}

fn no_rope_flags(val: &Json, layers: usize) -> (out: Vec<bool>)
    ensures
        out@ == no_rope(*val, layers),
{
    match as_array(get(val, "no_rope_layers")) {
        Some(a) => read_flags(a),
        None => all_false(layers),
    }
}

fn sliding_flags(val: &Json) -> (out: Option<Vec<bool>>)
    ensures
        flags_opt(out) == sliding(*val),
{
    match as_array(find(val, "layer_types")) {
        Some(a) => {
            let mut out: Vec<bool> = Vec::new();
            let mut i: usize = 0;
            while i < a.len()
                invariant
                    i <= a.len(),
                    out.len() == i,
                    forall|k: int|
                        0 <= k < i ==> out@[k] == (str_of(Some(#[trigger] a@[k])) == Some(
                            "sliding_attention"@,
                        )),
                decreases a.len() - i,
            {
                let b = match as_text(Some(&a[i])) {
                    Some(t) => same(t, "sliding_attention"),
                    None => false,
                };
                out.push(b);
                i += 1;
            }
            proof {
                assert(out@ =~= a@.map_values(
                    |j: Json| str_of(Some(j)) == Some("sliding_attention"@),
                ));
            }
            Some(out)
        },
        None => None,
    }
}

fn bool_flags(o: Option<&Json>) -> (out: Option<Vec<bool>>)
    ensures
        flags_opt(out) == flags_of(at(o)),
{
    match as_array(o) {
        Some(a) => {
            let mut out: Vec<bool> = Vec::new();
            let mut i: usize = 0;
            while i < a.len()
                invariant
                    i <= a.len(),
                    out.len() == i,
                    forall|k: int|
                        0 <= k < i ==> out@[k] == (bool_of(Some(#[trigger] a@[k])) == Some(true)),
                decreases a.len() - i,
            {
                let b = match as_bool(Some(&a[i])) {
                    Some(b) => b,
                    None => false,
                };
                out.push(b);
                i += 1;
            }
            proof {
                assert(out@ =~= a@.map_values(|j: Json| bool_of(Some(j)) == Some(true)));
            }
            Some(out)
        },
        None => None,
    }
}

fn owned_text(o: Option<&Json>) -> (out: Option<String>)
    ensures
        text_opt(out) == str_of(at(o)),
{
    match as_text(o) {
        Some(s) => Some(s.clone()),
        None => None,
    }
}

fn encoder_field(
    block: Option<&Json>,
    present: bool,
    nested: Option<&Json>,
    flat: Option<&Json>,
) -> (r: Option<usize>)
    ensures
        r == encoder_size(at(block), present, at(nested), at(flat)),
{
    if block.is_some() {
        as_size(nested)
    } else if present {
        as_size(flat)
    } else {
        None
    }
}

fn architecture_names(a: &Vec<Json>) -> (out: Vec<String>)
    ensures
        crate::text::texts(out@) == names_in(a@),
{
    let mut out: Vec<String> = Vec::new();
    let mut i: usize = 0;
    assert(a@.take(0) =~= Seq::empty());
    assert(crate::text::texts(out@) =~= Seq::empty());
    while i < a.len()
        invariant
            i <= a.len(),
            crate::text::texts(out@) == names_in(a@.take(i as int)),
        decreases a.len() - i,
    {
        let ghost before = out@;
        assert(a@.take(i + 1).drop_last() =~= a@.take(i as int));
        if let Json::Str(s) = &a[i] {
            out.push(s.clone());
            assert(crate::text::texts(out@) =~= crate::text::texts(before).push(s@));
        }
        i += 1;
    }
    assert(a@.take(i as int) =~= a@);
    out
}

fn model_type_text(val: &Json) -> (out: String)
    ensures
        out@ == model_type(*val),
{
    match as_text(get(val, "model_type")) {
        Some(t) => t.clone(),
        None => String::new(),
    }
}

fn is_gemma(val: &Json) -> (b: bool)
    ensures
        b == gemma(*val),
{
    let kind = model_type_text(val);
    let names = match as_array(get(val, "architectures")) {
        Some(a) => architecture_names(a),
        None => {
            let none: Vec<String> = Vec::new();
            assert(crate::text::texts(none@) =~= Seq::empty());
            none
        },
    };
    is_gemma_arch(&kind, &names)
}

fn bad_quantization(val: &Json) -> (r: Option<String>)
    ensures
        match r {
            Some(m) => quant_method(*val) == Some(m@) && unpackable(m@),
            None => quant_method(*val) is None || !unpackable(quant_method(*val)->0),
        },
{
    match get(val, "quantization_config") {
        Some(qc) => {
            let method = match as_text(get(qc, "quant_method")) {
                Some(m) => m.clone(),
                None => "unknown".to_string(),
            };
            let m = to_lowercase(&method);
            if same(&m, "bitsandbytes") || same(&m, "bnb") || same(&m, "bnb_4bit") {
                Some(method)
            } else {
                None
            }
        },
        None => None,
    }
}

fn activation(val: &Json) -> (r: Result<HiddenAct, ConfigError>)
    ensures
        match r {
            Ok(a) => act_text(*val) is Some && act_of(act_text(*val)->0) == Some(a),
            Err(e) => match act_text(*val) {
                Some(name) => act_of(name) is None && e@ == ConfigError::UnknownHiddenAct(name),
                None => e@ == ConfigError::<Text>::MissingHiddenAct,
            },
        },
{
    match as_text(first(find(val, "hidden_act"), find(val, "hidden_activation"))) {
        Some(name) => if contains(name, "gelu") {
            Ok(HiddenAct::GeLU)
        } else if contains(name, "silu") || contains(name, "swish") {
            Ok(HiddenAct::SiLU)
        } else {
            Err(ConfigError::UnknownHiddenAct(name.clone()))
        },
        None => Err(ConfigError::MissingHiddenAct),
    }
}

/// Reads the model's metadata out of its parsed `config.json`. Dimensions may
/// stand at the top level or under `text_config`.
pub fn config_from(val: &Json) -> (r: Result<ModelMeta, ConfigError>)
    ensures
        match r {
            Ok(meta) => problem(*val) is None && meta@ == meta_of(*val),
            Err(e) => problem(*val) == Some(e@),
        },
{
    if let Some(method) = bad_quantization(val) {
        return Err(ConfigError::UnsupportedQuantization(method));
    }
    let vocab_size: usize = match as_size(find(val, "vocab_size")) {
        Some(v) => v,
        None => return Err(ConfigError::MissingVocabSize),
    };
    let hidden_dim: usize = match as_size(find(val, "hidden_size")) {
        Some(v) => v,
        None => return Err(ConfigError::MissingHiddenSize),
    };
    let n_layers: usize = match as_size(find(val, "num_hidden_layers")) {
        Some(v) => v,
        None => return Err(ConfigError::MissingNumHiddenLayers),
    };
    let n_heads: usize = match as_size(find(val, "num_attention_heads")) {
        Some(v) => v,
        None => return Err(ConfigError::MissingNumAttentionHeads),
    };
    if n_heads == 0 {
        return Err(ConfigError::ZeroNumAttentionHeads);
    }
    let intermediate_dim: usize = match as_size(find(val, "intermediate_size")) {
        Some(v) => v,
        None => return Err(ConfigError::MissingIntermediateSize),
    };
    let hidden_act = match activation(val) {
        Ok(a) => a,
        Err(e) => return Err(e),
    };
    let head_dim: usize = size_default(find(val, "head_dim"), hidden_dim / n_heads);
    let rope_theta = match theta_in(val, "full_attention") {
        Some(r) => r,
        None => real_default(find(val, "rope_theta"), Real::Single(ROPE_THETA_DEFAULT)),
    };
    let tie_word_embeddings = match as_bool(find(val, "tie_word_embeddings")) {
        Some(b) => b,
        None => false,
    };
    let vb = first(
        get(val, "vision_config"),
        first(
            get(val, "vision_config_dict"),
            first(get(val, "image_config"), get(val, "multimodal_config")),
        ),
    );
    let sees_it = vb.is_some() || any_key_with(val, "vision_") || any_key_with(val, "image_")
        || any_key_with(val, "video_") || any_key_with(val, "multimodal_");
    let ab = first(get(val, "audio_config"), get(val, "audio_config_dict"));
    let hears_it = ab.is_some() || any_key_with(val, "audio_");
    let gemma_model = is_gemma(val);
    let projector_type = if vb.is_some() {
        owned_text(get_in(vb, "projector_type"))
    } else if sees_it {
        owned_text(get(val, "projector_type"))
    } else {
        None
    };
    let meta = ModelMeta {
        vocab_size,
        hidden_dim,
        n_layers,
        n_heads,
        n_kv_heads: size_default(find(val, "num_key_value_heads"), n_heads),
        head_dim,
        intermediate_dim,
        max_seq_len: size_default(find(val, "max_position_embeddings"), 2048),
        rope_theta,
        weight_dtype: weight_dtype(val),
        rms_norm_eps: real_default(find(val, "rms_norm_eps"), Real::Single(EPS_DEFAULT)),
        tie_word_embeddings,
        hidden_act,
        no_rope_layers: no_rope_flags(val, n_layers),
        has_vision_encoder: sees_it,
        vision_hidden_dim: encoder_field(
            vb,
            sees_it,
            first(get_in(vb, "hidden_size"), get_in(vb, "hidden_dim")),
            first(get(val, "vision_hidden_size"), get(val, "vision_hidden_dim")),
        ),
        vision_patch_size: encoder_field(
            vb,
            sees_it,
            get_in(vb, "patch_size"),
            get(val, "vision_patch_size"),
        ),
        vision_image_size: encoder_field(
            vb,
            sees_it,
            get_in(vb, "image_size"),
            get(val, "vision_image_size"),
        ),
        vision_num_layers: encoder_field(
            vb,
            sees_it,
            first(get_in(vb, "num_hidden_layers"), get_in(vb, "num_layers")),
            first(get(val, "vision_num_hidden_layers"), get(val, "vision_num_layers")),
        ),
        vision_num_heads: encoder_field(
            vb,
            sees_it,
            first(get_in(vb, "num_attention_heads"), get_in(vb, "num_heads")),
            first(get(val, "vision_num_attention_heads"), get(val, "vision_num_heads")),
        ),
        vision_projection_dim: encoder_field(
            vb,
            sees_it,
            first(get_in(vb, "projection_dim"), get_in(vb, "projection_size")),
            get(val, "vision_projection_dim"),
        ),
        spatial_merge_size: encoder_field(
            vb,
            sees_it,
            get_in(vb, "spatial_merge_size"),
            get(val, "spatial_merge_size"),
        ),
        is_deepstack_layers: bool_flags(get_in(vb, "is_deepstack_layers")),
        projector_type,
        has_audio_encoder: hears_it,
        audio_hidden_dim: encoder_field(
            ab,
            hears_it,
            first(
                first(get_in(ab, "hidden_size"), get_in(ab, "hidden_dim")),
                get_in(ab, "d_model"),
            ),
            first(get(val, "audio_hidden_size"), get(val, "audio_hidden_dim")),
        ),
        audio_block_count: encoder_field(
            ab,
            hears_it,
            first(
                first(get_in(ab, "num_hidden_layers"), get_in(ab, "num_layers")),
                get_in(ab, "encoder_layers"),
            ),
            first(get(val, "audio_num_hidden_layers"), get(val, "audio_num_layers")),
        ),
        audio_embedding_length: encoder_field(
            ab,
            hears_it,
            first(get_in(ab, "embedding_length"), get_in(ab, "hidden_size")),
            get(val, "audio_embedding_length"),
        ),
        audio_num_mel_bins: encoder_field(
            ab,
            hears_it,
            first(get_in(ab, "num_mel_bins"), get_in(ab, "n_mels")),
            get(val, "audio_num_mel_bins"),
        ),
        shared_kv_layers: as_size(find(val, "num_kv_shared_layers")),
        sliding_window_pattern: sliding_flags(val),
        sliding_window: as_size(find(val, "sliding_window")),
        key_length: as_size(find(val, "global_head_dim")),
        key_length_swa: Some(head_dim),
        rope_theta_swa: theta_in(val, "sliding_attention"),
        final_logit_softcapping: as_real(find(val, "final_logit_softcapping")),
        is_gemma: gemma_model,
        ple_dim: as_size(find(val, "hidden_size_per_layer_input")),
        embed_scale: if gemma_model {
            Some(Real::SqrtOf(hidden_dim))
        } else {
            None
        },
        arch: model_type_text(val),
        chat_template: None,
        eos_token_str: if gemma_model {
            Some("<end_of_turn>".to_string())
        } else {
            None
        },
    };
    Ok(meta)
}

/// Reads the model's metadata out of the text of its `config.json`.
pub fn parse_config(contents: &str) -> (r: Result<ModelMeta, ConfigError>)
    ensures
        match parsed_json(contents@) {
            None => r matches Err(ConfigError::NotJson(_)),
            Some(val) => match r {
                Ok(meta) => problem(val) is None && meta@ == meta_of(val),
                Err(e) => problem(val) == Some(e@),
            },
        },
{
    match parse_json(contents) {
        Ok(val) => config_from(&val),
        Err(e) => Err(ConfigError::NotJson(e)),
    }
}

/// Two descriptions agree in what the text decoder is built from.
pub open spec fn same_decoder(
    a: ModelMeta<Text, Seq<bool>>,
    b: ModelMeta<Text, Seq<bool>>,
) -> bool {
    &&& a.vocab_size == b.vocab_size
    &&& a.hidden_dim == b.hidden_dim
    &&& a.n_layers == b.n_layers
    &&& a.n_heads == b.n_heads
    &&& a.n_kv_heads == b.n_kv_heads
    &&& a.head_dim == b.head_dim
    &&& a.intermediate_dim == b.intermediate_dim
    &&& a.max_seq_len == b.max_seq_len
    &&& a.rope_theta == b.rope_theta
    &&& a.rms_norm_eps == b.rms_norm_eps
    &&& a.hidden_act == b.hidden_act
    &&& a.weight_dtype == b.weight_dtype
    &&& a.tie_word_embeddings == b.tie_word_embeddings
}

/// A key that the text decoder is described by, which may stand at the top level
/// or under `text_config`.
pub open spec fn decoder_key(key: Text) -> bool {
    key == "vocab_size"@ || key == "hidden_size"@ || key == "num_hidden_layers"@ || key
        == "num_attention_heads"@ || key == "num_key_value_heads"@ || key == "head_dim"@ || key
        == "intermediate_size"@ || key == "max_position_embeddings"@ || key == "rope_parameters"@
        || key == "rope_theta"@ || key == "rms_norm_eps"@ || key == "hidden_act"@ || key
        == "hidden_activation"@ || key == "torch_dtype"@ || key == "dtype"@ || key
        == "tie_word_embeddings"@
}

/// Configurations that look alike under these keys have the same problem, but
/// for their quantization, or describe the same decoder.
proof fn lemma_lookups_decide(a: Json, b: Json)
    requires
        forall|key: Text| decoder_key(key) ==> #[trigger] lookup(a, key) == lookup(b, key),
    ensures
        same_decoder(meta_of(a), meta_of(b)),
        quant_method(a) == quant_method(b) ==> problem(a) == problem(b),
        quant_method(b) is None && problem(a) is None ==> problem(b) is None,
{
    assert(lookup(a, "vocab_size"@) == lookup(b, "vocab_size"@));
    assert(lookup(a, "hidden_size"@) == lookup(b, "hidden_size"@));
    assert(lookup(a, "num_hidden_layers"@) == lookup(b, "num_hidden_layers"@));
    assert(lookup(a, "num_attention_heads"@) == lookup(b, "num_attention_heads"@));
    assert(lookup(a, "num_key_value_heads"@) == lookup(b, "num_key_value_heads"@));
    assert(lookup(a, "head_dim"@) == lookup(b, "head_dim"@));
    assert(lookup(a, "intermediate_size"@) == lookup(b, "intermediate_size"@));
    assert(lookup(a, "max_position_embeddings"@) == lookup(b, "max_position_embeddings"@));
    assert(lookup(a, "rope_parameters"@) == lookup(b, "rope_parameters"@));
    assert(lookup(a, "rope_theta"@) == lookup(b, "rope_theta"@));
    assert(lookup(a, "rms_norm_eps"@) == lookup(b, "rms_norm_eps"@));
    assert(lookup(a, "hidden_act"@) == lookup(b, "hidden_act"@));
    assert(lookup(a, "hidden_activation"@) == lookup(b, "hidden_activation"@));
    assert(lookup(a, "torch_dtype"@) == lookup(b, "torch_dtype"@));
    assert(lookup(a, "dtype"@) == lookup(b, "dtype"@));
    assert(lookup(a, "tie_word_embeddings"@) == lookup(b, "tie_word_embeddings"@));
}

/// `text_config` is none of the decoder's keys, nor that of the quantization.
proof fn lemma_text_config_apart()
    ensures
        !decoder_key("text_config"@),
        "quantization_config"@ != "text_config"@,
{
    reveal_strlit("text_config");
    reveal_strlit("quantization_config");
    reveal_strlit("vocab_size");
    reveal_strlit("hidden_size");
    reveal_strlit("num_hidden_layers");
    reveal_strlit("num_attention_heads");
    reveal_strlit("num_key_value_heads");
    reveal_strlit("head_dim");
    reveal_strlit("intermediate_size");
    reveal_strlit("max_position_embeddings");
    reveal_strlit("rope_parameters");
    reveal_strlit("rope_theta");
    reveal_strlit("rms_norm_eps");
    reveal_strlit("hidden_act");
    reveal_strlit("hidden_activation");
    reveal_strlit("torch_dtype");
    reveal_strlit("dtype");
    reveal_strlit("tie_word_embeddings");
    assert("hidden_size"@[0] != "text_config"@[0]);
    assert("torch_dtype"@[1] != "text_config"@[1]);
}

/// The configuration holds `text_config` and nothing else.
pub open spec fn only_text_config(val: Json, inner: Json) -> bool {
    val matches Json::Object(entries) && entries@.len() == 1 && entries@[0].0@ == "text_config"@
        && entries@[0].1 == inner
}

/// A decoder's configuration reads the same under `text_config` as at the top
/// level: what is usable there is usable here, and describes the same decoder.
pub proof fn law_text_config_reads_alike(inner: Json, outer: Json)
    requires
        only_text_config(outer, inner),
        field(inner, "text_config"@) is None,
        problem(inner) is None,
    ensures
        problem(outer) is None,
        same_decoder(meta_of(outer), meta_of(inner)),
{
    lemma_text_config_apart();
    reveal_with_fuel(entry, 2);
    assert(field(outer, "text_config"@) == Some(inner));
    assert forall|key: Text| decoder_key(key) implies #[trigger] lookup(inner, key) == lookup(
        outer,
        key,
    ) by {
        assert(field(outer, key) is None);
    }
    assert(field(outer, "quantization_config"@) is None);
    lemma_lookups_decide(inner, outer);
}

/// A key at the top level counts, whatever `text_config` says: configurations
/// that agree at the top level, and under `text_config` in the keys that the top
/// level does not have, are the same.
pub proof fn law_top_level_wins(a: Json, b: Json)
    requires
        forall|key: Text| key != "text_config"@ ==> #[trigger] field(a, key) == field(b, key),
        forall|key: Text|
            field(a, key) is None ==> #[trigger] field_of(field(a, "text_config"@), key)
                == field_of(field(b, "text_config"@), key),
    ensures
        forall|key: Text|
            decoder_key(key) && field(a, key) is Some ==> #[trigger] lookup(a, key) == field(
                a,
                key,
            ),
        problem(a) == problem(b),
        same_decoder(meta_of(a), meta_of(b)),
{
    lemma_text_config_apart();
    assert forall|key: Text| decoder_key(key) implies #[trigger] lookup(a, key) == lookup(
        b,
        key,
    ) by {
        assert(field(a, key) == field(b, key));
    }
    assert(field(a, "quantization_config"@) == field(b, "quantization_config"@));
    lemma_lookups_decide(a, b);
}

/// What a configuration has under a key of the decoder: at the top level, or else
/// among the keys of `text_config`.
pub open spec fn under(val: Json, key: Text) -> Option<Json> {
    if field(val, key) is Some {
        field(val, key)
    } else {
        match field(val, "text_config"@) {
            Some(inner) => field(inner, key),
            None => None,
        }
    }
}

/// The whole number that a value is.
pub open spec fn whole(v: Option<Json>) -> Option<usize> {
    match v {
        Some(Json::Number(n)) => match n.unsigned {
            Some(u) => Some(u as usize),
            None => None,
        },
        _ => None,
    }
}

/// The number that a value is.
pub open spec fn number(v: Option<Json>) -> Option<Real> {
    match v {
        Some(Json::Number(n)) => match n.double {
            Some(bits) => Some(Real::Double(bits)),
            None => None,
        },
        _ => None,
    }
}

/// The text that a value is.
pub open spec fn written(v: Option<Json>) -> Option<Text> {
    match v {
        Some(Json::Str(s)) => Some(s@),
        _ => None,
    }
}

/// `m` holds the whole number that the configuration has, or else what it is
/// taken to be.
pub open spec fn takes(v: Option<Json>, m: usize, otherwise: usize) -> bool {
    (whole(v) matches Some(n) ==> m == n) && (whole(v) is None ==> m == otherwise)
}

/// `m` holds the number that the configuration has, or else what it is taken to
/// be.
pub open spec fn takes_real(v: Option<Json>, m: Real, otherwise: Real) -> bool {
    (number(v) matches Some(n) ==> m == n) && (number(v) is None ==> m == otherwise)
}

/// Every part of a decoder's description is what the configuration has under the
/// part's own key, and what is missing is made up from the others: as many
/// key and value heads as heads, heads that share the hidden size evenly, 2048
/// positions, a rope base of 10000 and an epsilon of `1e-5`. The bases for the
/// two kinds of attention come first where they are given.
pub proof fn law_config_is_read(val: Json)
    requires
        problem(val) is None,
    ensures
        ({
            let m = meta_of(val);
            let base = under(val, "rope_parameters"@);
            let full = number(field_of(field_of(base, "full_attention"@), "rope_theta"@));
            &&& whole(under(val, "vocab_size"@)) == Some(m.vocab_size)
            &&& whole(under(val, "hidden_size"@)) == Some(m.hidden_dim)
            &&& whole(under(val, "num_hidden_layers"@)) == Some(m.n_layers)
            &&& whole(under(val, "num_attention_heads"@)) == Some(m.n_heads)
            &&& whole(under(val, "intermediate_size"@)) == Some(m.intermediate_dim)
            &&& takes(under(val, "num_key_value_heads"@), m.n_kv_heads, m.n_heads)
            &&& m.n_heads > 0
            &&& takes(under(val, "head_dim"@), m.head_dim, (m.hidden_dim / m.n_heads) as usize)
            &&& takes(under(val, "max_position_embeddings"@), m.max_seq_len, 2048)
            &&& full matches Some(theta) ==> m.rope_theta == theta
            &&& full is None ==> takes_real(
                under(val, "rope_theta"@),
                m.rope_theta,
                Real::Single(0x461C4000),
            )
            &&& m.rope_theta_swa == number(
                field_of(field_of(base, "sliding_attention"@), "rope_theta"@),
            )
            &&& takes_real(under(val, "rms_norm_eps"@), m.rms_norm_eps, Real::Single(0x3727C5AC))
            &&& m.tie_word_embeddings == (under(val, "tie_word_embeddings"@) == Some(
                Json::Bool(true),
            ))
            &&& m.shared_kv_layers == whole(under(val, "num_kv_shared_layers"@))
            &&& m.sliding_window == whole(under(val, "sliding_window"@))
            &&& m.key_length == whole(under(val, "global_head_dim"@))
            &&& m.key_length_swa == Some(m.head_dim)
            &&& m.final_logit_softcapping == number(under(val, "final_logit_softcapping"@))
            &&& m.ple_dim == whole(under(val, "hidden_size_per_layer_input"@))
            &&& m.chat_template is None
        }),
{
}

/// The activation is the one that the configuration names: of the GeLU family
/// where the name says so, else SiLU, which is also called swish.
pub proof fn law_activation_is_read(val: Json)
    requires
        problem(val) is None,
    ensures
        ({
            let v = if under(val, "hidden_act"@) is Some {
                under(val, "hidden_act"@)
            } else {
                under(val, "hidden_activation"@)
            };
            written(v) matches Some(name) && {
                &&& has(name, "gelu"@) <==> meta_of(val).hidden_act is GeLU
                &&& meta_of(val).hidden_act is SiLU ==> has(name, "silu"@) || has(name, "swish"@)
            }
        }),
{
}

/// The element type is the one that the configuration names, and half precision
/// where it names none that is known.
pub proof fn law_dtype_is_read(val: Json)
    ensures
        ({
            let v = if under(val, "torch_dtype"@) is Some {
                under(val, "torch_dtype"@)
            } else {
                under(val, "dtype"@)
            };
            let dtype = meta_of(val).weight_dtype;
            &&& written(v) == Some("float32"@) ==> dtype == WeightDtype::F32
            &&& written(v) == Some("bfloat16"@) ==> dtype == WeightDtype::BF16
            &&& written(v) != Some("float32"@) && written(v) != Some("bfloat16"@) ==> dtype
                == WeightDtype::F16
        }),
{
    reveal_strlit("float32");
    reveal_strlit("bfloat16");
    assert("float32"@.len() == 7);
    assert("bfloat16"@.len() == 8);
}

/// A configuration is refused for what it lacks, and for nothing else: the first
/// of the keys that every decoder has, in this order, after a packing that
/// cannot be unpacked.
pub proof fn law_config_is_refused(val: Json)
    ensures
        ({
            let packed = field(val, "quantization_config"@) matches Some(q) && (match written(
                field(q, "quant_method"@),
            ) {
                Some(m) => lowercase(m) == "bitsandbytes"@ || lowercase(m) == "bnb"@ || lowercase(m)
                    == "bnb_4bit"@,
                None => unpackable("unknown"@),
            });
            let act = if under(val, "hidden_act"@) is Some {
                under(val, "hidden_act"@)
            } else {
                under(val, "hidden_activation"@)
            };
            let p = problem(val);
            &&& packed == (p matches Some(ConfigError::UnsupportedQuantization(_)))
            &&& !packed && whole(under(val, "vocab_size"@)) is None <==> p == Some(
                ConfigError::<Text>::MissingVocabSize,
            )
            &&& p == Some(ConfigError::<Text>::MissingHiddenSize) ==> whole(
                under(val, "hidden_size"@),
            ) is None
            &&& p == Some(ConfigError::<Text>::MissingNumHiddenLayers) ==> whole(
                under(val, "num_hidden_layers"@),
            ) is None
            &&& p == Some(ConfigError::<Text>::MissingNumAttentionHeads) ==> whole(
                under(val, "num_attention_heads"@),
            ) is None
            &&& p == Some(ConfigError::<Text>::ZeroNumAttentionHeads) ==> whole(
                under(val, "num_attention_heads"@),
            ) == Some(0usize)
            &&& p == Some(ConfigError::<Text>::MissingIntermediateSize) ==> whole(
                under(val, "intermediate_size"@),
            ) is None
            &&& p matches Some(ConfigError::UnknownHiddenAct(name)) ==> written(act) == Some(name)
                && !(has(name, "gelu"@)) && !(has(name, "silu"@)) && !(has(
                name,
                "swish"@,
            ))
            &&& p == Some(ConfigError::<Text>::MissingHiddenAct) ==> written(act) is None
            &&& !(p matches Some(ConfigError::NotJson(_)))
        }),
{
}

/// The first of the blocks that describe an encoder.
pub open spec fn first_block(a: Option<Json>, b: Option<Json>) -> Option<Json> {
    if a is Some {
        a
    } else {
        b
    }
}

/// A part of an encoder is the whole number under its key in the encoder's block,
/// or under the other key that it may have there. Without a block it is the
/// one under its key at the top level.
pub open spec fn encoder_part(
    block: Option<Json>,
    present: bool,
    inner: Option<Json>,
    outer: Option<Json>,
    part: Option<usize>,
) -> bool {
    &&& block is Some ==> part == whole(inner)
    &&& block is None && present ==> part == whole(outer)
    &&& !present ==> part is None
}

/// The vision encoder is described by its block, or by keys at the top level that
/// begin like one; each part by its own key.
pub proof fn law_vision_is_read(val: Json)
    ensures
        ({
            let m = meta_of(val);
            let b = first_block(
                field(val, "vision_config"@),
                first_block(
                    field(val, "vision_config_dict"@),
                    first_block(field(val, "image_config"@), field(val, "multimodal_config"@)),
                ),
            );
            let seen = m.has_vision_encoder;
            &&& seen == (b is Some || has_key_with(val, "vision_"@) || has_key_with(val, "image_"@)
                || has_key_with(val, "video_"@) || has_key_with(val, "multimodal_"@))
            &&& encoder_part(
                b,
                seen,
                first_block(field_of(b, "hidden_size"@), field_of(b, "hidden_dim"@)),
                first_block(field(val, "vision_hidden_size"@), field(val, "vision_hidden_dim"@)),
                m.vision_hidden_dim,
            )
            &&& encoder_part(
                b,
                seen,
                field_of(b, "patch_size"@),
                field(val, "vision_patch_size"@),
                m.vision_patch_size,
            )
            &&& encoder_part(
                b,
                seen,
                field_of(b, "image_size"@),
                field(val, "vision_image_size"@),
                m.vision_image_size,
            )
            &&& encoder_part(
                b,
                seen,
                first_block(field_of(b, "num_hidden_layers"@), field_of(b, "num_layers"@)),
                first_block(
                    field(val, "vision_num_hidden_layers"@),
                    field(val, "vision_num_layers"@),
                ),
                m.vision_num_layers,
            )
            &&& encoder_part(
                b,
                seen,
                first_block(field_of(b, "num_attention_heads"@), field_of(b, "num_heads"@)),
                first_block(
                    field(val, "vision_num_attention_heads"@),
                    field(val, "vision_num_heads"@),
                ),
                m.vision_num_heads,
            )
            &&& encoder_part(
                b,
                seen,
                first_block(field_of(b, "projection_dim"@), field_of(b, "projection_size"@)),
                field(val, "vision_projection_dim"@),
                m.vision_projection_dim,
            )
            &&& encoder_part(
                b,
                seen,
                field_of(b, "spatial_merge_size"@),
                field(val, "spatial_merge_size"@),
                m.spatial_merge_size,
            )
            &&& b is Some ==> m.projector_type == written(field_of(b, "projector_type"@))
            &&& b is None && seen ==> m.projector_type == written(field(val, "projector_type"@))
            &&& !seen ==> m.projector_type is None
            &&& match field_of(b, "is_deepstack_layers"@) {
                Some(Json::Array(a)) => m.is_deepstack_layers matches Some(flags) && flags.len()
                    == a@.len() && forall|i: int|
                    0 <= i < a@.len() ==> #[trigger] flags[i] == (a@[i] == Json::Bool(true)),
                _ => m.is_deepstack_layers is None,
            }
        }),
{
    let a = field_of(vision_block(val), "is_deepstack_layers"@);
    if let Some(Json::Array(items)) = a {
        let flags = meta_of(val).is_deepstack_layers->0;
        assert forall|i: int| 0 <= i < items@.len() implies #[trigger] flags[i] == (items@[i]
            == Json::Bool(true)) by {}
    }
}

/// The audio encoder is described by its block, or by keys at the top level that
/// begin like one; each part by its own key.
pub proof fn law_audio_is_read(val: Json)
    ensures
        ({
            let m = meta_of(val);
            let b = first_block(field(val, "audio_config"@), field(val, "audio_config_dict"@));
            let heard = m.has_audio_encoder;
            &&& heard == (b is Some || has_key_with(val, "audio_"@))
            &&& encoder_part(
                b,
                heard,
                first_block(
                    field_of(b, "hidden_size"@),
                    first_block(field_of(b, "hidden_dim"@), field_of(b, "d_model"@)),
                ),
                first_block(field(val, "audio_hidden_size"@), field(val, "audio_hidden_dim"@)),
                m.audio_hidden_dim,
            )
            &&& encoder_part(
                b,
                heard,
                first_block(
                    field_of(b, "num_hidden_layers"@),
                    first_block(field_of(b, "num_layers"@), field_of(b, "encoder_layers"@)),
                ),
                first_block(
                    field(val, "audio_num_hidden_layers"@),
                    field(val, "audio_num_layers"@),
                ),
                m.audio_block_count,
            )
            &&& encoder_part(
                b,
                heard,
                first_block(field_of(b, "embedding_length"@), field_of(b, "hidden_size"@)),
                field(val, "audio_embedding_length"@),
                m.audio_embedding_length,
            )
            &&& encoder_part(
                b,
                heard,
                first_block(field_of(b, "num_mel_bins"@), field_of(b, "n_mels"@)),
                field(val, "audio_num_mel_bins"@),
                m.audio_num_mel_bins,
            )
        }),
{
}

/// Layers are marked as the lists say: those that go without position by a truth
/// value or a number other than zero, none where there is no list; those that
/// attend within the window by the name of their kind.
pub proof fn law_layer_marks_are_read(val: Json)
    ensures
        ({
            let m = meta_of(val);
            &&& match field(val, "no_rope_layers"@) {
                Some(Json::Array(a)) => m.no_rope_layers.len() == a@.len() && forall|i: int|
                    0 <= i < a@.len() ==> {
                        &&& a@[i] == Json::Bool(true) ==> #[trigger] m.no_rope_layers[i]
                        &&& a@[i] == Json::Bool(false) ==> !m.no_rope_layers[i]
                        &&& a@[i] matches Json::Number(n) ==> {
                            &&& n.signed matches Some(k) ==> m.no_rope_layers[i] == (k != 0)
                            &&& n.signed is None && n.unsigned is Some ==> m.no_rope_layers[i] == (
                            n.unsigned != Some(0u64))
                        }
                        &&& a@[i] is Str || a@[i] is Null || a@[i] is Array || a@[i] is Object
                            ==> !m.no_rope_layers[i]
                    },
                _ => m.no_rope_layers.len() == m.n_layers && forall|i: int|
                    0 <= i < m.n_layers ==> !#[trigger] m.no_rope_layers[i],
            }
            &&& match under(val, "layer_types"@) {
                Some(Json::Array(a)) => m.sliding_window_pattern matches Some(flags) && flags.len()
                    == a@.len() && forall|i: int|
                    0 <= i < a@.len() ==> #[trigger] flags[i] == (written(Some(a@[i])) == Some(
                        "sliding_attention"@,
                    )),
                _ => m.sliding_window_pattern is None,
            }
        }),
{
    if let Some(Json::Array(a)) = under(val, "layer_types"@) {
        let flags = meta_of(val).sliding_window_pattern->0;
        assert forall|i: int| 0 <= i < a@.len() implies #[trigger] flags[i] == (written(
            Some(a@[i]),
        ) == Some("sliding_attention"@)) by {}
    }
}

/// A model of the Gemma family is told by its type or one of its architectures,
/// and then scales its embeddings by the root of the hidden size and ends turns
/// in its own way.
pub proof fn law_family_is_read(val: Json)
    ensures
        ({
            let m = meta_of(val);
            let kind = written(field(val, "model_type"@));
            &&& m.arch == (match kind {
                Some(t) => t,
                None => ""@,
            })
            &&& kind matches Some(t) ==> (has(t, "gemma"@) || has(t, "Gemma"@) ==> m.is_gemma)
            &&& field(val, "architectures"@) matches Some(Json::Array(a)) ==> forall|i: int|
                0 <= i < a@.len() && #[trigger] a@[i] is Str && (has(a@[i]->Str_0@, "gemma"@) || has(
                    a@[i]->Str_0@,
                    "Gemma"@,
                )) ==> m.is_gemma
            &&& m.is_gemma ==> m.embed_scale == Some(Real::SqrtOf(m.hidden_dim)) && m.eos_token_str
                == Some("<end_of_turn>"@)
            &&& !m.is_gemma ==> m.embed_scale is None && m.eos_token_str is None
            &&& m.is_gemma ==> has(m.arch, "gemma"@) || has(m.arch, "Gemma"@) || array_of(
                field(val, "architectures"@),
            ) is Some
        }),
{
    reveal_strlit("");
    assert(""@ =~= Seq::<char>::empty());
    if let Some(Json::Array(a)) = field(val, "architectures"@) {
        assert forall|i: int| 0 <= i < a@.len() && #[trigger] a@[i] is Str implies names_in(
            a@,
        ).contains(a@[i]->Str_0@) by {
            lemma_named(a@, i);
        }
        let names = names_in(a@);
        assert forall|i: int|
            0 <= i < a@.len() && #[trigger] a@[i] is Str && mentions_gemma(
                a@[i]->Str_0@,
            ) implies gemma(val) by {
            let k = choose|k: int| 0 <= k < names.len() && names[k] == a@[i]->Str_0@;
            assert(mentions_gemma(names[k]));
        }
    }
}

proof fn lemma_named(a: Seq<Json>, i: int)
    requires
        0 <= i < a.len(),
        a[i] is Str,
    ensures
        names_in(a).contains(a[i]->Str_0@),
    decreases a.len(),
{
    let rest = names_in(a.drop_last());
    if i == a.len() - 1 {
        assert(names_in(a)[rest.len() as int] == a[i]->Str_0@);
    } else {
        lemma_named(a.drop_last(), i);
        let k = choose|k: int| 0 <= k < rest.len() && rest[k] == a[i]->Str_0@;
        assert(names_in(a)[k] == a[i]->Str_0@);
    }
}

/// What a user is told names the key that is missing, or what the
/// configuration says that cannot be used.
pub proof fn law_reports_name_the_cause(what: Text)
    ensures
        error_text(ConfigError::MissingVocabSize) == "vocab_size missing from config"@,
        error_text(ConfigError::MissingHiddenSize) == "hidden_size missing from config"@,
        error_text(ConfigError::MissingNumHiddenLayers)
            == "num_hidden_layers missing from config"@,
        error_text(ConfigError::MissingNumAttentionHeads)
            == "num_attention_heads missing from config"@,
        error_text(ConfigError::MissingIntermediateSize)
            == "intermediate_size missing from config"@,
        error_text(ConfigError::NotJson(what)) == "Failed to parse config.json: "@ + what,
        begins(
            error_text(ConfigError::UnsupportedQuantization(what)),
            "this model is pre-quantized with '"@ + what + "'"@,
        ),
        begins(
            error_text(ConfigError::UnknownHiddenAct(what)),
            "config.json's hidden_act = \""@ + what + "\""@,
        ),
{
    reveal_strlit("'");
    reveal_strlit("\"");
    reveal_strlit("', which llm-rs does not yet support (no dequantization kernel for this packed-weight format) - use a GGUF-quantized version of this model instead, or its unquantized/F16 safetensors version");
    reveal_strlit("\" is not a recognized activation function (this codebase currently supports SiLU and GeLU variants only) - defaulting silently here would run the wrong MLP math with no warning");
    let a = "this model is pre-quantized with '"@ + what + "'"@;
    let b = "config.json's hidden_act = \""@ + what + "\""@;
    let x = error_text(ConfigError::UnsupportedQuantization(what));
    let y = error_text(ConfigError::UnknownHiddenAct(what));
    assert(x.subrange(0, a.len() as int) =~= a);
    assert(y.subrange(0, b.len() as int) =~= b);
}

} // verus!
