//! A model's description, out of the metadata of a GGUF file.
use vstd::prelude::*;
use crate::backends::vision::{clear_flags, flags_of_items, no_flags};
use crate::backends::weights::{
    find_meta_key, first_ending, key_for, meta_f32_agnostic, meta_u32, meta_u32_agnostic,
    real_under, u32_at, u32_under, value_at, GgufMeta,
};
use crate::loader::gguf::{metas, GgufValue, Meta};
use crate::names::{distinct, NameMap};
use crate::text::{contains, ends, has, lowercase, same, to_lowercase, Text};
use crate::types::{
    is_gemma_arch, is_gemma_name, HiddenAct, ModelMeta, Real, WeightDtype, EPS_QK_NORM,
    ROPE_THETA_DEFAULT,
};

verus! {

/// What a model file has to say and does not.
#[derive(Debug, Clone, Copy, PartialEq, Eq, Structural)]
pub enum GgufMetaError {
    NoArchitecture,
    NoTokens,
    NoBlockCount,
    NoEmbeddingLength,
    NoFeedForwardLength,
    NoHeadCount,
}

/// The dimensions of each tensor of the file, by name.
pub type Shapes = NameMap<Vec<usize>>;

/// A value as text, if it is one.
pub open spec fn text_in(v: Option<Meta>) -> Option<Text> {
    match v {
        Some(Meta::String(s)) => Some(s),
        _ => None,
    }
}

/// A value as flags, if it is an array; what is no flag is not set.
pub open spec fn flags_in(v: Option<Meta>) -> Option<Seq<bool>> {
    match v {
        Some(Meta::Array(items)) => Some(items.map_values(|v: Meta| v == Meta::Bool(true))),
        _ => None,
    }
}

/// `a`, or `b` where there is no `a`.
pub open spec fn or_meta(a: Option<Meta>, b: Option<Meta>) -> Option<Meta> {
    match a {
        Some(_) => a,
        None => b,
    }
}

/// The value under `key`, of the model or else of the projector.
pub open spec fn either(main: GgufMeta, projector: GgufMeta, key: Text) -> Option<Meta> {
    or_meta(value_at(main, key), value_at(projector, key))
}

/// A 32-bit number as a size.
pub open spec fn as_size(v: Option<u32>) -> Option<usize> {
    match v {
        Some(n) => Some(n as usize),
        None => None,
    }
}

/// The size under `key`, of the model or else of the projector.
pub open spec fn size_at(main: GgufMeta, projector: GgufMeta, key: Text) -> Option<usize> {
    match u32_at(main, key) {
        Some(n) => Some(n as usize),
        None => as_size(u32_at(projector, key)),
    }
}

/// The size under the key that `suffix` stands for.
pub open spec fn size_under(main: GgufMeta, suffix: Text) -> Option<usize> {
    as_size(u32_under(main, suffix))
}

/// The value under the key that `suffix` stands for.
pub open spec fn value_under(main: GgufMeta, suffix: Text) -> Option<Meta> {
    match key_for(main, suffix) {
        Some(key) => value_at(main, key),
        None => None,
    }
}

/// A number, or single precision `bits` where there is none.
pub open spec fn real_or(v: Option<Real>, bits: u32) -> Real {
    match v {
        Some(r) => r,
        None => Real::Single(bits),
    }
}

/// The first dimension of the first of the two tensors that is there.
pub open spec fn query_dim(shapes: Shapes) -> Option<usize> {
    if shapes@.contains_key("blk.0.attn_q.weight"@) {
        Some(shapes@["blk.0.attn_q.weight"@]@[0])
    } else if shapes@.contains_key("blk.0.attn_q"@) {
        Some(shapes@["blk.0.attn_q"@]@[0])
    } else {
        None
    }
}

/// The output head has a tensor of its own.
pub open spec fn has_head(shapes: Shapes) -> bool {
    shapes@.contains_key("output.weight"@) || shapes@.contains_key("lm_head.weight"@)
}

/// The activation that the model names, or the family's own.
pub open spec fn activation(named: Option<Text>, gemma: bool) -> HiddenAct {
    let family = if gemma {
        HiddenAct::GeLU
    } else {
        HiddenAct::SiLU
    };
    match named {
        Some(s) => {
            let low = lowercase(s);
            if has(low, "gelu"@) {
                HiddenAct::GeLU
            } else if has(low, "silu"@) || has(low, "swiglu"@) {
                HiddenAct::SiLU
            } else {
                family
            }
        },
        None => family,
    }
}

/// The text that ends a turn: the family's own, or what the chat template
/// writes.
pub open spec fn turn_end(gemma: bool, template: Option<Text>) -> Option<Text> {
    if gemma {
        Some("<end_of_turn>"@)
    } else {
        match template {
            Some(t) => if has(t, "<|im_end|>"@) {
                Some("<|im_end|>"@)
            } else if has(t, "</s>"@) {
                Some("</s>"@)
            } else {
                None
            },
            None => None,
        }
    }
}

/// The first thing that is missing.
pub open spec fn problem(main: GgufMeta) -> Option<GgufMetaError> {
    if text_in(value_at(main, "general.architecture"@)) is None {
        Some(GgufMetaError::NoArchitecture)
    } else if !(value_at(main, "tokenizer.ggml.tokens"@) matches Some(Meta::Array(_))) {
        Some(GgufMetaError::NoTokens)
    } else if u32_under(main, "block_count"@) is None {
        Some(GgufMetaError::NoBlockCount)
    } else if u32_under(main, "embedding_length"@) is None {
        Some(GgufMetaError::NoEmbeddingLength)
    } else if u32_under(main, "feed_forward_length"@) is None {
        Some(GgufMetaError::NoFeedForwardLength)
    } else if u32_under(main, "attention.head_count"@) is None {
        Some(GgufMetaError::NoHeadCount)
    } else {
        None
    }
}

/// The size of one attention head: from the query projection's shape, or the
/// key length, or the model's width over its heads.
pub open spec fn head_size(main: GgufMeta, shapes: Shapes) -> usize {
    let heads = u32_under(main, "attention.head_count"@)->0;
    match query_dim(shapes) {
        Some(d) => d / (heads as usize),
        None => match u32_under(main, "attention.key_length"@) {
            Some(n) => n as usize,
            None => (u32_under(main, "embedding_length"@)->0 / heads) as usize,
        },
    }
}

/// The description, where nothing is missing.
pub open spec fn described(main: GgufMeta, projector: GgufMeta, shapes: Shapes) -> ModelMeta<
    Text,
    Seq<bool>,
> {
    let arch = text_in(value_at(main, "general.architecture"@))->0;
    let gemma = is_gemma_name(arch, Seq::empty());
    let template = text_in(value_at(main, "tokenizer.chat_template"@));
    let layers = u32_under(main, "block_count"@)->0 as usize;
    let hidden = u32_under(main, "embedding_length"@)->0 as usize;
    let heads = u32_under(main, "attention.head_count"@)->0 as usize;
    ModelMeta {
        vocab_size: value_at(main, "tokenizer.ggml.tokens"@)->0->Array_0.len() as usize,
        hidden_dim: hidden,
        n_layers: layers,
        n_heads: heads,
        n_kv_heads: match u32_under(main, "attention.head_count_kv"@) {
            Some(n) => n as usize,
            None => heads,
        },
        head_dim: head_size(main, shapes),
        intermediate_dim: u32_under(main, "feed_forward_length"@)->0 as usize,
        max_seq_len: match u32_under(main, "context_length"@) {
            Some(n) => n as usize,
            None => 4096,
        },
        rope_theta: real_or(real_under(main, "rope.freq_base"@), ROPE_THETA_DEFAULT),
        weight_dtype: WeightDtype::F32,
        rms_norm_eps: real_or(
            real_under(main, "attention.layer_norm_rms_epsilon"@),
            EPS_QK_NORM,
        ),
        tie_word_embeddings: gemma || !has_head(shapes),
        hidden_act: activation(text_in(value_under(main, "feed_forward_type"@)), gemma),
        no_rope_layers: no_flags(layers as nat),
        has_vision_encoder: either(main, projector, "clip.has_vision_encoder"@) == Some(
            Meta::Bool(true),
        ),
        has_audio_encoder: either(main, projector, "clip.has_audio_encoder"@) == Some(
            Meta::Bool(true),
        ),
        audio_hidden_dim: size_at(main, projector, "clip.audio.embedding_length"@),
        audio_block_count: size_at(main, projector, "clip.audio.block_count"@),
        audio_embedding_length: size_at(main, projector, "clip.audio.embedding_length"@),
        audio_num_mel_bins: size_at(main, projector, "clip.audio.num_mel_bins"@),
        vision_hidden_dim: size_at(main, projector, "clip.vision.embedding_length"@),
        vision_patch_size: size_at(main, projector, "clip.vision.patch_size"@),
        vision_image_size: size_at(main, projector, "clip.vision.image_size"@),
        vision_num_layers: size_at(main, projector, "clip.vision.block_count"@),
        vision_num_heads: size_at(main, projector, "clip.vision.attention.head_count"@),
        vision_projection_dim: size_at(main, projector, "clip.vision.projection_dim"@),
        spatial_merge_size: size_at(main, projector, "clip.vision.spatial_merge_size"@),
        is_deepstack_layers: flags_in(
            either(main, projector, "clip.vision.is_deepstack_layers"@),
        ),
        projector_type: text_in(
            or_meta(
                either(main, projector, "clip.vision.projector_type"@),
                either(main, projector, "clip.projector_type"@),
            ),
        ),
        sliding_window_pattern: flags_in(value_under(main, "attention.sliding_window_pattern"@)),
        shared_kv_layers: size_under(main, "attention.shared_kv_layers"@),
        sliding_window: size_under(main, "attention.sliding_window"@),
        key_length: size_under(main, "attention.key_length"@),
        key_length_swa: size_under(main, "attention.key_length_swa"@),
        ple_dim: size_under(main, "embedding_length_per_layer_input"@),
        rope_theta_swa: real_under(main, "rope.freq_base_swa"@),
        final_logit_softcapping: real_under(main, "final_logit_softcapping"@),
        is_gemma: gemma,
        embed_scale: if gemma {
            Some(Real::SqrtOf(hidden))
        } else {
            None
        },
        arch,
        chat_template: template,
        eos_token_str: turn_end(gemma, template),
    }
}

fn read_text(v: Option<&GgufValue>) -> (r: Option<String>)
    ensures
        match r {
            Some(s) => v matches Some(m) && text_in(Some(m.meta())) == Some(s@),
            None => v matches Some(m) ==> text_in(Some(m.meta())) is None,
        },
{
    match v {
        Some(GgufValue::String(s)) => Some(s.clone()),
        _ => None,
    }
}

fn read_flags(v: Option<&GgufValue>) -> (r: Option<Vec<bool>>)
    ensures
        match r {
            Some(f) => v matches Some(m) && flags_in(Some(m.meta())) == Some(f@),
            None => v matches Some(m) ==> flags_in(Some(m.meta())) is None,
        },
{
    match v {
        Some(GgufValue::Array(items)) => {
            assert(GgufValue::Array(*items).meta()->Array_0 =~= metas(items@));
            Some(flags_of_items(items))
        },
        _ => None,
    }
}

fn first_value<'a>(main: &'a GgufMeta, projector: &'a GgufMeta, key: &str) -> (r: Option<
    &'a GgufValue,
>)
    ensures
        match r {
            Some(v) => either(*main, *projector, key@) == Some(v.meta()),
            None => either(*main, *projector, key@) is None,
        },
{
    match main.get(key) {
        Some(v) => Some(v),
        None => projector.get(key),
    }
}

fn read_flag(main: &GgufMeta, projector: &GgufMeta, key: &str) -> (b: bool)
    ensures
        b == (either(*main, *projector, key@) == Some(Meta::Bool(true))),
{
    match first_value(main, projector, key) {
        Some(GgufValue::Bool(b)) => *b,
        _ => false,
    }
}

fn to_size(v: Option<u32>) -> (r: Option<usize>)
    ensures
        r == as_size(v),
{
    match v {
        Some(n) => Some(n as usize),
        None => None,
    }
}

fn read_size(main: &GgufMeta, projector: &GgufMeta, key: &str) -> (r: Option<usize>)
    ensures
        r == size_at(*main, *projector, key@),
{
    match meta_u32(main, key) {
        Some(n) => Some(n as usize),
        None => to_size(meta_u32(projector, key)),
    }
}

fn find_size(main: &GgufMeta, suffix: &str) -> (r: Option<usize>)
    ensures
        r == size_under(*main, suffix@),
{
    to_size(meta_u32_agnostic(main, suffix))
}

fn find_value<'a>(main: &'a GgufMeta, suffix: &str) -> (r: Option<&'a GgufValue>)
    ensures
        match r {
            Some(v) => value_under(*main, suffix@) == Some(v.meta()),
            None => value_under(*main, suffix@) is None,
        },
{
    match find_meta_key(main, suffix) {
        Some(key) => main.get(&key),
        None => None,
    }
}

fn read_real(main: &GgufMeta, suffix: &str, bits: u32) -> (r: Real)
    ensures
        r == real_or(real_under(*main, suffix@), bits),
{
    match meta_f32_agnostic(main, suffix) {
        Some(r) => r,
        None => Real::Single(bits),
    }
}

fn read_activation(named: Option<String>, gemma: bool) -> (a: HiddenAct)
    ensures
        named matches Some(s) ==> a == activation(Some(s@), gemma),
        named is None ==> a == activation(None, gemma),
{
    if let Some(s) = named {
        let low = to_lowercase(&s);
        if contains(&low, "gelu") {
            return HiddenAct::GeLU;
        }
        if contains(&low, "silu") || contains(&low, "swiglu") {
            return HiddenAct::SiLU;
        }
    }
    if gemma {
        HiddenAct::GeLU
    } else {
        HiddenAct::SiLU
    }
}

fn read_turn_end(gemma: bool, template: &Option<String>) -> (r: Option<String>)
    ensures
        ({
            let t = match *template {
                Some(s) => Some(s@),
                None => None,
            };
            match r {
                Some(s) => turn_end(gemma, t) == Some(s@),
                None => turn_end(gemma, t) is None,
            }
        }),
{
    if gemma {
        return Some("<end_of_turn>".to_string());
    }
    match template {
        Some(t) => if contains(t, "<|im_end|>") {
            Some("<|im_end|>".to_string())
        } else if contains(t, "</s>") {
            Some("</s>".to_string())
        } else {
            None
        },
        None => None,
    }
}

fn read_projector(main: &GgufMeta, projector: &GgufMeta) -> (r: Option<String>)
    ensures
        ({
            let v = or_meta(
                either(*main, *projector, "clip.vision.projector_type"@),
                either(*main, *projector, "clip.projector_type"@),
            );
            match r {
                Some(s) => text_in(v) == Some(s@),
                None => text_in(v) is None,
            }
        }),
{
    match first_value(main, projector, "clip.vision.projector_type") {
        Some(v) => read_text(Some(v)),
        None => read_text(first_value(main, projector, "clip.projector_type")),
    }
}

fn read_head_size(main: &GgufMeta, shapes: &Shapes, hidden: u32, heads: u32) -> (d: usize)
    requires
        heads != 0,
        u32_under(*main, "embedding_length"@) == Some(hidden),
        u32_under(*main, "attention.head_count"@) == Some(heads),
        shapes@.contains_key("blk.0.attn_q.weight"@) ==> shapes@["blk.0.attn_q.weight"@]@.len() > 0,
        shapes@.contains_key("blk.0.attn_q"@) ==> shapes@["blk.0.attn_q"@]@.len() > 0,
    ensures
        d == head_size(*main, *shapes),
{
    match shapes.get("blk.0.attn_q.weight") {
        Some(dims) => dims[0] / heads as usize,
        None => match shapes.get("blk.0.attn_q") {
            Some(dims) => dims[0] / heads as usize,
            None => match meta_u32_agnostic(main, "attention.key_length") {
                Some(n) => n as usize,
                None => (hidden / heads) as usize,
            },
        },
    }
}

/// The description of the model in a GGUF file with metadata `main`, whose
/// tensors have the given shapes; `projector` is the metadata of the file that
/// holds the image and audio towers, empty where there is none. What a real
/// model must say of itself is not guessed.
pub fn model_from_gguf(main: &GgufMeta, projector: &GgufMeta, shapes: &Shapes) -> (r: Result<
    ModelMeta,
    GgufMetaError,
>)
    requires
        u32_under(*main, "attention.head_count"@) != Some(0u32),
        shapes@.contains_key("blk.0.attn_q.weight"@) ==> shapes@["blk.0.attn_q.weight"@]@.len() > 0,
        shapes@.contains_key("blk.0.attn_q"@) ==> shapes@["blk.0.attn_q"@]@.len() > 0,
    ensures
        match r {
            Ok(meta) => problem(*main) is None && meta@ == described(*main, *projector, *shapes),
            Err(e) => problem(*main) == Some(e),
        },
{
    let arch = match read_text(main.get("general.architecture")) {
        Some(s) => s,
        None => return Err(GgufMetaError::NoArchitecture),
    };
    let vocab_size: usize = match main.get("tokenizer.ggml.tokens") {
        Some(GgufValue::Array(items)) => items.len(),
        _ => return Err(GgufMetaError::NoTokens),
    };
    let layers = match meta_u32_agnostic(main, "block_count") {
        Some(n) => n,
        None => return Err(GgufMetaError::NoBlockCount),
    };
    let hidden = match meta_u32_agnostic(main, "embedding_length") {
        Some(n) => n,
        None => return Err(GgufMetaError::NoEmbeddingLength),
    };
    let feed_forward = match meta_u32_agnostic(main, "feed_forward_length") {
        Some(n) => n,
        None => return Err(GgufMetaError::NoFeedForwardLength),
    };
    let heads = match meta_u32_agnostic(main, "attention.head_count") {
        Some(n) => n,
        None => return Err(GgufMetaError::NoHeadCount),
    };
    let none: [String; 0] = [];
    let gemma = is_gemma_arch(&arch, &none);
    assert(crate::text::texts(none@) =~= Seq::<Text>::empty());
    let template = read_text(main.get("tokenizer.chat_template"));
    let turn = read_turn_end(gemma, &template);
    let head = shapes.contains_key("output.weight") || shapes.contains_key("lm_head.weight");
    Ok(ModelMeta {
        vocab_size,
        hidden_dim: hidden as usize,
        n_layers: layers as usize,
        n_heads: heads as usize,
        n_kv_heads: match meta_u32_agnostic(main, "attention.head_count_kv") {
            Some(n) => n as usize,
            None => heads as usize,
        },
        head_dim: read_head_size(main, shapes, hidden, heads),
        intermediate_dim: feed_forward as usize,
        max_seq_len: match meta_u32_agnostic(main, "context_length") {
            Some(n) => n as usize,
            None => 4096,
        },
        rope_theta: read_real(main, "rope.freq_base", ROPE_THETA_DEFAULT),
        weight_dtype: WeightDtype::F32,
        rms_norm_eps: read_real(main, "attention.layer_norm_rms_epsilon", EPS_QK_NORM),
        tie_word_embeddings: gemma || !head,
        hidden_act: read_activation(read_text(find_value(main, "feed_forward_type")), gemma),
        no_rope_layers: clear_flags(layers as usize),
        has_vision_encoder: read_flag(main, projector, "clip.has_vision_encoder"),
        has_audio_encoder: read_flag(main, projector, "clip.has_audio_encoder"),
        audio_hidden_dim: read_size(main, projector, "clip.audio.embedding_length"),
        audio_block_count: read_size(main, projector, "clip.audio.block_count"),
        audio_embedding_length: read_size(main, projector, "clip.audio.embedding_length"),
        audio_num_mel_bins: read_size(main, projector, "clip.audio.num_mel_bins"),
        vision_hidden_dim: read_size(main, projector, "clip.vision.embedding_length"),
        vision_patch_size: read_size(main, projector, "clip.vision.patch_size"),
        vision_image_size: read_size(main, projector, "clip.vision.image_size"),
        vision_num_layers: read_size(main, projector, "clip.vision.block_count"),
        vision_num_heads: read_size(main, projector, "clip.vision.attention.head_count"),
        vision_projection_dim: read_size(main, projector, "clip.vision.projection_dim"),
        spatial_merge_size: read_size(main, projector, "clip.vision.spatial_merge_size"),
        is_deepstack_layers: read_flags(
            first_value(main, projector, "clip.vision.is_deepstack_layers"),
        ),
        projector_type: read_projector(main, projector),
        sliding_window_pattern: read_flags(find_value(main, "attention.sliding_window_pattern")),
        shared_kv_layers: find_size(main, "attention.shared_kv_layers"),
        sliding_window: find_size(main, "attention.sliding_window"),
        key_length: find_size(main, "attention.key_length"),
        key_length_swa: find_size(main, "attention.key_length_swa"),
        ple_dim: find_size(main, "embedding_length_per_layer_input"),
        rope_theta_swa: meta_f32_agnostic(main, "rope.freq_base_swa"),
        final_logit_softcapping: meta_f32_agnostic(main, "final_logit_softcapping"),
        is_gemma: gemma,
        embed_scale: if gemma {
            Some(Real::SqrtOf(hidden as usize))
        } else {
            None
        },
        arch,
        chat_template: template,
        eos_token_str: turn,
    })
}

/// The texts that end a turn in the vocabularies of common models.
pub open spec fn gguf_ends() -> Seq<Text> {
    seq!["<end_of_turn>"@, "<|im_end|>"@, "<|endoftext|>"@, "</s>"@]
}

/// Where `word` first stands in a vocabulary.
pub open spec fn place_in(tokens: Seq<Meta>, word: Text, n: nat) -> Option<int>
    decreases n,
{
    if n == 0 || n > tokens.len() {
        None
    } else {
        match place_in(tokens, word, (n - 1) as nat) {
            Some(i) => Some(i),
            None => if tokens[n - 1] == Meta::String(word) {
                Some(n - 1)
            } else {
                None
            },
        }
    }
}

/// Where the first of the candidates stands that stands anywhere.
pub open spec fn first_placed(tokens: Seq<Meta>, candidates: Seq<Text>) -> Option<int>
    decreases candidates.len(),
{
    if candidates.len() == 0 {
        None
    } else {
        match place_in(tokens, candidates[0], tokens.len()) {
            Some(i) => Some(i),
            None => first_placed(tokens, candidates.skip(1)),
        }
    }
}

/// The token that ends a text, by its place in the vocabulary.
pub open spec fn end_in_tokens(main: GgufMeta, candidates: Seq<Text>) -> Option<u32> {
    match value_at(main, "tokenizer.ggml.tokens"@) {
        Some(Meta::Array(tokens)) => match first_placed(tokens, candidates) {
            Some(i) => Some(i as u32),
            None => None,
        },
        _ => None,
    }
}

proof fn lemma_place_stays(tokens: Seq<Meta>, word: Text, n: nat, m: nat)
    requires
        n <= m <= tokens.len(),
        place_in(tokens, word, n) is Some,
    ensures
        place_in(tokens, word, m) == place_in(tokens, word, n),
    decreases m,
{
    if n < m {
        lemma_place_stays(tokens, word, n, (m - 1) as nat);
    }
}

fn place_of_token(items: &Vec<GgufValue>, word: &str) -> (r: Option<usize>)
    ensures
        match r {
            Some(i) => place_in(metas(items@), word@, items@.len()) == Some(i as int),
            None => place_in(metas(items@), word@, items@.len()) is None,
        },
{
    let mut i: usize = 0;
    while i < items.len()
        invariant
            i <= items@.len(),
            place_in(metas(items@), word@, i as nat) is None,
        decreases items@.len() - i,
    {
        assert(metas(items@)[i as int] == items@[i as int].meta());
        let found = match &items[i] {
            GgufValue::String(s) => same(s, word),
            _ => false,
        };
        if found {
            proof {
                lemma_place_stays(metas(items@), word@, (i + 1) as nat, items@.len());
            }
            return Some(i);
        }
        i += 1;
    }
    None
}

/// The text of each candidate.
pub open spec fn words(candidates: Seq<&str>) -> Seq<Text> {
    candidates.map_values(|c: &str| c@)
}

/// The end-of-text token by its place in the vocabulary: where the first of
/// the candidates stands that stands there at all.
pub fn find_eos_in_gguf_tokens(main: &GgufMeta, candidates: &[&str]) -> (r: Option<u32>)
    ensures
        r == end_in_tokens(*main, words(candidates@)),
{
    let items = match main.get("tokenizer.ggml.tokens") {
        Some(GgufValue::Array(items)) => items,
        _ => return None,
    };
    assert(GgufValue::Array(*items).meta()->Array_0 =~= metas(items@));
    let ghost tokens = metas(items@);
    let mut k: usize = 0;
    assert(words(candidates@).skip(0) =~= words(candidates@));
    while k < candidates.len()
        invariant
            k <= candidates@.len(),
            tokens == metas(items@),
            first_placed(tokens, words(candidates@)) == first_placed(
                tokens,
                words(candidates@).skip(k as int),
            ),
            value_at(*main, "tokenizer.ggml.tokens"@) == Some(Meta::Array(tokens)),
        decreases candidates@.len() - k,
    {
        let ghost rest = words(candidates@).skip(k as int);
        assert(rest[0] == candidates@[k as int]@);
        assert(rest.skip(1) =~= words(candidates@).skip(k + 1));
        if let Some(i) = place_of_token(items, candidates[k]) {
            return Some(i as u32);
        }
        k += 1;
    }
    assert(words(candidates@).skip(k as int) =~= Seq::<Text>::empty());
    None
}

/// The end-of-text token of a GGUF file: what the metadata says, or else the
/// place of a common end-of-turn text. It is not guessed.
pub fn eos_from_gguf(main: &GgufMeta) -> (r: Option<u32>)
    ensures
        r == match u32_at(*main, "tokenizer.ggml.eos_token_id"@) {
            Some(id) => Some(id),
            None => end_in_tokens(*main, gguf_ends()),
        },
{
    match meta_u32(main, "tokenizer.ggml.eos_token_id") {
        Some(id) => Some(id),
        None => {
            let candidates = ["<end_of_turn>", "<|im_end|>", "<|endoftext|>", "</s>"];
            assert(words(candidates@) =~= gguf_ends());
            find_eos_in_gguf_tokens(main, &candidates)
        },
    }
}

/// An entry of the table that a suffix can stand for.
pub open spec fn answers(m: GgufMeta, suffix: Text, key: Text) -> bool {
    m@.contains_key(key) && (key == suffix || ends(key, "."@ + suffix))
}

/// The table sets what `suffix` stands for, in one entry, to `v`.
pub open spec fn set_to(m: GgufMeta, suffix: Text, v: Meta) -> bool {
    exists|key: Text|
        {
            &&& #[trigger] answers(m, suffix, key)
            &&& m@[key].meta() == v
            &&& forall|other: Text| #[trigger] answers(m, suffix, other) ==> other == key
        }
}

/// The table sets nothing that `suffix` stands for.
pub open spec fn not_set(m: GgufMeta, suffix: Text) -> bool {
    forall|key: Text| !(#[trigger] answers(m, suffix, key))
}

/// An integer value of `n`, of whatever width.
pub open spec fn is_number(v: Meta, n: u32) -> bool {
    match v {
        Meta::U8(w) => w == n,
        Meta::I8(w) => w == n,
        Meta::U16(w) => w == n,
        Meta::I16(w) => w == n,
        Meta::U32(w) => w == n,
        Meta::I32(w) => w == n,
        Meta::U64(w) => w == n,
        Meta::I64(w) => w == n,
        _ => false,
    }
}

proof fn lemma_first_stands(entries: Seq<(String, GgufValue)>, tail: Text, n: nat)
    ensures
        first_ending(entries, tail, n) matches Some(key) ==> exists|i: int|
            0 <= i < entries.len() && (#[trigger] entries[i]).0@ == key && ends(key, tail),
        first_ending(entries, tail, n) is None && n <= entries.len() ==> forall|i: int|
            0 <= i < n ==> !(ends((#[trigger] entries[i]).0@, tail)),
    decreases n,
{
    if n > 0 {
        lemma_first_stands(entries, tail, (n - 1) as nat);
    }
}

/// What the only entry that a suffix can stand for holds is what is read
/// under the suffix; without such an entry nothing is.
pub proof fn law_suffix_is_read(m: GgufMeta, suffix: Text, v: Meta)
    requires
        distinct(m.items()),
    ensures
        set_to(m, suffix, v) ==> value_under(m, suffix) == Some(v),
        not_set(m, suffix) ==> value_under(m, suffix) is None,
        set_to(m, suffix, v) ==> forall|n: u32| #[trigger]
            is_number(v, n) ==> u32_under(m, suffix) == Some(n),
        not_set(m, suffix) ==> u32_under(m, suffix) is None && real_under(m, suffix) is None,
        v matches Meta::F32(b) ==> (set_to(m, suffix, v) ==> real_under(m, suffix) == Some(
            Real::Single(b),
        )),
        v matches Meta::F64(b) ==> (set_to(m, suffix, v) ==> real_under(m, suffix) == Some(
            Real::Double(b),
        )),
{
    let tail = "."@ + suffix;
    m.lemma_items();
    lemma_first_stands(m.items(), tail, m.items().len());
    if key_for(m, suffix) is Some {
        assert(answers(m, suffix, key_for(m, suffix)->0));
    }
    if set_to(m, suffix, v) {
        let key = choose|key: Text|
            {
                &&& #[trigger] answers(m, suffix, key)
                &&& m@[key].meta() == v
                &&& forall|other: Text| #[trigger] answers(m, suffix, other) ==> other == key
            };
        if key_for(m, suffix) is None {
            let i = choose|i: int|
                0 <= i < m.items().len() && (#[trigger] m.items()[i]).0@ == key;
            assert(!(ends(m.items()[i].0@, tail)));
        }
        assert(key_for(m, suffix) == Some(key));
    }
}

/// Each size of the model is what its own entry says, whatever the
/// architecture in front of the key; one that is not set has the value that
/// stands in for it, or none.
pub proof fn law_sizes_are_read(
    main: GgufMeta,
    projector: GgufMeta,
    shapes: Shapes,
    v: Meta,
    n: u32,
)
    requires
        distinct(main.items()),
        is_number(v, n),
    ensures
        ({
            let m = described(main, projector, shapes);
            &&& set_to(main, "block_count"@, v) ==> m.n_layers == n
            &&& set_to(main, "embedding_length"@, v) ==> m.hidden_dim == n
            &&& set_to(main, "feed_forward_length"@, v) ==> m.intermediate_dim == n
            &&& set_to(main, "attention.head_count"@, v) ==> m.n_heads == n
            &&& set_to(main, "attention.head_count_kv"@, v) ==> m.n_kv_heads == n
            &&& not_set(main, "attention.head_count_kv"@) ==> m.n_kv_heads == m.n_heads
            &&& set_to(main, "context_length"@, v) ==> m.max_seq_len == n
            &&& not_set(main, "context_length"@) ==> m.max_seq_len == 4096
            &&& set_to(main, "attention.shared_kv_layers"@, v) ==> m.shared_kv_layers == Some(n as usize)
            &&& not_set(main, "attention.shared_kv_layers"@) ==> m.shared_kv_layers is None
            &&& set_to(main, "attention.sliding_window"@, v) ==> m.sliding_window == Some(n as usize)
            &&& not_set(main, "attention.sliding_window"@) ==> m.sliding_window is None
            &&& set_to(main, "attention.key_length"@, v) ==> m.key_length == Some(n as usize)
            &&& not_set(main, "attention.key_length"@) ==> m.key_length is None
            &&& set_to(main, "attention.key_length_swa"@, v) ==> m.key_length_swa == Some(n as usize)
            &&& not_set(main, "attention.key_length_swa"@) ==> m.key_length_swa is None
            &&& set_to(main, "embedding_length_per_layer_input"@, v) ==> m.ple_dim == Some(n as usize)
            &&& not_set(main, "embedding_length_per_layer_input"@) ==> m.ple_dim is None
        }),
{
    law_suffix_is_read(main, "block_count"@, v);
    law_suffix_is_read(main, "embedding_length"@, v);
    law_suffix_is_read(main, "feed_forward_length"@, v);
    law_suffix_is_read(main, "attention.head_count"@, v);
    law_suffix_is_read(main, "attention.shared_kv_layers"@, v);
    law_suffix_is_read(main, "attention.sliding_window"@, v);
    law_suffix_is_read(main, "attention.key_length"@, v);
    law_suffix_is_read(main, "attention.key_length_swa"@, v);
    law_suffix_is_read(main, "embedding_length_per_layer_input"@, v);
    law_suffix_is_read(main, "attention.head_count_kv"@, v);
    law_suffix_is_read(main, "context_length"@, v);
}

/// Each number of the model is what its own entry says; without one the base
/// of the positions is 10000 and the epsilon of the norms is one millionth.
pub proof fn law_numbers_are_read(main: GgufMeta, projector: GgufMeta, shapes: Shapes, b: u32)
    requires
        distinct(main.items()),
    ensures
        ({
            let m = described(main, projector, shapes);
            let v = Meta::F32(b);
            let own = Real::Single(b);
            &&& set_to(main, "rope.freq_base"@, v) ==> m.rope_theta == own
            &&& not_set(main, "rope.freq_base"@) ==> m.rope_theta == Real::Single(0x461C4000)
            &&& set_to(main, "attention.layer_norm_rms_epsilon"@, v) ==> m.rms_norm_eps == own
            &&& not_set(main, "attention.layer_norm_rms_epsilon"@) ==> m.rms_norm_eps
                == Real::Single(0x358637BD)
            &&& set_to(main, "rope.freq_base_swa"@, v) ==> m.rope_theta_swa == Some(own)
            &&& not_set(main, "rope.freq_base_swa"@) ==> m.rope_theta_swa is None
            &&& set_to(main, "final_logit_softcapping"@, v) ==> m.final_logit_softcapping == Some(own)
            &&& not_set(main, "final_logit_softcapping"@) ==> m.final_logit_softcapping is None
        }),
{
    let v = Meta::F32(b);
    law_suffix_is_read(main, "rope.freq_base"@, v);
    law_suffix_is_read(main, "attention.layer_norm_rms_epsilon"@, v);
    law_suffix_is_read(main, "rope.freq_base_swa"@, v);
    law_suffix_is_read(main, "final_logit_softcapping"@, v);
}

/// What is set of the image and audio towers in the model's own table counts,
/// and otherwise what the projector's table sets.
pub proof fn law_towers_are_read(
    main: GgufMeta,
    projector: GgufMeta,
    shapes: Shapes,
    v: Meta,
    n: u32,
)
    requires
        is_number(v, n),
    ensures
        ({
            let m = described(main, projector, shapes);
            &&& value_at(main, "clip.audio.embedding_length"@) == Some(v) ==> m.audio_hidden_dim == Some(n as usize)
            &&& value_at(main, "clip.audio.embedding_length"@) is None && value_at(projector, "clip.audio.embedding_length"@) == Some(v) ==> m.audio_hidden_dim == Some(n as usize)
            &&& value_at(main, "clip.audio.embedding_length"@) is None && value_at(projector, "clip.audio.embedding_length"@) is None ==> m.audio_hidden_dim is None
            &&& value_at(main, "clip.audio.block_count"@) == Some(v) ==> m.audio_block_count == Some(n as usize)
            &&& value_at(main, "clip.audio.block_count"@) is None && value_at(projector, "clip.audio.block_count"@) == Some(v) ==> m.audio_block_count == Some(n as usize)
            &&& value_at(main, "clip.audio.block_count"@) is None && value_at(projector, "clip.audio.block_count"@) is None ==> m.audio_block_count is None
            &&& value_at(main, "clip.audio.embedding_length"@) == Some(v) ==> m.audio_embedding_length == Some(n as usize)
            &&& value_at(main, "clip.audio.embedding_length"@) is None && value_at(projector, "clip.audio.embedding_length"@) == Some(v) ==> m.audio_embedding_length == Some(n as usize)
            &&& value_at(main, "clip.audio.embedding_length"@) is None && value_at(projector, "clip.audio.embedding_length"@) is None ==> m.audio_embedding_length is None
            &&& value_at(main, "clip.audio.num_mel_bins"@) == Some(v) ==> m.audio_num_mel_bins == Some(n as usize)
            &&& value_at(main, "clip.audio.num_mel_bins"@) is None && value_at(projector, "clip.audio.num_mel_bins"@) == Some(v) ==> m.audio_num_mel_bins == Some(n as usize)
            &&& value_at(main, "clip.audio.num_mel_bins"@) is None && value_at(projector, "clip.audio.num_mel_bins"@) is None ==> m.audio_num_mel_bins is None
            &&& value_at(main, "clip.vision.embedding_length"@) == Some(v) ==> m.vision_hidden_dim == Some(n as usize)
            &&& value_at(main, "clip.vision.embedding_length"@) is None && value_at(projector, "clip.vision.embedding_length"@) == Some(v) ==> m.vision_hidden_dim == Some(n as usize)
            &&& value_at(main, "clip.vision.embedding_length"@) is None && value_at(projector, "clip.vision.embedding_length"@) is None ==> m.vision_hidden_dim is None
            &&& value_at(main, "clip.vision.patch_size"@) == Some(v) ==> m.vision_patch_size == Some(n as usize)
            &&& value_at(main, "clip.vision.patch_size"@) is None && value_at(projector, "clip.vision.patch_size"@) == Some(v) ==> m.vision_patch_size == Some(n as usize)
            &&& value_at(main, "clip.vision.patch_size"@) is None && value_at(projector, "clip.vision.patch_size"@) is None ==> m.vision_patch_size is None
            &&& value_at(main, "clip.vision.image_size"@) == Some(v) ==> m.vision_image_size == Some(n as usize)
            &&& value_at(main, "clip.vision.image_size"@) is None && value_at(projector, "clip.vision.image_size"@) == Some(v) ==> m.vision_image_size == Some(n as usize)
            &&& value_at(main, "clip.vision.image_size"@) is None && value_at(projector, "clip.vision.image_size"@) is None ==> m.vision_image_size is None
            &&& value_at(main, "clip.vision.block_count"@) == Some(v) ==> m.vision_num_layers == Some(n as usize)
            &&& value_at(main, "clip.vision.block_count"@) is None && value_at(projector, "clip.vision.block_count"@) == Some(v) ==> m.vision_num_layers == Some(n as usize)
            &&& value_at(main, "clip.vision.block_count"@) is None && value_at(projector, "clip.vision.block_count"@) is None ==> m.vision_num_layers is None
            &&& value_at(main, "clip.vision.attention.head_count"@) == Some(v) ==> m.vision_num_heads == Some(n as usize)
            &&& value_at(main, "clip.vision.attention.head_count"@) is None && value_at(projector, "clip.vision.attention.head_count"@) == Some(v) ==> m.vision_num_heads == Some(n as usize)
            &&& value_at(main, "clip.vision.attention.head_count"@) is None && value_at(projector, "clip.vision.attention.head_count"@) is None ==> m.vision_num_heads is None
            &&& value_at(main, "clip.vision.projection_dim"@) == Some(v) ==> m.vision_projection_dim == Some(n as usize)
            &&& value_at(main, "clip.vision.projection_dim"@) is None && value_at(projector, "clip.vision.projection_dim"@) == Some(v) ==> m.vision_projection_dim == Some(n as usize)
            &&& value_at(main, "clip.vision.projection_dim"@) is None && value_at(projector, "clip.vision.projection_dim"@) is None ==> m.vision_projection_dim is None
            &&& value_at(main, "clip.vision.spatial_merge_size"@) == Some(v) ==> m.spatial_merge_size == Some(n as usize)
            &&& value_at(main, "clip.vision.spatial_merge_size"@) is None && value_at(projector, "clip.vision.spatial_merge_size"@) == Some(v) ==> m.spatial_merge_size == Some(n as usize)
            &&& value_at(main, "clip.vision.spatial_merge_size"@) is None && value_at(projector, "clip.vision.spatial_merge_size"@) is None ==> m.spatial_merge_size is None
        }),
{
}

/// A tower is there if and only if a table says so, the model's own before the
/// projector's.
pub proof fn law_tower_marks_are_read(main: GgufMeta, projector: GgufMeta, shapes: Shapes, b: bool)
    ensures
        ({
            let m = described(main, projector, shapes);
            let vision = "clip.has_vision_encoder"@;
            let audio = "clip.has_audio_encoder"@;
            &&& value_at(main, vision) == Some(Meta::Bool(b)) ==> m.has_vision_encoder == b
            &&& value_at(main, vision) is None && value_at(projector, vision) == Some(Meta::Bool(b))
                ==> m.has_vision_encoder == b
            &&& value_at(main, vision) is None && value_at(projector, vision) is None
                ==> !m.has_vision_encoder
            &&& value_at(main, audio) == Some(Meta::Bool(b)) ==> m.has_audio_encoder == b
            &&& value_at(main, audio) is None && value_at(projector, audio) == Some(Meta::Bool(b))
                ==> m.has_audio_encoder == b
            &&& value_at(main, audio) is None && value_at(projector, audio) is None
                ==> !m.has_audio_encoder
        }),
{
}

/// The texts of the model are what their entries say; a template that writes
/// a turn's end is taken at its word, but for the Gemma family.
pub proof fn law_texts_are_read(main: GgufMeta, projector: GgufMeta, shapes: Shapes, t: Text)
    ensures
        ({
            let m = described(main, projector, shapes);
            let template = value_at(main, "tokenizer.chat_template"@);
            let vision = "clip.vision.projector_type"@;
            let plain = "clip.projector_type"@;
            &&& value_at(main, "general.architecture"@) == Some(Meta::String(t)) ==> m.arch == t
            &&& template == Some(Meta::String(t)) ==> m.chat_template == Some(t)
            &&& template is None ==> m.chat_template is None
            &&& m.is_gemma ==> m.eos_token_str == Some("<end_of_turn>"@)
            &&& !m.is_gemma && template == Some(Meta::String(t)) && has(t, "<|im_end|>"@)
                ==> m.eos_token_str == Some("<|im_end|>"@)
            &&& !m.is_gemma && template == Some(Meta::String(t)) && !(has(t, "<|im_end|>"@)) && has(
                t,
                "</s>"@,
            ) ==> m.eos_token_str == Some("</s>"@)
            &&& !m.is_gemma && template == Some(Meta::String(t)) && !(has(t, "<|im_end|>"@))
                && !(has(t, "</s>"@)) ==> m.eos_token_str is None
            &&& !m.is_gemma && template is None ==> m.eos_token_str is None
            &&& value_at(main, vision) == Some(Meta::String(t)) ==> m.projector_type == Some(t)
            &&& value_at(main, vision) is None && value_at(projector, vision) == Some(
                Meta::String(t),
            ) ==> m.projector_type == Some(t)
            &&& value_at(main, vision) is None && value_at(projector, vision) is None && value_at(
                main,
                plain,
            ) == Some(Meta::String(t)) ==> m.projector_type == Some(t)
            &&& value_at(main, vision) is None && value_at(projector, vision) is None && value_at(
                main,
                plain,
            ) is None && value_at(projector, plain) == Some(Meta::String(t)) ==> m.projector_type
                == Some(t)
        }),
{
}

/// What the family decides: Gemma models share the embedding with the output
/// head, scale it by the root of their width and use GeLU unless told
/// otherwise; other models share it if and only if the file has no head of its
/// own, do not scale it and use SiLU.
pub proof fn law_family_is_read(main: GgufMeta, projector: GgufMeta, shapes: Shapes)
    requires
        distinct(main.items()),
    ensures
        ({
            let m = described(main, projector, shapes);
            let head = shapes@.contains_key("output.weight"@) || shapes@.contains_key(
                "lm_head.weight"@,
            );
            &&& m.is_gemma <==> has(m.arch, "gemma"@) || has(m.arch, "Gemma"@)
            &&& m.tie_word_embeddings <==> m.is_gemma || !head
            &&& m.is_gemma ==> m.embed_scale == Some(Real::SqrtOf(m.hidden_dim))
            &&& !m.is_gemma ==> m.embed_scale is None
            &&& not_set(main, "feed_forward_type"@) ==> (m.is_gemma <==> m.hidden_act
                == HiddenAct::GeLU)
            &&& not_set(main, "feed_forward_type"@) ==> (!m.is_gemma <==> m.hidden_act
                == HiddenAct::SiLU)
            &&& m.weight_dtype == WeightDtype::F32
            &&& m.no_rope_layers.len() == m.n_layers
            &&& forall|i: int| 0 <= i < m.n_layers ==> !(#[trigger] m.no_rope_layers[i])
        }),
{
    law_suffix_is_read(main, "feed_forward_type"@, Meta::Bool(true));
}

/// The activation that a model names is the one that it gets.
pub proof fn law_activation_is_read(
    main: GgufMeta,
    projector: GgufMeta,
    shapes: Shapes,
    named: Text,
)
    requires
        distinct(main.items()),
        set_to(main, "feed_forward_type"@, Meta::String(named)),
    ensures
        ({
            let act = described(main, projector, shapes).hidden_act;
            let low = lowercase(named);
            &&& has(low, "gelu"@) ==> act == HiddenAct::GeLU
            &&& !(has(low, "gelu"@)) && (has(low, "silu"@) || has(low, "swiglu"@)) ==> act
                == HiddenAct::SiLU
        }),
{
    law_suffix_is_read(main, "feed_forward_type"@, Meta::String(named));
}

/// The vocabulary has as many tokens as the file lists, and a head is as wide
/// as the queries of the first block, shared out over the heads; without them
/// as the key length says, or as the model's width shared out.
pub proof fn law_shapes_are_read(
    main: GgufMeta,
    projector: GgufMeta,
    shapes: Shapes,
    tokens: Seq<Meta>,
    v: Meta,
    n: u32,
)
    requires
        distinct(main.items()),
        is_number(v, n),
        tokens.len() <= usize::MAX,
    ensures
        ({
            let m = described(main, projector, shapes);
            let q = "blk.0.attn_q.weight"@;
            let bare = "blk.0.attn_q"@;
            &&& value_at(main, "tokenizer.ggml.tokens"@) == Some(Meta::Array(tokens))
                ==> m.vocab_size == tokens.len()
            &&& problem(main) is None && m.n_heads > 0 ==> {
                &&& shapes@.contains_key(q) ==> m.head_dim == shapes@[q]@[0] / m.n_heads
                &&& !(shapes@.contains_key(q)) && shapes@.contains_key(bare) ==> m.head_dim
                    == shapes@[bare]@[0] / m.n_heads
                &&& !(shapes@.contains_key(q)) && !(shapes@.contains_key(bare)) && set_to(
                    main,
                    "attention.key_length"@,
                    v,
                ) ==> m.head_dim == n
                &&& !(shapes@.contains_key(q)) && !(shapes@.contains_key(bare)) && not_set(
                    main,
                    "attention.key_length"@,
                ) ==> m.head_dim == m.hidden_dim / m.n_heads
            }
        }),
{
    law_suffix_is_read(main, "attention.key_length"@, v);
}

/// A table that does not say what a model must say is refused, with the first
/// thing that is missing.
pub proof fn law_missing_is_told(main: GgufMeta, v: Meta, n: u32)
    requires
        distinct(main.items()),
        is_number(v, n),
    ensures
        value_at(main, "general.architecture"@) is None ==> problem(main) == Some(
            GgufMetaError::NoArchitecture,
        ),
        problem(main) == Some(GgufMetaError::NoTokens) ==> !(value_at(main, "tokenizer.ggml.tokens"@)
            matches Some(Meta::Array(_))),
        problem(main) == Some(GgufMetaError::NoBlockCount) ==> !(set_to(main, "block_count"@, v)),
        problem(main) == Some(GgufMetaError::NoEmbeddingLength) ==> !(set_to(
            main,
            "embedding_length"@,
            v,
        )),
        problem(main) == Some(GgufMetaError::NoFeedForwardLength) ==> !(set_to(
            main,
            "feed_forward_length"@,
            v,
        )),
        problem(main) == Some(GgufMetaError::NoHeadCount) ==> !(set_to(
            main,
            "attention.head_count"@,
            v,
        )),
        not_set(main, "block_count"@) || not_set(main, "embedding_length"@) || not_set(
            main,
            "feed_forward_length"@,
        ) || not_set(main, "attention.head_count"@) || value_at(main, "tokenizer.ggml.tokens"@) is None
            ==> problem(main) is Some,
{
    law_suffix_is_read(main, "block_count"@, v);
    law_suffix_is_read(main, "embedding_length"@, v);
    law_suffix_is_read(main, "feed_forward_length"@, v);
    law_suffix_is_read(main, "attention.head_count"@, v);
}

/// The place of a word in a vocabulary is the first that holds it.
pub proof fn law_word_is_placed(tokens: Seq<Meta>, word: Text, n: nat)
    requires
        n <= tokens.len(),
    ensures
        match place_in(tokens, word, n) {
            Some(i) => 0 <= i < n && tokens[i] == Meta::String(word) && forall|j: int|
                0 <= j < i ==> #[trigger] tokens[j] != Meta::String(word),
            None => forall|j: int| 0 <= j < n ==> #[trigger] tokens[j] != Meta::String(word),
        },
    decreases n,
{
    if n > 0 {
        law_word_is_placed(tokens, word, (n - 1) as nat);
    }
}

/// The vocabulary holds the word.
pub open spec fn holds_word(tokens: Seq<Meta>, word: Text) -> bool {
    exists|i: int| 0 <= i < tokens.len() && #[trigger] tokens[i] == Meta::String(word)
}

/// Without an entry of its own the end of a text is where `<end_of_turn>`
/// stands in the vocabulary, or else `<|im_end|>`, `<|endoftext|>` or `</s>`.
pub proof fn law_end_is_found(main: GgufMeta, tokens: Seq<Meta>)
    requires
        value_at(main, "tokenizer.ggml.tokens"@) == Some(Meta::Array(tokens)),
        tokens.len() <= u32::MAX,
    ensures
        ({
            let end = end_in_tokens(main, gguf_ends());
            let a = holds_word(tokens, "<end_of_turn>"@);
            let b = holds_word(tokens, "<|im_end|>"@);
            let c = holds_word(tokens, "<|endoftext|>"@);
            let d = holds_word(tokens, "</s>"@);
            &&& end is Some <==> a || b || c || d
            &&& end matches Some(id) ==> id < tokens.len() && tokens[id as int] == Meta::String(
                if a {
                    "<end_of_turn>"@
                } else if b {
                    "<|im_end|>"@
                } else if c {
                    "<|endoftext|>"@
                } else {
                    "</s>"@
                },
            )
        }),
{
    let all = gguf_ends();
    law_word_is_placed(tokens, "<end_of_turn>"@, tokens.len());
    law_word_is_placed(tokens, "<|im_end|>"@, tokens.len());
    law_word_is_placed(tokens, "<|endoftext|>"@, tokens.len());
    law_word_is_placed(tokens, "</s>"@, tokens.len());
    let (one, two, three) = (all.skip(1), all.skip(1).skip(1), all.skip(1).skip(1).skip(1));
    assert(all[0] == "<end_of_turn>"@);
    assert(one[0] == "<|im_end|>"@);
    assert(two[0] == "<|endoftext|>"@);
    assert(three[0] == "</s>"@);
    assert(three.skip(1).len() == 0);
    assert(first_placed(tokens, three.skip(1)) is None);
    assert(first_placed(tokens, three) == place_in(tokens, three[0], tokens.len()));
    assert(first_placed(tokens, two) == (match place_in(tokens, two[0], tokens.len()) {
        Some(i) => Some(i),
        None => first_placed(tokens, three),
    }));
    assert(first_placed(tokens, one) == (match place_in(tokens, one[0], tokens.len()) {
        Some(i) => Some(i),
        None => first_placed(tokens, two),
    }));
}

/// A list of flags is read flag by flag; what is no flag is not set.
pub proof fn law_flags_are_read(
    main: GgufMeta,
    projector: GgufMeta,
    shapes: Shapes,
    items: Seq<Meta>,
)
    requires
        distinct(main.items()),
    ensures
        ({
            let m = described(main, projector, shapes);
            let key = "clip.vision.is_deepstack_layers"@;
            let own = value_at(main, key) == Some(Meta::Array(items));
            let other = value_at(main, key) is None && value_at(projector, key) == Some(
                Meta::Array(items),
            );
            &&& set_to(main, "attention.sliding_window_pattern"@, Meta::Array(items)) ==> (
            m.sliding_window_pattern matches Some(flags) && flags.len() == items.len() && forall|
                i: int,
            |
                0 <= i < items.len() ==> (#[trigger] flags[i] <==> items[i] == Meta::Bool(true)))
            &&& own || other ==> (m.is_deepstack_layers matches Some(flags) && flags.len()
                == items.len() && forall|i: int|
                0 <= i < items.len() ==> (#[trigger] flags[i] <==> items[i] == Meta::Bool(true)))
            &&& not_set(main, "attention.sliding_window_pattern"@) ==> m.sliding_window_pattern is None
            &&& value_at(main, key) is None && value_at(projector, key) is None
                ==> m.is_deepstack_layers is None
        }),
{
    law_suffix_is_read(main, "attention.sliding_window_pattern"@, Meta::Array(items));
}

/// A number that is given as a list is read as the first of the list.
pub proof fn law_first_of_list_counts(m: GgufMeta, suffix: Text, items: Seq<Meta>, n: u32, b: u32)
    requires
        distinct(m.items()),
        set_to(m, suffix, Meta::Array(items)),
        items.len() > 0,
    ensures
        items[0] == Meta::U32(n) ==> u32_under(m, suffix) == Some(n),
        items[0] == Meta::F32(b) ==> real_under(m, suffix) == Some(Real::Single(b)),
{
    law_suffix_is_read(m, suffix, Meta::Array(items));
}

} // verus!
