//! The plain data that the other modules exchange.
use vstd::prelude::*;
use crate::text::{contains, has, texts, Text};

verus! {

/// A unique identifier for a sequence within the scheduler.
/// Monotonically increasing. Never reused within a session.
pub type SeqId = u64;

/// A token identifier (index into vocabulary).
pub type TokenId = u32;

/// A physical block identifier in the paged KV pool.
pub type BlockId = u32;

/// A real number that the library carries without computing on it.
#[derive(Debug, Clone, Copy, PartialEq, Eq, Structural)]
pub enum Real {
    /// The bits of a double precision number.
    Double(u64),
    /// The bits of a single precision number.
    Single(u32),
    /// The square root of an integer.
    SqrtOf(usize),
}

/// `1e-6` in single precision.
pub const EPS_QK_NORM: u32 = 0x358637BD;

/// `1e-5` in single precision.
pub const EPS_DEFAULT: u32 = 0x3727C5AC;

/// `10000.0` in single precision.
pub const ROPE_THETA_DEFAULT: u32 = 0x461C4000;

#[derive(Debug, Clone, Copy, PartialEq, Eq, Structural)]
pub enum HiddenAct {
    SiLU,
    GeLU,
}

/// Static metadata extracted from a model's config file.
/// Populated once at load time; never mutated during inference.
///
/// `S` is how text is held and `L` how a list of flags is held: `String` and
/// `Vec<bool>` when the program runs, mathematical sequences in contracts.
#[derive(Debug, Clone)]
pub struct ModelMeta<S = String, L = Vec<bool>> {
    pub vocab_size: usize,
    pub hidden_dim: usize,
    pub n_layers: usize,
    pub n_heads: usize,
    pub n_kv_heads: usize,
    pub head_dim: usize,
    pub intermediate_dim: usize,
    pub max_seq_len: usize,
    pub rope_theta: Real,
    pub weight_dtype: WeightDtype,
    pub rms_norm_eps: Real,
    pub tie_word_embeddings: bool,
    pub hidden_act: HiddenAct,
    pub no_rope_layers: L,
    pub has_vision_encoder: bool,
    pub vision_hidden_dim: Option<usize>,
    pub vision_patch_size: Option<usize>,
    pub vision_image_size: Option<usize>,
    pub vision_num_layers: Option<usize>,
    pub vision_num_heads: Option<usize>,
    pub vision_projection_dim: Option<usize>,
    pub spatial_merge_size: Option<usize>,
    pub is_deepstack_layers: Option<L>,
    pub projector_type: Option<S>,
    pub has_audio_encoder: bool,
    pub audio_hidden_dim: Option<usize>,
    pub audio_block_count: Option<usize>,
    pub audio_embedding_length: Option<usize>,
    pub audio_num_mel_bins: Option<usize>,
    pub shared_kv_layers: Option<usize>,
    pub sliding_window_pattern: Option<L>,
    pub sliding_window: Option<usize>,
    pub key_length: Option<usize>,
    pub key_length_swa: Option<usize>,
    pub rope_theta_swa: Option<Real>,
    pub final_logit_softcapping: Option<Real>,
    pub is_gemma: bool,
    pub ple_dim: Option<usize>,
    pub embed_scale: Option<Real>,
    pub arch: S,
    pub chat_template: Option<S>,
    pub eos_token_str: Option<S>,
}

/// An optional string's text.
pub open spec fn text_opt(o: Option<String>) -> Option<Text> {
    match o {
        Some(s) => Some(s@),
        None => None,
    }
}

/// An optional list's flags.
pub open spec fn flags_opt(o: Option<Vec<bool>>) -> Option<Seq<bool>> {
    match o {
        Some(v) => Some(v@),
        None => None,
    }
}

impl View for ModelMeta {
    type V = ModelMeta<Text, Seq<bool>>;

    open spec fn view(&self) -> ModelMeta<Text, Seq<bool>> {
        ModelMeta {
            vocab_size: self.vocab_size,
            hidden_dim: self.hidden_dim,
            n_layers: self.n_layers,
            n_heads: self.n_heads,
            n_kv_heads: self.n_kv_heads,
            head_dim: self.head_dim,
            intermediate_dim: self.intermediate_dim,
            max_seq_len: self.max_seq_len,
            rope_theta: self.rope_theta,
            weight_dtype: self.weight_dtype,
            rms_norm_eps: self.rms_norm_eps,
            tie_word_embeddings: self.tie_word_embeddings,
            hidden_act: self.hidden_act,
            no_rope_layers: self.no_rope_layers@,
            has_vision_encoder: self.has_vision_encoder,
            vision_hidden_dim: self.vision_hidden_dim,
            vision_patch_size: self.vision_patch_size,
            vision_image_size: self.vision_image_size,
            vision_num_layers: self.vision_num_layers,
            vision_num_heads: self.vision_num_heads,
            vision_projection_dim: self.vision_projection_dim,
            spatial_merge_size: self.spatial_merge_size,
            is_deepstack_layers: flags_opt(self.is_deepstack_layers),
            projector_type: text_opt(self.projector_type),
            has_audio_encoder: self.has_audio_encoder,
            audio_hidden_dim: self.audio_hidden_dim,
            audio_block_count: self.audio_block_count,
            audio_embedding_length: self.audio_embedding_length,
            audio_num_mel_bins: self.audio_num_mel_bins,
            shared_kv_layers: self.shared_kv_layers,
            sliding_window_pattern: flags_opt(self.sliding_window_pattern),
            sliding_window: self.sliding_window,
            key_length: self.key_length,
            key_length_swa: self.key_length_swa,
            rope_theta_swa: self.rope_theta_swa,
            final_logit_softcapping: self.final_logit_softcapping,
            is_gemma: self.is_gemma,
            ple_dim: self.ple_dim,
            embed_scale: self.embed_scale,
            arch: self.arch@,
            chat_template: text_opt(self.chat_template),
            eos_token_str: text_opt(self.eos_token_str),
        }
    }
}

/// A name of the Gemma family.
pub open spec fn mentions_gemma(name: Text) -> bool {
    has(name, "gemma"@) || has(name, "Gemma"@)
}

/// The model type or one of the architectures is of the Gemma family.
pub open spec fn is_gemma_name(model_type: Text, architectures: Seq<Text>) -> bool {
    mentions_gemma(model_type) || exists|i: int|
        0 <= i < architectures.len() && mentions_gemma(#[trigger] architectures[i])
}

/// Whether a model belongs to the Gemma family. Shared by every loading path.
pub fn is_gemma_arch(model_type: &str, architectures: &[String]) -> (b: bool)
    ensures
        b == is_gemma_name(model_type@, texts(architectures@)),
{
    if contains(model_type, "gemma") || contains(model_type, "Gemma") {
        return true;
    }
    let mut i: usize = 0;
    while i < architectures.len()
        invariant
            i <= architectures.len(),
            forall|k: int| 0 <= k < i ==> !mentions_gemma(#[trigger] texts(architectures@)[k]),
        decreases architectures.len() - i,
    {
        let ghost name = texts(architectures@)[i as int];
        if contains(&architectures[i], "gemma") || contains(&architectures[i], "Gemma") {
            assert(mentions_gemma(name));
            return true;
        }
        i += 1;
    }
    false
}

/// Weight quantization format.
#[derive(Debug, Clone, Copy, PartialEq, Eq, Structural)]
#[allow(non_camel_case_types)]
pub enum WeightDtype {
    F32,
    F16,
    BF16,
    I8,
    /// 8-bit symmetric, scale per 32-weight block.
    Q8_0,
    /// 4-bit symmetric, scale per 32-weight block.
    Q4_0,
    /// 4-bit with k-means quantization (GGUF).
    Q4_K,
}

/// Configuration for the KV cache, derived from `ModelMeta` at load time.
#[derive(Debug, Clone, Copy, PartialEq, Eq, Structural)]
pub struct KvCacheConfig {
    pub n_layers: usize,
    pub n_kv_heads: usize,
    pub head_dim: usize,
    /// Tokens per physical block.
    pub block_size: usize,
    pub dtype: KvDtype,
}

/// KV cache element type. Independent of weight dtype.
#[derive(Debug, Clone, Copy, PartialEq, Eq, Structural)]
pub enum KvDtype {
    F16,
    BF16,
    Q8,
    Q4,
}

/// A single request from the HTTP layer to the scheduler.
#[derive(Debug, Clone)]
pub struct InferRequest {
    pub seq_id: SeqId,
    pub prompt_tokens: Vec<TokenId>,
    pub max_new_tokens: usize,
    pub sample_params: SampleParams,
}

/// Sampling hyperparameters.
#[derive(Debug, Clone, Copy, PartialEq, Eq, Structural)]
pub struct SampleParams {
    /// `0.0` is greedy.
    pub temperature: Real,
    /// Nucleus sampling threshold.
    pub top_p: Real,
    /// `0` disables it.
    pub top_k: usize,
    /// `1.0` disables it.
    pub repetition_penalty: Real,
    pub max_new_tokens: usize,
}

/// `1.0` in single precision.
pub const ONE: u32 = 0x3F800000;

impl Default for SampleParams {
    fn default() -> (p: Self)
        ensures
            p.temperature == Real::Single(ONE),
            p.top_p == Real::Single(ONE),
            p.top_k == 0,
            p.repetition_penalty == Real::Single(ONE),
            p.max_new_tokens == 512,
    {
        SampleParams {
            temperature: Real::Single(ONE),
            top_p: Real::Single(ONE),
            top_k: 0,
            repetition_penalty: Real::Single(ONE),
            max_new_tokens: 512,
        }
    }
}

/// Input to a single forward pass: a batch of sequences.
/// Prefill and decode sequences may be mixed.
#[derive(Debug, Clone)]
pub struct BatchInput {
    pub seq_ids: Vec<SeqId>,
    /// Flattened; use `cu_seqlens` to index.
    pub token_ids: Vec<TokenId>,
    /// Cumulative sequence lengths (one more than sequences).
    pub cu_seqlens: Vec<u32>,
    /// Per-sequence logical to physical mapping.
    pub block_tables: Vec<Vec<BlockId>>,
    /// Per-sequence flag.
    pub is_prefill: Vec<bool>,
}

/// Output from a single forward pass.
#[derive(Debug, Clone)]
pub struct BatchOutput {
    pub seq_ids: Vec<SeqId>,
    /// One per sequence.
    pub next_tokens: Vec<TokenId>,
    /// Only populated if the caller needs raw logits: the bits of each.
    pub logits: Option<Vec<Vec<u32>>>,
}

} // verus!
