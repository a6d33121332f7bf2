//! A backend without weights, for trying out what surrounds one.
use vstd::prelude::*;
use crate::text::Text;
use crate::types::{
    BatchInput, BatchOutput, HiddenAct, KvCacheConfig, KvDtype, ModelMeta, Real, SampleParams, SeqId,
    TokenId, WeightDtype, EPS_DEFAULT, ROPE_THETA_DEFAULT,
};

verus! {

/// Answers without computing anything.
#[derive(Debug, Clone)]
pub struct DummyBackend {
    pub meta: ModelMeta,
}

/// The token that the backend continues sequence `id` with.
pub open spec fn dummy_token(id: SeqId) -> TokenId {
    (id % 100 + 2) as TokenId
}

/// What the backend claims to run.
pub open spec fn dummy_meta() -> ModelMeta<Text, Seq<bool>> {
    ModelMeta {
        vocab_size: 32000,
        hidden_dim: 4096,
        n_layers: 2,
        n_heads: 32,
        n_kv_heads: 8,
        head_dim: 128,
        intermediate_dim: 11008,
        max_seq_len: 2048,
        rope_theta: Real::Single(ROPE_THETA_DEFAULT),
        weight_dtype: WeightDtype::F16,
        rms_norm_eps: Real::Single(EPS_DEFAULT),
        tie_word_embeddings: false,
        hidden_act: HiddenAct::SiLU,
        no_rope_layers: seq![false, false],
        has_vision_encoder: false,
        vision_hidden_dim: None,
        vision_patch_size: None,
        vision_image_size: None,
        vision_num_layers: None,
        vision_num_heads: None,
        vision_projection_dim: None,
        spatial_merge_size: None,
        is_deepstack_layers: None,
        projector_type: None,
        has_audio_encoder: false,
        audio_hidden_dim: None,
        audio_block_count: None,
        audio_embedding_length: None,
        audio_num_mel_bins: None,
        shared_kv_layers: None,
        sliding_window_pattern: None,
        sliding_window: None,
        key_length: None,
        key_length_swa: None,
        rope_theta_swa: None,
        final_logit_softcapping: None,
        is_gemma: false,
        ple_dim: None,
        embed_scale: None,
        arch: Seq::empty(),
        chat_template: None,
        eos_token_str: None,
    }
}

impl Default for DummyBackend {
    fn default() -> (b: Self)
        ensures
            b.meta@ == dummy_meta(),
    {
        DummyBackend::new()
    }
}

impl DummyBackend {
    /// A backend that claims to run a small model.
    pub fn new() -> (b: Self)
        ensures
            b.meta@ == dummy_meta(),
    {
        let mut no_rope_layers: Vec<bool> = Vec::new();
        no_rope_layers.push(false);
        no_rope_layers.push(false);
        assert(no_rope_layers@ =~= seq![false, false]);
        DummyBackend {
            meta: ModelMeta {
                vocab_size: 32000,
                hidden_dim: 4096,
                n_layers: 2,
                n_heads: 32,
                n_kv_heads: 8,
                head_dim: 128,
                intermediate_dim: 11008,
                max_seq_len: 2048,
                rope_theta: Real::Single(ROPE_THETA_DEFAULT),
                weight_dtype: WeightDtype::F16,
                rms_norm_eps: Real::Single(EPS_DEFAULT),
                tie_word_embeddings: false,
                hidden_act: HiddenAct::SiLU,
                no_rope_layers,
                has_vision_encoder: false,
                vision_hidden_dim: None,
                vision_patch_size: None,
                vision_image_size: None,
                vision_num_layers: None,
                vision_num_heads: None,
                vision_projection_dim: None,
                spatial_merge_size: None,
                is_deepstack_layers: None,
                projector_type: None,
                has_audio_encoder: false,
                audio_hidden_dim: None,
                audio_block_count: None,
                audio_embedding_length: None,
                audio_num_mel_bins: None,
                shared_kv_layers: None,
                sliding_window_pattern: None,
                sliding_window: None,
                key_length: None,
                key_length_swa: None,
                rope_theta_swa: None,
                final_logit_softcapping: None,
                is_gemma: false,
                ple_dim: None,
                embed_scale: None,
                arch: String::new(),
                chat_template: None,
                eos_token_str: None,
            },
        }
    }

    /// Continues every sequence with a token that its number alone decides.
    pub fn forward_pass(&self, input: &BatchInput) -> (out: BatchOutput)
        ensures
            out.seq_ids@ == input.seq_ids@,
            out.next_tokens@.len() == input.seq_ids@.len(),
            forall|i: int|
                0 <= i < out.next_tokens@.len() ==> #[trigger] out.next_tokens@[i] == dummy_token(
                    input.seq_ids@[i],
                ),
            out.logits is None,
    {
        let mut seq_ids: Vec<SeqId> = Vec::new();
        let mut next_tokens: Vec<TokenId> = Vec::new();
        let mut i: usize = 0;
        while i < input.seq_ids.len()
            invariant
                i <= input.seq_ids@.len(),
                seq_ids@ == input.seq_ids@.take(i as int),
                next_tokens@.len() == i,
                forall|k: int|
                    0 <= k < i ==> #[trigger] next_tokens@[k] == dummy_token(input.seq_ids@[k]),
            decreases input.seq_ids@.len() - i,
        {
            let id = input.seq_ids[i];
            seq_ids.push(id);
            assert(input.seq_ids@.take(i + 1) =~= input.seq_ids@.take(i as int).push(id));
            next_tokens.push((id % 100) as u32 + 2);
            i += 1;
        }
        assert(input.seq_ids@.take(i as int) =~= input.seq_ids@);
        BatchOutput { seq_ids, next_tokens, logits: None }
    }

    /// Always samples the same token.
    pub fn sample(&self, _logits: &[u32], _params: &SampleParams, _token_history: &[TokenId]) -> (t:
        TokenId)
        ensures
            t == 42,
    {
        42
    }

    /// The KV cache that the backend claims to need.
    pub fn kv_cache_config(&self) -> (c: KvCacheConfig)
        ensures
            c == (KvCacheConfig {
                n_layers: 2,
                n_kv_heads: 8,
                head_dim: 128,
                block_size: 4,
                dtype: KvDtype::F16,
            }),
    {
        KvCacheConfig {
            n_layers: 2,
            n_kv_heads: 8,
            head_dim: 128,
            block_size: 4,
            dtype: KvDtype::F16,
        }
    }

    pub fn name(&self) -> (s: &'static str)
        ensures
            s@ == "dummy"@,
    {
        "dummy"
    }

    /// The token that ends a text.
    pub fn eos_token_id(&self) -> (t: TokenId)
        ensures
            t == 2,
    {
        2
    }
}

/// The token that follows is decided by the sequence's number: two more than
/// what is left of it in hundreds.
pub proof fn law_dummy_tokens(id: SeqId)
    ensures
        2 <= dummy_token(id) <= 101,
        dummy_token(id) == id % 100 + 2,
{
}

/// The model that is claimed has two layers of thirty-two heads, which share
/// eight heads of keys and values, and its heads make up its width.
pub proof fn law_dummy_model()
    ensures
        ({
            let m = dummy_meta();
            &&& m.n_layers == 2 && m.n_heads == 32 && m.n_kv_heads == 8 && m.head_dim == 128
            &&& m.hidden_dim == m.n_heads * m.head_dim
            &&& m.vocab_size == 32000 && m.intermediate_dim == 11008 && m.max_seq_len == 2048
            &&& m.rope_theta == Real::Single(0x461C4000)
            &&& m.rms_norm_eps == Real::Single(0x3727C5AC)
            &&& m.weight_dtype == WeightDtype::F16
            &&& m.hidden_act == HiddenAct::SiLU
            &&& m.no_rope_layers.len() == m.n_layers && !m.no_rope_layers[0]
                && !m.no_rope_layers[1]
            &&& !m.tie_word_embeddings && !m.is_gemma && !m.has_vision_encoder
                && !m.has_audio_encoder
        }),
{
}

} // verus!
