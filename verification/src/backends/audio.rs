//! The audio encoder's tensors, dimensions and masks.
use vstd::prelude::*;
use crate::backends::projections::{
    fuse_projections, fused_layers, hf_layer_name, in_list, is_fused, is_separate, kept,
    law_layers_are_fused, law_others_are_kept, layer_is_fused, name_of_part, part_name, push_name,
    rename_hf_layer, shapes_view, FuseError, Source,
};
use crate::loader::gguf::{meta_map, GgufValue, Meta};
use crate::names::NameMap;
use crate::text::{contains, has, texts, Text};
use crate::types::text_opt;

verus! {

/// Which encoder a checkpoint implements. Told by its tensor names, never
/// given by the user.
#[derive(Debug, Clone, Copy, PartialEq, Eq, Structural)]
pub enum AudioArchitecture {
    /// Conformer: subsampling convolutions, then chunked local attention with
    /// relative positions.
    GemmaConformer,
    /// Whisper: two convolutions, absolute positions, plain transformer blocks.
    Whisper,
}

impl AudioArchitecture {
    /// The number of mel bins that the feature extractor produces.
    pub fn num_mel_bins(self) -> (n: usize)
        ensures
            n == (match self {
                AudioArchitecture::GemmaConformer => 128usize,
                AudioArchitecture::Whisper => 80usize,
            }),
    {
        match self {
            AudioArchitecture::GemmaConformer => 128,
            AudioArchitecture::Whisper => 80,
        }
    }

    /// Hidden size, layers, heads and projection size where nothing else is
    /// known.
    pub fn defaults(self) -> (d: (usize, usize, usize, usize))
        ensures
            d == default_dims(self),
    {
        match self {
            AudioArchitecture::GemmaConformer => (1024, 12, 8, 1024),
            AudioArchitecture::Whisper => (1280, 32, 20, 2560),
        }
    }
}

/// Hidden size, layers, heads and projection size where nothing else is known.
pub open spec fn default_dims(a: AudioArchitecture) -> (usize, usize, usize, usize) {
    match a {
        AudioArchitecture::GemmaConformer => (1024, 12, 8, 1024),
        AudioArchitecture::Whisper => (1280, 32, 20, 2560),
    }
}

/// A name that only Whisper checkpoints use.
pub open spec fn whisper_name(name: Text) -> bool {
    has(name, "audio_encoder."@) || has(name, "audio_projector."@)
}

/// The architecture that tensor names tell.
pub open spec fn architecture_of(names: Seq<Text>) -> AudioArchitecture {
    if exists|i: int| 0 <= i < names.len() && whisper_name(#[trigger] names[i]) {
        AudioArchitecture::Whisper
    } else {
        AudioArchitecture::GemmaConformer
    }
}

/// Tells the architecture from the names of the loaded tensors.
pub fn detect_architecture(names: &[String]) -> (a: AudioArchitecture)
    ensures
        a == architecture_of(texts(names@)),
{
    let ghost all = texts(names@);
    let mut i: usize = 0;
    while i < names.len()
        invariant
            i <= names@.len(),
            all == texts(names@),
            forall|k: int| 0 <= k < i ==> !whisper_name(#[trigger] all[k]),
        decreases names@.len() - i,
    {
        assert(all[i as int] == names@[i as int]@);
        if contains(&names[i], "audio_encoder.") || contains(&names[i], "audio_projector.") {
            return AudioArchitecture::Whisper;
        }
        i += 1;
    }
    AudioArchitecture::GemmaConformer
}

/// The dimensions of an audio encoder.
#[derive(Debug, Clone, Copy, PartialEq, Eq, Structural)]
pub struct AudioDims {
    pub hidden_dim: usize,
    pub num_layers: usize,
    pub num_heads: usize,
    pub projection_dim: usize,
}

/// A 32 bit integer of the metadata.
pub open spec fn int32_of(m: Map<Text, Meta>, key: Text) -> Option<u32> {
    if m.contains_key(key) {
        match m[key] {
            Meta::U32(v) => Some(v),
            Meta::I32(v) => Some(v as u32),
            _ => None,
        }
    } else {
        None
    }
}

/// A dimension from the metadata, or a default.
pub open spec fn dim_or(m: Map<Text, Meta>, key: Text, default: usize) -> usize {
    match int32_of(m, key) {
        Some(v) => v as usize,
        None => default,
    }
}

/// The dimensions of an encoder: what the metadata gives, and otherwise the
/// architecture's own.
pub open spec fn audio_dims(m: Map<Text, Meta>, a: AudioArchitecture) -> AudioDims {
    let d = default_dims(a);
    AudioDims {
        hidden_dim: dim_or(m, "clip.audio.embedding_length"@, d.0),
        num_layers: dim_or(m, "clip.audio.block_count"@, d.1),
        num_heads: dim_or(m, "clip.audio.attention.head_count"@, d.2),
        projection_dim: dim_or(m, "clip.audio.projection_dim"@, d.3),
    }
}

fn read_dim(m: &NameMap<GgufValue>, key: &str, default: usize) -> (d: usize)
    ensures
        d == dim_or(meta_map(m@), key@, default),
{
    match m.get(key) {
        Some(GgufValue::U32(v)) => *v as usize,
        Some(GgufValue::I32(v)) => *v as u32 as usize,
        _ => default,
    }
}

/// Reads the dimensions of an encoder. A checkpoint that is no GGUF file has
/// no metadata.
pub fn dims_from_metadata(m: &NameMap<GgufValue>, a: AudioArchitecture) -> (d: AudioDims)
    ensures
        d == audio_dims(meta_map(m@), a),
{
    let (hidden, layers, heads, projection) = a.defaults();
    AudioDims {
        hidden_dim: read_dim(m, "clip.audio.embedding_length", hidden),
        num_layers: read_dim(m, "clip.audio.block_count", layers),
        num_heads: read_dim(m, "clip.audio.attention.head_count", heads),
        projection_dim: read_dim(m, "clip.audio.projection_dim", projection),
    }
}

/// This library's name for a tensor that a Whisper checkpoint calls `name`.
pub open spec fn whisper_tensor(name: Text) -> Option<Text> {
    if has(name, "audio_encoder.conv1.weight"@) {
        Some("audio.conv1.weight"@)
    } else if has(name, "audio_encoder.conv1.bias"@) {
        Some("audio.conv1.bias"@)
    } else if has(name, "audio_encoder.conv2.weight"@) {
        Some("audio.conv2.weight"@)
    } else if has(name, "audio_encoder.conv2.bias"@) {
        Some("audio.conv2.bias"@)
    } else if has(name, "audio_encoder.positional_embedding"@) {
        Some("audio.pos_embed.weight"@)
    } else if has(name, "audio_encoder.ln_post.weight"@) {
        Some("audio.post_ln.weight"@)
    } else if has(name, "audio_encoder.ln_post.bias"@) {
        Some("audio.post_ln.bias"@)
    } else if has(name, "audio_projector.linear_1.weight"@) || has(name, "audio_projector.0.weight"@) {
        Some("projector.0.weight"@)
    } else if has(name, "audio_projector.linear_1.bias"@) || has(name, "audio_projector.0.bias"@) {
        Some("projector.0.bias"@)
    } else if has(name, "audio_projector.linear_2.weight"@) || has(name, "audio_projector.2.weight"@) {
        Some("projector.2.weight"@)
    } else if has(name, "audio_projector.linear_2.bias"@) || has(name, "audio_projector.2.bias"@) {
        Some("projector.2.bias"@)
    } else if has(name, "audio_encoder.layers."@) {
        hf_layer_name("audio.layers."@, name)
    } else {
        None
    }
}

fn rename(name: &str) -> (r: Option<String>)
    ensures
        text_opt(r) == whisper_tensor(name@),
{
    if contains(name, "audio_encoder.conv1.weight") {
        Some("audio.conv1.weight".to_string())
    } else if contains(name, "audio_encoder.conv1.bias") {
        Some("audio.conv1.bias".to_string())
    } else if contains(name, "audio_encoder.conv2.weight") {
        Some("audio.conv2.weight".to_string())
    } else if contains(name, "audio_encoder.conv2.bias") {
        Some("audio.conv2.bias".to_string())
    } else if contains(name, "audio_encoder.positional_embedding") {
        Some("audio.pos_embed.weight".to_string())
    } else if contains(name, "audio_encoder.ln_post.weight") {
        Some("audio.post_ln.weight".to_string())
    } else if contains(name, "audio_encoder.ln_post.bias") {
        Some("audio.post_ln.bias".to_string())
    } else if contains(name, "audio_projector.linear_1.weight") || contains(name, "audio_projector.0.weight") {
        Some("projector.0.weight".to_string())
    } else if contains(name, "audio_projector.linear_1.bias") || contains(name, "audio_projector.0.bias") {
        Some("projector.0.bias".to_string())
    } else if contains(name, "audio_projector.linear_2.weight") || contains(name, "audio_projector.2.weight") {
        Some("projector.2.weight".to_string())
    } else if contains(name, "audio_projector.linear_2.bias") || contains(name, "audio_projector.2.bias") {
        Some("projector.2.bias".to_string())
    } else if contains(name, "audio_encoder.layers.") {
        rename_hf_layer("audio.layers.", name)
    } else {
        None
    }
}

/// Which tensor of the list stands under which name. Of two tensors for one
/// name the later one counts.
pub open spec fn audio_places(names: Seq<Text>) -> Map<Text, usize>
    decreases names.len(),
{
    if names.len() == 0 {
        Map::empty()
    } else {
        let m = audio_places(names.drop_last());
        match whisper_tensor(names.last()) {
            Some(name) => m.insert(name, (names.len() - 1) as usize),
            None => m,
        }
    }
}

/// The plan for the tensors of a Whisper encoder.
pub open spec fn audio_plan(
    names: Seq<Text>,
    shapes: Seq<Seq<usize>>,
    num_layers: nat,
) -> Result<Map<Text, Source>, FuseError> {
    let m = audio_places(names);
    fused_layers(kept(m, "audio.layers."@), m, shapes, "audio.layers."@, 0, num_layers)
}

fn place_names(names: &[String]) -> (m: NameMap<usize>)
    ensures
        m@ == audio_places(texts(names@)),
        in_list(m@, names@.len()),
{
    let ghost all = texts(names@);
    let mut m: NameMap<usize> = NameMap::new();
    let mut i: usize = 0;
    assert(all.take(0) =~= seq![]);
    while i < names.len()
        invariant
            i <= names@.len(),
            all == texts(names@),
            in_list(m@, i as nat),
            m@ == audio_places(all.take(i as int)),
        decreases names@.len() - i,
    {
        assert(all.take(i + 1).drop_last() =~= all.take(i as int));
        assert(all.take(i + 1).last() == names@[i as int]@);
        if let Some(name) = rename(&names[i]) {
            m.insert(name, i);
        }
        i += 1;
    }
    assert(all.take(i as int) =~= all);
    m
}

/// Plans the tensors of a Whisper encoder from the names and shapes of the
/// loaded ones. Separate projections of the first `num_layers` layers are
/// joined along their output axis.
pub fn normalize_audio_tensors(
    names: &[String],
    shapes: &[Vec<usize>],
    num_layers: usize,
) -> (r: Result<NameMap<Source>, FuseError>)
    requires
        names@.len() == shapes@.len(),
    ensures
        match r {
            Ok(plan) => audio_plan(texts(names@), shapes_view(shapes@), num_layers as nat) == Ok::<
                Map<Text, Source>,
                FuseError,
            >(plan@),
            Err(e) => audio_plan(texts(names@), shapes_view(shapes@), num_layers as nat) == Err::<
                Map<Text, Source>,
                FuseError,
            >(e),
        },
{
    let m = place_names(names);
    fuse_projections(&m, shapes, "audio.layers.", 0, num_layers)
}

/// The tensors that Whisper block `layer` cannot do without, in the order in
/// which it looks them up.
pub open spec fn whisper_block_needs(layer: nat) -> Seq<Text> {
    seq![
        part_name("audio.layers."@, layer, "ln1.weight"@),
        part_name("audio.layers."@, layer, "ln1.bias"@),
        part_name("audio.layers."@, layer, "ln2.weight"@),
        part_name("audio.layers."@, layer, "ln2.bias"@),
        part_name("audio.layers."@, layer, "attn_qkv.weight"@),
        part_name("audio.layers."@, layer, "attn_qkv.bias"@),
        part_name("audio.layers."@, layer, "attn_out.weight"@),
        part_name("audio.layers."@, layer, "attn_out.bias"@),
        part_name("audio.layers."@, layer, "ffn_up.weight"@),
        part_name("audio.layers."@, layer, "ffn_up.bias"@),
        part_name("audio.layers."@, layer, "ffn_down.weight"@),
        part_name("audio.layers."@, layer, "ffn_down.bias"@),
    ]
}

/// The tensors that Conformer block `layer` cannot do without, in the order in
/// which it looks them up.
pub open spec fn conformer_block_needs(layer: nat) -> Seq<Text> {
    seq![
        part_name("a.blk."@, layer, "ffn_norm.weight"@),
        part_name("a.blk."@, layer, "ffn_up.weight"@),
        part_name("a.blk."@, layer, "ffn_down.weight"@),
        part_name("a.blk."@, layer, "ffn_post_norm.weight"@),
        part_name("a.blk."@, layer, "attn_pre_norm.weight"@),
        part_name("a.blk."@, layer, "attn_q.weight"@),
        part_name("a.blk."@, layer, "attn_k.weight"@),
        part_name("a.blk."@, layer, "attn_v.weight"@),
        part_name("a.blk."@, layer, "per_dim_scale.weight"@),
        part_name("a.blk."@, layer, "attn_k_rel.weight"@),
        part_name("a.blk."@, layer, "attn_out.weight"@),
        part_name("a.blk."@, layer, "attn_post_norm.weight"@),
        part_name("a.blk."@, layer, "norm_conv.weight"@),
        part_name("a.blk."@, layer, "conv_pw1.weight"@),
        part_name("a.blk."@, layer, "conv_dw.weight"@),
        part_name("a.blk."@, layer, "conv_norm.weight"@),
        part_name("a.blk."@, layer, "conv_pw2.weight"@),
        part_name("a.blk."@, layer, "ffn_norm_1.weight"@),
        part_name("a.blk."@, layer, "ffn_up_1.weight"@),
        part_name("a.blk."@, layer, "ffn_down_1.weight"@),
        part_name("a.blk."@, layer, "ffn_post_norm_1.weight"@),
    ]
}

/// The tensors that the first `layers` blocks cannot do without.
pub open spec fn blocks_need(a: AudioArchitecture, layers: nat) -> Seq<Text>
    decreases layers,
{
    if layers == 0 {
        seq![]
    } else {
        let layer = (layers - 1) as nat;
        blocks_need(a, layer) + match a {
            AudioArchitecture::Whisper => whisper_block_needs(layer),
            AudioArchitecture::GemmaConformer => conformer_block_needs(layer),
        }
    }
}

/// The tensors that come before the blocks.
pub open spec fn front_needs(a: AudioArchitecture) -> Seq<Text> {
    match a {
        AudioArchitecture::Whisper => seq!["audio.conv1.weight"@, "audio.conv2.weight"@],
        AudioArchitecture::GemmaConformer => seq![
            "a.conv1d.0.weight"@,
            "a.conv1d.0.norm.weight"@,
            "a.conv1d.1.weight"@,
            "a.conv1d.1.norm.weight"@,
            "a.input_projection.weight"@,
        ],
    }
}

/// The tensors that come behind the blocks.
pub open spec fn back_needs(a: AudioArchitecture) -> Seq<Text> {
    match a {
        AudioArchitecture::Whisper => seq![],
        AudioArchitecture::GemmaConformer => seq![
            "a.pre_encode.out.weight"@,
            "a.pre_encode.out.bias"@,
        ],
    }
}

fn add_whisper_block(out: &mut Vec<String>, layer: usize)
    ensures
        texts(final(out)@) == texts(old(out)@) + whisper_block_needs(layer as nat),
{
    let ghost before = texts(out@);
    push_name(out, name_of_part("audio.layers.", layer, "ln1.weight"));
    push_name(out, name_of_part("audio.layers.", layer, "ln1.bias"));
    push_name(out, name_of_part("audio.layers.", layer, "ln2.weight"));
    push_name(out, name_of_part("audio.layers.", layer, "ln2.bias"));
    push_name(out, name_of_part("audio.layers.", layer, "attn_qkv.weight"));
    push_name(out, name_of_part("audio.layers.", layer, "attn_qkv.bias"));
    push_name(out, name_of_part("audio.layers.", layer, "attn_out.weight"));
    push_name(out, name_of_part("audio.layers.", layer, "attn_out.bias"));
    push_name(out, name_of_part("audio.layers.", layer, "ffn_up.weight"));
    push_name(out, name_of_part("audio.layers.", layer, "ffn_up.bias"));
    push_name(out, name_of_part("audio.layers.", layer, "ffn_down.weight"));
    push_name(out, name_of_part("audio.layers.", layer, "ffn_down.bias"));
    assert(texts(out@) =~= before + whisper_block_needs(layer as nat));
}

fn add_conformer_block(out: &mut Vec<String>, layer: usize)
    ensures
        texts(final(out)@) == texts(old(out)@) + conformer_block_needs(layer as nat),
{
    let ghost before = texts(out@);
    push_name(out, name_of_part("a.blk.", layer, "ffn_norm.weight"));
    push_name(out, name_of_part("a.blk.", layer, "ffn_up.weight"));
    push_name(out, name_of_part("a.blk.", layer, "ffn_down.weight"));
    push_name(out, name_of_part("a.blk.", layer, "ffn_post_norm.weight"));
    push_name(out, name_of_part("a.blk.", layer, "attn_pre_norm.weight"));
    push_name(out, name_of_part("a.blk.", layer, "attn_q.weight"));
    push_name(out, name_of_part("a.blk.", layer, "attn_k.weight"));
    push_name(out, name_of_part("a.blk.", layer, "attn_v.weight"));
    push_name(out, name_of_part("a.blk.", layer, "per_dim_scale.weight"));
    push_name(out, name_of_part("a.blk.", layer, "attn_k_rel.weight"));
    push_name(out, name_of_part("a.blk.", layer, "attn_out.weight"));
    push_name(out, name_of_part("a.blk.", layer, "attn_post_norm.weight"));
    push_name(out, name_of_part("a.blk.", layer, "norm_conv.weight"));
    push_name(out, name_of_part("a.blk.", layer, "conv_pw1.weight"));
    push_name(out, name_of_part("a.blk.", layer, "conv_dw.weight"));
    push_name(out, name_of_part("a.blk.", layer, "conv_norm.weight"));
    push_name(out, name_of_part("a.blk.", layer, "conv_pw2.weight"));
    push_name(out, name_of_part("a.blk.", layer, "ffn_norm_1.weight"));
    push_name(out, name_of_part("a.blk.", layer, "ffn_up_1.weight"));
    push_name(out, name_of_part("a.blk.", layer, "ffn_down_1.weight"));
    push_name(out, name_of_part("a.blk.", layer, "ffn_post_norm_1.weight"));
    assert(texts(out@) =~= before + conformer_block_needs(layer as nat));
}

/// Lists the tensors that encoding a sound cannot do without, in the order in
/// which they are used.
pub fn needed_tensors(a: AudioArchitecture, num_layers: usize) -> (out: Vec<String>)
    ensures
        texts(out@) == front_needs(a) + blocks_need(a, num_layers as nat) + back_needs(a),
{
    let mut out: Vec<String> = Vec::new();
    assert(texts(out@) =~= seq![]);
    match a {
        AudioArchitecture::Whisper => {
            push_name(&mut out, "audio.conv1.weight".to_string());
            push_name(&mut out, "audio.conv2.weight".to_string());
        },
        AudioArchitecture::GemmaConformer => {
            push_name(&mut out, "a.conv1d.0.weight".to_string());
            push_name(&mut out, "a.conv1d.0.norm.weight".to_string());
            push_name(&mut out, "a.conv1d.1.weight".to_string());
            push_name(&mut out, "a.conv1d.1.norm.weight".to_string());
            push_name(&mut out, "a.input_projection.weight".to_string());
        },
    }
    assert(texts(out@) =~= front_needs(a) + blocks_need(a, 0));
    let mut layer: usize = 0;
    while layer < num_layers
        invariant
            layer <= num_layers,
            texts(out@) == front_needs(a) + blocks_need(a, layer as nat),
        decreases num_layers - layer,
    {
        let ghost before = texts(out@);
        match a {
            AudioArchitecture::Whisper => add_whisper_block(&mut out, layer),
            AudioArchitecture::GemmaConformer => add_conformer_block(&mut out, layer),
        }
        assert(texts(out@) =~= front_needs(a) + blocks_need(a, (layer + 1) as nat));
        layer += 1;
    }
    if a == AudioArchitecture::GemmaConformer {
        push_name(&mut out, "a.pre_encode.out.weight".to_string());
        push_name(&mut out, "a.pre_encode.out.bias".to_string());
    }
    assert(texts(out@) =~= front_needs(a) + blocks_need(a, num_layers as nat) + back_needs(a));
    out
}

/// The length of the time axis behind a convolution of stride two over
/// `input_len` steps.
pub fn conv_stride2_out_len(input_len: usize) -> (n: usize)
    ensures
        n == (input_len as int + 1) / 2,
{
    if input_len == 0 {
        0
    } else {
        (input_len - 1) / 2 + 1
    }
}

/// The number of frames of 320 samples, one every 160, that fit into
/// `num_samples` samples with one to spare.
pub open spec fn frames_in(num_samples: int) -> int {
    if num_samples >= 321 {
        (num_samples - 321) / 160 + 1
    } else {
        0
    }
}

/// Counts the frames that the feature extractor makes of `num_samples`
/// samples.
pub fn gemma4_num_frames(num_samples: usize) -> (n: usize)
    ensures
        n == frames_in(num_samples as int),
        n > 0 ==> (n - 1) * 160 + 321 <= num_samples,
        n * 160 + 321 > num_samples,
{
    if num_samples >= 321 {
        (num_samples - 321) / 160 + 1
    } else {
        0
    }
}

/// Half a minute at 16 kHz.
pub const TARGET_SAMPLES: usize = 480000;

/// How many of the frames hold sound rather than padding, for a recording of
/// `num_samples` samples that is cut or padded to half a minute. Whisper
/// treats every frame as sound.
pub fn valid_frames(a: AudioArchitecture, num_samples: usize) -> (n: usize)
    ensures
        n == (match a {
            AudioArchitecture::Whisper => 3000int,
            AudioArchitecture::GemmaConformer => frames_in(
                (if num_samples < TARGET_SAMPLES {
                    num_samples
                } else {
                    TARGET_SAMPLES
                }) + 160,
            ),
        }),
{
    match a {
        AudioArchitecture::Whisper => 3000,
        AudioArchitecture::GemmaConformer => {
            let held: usize = if num_samples < TARGET_SAMPLES {
                num_samples
            } else {
                TARGET_SAMPLES
            };
            gemma4_num_frames(held + 160)
        },
    }
}

/// A longer recording has no fewer frames, and none has more than half a
/// minute's.
pub proof fn law_frames_grow(a: int, b: int)
    requires
        0 <= a <= b,
    ensures
        frames_in(a) <= frames_in(b),
        frames_in(TARGET_SAMPLES + 160) == 2999,
{
}

/// Time step `t` is sound and not padding.
pub open spec fn step_flags(steps: nat, valid: nat) -> Seq<bool> {
    Seq::new(steps, |t: int| t < valid)
}

/// Which of `steps` time steps are to be kept when those at `valid_len` and
/// later are padding; `None` where there is nothing to clear.
pub fn valid_steps(steps: usize, valid_len: usize) -> (r: Option<Vec<bool>>)
    ensures
        match r {
            None => valid_len >= steps,
            Some(flags) => valid_len < steps && flags@ == step_flags(
                steps as nat,
                valid_len as nat,
            ),
        },
{
    if valid_len >= steps {
        return None;
    }
    let mut flags: Vec<bool> = Vec::new();
    let mut t: usize = 0;
    while t < steps
        invariant
            t <= steps,
            flags.len() == t,
            forall|k: int| 0 <= k < t ==> #[trigger] flags@[k] == (k < valid_len),
        decreases steps - t,
    {
        flags.push(t < valid_len);
        t += 1;
    }
    assert(flags@ =~= step_flags(steps as nat, valid_len as nat));
    Some(flags)
}

/// The shape of chunked local attention.
#[derive(Debug, Clone, Copy, PartialEq, Eq, Structural)]
pub struct LocalAttention {
    pub chunk_size: usize,
    pub past: usize,
    pub future: usize,
    pub context_size: usize,
}

/// The Conformer's attention: chunks of twelve steps, each with the twelve
/// steps before it.
pub fn conformer_attention() -> (a: LocalAttention)
    ensures
        a == (LocalAttention { chunk_size: 12, past: 12, future: 0, context_size: 24 }),
{
    LocalAttention { chunk_size: 12, past: 12, future: 0, context_size: 24 }
}

/// Query `w` of block `b` may attend to place `c` of the block's context: the
/// place is neither ahead of the query nor too far behind it, and holds a step
/// that is there.
pub open spec fn attends(a: LocalAttention, valid: int, b: int, w: int, c: int) -> bool {
    let key = b * a.chunk_size - a.past + c;
    w <= c <= w + a.past + a.future && 0 <= key < valid
}

/// The blocks that `seq_len` queries are cut into, and the padding of the last
/// one.
pub fn query_blocks(seq_len: usize, chunk_size: usize) -> (r: (usize, usize))
    requires
        chunk_size > 0,
        seq_len + chunk_size <= usize::MAX,
    ensures
        r.0 == (seq_len + chunk_size - 1) / chunk_size as int,
        r.1 < chunk_size,
        r.0 * chunk_size == seq_len + r.1,
{
    let blocks: usize = (seq_len + (chunk_size - 1)) / chunk_size;
    proof {
        let n = seq_len + chunk_size - 1;
        let d = chunk_size as int;
        vstd::arithmetic::div_mod::lemma_fundamental_div_mod(n, d);
        assert(blocks * d == n - n % d) by (nonlinear_arith)
            requires
                n == d * (n / d) + n % d,
                blocks == n / d,
        ;
    }
    (blocks, blocks * chunk_size - seq_len)
}

/// The starts of the context windows in the padded keys: one window every
/// chunk, as many as fit.
pub open spec fn context_blocks(a: LocalAttention, seq_len: int) -> int {
    (a.past + seq_len + a.future + a.chunk_size - 1 - a.context_size) / a.chunk_size as int + 1
}

/// Cuts the keys of `seq_len` steps, padded with `past` steps before and
/// `future + chunk_size - 1` steps behind, into context windows: where each
/// window starts.
pub fn context_starts(a: LocalAttention, seq_len: usize) -> (starts: Vec<usize>)
    requires
        a.chunk_size > 0,
        a.past + seq_len + a.future + a.chunk_size <= usize::MAX,
        a.context_size <= a.past + seq_len + a.future + a.chunk_size - 1,
    ensures
        starts.len() == context_blocks(a, seq_len as int),
        forall|b: int| 0 <= b < starts.len() ==> #[trigger] starts@[b] == b * a.chunk_size,
        forall|b: int|
            0 <= b < starts.len() ==> #[trigger] starts@[b] + a.context_size <= a.past + seq_len
                + a.future + a.chunk_size - 1,
{
    let padded: usize = a.past + seq_len + a.future + (a.chunk_size - 1);
    let room: usize = padded - a.context_size;
    let blocks: usize = room / a.chunk_size;
    let mut starts: Vec<usize> = Vec::new();
    let mut start: usize = 0;
    proof {
        let d = a.chunk_size as int;
        vstd::arithmetic::div_mod::lemma_fundamental_div_mod(room as int, d);
        assert(blocks * d <= room) by (nonlinear_arith)
            requires
                room == d * (room as int / d) + room as int % d,
                blocks == room as int / d,
                0 <= room as int % d,
        ;
        assert((blocks + 1) * d > room) by (nonlinear_arith)
            requires
                room == d * (room as int / d) + room as int % d,
                blocks == room as int / d,
                room as int % d < d,
        ;
    }
    while starts.len() < blocks
        invariant
            starts.len() <= blocks,
            start == starts.len() * a.chunk_size,
            blocks * a.chunk_size <= room,
            room + a.context_size == padded,
            forall|b: int| 0 <= b < starts.len() ==> #[trigger] starts@[b] == b * a.chunk_size,
            forall|b: int|
                0 <= b < starts.len() ==> #[trigger] starts@[b] + a.context_size <= padded,
        decreases blocks - starts.len(),
    {
        let ghost n = starts.len() as int;
        let ghost d = a.chunk_size as int;
        proof {
            assert((n + 1) * d <= blocks * d) by (nonlinear_arith)
                requires
                    n + 1 <= blocks,
                    d >= 0,
            ;
            assert((n + 1) * d == n * d + d) by (nonlinear_arith);
        }
        starts.push(start);
        start = start + a.chunk_size;
    }
    starts.push(start);
    starts
}

/// For the Conformer's attention there are as many context windows as there
/// are query blocks.
pub proof fn law_blocks_agree(seq_len: int)
    requires
        seq_len >= 1,
    ensures
        context_blocks(
            LocalAttention { chunk_size: 12, past: 12, future: 0, context_size: 24 },
            seq_len,
        ) == (seq_len + 12 - 1) / 12,
{
}

/// The places that attention may look at, block by block, query by query: the
/// entry of query `w` and place `c` of block `b` stands at
/// `(b * chunk_size + w) * context_size + c`.
pub fn attention_mask(a: LocalAttention, num_blocks: usize, valid_seq_len: usize) -> (mask: Vec<bool>)
    requires
        a.chunk_size > 0,
        a.context_size > 0,
        a.past + a.future + a.chunk_size + a.context_size <= usize::MAX,
        num_blocks * a.chunk_size + a.context_size <= usize::MAX,
        num_blocks * a.chunk_size * a.context_size <= usize::MAX,
    ensures
        mask.len() == num_blocks * a.chunk_size * a.context_size,
        forall|i: int|
            0 <= i < mask.len() ==> #[trigger] mask@[i] == attends(
                a,
                valid_seq_len as int,
                i / a.context_size as int / a.chunk_size as int,
                (i / a.context_size as int) % a.chunk_size as int,
                i % a.context_size as int,
            ),
{
    assert(num_blocks * a.chunk_size >= 0) by (nonlinear_arith)
        requires
            num_blocks >= 0,
            a.chunk_size >= 0,
    ;
    let rows: usize = num_blocks * a.chunk_size;
    let n: usize = rows * a.context_size;
    let mut mask: Vec<bool> = Vec::new();
    let mut i: usize = 0;
    while i < n
        invariant
            i <= n,
            n == rows * a.context_size,
            rows == num_blocks * a.chunk_size,
            a.chunk_size > 0,
            a.context_size > 0,
            a.past + a.future + a.chunk_size + a.context_size <= usize::MAX,
            rows + a.context_size <= usize::MAX,
            mask.len() == i,
            forall|k: int|
                0 <= k < i ==> #[trigger] mask@[k] == attends(
                    a,
                    valid_seq_len as int,
                    k / a.context_size as int / a.chunk_size as int,
                    (k / a.context_size as int) % a.chunk_size as int,
                    k % a.context_size as int,
                ),
        decreases n - i,
    {
        let row: usize = i / a.context_size;
        let c: usize = i % a.context_size;
        let b: usize = row / a.chunk_size;
        let w: usize = row % a.chunk_size;
        proof {
            let d = a.chunk_size as int;
            let x = a.context_size as int;
            vstd::arithmetic::div_mod::lemma_fundamental_div_mod(i as int, x);
            vstd::arithmetic::div_mod::lemma_fundamental_div_mod(row as int, d);
            assert(row < rows) by (nonlinear_arith)
                requires
                    i == x * row + c,
                    0 <= c,
                    i < rows * x,
                    x > 0,
            ;
            assert(b * d <= row) by (nonlinear_arith)
                requires
                    row == d * b + w,
                    0 <= w,
            ;
            assert(b * d >= 0) by (nonlinear_arith)
                requires
                    b >= 0,
                    d >= 0,
            ;
        }
        let start: usize = b * a.chunk_size;
        let near = c >= w && c <= w + a.past + a.future;
        let there = start + c >= a.past && start + c - a.past < valid_seq_len;
        mask.push(near && there);
        i += 1;
    }
    mask
}

/// Each dimension is what the metadata holds under its own key; one without an
/// entry is the architecture's own.
pub proof fn law_dims_are_read(m: Map<Text, Meta>, a: AudioArchitecture, n: u32)
    ensures
        m.contains_key("clip.audio.embedding_length"@) && m["clip.audio.embedding_length"@] == Meta::U32(n) ==> audio_dims(m, a).hidden_dim == n,
        !(m.contains_key("clip.audio.embedding_length"@)) ==> audio_dims(m, AudioArchitecture::GemmaConformer).hidden_dim == 1024,
        !(m.contains_key("clip.audio.embedding_length"@)) ==> audio_dims(m, AudioArchitecture::Whisper).hidden_dim == 1280,
        m.contains_key("clip.audio.block_count"@) && m["clip.audio.block_count"@] == Meta::U32(n) ==> audio_dims(m, a).num_layers == n,
        !(m.contains_key("clip.audio.block_count"@)) ==> audio_dims(m, AudioArchitecture::GemmaConformer).num_layers == 12,
        !(m.contains_key("clip.audio.block_count"@)) ==> audio_dims(m, AudioArchitecture::Whisper).num_layers == 32,
        m.contains_key("clip.audio.attention.head_count"@) && m["clip.audio.attention.head_count"@] == Meta::U32(n) ==> audio_dims(m, a).num_heads == n,
        !(m.contains_key("clip.audio.attention.head_count"@)) ==> audio_dims(m, AudioArchitecture::GemmaConformer).num_heads == 8,
        !(m.contains_key("clip.audio.attention.head_count"@)) ==> audio_dims(m, AudioArchitecture::Whisper).num_heads == 20,
        m.contains_key("clip.audio.projection_dim"@) && m["clip.audio.projection_dim"@] == Meta::U32(n) ==> audio_dims(m, a).projection_dim == n,
        !(m.contains_key("clip.audio.projection_dim"@)) ==> audio_dims(m, AudioArchitecture::GemmaConformer).projection_dim == 1024,
        !(m.contains_key("clip.audio.projection_dim"@)) ==> audio_dims(m, AudioArchitecture::Whisper).projection_dim == 2560,
{
}

/// A step sees the steps that are there from `past` before it to `future`
/// behind it, and no others.
pub proof fn law_steps_seen(a: LocalAttention, valid: int, b: int, w: int, c: int)
    ensures
        ({
            let query = b * a.chunk_size + w;
            let key = b * a.chunk_size - a.past + c;
            attends(a, valid, b, w, c) <==> 0 <= key < valid && query - a.past <= key <= query
                + a.future
        }),
{
}

/// By what the tensors of a Whisper checkpoint that belong to no layer are
/// told apart.
pub open spec fn is_mark(mark: Text) -> bool {
    ||| mark == "audio_encoder.conv1.weight"@
    ||| mark == "audio_encoder.conv1.bias"@
    ||| mark == "audio_encoder.conv2.weight"@
    ||| mark == "audio_encoder.conv2.bias"@
    ||| mark == "audio_encoder.positional_embedding"@
    ||| mark == "audio_encoder.ln_post.weight"@
    ||| mark == "audio_encoder.ln_post.bias"@
    ||| mark == "audio_projector.linear_1.weight"@
    ||| mark == "audio_projector.0.weight"@
    ||| mark == "audio_projector.linear_1.bias"@
    ||| mark == "audio_projector.0.bias"@
    ||| mark == "audio_projector.linear_2.weight"@
    ||| mark == "audio_projector.2.weight"@
    ||| mark == "audio_projector.linear_2.bias"@
    ||| mark == "audio_projector.2.bias"@
}

/// The name holds this one of the marks, and no other.
pub open spec fn only_has(name: Text, mark: Text) -> bool {
    &&& has(name, mark)
    &&& forall|other: Text| #[trigger] is_mark(other) && other != mark ==> !(has(name, other))
}

/// Each mark of a Whisper name leads to its place.
pub proof fn law_marks_name_places(name: Text)
    ensures
        only_has(name, "audio_encoder.conv1.weight"@) ==> whisper_tensor(name) == Some("audio.conv1.weight"@),
        only_has(name, "audio_encoder.conv1.bias"@) ==> whisper_tensor(name) == Some("audio.conv1.bias"@),
        only_has(name, "audio_encoder.conv2.weight"@) ==> whisper_tensor(name) == Some("audio.conv2.weight"@),
        only_has(name, "audio_encoder.conv2.bias"@) ==> whisper_tensor(name) == Some("audio.conv2.bias"@),
        only_has(name, "audio_encoder.positional_embedding"@) ==> whisper_tensor(name) == Some("audio.pos_embed.weight"@),
        only_has(name, "audio_encoder.ln_post.weight"@) ==> whisper_tensor(name) == Some("audio.post_ln.weight"@),
        only_has(name, "audio_encoder.ln_post.bias"@) ==> whisper_tensor(name) == Some("audio.post_ln.bias"@),
        only_has(name, "audio_projector.linear_1.weight"@) ==> whisper_tensor(name) == Some("projector.0.weight"@),
        only_has(name, "audio_projector.0.weight"@) ==> whisper_tensor(name) == Some("projector.0.weight"@),
        only_has(name, "audio_projector.linear_1.bias"@) ==> whisper_tensor(name) == Some("projector.0.bias"@),
        only_has(name, "audio_projector.0.bias"@) ==> whisper_tensor(name) == Some("projector.0.bias"@),
        only_has(name, "audio_projector.linear_2.weight"@) ==> whisper_tensor(name) == Some("projector.2.weight"@),
        only_has(name, "audio_projector.2.weight"@) ==> whisper_tensor(name) == Some("projector.2.weight"@),
        only_has(name, "audio_projector.linear_2.bias"@) ==> whisper_tensor(name) == Some("projector.2.bias"@),
        only_has(name, "audio_projector.2.bias"@) ==> whisper_tensor(name) == Some("projector.2.bias"@),
{
    reveal_strlit("audio_encoder.conv1.weight");
    reveal_strlit("audio_encoder.conv1.bias");
    reveal_strlit("audio_encoder.conv2.weight");
    reveal_strlit("audio_encoder.conv2.bias");
    reveal_strlit("audio_encoder.positional_embedding");
    reveal_strlit("audio_encoder.ln_post.weight");
    reveal_strlit("audio_encoder.ln_post.bias");
    reveal_strlit("audio_projector.linear_1.weight");
    reveal_strlit("audio_projector.0.weight");
    reveal_strlit("audio_projector.linear_1.bias");
    reveal_strlit("audio_projector.0.bias");
    reveal_strlit("audio_projector.linear_2.weight");
    reveal_strlit("audio_projector.2.weight");
    reveal_strlit("audio_projector.linear_2.bias");
    reveal_strlit("audio_projector.2.bias");
    assert("audio_encoder.conv1.weight"@.len() == 26);
    assert("audio_encoder.conv1.bias"@.len() == 24);
    assert("audio_encoder.conv2.weight"@.len() == 26);
    assert("audio_encoder.conv2.bias"@.len() == 24);
    assert("audio_encoder.positional_embedding"@.len() == 34);
    assert("audio_encoder.ln_post.weight"@.len() == 28);
    assert("audio_encoder.ln_post.bias"@.len() == 26);
    assert("audio_projector.linear_1.weight"@.len() == 31);
    assert("audio_projector.0.weight"@.len() == 24);
    assert("audio_projector.linear_1.bias"@.len() == 29);
    assert("audio_projector.0.bias"@.len() == 22);
    assert("audio_projector.linear_2.weight"@.len() == 31);
    assert("audio_projector.2.weight"@.len() == 24);
    assert("audio_projector.linear_2.bias"@.len() == 29);
    assert("audio_projector.2.bias"@.len() == 22);
    assert("audio_encoder.conv1.weight"@[18] != "audio_encoder.conv2.weight"@[18]);
    assert("audio_encoder.conv1.weight"@[14] != "audio_encoder.ln_post.bias"@[14]);
    assert("audio_encoder.conv1.bias"@[18] != "audio_encoder.conv2.bias"@[18]);
    assert("audio_encoder.conv1.bias"@[6] != "audio_projector.0.weight"@[6]);
    assert("audio_encoder.conv1.bias"@[6] != "audio_projector.2.weight"@[6]);
    assert("audio_encoder.conv2.weight"@[14] != "audio_encoder.ln_post.bias"@[14]);
    assert("audio_encoder.conv2.bias"@[6] != "audio_projector.0.weight"@[6]);
    assert("audio_encoder.conv2.bias"@[6] != "audio_projector.2.weight"@[6]);
    assert("audio_projector.linear_1.weight"@[23] != "audio_projector.linear_2.weight"@[23]);
    assert("audio_projector.0.weight"@[16] != "audio_projector.2.weight"@[16]);
    assert("audio_projector.linear_1.bias"@[23] != "audio_projector.linear_2.bias"@[23]);
    assert("audio_projector.0.bias"@[16] != "audio_projector.2.bias"@[16]);
    assert(is_mark("audio_encoder.conv1.weight"@));
    assert(is_mark("audio_encoder.conv1.bias"@));
    assert(is_mark("audio_encoder.conv2.weight"@));
    assert(is_mark("audio_encoder.conv2.bias"@));
    assert(is_mark("audio_encoder.positional_embedding"@));
    assert(is_mark("audio_encoder.ln_post.weight"@));
    assert(is_mark("audio_encoder.ln_post.bias"@));
    assert(is_mark("audio_projector.linear_1.weight"@));
    assert(is_mark("audio_projector.0.weight"@));
    assert(is_mark("audio_projector.linear_1.bias"@));
    assert(is_mark("audio_projector.0.bias"@));
    assert(is_mark("audio_projector.linear_2.weight"@));
    assert(is_mark("audio_projector.2.weight"@));
    assert(is_mark("audio_projector.linear_2.bias"@));
    assert(is_mark("audio_projector.2.bias"@));
}

/// A place is filled if and only if some tensor of the list belongs there, and
/// then with the last one that does.
pub proof fn law_last_one_counts(names: Seq<Text>, name: Text)
    requires
        names.len() <= usize::MAX,
    ensures
        audio_places(names).contains_key(name) <==> exists|i: int|
            0 <= i < names.len() && whisper_tensor(#[trigger] names[i]) == Some(name),
        audio_places(names).contains_key(name) ==> ({
            let i = audio_places(names)[name] as int;
            &&& 0 <= i < names.len()
            &&& whisper_tensor(names[i]) == Some(name)
            &&& forall|j: int|
                i < j < names.len() ==> whisper_tensor(#[trigger] names[j]) != Some(name)
        }),
    decreases names.len(),
{
    if names.len() > 0 {
        let front = names.drop_last();
        law_last_one_counts(front, name);
        assert(names[names.len() - 1] == names.last());
        assert forall|i: int| 0 <= i < front.len() implies #[trigger] names[i] == front[i] by {}
        if whisper_tensor(names.last()) != Some(name) {
            if audio_places(front).contains_key(name) {
                let i = audio_places(front)[name] as int;
                assert(front[i] == names[i]);
                assert forall|j: int| i < j < names.len() implies whisper_tensor(
                    #[trigger] names[j],
                ) != Some(name) by {
                    if j < front.len() {
                        assert(front[j] == names[j]);
                    }
                }
            }
            if exists|i: int|
                0 <= i < names.len() && whisper_tensor(#[trigger] names[i]) == Some(name) {
                let i = choose|i: int|
                    0 <= i < names.len() && whisper_tensor(#[trigger] names[i]) == Some(name);
                assert(front[i] == names[i]);
            }
        }
    }
}

/// In the plan of a Whisper encoder the queries, keys and values of a layer
/// are joined in this order along the first axis, and every tensor that is
/// neither stays in the place that it was found for.
pub proof fn law_plan_is_right(
    names: Seq<Text>,
    shapes: Seq<Seq<usize>>,
    num_layers: nat,
    layer: nat,
    name: Text,
)
    requires
        num_layers <= usize::MAX,
    ensures
        audio_plan(names, shapes, num_layers) matches Ok(plan) ==> (layer < num_layers
            ==> layer_is_fused(plan, audio_places(names), shapes, "audio.layers."@, 0, layer)),
        audio_plan(names, shapes, num_layers) matches Ok(plan) ==> (!(is_fused(
            "audio.layers."@,
            num_layers,
            name,
        )) ==> {
            &&& plan.contains_key(name) <==> audio_places(names).contains_key(name) && !(is_separate(
                "audio.layers."@,
                name,
            ))
            &&& plan.contains_key(name) ==> plan[name] == Source::Raw(audio_places(names)[name])
        }),
{
    let m = audio_places(names);
    if audio_plan(names, shapes, num_layers) is Ok {
        if layer < num_layers {
            law_layers_are_fused(m, shapes, "audio.layers."@, 0, num_layers, layer);
        }
        if !(is_fused("audio.layers."@, num_layers, name)) {
            law_others_are_kept(m, shapes, "audio.layers."@, 0, num_layers, name);
        }
    }
}

/// A tensor that block `layer` reads.
pub open spec fn block_reads(a: AudioArchitecture, layer: nat, name: Text) -> bool {
    match a {
        AudioArchitecture::Whisper => {
            ||| name == part_name("audio.layers."@, layer, "ln1.weight"@)
            ||| name == part_name("audio.layers."@, layer, "ln1.bias"@)
            ||| name == part_name("audio.layers."@, layer, "ln2.weight"@)
            ||| name == part_name("audio.layers."@, layer, "ln2.bias"@)
            ||| name == part_name("audio.layers."@, layer, "attn_qkv.weight"@)
            ||| name == part_name("audio.layers."@, layer, "attn_qkv.bias"@)
            ||| name == part_name("audio.layers."@, layer, "attn_out.weight"@)
            ||| name == part_name("audio.layers."@, layer, "attn_out.bias"@)
            ||| name == part_name("audio.layers."@, layer, "ffn_up.weight"@)
            ||| name == part_name("audio.layers."@, layer, "ffn_up.bias"@)
            ||| name == part_name("audio.layers."@, layer, "ffn_down.weight"@)
            ||| name == part_name("audio.layers."@, layer, "ffn_down.bias"@)
        },
        AudioArchitecture::GemmaConformer => {
            ||| name == part_name("a.blk."@, layer, "ffn_norm.weight"@)
            ||| name == part_name("a.blk."@, layer, "ffn_up.weight"@)
            ||| name == part_name("a.blk."@, layer, "ffn_down.weight"@)
            ||| name == part_name("a.blk."@, layer, "ffn_post_norm.weight"@)
            ||| name == part_name("a.blk."@, layer, "attn_pre_norm.weight"@)
            ||| name == part_name("a.blk."@, layer, "attn_q.weight"@)
            ||| name == part_name("a.blk."@, layer, "attn_k.weight"@)
            ||| name == part_name("a.blk."@, layer, "attn_v.weight"@)
            ||| name == part_name("a.blk."@, layer, "per_dim_scale.weight"@)
            ||| name == part_name("a.blk."@, layer, "attn_k_rel.weight"@)
            ||| name == part_name("a.blk."@, layer, "attn_out.weight"@)
            ||| name == part_name("a.blk."@, layer, "attn_post_norm.weight"@)
            ||| name == part_name("a.blk."@, layer, "norm_conv.weight"@)
            ||| name == part_name("a.blk."@, layer, "conv_pw1.weight"@)
            ||| name == part_name("a.blk."@, layer, "conv_dw.weight"@)
            ||| name == part_name("a.blk."@, layer, "conv_norm.weight"@)
            ||| name == part_name("a.blk."@, layer, "conv_pw2.weight"@)
            ||| name == part_name("a.blk."@, layer, "ffn_norm_1.weight"@)
            ||| name == part_name("a.blk."@, layer, "ffn_up_1.weight"@)
            ||| name == part_name("a.blk."@, layer, "ffn_down_1.weight"@)
            ||| name == part_name("a.blk."@, layer, "ffn_post_norm_1.weight"@)
        },
    }
}

proof fn lemma_block_needs(layer: nat, name: Text)
    ensures
        whisper_block_needs(layer).contains(name) <==> block_reads(AudioArchitecture::Whisper, layer, name),
        conformer_block_needs(layer).contains(name) <==> block_reads(AudioArchitecture::GemmaConformer, layer, name),
{
    let w = whisper_block_needs(layer);
    assert(w[0] == part_name("audio.layers."@, layer, "ln1.weight"@));
    assert(w[1] == part_name("audio.layers."@, layer, "ln1.bias"@));
    assert(w[2] == part_name("audio.layers."@, layer, "ln2.weight"@));
    assert(w[3] == part_name("audio.layers."@, layer, "ln2.bias"@));
    assert(w[4] == part_name("audio.layers."@, layer, "attn_qkv.weight"@));
    assert(w[5] == part_name("audio.layers."@, layer, "attn_qkv.bias"@));
    assert(w[6] == part_name("audio.layers."@, layer, "attn_out.weight"@));
    assert(w[7] == part_name("audio.layers."@, layer, "attn_out.bias"@));
    assert(w[8] == part_name("audio.layers."@, layer, "ffn_up.weight"@));
    assert(w[9] == part_name("audio.layers."@, layer, "ffn_up.bias"@));
    assert(w[10] == part_name("audio.layers."@, layer, "ffn_down.weight"@));
    assert(w[11] == part_name("audio.layers."@, layer, "ffn_down.bias"@));
    let c = conformer_block_needs(layer);
    assert(c[0] == part_name("a.blk."@, layer, "ffn_norm.weight"@));
    assert(c[1] == part_name("a.blk."@, layer, "ffn_up.weight"@));
    assert(c[2] == part_name("a.blk."@, layer, "ffn_down.weight"@));
    assert(c[3] == part_name("a.blk."@, layer, "ffn_post_norm.weight"@));
    assert(c[4] == part_name("a.blk."@, layer, "attn_pre_norm.weight"@));
    assert(c[5] == part_name("a.blk."@, layer, "attn_q.weight"@));
    assert(c[6] == part_name("a.blk."@, layer, "attn_k.weight"@));
    assert(c[7] == part_name("a.blk."@, layer, "attn_v.weight"@));
    assert(c[8] == part_name("a.blk."@, layer, "per_dim_scale.weight"@));
    assert(c[9] == part_name("a.blk."@, layer, "attn_k_rel.weight"@));
    assert(c[10] == part_name("a.blk."@, layer, "attn_out.weight"@));
    assert(c[11] == part_name("a.blk."@, layer, "attn_post_norm.weight"@));
    assert(c[12] == part_name("a.blk."@, layer, "norm_conv.weight"@));
    assert(c[13] == part_name("a.blk."@, layer, "conv_pw1.weight"@));
    assert(c[14] == part_name("a.blk."@, layer, "conv_dw.weight"@));
    assert(c[15] == part_name("a.blk."@, layer, "conv_norm.weight"@));
    assert(c[16] == part_name("a.blk."@, layer, "conv_pw2.weight"@));
    assert(c[17] == part_name("a.blk."@, layer, "ffn_norm_1.weight"@));
    assert(c[18] == part_name("a.blk."@, layer, "ffn_up_1.weight"@));
    assert(c[19] == part_name("a.blk."@, layer, "ffn_down_1.weight"@));
    assert(c[20] == part_name("a.blk."@, layer, "ffn_post_norm_1.weight"@));
}

proof fn lemma_blocks_need(a: AudioArchitecture, layers: nat, name: Text)
    ensures
        blocks_need(a, layers).contains(name) <==> exists|l: nat|
            l < layers && #[trigger] block_reads(a, l, name),
    decreases layers,
{
    if layers > 0 {
        let last = (layers - 1) as nat;
        let before = blocks_need(a, last);
        let own = match a {
            AudioArchitecture::Whisper => whisper_block_needs(last),
            AudioArchitecture::GemmaConformer => conformer_block_needs(last),
        };
        lemma_blocks_need(a, last, name);
        lemma_block_needs(last, name);
        lemma_either(before, own, name);
    }
}

/// What two lists hold together.
proof fn lemma_either(a: Seq<Text>, b: Seq<Text>, name: Text)
    ensures
        (a + b).contains(name) <==> a.contains(name) || b.contains(name),
{
    if a.contains(name) {
        let i = a.index_of(name);
        assert((a + b)[i] == name);
    }
    if b.contains(name) {
        let i = b.index_of(name);
        assert((a + b)[a.len() + i] == name);
    }
    if (a + b).contains(name) {
        let i = (a + b).index_of(name);
        if i < a.len() {
            assert(a[i] == name);
        } else {
            assert(b[i - a.len()] == name);
        }
    }
}

/// What an encoder reads besides its blocks.
pub open spec fn reads_outside(a: AudioArchitecture, name: Text) -> bool {
    match a {
        AudioArchitecture::Whisper => name == "audio.conv1.weight"@ || name == "audio.conv2.weight"@,
        AudioArchitecture::GemmaConformer => {
            ||| name == "a.conv1d.0.weight"@
            ||| name == "a.conv1d.0.norm.weight"@
            ||| name == "a.conv1d.1.weight"@
            ||| name == "a.conv1d.1.norm.weight"@
            ||| name == "a.input_projection.weight"@
            ||| name == "a.pre_encode.out.weight"@
            ||| name == "a.pre_encode.out.bias"@
        },
    }
}

/// An encoder asks for what its blocks read and what it reads besides them,
/// and for nothing else.
pub proof fn law_encoder_reads(a: AudioArchitecture, layers: nat, name: Text)
    ensures
        (front_needs(a) + blocks_need(a, layers) + back_needs(a)).contains(name) <==> (
        reads_outside(a, name) || exists|l: nat| l < layers && #[trigger] block_reads(a, l, name)),
{
    let (front, blocks, back) = (front_needs(a), blocks_need(a, layers), back_needs(a));
    lemma_blocks_need(a, layers, name);
    lemma_either(front + blocks, back, name);
    lemma_either(front, blocks, name);
    match a {
        AudioArchitecture::Whisper => {
            assert(front[0] == "audio.conv1.weight"@);
            assert(front[1] == "audio.conv2.weight"@);
        },
        AudioArchitecture::GemmaConformer => {
            assert(front[0] == "a.conv1d.0.weight"@);
            assert(front[1] == "a.conv1d.0.norm.weight"@);
            assert(front[2] == "a.conv1d.1.weight"@);
            assert(front[3] == "a.conv1d.1.norm.weight"@);
            assert(front[4] == "a.input_projection.weight"@);
            assert(back[0] == "a.pre_encode.out.weight"@);
            assert(back[1] == "a.pre_encode.out.bias"@);
        },
    }
}

/// A step is kept exactly if it comes before the first that is padding.
pub proof fn law_steps_kept(steps: nat, valid: nat, t: int)
    requires
        0 <= t < steps,
    ensures
        step_flags(steps, valid).len() == steps,
        step_flags(steps, valid)[t] <==> t < valid,
{
}

/// A recording has a frame for every 160 samples, as long as the frame's 321
/// samples are there.
pub proof fn law_frames_fit(samples: int, n: int)
    requires
        n >= 1,
    ensures
        frames_in(samples) >= n <==> (n - 1) * 160 + 321 <= samples,
{
}

/// A name without any of the marks belongs to a layer, if it says so, and
/// otherwise nowhere.
pub proof fn law_other_names(name: Text)
    requires
        forall|mark: Text| #[trigger] is_mark(mark) ==> !(has(name, mark)),
    ensures
        has(name, "audio_encoder.layers."@) ==> whisper_tensor(name) == hf_layer_name(
            "audio.layers."@,
            name,
        ),
        !(has(name, "audio_encoder.layers."@)) ==> whisper_tensor(name) is None,
{
    assert(is_mark("audio_encoder.conv1.weight"@));
    assert(is_mark("audio_encoder.conv1.bias"@));
    assert(is_mark("audio_encoder.conv2.weight"@));
    assert(is_mark("audio_encoder.conv2.bias"@));
    assert(is_mark("audio_encoder.positional_embedding"@));
    assert(is_mark("audio_encoder.ln_post.weight"@));
    assert(is_mark("audio_encoder.ln_post.bias"@));
    assert(is_mark("audio_projector.linear_1.weight"@));
    assert(is_mark("audio_projector.linear_1.bias"@));
    assert(is_mark("audio_projector.0.weight"@));
    assert(is_mark("audio_projector.0.bias"@));
    assert(is_mark("audio_projector.linear_2.weight"@));
    assert(is_mark("audio_projector.linear_2.bias"@));
    assert(is_mark("audio_projector.2.weight"@));
    assert(is_mark("audio_projector.2.bias"@));
}

/// A checkpoint is a Whisper checkpoint exactly if some tensor belongs to an
/// audio encoder or an audio projector by its name.
pub proof fn law_architecture(names: Seq<Text>, i: int)
    ensures
        0 <= i < names.len() && (has(names[i], "audio_encoder."@) || has(
            names[i],
            "audio_projector."@,
        )) ==> architecture_of(names) == AudioArchitecture::Whisper,
        (forall|k: int|
            0 <= k < names.len() ==> !(has(#[trigger] names[k], "audio_encoder."@)) && !(has(
                names[k],
                "audio_projector."@,
            ))) ==> architecture_of(names) == AudioArchitecture::GemmaConformer,
{
    if 0 <= i < names.len() && (has(names[i], "audio_encoder."@) || has(
        names[i],
        "audio_projector."@,
    )) {
        assert(whisper_name(names[i]));
    }
}

} // verus!
