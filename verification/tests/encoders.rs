//! The vision and audio encoders: which tensors, how many steps, and where the
//! results go in the text.
use llm_engine::backends::audio::{
    attention_mask, conformer_attention, context_starts, conv_stride2_out_len, detect_architecture,
    dims_from_metadata, gemma4_num_frames, normalize_audio_tensors, query_blocks, valid_frames,
    valid_steps, AudioArchitecture, TARGET_SAMPLES,
};
use llm_engine::backends::multimodal::{
    find_longest_run, splice_audio_embeddings, splice_visual_embeddings, Splice, SpliceMismatch,
};
use llm_engine::backends::projections::{FuseError, Piece, Source};
use llm_engine::backends::vision::{
    bias_fits, channel_planes, dims_from_gguf, normalize_vision_tensors, position_use, root, settle_merge, spatial_merge_side,
    PositionUse, VisionDims, VisionError,
};
use llm_engine::loader::gguf::GgufValue;
use llm_engine::names::NameMap;

fn names(list: &[&str]) -> Vec<String> {
    list.iter().map(|s| s.to_string()).collect()
}

#[test]
fn detects_whisper_from_audio_encoder_prefix() {
    let weights = names(&["audio_encoder.layers.0.self_attn.q_proj.weight"]);
    assert_eq!(detect_architecture(&weights), AudioArchitecture::Whisper);
}

#[test]
fn detects_whisper_from_projector_prefix() {
    let weights = names(&["audio_projector.linear_1.weight"]);
    assert_eq!(detect_architecture(&weights), AudioArchitecture::Whisper);
}

#[test]
fn defaults_to_gemma_conformer_for_native_gguf_names() {
    let weights = names(&["a.conv1d.0.weight", "a.blk.0.attn_q.weight"]);
    assert_eq!(detect_architecture(&weights), AudioArchitecture::GemmaConformer);
}

#[test]
fn mel_bins_differ_by_architecture() {
    assert_eq!(AudioArchitecture::Whisper.num_mel_bins(), 80);
    assert_eq!(AudioArchitecture::GemmaConformer.num_mel_bins(), 128);
}

#[test]
fn audio_dimensions_come_from_the_metadata_or_the_architecture() {
    let mut m = NameMap::new();
    let d = dims_from_metadata(&m, AudioArchitecture::Whisper);
    assert_eq!((d.hidden_dim, d.num_layers, d.num_heads, d.projection_dim), (1280, 32, 20, 2560));
    m.insert("clip.audio.block_count".to_string(), GgufValue::U32(7));
    m.insert("clip.audio.embedding_length".to_string(), GgufValue::I32(512));
    let d = dims_from_metadata(&m, AudioArchitecture::GemmaConformer);
    assert_eq!((d.hidden_dim, d.num_layers, d.num_heads, d.projection_dim), (512, 7, 8, 1024));
}

#[test]
fn whisper_projections_are_fused() {
    let raw = names(&[
        "audio_encoder.layers.0.self_attn.q_proj.weight",
        "audio_encoder.layers.0.self_attn.k_proj.weight",
        "audio_encoder.layers.0.self_attn.v_proj.weight",
        "audio_encoder.layers.0.self_attn.q_proj.bias",
        "audio_encoder.layers.0.self_attn.v_proj.bias",
        "audio_encoder.conv1.weight",
    ]);
    let shapes = vec![vec![4, 4], vec![4, 4], vec![4, 4], vec![4], vec![4], vec![4, 80, 3]];
    let plan = normalize_audio_tensors(&raw, &shapes, 1).unwrap();
    assert_eq!(plan.get("audio.conv1.weight"), Some(&Source::Raw(5)));
    assert_eq!(
        plan.get("audio.layers.0.attn_qkv.weight"),
        Some(&Source::Join { axis: 0, q: Piece::Raw(0), k: Piece::Raw(1), v: Piece::Raw(2) })
    );
    assert_eq!(
        plan.get("audio.layers.0.attn_qkv.bias"),
        Some(&Source::Join { axis: 0, q: Piece::Raw(3), k: Piece::Zeros(4), v: Piece::Raw(4) })
    );
    assert!(plan.get("audio.layers.0.attn_q.weight").is_none());
}

#[test]
fn a_fused_weight_has_a_bias_even_where_none_was_loaded() {
    let raw = names(&["v.blk.0.attn_q.weight", "v.blk.0.attn_k.weight", "v.blk.0.attn_v.weight"]);
    let shapes = vec![vec![4, 6], vec![4, 6], vec![4, 6]];
    let plan = normalize_vision_tensors(&raw, &shapes, 1).unwrap();
    assert!(matches!(plan.get("vision.layers.0.attn_qkv.weight"), Some(Source::Join { axis: 1, .. })));
    assert_eq!(plan.get("vision.layers.0.attn_qkv.bias"), Some(&Source::Zeros(18)));
    let flat = vec![vec![4], vec![4], vec![4]];
    assert!(matches!(
        normalize_vision_tensors(&raw, &flat, 1),
        Err(VisionError::Fuse(FuseError::LowRank(_)))
    ));
}

#[test]
fn vision_names_of_both_namings_are_known() {
    let gguf = names(&["v.patch_embd.weight", "mm.0.weight", "v.blk.3.ln1.weight", "v.deepstack.1.fc1.weight"]);
    let shapes = vec![vec![1], vec![1], vec![1], vec![1]];
    let plan = normalize_vision_tensors(&gguf, &shapes, 0).unwrap();
    assert_eq!(plan.get("vision.patch_embed.weight"), Some(&Source::Raw(0)));
    assert_eq!(plan.get("projector.0.weight"), Some(&Source::Raw(1)));
    assert_eq!(plan.get("vision.layers.3.ln1.weight"), Some(&Source::Raw(2)));
    assert_eq!(plan.get("deepstack.1.fc1.weight"), Some(&Source::Raw(3)));
    let hf = names(&["vision_tower.embeddings.patch_embedding.weight"]);
    let plan = normalize_vision_tensors(&hf, &shapes[..1], 0).unwrap();
    assert_eq!(plan.get("vision.patch_embed.weight"), Some(&Source::Raw(0)));
    let bad = names(&["v.deepstack.x.fc1.weight"]);
    assert_eq!(
        normalize_vision_tensors(&bad, &shapes[..1], 0).unwrap_err(),
        VisionError::BadDeepstackIndex
    );
}

#[test]
fn frames_and_steps_are_counted() {
    assert_eq!(gemma4_num_frames(320), 0);
    assert_eq!(gemma4_num_frames(321), 1);
    assert_eq!(gemma4_num_frames(481), 2);
    assert_eq!(conv_stride2_out_len(3000), 1500);
    assert_eq!(conv_stride2_out_len(5), 3);
    assert!(valid_frames(AudioArchitecture::GemmaConformer, 16000) < valid_frames(AudioArchitecture::GemmaConformer, 32000));
    assert_eq!(
        valid_frames(AudioArchitecture::GemmaConformer, 2 * TARGET_SAMPLES),
        valid_frames(AudioArchitecture::GemmaConformer, TARGET_SAMPLES)
    );
    assert!(valid_steps(4, 4).is_none());
    assert_eq!(valid_steps(4, 1).unwrap(), vec![true, false, false, false]);
}

#[test]
fn local_attention_looks_back_one_chunk() {
    let a = conformer_attention();
    assert_eq!((a.chunk_size, a.past, a.future, a.context_size), (12, 12, 0, 24));
    assert_eq!(query_blocks(30, a.chunk_size), (3, 6));
    assert_eq!(context_starts(a, 30), vec![0, 12, 24]);
    let mask = attention_mask(a, 3, 30);
    assert_eq!(mask.len(), 3 * 12 * 24);
    let at = |b: usize, w: usize, c: usize| mask[(b * 12 + w) * 24 + c];
    // The first block's past is padding.
    assert!(!at(0, 0, 0) && at(0, 0, 12));
    assert!(at(1, 5, 5) && at(1, 5, 17));
    assert!(!at(1, 5, 4) && !at(1, 5, 18));
    // Steps 30 and later are padding.
    assert!(at(2, 11, 17) && !at(2, 11, 18));
}

#[test]
fn the_longest_run_is_the_placeholder() {
    assert_eq!(find_longest_run(&[1, 2, 2, 2, 3, 3, 3]), (3, 1));
    assert_eq!(find_longest_run(&[]), (0, 0));
    let mut tokens = vec![9u32; 2];
    tokens.extend(vec![5u32; 16]);
    tokens.push(8);
    let n = tokens.len();
    assert_eq!(
        splice_audio_embeddings(1, n, &tokens, 16).unwrap(),
        Some(Splice { start: 2, len: 16, after_start: 18, after_len: 1 })
    );
    assert_eq!(
        splice_audio_embeddings(1, n, &tokens, 15).unwrap_err(),
        SpliceMismatch { run_start: 2, run_len: 16, encoded_len: 15 }
    );
    assert_eq!(splice_audio_embeddings(2, n, &tokens, 16).unwrap(), None);
}

#[test]
fn an_image_stands_between_its_marks() {
    let tokens = [1, 100, 7, 8, 9, 101, 2];
    assert_eq!(
        splice_visual_embeddings(1, 7, &tokens, 100, 101, 3).unwrap(),
        Some(Splice { start: 2, len: 3, after_start: 5, after_len: 2 })
    );
    assert_eq!(splice_visual_embeddings(1, 7, &[1, 2, 3], 100, 101, 3).unwrap(), None);
}

#[test]
fn merged_patches_form_a_square() {
    assert_eq!(root(0), 0);
    assert_eq!(root(255), 15);
    assert_eq!(root(256), 16);
    assert_eq!(spatial_merge_side(256, 2), Some(8));
    assert_eq!(spatial_merge_side(256, 1), None);
    assert_eq!(settle_merge(None, 64, 2), 2);
    assert_eq!(settle_merge(Some(&vec![10, 256]), 64, 1), 2);
}

#[test]
fn positions_are_taken_as_far_as_they_go() {
    assert_eq!(position_use(&vec![10, 8], 4), PositionUse::FirstRows(4));
    assert_eq!(position_use(&vec![4, 8], 4), PositionUse::Whole);
    assert_eq!(position_use(&vec![2, 10, 8], 4), PositionUse::Factorized);
}

#[test]
fn vision_dimensions_come_from_the_metadata() {
    let unknown = VisionDims::unknown();
    let mut m = NameMap::new();
    m.insert("clip.vision.image_size".to_string(), GgufValue::U32(512));
    let d = dims_from_gguf(&m);
    assert_eq!(d.image_size, 512);
    assert_eq!(d.patch_size, unknown.patch_size);
}

#[test]
fn pixels_are_laid_out_by_channel() {
    assert_eq!(channel_planes(&[1, 2, 3, 4, 5, 6]), vec![1, 4, 2, 5, 3, 6]);
    assert_eq!(channel_planes(&[]), Vec::<u8>::new());
}

#[test]
fn a_bias_must_be_as_wide_as_the_rows() {
    assert!(bias_fits(8, 8));
    assert!(!bias_fits(1, 8));
    assert!(!bias_fits(16, 8));
}
