//! One step of inference: batches, positions, the key and value cache, sampling.
use llm_engine::backend::DummyBackend;
use llm_engine::backends::attention::{norm_heads, token_positions, PositionError, RawKvCache};
use llm_engine::backends::forward::{
    advance_lengths, audio_source, check_batch, deepstack_slot, evictions, head_counts,
    last_tokens, needs_load, next_tokens, op_inputs, splices_image, spliced_width, transposes,
    visual_source, BatchError, EmbedSource,
};
use llm_engine::backends::kv::{
    active_blocks, blocks_to_clear, causal_mask, plan_chunks, plan_history, quant_range,
    split_block, window_view, Chunk, History, NoBlock,
};
use llm_engine::backends::rotation::generate_hadamard_orthogonal;
use llm_engine::floats::{argmax, is_above, is_nan, total_rank_of, total_rank_of_double};
use llm_engine::graph::ops::{ComputeGraph, Operator};
use llm_engine::sampler::{draw, first_reaching, greedy, nucleus_size, order_descending, penalized, top_k_keep};
use llm_engine::types::{BatchInput, HiddenAct, KvDtype, SampleParams};

fn bits(values: &[f32]) -> Vec<u32> {
    values.iter().map(|v| v.to_bits()).collect()
}

fn batch(seq_ids: Vec<u64>, tokens: usize, cu_seqlens: Vec<u32>) -> BatchInput {
    let n = seq_ids.len();
    BatchInput {
        seq_ids,
        token_ids: vec![0u32; tokens],
        cu_seqlens,
        block_tables: (0..n as u32).map(|i| vec![i]).collect(),
        is_prefill: vec![true; n],
    }
}

#[test]
fn build_cos_sin_handles_mixed_length_batch_without_cross_contamination() {
    let batch = BatchInput {
        seq_ids: vec![1, 2],
        token_ids: vec![0u32; 8],
        cu_seqlens: vec![0, 3, 8],
        block_tables: vec![vec![0], vec![1]],
        is_prefill: vec![true, true],
    };

    let mut kv_cache = RawKvCache::new();
    kv_cache.set_seq_len(1, 10);
    kv_cache.set_seq_len(2, 0);

    let head_dim = 4;
    let half_dim = head_dim / 2;
    let inv_freq: Vec<f32> =
        (0..half_dim).map(|i| 1.0 / 10000.0f32.powf(2.0 * i as f32 / head_dim as f32)).collect();

    let total_tokens = batch.token_ids.len();
    let positions = token_positions(&batch, &kv_cache, total_tokens)
        .expect("build_cos_sin must not error on a mixed-length packed batch");
    let cos: Vec<Vec<f32>> = positions
        .iter()
        .map(|&p| inv_freq.iter().map(|f| (p as f32 * f).cos()).collect())
        .collect();
    assert_eq!((cos.len(), cos[0].len()), (total_tokens, half_dim));

    let expected_positions: [f32; 8] = [10.0, 11.0, 12.0, 0.0, 1.0, 2.0, 3.0, 4.0];
    for (i, &expected_pos) in expected_positions.iter().enumerate() {
        let expected_cos = expected_pos.cos();
        assert!(
            (cos[i][0] - expected_cos).abs() < 1e-4,
            "token {i}: expected cos(pos={expected_pos}) = {expected_cos}, got {}",
            cos[i][0]
        );
    }
}

#[test]
fn build_cos_sin_rejects_cu_seqlens_token_count_mismatch() {
    let batch = BatchInput {
        seq_ids: vec![1],
        token_ids: vec![0u32; 4],
        cu_seqlens: vec![0, 3],
        block_tables: vec![vec![0]],
        is_prefill: vec![true],
    };
    let kv_cache = RawKvCache::new();
    let result = token_positions(&batch, &kv_cache, 4);
    assert!(result.is_err(), "cu_seqlens/token-count mismatch must be a hard error, not silently truncated/padded");
}

#[test]
fn positions_fail_in_two_ways() {
    let cache = RawKvCache::new();
    assert_eq!(
        token_positions(&batch(vec![1], 4, vec![0, 3]), &cache, 4).unwrap_err(),
        PositionError::LastBoundary
    );
    assert_eq!(
        token_positions(&batch(vec![1], 4, vec![1, 4]), &cache, 4).unwrap_err(),
        PositionError::TokenCount
    );
}

#[test]
fn the_cache_knows_how_long_sequences_are() {
    let mut cache = RawKvCache::new();
    assert_eq!(cache.get_seq_len(7), 0);
    cache.set_seq_len(7, 5);
    cache.set_seq_len(8, 6);
    assert_eq!(cache.get_seq_len(7), 5);
    cache.clear(7);
    assert_eq!(cache.get_seq_len(7), 0);
    assert_eq!(cache.get_seq_len(8), 6);
    advance_lengths(&mut cache, &batch(vec![7, 8], 5, vec![0, 2, 5]));
    assert_eq!((cache.get_seq_len(7), cache.get_seq_len(8)), (2, 9));
}

#[test]
fn heads_are_normed_one_by_one_where_the_weight_is_one_head_wide() {
    assert_eq!(norm_heads(8, 8, 3), Ok(None));
    assert_eq!(norm_heads(8, 2, 3), Ok(Some(4)));
    assert_eq!(norm_heads(8, 3, 3), Ok(None));
    assert_eq!(norm_heads(8, 2, 4), Err(4));
}

#[test]
fn forward_pass_rejects_cu_seqlens_mismatched_with_token_ids() {
    let batch = BatchInput {
        seq_ids: vec![1, 2],
        token_ids: vec![0u32; 8],
        cu_seqlens: vec![0, 3, 7],
        block_tables: vec![vec![0], vec![1]],
        is_prefill: vec![true, true],
    };

    let err = check_batch(&batch).expect_err(
        "cu_seqlens whose last entry doesn't match total token count must be a hard error"
    );
    let err = err.message();
    assert!(
        err.contains("cu_seqlens"),
        "expected a cu_seqlens-related error, got: {err}"
    );
}

#[test]
fn forward_pass_rejects_cu_seqlens_wrong_length() {
    let batch = BatchInput {
        seq_ids: vec![1, 2],
        token_ids: vec![0u32; 8],
        cu_seqlens: vec![0, 8],
        block_tables: vec![vec![0], vec![1]],
        is_prefill: vec![true, true],
    };
    let err = check_batch(&batch).expect_err(
        "cu_seqlens with the wrong number of entries must be a hard error"
    );
    let err = err.message();
    assert!(
        err.contains("cu_seqlens"),
        "expected a cu_seqlens-related error, got: {err}"
    );
}

#[test]
fn batches_are_refused_in_words() {
    assert_eq!(check_batch(&batch(vec![], 0, vec![0])).unwrap_err().message(), "empty batch: seq_ids is empty");
    assert_eq!(
        check_batch(&batch(vec![1, 2], 8, vec![0, 8])).unwrap_err().message(),
        "forward_pass: cu_seqlens length 2 does not match seq_ids length 2 + 1"
    );
    assert_eq!(
        check_batch(&batch(vec![1], 8, vec![0, 7])).unwrap_err(),
        BatchError::WrongTotal { last: Some(7), tokens: 8 }
    );
    assert!(check_batch(&batch(vec![1, 2], 8, vec![0, 3, 8])).is_ok());
}

#[test]
fn logits_are_read_at_each_last_token() {
    assert_eq!(last_tokens(&batch(vec![1, 2], 8, vec![0, 3, 8])).unwrap(), vec![2, 7]);
    assert_eq!(
        last_tokens(&batch(vec![1, 2], 3, vec![0, 3, 3])).unwrap_err(),
        BatchError::NoTokens { sequence: 1, from: 3, to: 3 }
    );
    assert_eq!(next_tokens(&vec![bits(&[0.5, 2.0, 2.0]), bits(&[-1.0, -2.0])]), vec![1, 0]);
}

fn text(s: &str) -> String {
    s.to_string()
}

#[test]
fn activations_go_once_nothing_reads_them() {
    let mut graph = ComputeGraph::new();
    graph.add_op(Operator::Add { lhs: text("a"), rhs: text("b"), output: text("c") });
    graph.add_op(Operator::Activation { input: text("c"), output: text("d"), act: HiddenAct::SiLU });
    graph.add_op(Operator::Mul { lhs: text("a"), rhs: text("d"), output: text("logits") });
    assert_eq!(op_inputs(&graph.ops[2]), vec!["a", "d"]);
    let drops = evictions(&graph);
    assert!(drops[0].contains(&text("b")));
    assert!(!drops[0].contains(&text("a")));
    assert_eq!(drops[1], vec!["c"]);
    assert!(drops[2].contains(&text("a")) && drops[2].contains(&text("d")));
    assert!(drops.iter().all(|d| !d.contains(&text("logits"))));
}

#[test]
fn embeddings_come_from_where_they_last_were() {
    let a = Some(text("a.png"));
    let b = Some(text("b.png"));
    assert_eq!(visual_source(&None, &None, true, true), EmbedSource::Dummy);
    assert_eq!(visual_source(&a, &a, true, true), EmbedSource::Cached);
    assert_eq!(visual_source(&a, &b, true, true), EmbedSource::Encode);
    assert_eq!(visual_source(&a, &b, false, true), EmbedSource::Cached);
    assert_eq!(visual_source(&a, &b, false, false), EmbedSource::Missing);
    assert_eq!(audio_source(&a, &b, false, false), EmbedSource::Dummy);
    assert!(!needs_load(&a, &a, true));
    assert!(needs_load(&a, &a, false));
    assert!(needs_load(&a, &b, true));
    assert!(splices_image(false, true) && !splices_image(false, false));
}

#[test]
fn shapes_decide_how_to_multiply() {
    assert!(transposes(4, &[8, 4]));
    assert!(!transposes(4, &[4, 8]));
    assert_eq!(head_counts(64, 16, 8), (8, 2, 4));
    assert_eq!(spliced_width(10, 8), 8);
    assert_eq!(spliced_width(6, 8), 6);
    assert_eq!(deepstack_slot(&Some(vec![true, false, true]), 2), Some(1));
    assert_eq!(deepstack_slot(&Some(vec![true, false, true]), 1), None);
    assert_eq!(deepstack_slot(&None, 0), None);
}

#[test]
fn tokens_are_spread_over_their_blocks() {
    let chunks = plan_chunks(3, 6, 4, &[10, 11, 12]).unwrap();
    assert_eq!(
        chunks,
        vec![
            Chunk { first: 0, len: 1, block: 10, offset: 3 },
            Chunk { first: 1, len: 4, block: 11, offset: 0 },
            Chunk { first: 5, len: 1, block: 12, offset: 0 },
        ]
    );
    assert_eq!(plan_chunks(3, 6, 4, &[10, 11]).unwrap_err(), NoBlock { index: 2, table_len: 2 });
    assert_eq!(split_block(4, 1, 2), (Some(1), Some((3, 1))));
    assert_eq!(split_block(4, 0, 4), (None, None));
    assert_eq!(active_blocks(3, 6, 4, 9), 3);
    assert_eq!(active_blocks(3, 6, 4, 2), 2);
}

#[test]
fn history_is_used_as_far_as_it_reaches() {
    assert_eq!(plan_history(Some(9), false, true, 5, 4), History::Reuse);
    assert_eq!(plan_history(Some(5), false, false, 5, 4), History::Extend);
    assert_eq!(plan_history(Some(5), false, true, 5, 4), History::Rebuild);
    assert_eq!(plan_history(Some(9), true, false, 5, 4), History::Rebuild);
    assert_eq!(plan_history(None, false, false, 5, 4), History::Rebuild);
    assert_eq!(window_view(10, Some(4)), (6, 4));
    assert_eq!(window_view(3, Some(4)), (0, 3));
    assert_eq!(window_view(3, None), (0, 3));
}

#[test]
fn the_mask_hides_the_future() {
    assert!(causal_mask(1, 5).is_none());
    assert_eq!(
        causal_mask(2, 3).unwrap(),
        vec![false, false, true, false, false, false]
    );
    let mask = causal_mask(3, 3).unwrap();
    for q in 0..3 {
        for k in 0..3 {
            assert_eq!(mask[q * 3 + k], k > q);
        }
    }
}

#[test]
fn clearing_a_sequence_clears_its_blocks_in_every_layer() {
    let mut cleared = blocks_to_clear(2, &[5, 6]);
    cleared.sort();
    assert_eq!(cleared, vec![(0, 5), (0, 6), (1, 5), (1, 6)]);
    assert_eq!(quant_range(KvDtype::Q8), (127, 128));
    assert_eq!(quant_range(KvDtype::Q4), (7, 8));
}

#[test]
fn test_hadamard_orthogonal() {
    let d = 128;
    let (signs, p2) = generate_hadamard_orthogonal(d);
    let scale = (p2 as f32).sqrt();
    let h_vec: Vec<f32> =
        signs.iter().flat_map(|row| row.iter().map(|&s| s as f32 / scale)).collect();
    assert_eq!(h_vec.len(), d * d);

    let mut max_diff = 0.0f32;
    for i in 0..d {
        for j in 0..d {
            let dot: f32 = (0..d).map(|k| h_vec[i * d + k] * h_vec[j * d + k]).sum();
            let expected = if i == j { 1.0 } else { 0.0 };
            max_diff = max_diff.max((dot - expected).abs());
        }
    }
    assert!(max_diff < 1e-4, "Hadamard matrix is not orthogonal: max diff = {}", max_diff);
}

#[test]
fn a_rotation_of_another_size_keeps_the_rest_as_it_is() {
    let (signs, p2) = generate_hadamard_orthogonal(6);
    assert_eq!(p2, 4);
    assert_eq!(signs[4], vec![0, 0, 0, 0, 1, 0]);
    assert_eq!(signs[5], vec![0, 0, 0, 0, 0, 1]);
    assert_eq!(signs[1][..4], [1, -1, 1, -1]);
}

#[test]
fn bits_are_ordered_as_the_numbers_are() {
    let values = [
        f32::NEG_INFINITY, -3.5, -1.0, -1e-40, -0.0, 0.0, 1e-40, 0.5, 1.0, 2.0, f32::INFINITY, f32::NAN,
    ];
    for &a in values.iter() {
        assert_eq!(is_nan(a.to_bits()), a.is_nan());
        for &b in values.iter() {
            assert_eq!(is_above(a.to_bits(), b.to_bits()), a > b, "{} {}", a, b);
            assert_eq!(
                total_rank_of(a.to_bits()) < total_rank_of(b.to_bits()),
                a.total_cmp(&b).is_lt()
            );
            let (a, b) = (f64::from(a), f64::from(b));
            assert_eq!(
                total_rank_of_double(a.to_bits()) < total_rank_of_double(b.to_bits()),
                a.total_cmp(&b).is_lt()
            );
        }
    }
}

#[test]
fn the_first_greatest_number_is_the_peak() {
    assert_eq!(argmax(&bits(&[1.0, 3.0, 3.0, 2.0])), 1);
    assert_eq!(argmax(&bits(&[-2.0, -1.0])), 1);
    assert_eq!(greedy(&bits(&[0.0, 5.0, 1.0])).unwrap(), 1);
    assert!(greedy(&[]).is_err());
}

#[test]
fn sampling_keeps_the_best_and_draws_by_sums() {
    assert_eq!(
        top_k_keep(&bits(&[0.1, 0.9, 0.5, 0.7]), 2),
        vec![false, true, false, true]
    );
    assert_eq!(top_k_keep(&bits(&[0.1, 0.9]), 0), vec![true, true]);
    let sums = bits(&[0.5, 0.8, 1.0]);
    assert_eq!(first_reaching(&sums, 0.6f32.to_bits()), Some(1));
    assert_eq!(first_reaching(&sums, 1.5f32.to_bits()), None);
    assert_eq!(nucleus_size(&sums, 0.7f32.to_bits()), 2);
    assert_eq!(draw(&sums, &[30, 20, 10], 0.9f32.to_bits()), 10);
    assert_eq!(draw(&sums, &[30, 20, 10], 0.1f32.to_bits()), 30);
}

#[test]
fn each_token_of_the_history_is_penalized_once() {
    let mut places = penalized(&[3, 1, 3, 9], 5);
    places.sort();
    assert_eq!(places, vec![1, 3]);
}

#[test]
fn the_dummy_backend_always_says_the_same() {
    let b = DummyBackend::new();
    let out = b.forward_pass(&batch(vec![4, 5], 2, vec![0, 1, 2]));
    assert_eq!(out.seq_ids, vec![4, 5]);
    assert_eq!(out.next_tokens, vec![6, 7]);
    assert_eq!(b.sample(&[], &SampleParams::default(), &[]), 42);
    assert_eq!(b.eos_token_id(), 2);
    assert_eq!(b.name(), "dummy");
    assert_eq!(b.kv_cache_config().block_size, 4);
    assert_eq!(DummyBackend::default().meta.vocab_size, b.meta.vocab_size);
}

#[test]
fn what_is_no_number_comes_last() {
    let nan = f32::NAN;
    assert_eq!(order_descending(&bits(&[0.1, nan, 0.7, 0.2, nan, 0.7])), vec![2, 5, 3, 0, 1, 4]);
    assert_eq!(order_descending(&bits(&[-0.0, 0.0, f32::NEG_INFINITY, nan, f32::INFINITY])), vec![4, 0, 1, 2, 3]);
    assert!(order_descending(&[]).is_empty());
    let many: Vec<f32> = (0..257).map(|i| ((i * 73) % 257) as f32).collect();
    let order = order_descending(&bits(&many));
    assert_eq!(order.iter().map(|i| many[*i]).collect::<Vec<f32>>(), (0..257).rev().map(|i| i as f32).collect::<Vec<f32>>());
}

#[test]
fn nothing_is_below_what_is_no_number() {
    let nan = f32::NAN;
    assert_eq!(top_k_keep(&bits(&[0.1, nan, 0.9]), 1), vec![false, true, true]);
    assert_eq!(top_k_keep(&bits(&[0.1, nan, 0.9]), 2), vec![true, true, true]);
    assert_eq!(top_k_keep(&bits(&[nan, nan, 0.9]), 2), vec![true, true, true]);
    assert_eq!(top_k_keep(&bits(&[-0.0, 0.0, -1.0]), 1), vec![true, true, false]);
}
