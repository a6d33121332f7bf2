//! Packed checkpoints: component names, fields of words, and their dequantization.
use llm_engine::json::{parse_json, Json};
use llm_engine::loader::awq::{awq_component, dequantize_awq_linear};
use llm_engine::loader::gptq::{dequantize_gptq_linear, gptq_component};
use llm_engine::loader::mlx::{
    dequantize_mlx_linear, detect_mlx_quantization, mlx_component, MlxError,
};
use llm_engine::loader::packed::{div_up, field_of_word, PackError, Unpacked, WordMatrix};
use llm_engine::quantization::{parse_q8_0_block, Q8_0_BLOCK_SIZE};

const AWQ_REVERSE_ORDER: [u32; 8] = [0, 4, 1, 5, 2, 6, 3, 7];

fn words(data: Vec<u32>, rows: usize, cols: usize) -> WordMatrix {
    WordMatrix { rows, cols, data }
}

fn json(text: &str) -> Json {
    parse_json(text).unwrap()
}

/// The weights of an AWQ or GPTQ matrix, an output per row: `scales[group][output]`.
fn scaled(u: &Unpacked, scales: &[Vec<f32>]) -> Vec<Vec<f32>> {
    let outputs = u.values[0].len();
    (0..outputs)
        .map(|o| {
            u.values
                .iter()
                .zip(u.groups.iter())
                .map(|(row, &g)| row[o] as f32 * scales[g][o])
                .collect()
        })
        .collect()
}

/// The weights of an MLX matrix: `scales[output][group]` and `biases[output][group]`.
fn shifted(u: &Unpacked, scales: &[Vec<f32>], biases: &[Vec<f32>]) -> Vec<Vec<f32>> {
    u.values
        .iter()
        .enumerate()
        .map(|(o, row)| {
            row.iter()
                .zip(u.groups.iter())
                .map(|(&v, &g)| v as f32 * scales[o][g] + biases[o][g])
                .collect()
        })
        .collect()
}

#[test]
fn awq_nibble_order_round_trips() {
    let logical_values: [u32; 8] = [10, 14, 11, 15, 12, 0, 13, 1];
    let mut packed: u32 = 0;
    for (i, &v) in logical_values.iter().enumerate() {
        let shift = AWQ_REVERSE_ORDER[i] * 4;
        packed |= v << shift;
    }
    let qweight = words(vec![packed], 1, 1);
    let qzeros = words(vec![0u32], 1, 1);

    let unpacked = dequantize_awq_linear(&qweight, &qzeros, 1).unwrap();
    let dequant = scaled(&unpacked, &[vec![1.0f32; 8]]);
    let got: Vec<f32> = dequant.iter().map(|row| row[0]).collect();
    let expected: Vec<f32> = logical_values.iter().map(|&v| v as f32).collect();
    assert_eq!(got, expected);
}

#[test]
fn awq_component_recognizes_all_three_suffixes() {
    assert_eq!(awq_component("model.layers.0.mlp.down_proj.qweight"), Some(("model.layers.0.mlp.down_proj", "qweight")));
    assert_eq!(awq_component("model.layers.0.mlp.down_proj.qzeros"), Some(("model.layers.0.mlp.down_proj", "qzeros")));
    assert_eq!(awq_component("model.layers.0.mlp.down_proj.scales"), Some(("model.layers.0.mlp.down_proj", "scales")));
    assert_eq!(awq_component("model.layers.0.input_layernorm.weight"), None);
}

#[test]
fn awq_zero_points_are_subtracted() {
    // Every weight nibble 9, every zero point 4, two groups of one input each.
    let qweight = words(vec![0x9999_9999, 0x9999_9999], 2, 1);
    let qzeros = words(vec![0x4444_4444, 0x9999_9999], 2, 1);
    let u = dequantize_awq_linear(&qweight, &qzeros, 1).unwrap();
    assert_eq!(u.groups, vec![0, 1]);
    assert_eq!(u.values, vec![vec![5; 8], vec![0; 8]]);
}

#[test]
fn awq_refuses_shapes_that_do_not_agree() {
    let qweight = words(vec![0; 4], 2, 2);
    let narrow = words(vec![0; 2], 2, 1);
    assert!(matches!(dequantize_awq_linear(&qweight, &narrow, 1), Err(PackError::OutMismatch(2, 1))));
    let too_few = words(vec![0; 2], 1, 2);
    assert!(matches!(dequantize_awq_linear(&qweight, &too_few, 1), Err(PackError::GroupMismatch(1, 2))));
}

#[test]
fn gptq_sequential_order_round_trips() {
    let logical_values: [u32; 8] = [10, 14, 11, 15, 12, 0, 13, 1];
    let mut packed_col0: u32 = 0;
    for (k, &v) in logical_values.iter().enumerate() {
        packed_col0 |= v << (k as u32 * 4);
    }
    let mut qweight_data = vec![0u32; 8];
    qweight_data[0] = packed_col0;
    let qweight = words(qweight_data, 1, 8);
    let qzeros = words(vec![0u32], 1, 1);

    let unpacked = dequantize_gptq_linear(&qweight, &qzeros, None, 8).unwrap();
    let dequant = scaled(&unpacked, &[vec![1.0f32; 8]]);
    let got: Vec<f32> = dequant[0].clone();
    let expected: Vec<f32> = logical_values.iter().map(|&v| v as f32 - 1.0).collect();
    assert_eq!(got, expected);
}

#[test]
fn gptq_component_recognizes_all_four_suffixes() {
    assert_eq!(gptq_component("model.layers.0.mlp.down_proj.qweight"), Some(("model.layers.0.mlp.down_proj", "qweight")));
    assert_eq!(gptq_component("model.layers.0.mlp.down_proj.qzeros"), Some(("model.layers.0.mlp.down_proj", "qzeros")));
    assert_eq!(gptq_component("model.layers.0.mlp.down_proj.scales"), Some(("model.layers.0.mlp.down_proj", "scales")));
    assert_eq!(gptq_component("model.layers.0.mlp.down_proj.g_idx"), Some(("model.layers.0.mlp.down_proj", "g_idx")));
    assert_eq!(gptq_component("model.layers.0.input_layernorm.weight"), None);
}

#[test]
fn gptq_groups_follow_the_index_list() {
    let qweight = words(vec![0x7654_3210; 8], 1, 8);
    let qzeros = words(vec![0x0000_0000, 0x1111_1111], 2, 1);
    let order: Vec<u32> = vec![1, 0, 1, 0, 1, 0, 1, 0];
    let u = dequantize_gptq_linear(&qweight, &qzeros, Some(&order), 4).unwrap();
    assert_eq!(u.groups, vec![1, 0, 1, 0, 1, 0, 1, 0]);
    // Input `k` holds `k`; a zero point of `z` takes `z + 1` off it.
    let output: Vec<i32> = u.values.iter().map(|row| row[3]).collect();
    assert_eq!(output, vec![-2, 0, 0, 2, 2, 4, 4, 6]);
}

#[test]
fn gptq_refuses_an_index_list_that_is_too_short() {
    let qweight = words(vec![0; 8], 1, 8);
    let qzeros = words(vec![0], 1, 1);
    let order: Vec<u32> = vec![0; 7];
    assert!(matches!(
        dequantize_gptq_linear(&qweight, &qzeros, Some(&order), 8),
        Err(PackError::IndexMismatch(7, 8))
    ));
}

#[test]
fn mlx_component_recognizes_all_three_suffixes() {
    assert_eq!(
        mlx_component("model.layers.0.self_attn.q_proj.weight"),
        Some(("model.layers.0.self_attn.q_proj", "weight"))
    );
    assert_eq!(
        mlx_component("model.layers.0.self_attn.q_proj.scales"),
        Some(("model.layers.0.self_attn.q_proj", "scales"))
    );
    assert_eq!(
        mlx_component("model.layers.0.self_attn.q_proj.biases"),
        Some(("model.layers.0.self_attn.q_proj", "biases"))
    );
    assert_eq!(
        mlx_component("model.layers.0.input_layernorm.weight"),
        Some(("model.layers.0.input_layernorm", "weight"))
    );
    assert_eq!(mlx_component("model.layers.0.input_layernorm.bias"), None);
}

#[test]
fn detect_mlx_quantization_parses_real_config_shape() {
    let cfg = json(r#"{"quantization": {"group_size": 64, "bits": 4, "mode": "affine"}}"#);
    let q = detect_mlx_quantization(&cfg).unwrap().unwrap();
    assert_eq!(q.group_size, 64);
    assert_eq!(q.bits, 4);
}

#[test]
fn detect_mlx_quantization_none_for_plain_model() {
    let cfg = json(r#"{"hidden_size": 4096}"#);
    assert!(detect_mlx_quantization(&cfg).unwrap().is_none());
}

#[test]
fn detect_mlx_quantization_rejects_unsupported_mode() {
    let cfg = json(r#"{"quantization": {"group_size": 64, "bits": 4, "mode": "logarithmic"}}"#);
    assert!(detect_mlx_quantization(&cfg).is_err());
}

#[test]
fn detect_mlx_quantization_rejects_unsupported_bits() {
    let cfg = json(r#"{"quantization": {"group_size": 64, "bits": 3, "mode": "affine"}}"#);
    assert!(detect_mlx_quantization(&cfg).is_err());
}

#[test]
fn mlx_settings_are_refused_one_by_one() {
    let mode = json(r#"{"quantization": {"group_size": 64, "bits": 4, "mode": "logarithmic"}}"#);
    match detect_mlx_quantization(&mode) {
        Err(MlxError::UnsupportedMode(m)) => assert_eq!(m, "logarithmic"),
        other => panic!("{:?}", other.is_ok()),
    }
    let no_group = json(r#"{"quantization": {"bits": 4}}"#);
    assert!(matches!(detect_mlx_quantization(&no_group), Err(MlxError::MissingGroupSize)));
    let no_bits = json(r#"{"quantization": {"group_size": 64}}"#);
    assert!(matches!(detect_mlx_quantization(&no_bits), Err(MlxError::MissingBits)));
    let bits = json(r#"{"quantization": {"group_size": 64, "bits": 3}}"#);
    assert!(matches!(detect_mlx_quantization(&bits), Err(MlxError::UnsupportedBits(3))));
    let zero = json(r#"{"quantization": {"group_size": 0, "bits": 4}}"#);
    assert!(matches!(detect_mlx_quantization(&zero), Err(MlxError::ZeroGroupSize)));
}

#[test]
fn mlx_4bit_nibble_order_round_trips() {
    let logical_values: [u32; 8] = [12, 2, 9, 7, 9, 14, 5, 9];
    let mut packed: u32 = 0;
    for (i, &v) in logical_values.iter().enumerate() {
        packed |= v << (4 * i);
    }
    let weight = words(vec![packed], 1, 1);
    let unpacked = dequantize_mlx_linear(&weight, (1, 1), (1, 1), 8, 4).unwrap();
    let dequant = shifted(&unpacked, &[vec![1.0f32]], &[vec![0.0f32]]);
    assert_eq!((dequant.len(), dequant[0].len()), (1, 8));
    let expected: Vec<f32> = logical_values.iter().map(|&v| v as f32).collect();
    assert_eq!(dequant[0], expected);
}

#[test]
fn mlx_8bit_nibble_order_round_trips() {
    let logical_values: [u32; 4] = [255, 128, 0, 64];
    let mut packed: u32 = 0;
    for (i, &v) in logical_values.iter().enumerate() {
        packed |= v << (8 * i);
    }
    let weight = words(vec![packed], 1, 1);
    let unpacked = dequantize_mlx_linear(&weight, (1, 1), (1, 1), 4, 8).unwrap();
    let dequant = shifted(&unpacked, &[vec![2.0f32]], &[vec![1.0f32]]);
    let expected: Vec<f32> = logical_values.iter().map(|&v| v as f32 * 2.0 + 1.0).collect();
    assert_eq!(dequant[0], expected);
}

#[test]
fn matches_real_mlx_checkpoint_bytes() {
    let weight = words(vec![2515106092u32, 2640899244u32], 1, 2);
    let scales = [vec![-0.00299072265625f32]];
    let biases = [vec![0.0269775390625f32]];

    let unpacked = dequantize_mlx_linear(&weight, (1, 1), (1, 1), 64, 4).unwrap();
    let dequant = shifted(&unpacked, &scales, &biases);
    let got: Vec<f32> = dequant[0].clone();
    let expected: Vec<f32> = vec![
        -0.0089111328125, 0.02099609375, 6.103515625e-05, 0.00604248046875,
        6.103515625e-05, -0.014892578125, 0.01202392578125, 6.103515625e-05,
        -0.0089111328125, -0.0029296875, -0.0089111328125, -0.014892578125,
        0.0030517578125, 0.009033203125, -0.01190185546875, 6.103515625e-05,
    ];
    assert_eq!(got.len(), expected.len());
    for (g, e) in got.iter().zip(expected.iter()) {
        assert!((g - e).abs() < 1e-6, "got {g}, expected {e}");
    }
}

#[test]
fn mlx_refuses_shapes_that_do_not_agree() {
    let weight = words(vec![0; 2], 2, 1);
    assert!(matches!(dequantize_mlx_linear(&weight, (1, 1), (1, 1), 8, 4), Err(PackError::OutMismatch(2, 1))));
    assert!(matches!(dequantize_mlx_linear(&weight, (2, 2), (2, 2), 8, 4), Err(PackError::GroupMismatch(2, 1))));
    assert!(matches!(dequantize_mlx_linear(&weight, (2, 1), (1, 1), 8, 4), Err(PackError::BiasMismatch(1, 1))));
}

#[test]
fn fields_of_a_word_are_read_from_the_lowest_bits() {
    assert_eq!(field_of_word(0x8765_4321, 4, 0), 1);
    assert_eq!(field_of_word(0x8765_4321, 4, 7), 8);
    assert_eq!(field_of_word(0x8765_4321, 8, 0), 0x21);
    assert_eq!(field_of_word(0x8765_4321, 8, 3), 0x87);
}

#[test]
fn div_up_rounds_up() {
    assert_eq!(div_up(0, 8), 0);
    assert_eq!(div_up(8, 8), 1);
    assert_eq!(div_up(9, 8), 2);
    assert_eq!(div_up(usize::MAX, usize::MAX), 1);
}

#[test]
fn parse_q8_0_block_rejects_wrong_size() {
    assert!(parse_q8_0_block(&[]).is_err());
    assert!(parse_q8_0_block(&[0u8; 2]).is_err());
    assert!(parse_q8_0_block(&[0u8; 33]).is_err());
    assert!(parse_q8_0_block(&[0u8; 35]).is_err());
}

#[test]
fn parse_q8_0_block_accepts_exact_size() {
    let mut block = [0u8; Q8_0_BLOCK_SIZE];
    let scale_bytes = half::f16::from_f32(1.0).to_le_bytes();
    block[0] = scale_bytes[0];
    block[1] = scale_bytes[1];
    block[2] = 5;
    let (scale, values) = parse_q8_0_block(&block).unwrap();
    assert_eq!(half::f16::from_bits(scale).to_f32(), 1.0);
    assert_eq!(values.len(), 32);
    assert_eq!(values[0], 5);
}

#[test]
fn q8_0_values_are_signed_and_a_bad_block_tells_its_length() {
    let mut block = [0u8; Q8_0_BLOCK_SIZE];
    block[0] = 0x34;
    block[1] = 0x12;
    block[33] = 0x80;
    let (scale, values) = parse_q8_0_block(&block).unwrap();
    assert_eq!(scale, 0x1234);
    assert_eq!(values[31], -128);
    assert_eq!(parse_q8_0_block(&[0u8; 3]).unwrap_err().len, 3);
}

#[test]
fn test_quantization_parity() {
    let quantized_weights = vec![127i8, -128i8, 0i8];
    let scale = 0.5f32;

    // The same weights read back from a block of bytes.
    let mut block = [0u8; Q8_0_BLOCK_SIZE];
    let scale_bytes = half::f16::from_f32(scale).to_le_bytes();
    block[0] = scale_bytes[0];
    block[1] = scale_bytes[1];
    for (i, &w) in quantized_weights.iter().enumerate() {
        block[i + 2] = w as u8;
    }
    let (bits, values) = parse_q8_0_block(&block).unwrap();
    assert_eq!(values[..3], quantized_weights[..]);
    let scale = half::f16::from_bits(bits).to_f32();

    let dequantized: Vec<f32> = values.iter().map(|&w| w as f32 * scale).collect();
    assert_eq!(dequantized[0], 63.5f32);
    assert_eq!(dequantized[1], -64.0f32);
    assert_eq!(dequantized[2], 0.0f32);
}
