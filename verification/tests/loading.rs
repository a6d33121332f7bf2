//! Loading a model: files, their tensors, what goes where, and the graph.
use llm_engine::backends::forward::{evictions, op_inputs};
use llm_engine::backends::gguf_meta::{
    eos_from_gguf, find_eos_in_gguf_tokens, model_from_gguf, GgufMetaError,
};
use llm_engine::backends::loading::{
    backend_name, cache_budget, eager_use, eos_from_config, estimated_bytes, is_gguf_file,
    is_mmproj_for, is_weight_file, kv_config, layer_order, mmproj_candidates, packed_quant,
    place_tensors, plan_packed, settle_device, settle_meta, Eager, PackedMethod, Placing,
    UNMEASURED_VRAM, VRAM_HEADROOM,
};
use llm_engine::backends::weights::{
    find_meta_key, meta_f32, meta_u32, meta_u32_agnostic, resolve_weight, CacheBudget,
    ExecContext, GgufMeta, Holdings, WeightMissing, WeightSource,
};
use llm_engine::graph::builder::build_graph;
use llm_engine::graph::ops::Operator;
use llm_engine::graph::scan::{map_gguf_name, name_in_layer, numbered_parts, scan_tensors};
use llm_engine::json::parse_json;
use llm_engine::loader::gguf::{
    dtype_byte_len, element_count, load_gguf, GgufError, GgufValue, Reader,
    MAX_ARRAY_NESTING_DEPTH, MAX_REASONABLE_COUNT,
};
use llm_engine::loader::safetensors::{load_safetensors, SafeTensorsError};
use llm_engine::model::config::parse_config;
use llm_engine::names::NameMap;
use llm_engine::profile::BackendChoice;
use llm_engine::types::{KvDtype, ModelMeta, Real, WeightDtype};

fn names(list: &[&str]) -> Vec<String> {
    list.iter().map(|s| s.to_string()).collect()
}

/// A GGUF file, written field by field.
struct Writer {
    bytes: Vec<u8>,
}

impl Writer {
    fn header(tensors: u64, metadata: u64) -> Writer {
        let mut w = Writer { bytes: b"GGUF".to_vec() };
        w.u32(3);
        w.u64(tensors);
        w.u64(metadata);
        w
    }

    fn u32(&mut self, v: u32) {
        self.bytes.extend(v.to_le_bytes());
    }

    fn u64(&mut self, v: u64) {
        self.bytes.extend(v.to_le_bytes());
    }

    fn text(&mut self, s: &str) {
        self.u64(s.len() as u64);
        self.bytes.extend(s.as_bytes());
    }

    fn tensor(&mut self, name: &str, dims: &[u64], kind: u32, offset: u64) {
        self.text(name);
        self.u32(dims.len() as u32);
        for &d in dims.iter() {
            self.u64(d);
        }
        self.u32(kind);
        self.u64(offset);
    }

    fn pad(&mut self, to: usize) {
        while self.bytes.len() % to != 0 {
            self.bytes.push(0);
        }
    }
}

#[test]
fn a_gguf_file_gives_back_its_tensors() {
    let mut w = Writer::header(2, 2);
    w.text("general.architecture");
    w.u32(8);
    w.text("llama");
    w.text("llama.block_count");
    w.u32(4);
    w.u32(2);
    w.tensor("a.weight", &[2, 1], 0, 0);
    w.tensor("b.weight", &[2], 1, 32);
    w.pad(32);
    let start = w.bytes.len();
    w.bytes.extend(vec![1u8; 32]);
    w.bytes.extend([7, 8, 9, 10]);
    let file = load_gguf(&w.bytes).unwrap();
    assert!(matches!(file.metadata().get("general.architecture"), Some(GgufValue::String(s)) if s == "llama"));
    assert!(matches!(file.metadata().get("llama.block_count"), Some(GgufValue::U32(2))));
    let a = file.tensor("a.weight").unwrap();
    assert_eq!(a.data, &w.bytes[start..start + 8]);
    assert_eq!(a.dtype, WeightDtype::F32);
    let b = file.tensor("b.weight").unwrap();
    assert_eq!(b.data, &[7, 8, 9, 10]);
    assert_eq!(b.dtype, WeightDtype::F16);
    assert_eq!(b.shape, vec![2]);
    assert!(file.tensor("c.weight").is_none());
    assert!(file.contains_tensor("a.weight") && !file.contains_tensor("c.weight"));
    let mut all = file.tensor_names();
    all.sort();
    assert_eq!(all, names(&["a.weight", "b.weight"]));
}

#[test]
fn gguf_files_are_refused_for_a_reason() {
    let fail = |bytes: &[u8]| load_gguf(bytes).err().unwrap();
    assert_eq!(fail(b"GGML\x03\0\0\0"), GgufError::BadMagic);
    assert_eq!(fail(b"GG"), GgufError::UnexpectedEof);
    assert_eq!(fail(b"GGUF\x09\0\0\0"), GgufError::UnsupportedVersion(9));
    assert_eq!(
        fail(&Writer::header(MAX_REASONABLE_COUNT + 1, 0).bytes),
        GgufError::TooManyTensors(MAX_REASONABLE_COUNT + 1)
    );
    assert_eq!(
        fail(&Writer::header(0, MAX_REASONABLE_COUNT + 1).bytes),
        GgufError::TooManyMetadata(MAX_REASONABLE_COUNT + 1)
    );
    let mut cut = Writer::header(1, 0);
    cut.tensor("a", &[4], 0, 0);
    cut.pad(32);
    cut.bytes.extend([0; 8]);
    assert_eq!(fail(&cut.bytes), GgufError::TruncatedTensor);
    let mut far = Writer::header(1, 0);
    far.tensor("a", &[1], 0, 4096);
    far.pad(32);
    far.bytes.extend([0; 8]);
    assert!(matches!(fail(&far.bytes), GgufError::OffsetBeyondEnd | GgufError::TruncatedTensor));
    let mut kind = Writer::header(1, 0);
    kind.tensor("a", &[1], 99, 0);
    assert_eq!(fail(&kind.bytes), GgufError::UnsupportedTensorType(99));
    let mut utf8 = Writer::header(0, 1);
    utf8.u64(1);
    utf8.bytes.push(0xFF);
    assert_eq!(fail(&utf8.bytes), GgufError::InvalidUtf8);
}

#[test]
fn gguf_arrays_nest_only_so_deep() {
    let mut deep = Writer { bytes: Vec::new() };
    for _ in 0..MAX_ARRAY_NESTING_DEPTH + 2 {
        deep.u32(9);
        deep.u64(1);
    }
    let mut r = Reader::new(&deep.bytes);
    assert_eq!(r.read_value(9).err().unwrap(), GgufError::NestingTooDeep);
    let mut long = Writer { bytes: Vec::new() };
    long.u32(0);
    long.u64(MAX_REASONABLE_COUNT + 1);
    let mut r = Reader::new(&long.bytes);
    assert_eq!(r.read_value(9).err().unwrap(), GgufError::ArrayTooLong(MAX_REASONABLE_COUNT + 1));
    let mut r = Reader::new(&[1, 2, 3]);
    assert_eq!(r.read_value(77).err().unwrap(), GgufError::UnknownValueType(77));
    assert_eq!(r.read_u16().unwrap(), 0x0201);
    assert_eq!(r.read_u32().err().unwrap(), GgufError::UnexpectedEof);
}

#[test]
fn tensors_take_the_bytes_of_their_type() {
    assert_eq!(dtype_byte_len(WeightDtype::F32, 3).unwrap(), 12);
    assert_eq!(dtype_byte_len(WeightDtype::BF16, 3).unwrap(), 6);
    assert_eq!(dtype_byte_len(WeightDtype::Q8_0, 64).unwrap(), 68);
    assert_eq!(dtype_byte_len(WeightDtype::Q4_0, 32).unwrap(), 18);
    assert!(dtype_byte_len(WeightDtype::F32, usize::MAX).is_err());
    assert_eq!(element_count(&vec![2, 3, 4]), Some(24));
    assert_eq!(element_count(&vec![usize::MAX, 2]), None);
}

fn safetensors(header: &str, data: &[u8]) -> Vec<u8> {
    let mut bytes = (header.len() as u64).to_le_bytes().to_vec();
    bytes.extend(header.as_bytes());
    bytes.extend(data);
    bytes
}

#[test]
fn a_safetensors_file_gives_back_its_tensors() {
    let bytes = safetensors(
        r#"{"a":{"dtype":"F32","shape":[1],"data_offsets":[0,4]},"b":{"dtype":"BF16","shape":[1,2],"data_offsets":[4,8]}}"#,
        &[1, 2, 3, 4, 5, 6, 7, 8],
    );
    let file = load_safetensors(&bytes).unwrap();
    let b = file.tensor("b").unwrap();
    assert_eq!(b.data, &[5, 6, 7, 8]);
    assert_eq!(b.shape, vec![1, 2]);
    assert_eq!(b.dtype, WeightDtype::BF16);
    assert_eq!(file.tensor("a").unwrap().data, &[1, 2, 3, 4]);
    assert!(file.contains_tensor("a") && !file.contains_tensor("c"));
    let mut all = file.tensor_names();
    all.sort();
    assert_eq!(all, names(&["a", "b"]));
}

#[test]
fn safetensors_files_are_refused_for_a_reason() {
    assert!(matches!(load_safetensors(&[1, 2, 3]), Err(SafeTensorsError::Malformed(_))));
    for header in [
        r#"{"a":{"dtype":"U8","shape":[18446744073709551615],"data_offsets":[0,18446744073709551615]}}"#,
        r#"{"a":["U8",[18446744073709551615],[0,18446744073709551615]]}"#,
        r#"{"a":{"dtype":"F32","shape":[2],"data_offsets":[0,8]}}"#,
        r#"{"a":"#,
        "[]",
    ] {
        let claimed = safetensors(header, &[0; 4]);
        assert!(matches!(load_safetensors(&claimed), Err(SafeTensorsError::Malformed(_))));
    }
    let bytes = safetensors(r#"{"a":{"dtype":"I64","shape":[1],"data_offsets":[0,8]}}"#, &[0; 8]);
    match load_safetensors(&bytes) {
        Err(SafeTensorsError::UnsupportedDtype(d)) => assert_eq!(d, "I64"),
        other => panic!("{}", other.is_ok()),
    }
}

fn gguf_meta(entries: &[(&str, GgufValue)]) -> GgufMeta {
    let mut m = NameMap::new();
    for (k, v) in entries.iter() {
        let copy = match v {
            GgufValue::U32(n) => GgufValue::U32(*n),
            GgufValue::F32(n) => GgufValue::F32(*n),
            GgufValue::String(s) => GgufValue::String(s.clone()),
            GgufValue::Array(items) => GgufValue::Array(
                items
                    .iter()
                    .map(|i| match i {
                        GgufValue::String(s) => GgufValue::String(s.clone()),
                        _ => GgufValue::Bool(false),
                    })
                    .collect(),
            ),
            _ => GgufValue::Bool(true),
        };
        m.insert(k.to_string(), copy);
    }
    m
}

fn words(list: &[&str]) -> GgufValue {
    GgufValue::Array(list.iter().map(|s| GgufValue::String(s.to_string())).collect())
}

#[test]
fn metadata_is_found_by_key_or_by_suffix() {
    let m = gguf_meta(&[
        ("qwen3.block_count", GgufValue::U32(9)),
        ("qwen3.rope.freq_base", GgufValue::F32(1e6f32.to_bits())),
    ]);
    assert_eq!(meta_u32(&m, "qwen3.block_count"), Some(9));
    assert_eq!(meta_u32(&m, "block_count"), None);
    assert_eq!(find_meta_key(&m, "block_count").as_deref(), Some("qwen3.block_count"));
    assert_eq!(meta_u32_agnostic(&m, "block_count"), Some(9));
    assert_eq!(meta_f32(&m, "qwen3.rope.freq_base"), Some(Real::Single(1e6f32.to_bits())));
}

#[test]
fn a_gguf_model_is_described_by_its_metadata() {
    let none = NameMap::new();
    let shapes = NameMap::new();
    let entries = [
        ("general.architecture", GgufValue::String("llama".to_string())),
        ("tokenizer.ggml.tokens", words(&["a", "b", "</s>"])),
        ("llama.block_count", GgufValue::U32(2)),
        ("llama.embedding_length", GgufValue::U32(64)),
        ("llama.feed_forward_length", GgufValue::U32(128)),
        ("llama.attention.head_count", GgufValue::U32(4)),
        ("llama.attention.head_count_kv", GgufValue::U32(2)),
    ];
    let m = gguf_meta(&entries);
    let meta = model_from_gguf(&m, &none, &shapes).unwrap();
    assert_eq!(meta.arch, "llama");
    assert_eq!((meta.vocab_size, meta.n_layers, meta.hidden_dim), (3, 2, 64));
    assert_eq!((meta.intermediate_dim, meta.n_heads, meta.n_kv_heads, meta.head_dim), (128, 4, 2, 16));
    let missing = [
        GgufMetaError::NoArchitecture,
        GgufMetaError::NoTokens,
        GgufMetaError::NoBlockCount,
        GgufMetaError::NoEmbeddingLength,
        GgufMetaError::NoFeedForwardLength,
        GgufMetaError::NoHeadCount,
    ];
    for (i, e) in missing.iter().enumerate() {
        let mut m = gguf_meta(&entries);
        m.remove(entries[i].0);
        assert_eq!(model_from_gguf(&m, &none, &shapes).err(), Some(*e));
    }
    assert_eq!(find_eos_in_gguf_tokens(&m, &["</s>"]), Some(2));
    assert_eq!(eos_from_gguf(&m), Some(2));
    let told = gguf_meta(&[("tokenizer.ggml.eos_token_id", GgufValue::U32(7))]);
    assert_eq!(eos_from_gguf(&told), Some(7));
}

#[test]
fn weights_are_known_by_their_file_names() {
    assert!(is_weight_file("SafeTensors") && is_weight_file("bin") && is_weight_file("GGUF"));
    assert!(!is_weight_file("json"));
    assert!(is_gguf_file("GGuf") && !is_gguf_file("bin"));
    assert_eq!(estimated_bytes(&names(&["bin", "json", "gguf"]), &[1, 10, 100]), 101);
}

#[test]
fn a_device_that_fails_may_be_replaced() {
    assert_eq!(settle_device(BackendChoice::Cuda, true, false).unwrap(), BackendChoice::Cuda);
    assert_eq!(settle_device(BackendChoice::Cuda, false, true).unwrap(), BackendChoice::Cpu);
    assert_eq!(
        settle_device(BackendChoice::Metal, false, false).unwrap_err().wanted,
        BackendChoice::Metal
    );
    assert_eq!(backend_name(BackendChoice::Cuda), "candle-cuda");
}

#[test]
fn the_budget_leaves_headroom() {
    assert_eq!(cache_budget(Some(VRAM_HEADROOM + 5), false), 5);
    assert_eq!(cache_budget(Some(VRAM_HEADROOM), false), 0);
    assert_eq!(cache_budget(None, true), 0);
    assert_eq!(cache_budget(None, false), UNMEASURED_VRAM.saturating_sub(VRAM_HEADROOM));
    let mut b = CacheBudget::new(10);
    assert!(b.fits(10) && b.take(6) && !b.take(5) && b.take(4));
    assert_eq!(b.taken(), 10);
}

#[test]
fn tensors_are_placed_while_the_budget_lasts() {
    let how = Placing { cuda: true, explicit_dequantize: false, vram_embeddings: false };
    let list = names(&["tok_EMBD.weight", "a_norm.weight", "blk.0.attn_q.weight", "rope_freqs.weight"]);
    let placed = place_tensors(&list, &[2, 2, 1000, 1], how, 12);
    assert_eq!(placed, vec![true, false, true, false]);
    let by_hand = Placing { explicit_dequantize: true, ..how };
    assert_eq!(place_tensors(&list, &[2, 2, 1000, 1], by_hand, 12), vec![false; 4]);
    assert_eq!(eager_use("Output_Norm.weight", 1), Eager::Dequantize);
    assert_eq!(eager_use("blk.0.attn_q.weight", 2), Eager::Multiply);
    assert_eq!(eager_use("blk.0.conv.weight", 3), Eager::Keep);
}

#[test]
fn weights_are_cached_layer_by_layer() {
    let list = names(&[
        "lm_head.weight",
        "model.layers.10.a",
        "model.layers.2.b",
        "model.embed_tokens.weight",
        "model.layers.2.a",
    ]);
    assert_eq!(
        layer_order(&list),
        names(&[
            "model.embed_tokens.weight",
            "model.layers.2.b",
            "model.layers.2.a",
            "model.layers.10.a",
            "lm_head.weight",
        ])
    );
}

#[test]
fn packed_layers_are_collected() {
    let config = parse_json(r#"{"quantization_config": {"quant_method": "AWQ", "group_size": 64}}"#).unwrap();
    assert_eq!(packed_quant(&config), Some((PackedMethod::Awq, 64)));
    let config = parse_json(r#"{"quantization_config": {"quant_method": "gptq"}}"#).unwrap();
    assert_eq!(packed_quant(&config), Some((PackedMethod::Gptq, 128)));
    assert_eq!(packed_quant(&parse_json("{}").unwrap()), None);
    let list = names(&["x.qweight", "x.qzeros", "x.scales", "norm.weight"]);
    let plan = plan_packed(PackedMethod::Awq, &list).unwrap();
    assert_eq!(plan.layers, names(&["x"]));
    assert_eq!(plan.kept, names(&["norm.weight"]));
    let missing = plan_packed(PackedMethod::Gptq, &list[..2]).unwrap_err();
    assert_eq!(missing.name, "x.scales");
}

#[test]
fn the_end_of_text_is_told_or_looked_up() {
    let told = parse_json(r#"{"eos_token_id": 5}"#).unwrap();
    assert_eq!(eos_from_config(&told, &[]), Some(5));
    let silent = parse_json("{}").unwrap();
    let by_key = parse_json(r#"{"added_tokens_decoder": {"9": {"content": "<|im_end|>"}}}"#).unwrap();
    let by_field = parse_json(r#"{"added_tokens": [{"id": 4, "content": "</s>"}]}"#).unwrap();
    assert_eq!(eos_from_config(&silent, &[by_key]), Some(9));
    assert_eq!(eos_from_config(&silent, &[by_field]), Some(4));
    assert_eq!(eos_from_config(&silent, &[]), None);
}

fn small_meta() -> ModelMeta {
    parse_config(
        r#"{"vocab_size": 32, "hidden_size": 8, "num_hidden_layers": 1, "num_attention_heads": 2,
            "intermediate_size": 16, "hidden_act": "silu"}"#,
    )
    .unwrap()
}

#[test]
fn what_the_config_leaves_open_is_settled() {
    let tokenizer = parse_json(r#"{"chat_template": "T"}"#).unwrap();
    let mut open = small_meta();
    open.arch = String::new();
    let meta = settle_meta(open, Some(&tokenizer));
    assert_eq!(meta.arch, "unknown");
    assert_eq!(meta.weight_dtype, WeightDtype::F16);
    assert_eq!(meta.chat_template.as_deref(), Some("T"));
    assert_eq!(kv_config(&meta, Some("Q8")).dtype, KvDtype::Q8);
    assert_eq!(kv_config(&meta, Some("q4")).dtype, KvDtype::Q4);
    assert_eq!(kv_config(&meta, None).dtype, KvDtype::F16);
    assert_eq!(kv_config(&meta, None).block_size, 16);
}

#[test]
fn projectors_stand_beside_their_models() {
    assert!(mmproj_candidates("/m/model.gguf").iter().all(|c| c.contains("mmproj")));
    assert!(is_mmproj_for("mmproj-gemma-3-4b-it-f16.gguf", "gemma-3-4b-it-Q4_K_M"));
    assert!(!is_mmproj_for("gemma-3-4b-it-Q8_0.gguf", "gemma-3-4b-it-Q4_K_M"));
}

#[test]
fn a_weight_comes_from_where_it_is_held() {
    let nothing = Holdings { loaded: false, in_pass: false, dequantized: false, quantized: None };
    let loaded = Holdings { loaded: true, ..nothing };
    let budget = CacheBudget::new(100);
    let find = |own: &Holdings, embed: &Holdings, name: &str| {
        resolve_weight(name, own, embed, false, &budget)
    };
    assert_eq!(find(&loaded, &nothing, "w"), Ok(WeightSource::Loaded));
    assert_eq!(find(&nothing, &nothing, "w"), Err(WeightMissing::NotFound));
    assert_eq!(find(&nothing, &loaded, "lm_head.weight"), Ok(WeightSource::TiedLoaded));
    assert_eq!(find(&nothing, &nothing, "lm_head.weight"), Err(WeightMissing::NoTiedEmbedding));
}

#[test]
fn decoder_names_are_told_apart() {
    assert_eq!(map_gguf_name("blk.3.attn_q.weight"), "model.layers.3.self_attn.q_proj.weight");
    assert_eq!(map_gguf_name("token_embd.weight"), "model.embed_tokens.weight");
    assert_eq!(map_gguf_name(&map_gguf_name("blk.3.ffn_down.weight")), map_gguf_name("blk.3.ffn_down.weight"));
    assert_eq!(numbered_parts("model.layers.12.mlp.x", "model.layers."), Some((12, "mlp.x".to_string())));
    assert_eq!(numbered_parts("model.layers.x.mlp", "model.layers."), None);
    assert_eq!(name_in_layer(4, "mlp.up_proj.weight"), "model.layers.4.mlp.up_proj.weight");
}

fn one_layer() -> Vec<String> {
    names(&[
        "model.embed_tokens.weight",
        "model.norm.weight",
        "lm_head.weight",
        "model.layers.0.input_layernorm.weight",
        "model.layers.0.self_attn.q_proj.weight",
        "model.layers.0.self_attn.k_proj.weight",
        "model.layers.0.self_attn.v_proj.weight",
        "model.layers.0.self_attn.o_proj.weight",
        "model.layers.0.post_attention_layernorm.weight",
        "model.layers.0.mlp.gate_proj.weight",
        "model.layers.0.mlp.up_proj.weight",
        "model.layers.0.mlp.down_proj.weight",
    ])
}

#[test]
fn a_graph_is_built_from_the_tensors_there_are() {
    let list = one_layer();
    let group = scan_tensors(&list);
    assert_eq!(group.layers.len(), 1);
    assert_eq!(group.layers[0].q_proj.as_deref(), Some("model.layers.0.self_attn.q_proj.weight"));
    assert_eq!(group.lm_head.as_deref(), Some("lm_head.weight"));
    let graph = build_graph(&small_meta(), &group);
    assert!(matches!(graph.ops[0], Operator::Embed { .. }));
    assert_eq!(graph.ops.iter().filter(|op| matches!(op, Operator::PagedAttention { .. })).count(), 1);
    match graph.ops.last().unwrap() {
        Operator::MatMul { output, weight, .. } => {
            assert_eq!(output, "logits");
            assert_eq!(weight, "lm_head.weight");
        },
        _ => panic!("expected the projection to the vocabulary"),
    }
}

fn outputs(op: &Operator) -> Vec<&String> {
    match op {
        Operator::Embed { output, .. }
        | Operator::RMSNorm { output, .. }
        | Operator::MatMul { output, .. }
        | Operator::PagedAttention { output, .. }
        | Operator::Activation { output, .. }
        | Operator::Mul { output, .. }
        | Operator::Add { output, .. } => vec![output],
        Operator::Rope { output_q, output_k, .. } => vec![output_q, output_k],
        _ => panic!("not an operator of a plain decoder"),
    }
}

#[test]
fn a_pass_finds_every_activation_it_reads() {
    let graph = build_graph(&small_meta(), &scan_tensors(&one_layer()));
    let drops = evictions(&graph);
    let mut ctx = ExecContext::new();
    ctx.insert("input_ids".to_string(), 0usize);
    for (i, op) in graph.ops.iter().enumerate() {
        for name in op_inputs(op) {
            assert!(ctx.get(&name).is_ok(), "{name} is gone at {i}");
        }
        for name in outputs(op) {
            ctx.insert(name.clone(), i);
        }
        ctx.evict(&drops[i]);
    }
    assert_eq!(ctx.get("logits"), Ok(&(graph.ops.len() - 1)));
    assert!(ctx.get("input_ids").is_err());
}

#[test]
fn a_missing_activation_is_reported_by_name() {
    let mut ctx = ExecContext::new();
    ctx.insert("a".to_string(), 1);
    ctx.insert("a".to_string(), 2);
    ctx.insert("b".to_string(), 3);
    assert_eq!(ctx.get("a"), Ok(&2));
    ctx.remove("a");
    assert_eq!(
        ctx.get("a"),
        Err("Activation 'a' not found in forward-pass context".to_string())
    );
    ctx.evict(&names(&["b", "c"]));
    assert!(ctx.get("b").is_err());
}

#[test]
fn a_map_keeps_one_value_per_name() {
    let mut m = NameMap::new();
    m.insert("a".to_string(), 1);
    m.insert("b".to_string(), 2);
    m.insert("a".to_string(), 3);
    assert_eq!(m.len(), 2);
    assert_eq!(m.get("a"), Some(&3));
    assert_eq!(m.remove("a"), Some(3));
    assert_eq!(m.remove("a"), None);
    assert!(!m.contains_key("a"));
    assert_eq!(m.names(), names(&["b"]));
    assert_eq!((m.name_at(0).as_str(), *m.value_at(0)), ("b", 2));
}

#[test]
fn the_order_of_tensors_does_not_matter() {
    let list = names(&[
        "model.layers.10.self_attn.q_proj.weight",
        "model.norm.weight",
        "model.layers.2.self_attn.q_proj.weight",
        "blk.2.attn_k.weight",
        "model.layers.2.mlp.up_proj.bias",
        "token_embd.weight",
    ]);
    let mut other: Vec<String> = list.iter().rev().cloned().collect();
    other.push("model.norm.weight".to_string());
    let group = scan_tensors(&list);
    assert_eq!(format!("{:?}", group), format!("{:?}", scan_tensors(&other)));
    assert_eq!(group.layers.iter().map(|l| l.index).collect::<Vec<usize>>(), vec![2, 10]);
}

#[test]
fn no_activation_is_written_twice() {
    let mut list = one_layer();
    for name in one_layer() {
        list.push(name.replace("layers.0", "layers.12"));
    }
    let graph = build_graph(&small_meta(), &scan_tensors(&list));
    let written: Vec<&String> = graph.ops.iter().flat_map(outputs).collect();
    let different: std::collections::HashSet<&String> = written.iter().copied().collect();
    assert_eq!(written.len(), different.len());
    let mut attended: Vec<usize> = Vec::new();
    for op in graph.ops.iter() {
        if let Operator::PagedAttention { layer_idx, .. } = op {
            attended.push(*layer_idx);
        }
    }
    assert_eq!(attended, vec![0, 12]);
}
