//! Configuration files, conversation templates and the JSON under both.
use llm_engine::conv_template::{messages_from, Conversation, MessageContent, MessagesError};
use llm_engine::json::{
    any_key_with, as_array, as_bool, as_double, as_size, as_text, as_u64, first, get, get_in,
    parse_json, Json,
};
use llm_engine::metadata::{default_torch_dtype, parse_metadata, HfConfig};
use llm_engine::model::config::{parse_config, ConfigError};
use llm_engine::names::NameMap;
use llm_engine::types::{
    is_gemma_arch, HiddenAct, ModelMeta, Real, SampleParams, WeightDtype, ROPE_THETA_DEFAULT,
};

fn config_text(extra_hidden_act_line: &str) -> String {
    format!(
        r#"{{
                "vocab_size": 32000,
                "hidden_size": 4096,
                "num_hidden_layers": 32,
                "num_attention_heads": 32,
                "num_key_value_heads": 8,
                "intermediate_size": 11008
                {extra_hidden_act_line}
            }}"#
    )
}

fn size(j: &Json, key: &str) -> usize {
    as_size(get(j, key)).unwrap()
}

fn text(j: &Json, key: &str) -> String {
    as_text(get(j, key)).unwrap().clone()
}

fn texts(j: &Json, key: &str) -> Vec<String> {
    let items = as_array(get(j, key)).unwrap();
    items.iter().map(|i| as_text(Some(i)).unwrap().clone()).collect()
}

fn map(j: &Json, key: &str) -> NameMap<String> {
    let mut m = NameMap::new();
    if let Some(Json::Object(entries)) = get(j, key) {
        for (k, v) in entries.iter() {
            m.insert(k.clone(), as_text(Some(v)).unwrap().clone());
        }
    }
    m
}

fn conversation(json: &str) -> Conversation {
    let j = parse_json(json).unwrap();
    let ids = as_array(get(&j, "stop_token_ids")).unwrap();
    Conversation {
        name: text(&j, "name"),
        system_template: text(&j, "system_template"),
        system_message: text(&j, "system_message"),
        roles: map(&j, "roles"),
        role_templates: map(&j, "role_templates"),
        messages: messages_from(get(&j, "messages").unwrap()).unwrap(),
        seps: texts(&j, "seps"),
        role_content_sep: text(&j, "role_content_sep"),
        role_empty_sep: text(&j, "role_empty_sep"),
        stop_str: texts(&j, "stop_str"),
        add_role_after_system_message: as_bool(get(&j, "add_role_after_system_message")).unwrap(),
        stop_token_ids: ids.iter().map(|i| as_u64(Some(i)).unwrap() as u32).collect(),
    }
}

#[test]
fn missing_hidden_act_is_an_error_not_a_silent_default() {
    let err = parse_config(&config_text("")).unwrap_err();
    assert!(err.message().contains("hidden_act"));
}

#[test]
fn unrecognized_hidden_act_is_an_error_not_a_silent_default() {
    let err = parse_config(&config_text(r#", "hidden_act": "relu""#)).unwrap_err();
    assert!(err.message().contains("relu"));
}

#[test]
fn silu_and_swish_both_resolve_to_silu() {
    let meta = parse_config(&config_text(r#", "hidden_act": "silu""#)).unwrap();
    assert!(matches!(meta.hidden_act, HiddenAct::SiLU));
    let meta = parse_config(&config_text(r#", "hidden_act": "swish""#)).unwrap();
    assert!(matches!(meta.hidden_act, HiddenAct::SiLU));
}

#[test]
fn gelu_variants_resolve_to_gelu() {
    let meta = parse_config(&config_text(r#", "hidden_act": "gelu_pytorch_tanh""#)).unwrap();
    assert!(matches!(meta.hidden_act, HiddenAct::GeLU));
}

#[test]
fn a_config_gives_its_sizes() {
    let meta = parse_metadata(&config_text(r#", "hidden_act": "silu""#)).unwrap();
    assert_eq!(meta.vocab_size, 32000);
    assert_eq!(meta.hidden_dim, 4096);
    assert_eq!(meta.n_layers, 32);
    assert_eq!(meta.n_heads, 32);
    assert_eq!(meta.n_kv_heads, 8);
    assert_eq!(meta.head_dim, 128);
    assert_eq!(meta.intermediate_dim, 11008);
    assert!(!meta.is_gemma);
}

#[test]
fn a_missing_field_is_told_by_name() {
    assert!(matches!(parse_config("not json"), Err(ConfigError::NotJson(_))));
    assert!(matches!(parse_config("{}"), Err(ConfigError::MissingVocabSize)));
    let fields = [
        ("hidden_size", "hidden_size missing from config"),
        ("num_hidden_layers", "num_hidden_layers missing from config"),
        ("num_attention_heads", "num_attention_heads missing from config"),
        ("intermediate_size", "intermediate_size missing from config"),
    ];
    for (field, message) in fields.iter() {
        let whole = config_text(r#", "hidden_act": "silu""#);
        let without = whole.replace(&format!("\"{}\"", field), "\"elsewhere\"");
        assert_eq!(parse_config(&without).unwrap_err().message(), *message);
    }
    let zero = config_text(r#", "hidden_act": "silu""#)
        .replace("\"num_attention_heads\": 32", "\"num_attention_heads\": 0");
    assert!(matches!(parse_config(&zero), Err(ConfigError::ZeroNumAttentionHeads)));
}

#[test]
fn an_unsupported_packing_is_refused() {
    let extra = r#", "hidden_act": "silu", "quantization_config": {"quant_method": "bitsandbytes"}"#;
    match parse_config(&config_text(extra)) {
        Err(ConfigError::UnsupportedQuantization(m)) => assert_eq!(m, "bitsandbytes"),
        other => panic!("{:?}", other.is_ok()),
    }
}

#[test]
fn text_config_is_where_nested_configs_keep_their_fields() {
    let nested = format!(
        r#"{{"model_type": "gemma3", "text_config": {}}}"#,
        config_text(r#", "hidden_activation": "gelu_pytorch_tanh", "hidden_act": "gelu""#)
    );
    let meta = parse_config(&nested).unwrap();
    assert_eq!(meta.hidden_dim, 4096);
    assert!(meta.is_gemma);
}

#[test]
fn a_decoder_reads_the_same_under_text_config() {
    let inner = config_text(r#", "hidden_act": "silu", "rope_theta": 5000.0, "rms_norm_eps": 1e-5"#);
    let flat = parse_config(&inner).unwrap();
    let nested = parse_config(&format!(r#"{{"text_config": {inner}}}"#)).unwrap();
    assert_eq!(nested.vocab_size, flat.vocab_size);
    assert_eq!(nested.n_kv_heads, flat.n_kv_heads);
    assert_eq!(nested.rope_theta, flat.rope_theta);
    assert_eq!(nested.rms_norm_eps, flat.rms_norm_eps);
    assert_eq!(nested.hidden_act, flat.hidden_act);
    let both = format!(r#"{{"vocab_size": 7, "text_config": {inner}}}"#);
    assert_eq!(parse_config(&both).unwrap().vocab_size, 7);
    assert_eq!(parse_config(&both).unwrap().hidden_dim, flat.hidden_dim);
}

#[test]
fn test_loader_parity() {
    let config_json = r#"{
        "vocab_size": 32000,
        "hidden_size": 4096,
        "num_hidden_layers": 32,
        "num_attention_heads": 32,
        "num_key_value_heads": 8,
        "head_dim": 128,
        "intermediate_size": 11008,
        "max_position_embeddings": 2048,
        "rope_theta": 10000.0,
        "torch_dtype": "float16"
    }"#;

    let j = parse_json(config_json).unwrap();
    let rope_theta = f64::from_bits(as_double(get(&j, "rope_theta")).unwrap()) as f32;
    let hf_config = HfConfig {
        vocab_size: size(&j, "vocab_size"),
        hidden_size: size(&j, "hidden_size"),
        num_hidden_layers: size(&j, "num_hidden_layers"),
        num_attention_heads: size(&j, "num_attention_heads"),
        num_key_value_heads: as_size(get(&j, "num_key_value_heads")),
        max_position_embeddings: size(&j, "max_position_embeddings"),
        rope_theta: Real::Single(rope_theta.to_bits()),
        intermediate_size: size(&j, "intermediate_size"),
        torch_dtype: text(&j, "torch_dtype"),
    };
    let n_heads = hf_config.num_attention_heads;
    let n_kv_heads = hf_config.num_key_value_heads.unwrap_or(n_heads);
    let head_dim = hf_config.hidden_size / n_heads;

    let weight_dtype = match hf_config.torch_dtype.as_str() {
        "float32" => WeightDtype::F32,
        "bfloat16" => WeightDtype::BF16,
        _ => WeightDtype::F16,
    };

    let meta: ModelMeta = ModelMeta {
        vocab_size: hf_config.vocab_size,
        hidden_dim: hf_config.hidden_size,
        n_layers: hf_config.num_hidden_layers,
        n_heads,
        n_kv_heads,
        head_dim,
        intermediate_dim: hf_config.intermediate_size,
        max_seq_len: hf_config.max_position_embeddings,
        rope_theta: hf_config.rope_theta,
        weight_dtype,
        rms_norm_eps: Real::Single(1e-5f32.to_bits()),
        tie_word_embeddings: false,
        hidden_act: HiddenAct::SiLU,
        no_rope_layers: vec![false; hf_config.num_hidden_layers],
        has_vision_encoder: false,
        vision_hidden_dim: None,
        vision_patch_size: None,
        vision_image_size: None,
        vision_num_layers: None,
        vision_num_heads: None,
        vision_projection_dim: None,
        spatial_merge_size: None,
        is_deepstack_layers: None,
        projector_type: None,
        has_audio_encoder: false,
        audio_hidden_dim: None,
        audio_block_count: None,
        audio_embedding_length: None,
        audio_num_mel_bins: None,
        shared_kv_layers: None,
        sliding_window_pattern: None,
        sliding_window: None,
        key_length: None,
        key_length_swa: None,
        rope_theta_swa: None,
        final_logit_softcapping: None,
        is_gemma: false,
        ple_dim: None,
        embed_scale: None,
        arch: String::new(),
        chat_template: None,
        eos_token_str: None,
    };

    assert_eq!(meta.vocab_size, 32000);
    assert_eq!(meta.hidden_dim, 4096);
    assert_eq!(meta.n_layers, 32);
    assert_eq!(meta.n_heads, 32);
    assert_eq!(meta.n_kv_heads, 8);
    assert_eq!(meta.head_dim, 128);
    assert_eq!(meta.intermediate_dim, 11008);
    assert_eq!(meta.max_seq_len, 2048);
    assert_eq!(meta.rope_theta, Real::Single(10000.0f32.to_bits()));
    assert_eq!(meta.weight_dtype, WeightDtype::F16);
}

#[test]
fn defaults_are_the_documented_numbers() {
    assert_eq!(default_torch_dtype(), "float16");
    assert_eq!(f32::from_bits(ROPE_THETA_DEFAULT), 10000.0);
    assert_eq!(f32::from_bits(llm_engine::types::EPS_QK_NORM), 1e-6);
    assert_eq!(f32::from_bits(llm_engine::types::EPS_DEFAULT), 1e-5);
    let p = SampleParams::default();
    assert_eq!(p.temperature, Real::Single(1.0f32.to_bits()));
    assert_eq!(p.repetition_penalty, Real::Single(1.0f32.to_bits()));
    assert_eq!(p.max_new_tokens, 512);
}

#[test]
fn gemma_is_known_by_either_name() {
    assert!(is_gemma_arch("gemma3", &[]));
    assert!(is_gemma_arch("", &["Gemma3ForCausalLM".to_string()]));
    assert!(!is_gemma_arch("llama", &["LlamaForCausalLM".to_string()]));
}

#[test]
fn test_conversation_template_parity() {
    let conv_json = r#"{
        "name": "llama-2",
        "system_template": "[INST] <<SYS>>\n{system_message}\n<</SYS>>\n\n",
        "system_message": "You are a helpful assistant.",
        "roles": {
            "user": "[INST]",
            "assistant": "[/INST]"
        },
        "role_templates": {
            "user": "{user_message}",
            "assistant": "{assistant_message}"
        },
        "messages": [],
        "seps": [" "],
        "role_content_sep": " ",
        "role_empty_sep": "",
        "stop_str": ["</s>"],
        "add_role_after_system_message": false,
        "stop_token_ids": [2]
    }"#;

    let conv = conversation(conv_json);
    assert_eq!(conv.name, "llama-2");
    assert_eq!(conv.system_message, "You are a helpful assistant.");
}

#[test]
fn test_conv_template_load_json_text_content() {
    let conv_template = r#"{
            "name": "test",
            "system_template": "abc{system_message}",
            "system_message": "de",
            "roles": {
              "user": "Instruct",
              "assistant": "Output",
              "tool": "Instruct"
            },
            "role_templates": {
              "user": "{user_message}",
              "assistant": "{assistant_message}",
              "tool": "{tool_message}"
            },
            "messages": [["Instruct", "Hello"], ["Output", "Hey"]],
            "seps": [
              "\n"
            ],
            "role_content_sep": ": ",
            "role_empty_sep": ":",
            "stop_str": [
              "<|endoftext|>"
            ],
            "add_role_after_system_message": false,
            "stop_token_ids": [
              50256
            ]
        }"#;

    let conv = conversation(conv_template);
    assert_eq!(conv.name, "test");
    assert_eq!(conv.system_template, "abc{system_message}");
    assert_eq!(conv.system_message, "de");
    assert_eq!(conv.roles.get("user").unwrap(), "Instruct");
    assert_eq!(conv.roles.get("assistant").unwrap(), "Output");
    assert_eq!(conv.roles.get("tool").unwrap(), "Instruct");
    assert_eq!(conv.role_templates.get("user").unwrap(), "{user_message}");
    assert_eq!(conv.role_templates.get("assistant").unwrap(), "{assistant_message}");
    assert_eq!(conv.role_templates.get("tool").unwrap(), "{tool_message}");

    assert_eq!(conv.messages[0].role, "Instruct");
    match &conv.messages[0].content {
        MessageContent::Text(text) => assert_eq!(text, "Hello"),
        _ => panic!("Expected text content"),
    }

    assert_eq!(conv.messages[1].role, "Output");
    match &conv.messages[1].content {
        MessageContent::Text(text) => assert_eq!(text, "Hey"),
        _ => panic!("Expected text content"),
    }

    assert_eq!(conv.seps[0], "\n");
    assert_eq!(conv.role_content_sep, ": ");
    assert_eq!(conv.role_empty_sep, ":");
    assert_eq!(conv.stop_str[0], "<|endoftext|>");
    assert_eq!(conv.add_role_after_system_message, false);
    assert_eq!(conv.stop_token_ids[0], 50256);
}

#[test]
fn test_conv_template_load_json_parts_content() {
    let conv_template = r#"{
            "name": "test",
            "system_template": "abc{system_message}",
            "system_message": "de",
            "roles": {
              "user": "Instruct",
              "assistant": "Output",
              "tool": "Instruct"
            },
            "role_templates": {
              "user": "{user_message}",
              "assistant": "{assistant_message}",
              "tool": "{tool_message}"
            },
            "messages": [["Instruct", [
              {"type": "text", "text": "What's in the image?"},
              {"type": "image_url", "image_url": "https://example.com/image.jpg"}
            ]]],
            "seps": [
              "\n"
            ],
            "role_content_sep": ": ",
            "role_empty_sep": ":",
            "stop_str": [
              "<|endoftext|>"
            ],
            "add_role_after_system_message": false,
            "stop_token_ids": [
              50256
            ]
        }"#;

    let conv = conversation(conv_template);
    assert_eq!(conv.name, "test");
    assert_eq!(conv.messages[0].role, "Instruct");

    match &conv.messages[0].content {
        MessageContent::Parts(parts) => {
            assert_eq!(parts[0].get("type").unwrap(), "text");
            assert_eq!(parts[0].get("text").unwrap(), "What's in the image?");
            assert_eq!(parts[1].get("type").unwrap(), "image_url");
            assert_eq!(parts[1].get("image_url").unwrap(), "https://example.com/image.jpg");
        }
        _ => panic!("Expected parts content"),
    }
}

#[test]
fn a_message_extends_the_prompt() {
    let mut conv = conversation(
        r#"{
            "name": "t", "system_template": "<{system_message}>", "system_message": "be kind",
            "roles": {"user": "U", "assistant": "A"},
            "role_templates": {"user": "[{user_message}]", "assistant": "({assistant_message})"},
            "messages": [], "seps": ["\n"], "role_content_sep": ": ", "role_empty_sep": ":",
            "stop_str": [], "add_role_after_system_message": false, "stop_token_ids": []
        }"#,
    );
    let before = conv.render_prompt();
    assert_eq!(before, "<be kind>");
    conv.add_message("user", "hi");
    let after = conv.render_prompt();
    assert!(after.starts_with(&before));
    assert!(after.contains("U: [hi]"), "{}", after);
    conv.add_message("assistant", "hello");
    assert!(conv.render_prompt().starts_with(&after));
}

#[test]
fn messages_that_are_no_list_are_refused() {
    let j = parse_json(r#"{"messages": 3}"#).unwrap();
    assert_eq!(messages_from(get(&j, "messages").unwrap()).unwrap_err(), MessagesError::NotAList);
    let j = parse_json(r#"[["user", 3]]"#).unwrap();
    assert_eq!(messages_from(&j).unwrap_err(), MessagesError::BadContent);
    let j = parse_json(r#"[["user", [{"type": 3}]]]"#).unwrap();
    assert_eq!(messages_from(&j).unwrap_err(), MessagesError::BadContent);
}

#[test]
fn json_is_read_by_key_and_kind() {
    let j = parse_json(r#"{"a": {"b": 7}, "c": -1.5, "d": [true, "x"], "rope_theta": null}"#).unwrap();
    assert_eq!(as_u64(get_in(get(&j, "a"), "b")), Some(7));
    assert_eq!(as_u64(get(&j, "c")), None);
    assert_eq!(as_double(get(&j, "c")).map(f64::from_bits), Some(-1.5));
    let d = as_array(get(&j, "d")).unwrap();
    assert_eq!(as_bool(Some(&d[0])), Some(true));
    assert_eq!(as_text(Some(&d[1])).unwrap(), "x");
    assert!(get(&j, "z").is_none());
    assert!(any_key_with(&j, "rope_"));
    assert!(!any_key_with(&j, "rope-"));
    assert!(matches!(get(&j, "rope_theta"), Some(Json::Null)));
    assert_eq!(as_u64(first(get(&j, "z"), get_in(get(&j, "a"), "b"))), Some(7));
    assert!(parse_json("{").is_err());
}

#[test]
fn json_numbers_keep_every_reading() {
    match parse_json("-3").unwrap() {
        Json::Number(n) => {
            assert_eq!(n.unsigned, None);
            assert_eq!(n.signed, Some(-3));
            assert_eq!(n.double.map(f64::from_bits), Some(-3.0));
        },
        _ => panic!("expected a number"),
    }
}

#[test]
fn a_later_key_of_the_same_name_wins() {
    let j = parse_json(r#"{"a": 1, "b": 2, "a": 3}"#).unwrap();
    assert_eq!(as_u64(get(&j, "a")), Some(3));
    match &j {
        Json::Object(entries) => assert_eq!(entries.len(), 2),
        _ => panic!("expected an object"),
    }
}
