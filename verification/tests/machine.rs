//! The machine, what to download for it, tokenizers, texts, and the C interface.
use llm_engine::chat::console::MediaTokens;
use llm_engine::chat::server::EngineEvent;
use llm_engine::ffi::{
    accept_seq_id, answer_request, encode_request, ffi_request, forward_event, next_seq_id,
    plan_engine, polled_text,
    poll_result, EngineError, EnginePlan, GenerationResult, Polled, Sequences,
    INVALID_SEQ_ID,
};
use llm_engine::json::parse_json;
use llm_engine::profile::{
    query_cuda_driver, read_smi, with_headroom, BackendChoice, CpuSimdCaps, GpuFacts,
    HardwareProfile, OutOfMemory, MIB,
};
use llm_engine::pull::{
    already_present, available_memory, check_quantization_method, classify_gguf_variants,
    default_output_dir, exceeds_memory, extract_quant_label, file_url, find_matching_mmproj,
    find_variant, is_complete, is_repo_name, pick_result, rank_results, recommend_variant,
    sanitize_dirname, search_url, sidecars, strip_gguf_suffix, tree_url, urlencode, PickError,
    QuantSupport, QuantVariant, SearchResult, TreeEntry,
};
use llm_engine::text::{
    contains, cut_at, cut_at_last, decimal, ends_with, join2, parse_upto, parse_usize, replace,
    same, split_on, starts_with, strip_prefix, strip_suffix,
};
use llm_engine::charsmap::{does_text_walk, is_map_sound, read_base64, read_charsmap};
use llm_engine::tokenizer::LlmTokenizer;
use llm_engine::tokenizer_doc::has_no_white;
use llm_engine::types::Real;

fn names(list: &[&str]) -> Vec<String> {
    list.iter().map(|s| s.to_string()).collect()
}

fn simd() -> CpuSimdCaps {
    CpuSimdCaps::detect(true, false, false)
}

fn machine(vram_free: Option<u64>, ram_free: u64) -> HardwareProfile {
    HardwareProfile {
        gpu_vram_total_bytes: vram_free,
        gpu_vram_free_bytes: vram_free,
        system_ram_total_bytes: ram_free,
        system_ram_free_bytes: ram_free,
        cpu_cores: 4,
        backend: if vram_free.is_some() { BackendChoice::Cuda } else { BackendChoice::Cpu },
        simd: simd(),
    }
}

#[test]
fn headroom_is_fifteen_percent_as_doubles_count_it() {
    let mut n: u64 = 1;
    for i in 0..5000u64 {
        n = n.wrapping_mul(6364136223846793005).wrapping_add(1442695040888963407 + i);
        for shift in [0, 8, 16, 32, 48] {
            let bytes = n >> shift;
            assert_eq!(with_headroom(bytes), (bytes as f64 * 1.15) as u64, "{}", bytes);
        }
    }
    assert_eq!(with_headroom(0), 0);
    assert_eq!(with_headroom(100), (100u64 as f64 * 1.15) as u64);
    assert_eq!(with_headroom(u64::MAX), u64::MAX);
}

#[test]
fn a_model_runs_where_it_fits() {
    let both = machine(Some(1000), 500);
    assert_eq!(both.choose_device(800), Ok(BackendChoice::Cuda));
    assert_eq!(machine(Some(100), 500).choose_device(400), Ok(BackendChoice::Cpu));
    assert_eq!(
        machine(None, 500).choose_device(800),
        Err(OutOfMemory { required: with_headroom(800), free: 500 })
    );
}

#[test]
fn memory_that_was_not_measured_is_not_guessed() {
    let facts = GpuFacts { cuda: true, smi: None, driver: None, force: false };
    let p = HardwareProfile::detect(10, 5, 2, simd(), facts);
    assert_eq!(p.backend, BackendChoice::Cpu);
    assert_eq!(p.gpu_vram_free_bytes, None);
    let forced = HardwareProfile::detect(10, 5, 2, simd(), GpuFacts { force: true, ..facts });
    assert_eq!(forced.gpu_vram_total_bytes, Some(4096 * MIB));
    assert_eq!(forced.gpu_vram_free_bytes, Some(3072 * MIB));
    let smi = HardwareProfile::detect(10, 5, 2, simd(), GpuFacts { smi: Some((8, 6)), ..facts });
    assert_eq!(smi.gpu_vram_free_bytes, Some(6 * MIB));
    assert_eq!(smi.backend, BackendChoice::Cuda);
    let driver = GpuFacts { driver: Some((80, 60)), ..facts };
    assert_eq!(HardwareProfile::detect(10, 5, 2, simd(), driver).gpu_vram_free_bytes, Some(60));
    assert_eq!(query_cuda_driver(), None);
}

#[test]
fn the_management_tool_is_read_by_its_first_line() {
    assert_eq!(read_smi(" 8192, 6000 \r\n24576, 1\n"), Some((8192, 6000)));
    assert_eq!(read_smi("8192"), None);
    assert_eq!(read_smi("a, b"), None);
    assert_eq!(read_smi(""), None);
}

#[test]
fn a_processor_without_vectors_is_slow() {
    let (line, slow) = CpuSimdCaps::detect(false, false, false).log();
    assert_eq!(line, "CPU SIMD caps: AVX2=false, AVX-512F=false, NEON=false");
    assert!(slow);
    assert!(!CpuSimdCaps::detect(false, false, true).log().1);
}

fn entry(path: &str, size: u64) -> TreeEntry {
    TreeEntry { path: path.to_string(), size: Some(size) }
}

#[test]
fn labels_are_read_out_of_file_names() {
    assert_eq!(extract_quant_label("model-Q4_K_M.gguf"), "Q4_K_M");
    assert_eq!(extract_quant_label("model.q8_0.gguf"), "Q8_0");
    assert_eq!(extract_quant_label("model-BF16-00001.gguf"), "BF16");
    assert_eq!(extract_quant_label("1-2-3.gguf"), "unknown");
}

#[test]
fn the_largest_model_that_fits_is_recommended() {
    let variants = classify_gguf_variants(&[
        entry("m-Q2_K.gguf", 100),
        entry("m-Q4_K_M.gguf", 200),
        entry("m-Q8_0.gguf", 400),
        entry("MMPROJ-f16.gguf", 10),
        entry("README.md", 1),
    ]);
    assert_eq!(variants.len(), 4);
    assert!(variants[3].is_mmproj);
    assert_eq!(variants[3].quant_label, "mmproj");
    assert_eq!(recommend_variant(&variants, &machine(None, 300)).unwrap().filename, "m-Q4_K_M.gguf");
    assert!(recommend_variant(&variants, &machine(None, 50)).is_none());
    let exact = with_headroom(400);
    let pick = |free: u64| recommend_variant(&variants, &machine(None, free)).unwrap();
    assert_eq!(pick(exact).filename, "m-Q4_K_M.gguf");
    assert!(machine(None, exact).choose_device(400).is_err());
    assert_eq!(pick(exact + 1).filename, "m-Q8_0.gguf");
    assert!(machine(None, exact + 1).choose_device(400).is_ok());
    assert_eq!(available_memory(&machine(Some(7), 9)), 7);
    assert_eq!(find_matching_mmproj("m", &variants).unwrap().filename, "MMPROJ-f16.gguf");
    assert!(find_matching_mmproj("", &variants).is_none());
    assert_eq!(find_variant(&variants, "q8_0").map(|v| v.filename.as_str()), Some("m-Q8_0.gguf"));
    assert!(exceeds_memory(400, &machine(None, 300)));
    assert!(!exceeds_memory(200, &machine(None, 300)));
}

#[test]
fn names_become_directories_and_urls() {
    assert_eq!(sanitize_dirname("a b/c.d-e_f"), "a_b_c.d-e_f");
    assert_eq!(default_output_dir("org/My Model"), "models/My_Model");
    assert_eq!(strip_gguf_suffix("org/model-GGUF").as_deref(), Some("org/model"));
    assert_eq!(strip_gguf_suffix("org/model").as_deref(), None);
    assert_eq!(strip_gguf_suffix("Org/Model-Q4_K_M-GGUF").as_deref(), Some("Org/Model"));
    assert_eq!(strip_gguf_suffix("org/model-iq2_xxs-gguf").as_deref(), Some("org/model"));
    assert_eq!(strip_gguf_suffix("org/model-bf16-GGUF").as_deref(), Some("org/model"));
    assert_eq!(strip_gguf_suffix("org/model-Instruct-GGUF").as_deref(), Some("org/model-Instruct"));
    assert_eq!(strip_gguf_suffix("org/Q4_0-GGUF").as_deref(), Some("org/Q4_0"));
    assert_eq!(urlencode("a b/é"), "a+b%2F%C3%A9");
    assert!(is_repo_name("org/model") && !is_repo_name("model"));
    assert!(search_url("https://h", "a b").contains("a+b"));
    assert!(tree_url("https://h", "o/m").starts_with("https://h/"));
    assert!(file_url("https://h", "o/m", "f.gguf").ends_with("f.gguf"));
}

#[test]
fn results_are_ranked_by_downloads() {
    let found = |id: &str, downloads: i64| SearchResult { id: id.to_string(), downloads };
    let ranked = rank_results(&[found("a", 1), found("b", 9), found("c", 9)]);
    let ids: Vec<&str> = ranked.iter().map(|r| r.id.as_str()).collect();
    assert_eq!(ids, vec!["b", "c", "a"]);
    assert_eq!(pick_result(&ranked, 0).unwrap(), "b");
    assert_eq!(pick_result(&ranked, 3).unwrap_err(), PickError::OutOfRange { results: 3 });
    assert_eq!(pick_result(&[], 0).unwrap_err(), PickError::NoResults);
}

#[test]
fn downloads_are_not_repeated() {
    assert!(already_present(false, Some(5), Some(5)));
    assert!(!already_present(true, Some(5), Some(5)));
    assert!(!already_present(false, Some(4), Some(5)));
    assert!(!already_present(false, None, Some(5)));
    assert!(is_complete(5, Some(5)) && !is_complete(4, Some(5)) && is_complete(4, None));
}

#[test]
fn packings_are_told_before_the_download() {
    let of = |text: &str| check_quantization_method(&parse_json(text).unwrap());
    assert_eq!(of("{}"), QuantSupport::Plain);
    assert_eq!(of(r#"{"quantization_config": {"quant_method": "awq"}}"#), QuantSupport::Unpacked);
    assert_eq!(
        of(r#"{"quantization_config": {"quant_method": "bitsandbytes"}}"#),
        QuantSupport::Unsupported
    );
}

#[test]
fn sidecars_come_along() {
    let found = sidecars(&[entry("tokenizer.json", 1), entry("model.gguf", 1), entry("config.json", 1)]);
    assert!(found.contains(&"tokenizer.json".to_string()));
    assert!(found.contains(&"config.json".to_string()));
    assert!(!found.contains(&"model.gguf".to_string()));
}

const WORDS: &str = r#"{"version":"1.0","truncation":null,"padding":null,
    "added_tokens":[{"id":3,"content":"<|image_pad|>","single_word":false,"lstrip":false,"rstrip":false,"normalized":false,"special":true}],
    "normalizer":null,"pre_tokenizer":{"type":"Whitespace"},"post_processor":null,"decoder":null,
    "model":{"type":"WordLevel","vocab":{"[UNK]":0,"hello":1,"world":2},"unk_token":"[UNK]"}}"#;

#[test]
fn a_tokenizer_is_read_and_asked() {
    let t = LlmTokenizer::from_str(WORDS).unwrap();
    assert_eq!(t.token_to_id("world"), Some(2));
    assert_eq!(t.token_to_id("<|image_pad|>"), Some(3));
    assert_eq!(t.token_to_id("nothing"), None);
    assert_eq!(t.vocab_size(), 4);
    assert_eq!(t.encode("hello world other", false).unwrap(), vec![1, 2, 0]);
    assert_eq!(t.decode(&[1, 2], true).unwrap(), "hello world");
    let media = MediaTokens::of(&t);
    assert!(media.image_pad && !media.image && !media.vision && !media.audio_pad);
    let same_one = LlmTokenizer::from_bytes(WORDS.as_bytes()).unwrap();
    assert_eq!(same_one.vocab_size(), 4);
    assert!(LlmTokenizer::from_str("{}").is_err());
    assert!(LlmTokenizer::from_bytes(&[0xFF]).is_err());
}

#[test]
fn a_tokenizer_has_one_model_and_one_normalizer() {
    let bad = r#"{"type":"Precompiled","precompiled_charsmap":""}"#;
    let json = |front: &str, vocab: &str| {
        format!(
            r#"{{{front}"version":"1.0","normalizer":null,"model":{{"type":"WordLevel","unk_token":"?","vocab":{vocab}}}}}"#
        )
    };
    let vocab = r#"{"?":0,"\":{":1,"a:b":2,"{[":3,"model":4,"normalizer":5}"#;
    let t = LlmTokenizer::from_str(&json("", vocab)).unwrap();
    assert_eq!(t.token_to_id("\":{"), Some(1));
    assert_eq!(t.token_to_id("{["), Some(3));
    assert!(LlmTokenizer::from_str(&json(&format!("\"normalizer\":{bad},"), vocab)).is_err());
    assert!(LlmTokenizer::from_str(&json(&format!("\"norm\\u0061lizer\":{bad},"), vocab)).is_err());
    assert!(LlmTokenizer::from_str(&json("\"model\":{\"type\":\"BPE\",\"vocab\":{},\"merges\":[]},", vocab)).is_err());
    let twice = LlmTokenizer::from_str(&json("\"version\":\"1.0\",\"decoder\":null,\"decoder\":null,", vocab));
    assert_eq!(twice.unwrap().token_to_id("a:b"), Some(2));
}

#[test]
fn texts_are_cut_and_joined() {
    assert!(contains("abcd", "bc") && !contains("abcd", "cb") && contains("a", ""));
    assert!(starts_with("abc", "ab") && ends_with("abc", "bc") && same("é", "é"));
    assert_eq!(strip_prefix("abc", "ab").as_deref(), Some("c"));
    assert_eq!(strip_suffix("abc", "x"), None);
    assert_eq!(join2("ab", "cd"), "abcd");
    assert_eq!(replace("a.b.c", ".", "--"), "a--b--c");
    assert_eq!(replace("aaa", "aa", "b"), "ba");
    assert_eq!(cut_at("a.b.c", '.'), Some(("a".to_string(), "b.c".to_string())));
    assert_eq!(cut_at_last("a.b.c", '.'), Some(("a.b".to_string(), "c".to_string())));
    assert_eq!(split_on("a..b", '.'), names(&["a", "", "b"]));
}

#[test]
fn white_space_is_that_of_the_standard_library() {
    for n in 0..=0x10FFFFu32 {
        if let Some(c) = char::from_u32(n) {
            assert_eq!(has_no_white(&c.to_string()), !c.is_whitespace());
        }
    }
}

#[test]
fn numbers_are_read_and_written() {
    for n in [0u64, 7, 10, 999, u64::MAX] {
        assert_eq!(decimal(n), n.to_string());
        assert_eq!(parse_upto(&decimal(n), u64::MAX), Some(n));
    }
    assert_eq!(parse_usize("+12"), Some(12));
    assert_eq!(parse_usize("-1"), None);
    assert_eq!(parse_usize(""), None);
    assert_eq!(parse_upto("256", 255), None);
    assert_eq!(parse_upto("18446744073709551616", u64::MAX), None);
}

#[test]
fn dummy_backend_requires_explicit_opt_in() {
    // A model path, no tokenizer path, and no wish for a dummy: the real
    // engine is never silently replaced.
    assert_eq!(plan_engine(true, false, false), Err(EngineError::TokenizerPath));
    assert_eq!(plan_engine(true, true, false), Ok(EnginePlan::Real));
}

#[test]
fn dummy_backend_explicit_opt_in_succeeds() {
    assert_eq!(
        plan_engine(true, false, true),
        Ok(EnginePlan::Dummy),
        "use_dummy:true must succeed regardless of model_path"
    );
    assert_eq!(plan_engine(false, true, true), Err(EngineError::ModelPath));
}

#[test]
fn send_request_on_null_engine_returns_sentinel_not_zero() {
    let seq_id = answer_request(false, true, true, true, true, 7);
    assert_eq!(seq_id, INVALID_SEQ_ID);
    assert_ne!(seq_id, 0, "0 is a valid seq_id and must not double as the error sentinel");
    assert_eq!(answer_request(true, true, true, true, true, 0), 0);
}

#[test]
fn poll_token_on_null_engine_is_a_clean_error_not_a_panic() {
    let (result, _) = poll_result(Polled::NoEngine);
    assert!(result.is_error);
    assert!(!result.has_text);
}

#[test]
fn polling_tells_what_was_found() {
    let (token, _) = poll_result(Polled::Token { token_id: 5, is_eos: false });
    assert_eq!((token.token, token.is_eos, token.is_error), (5, false, false));
    let mut sequences = Sequences::new();
    sequences.issue(7);
    let (unknown, _) = poll_result(sequences.without_queue(8));
    assert_eq!(unknown, GenerationResult::error());
    let (finished, _) = poll_result(sequences.without_queue(7));
    assert_eq!(finished, GenerationResult::done());
    let (drained, _) = poll_result(Polled::Drained);
    assert_eq!(drained, GenerationResult::done());
    assert!(GenerationResult::done().is_eos);
}

#[test]
fn sequence_numbers_never_stand_for_a_failure() {
    assert_eq!(accept_seq_id(INVALID_SEQ_ID), None);
    assert_eq!(accept_seq_id(0), Some(0));
    for _ in 0..10 {
        assert_ne!(next_seq_id(), INVALID_SEQ_ID);
    }
    let half = Real::Single(0.5f32.to_bits());
    let r = ffi_request(9, vec![1, 2], half, half, 8);
    assert_eq!((r.seq_id, r.max_new_tokens, r.sample_params.temperature), (9, 8, half));
    let (own, _) = forward_event(9, EngineEvent::Token { seq_id: 8, token_id: 1, is_eos: true });
    assert!(!own);
}

#[test]
fn a_variant_is_described_by_its_file() {
    let v: QuantVariant = QuantVariant {
        filename: "m-Q4_0.gguf".to_string(),
        size_bytes: None,
        quant_label: "Q4_0".to_string(),
        is_mmproj: false,
    };
    assert!(recommend_variant(&[v], &machine(None, u64::MAX)).is_none());
}

#[test]
fn prompts_and_tokens_cross_the_c_interface_as_text() {
    let t = LlmTokenizer::from_str(WORDS).unwrap();
    assert_eq!(encode_request(Some("hello world"), Some(&t)), Some(vec![1, 2]));
    assert_eq!(encode_request(None, Some(&t)), None);
    assert_eq!(encode_request(Some("hello"), None), None);
    let (word, _) = poll_result(Polled::Token { token_id: 2, is_eos: false });
    assert_eq!(polled_text(word, Some(&t)).as_deref(), Some("world"));
    assert_eq!(polled_text(word, None), None);
    let (end, _) = poll_result(Polled::Drained);
    assert_eq!(polled_text(end, Some(&t)), None);
}

/// A word-level tokenizer with the given parts in place of the plain ones.
fn described(truncation: &str, padding: &str, added: &str, pre: &str, post: &str, decoder: &str) -> LlmTokenizer {
    let json = format!(
        r#"{{"version":"1.0","truncation":{truncation},"padding":{padding},"added_tokens":{added},
        "normalizer":null,"pre_tokenizer":{pre},"post_processor":{post},"decoder":{decoder},
        "model":{{"type":"WordLevel","vocab":{{"[UNK]":0,"hello":1,"world":2,"[CLS]":3,"":4}},"unk_token":"[UNK]"}}}}"#
    );
    LlmTokenizer::from_str(&json).unwrap()
}

const SPACES: &str = r#"{"type":"Whitespace"}"#;

#[test]
fn long_texts_are_cut_only_where_the_settings_allow_it() {
    let cut = |most: usize, stride: usize| {
        let truncation = format!(
            r#"{{"direction":"Right","max_length":{most},"strategy":"LongestFirst","stride":{stride}}}"#
        );
        described(&truncation, "null", "[]", SPACES, "null", "null").encode("hello world hello", true)
    };
    assert_eq!(cut(2, 0).unwrap(), vec![1, 2]);
    assert_eq!(cut(2, 1).unwrap(), vec![1, 2]);
    assert!(cut(2, 2).is_err());
    assert_eq!(cut(0, 7).unwrap(), Vec::<u32>::new());
    let whole = described(
        r#"{"direction":"Right","max_length":5,"strategy":"LongestFirst","stride":9}"#,
        "null",
        "[]",
        "null",
        "null",
        "null",
    );
    assert_eq!(whole.encode("hello", true).unwrap(), vec![1]);
    assert!(whole.encode("hello!", true).is_err());
    let template = r#"{"type":"TemplateProcessing",
        "single":[{"SpecialToken":{"id":"[CLS]","type_id":0}},{"Sequence":{"id":"A","type_id":0}}],
        "pair":[{"Sequence":{"id":"A","type_id":0}},{"Sequence":{"id":"B","type_id":1}}],
        "special_tokens":{"[CLS]":{"id":"[CLS]","ids":[3],"tokens":["[CLS]"]}}}"#;
    let tight = |most: usize| {
        let truncation = format!(
            r#"{{"direction":"Right","max_length":{most},"strategy":"LongestFirst","stride":0}}"#
        );
        described(&truncation, "null", "[]", SPACES, template, "null")
    };
    assert_eq!(tight(2).encode("hello world", true).unwrap(), vec![3, 1]);
    assert!(tight(0).encode("hello world", true).is_err());
    assert_eq!(tight(0).encode("hello world", false).unwrap(), Vec::<u32>::new());
}

#[test]
fn short_texts_are_filled_up_within_bounds() {
    let fill = |fixed: &str| {
        let padding = format!(
            r#"{{"strategy":{{"Fixed":{fixed}}},"direction":"Right","pad_to_multiple_of":null,"pad_id":0,"pad_type_id":0,"pad_token":"[UNK]"}}"#
        );
        described("null", &padding, "[]", SPACES, "null", "null").encode("hello", true)
    };
    assert_eq!(fill("3").unwrap(), vec![1, 0, 0]);
    assert!(fill("18446744073709551615").is_err());
}

#[test]
fn texts_are_split_only_where_the_parts_fit() {
    let pieces = |length: &str| {
        let pre = format!(r#"{{"type":"Sequence","pretokenizers":[{{"type":"FixedLength","length":{length}}}]}}"#);
        described("null", "null", "[]", &pre, "null", "null").encode("hello", false)
    };
    assert_eq!(pieces("5").unwrap(), vec![1]);
    assert!(pieces("0").is_err());
    let around = |piece: &str| {
        let post = format!(
            r#"{{"type":"Sequence","processors":[{{"type":"TemplateProcessing","single":[{piece}],"pair":[],"special_tokens":{{}}}}]}}"#
        );
        described("null", "null", "[]", SPACES, &post, "null").encode("hello", true)
    };
    assert_eq!(around(r#"{"Sequence":{"id":"A","type_id":0}}"#).unwrap(), vec![1]);
    assert!(around(r#"{"Sequence":{"id":"B","type_id":0}}"#).is_err());
    assert!(around(r#"{"SpecialToken":{"id":"[SEP]","type_id":0}}"#).is_err());
    let unknown = r#"{"type":"TemplateProcessing","single":[{"SpecialToken":{"id":"[SEP]","type_id":0}},
        {"Sequence":{"id":"A","type_id":0}}],"pair":[],"special_tokens":{}}"#;
    let unknown = described("null", "null", "[]", SPACES, unknown, "null");
    assert!(unknown.encode("hello", true).is_err());
    assert_eq!(unknown.encode("hello", false).unwrap(), vec![1]);
    let moved = r#"{"type":"Split","pattern":{"Regex":"hello\\Kx"},"behavior":"Isolated","invert":false}"#;
    assert!(described("null", "null", "[]", moved, "null", "null").encode("hellox", true).is_err());
    let token = |content: &str, lstrip: bool, rstrip: bool| {
        format!(
            r#"{{"id":9,"content":"{content}","single_word":false,"lstrip":{lstrip},"rstrip":{rstrip},"normalized":false,"special":true}}"#
        )
    };
    let greedy = format!("[{},{}]", token("hello", false, true), token(" ", true, false));
    let greedy = described("null", "null", &greedy, SPACES, "null", "null");
    assert!(greedy.encode("hello   world", true).is_err());
    assert_eq!(greedy.encode("hello", true).unwrap(), vec![1]);
    let wordy = format!("[{},{}]", token("hello", false, true), token(" world", true, false));
    let ids = described("null", "null", &wordy, SPACES, "null", "null").encode("hello world", true);
    assert_eq!(ids.unwrap().len(), 2);
    let polite = format!("[{},{}]", token("hello", false, true), token("world", true, false));
    let ids = described("null", "null", &polite, SPACES, "null", "null").encode("hello   world", true);
    assert_eq!(ids.unwrap(), vec![1, 2]);
}

#[test]
fn tokens_are_put_together_only_where_the_decoder_can() {
    let decode = |decoder: &str, ids: &[u32]| {
        described("null", "null", "[]", SPACES, "null", decoder).decode(ids, true)
    };
    assert_eq!(decode(r#"{"type":"Strip","content":"h","start":1,"stop":0}"#, &[1, 4]).unwrap(), "ello");
    assert!(decode(r#"{"type":"Strip","content":"h","start":0,"stop":1}"#, &[4]).is_err());
    let both = r#"{"type":"Strip","content":"o","start":1,"stop":1}"#;
    assert_eq!(decode(both, &[1]).unwrap(), "hell");
    assert_eq!(decode(&format!(r#"{{"type":"Sequence","decoders":[{both},{{"type":"Fuse"}}]}}"#), &[1]).unwrap(), "hell");
    let nested = r#"{"type":"Sequence","decoders":[{"type":"Fuse"},{"type":"Strip","content":"h","start":1,"stop":1}]}"#;
    assert!(decode(nested, &[1]).is_err());
    let counting = r#"{"type":"BPEDecoder","suffix":"</w>"}"#;
    assert_eq!(decode(counting, &[1]).unwrap(), "hello");
    assert!(decode(counting, &[]).is_err());
    assert!(decode(counting, &[77]).is_err());
    let dropping = r#"{"type":"CTC","pad_token":"hello","word_delimiter_token":"|","cleanup":false}"#;
    let counted_first = format!(r#"{{"type":"Sequence","decoders":[{counting},{dropping}]}}"#);
    assert_eq!(decode(&counted_first, &[1, 2]).unwrap(), "world");
    let dropped_first = format!(r#"{{"type":"Sequence","decoders":[{dropping},{counting}]}}"#);
    assert!(decode(&dropped_first, &[1]).is_err());
    let replaced = |regex: &str| {
        decode(&format!(r#"{{"type":"Replace","pattern":{{"Regex":"{regex}"}},"content":"_"}}"#), &[1])
    };
    assert_eq!(replaced("l+").unwrap(), "he_o");
    assert!(replaced("(?=ll\\\\K)").is_err());
    let steering = r#"[{"id":9,"content":"<s>","single_word":false,"lstrip":false,"rstrip":false,"normalized":false,"special":true}]"#;
    let skipping = described("null", "null", steering, SPACES, "null", counting);
    let begin = skipping.token_to_id("<s>").unwrap();
    assert_eq!(skipping.decode(&[begin, 1], true).unwrap(), "hello");
    assert!(skipping.decode(&[begin], true).is_err());
    assert_eq!(skipping.decode(&[begin], false).unwrap(), "<s>");
}

#[test]
fn documents_that_do_not_fit_together_are_refused() {
    let model = |model: &str, normalizer: &str| {
        let json = format!(
            r#"{{"version":"1.0","truncation":null,"padding":null,"added_tokens":[],"normalizer":{normalizer},
            "pre_tokenizer":null,"post_processor":null,"decoder":null,"model":{model}}}"#
        );
        LlmTokenizer::from_str(&json)
    };
    let good = r#"{"type":"BPE","vocab":{"a":0,"b":1,"ab":2},"merges":["a b"]}"#;
    assert_eq!(model(good, "null").unwrap().encode("ab", false).unwrap(), vec![2]);
    let paired = r#"{"type":"BPE","vocab":{"a":0,"b":1,"ab":2},"merges":[["a","b"]]}"#;
    assert_eq!(model(paired, "null").unwrap().encode("ab", false).unwrap(), vec![2]);
    assert!(model(r#"{"type":"BPE","vocab":{"a":0,"b":1},"merges":["a b"]}"#, "null").is_err());
    let short = r###"{"type":"BPE","continuing_subword_prefix":"##","vocab":{"a":0,"b":1,"abc":2},"merges":["a b"]}"###;
    assert!(model(short, "null").is_err());
    let prefixed = r###"{"type":"BPE","continuing_subword_prefix":"##","vocab":{"a":0,"##b":1,"ab":2,"xyb":3},"merges":["a ##b"]}"###;
    assert_eq!(model(prefixed, "null").unwrap().encode("ab", false).unwrap(), vec![2]);
    let other = r###"{"type":"BPE","continuing_subword_prefix":"##","vocab":{"a":0,"xyb":1,"ab":2},"merges":["a xyb"]}"###;
    assert_eq!(model(other, "null").unwrap().token_to_id("ab"), Some(2));
    let split = r###"{"type":"BPE","continuing_subword_prefix":"##","vocab":{"a":0,"x\u00e9b":1,"ab":2},"merges":["a x\u00e9b"]}"###;
    assert!(model(split, "null").is_err());
    let pieces = |n: usize| {
        format!(r#"{{"type":"Unigram","unk_id":0,"vocab":[["?",0.0],["{}",-1.0]]}}"#, "a".repeat(n))
    };
    assert_eq!(model(&pieces(1024), "null").unwrap().encode(&"a".repeat(1024), false).unwrap(), vec![1]);
    assert!(model(&pieces(1025), "null").is_err());
    for charsmap in ["null", "\"\"", "\"AAAA\"", "\"/////wAAAAA=\"", "\"?\""] {
        let normalizer = format!(
            r#"{{"type":"Sequence","normalizers":[{{"type":"Precompiled","precompiled_charsmap":{charsmap}}}]}}"#
        );
        assert!(model(good, &normalizer).is_err());
    }
    assert!(model(good, r#"{"type":{"Precompiled":null}}"#).is_err());
    // A table of one unit: no byte can be looked up in it.
    let tiny = r#"{"type":"Precompiled","precompiled_charsmap":"BAAAAAAAAAA="}"#;
    let tiny = model(good, tiny).unwrap();
    assert_eq!(tiny.encode("", false).unwrap(), Vec::<u32>::new());
    assert!(tiny.encode("ab", false).is_err());
    // A table of 200 units: ASCII can be looked up, most other characters cannot.
    let mut map = vec![0x20u8, 3, 0, 0];
    map.extend(vec![0u8; 800]);
    let short = format!(r#"{{"type":"Precompiled","precompiled_charsmap":"{}"}}"#, base64(&map));
    let short = model(good, &short).unwrap();
    assert_eq!(short.encode("ab", false).unwrap(), vec![2]);
    assert!(short.encode("ab\u{4e2d}", false).is_err());
    assert!(LlmTokenizer::from_str(r#"{"version":"1.0","decoder":{"type"#).is_err());
    assert!(LlmTokenizer::from_bytes(&[0xFF]).is_err());
}

#[test]
fn normalizers_are_used_only_where_they_can_follow_each_other() {
    let encode = |normalizers: &str, added: &str, text: &str| {
        let json = format!(
            r#"{{"version":"1.0","truncation":null,"padding":null,"added_tokens":{added},
            "normalizer":{{"type":"Sequence","normalizers":[{normalizers}]}},"pre_tokenizer":null,"post_processor":null,
            "decoder":null,"model":{{"type":"WordLevel","vocab":{{"?":0,"ab":1,"_ab":2,"a b":3}},"unk_token":"?"}}}}"#
        );
        LlmTokenizer::from_str(&json).and_then(|t| t.encode(text, false))
    };
    let lower = r#"{"type":"Lowercase"}"#;
    let replace = |pattern: &str, content: &str| {
        format!(r#"{{"type":"Replace","pattern":{pattern},"content":"{content}"}}"#)
    };
    let spaces = replace(r#"{"Regex":" {2,}"}"#, " ");
    assert_eq!(encode(&format!("{spaces},{lower}"), "[]", "A   B").unwrap(), vec![3]);
    let blanks = replace(r#"{"Regex":"\\s+"}"#, "");
    assert_eq!(encode(&format!("{blanks},{lower}"), "[]", "A   B").unwrap(), vec![1]);
    let literal = replace(r#"{"String":" "}"#, "");
    assert_eq!(encode(&format!("{literal},{lower}"), "[]", "A B").unwrap(), vec![1]);
    for pattern in [
        r#"{"String":""}"#,
        r#"{"Regex":""}"#,
        r#"{"Regex":"x*"}"#,
        r#"{"Regex":"x+*"}"#,
        r#"{"Regex":"x{2}?"}"#,
        r#"{"Regex":"^"}"#,
        r#"{"Regex":"x|"}"#,
    ] {
        assert!(encode(&format!("{},{lower}", replace(pattern, "_")), "[]", "AB").is_err());
    }
    let front = |s: &str| format!(r#"{{"type":"Prepend","prepend":"{s}"}}"#);
    assert_eq!(encode(&format!("{},{lower}", front("_")), "[]", "AB").unwrap(), vec![2]);
    assert!(encode(&format!("{},{lower}", front("")), "[]", "AB").is_err());
    let token = |normalized: bool| {
        format!(
            r#"[{{"id":1,"content":"ab","single_word":false,"lstrip":false,"rstrip":false,"normalized":{normalized},"special":false}}]"#
        )
    };
    let empty = replace(r#"{"String":""}"#, "_");
    let loaded = |added: &str, normalizers: &str| {
        let json = format!(
            r#"{{"version":"1.0","added_tokens":{added},"normalizer":{{"type":"Sequence","normalizers":[{normalizers}]}},
            "model":{{"type":"WordLevel","vocab":{{"?":0,"ab":1}},"unk_token":"?"}}}}"#
        );
        LlmTokenizer::from_str(&json).map(|t| t.vocab_size())
    };
    assert!(loaded(&token(true), &format!("{empty},{lower}")).is_err());
    assert_eq!(loaded(&token(false), &format!("{empty},{lower}")), Ok(2));
    assert_eq!(loaded(&token(true), lower), Ok(2));
}

#[test]
fn a_table_of_replacements_is_walked_before_it_is_used() {
    assert_eq!(read_base64("aGVsbG8="), Some(b"hello".to_vec()));
    assert_eq!(read_base64("aGk="), Some(b"hi".to_vec()));
    assert_eq!(read_base64("aGVs"), Some(b"hel".to_vec()));
    assert_eq!(read_base64("aGl="), None);
    assert_eq!(read_base64("aGk=aGVs"), None);
    assert_eq!(read_base64("aGk"), None);
    // A trie of 256 units, of which the first leads on to the beginning of it.
    let mut map = vec![0u8, 4, 0, 0];
    map.extend(vec![0u8; 1024]);
    let sound = |map: &[u8]| read_charsmap(&base64(map)).map_or(false, |m| is_map_sound(&m));
    assert!(sound(&map));
    let mut far = map.clone();
    far[6] = 4;
    assert!(!sound(&far));
    assert!(!sound(&map[..1020]));
    assert!(read_charsmap(&base64(&map[..1020])).is_none());
    let read = read_charsmap(&base64(&far)).unwrap();
    assert!(does_text_walk(&read, "") && !does_text_walk(&read, "a"));
    let mut hanging = map.clone();
    hanging[5] = 1;
    assert!(!sound(&hanging));
    hanging.extend(vec![b'x'; 256]);
    assert!(sound(&hanging));
}

fn base64(bytes: &[u8]) -> String {
    const DIGITS: &[u8; 64] = b"ABCDEFGHIJKLMNOPQRSTUVWXYZabcdefghijklmnopqrstuvwxyz0123456789+/";
    let mut out = String::new();
    for chunk in bytes.chunks(3) {
        let n = chunk.iter().fold(0u32, |n, b| n << 8 | *b as u32) << (8 * (3 - chunk.len()));
        for i in 0..4 {
            let digit = DIGITS[(n >> (18 - 6 * i) & 63) as usize] as char;
            out.push(if i > chunk.len() { '=' } else { digit });
        }
    }
    out
}
