//! Prompts, the chat server's decisions, and the console.
use llm_engine::chat::console::{
    expand_media, media_candidates, message_content, pick_path, read_command, trim_history,
    Command, InputStep, Media, MediaTokens, UserInput, MAX_TURNS,
};
use llm_engine::chat::prompt::{
    encode_prompt, manual_format, maybe_prepend_bos, prompt_or_styled, render_prompt, strftime_now,
    try_jinja_render, ChatMessage, GEMMA_BOS_TOKEN_ID,
};
use llm_engine::calendar::date;
use llm_engine::chat::template::is_plain;
use llm_engine::chat::server::{
    answer_text, chat_completions, check_request, completion_chunk, health, infer_request,
    lagged_message, log_compiled_backend_support, models, new_seq_id, prepare_request,
    resolve_eos_token_ids, resolve_tokenizer_path, stop_tokens, stream_step, token_chunk, Answer,
    ChatCompletionRequest, Collector, EngineEvent, GenLoopResult, Progress, Refusal, Started,
    StreamAction,
};
use llm_engine::profile::BackendChoice;
use llm_engine::tokenizer::LlmTokenizer;
use llm_engine::types::{HiddenAct, ModelMeta, Real, WeightDtype};

fn mock_meta(arch: &str) -> ModelMeta {
    ModelMeta {
        vocab_size: 32000,
        hidden_dim: 4096,
        n_layers: 2,
        n_heads: 32,
        n_kv_heads: 8,
        head_dim: 128,
        intermediate_dim: 11008,
        max_seq_len: 2048,
        rope_theta: Real::Single(10000.0f32.to_bits()),
        weight_dtype: WeightDtype::F16,
        rms_norm_eps: Real::Single(1e-5f32.to_bits()),
        tie_word_embeddings: false,
        hidden_act: HiddenAct::SiLU,
        no_rope_layers: vec![false; 2],
        has_vision_encoder: false,
        vision_hidden_dim: None,
        vision_patch_size: None,
        vision_image_size: None,
        vision_num_layers: None,
        vision_num_heads: None,
        vision_projection_dim: None,
        spatial_merge_size: None,
        is_deepstack_layers: None,
        projector_type: None,
        has_audio_encoder: false,
        audio_hidden_dim: None,
        audio_block_count: None,
        audio_embedding_length: None,
        audio_num_mel_bins: None,
        shared_kv_layers: None,
        sliding_window_pattern: None,
        sliding_window: None,
        key_length: None,
        key_length_swa: None,
        rope_theta_swa: None,
        final_logit_softcapping: None,
        is_gemma: arch == "gemma4",
        ple_dim: None,
        embed_scale: None,
        arch: arch.to_string(),
        chat_template: None,
        eos_token_str: None,
    }
}

fn say(role: &str, content: &str) -> ChatMessage {
    ChatMessage { role: role.to_string(), content: content.to_string() }
}

fn request(max_tokens: Option<usize>, stream: bool) -> ChatCompletionRequest {
    ChatCompletionRequest {
        model: "mock".to_string(),
        messages: vec![say("user", "Hello")],
        stream,
        temperature: None,
        top_p: None,
        max_tokens,
    }
}

fn token(seq_id: u64, token_id: u32, is_eos: bool) -> EngineEvent {
    EngineEvent::Token { seq_id, token_id, is_eos }
}

#[test]
fn test_gemma_arch_uses_gemma_format_not_chatml() {
    let meta = mock_meta("gemma4");
    let messages = vec![ChatMessage { role: "user".to_string(), content: "hi".to_string() }];
    let rendered = render_prompt(&messages, &meta, 0);

    assert!(rendered.contains("<|turn>user"), "expected gemma4 turn format, got: {}", rendered);
    assert!(!rendered.contains("<|im_start|>"), "gemma4 must not use hardcoded ChatML format, got: {}", rendered);
}

#[test]
fn test_qwen_arch_uses_chatml_format() {
    let meta = mock_meta("qwen2");
    let messages = vec![ChatMessage { role: "user".to_string(), content: "hi".to_string() }];
    let rendered = render_prompt(&messages, &meta, 0);
    assert!(rendered.contains("<|im_start|>user"), "expected ChatML format, got: {}", rendered);
}

#[test]
fn every_style_writes_its_own_turns() {
    let messages = vec![say("system", "S"), say("user", "U"), say("assistant", "A")];
    assert_eq!(
        manual_format(&messages, &mock_meta("gemma4")),
        "<|turn>system\nS<turn|>\n<|turn>user\nU<turn|>\n<|turn>model\nA<turn|>\n<|turn>model\n"
    );
    let mut gemma = mock_meta("gemma3");
    gemma.is_gemma = true;
    assert_eq!(
        manual_format(&messages[1..], &gemma),
        "<start_of_turn>user\nU<end_of_turn>\n<start_of_turn>model\nA<end_of_turn>\n<start_of_turn>model\n"
    );
    assert_eq!(
        manual_format(&messages[1..2], &mock_meta("llama")),
        "<|im_start|>user\nU<|im_end|>\n<|im_start|>assistant\n"
    );
    assert_eq!(
        manual_format(&messages, &mock_meta("other")),
        "System: S\n\nUser: U\nAssistant: A\nAssistant: "
    );
}

#[test]
fn turns_are_written_one_behind_the_other() {
    let meta = mock_meta("qwen2");
    let one = manual_format(&[say("user", "a")], &meta);
    let two = manual_format(&[say("user", "a"), say("assistant", "b")], &meta);
    let head = one.strip_suffix("<|im_start|>assistant\n").unwrap();
    assert!(two.starts_with(head));
}

#[test]
fn a_template_is_rendered_with_the_conversation() {
    let template = "{% for m in messages %}[{{ m.role|upper }}:{{ m['content'].strip() }}]{% endfor %}{% if add_generation_prompt %}{% generation %}>{% endgeneration %}{% endif %}{% if enable_thinking %}?{% else %}!{% endif %}";
    let messages = vec![say("user", " hi "), say("assistant", "yo")];
    assert_eq!(try_jinja_render(template, &messages, 0).unwrap(), "[USER:hi][ASSISTANT:yo]>!");
    let mut meta = mock_meta("qwen2");
    meta.chat_template = Some(template.to_string());
    assert_eq!(render_prompt(&messages, &meta, 0), "[USER:hi][ASSISTANT:yo]>!");
}

#[test]
fn a_template_may_ask_for_the_date() {
    let template = "{{ strftime_now('%d %b %Y') }}";
    assert_eq!(try_jinja_render(template, &[], 0).unwrap(), "01 1 1970");
    assert_eq!(try_jinja_render(template, &[], 86400 * 400).unwrap(), "05 2 1971");
}

#[test]
fn a_template_that_fails_falls_back_to_the_style() {
    let mut meta = mock_meta("qwen2");
    meta.chat_template = Some("{% for %}".to_string());
    let messages = vec![say("user", "hi")];
    assert!(try_jinja_render("{% for %}", &messages, 0).is_err());
    assert_eq!(render_prompt(&messages, &meta, 0), manual_format(&messages, &meta));
    assert_eq!(prompt_or_styled(Some("x".to_string()), &messages, &meta), "x");
    assert_eq!(prompt_or_styled(None, &messages, &meta), manual_format(&messages, &meta));
}

#[test]
fn dates_are_those_of_the_calendar() {
    assert_eq!(strftime_now("%Y", 0), "01 1 1970");
    assert_eq!(strftime_now("iso", 86400 * 31), "1970-02-01");
    assert_eq!(strftime_now("iso", 86400 * 364), "1970-12-31");
    assert_eq!(strftime_now("iso", 86400 * 365), "1971-01-01");
    // Leap days: every fourth year, but for centuries, but for every fourth of these.
    assert_eq!(strftime_now("iso", 951_782_400), "2000-02-29");
    assert_eq!(strftime_now("iso", 1_709_164_800), "2024-02-29");
    assert_eq!(strftime_now("iso", 1_709_251_200), "2024-03-01");
    assert_eq!(strftime_now("iso", 4_107_456_000), "2100-02-28");
    assert_eq!(strftime_now("iso", 4_107_542_400), "2100-03-01");
    assert_eq!(date(19_782), (2024, 2, 29));
}

/// A template in the manner of ChatML models, with a branch for tools.
const CHATML: &str = "{%- if tools %}
    {{- '<|im_start|>system\\n' }}
    {%- if messages[0]['role'] == 'system' %}
        {{- messages[0]['content'] }}
    {%- endif %}
    {%- for tool in tools %}
        {{- \"\\n\" }}
        {{- tool | tojson }}
    {%- endfor %}
    {{- '<|im_end|>\\n' }}
{%- else %}
    {%- if messages[0]['role'] == 'system' %}
        {{- '<|im_start|>system\\n' + messages[0]['content'] + '<|im_end|>\\n' }}
    {%- else %}
        {{- '<|im_start|>system\\nBe kind.<|im_end|>\\n' }}
    {%- endif %}
{%- endif %}
{%- for message in messages %}
    {%- if (message.role == 'user') or (message.role == 'system' and not loop.first) or (message.role == 'assistant' and not message.tool_calls) %}
        {{- '<|im_start|>' + message.role + '\\n' + message.content + '<|im_end|>' + '\\n' }}
    {%- endif %}
{%- endfor %}
{%- if add_generation_prompt %}
    {{- '<|im_start|>assistant\\n' }}
{%- endif %}
";

#[test]
fn usual_templates_are_rendered() {
    let messages = vec![say("user", "hi"), say("assistant", "yo"), say("user", "bye")];
    assert_eq!(
        try_jinja_render(CHATML, &messages, 0).unwrap(),
        "<|im_start|>system\nBe kind.<|im_end|>\n<|im_start|>user\nhi<|im_end|>\n<|im_start|>assistant\nyo<|im_end|>\n<|im_start|>user\nbye<|im_end|>\n<|im_start|>assistant\n"
    );
    let headers = "{% set loop_messages = messages %}{% for message in loop_messages %}{% set content = '<|start_header_id|>' + message['role'] + '<|end_header_id|>\n\n'+ message['content'] | trim + '<|eot_id|>' %}{{ content }}{% endfor %}{% if add_generation_prompt %}{{ '<|start_header_id|>assistant<|end_header_id|>\n\n' }}{% endif %}";
    assert_eq!(
        try_jinja_render(headers, &messages[..1], 0).unwrap(),
        "<|start_header_id|>user<|end_header_id|>\n\nhi<|eot_id|><|start_header_id|>assistant<|end_header_id|>\n\n"
    );
    let turns = "{% for message in messages %}{% if (message['role'] == 'assistant') %}{% set role = 'model' %}{% else %}{% set role = message['role'] %}{% endif %}{{ '<start_of_turn>' + role + '\n' + message['content'] | trim + '<end_of_turn>\n' }}{% endfor %}{% if add_generation_prompt %}{{'<start_of_turn>model\n'}}{% endif %}";
    assert_eq!(
        try_jinja_render(turns, &messages[1..2], 0).unwrap(),
        "<start_of_turn>model\nyo<end_of_turn>\n<start_of_turn>model\n"
    );
    let last_first = "{% for m in messages[::-1] %}{{ m.content }};{% endfor %}";
    assert_eq!(try_jinja_render(last_first, &messages, 0).unwrap(), "bye;yo;hi;");
    let counted = "{%- set ns = namespace(n=0) %}{% for m in messages %}{% set ns.n = ns.n + 1 %}{% endfor %}{{ ns.n }}{{ messages|length }}{{ messages[-1].content }}";
    assert_eq!(try_jinja_render(counted, &messages, 0).unwrap(), "33bye");
}

/// A template in the manner of models that think before they answer.
const THINKING: &str = "{%- if tools %}
    {%- for tool in tools %}
        {{- tool | tojson }}
    {%- endfor %}
{%- elif messages[0].role == 'system' %}
    {{- '<|im_start|>system\\n' + messages[0].content + '<|im_end|>\\n' }}
{%- endif %}
{%- set ns = namespace(multi_step_tool=true, last_query_index=messages|length - 1) %}
{%- for forward_message in messages %}
    {%- set index = (messages|length - 1) - loop.index0 %}
    {%- set message = messages[index] %}
    {%- if ns.multi_step_tool and message.role == \"user\" and message.content is string and not(message.content.startswith('<tool_response>') and message.content.endswith('</tool_response>')) %}
        {%- set ns.multi_step_tool = false %}
        {%- set ns.last_query_index = index %}
    {%- endif %}
{%- endfor %}
{%- for message in messages %}
    {%- if message.content is string %}
        {%- set content = message.content %}
    {%- else %}
        {%- set content = '' %}
    {%- endif %}
    {%- if (message.role == \"user\") or (message.role == \"system\" and not loop.first) %}
        {{- '<|im_start|>' + message.role + '\\n' + content + '<|im_end|>' + '\\n' }}
    {%- elif message.role == \"assistant\" %}
        {%- set reasoning_content = '' %}
        {%- if message.reasoning_content is string %}
            {%- set reasoning_content = message.reasoning_content %}
        {%- elif '</think>' in content %}
            {%- set reasoning_content = content.split('</think>')[0].rstrip('\\n').split('<think>')[-1].lstrip('\\n') %}
            {%- set content = content.split('</think>')[-1].lstrip('\\n') %}
        {%- endif %}
        {%- if loop.index0 > ns.last_query_index %}
            {{- '<|im_start|>' + message.role + '\\n<think>\\n' + reasoning_content.strip('\\n') + '\\n</think>\\n\\n' + content.lstrip('\\n') }}
        {%- else %}
            {{- '<|im_start|>' + message.role + '\\n' + content }}
        {%- endif %}
        {%- for tool_call in message.tool_calls or [] %}
            {%- if tool_call.function %}
                {%- set tool_call = tool_call.function %}
            {%- endif %}
            {{- '<tool_call>\\n{\"name\": \"' + tool_call.name + '\", \"arguments\": ' }}
            {{- tool_call.arguments | tojson }}
        {%- endfor %}
        {{- '<|im_end|>\\n' }}
    {%- elif message.role == \"tool\" %}
        {%- if loop.first or (messages[loop.index0 - 1].role != \"tool\") %}
            {{- '<|im_start|>user' }}
        {%- endif %}
        {{- content }}
    {%- endif %}
{%- endfor %}
{%- if add_generation_prompt %}
    {{- '<|im_start|>assistant\\n' }}
    {%- if enable_thinking is defined and enable_thinking is false %}
        {{- '<think>\\n\\n</think>\\n\\n' }}
    {%- endif %}
{%- endif %}
";

#[test]
fn templates_of_thinking_models_are_rendered() {
    let messages = vec![say("user", "hi"), say("assistant", "<think>\nhm\n</think>\n\nyo"), say("user", "bye")];
    assert_eq!(
        try_jinja_render(THINKING, &messages, 0).unwrap(),
        "<|im_start|>user\nhi<|im_end|>\n<|im_start|>assistant\nyo<|im_end|>\n<|im_start|>user\nbye<|im_end|>\n<|im_start|>assistant\n<think>\n\n</think>\n\n"
    );
    let gathered = "{% set ns = namespace(system_prompt='', first=true) %}{% for message in messages %}{% if message['role'] == 'system' %}{% if ns.first %}{% set ns.system_prompt = ns.system_prompt + message['content'] %}{% set ns.first = false %}{% else %}{% set ns.system_prompt = ns.system_prompt + '; ' + message['content'] %}{% endif %}{% endif %}{% endfor %}{{ ns.system_prompt }}{% for message in messages %}{% if message['role'] == 'user' %}|{{ message['content'].replace('a', '') }}{% endif %}{% endfor %}";
    let talk = vec![say("system", "x"), say("user", "banana"), say("system", "y")];
    assert_eq!(try_jinja_render(gathered, &talk, 0).unwrap(), "x; y|bnn");
}

#[test]
fn templates_whose_values_grow_with_themselves_are_not_rendered() {
    let messages = vec![say("user", "hi")];
    let doubled = format!("{{% set s = 'x' %}}{}{{{{ s }}}}", "{% set s = s + s %}".repeat(60));
    let joined = format!("{{% set s = 'x' %}}{}{{{{ s }}}}", "{% set s = s ~ s %}".repeat(60));
    let summed = format!("{{% set a = 'x' %}}{{% set b = 'x' %}}{}", "{% set a = a + b %}{% set b = b + a %}".repeat(60));
    let shared = format!("{{% set s = 'x' %}}{}{{{{ s }}}}", "{% set s = [s, s] %}".repeat(60));
    let renamed = format!("{{% set s = 'x' %}}{}", "{% set t = s %}{% set s = s + t %}".repeat(60));
    let looped = format!("{{% set ns = namespace(s='x') %}}{}", "{% for t in [ns.s] %}{% set ns.s = ns.s + t %}{% endfor %}".repeat(60));
    let captured = format!("{{% set s = 'x' %}}{}", "{% set s %}{{ s }}{{ s }}{% endset %}".repeat(60));
    let replaced = format!("{{{{ 'a'{} }}}}", "|replace('a', 'aa')".repeat(30));
    let quoted = format!("{{{{ {}'\\'{} }}}}", "[".repeat(30), "]|string".repeat(30));
    let called = "{% macro f(n) %}{% if n > 0 %}{{ f(n - 1) }}{{ f(n - 1) }}{% endif %}{% endmacro %}{{ f(60) }}";
    let copied = format!("{{% macro f(x) %}}{{{{ x }}}}{{{{ x }}}}{{% endmacro %}}{{% set s = 'x' %}}{}", "{% set s = f(s) %}".repeat(60));
    let nested = format!("{}x{}", "{% for m in messages %}".repeat(4), "{% endfor %}".repeat(4));
    for template in [
        doubled.as_str(),
        joined.as_str(),
        summed.as_str(),
        shared.as_str(),
        renamed.as_str(),
        looped.as_str(),
        captured.as_str(),
        replaced.as_str(),
        quoted.as_str(),
        called,
        copied.as_str(),
        nested.as_str(),
    ] {
        assert!(!is_plain(template, true));
        assert!(try_jinja_render(template, &messages, 0).is_err());
    }
    let long = "{% if x == y %}{% set z = a %}{% endif %}".repeat(1500);
    assert!(is_plain(&long, true) && !is_plain(&long.repeat(2), true));
    let macros = "{% macro f(x) %}<{{ x }}>{% endmacro %}{{ f(messages[0].content) }}{{ f('b') }}";
    assert_eq!(try_jinja_render(macros, &messages, 0).unwrap(), "<hi><b>");
}

#[test]
fn templates_that_ask_for_too_much_are_not_rendered() {
    let messages = vec![say("user", "hi")];
    let deep = format!("{{{{ {}1{} }}}}", "[".repeat(2000), "]".repeat(2000));
    let long = format!("{{{{ 1{} }}}}", "+1".repeat(5000));
    for template in [
        "{{ messages|batch(4000000000) }}",
        "{{ messages|slice(4000000000) }}",
        "{{ 'a'|indent(4000000000) }}",
        "{{ [1] * 4000000000 }}",
        "{{ range(4000000000)|list }}",
        "{{ ''.count('') }}",
        "{{ 4 is divisibleby(0) }}",
        "{% for m in messages %}{{ loop.cycle() }}{% endfor %}",
        "{% for m in messages recursive %}{{ loop(messages) }}{% endfor %}",
        "{{ [][::-1] }}",
        "{{ 'abc'[0:2:-1] }}",
        deep.as_str(),
        long.as_str(),
    ] {
        assert!(try_jinja_render(template, &messages, 0).is_err());
        let mut meta = mock_meta("qwen2");
        meta.chat_template = Some(template.to_string());
        assert_eq!(render_prompt(&messages, &meta, 0), manual_format(&messages, &meta));
    }
    assert!(try_jinja_render("{{ messages[::-1] }}", &[], 0).is_err());
    assert!(is_plain(CHATML, true) && is_plain(CHATML, false));
    assert!(is_plain("{{ messages[::-1] }}", true) && !is_plain("{{ messages[::-1] }}", false));
}

#[test]
fn gemma_tokens_begin_once() {
    let mut tokens = vec![7, 8];
    maybe_prepend_bos(&mut tokens, &mock_meta("gemma4"));
    assert_eq!(tokens, vec![GEMMA_BOS_TOKEN_ID, 7, 8]);
    maybe_prepend_bos(&mut tokens, &mock_meta("gemma4"));
    assert_eq!(tokens, vec![GEMMA_BOS_TOKEN_ID, 7, 8]);
    let mut other = vec![7, 8];
    maybe_prepend_bos(&mut other, &mock_meta("llama"));
    assert_eq!(other, vec![7, 8]);
}

#[test]
fn max_tokens_over_the_limit_is_refused_in_words() {
    let message = check_request(&request(Some(999999999), false), 100).unwrap_err();
    assert_eq!(message, "max_tokens (999999999) exceeds this server's limit of 100");
    assert!(check_request(&request(Some(100), false), 100).is_ok());
    assert!(check_request(&request(None, false), 0).is_ok());
}

#[test]
fn a_request_is_completed_by_the_defaults() {
    let r = infer_request(&request(None, false), 9, vec![5]);
    assert_eq!(r.seq_id, 9);
    assert_eq!(r.prompt_tokens, vec![5]);
    assert_eq!(r.max_new_tokens, 128);
    assert_eq!(r.sample_params.temperature, Real::Single(0.7f32.to_bits()));
    assert_eq!(r.sample_params.top_p, Real::Single(0.9f32.to_bits()));
    assert_eq!(r.sample_params.repetition_penalty, Real::Single(1.1f32.to_bits()));
    assert_eq!(r.sample_params.top_k, 40);
    let mut asked = request(Some(3), false);
    asked.temperature = Some(Real::Single(0));
    let r = infer_request(&asked, 9, vec![5]);
    assert_eq!(r.prompt_tokens, vec![5]);
    assert_eq!(r.max_new_tokens, 3);
    assert_eq!(r.sample_params.temperature, Real::Single(0));
}

const SPOKEN: &str = r#"{"version":"1.0","truncation":null,"padding":null,"added_tokens":[],
    "normalizer":null,"pre_tokenizer":{"type":"WhitespaceSplit"},"post_processor":null,"decoder":null,
    "model":{"type":"WordLevel","vocab":{"[UNK]":0,"User:":1,"Assistant:":2,"hello":3,"world":4},"unk_token":"[UNK]"}}"#;

#[test]
fn a_prompt_is_split_and_begun() {
    let tokenizer = LlmTokenizer::from_str(SPOKEN).unwrap();
    let plain = encode_prompt("hello world", &tokenizer, &mock_meta("other")).unwrap();
    assert_eq!(plain, vec![3, 4]);
    let begun = encode_prompt("hello world", &tokenizer, &mock_meta("gemma4")).unwrap();
    assert_eq!(begun, vec![GEMMA_BOS_TOKEN_ID, 3, 4]);
}

#[test]
fn a_request_is_prepared_for_the_engine() {
    let tokenizer = LlmTokenizer::from_str(SPOKEN).unwrap();
    let meta = mock_meta("other");
    let mut asked = request(Some(3), false);
    asked.messages = vec![ChatMessage { role: "user".to_string(), content: "hello".to_string() }];
    let r = prepare_request(&asked, 10, 9, &tokenizer, &meta, 0).unwrap();
    assert_eq!(r.seq_id, 9);
    assert_eq!(r.prompt_tokens, vec![1, 3, 2]);
    assert_eq!(r.max_new_tokens, 3);
    assert_eq!(r.sample_params.top_k, 40);
    assert_eq!(
        prepare_request(&asked, 2, 9, &tokenizer, &meta, 0).unwrap_err(),
        Refusal::BadRequest("max_tokens (3) exceeds this server's limit of 2".to_string())
    );
    let blind = r#"{"version":"1.0","truncation":null,"padding":null,"added_tokens":[],
        "normalizer":null,"pre_tokenizer":null,"post_processor":null,"decoder":null,
        "model":{"type":"WordLevel","vocab":{"hello":3},"unk_token":"[UNK]"}}"#;
    let blind = LlmTokenizer::from_str(blind).unwrap();
    assert!(matches!(
        prepare_request(&asked, 10, 9, &blind, &meta, 0),
        Err(Refusal::EncodeFailed(_))
    ));
}

#[test]
fn tokens_are_answered_as_text() {
    let tokenizer = LlmTokenizer::from_str(SPOKEN).unwrap();
    let chunk = token_chunk(4, 77, "m", &tokenizer, 4, true);
    assert_eq!(chunk.id, "chatcmpl-4");
    assert_eq!(chunk.choices[0].delta.content.as_deref(), Some("world"));
    assert_eq!(chunk.choices[0].finish_reason.as_deref(), Some("stop"));
    let mut collector = Collector::new(4);
    collector.step(EngineEvent::Token { seq_id: 4, token_id: 3, is_eos: false });
    collector.step(EngineEvent::Token { seq_id: 5, token_id: 2, is_eos: false });
    collector.step(EngineEvent::Token { seq_id: 4, token_id: 4, is_eos: true });
    assert_eq!(answer_text(&collector, &tokenizer), "hello world");
    assert_eq!(tokenizer.decode_or(&[3], "x"), "hello");
}

#[test]
fn answers_follow_what_happened() {
    let ok = Started { encoded: true, queued: true };
    let go = |req: &ChatCompletionRequest, started: Started, ended: Progress| {
        chat_completions(req, 10, 4, started, ended, 77, "mock-model", "text".to_string())
    };
    match go(&request(None, false), ok, Progress::Done) {
        Answer::Complete(r) => {
            assert_eq!(r.id, "chatcmpl-4");
            assert_eq!(r.object, "chat.completion");
            assert_eq!(r.model, "mock-model");
            assert_eq!(r.created, 77);
            assert_eq!(r.choices[0].message.role, "assistant");
            assert_eq!(r.choices[0].message.content, "text");
            assert_eq!(r.choices[0].finish_reason, "stop");
        },
        other => panic!("{:?}", other),
    }
    assert!(matches!(go(&request(None, true), ok, Progress::More), Answer::Stream));
    assert!(matches!(go(&request(None, false), ok, Progress::Lost), Answer::Unavailable));
    assert!(matches!(go(&request(Some(11), false), ok, Progress::Done), Answer::BadRequest(_)));
    let not_encoded = Started { encoded: false, queued: false };
    assert!(matches!(go(&request(None, false), not_encoded, Progress::Done), Answer::EncodeFailed));
    let not_queued = Started { encoded: true, queued: false };
    assert!(matches!(go(&request(None, false), not_queued, Progress::Done), Answer::QueueFailed));
}

#[test]
fn a_stream_sends_its_own_tokens() {
    assert_eq!(stream_step(1, token(2, 7, true)), StreamAction::Skip);
    assert_eq!(stream_step(1, token(1, 7, false)), StreamAction::Send { token_id: 7 });
    assert_eq!(stream_step(1, token(1, 8, true)), StreamAction::SendLast { token_id: 8 });
    assert_eq!(stream_step(1, EngineEvent::Lagged), StreamAction::Fail);
    assert_eq!(stream_step(1, EngineEvent::Closed), StreamAction::Stop);
    let chunk = completion_chunk(1, 5, "m", "x".to_string(), false);
    assert_eq!(chunk.id, "chatcmpl-1");
    assert_eq!(chunk.object, "chat.completion.chunk");
    assert_eq!(chunk.choices[0].delta.content.as_deref(), Some("x"));
    assert_eq!(chunk.choices[0].finish_reason, None);
    let last = completion_chunk(1, 5, "m", "x".to_string(), true);
    assert_eq!(last.choices[0].finish_reason.as_deref(), Some("stop"));
    assert!(lagged_message().contains("please retry"));
}

#[test]
fn other_sequences_do_not_matter_to_a_collector() {
    let mut alone = Collector::new(1);
    let mut among = Collector::new(1);
    for (id, eos) in [(2, false), (1, false), (3, true), (1, true)] {
        let p = among.step(token(id, id as u32 * 10, eos));
        assert_eq!(p, if id == 1 && eos { Progress::Done } else { Progress::More });
        if id == 1 {
            alone.step(token(id, id as u32 * 10, eos));
        }
    }
    assert_eq!(among.tokens(), &vec![10, 10]);
    assert_eq!(among.tokens(), alone.tokens());
    assert_eq!(among.step(EngineEvent::Lagged), Progress::Lost);
    assert_eq!(among.step(EngineEvent::Closed), Progress::Done);
}

#[test]
fn a_generation_ends_at_a_stop_token_or_its_limit() {
    let mut r = GenLoopResult::default();
    assert!(r.consume(1, token(2, 9, true), 5, &[3], 4));
    assert!(r.consume(1, token(1, 9, false), 6, &[3], 4));
    assert_eq!(r.ttft, Some(6));
    assert!(!r.consume(1, token(1, 3, false), 7, &[3], 4));
    assert_eq!(r.tokens, vec![9, 3]);
    assert_eq!(r.ttft, Some(6));
    let mut limited = GenLoopResult::default();
    assert!(limited.consume(1, token(1, 4, false), 1, &[], 2));
    assert!(!limited.consume(1, token(1, 4, false), 1, &[], 2));
    assert!(!limited.lagged);
    assert!(!limited.consume(1, EngineEvent::Lagged, 1, &[], 9));
    assert!(limited.lagged);
    assert!(!limited.consume(1, EngineEvent::Closed, 1, &[], 9));
}

#[test]
fn the_list_of_models_names_the_one_there_is() {
    let r = models("mock-model");
    assert_eq!(r.object, "list");
    assert_eq!(r.data[0].id, "mock-model");
    assert_eq!(r.data[0].owned_by, "llm-rs");
    assert_eq!(health(), "OK");
}

#[test]
fn sequence_numbers_are_drawn_at_random() {
    let drawn: Vec<u64> = (0..4).map(|_| new_seq_id()).collect();
    assert!(drawn.iter().any(|&d| d != drawn[0]));
}

#[test]
fn stop_tokens_are_listed_in_order() {
    assert_eq!(stop_tokens(Some(1), None, Some(3), Some(4)), vec![1, 3, 4]);
    assert_eq!(stop_tokens(None, None, None, None), Vec::<u32>::new());
    let json = r#"{"version":"1.0","truncation":null,"padding":null,"added_tokens":[],
        "normalizer":null,"pre_tokenizer":{"type":"Whitespace"},"post_processor":null,"decoder":null,
        "model":{"type":"WordLevel","vocab":{"[UNK]":0,"<|im_end|>":5,"<end_of_turn>":6},"unk_token":"[UNK]"}}"#;
    let tokenizer = LlmTokenizer::from_str(json).unwrap();
    assert_eq!(resolve_eos_token_ids(Some(2), &tokenizer), vec![2, 5, 6]);
    assert_eq!(resolve_eos_token_ids(None, &tokenizer), vec![5, 6]);
}

#[test]
fn the_tokenizer_stands_beside_the_model() {
    assert_eq!(resolve_tokenizer_path("/m/x.gguf", Some("/m"), true).unwrap(), "/m/tokenizer.json");
    assert_eq!(resolve_tokenizer_path("/m/x", Some("/m"), false).unwrap(), "/m/x/tokenizer.json");
    assert!(resolve_tokenizer_path("/", None, true).is_err());
}

#[test]
fn a_device_that_was_not_built_for_is_worth_a_warning() {
    assert!(!log_compiled_backend_support(true, false, BackendChoice::Cuda));
    assert!(log_compiled_backend_support(false, true, BackendChoice::Cuda));
    assert!(log_compiled_backend_support(true, false, BackendChoice::Metal));
    assert!(!log_compiled_backend_support(false, false, BackendChoice::Cpu));
}

#[test]
fn lines_are_commands_or_talk() {
    assert_eq!(read_command("  \n"), Command::Nothing);
    assert_eq!(read_command(" /exit\n"), Command::Exit);
    assert_eq!(read_command("/quit"), Command::Exit);
    assert_eq!(read_command("/clear"), Command::Clear);
    assert_eq!(read_command("/help"), Command::Help);
    assert_eq!(read_command("/exit now"), Command::Say);
}

#[test]
fn attached_files_are_taken_off_the_line() {
    let mut u = UserInput::new(" /image \"my pic.png\" what is it? ");
    match u.next() {
        InputStep::Attach(Media::Image, rest) => {
            assert!(media_candidates(&rest).is_empty());
            let (path, after) = pick_path(&rest, None);
            assert_eq!(path, "my pic.png");
            u.attach(Media::Image, path, true, &after);
        },
        other => panic!("{:?}", other),
    }
    assert!(matches!(u.next(), InputStep::Text));
    assert_eq!(u.image.as_deref(), Some("my pic.png"));
    assert_eq!(u.finish(), "<image> what is it?");
}

#[test]
fn an_unquoted_path_is_the_shortest_that_exists() {
    let rest = "my pic.png and more";
    assert_eq!(
        media_candidates(rest),
        vec!["my", "my pic.png", "my pic.png and", "my pic.png and more"]
    );
    assert_eq!(
        pick_path(rest, Some("my pic.png".to_string())),
        ("my pic.png".to_string(), "and more".to_string())
    );
    assert_eq!(pick_path(rest, None), ("my".to_string(), "pic.png and more".to_string()));
    assert_eq!(pick_path("  ", None), (String::new(), String::new()));
}

#[test]
fn a_file_that_is_missing_leaves_no_mark() {
    let mut u = UserInput::new("/audio a.wav hi");
    u.attach(Media::Audio, "a.wav".to_string(), false, "hi");
    assert_eq!(u.audio, None);
    assert_eq!(u.finish(), "hi");
    assert!(matches!(UserInput::new("   ").next(), InputStep::Finished));
}

#[test]
fn marks_are_put_in_front_where_they_are_missing() {
    assert_eq!(message_content("hi", true, true), "<audio>\n<image>\nhi");
    assert_eq!(message_content("<image> hi", true, false), "<image> hi");
    assert_eq!(message_content("<|audio|> hi", false, true), "<|audio|> hi");
    assert_eq!(message_content("hi", false, false), "hi");
}

#[test]
fn marks_grow_into_as_many_pads_as_the_encoder_gives() {
    let none = MediaTokens {
        image_pad: false,
        image: false,
        image_plain: false,
        vision: false,
        image_pair: false,
        audio_pad: false,
        audio: false,
        audio_plain: false,
    };
    let mut meta = mock_meta("qwen2");
    assert_eq!(expand_media("<image><audio>", &meta, none), "<image><audio>");
    meta.has_vision_encoder = true;
    meta.vision_image_size = Some(64);
    meta.vision_patch_size = Some(8);
    assert_eq!(expand_media("<image>", &meta, none), "<|image|>".repeat(64));
    meta.spatial_merge_size = Some(2);
    let vision = MediaTokens { image_pad: true, vision: true, ..none };
    assert_eq!(
        expand_media("a <image> b", &meta, vision),
        format!("a <|vision_start|>{}<|vision_end|> b", "<|image_pad|>".repeat(16))
    );
    let pair = MediaTokens { image_plain: true, image_pair: true, ..none };
    assert_eq!(
        expand_media("<image>", &meta, pair),
        format!("<|image>{}<image|>", "<image>".repeat(16))
    );
    meta.has_audio_encoder = true;
    meta.audio_num_mel_bins = Some(80);
    let audio = MediaTokens { audio: true, ..none };
    assert_eq!(expand_media("<audio>", &meta, audio), "<|audio|>".repeat(1500));
    meta.audio_num_mel_bins = Some(128);
    assert_eq!(expand_media("<audio>", &meta, audio).len(), 750 * "<|audio|>".len());
}

#[test]
fn history_keeps_the_system_message_and_the_latest_turns() {
    let mut messages = vec![say("system", "S")];
    for i in 0..60 {
        messages.push(say(if i % 2 == 0 { "user" } else { "assistant" }, &format!("{}", i)));
    }
    let kept = trim_history(messages.clone());
    assert_eq!(kept[0].role, "system");
    assert_eq!(kept.last().unwrap().content, "59");
    assert_eq!(kept.len(), 2 * MAX_TURNS + 2);
    let short = trim_history(messages[..10].to_vec());
    assert_eq!(short.len(), 10);
}
