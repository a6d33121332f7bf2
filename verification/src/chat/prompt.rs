//! From a conversation to the text that a model continues.
use vstd::prelude::*;
use crate::calendar::{date, is_date};
use crate::chat::template::{is_plain, plain};
use crate::text::{
    contains, dec, decimal, has, law_first_is_replaced, law_nothing_to_replace, law_text_is_around,
    law_text_stands, replace, replaced, same, stands_at, Text,
};
use crate::tokenizer::{encodings, LlmTokenizer};
use crate::types::ModelMeta;

verus! {

/// One message of a conversation.
#[derive(Debug, Clone)]
pub struct ChatMessage<S = String> {
    pub role: S,
    pub content: S,
}

impl View for ChatMessage {
    type V = ChatMessage<Text>;

    open spec fn view(&self) -> ChatMessage<Text> {
        ChatMessage { role: self.role@, content: self.content@ }
    }
}

/// The messages of a conversation without their representation.
pub open spec fn turns(messages: Seq<ChatMessage>) -> Seq<ChatMessage<Text>> {
    messages.map_values(|m: ChatMessage| m@)
}

/// The roles, in order.
pub open spec fn roles(messages: Seq<ChatMessage<Text>>) -> Seq<Text> {
    messages.map_values(|m: ChatMessage<Text>| m.role)
}

/// The contents, in order.
pub open spec fn contents(messages: Seq<ChatMessage<Text>>) -> Seq<Text> {
    messages.map_values(|m: ChatMessage<Text>| m.content)
}

/// How turns are written where no template says so.
#[derive(Debug, Clone, Copy, PartialEq, Eq, Structural)]
pub enum Style {
    Gemma4,
    Gemma,
    ChatMl,
    Plain,
}

/// An architecture whose models were trained on ChatML turns.
pub open spec fn chatml_arch(arch: Text) -> bool {
    arch == "qwen2"@ || arch == "qwen3"@ || arch == "qwen3vl"@ || arch == "qwen2vl"@ || arch
        == "smollm3"@ || arch == "llama"@ || arch == "mistral"@
}

/// The style of a model's turns.
pub open spec fn style_of(meta: ModelMeta<Text, Seq<bool>>) -> Style {
    if meta.arch == "gemma4"@ {
        Style::Gemma4
    } else if meta.is_gemma {
        Style::Gemma
    } else if (meta.chat_template matches Some(t) && has(t, "<|im_start|>"@)) || chatml_arch(
        meta.arch,
    ) {
        Style::ChatMl
    } else {
        Style::Plain
    }
}

/// A role as the Gemma family writes it.
pub open spec fn gemma_role(role: Text) -> Text {
    if role == "assistant"@ {
        "model"@
    } else {
        role
    }
}

/// One turn.
pub open spec fn turn_text(style: Style, m: ChatMessage<Text>) -> Text {
    match style {
        Style::Gemma4 => "<|turn>"@ + gemma_role(m.role) + "\n"@ + m.content + "<turn|>\n"@,
        Style::Gemma => "<start_of_turn>"@ + gemma_role(m.role) + "\n"@ + m.content
            + "<end_of_turn>\n"@,
        Style::ChatMl => "<|im_start|>"@ + m.role + "\n"@ + m.content + "<|im_end|>\n"@,
        Style::Plain => if m.role == "system"@ {
            "System: "@ + m.content + "\n\n"@
        } else if m.role == "user"@ {
            "User: "@ + m.content + "\n"@
        } else {
            "Assistant: "@ + m.content + "\n"@
        },
    }
}

/// All turns, one behind the other.
pub open spec fn turns_text(style: Style, messages: Seq<ChatMessage<Text>>) -> Text
    decreases messages.len(),
{
    if messages.len() == 0 {
        Seq::empty()
    } else {
        turns_text(style, messages.drop_last()) + turn_text(style, messages.last())
    }
}

/// What asks the model for its own turn.
pub open spec fn opening(style: Style) -> Text {
    match style {
        Style::Gemma4 => "<|turn>model\n"@,
        Style::Gemma => "<start_of_turn>model\n"@,
        Style::ChatMl => "<|im_start|>assistant\n"@,
        Style::Plain => "Assistant: "@,
    }
}

/// The prompt in the model's own style.
pub open spec fn styled(
    messages: Seq<ChatMessage<Text>>,
    meta: ModelMeta<Text, Seq<bool>>,
) -> Text {
    turns_text(style_of(meta), messages) + opening(style_of(meta))
}

fn style_for(meta: &ModelMeta) -> (s: Style)
    ensures
        s == style_of(meta@),
{
    if same(&meta.arch, "gemma4") {
        return Style::Gemma4;
    }
    if meta.is_gemma {
        return Style::Gemma;
    }
    if let Some(t) = &meta.chat_template {
        if contains(t, "<|im_start|>") {
            return Style::ChatMl;
        }
    }
    let a = &meta.arch;
    if same(a, "qwen2") || same(a, "qwen3") || same(a, "qwen3vl") || same(a, "qwen2vl") || same(
        a,
        "smollm3",
    ) || same(a, "llama") || same(a, "mistral") {
        Style::ChatMl
    } else {
        Style::Plain
    }
}

fn push_gemma_role(out: &mut String, role: &str)
    ensures
        final(out)@ == old(out)@ + gemma_role(role@),
{
    if same(role, "assistant") {
        out.append("model");
    } else {
        out.append(role);
    }
}

fn push_turn(out: &mut String, style: Style, m: &ChatMessage)
    ensures
        final(out)@ == old(out)@ + turn_text(style, m@),
{
    let ghost before = out@;
    match style {
        Style::Gemma4 => {
            out.append("<|turn>");
            push_gemma_role(out, &m.role);
            out.append("\n");
            out.append(&m.content);
            out.append("<turn|>\n");
        },
        Style::Gemma => {
            out.append("<start_of_turn>");
            push_gemma_role(out, &m.role);
            out.append("\n");
            out.append(&m.content);
            out.append("<end_of_turn>\n");
        },
        Style::ChatMl => {
            out.append("<|im_start|>");
            out.append(&m.role);
            out.append("\n");
            out.append(&m.content);
            out.append("<|im_end|>\n");
        },
        Style::Plain => {
            if same(&m.role, "system") {
                out.append("System: ");
                out.append(&m.content);
                out.append("\n\n");
            } else if same(&m.role, "user") {
                out.append("User: ");
                out.append(&m.content);
                out.append("\n");
            } else {
                out.append("Assistant: ");
                out.append(&m.content);
                out.append("\n");
            }
        },
    }
    assert(out@ =~= before + turn_text(style, m@));
}

/// Writes the conversation in the style of the model's architecture.
pub fn manual_format(messages: &[ChatMessage], meta: &ModelMeta) -> (out: String)
    ensures
        out@ == styled(turns(messages@), meta@),
{
    let style = style_for(meta);
    let mut out = String::new();
    assert(out@ =~= turns_text(style, turns(messages@).take(0)));
    let mut i: usize = 0;
    while i < messages.len()
        invariant
            i <= messages@.len(),
            out@ == turns_text(style, turns(messages@).take(i as int)),
        decreases messages@.len() - i,
    {
        let ghost front = turns(messages@).take(i + 1);
        assert(front.drop_last() =~= turns(messages@).take(i as int));
        assert(front.last() == messages@[i as int]@);
        push_turn(&mut out, style, &messages[i]);
        i += 1;
    }
    assert(turns(messages@).take(i as int) =~= turns(messages@));
    match style {
        Style::Gemma4 => out.append("<|turn>model\n"),
        Style::Gemma => out.append("<start_of_turn>model\n"),
        Style::ChatMl => out.append("<|im_start|>assistant\n"),
        Style::Plain => out.append("Assistant: "),
    }
    out
}

/// A further message leaves the turns before it as they were.
pub proof fn law_turns_extend(
    style: Style,
    messages: Seq<ChatMessage<Text>>,
    m: ChatMessage<Text>,
)
    ensures
        turns_text(style, messages.push(m)) == turns_text(style, messages) + turn_text(style, m),
{
    assert(messages.push(m).drop_last() =~= messages);
}

/// A number of at least two digits.
pub open spec fn two_digits(n: nat) -> Text {
    if n < 10 {
        "0"@ + dec(n)
    } else {
        dec(n)
    }
}

/// A date as templates ask for it.
pub open spec fn date_text(format: Text, year: nat, month: nat, day: nat) -> Text {
    if has(format, "%Y"@) || has(format, "%d"@) {
        two_digits(day) + " "@ + dec(month) + " "@ + dec(year)
    } else {
        dec(year) + "-"@ + two_digits(month) + "-"@ + two_digits(day)
    }
}

fn push_two_digits(out: &mut String, n: u64)
    ensures
        final(out)@ == old(out)@ + two_digits(n as nat),
{
    let ghost before = out@;
    if n < 10 {
        out.append("0");
    }
    out.append(&decimal(n));
    assert(out@ =~= before + two_digits(n as nat));
}

/// The date that a template's `strftime_now` gives at `seconds` after the start
/// of 1970.
pub fn strftime_now(format: &str, seconds: u64) -> (out: String)
    ensures
        exists|year: nat, month: nat, day: nat| #[trigger]
            is_date((seconds / 86400) as nat, year, month, day) && out@ == date_text(
                format@,
                year,
                month,
                day,
            ),
{
    let (year, month, day) = date(seconds / 86400);
    let mut out = String::new();
    if contains(format, "%Y") || contains(format, "%d") {
        push_two_digits(&mut out, day);
        out.append(" ");
        out.append(&decimal(month));
        out.append(" ");
        out.append(&decimal(year));
    } else {
        out.append(&decimal(year));
        out.append("-");
        push_two_digits(&mut out, month);
        out.append("-");
        push_two_digits(&mut out, day);
    }
    assert(out@ =~= date_text(format@, year as nat, month as nat, day as nat));
    out
}

/// What a template gives for a conversation, if it can be rendered: the
/// template, the roles and the contents of the messages, whether the model's
/// turn is opened, whether it may think aloud, and the time.
pub uninterp spec fn rendered(
    template: Seq<char>,
    roles: Seq<Seq<char>>,
    contents: Seq<Seq<char>>,
    open_turn: bool,
    thinking: bool,
    seconds: u64,
) -> Option<Seq<char>>;

/// Renders a chat template.
///
/// Trusted: `minijinja::Template::render`, with the filters of
/// `minijinja_contrib` and its Python methods registered and `strftime_now`
/// bound to the function of this module. It is given the messages as maps of
/// role and content and the two flags. The result depends on these and on the
/// time alone: nothing random and no clock is registered, and maps keep their
/// order. What a given template renders to is not stated. Templates that are not
/// plain are left out: among them are all that rendering could fail on without
/// an answer.
#[verifier::external_body]
fn render_template(
    template: &str,
    messages: &[ChatMessage],
    open_turn: bool,
    thinking: bool,
    seconds: u64,
) -> (r: Result<String, String>)
    requires
        plain(template@, messages@.len() > 0),
    ensures
        match r {
            Ok(s) => rendered(
                template@,
                roles(turns(messages@)),
                contents(turns(messages@)),
                open_turn,
                thinking,
                seconds,
            ) == Some(s@),
            Err(_) => rendered(
                template@,
                roles(turns(messages@)),
                contents(turns(messages@)),
                open_turn,
                thinking,
                seconds,
            ) is None,
        },
{
    let mut env = minijinja::Environment::new();
    minijinja_contrib::add_to_environment(&mut env);
    env.set_unknown_method_callback(minijinja_contrib::pycompat::unknown_method_callback);
    env.add_function("strftime_now", move |f: &str| strftime_now(f, seconds));
    let list: Vec<minijinja::Value> = messages.iter()
        .map(|m| minijinja::Value::from_iter([("role", m.role.as_str()), ("content", m.content.as_str())]))
        .collect();
    let context = minijinja::Value::from_iter([
        ("messages", minijinja::Value::from(list)),
        ("add_generation_prompt", minijinja::Value::from(open_turn)),
        ("enable_thinking", minijinja::Value::from(thinking)),
    ]);
    let result = env.add_template("chat", template);
    result.and_then(|_| env.get_template("chat")?.render(context)).map_err(|e| e.to_string())
}

/// A template without the tags that only training uses.
pub open spec fn cleaned(template: Text) -> Text {
    replaced(replaced(template, "{% generation %}"@, ""@), "{% endgeneration %}"@, ""@)
}

/// What the model's template gives for a conversation. A template that is not
/// plain gives nothing.
pub open spec fn by_template(
    messages: Seq<ChatMessage<Text>>,
    template: Text,
    seconds: u64,
) -> Option<Text> {
    if plain(cleaned(template), messages.len() > 0) {
        rendered(cleaned(template), roles(messages), contents(messages), true, false, seconds)
    } else {
        None
    }
}

/// Renders the model's own template, with the model's turn opened and thinking
/// switched off.
pub fn try_jinja_render(template: &str, messages: &[ChatMessage], seconds: u64) -> (r: Result<
    String,
    String,
>)
    ensures
        match r {
            Ok(s) => by_template(turns(messages@), template@, seconds) == Some(s@),
            Err(_) => by_template(turns(messages@), template@, seconds) is None,
        },
{
    proof {
        reveal_strlit("{% generation %}");
        reveal_strlit("{% endgeneration %}");
    }
    let without = replace(template, "{% generation %}", "");
    let clean = replace(&without, "{% endgeneration %}", "");
    if is_plain(&clean, messages.len() > 0) {
        render_template(&clean, messages, true, false, seconds)
    } else {
        Err("the template is not plain".to_string())
    }
}

/// The prompt, given what the template made of the conversation: that, or the
/// conversation in the model's own style where there is no template or it
/// could not be rendered.
pub fn prompt_or_styled(
    from_template: Option<String>,
    messages: &[ChatMessage],
    meta: &ModelMeta,
) -> (out: String)
    ensures
        out@ == match from_template {
            Some(s) => s@,
            None => styled(turns(messages@), meta@),
        },
{
    match from_template {
        Some(s) => s,
        None => manual_format(messages, meta),
    }
}

/// The prompt of a conversation at `seconds` after the start of 1970.
pub open spec fn prompt_of(
    messages: Seq<ChatMessage<Text>>,
    meta: ModelMeta<Text, Seq<bool>>,
    seconds: u64,
) -> Text {
    let from_template = match meta.chat_template {
        Some(t) => by_template(messages, t, seconds),
        None => None,
    };
    match from_template {
        Some(s) => s,
        None => styled(messages, meta),
    }
}

/// Writes a conversation as the prompt of a model: by the model's template, or
/// in the style of its architecture where it has none or it does not render.
pub fn render_prompt(messages: &[ChatMessage], meta: &ModelMeta, seconds: u64) -> (out: String)
    ensures
        out@ == prompt_of(turns(messages@), meta@, seconds),
{
    let from_template = match &meta.chat_template {
        Some(t) => match try_jinja_render(t, messages, seconds) {
            Ok(s) => Some(s),
            Err(_) => None,
        },
        None => None,
    };
    prompt_or_styled(from_template, messages, meta)
}

/// The token that every text of the Gemma family begins with.
pub const GEMMA_BOS_TOKEN_ID: u32 = 2;

/// The tokens, with the Gemma family's beginning where it is missing.
pub open spec fn with_bos(tokens: Seq<u32>, gemma: bool) -> Seq<u32> {
    if gemma && (tokens.len() == 0 || tokens[0] != GEMMA_BOS_TOKEN_ID) {
        seq![GEMMA_BOS_TOKEN_ID] + tokens
    } else {
        tokens
    }
}

/// Puts the beginning-of-text token in front where the model needs it.
pub fn maybe_prepend_bos(tokens: &mut Vec<u32>, meta: &ModelMeta)
    ensures
        final(tokens)@ == with_bos(old(tokens)@, meta.is_gemma),
{
    let ghost before = tokens@;
    if meta.is_gemma && (tokens.len() == 0 || tokens[0] != GEMMA_BOS_TOKEN_ID) {
        tokens.insert(0, GEMMA_BOS_TOKEN_ID);
        assert(tokens@ =~= seq![GEMMA_BOS_TOKEN_ID] + before);
    }
}

/// Splits a prompt into the tokens that the model is given, with the
/// beginning-of-text token in front where the model needs it.
pub fn encode_prompt(prompt: &str, tokenizer: &LlmTokenizer, meta: &ModelMeta) -> (r: Result<
    Vec<u32>,
    String,
>)
    ensures
        match r {
            Ok(tokens) => exists|ids: Seq<u32>| #[trigger]
                encodings(tokenizer.json(), prompt@, true).contains(Some(ids)) && tokens@
                    == with_bos(ids, meta.is_gemma),
            Err(_) => encodings(tokenizer.json(), prompt@, true).contains(None),
        },
{
    match tokenizer.encode(prompt, true) {
        Ok(ids) => {
            let ghost whole = ids@;
            let mut tokens = ids;
            maybe_prepend_bos(&mut tokens, meta);
            assert(encodings(tokenizer.json(), prompt@, true).contains(Some(whole)));
            Ok(tokens)
        },
        Err(e) => Err(e),
    }
}

/// The beginning is put in front once: doing it again changes nothing.
pub proof fn law_bos_once(tokens: Seq<u32>, gemma: bool)
    ensures
        with_bos(with_bos(tokens, gemma), gemma) == with_bos(tokens, gemma),
        gemma ==> with_bos(tokens, gemma).len() > 0 && with_bos(tokens, gemma)[0]
            == GEMMA_BOS_TOKEN_ID,
{
}

/// Which style a model's turns have: Gemma 4 its own, other Gemma models
/// theirs, ChatML for a template that writes its marker and for the
/// architectures trained on it, plain text for the rest.
pub proof fn law_style(meta: ModelMeta<Text, Seq<bool>>)
    ensures
        ({
            let im = meta.chat_template matches Some(t) && has(t, "<|im_start|>"@);
            let own = meta.arch == "gemma4"@ || meta.is_gemma;
            &&& style_of(meta) == Style::Gemma4 <==> meta.arch == "gemma4"@
            &&& style_of(meta) == Style::Gemma <==> meta.arch != "gemma4"@ && meta.is_gemma
            &&& !own && im ==> style_of(meta) == Style::ChatMl
            &&& !own && meta.arch == "qwen2"@ ==> style_of(meta) == Style::ChatMl
            &&& !own && meta.arch == "qwen3"@ ==> style_of(meta) == Style::ChatMl
            &&& !own && meta.arch == "qwen3vl"@ ==> style_of(meta) == Style::ChatMl
            &&& !own && meta.arch == "qwen2vl"@ ==> style_of(meta) == Style::ChatMl
            &&& !own && meta.arch == "smollm3"@ ==> style_of(meta) == Style::ChatMl
            &&& !own && meta.arch == "llama"@ ==> style_of(meta) == Style::ChatMl
            &&& !own && meta.arch == "mistral"@ ==> style_of(meta) == Style::ChatMl
            &&& style_of(meta) == Style::ChatMl ==> im || meta.arch == "qwen2"@ || meta.arch == "qwen3"@ || meta.arch == "qwen3vl"@ || meta.arch == "qwen2vl"@ || meta.arch == "smollm3"@ || meta.arch == "llama"@ || meta.arch == "mistral"@
        }),
{
}

/// A prompt begins with nothing, grows by one turn with each message, in the
/// markers of the model's style with the role and the content in their places,
/// and ends by opening the model's turn.
pub proof fn law_prompt_grows_by_turns(
    messages: Seq<ChatMessage<Text>>,
    m: ChatMessage<Text>,
    meta: ModelMeta<Text, Seq<bool>>,
)
    ensures
        turns_text(style_of(meta), seq![]) == Seq::<char>::empty(),
        ({
            let before = turns_text(style_of(meta), messages);
            let after = turns_text(style_of(meta), messages.push(m));
            let model = if m.role == "assistant"@ {
                "model"@
            } else {
                m.role
            };
            match style_of(meta) {
                Style::Gemma4 => {
                    &&& styled(messages, meta) == before + "<|turn>model\n"@
                    &&& after == before + ("<|turn>"@ + model + "\n"@ + m.content + "<turn|>\n"@)
                },
                Style::Gemma => {
                    &&& styled(messages, meta) == before + "<start_of_turn>model\n"@
                    &&& after == before + ("<start_of_turn>"@ + model + "\n"@ + m.content
                        + "<end_of_turn>\n"@)
                },
                Style::ChatMl => {
                    &&& styled(messages, meta) == before + "<|im_start|>assistant\n"@
                    &&& after == before + ("<|im_start|>"@ + m.role + "\n"@ + m.content
                        + "<|im_end|>\n"@)
                },
                Style::Plain => {
                    &&& styled(messages, meta) == before + "Assistant: "@
                    &&& m.role == "system"@ ==> after == before + ("System: "@ + m.content
                        + "\n\n"@)
                    &&& m.role == "user"@ ==> after == before + ("User: "@ + m.content + "\n"@)
                    &&& m.role != "system"@ && m.role != "user"@ ==> after == before + (
                    "Assistant: "@ + m.content + "\n"@)
                },
            }
        }),
{
    reveal_strlit("system");
    reveal_strlit("user");
    assert("system"@.len() == 6);
    assert("user"@.len() == 4);
    law_turns_extend(style_of(meta), messages, m);
}

/// Nothing of a conversation is lost: every message's content stands in the
/// prompt, whatever the style.
pub proof fn law_contents_are_in_prompt(
    messages: Seq<ChatMessage<Text>>,
    meta: ModelMeta<Text, Seq<bool>>,
    i: int,
)
    requires
        0 <= i < messages.len(),
    ensures
        has(styled(messages, meta), messages[i].content),
    decreases messages.len(),
{
    let style = style_of(meta);
    let c = messages[i].content;
    lemma_content_in_turns(style, messages, i);
    law_text_is_around(turns_text(style, messages), c);
    let all = turns_text(style, messages);
    let k = choose|k: int|
        #[trigger] stands_at(all, c, k) && all == all.take(k) + c + all.skip(k + c.len());
    law_text_stands(all.take(k), c, all.skip(k + c.len()) + opening(style));
    assert(styled(messages, meta) =~= all.take(k) + c + (all.skip(k + c.len()) + opening(style)));
}

proof fn lemma_content_in_turns(style: Style, messages: Seq<ChatMessage<Text>>, i: int)
    requires
        0 <= i < messages.len(),
    ensures
        has(turns_text(style, messages), messages[i].content),
    decreases messages.len(),
{
    let front = messages.drop_last();
    let before = turns_text(style, front);
    let last = messages.last();
    let c = messages[i].content;
    let turn = turn_text(style, last);
    if i < front.len() {
        lemma_content_in_turns(style, front, i);
        assert(front[i] == messages[i]);
        law_text_is_around(before, c);
        let k = choose|k: int|
            #[trigger] stands_at(before, c, k) && before == before.take(k) + c + before.skip(
                k + c.len(),
            );
        let (x, y) = (before.take(k), before.skip(k + c.len()));
        law_text_stands(x, c, y + turn);
        assert(before + turn =~= x + c + (y + turn));
    } else {
        let (x, y) = match style {
            Style::Gemma4 => ("<|turn>"@ + gemma_role(last.role) + "\n"@, "<turn|>\n"@),
            Style::Gemma => (
                "<start_of_turn>"@ + gemma_role(last.role) + "\n"@,
                "<end_of_turn>\n"@,
            ),
            Style::ChatMl => ("<|im_start|>"@ + last.role + "\n"@, "<|im_end|>\n"@),
            Style::Plain => if last.role == "system"@ {
                ("System: "@, "\n\n"@)
            } else if last.role == "user"@ {
                ("User: "@, "\n"@)
            } else {
                ("Assistant: "@, "\n"@)
            },
        };
        assert(turn =~= x + c + y);
        law_text_stands(before + x, c, y);
        assert(before + turn =~= (before + x) + c + y);
    }
}

/// A template that renders decides the prompt, with the model's turn opened
/// and thinking switched off; otherwise the prompt is in the model's style.
pub proof fn law_template_decides(
    messages: Seq<ChatMessage<Text>>,
    meta: ModelMeta<Text, Seq<bool>>,
    seconds: u64,
)
    ensures
        meta.chat_template is None ==> prompt_of(messages, meta, seconds) == styled(messages, meta),
        meta.chat_template matches Some(t) ==> {
            let roles = Seq::new(messages.len(), |i: int| messages[i].role);
            let contents = Seq::new(messages.len(), |i: int| messages[i].content);
            let made = rendered(cleaned(t), roles, contents, true, false, seconds);
            let works = plain(cleaned(t), messages.len() > 0);
            &&& works && made is Some ==> prompt_of(messages, meta, seconds) == made->0
            &&& !works || made is None ==> prompt_of(messages, meta, seconds) == styled(
                messages,
                meta,
            )
        },
{
    assert(roles(messages) =~= Seq::new(messages.len(), |i: int| messages[i].role));
    assert(contents(messages) =~= Seq::new(messages.len(), |i: int| messages[i].content));
}

/// A template is left as it is but for the tags that only training uses: these
/// go, and what stands around and between them stays.
pub proof fn law_only_training_tags_go(a: Text, b: Text, c: Text)
    ensures
        !(has(a, "{% generation %}"@)) && !(has(a, "{% endgeneration %}"@)) ==> cleaned(a) == a,
        ({
            let open = "{% generation %}"@;
            let close = "{% endgeneration %}"@;
            let whole = a + open + (b + close + c);
            let rest = a + b + close + c;
            &&& forall|j: int| 0 <= j < a.len() ==> !(#[trigger] stands_at(whole, open, j))
            &&& !(has(b + close + c, open))
            &&& forall|j: int| 0 <= j < a.len() + b.len() ==> !(#[trigger] stands_at(rest, close, j))
            &&& !(has(c, close))
        }) ==> cleaned(a + "{% generation %}"@ + (b + "{% endgeneration %}"@ + c)) == a + b + c,
{
    let open = "{% generation %}"@;
    let close = "{% endgeneration %}"@;
    reveal_strlit("{% generation %}");
    reveal_strlit("{% endgeneration %}");
    reveal_strlit("");
    law_nothing_to_replace(a, open, ""@);
    law_nothing_to_replace(a, close, ""@);
    let whole = a + open + (b + close + c);
    let rest = a + b + close + c;
    if {
        &&& forall|j: int| 0 <= j < a.len() ==> !(#[trigger] stands_at(whole, open, j))
        &&& !(has(b + close + c, open))
        &&& forall|j: int| 0 <= j < a.len() + b.len() ==> !(#[trigger] stands_at(rest, close, j))
        &&& !(has(c, close))
    } {
        law_first_is_replaced(a, open, b + close + c, ""@);
        law_nothing_to_replace(b + close + c, open, ""@);
        assert(a + ""@ + (b + close + c) =~= rest);
        law_first_is_replaced(a + b, close, c, ""@);
        law_nothing_to_replace(c, close, ""@);
        assert(a + b + ""@ + c =~= a + b + c);
    }
}

/// Tokens keep their order and none is lost: at most the token 2 comes in
/// front, and only for the Gemma family.
pub proof fn law_tokens_are_kept(tokens: Seq<u32>, gemma: bool)
    ensures
        !gemma ==> with_bos(tokens, gemma) == tokens,
        gemma && tokens.len() > 0 && tokens[0] == 2 ==> with_bos(tokens, gemma) == tokens,
        gemma && (tokens.len() == 0 || tokens[0] != 2) ==> with_bos(tokens, gemma)
            == seq![2u32] + tokens,
{
}

/// A date is written day, month and year where a template asks for the parts,
/// and year, month and day with dashes otherwise; a day always has two digits.
pub proof fn law_dates(format: Text, year: nat, month: nat, day: nat)
    ensures
        ({
            let d = if day < 10 {
                "0"@ + dec(day)
            } else {
                dec(day)
            };
            let m = if month < 10 {
                "0"@ + dec(month)
            } else {
                dec(month)
            };
            &&& has(format, "%Y"@) || has(format, "%d"@) ==> date_text(format, year, month, day)
                == d + " "@ + dec(month) + " "@ + dec(year)
            &&& !(has(format, "%Y"@)) && !(has(format, "%d"@)) ==> date_text(
                format,
                year,
                month,
                day,
            ) == dec(year) + "-"@ + m + "-"@ + d
        }),
{
}

} // verus!
