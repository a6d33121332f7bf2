//! The completion server: what is accepted, what is asked of the engine, and
//! what is answered as tokens arrive.
use vstd::prelude::*;
use crate::chat::prompt::{
    encode_prompt, prompt_of, render_prompt, turns, with_bos, ChatMessage,
};
use crate::profile::BackendChoice;
use crate::text::{dec, decimal, join2, law_decimal_reads_back, Text};
use crate::tokenizer::{encodings, id_of_token, LlmTokenizer};
use crate::types::{text_opt, InferRequest, ModelMeta, Real, SampleParams, SeqId, TokenId};

verus! {

/// Ceiling on the tokens that a client may ask for, unless the operator sets
/// another.
pub const DEFAULT_MAX_TOKENS_LIMIT: usize = 4096;

/// Cap on the size of a request body, unless the operator sets another.
pub const DEFAULT_MAX_BODY_BYTES: usize = 8_388_608;

/// A request for a completion.
#[derive(Debug, Clone)]
pub struct ChatCompletionRequest {
    pub model: String,
    pub messages: Vec<ChatMessage>,
    pub stream: bool,
    pub temperature: Option<Real>,
    pub top_p: Option<Real>,
    pub max_tokens: Option<usize>,
}

#[derive(Debug, Clone)]
pub struct ChatChoice {
    pub index: usize,
    pub message: ChatMessage,
    pub finish_reason: String,
}

#[derive(Debug, Clone)]
pub struct ChatCompletionResponse {
    pub id: String,
    pub object: String,
    pub created: u64,
    pub model: String,
    pub choices: Vec<ChatChoice>,
}

#[derive(Debug, Clone)]
pub struct DeltaMessage {
    pub role: Option<String>,
    pub content: Option<String>,
}

#[derive(Debug, Clone)]
pub struct ChatChunkChoice {
    pub index: usize,
    pub delta: DeltaMessage,
    pub finish_reason: Option<String>,
}

#[derive(Debug, Clone)]
pub struct ChatCompletionChunk {
    pub id: String,
    pub object: String,
    pub created: u64,
    pub model: String,
    pub choices: Vec<ChatChunkChoice>,
}

#[derive(Debug, Clone)]
pub struct ModelObject {
    pub id: String,
    pub object: String,
    pub created: u64,
    pub owned_by: String,
}

#[derive(Debug, Clone)]
pub struct ModelsResponse {
    pub object: String,
    pub data: Vec<ModelObject>,
}

/// The answer of a server that is up.
pub fn health() -> (s: &'static str)
    ensures
        s@ == "OK"@,
{
    "OK"
}

/// The list of models: the one that is served.
pub fn models(model_name: &str) -> (r: ModelsResponse)
    ensures
        r.object@ == "list"@,
        r.data@.len() == 1,
        r.data@[0].id@ == model_name@,
        r.data@[0].object@ == "model"@,
        r.data@[0].created == 1686935002,
        r.data@[0].owned_by@ == "llm-rs"@,
{
    let mut data: Vec<ModelObject> = Vec::new();
    data.push(
        ModelObject {
            id: model_name.to_string(),
            object: "model".to_string(),
            created: 1686935002,
            owned_by: "llm-rs".to_string(),
        },
    );
    ModelsResponse { object: "list".to_string(), data }
}

/// What a client is told that asks for too many tokens.
pub open spec fn too_many(requested: nat, limit: nat) -> Text {
    "max_tokens ("@ + dec(requested) + ") exceeds this server's limit of "@ + dec(limit)
}

/// Refuses a request for more tokens than the limit. It is not clamped: the
/// client is to know.
pub fn check_request(req: &ChatCompletionRequest, limit: usize) -> (r: Result<(), String>)
    ensures
        match r {
            Ok(_) => req.max_tokens matches Some(n) ==> n <= limit,
            Err(message) => req.max_tokens matches Some(n) && n > limit && message@ == too_many(
                n as nat,
                limit as nat,
            ),
        },
{
    if let Some(requested) = req.max_tokens {
        if requested > limit {
            let mut message = String::new();
            message.append("max_tokens (");
            message.append(&decimal(requested as u64));
            message.append(") exceeds this server's limit of ");
            message.append(&decimal(limit as u64));
            assert(message@ =~= too_many(requested as nat, limit as nat));
            return Err(message);
        }
    }
    Ok(())
}

/// `0.7` in single precision.
pub const DEFAULT_TEMPERATURE: u32 = 0x3F333333;

/// `0.9` in single precision.
pub const DEFAULT_TOP_P: u32 = 0x3F666666;

/// `1.1` in single precision.
pub const REPETITION_PENALTY: u32 = 0x3F8CCCCD;

/// Tokens to generate where the client does not say.
pub const DEFAULT_MAX_TOKENS: usize = 128;

/// How a request's tokens are sampled.
pub open spec fn sampling(req: ChatCompletionRequest) -> SampleParams {
    SampleParams {
        temperature: match req.temperature {
            Some(t) => t,
            None => Real::Single(DEFAULT_TEMPERATURE),
        },
        top_p: match req.top_p {
            Some(p) => p,
            None => Real::Single(DEFAULT_TOP_P),
        },
        top_k: 40,
        repetition_penalty: Real::Single(REPETITION_PENALTY),
        max_new_tokens: match req.max_tokens {
            Some(n) => n,
            None => DEFAULT_MAX_TOKENS,
        },
    }
}

/// What a client sets is what its tokens are sampled with, each setting under
/// its own name; what it leaves open is a temperature of 0.7, a `top_p` of 0.9
/// and 128 tokens. A penalty of 1.1 and a choice of 40 hold for every client.
pub proof fn law_settings_are_kept(req: ChatCompletionRequest)
    ensures
        req.temperature matches Some(t) ==> sampling(req).temperature == t,
        req.temperature is None ==> sampling(req).temperature == Real::Single(0x3F333333),
        req.top_p matches Some(p) ==> sampling(req).top_p == p,
        req.top_p is None ==> sampling(req).top_p == Real::Single(0x3F666666),
        req.max_tokens matches Some(n) ==> sampling(req).max_new_tokens == n,
        req.max_tokens is None ==> sampling(req).max_new_tokens == 128,
        sampling(req).top_k == 40,
        sampling(req).repetition_penalty == Real::Single(0x3F8CCCCD),
{
}

/// Requests that differ in a setting are sampled differently, and nothing else
/// of a request has a say.
pub proof fn law_sampling_tells_settings_apart(a: ChatCompletionRequest, b: ChatCompletionRequest)
    requires
        a.temperature is Some && b.temperature is Some,
        a.top_p is Some && b.top_p is Some,
        a.max_tokens is Some && b.max_tokens is Some,
    ensures
        sampling(a) == sampling(b) <==> a.temperature == b.temperature && a.top_p == b.top_p
            && a.max_tokens == b.max_tokens,
{
}

/// What is asked of the engine for a request whose prompt came to `tokens`.
pub fn infer_request(req: &ChatCompletionRequest, seq_id: SeqId, tokens: Vec<TokenId>) -> (r:
    InferRequest)
    ensures
        r.seq_id == seq_id,
        r.prompt_tokens == tokens,
        r.sample_params == sampling(*req),
        r.max_new_tokens == sampling(*req).max_new_tokens,
        r.sample_params.top_p == (match req.top_p {
            Some(p) => p,
            None => Real::Single(0x3F666666),
        }),
        r.sample_params.temperature == (match req.temperature {
            Some(t) => t,
            None => Real::Single(0x3F333333),
        }),
        r.max_new_tokens == (match req.max_tokens {
            Some(n) => n,
            None => 128,
        }),
        r.sample_params.max_new_tokens == r.max_new_tokens,
        r.sample_params.top_k == 40,
        r.sample_params.repetition_penalty == Real::Single(0x3F8CCCCD),
{
    let max_new_tokens: usize = match req.max_tokens {
        Some(n) => n,
        None => DEFAULT_MAX_TOKENS,
    };
    InferRequest {
        seq_id,
        prompt_tokens: tokens,
        max_new_tokens,
        sample_params: SampleParams {
            temperature: match req.temperature {
                Some(t) => t,
                None => Real::Single(DEFAULT_TEMPERATURE),
            },
            top_p: match req.top_p {
                Some(p) => p,
                None => Real::Single(DEFAULT_TOP_P),
            },
            top_k: 40,
            repetition_penalty: Real::Single(REPETITION_PENALTY),
            max_new_tokens,
        },
    }
}

/// Why a request does not get as far as the engine.
#[derive(Debug, Clone, PartialEq, Eq)]
pub enum Refusal {
    /// It asks for too many tokens: what the client is told.
    BadRequest(String),
    /// Its prompt could not be split into tokens: what went wrong.
    EncodeFailed(String),
}

/// What is asked of the engine for a request that arrives `seconds` after the
/// start of 1970: the conversation is written as a prompt and split into
/// tokens, unless more tokens are asked for than the limit.
pub fn prepare_request(
    req: &ChatCompletionRequest,
    limit: usize,
    seq_id: SeqId,
    tokenizer: &LlmTokenizer,
    meta: &ModelMeta,
    seconds: u64,
) -> (r: Result<InferRequest, Refusal>)
    ensures
        ({
            let prompt = prompt_of(turns(req.messages@), meta@, seconds);
            let outcomes = encodings(tokenizer.json(), prompt, true);
            let too_long = req.max_tokens matches Some(n) && n > limit;
            match r {
                Ok(asked) => {
                    &&& !too_long
                    &&& asked.seq_id == seq_id
                    &&& asked.sample_params == sampling(*req)
                    &&& asked.max_new_tokens == sampling(*req).max_new_tokens
                    &&& asked.sample_params.top_p == (match req.top_p {
                        Some(p) => p,
                        None => Real::Single(0x3F666666),
                    })
                    &&& asked.sample_params.temperature == (match req.temperature {
                        Some(t) => t,
                        None => Real::Single(0x3F333333),
                    })
                    &&& asked.max_new_tokens == (match req.max_tokens {
                        Some(n) => n,
                        None => 128,
                    })
                    &&& asked.sample_params.max_new_tokens == asked.max_new_tokens
                    &&& asked.sample_params.top_k == 40
                    &&& asked.sample_params.repetition_penalty == Real::Single(0x3F8CCCCD)
                    &&& exists|ids: Seq<u32>| #[trigger]
                        outcomes.contains(Some(ids)) && asked.prompt_tokens@ == with_bos(
                            ids,
                            meta.is_gemma,
                        )
                },
                Err(Refusal::BadRequest(message)) => too_long && message@ == too_many(
                    req.max_tokens->0 as nat,
                    limit as nat,
                ),
                Err(Refusal::EncodeFailed(_)) => !too_long && outcomes.contains(None),
            }
        }),
{
    match check_request(req, limit) {
        Err(message) => Err(Refusal::BadRequest(message)),
        Ok(_) => {
            let prompt: String = render_prompt(&req.messages, meta, seconds);
            match encode_prompt(&prompt, tokenizer, meta) {
                Ok(tokens) => Ok(infer_request(req, seq_id, tokens)),
                Err(e) => Err(Refusal::EncodeFailed(e)),
            }
        },
    }
}

/// Draws the number of a new sequence.
pub fn new_seq_id() -> SeqId {
    random_number()
}

/// Draws a number.
///
/// Trusted: `rand::random` draws any 64-bit number; nothing is stated of it.
#[verifier::external_body]
pub(crate) fn random_number() -> u64 {
    rand::random::<u64>()
}

/// What comes out of the engine's queue.
#[derive(Debug, Clone, Copy, PartialEq, Eq, Structural)]
pub enum EngineEvent {
    /// A token of some sequence; the last one is marked.
    Token { seq_id: SeqId, token_id: TokenId, is_eos: bool },
    /// The reader fell behind and events were lost.
    Lagged,
    /// The engine shut down.
    Closed,
}

/// Event `e` is a token of sequence `id`.
pub open spec fn own(e: EngineEvent, id: SeqId) -> bool {
    e matches EngineEvent::Token { seq_id, .. } && seq_id == id
}

/// Event `e` ends the answer to sequence `id`.
pub open spec fn ends_answer(e: EngineEvent, id: SeqId) -> bool {
    match e {
        EngineEvent::Token { seq_id, is_eos, .. } => seq_id == id && is_eos,
        _ => true,
    }
}

/// The tokens of sequence `id` among the events.
pub open spec fn own_tokens(events: Seq<EngineEvent>, id: SeqId) -> Seq<TokenId>
    decreases events.len(),
{
    if events.len() == 0 {
        Seq::empty()
    } else {
        let before = own_tokens(events.drop_last(), id);
        match events.last() {
            EngineEvent::Token { seq_id, token_id, .. } => if seq_id == id {
                before.push(token_id)
            } else {
                before
            },
            _ => before,
        }
    }
}

/// What other requests are answered in between does not matter.
pub proof fn law_others_do_not_matter(events: Seq<EngineEvent>, id: SeqId)
    ensures
        own_tokens(events, id) == own_tokens(events.filter(|e: EngineEvent| own(e, id)), id),
    decreases events.len(),
{
    reveal(Seq::filter);
    let f = |e: EngineEvent| own(e, id);
    if events.len() > 0 {
        law_others_do_not_matter(events.drop_last(), id);
        let kept = events.drop_last().filter(f);
        if own(events.last(), id) {
            assert(events.filter(f) =~= kept.push(events.last()));
            assert(kept.push(events.last()).drop_last() =~= kept);
        } else {
            assert(events.filter(f) =~= kept);
        }
    }
}

/// What a streaming answer does with an event.
#[derive(Debug, Clone, Copy, PartialEq, Eq, Structural)]
pub enum StreamAction {
    /// It belongs to another request.
    Skip,
    /// Send a chunk with the token.
    Send { token_id: TokenId },
    /// Send a chunk with the last token, then the end mark, and stop.
    SendLast { token_id: TokenId },
    /// Send an error event and stop.
    Fail,
    /// Stop.
    Stop,
}

/// The next step of a streaming answer to sequence `id`. It stops by itself at
/// the last token: nothing may follow it in the queue.
pub fn stream_step(id: SeqId, event: EngineEvent) -> (a: StreamAction)
    ensures
        match event {
            EngineEvent::Token { seq_id, token_id, is_eos } => if seq_id != id {
                a == StreamAction::Skip
            } else if is_eos {
                a == (StreamAction::SendLast { token_id })
            } else {
                a == (StreamAction::Send { token_id })
            },
            EngineEvent::Lagged => a == StreamAction::Fail,
            EngineEvent::Closed => a == StreamAction::Stop,
        },
        ends_answer(event, id) <==> !(a is Skip) && !(a is Send),
{
    match event {
        EngineEvent::Token { seq_id, token_id, is_eos } => if seq_id != id {
            StreamAction::Skip
        } else if is_eos {
            StreamAction::SendLast { token_id }
        } else {
            StreamAction::Send { token_id }
        },
        EngineEvent::Lagged => StreamAction::Fail,
        EngineEvent::Closed => StreamAction::Stop,
    }
}

/// What a streaming client is told when events were lost.
pub fn lagged_message() -> (s: &'static str)
    ensures
        s@ == "response stream fell behind and was truncated, please retry"@,
{
    "response stream fell behind and was truncated, please retry"
}

/// The tokens of one answer, as they arrive.
pub struct Collector {
    seq_id: SeqId,
    tokens: Vec<TokenId>,
    /// The events so far.
    seen: Ghost<Seq<EngineEvent>>,
}

/// Whether more is to come.
#[derive(Debug, Clone, Copy, PartialEq, Eq, Structural)]
pub enum Progress {
    More,
    /// The answer is complete, or the engine shut down.
    Done,
    /// Tokens were lost: what there is must not pass for the answer.
    Lost,
}

impl Collector {
    #[verifier::type_invariant]
    spec fn inv(self) -> bool {
        self.tokens@ == own_tokens(self.seen@, self.seq_id)
    }

    /// The sequence whose tokens are collected.
    pub closed spec fn id(self) -> SeqId {
        self.seq_id
    }

    /// The events that were taken in.
    pub closed spec fn events(self) -> Seq<EngineEvent> {
        self.seen@
    }

    /// Nothing was taken in yet.
    pub fn new(seq_id: SeqId) -> (c: Self)
        ensures
            c.id() == seq_id,
            c.events() == Seq::<EngineEvent>::empty(),
    {
        Collector { seq_id, tokens: Vec::new(), seen: Ghost(Seq::empty()) }
    }

    /// Takes an event in. Nothing more is to be read once the answer is done
    /// or lost.
    pub fn step(&mut self, event: EngineEvent) -> (p: Progress)
        ensures
            final(self).id() == old(self).id(),
            final(self).events() == old(self).events().push(event),
            p == (match event {
                EngineEvent::Token { seq_id, is_eos, .. } => if seq_id == old(self).id() && is_eos {
                    Progress::Done
                } else {
                    Progress::More
                },
                EngineEvent::Lagged => Progress::Lost,
                EngineEvent::Closed => Progress::Done,
            }),
            p == Progress::More <==> !ends_answer(event, old(self).id()),
    {
        proof {
            use_type_invariant(&*self);
        }
        let ghost seen = self.seen@;
        let own_id = self.seq_id;
        let mut before = Collector::new(own_id);
        std::mem::swap(&mut before, self);
        let mut list = before.tokens;
        assert(seen.push(event).drop_last() =~= seen);
        let p = match event {
            EngineEvent::Token { seq_id, token_id, is_eos } => if seq_id == own_id {
                list.push(token_id);
                if is_eos {
                    Progress::Done
                } else {
                    Progress::More
                }
            } else {
                Progress::More
            },
            EngineEvent::Lagged => Progress::Lost,
            EngineEvent::Closed => Progress::Done,
        };
        *self = Collector { seq_id: own_id, tokens: list, seen: Ghost(seen.push(event)) };
        p
    }

    /// The tokens of the sequence among the events taken in, in order.
    pub fn tokens(&self) -> (t: &Vec<TokenId>)
        ensures
            t@ == own_tokens(self.events(), self.id()),
    {
        proof {
            use_type_invariant(self);
        }
        &self.tokens
    }
}

/// An answer's identifier.
pub open spec fn answer_id(seq_id: SeqId) -> Text {
    "chatcmpl-"@ + dec(seq_id as nat)
}

/// The chunk that carries one token's text.
pub fn completion_chunk(
    seq_id: SeqId,
    created: u64,
    model_name: &str,
    text: String,
    is_eos: bool,
) -> (c: ChatCompletionChunk)
    ensures
        c.id@ == answer_id(seq_id),
        c.object@ == "chat.completion.chunk"@,
        c.created == created,
        c.model@ == model_name@,
        c.choices@.len() == 1,
        c.choices@[0].index == 0,
        c.choices@[0].delta.role is None,
        c.choices@[0].delta.content == Some(text),
        text_opt(c.choices@[0].finish_reason) == (if is_eos {
            Some("stop"@)
        } else {
            None
        }),
{
    let mut choices: Vec<ChatChunkChoice> = Vec::new();
    choices.push(
        ChatChunkChoice {
            index: 0,
            delta: DeltaMessage { role: None, content: Some(text) },
            finish_reason: if is_eos {
                Some("stop".to_string())
            } else {
                None
            },
        },
    );
    ChatCompletionChunk {
        id: join2("chatcmpl-", &decimal(seq_id)),
        object: "chat.completion.chunk".to_string(),
        created,
        model: model_name.to_string(),
        choices,
    }
}

/// The chunk for a token that has arrived: its text, or a space where it has
/// none.
pub fn token_chunk(
    seq_id: SeqId,
    created: u64,
    model_name: &str,
    tokenizer: &LlmTokenizer,
    token_id: TokenId,
    is_eos: bool,
) -> (c: ChatCompletionChunk)
    ensures
        c.id@ == answer_id(seq_id),
        c.object@ == "chat.completion.chunk"@,
        c.created == created,
        c.model@ == model_name@,
        c.choices@.len() == 1,
        c.choices@[0].index == 0,
        c.choices@[0].delta.role is None,
        c.choices@[0].delta.content matches Some(text) && tokenizer.reads_as(
            seq![token_id],
            " "@,
            text@,
        ),
        text_opt(c.choices@[0].finish_reason) == (if is_eos {
            Some("stop"@)
        } else {
            None
        }),
{
    let ids: Vec<TokenId> = vec![token_id];
    assert(ids@ =~= seq![token_id]);
    let text: String = tokenizer.decode_or(&ids, " ");
    completion_chunk(seq_id, created, model_name, text, is_eos)
}

/// The text of an answer that was collected as a whole. What cannot be decoded
/// counts as no text.
pub fn answer_text(collector: &Collector, tokenizer: &LlmTokenizer) -> (text: String)
    ensures
        tokenizer.reads_as(
            own_tokens(collector.events(), collector.id()),
            ""@,
            text@,
        ),
{
    tokenizer.decode_or(collector.tokens(), "")
}

/// The whole answer.
pub fn completion_response(seq_id: SeqId, created: u64, model_name: &str, text: String) -> (r:
    ChatCompletionResponse)
    ensures
        r.id@ == answer_id(seq_id),
        r.object@ == "chat.completion"@,
        r.created == created,
        r.model@ == model_name@,
        r.choices@.len() == 1,
        r.choices@[0].index == 0,
        r.choices@[0].message.role@ == "assistant"@,
        r.choices@[0].message.content == text,
        r.choices@[0].finish_reason@ == "stop"@,
{
    let mut choices: Vec<ChatChoice> = Vec::new();
    choices.push(
        ChatChoice {
            index: 0,
            message: ChatMessage { role: "assistant".to_string(), content: text },
            finish_reason: "stop".to_string(),
        },
    );
    ChatCompletionResponse {
        id: join2("chatcmpl-", &decimal(seq_id)),
        object: "chat.completion".to_string(),
        created,
        model: model_name.to_string(),
        choices,
    }
}

/// What the server answers.
#[derive(Debug, Clone)]
pub enum Answer {
    /// The client asked for what it cannot have.
    BadRequest(String),
    /// The prompt could not be encoded.
    EncodeFailed,
    /// The engine did not take the request.
    QueueFailed,
    /// Tokens were lost on the way.
    Unavailable,
    /// The whole answer.
    Complete(ChatCompletionResponse),
    /// Chunks will follow.
    Stream,
}

/// How far the server got with a request before tokens arrive.
#[derive(Debug, Clone, Copy, PartialEq, Eq, Structural)]
pub struct Started {
    pub encoded: bool,
    pub queued: bool,
}

/// The answer to a request, given how far the server got with it and, where
/// the client waits for the whole answer, how collecting its tokens ended and
/// the text they decode to.
pub fn chat_completions(
    req: &ChatCompletionRequest,
    limit: usize,
    seq_id: SeqId,
    started: Started,
    ended: Progress,
    created: u64,
    model_name: &str,
    text: String,
) -> (a: Answer)
    ensures
        match a {
            Answer::BadRequest(message) => req.max_tokens matches Some(n) && n > limit && message@
                == too_many(n as nat, limit as nat),
            _ => req.max_tokens matches Some(n) ==> n <= limit,
        },
        !(a is BadRequest) ==> {
            &&& a is EncodeFailed <==> !started.encoded
            &&& a is QueueFailed <==> started.encoded && !started.queued
            &&& a is Stream <==> started.encoded && started.queued && req.stream
            &&& a is Unavailable <==> started.encoded && started.queued && !req.stream && ended
                == Progress::Lost
            &&& a is Complete <==> started.encoded && started.queued && !req.stream && ended
                != Progress::Lost
        },
        a matches Answer::Complete(r) ==> r.id@ == answer_id(seq_id) && r.created == created
            && r.model@ == model_name@ && r.object@ == "chat.completion"@ && r.choices@.len() == 1
            && r.choices@[0].message.role@ == "assistant"@ && r.choices@[0].message.content == text
            && r.choices@[0].finish_reason@ == "stop"@ && r.choices@[0].index == 0,
{
    if let Err(message) = check_request(req, limit) {
        return Answer::BadRequest(message);
    }
    if !started.encoded {
        return Answer::EncodeFailed;
    }
    if !started.queued {
        return Answer::QueueFailed;
    }
    if req.stream {
        return Answer::Stream;
    }
    if ended == Progress::Lost {
        return Answer::Unavailable;
    }
    Answer::Complete(completion_response(seq_id, created, model_name, text))
}

/// One sequence's generation, drained to its end. Times are in nanoseconds.
#[derive(Debug, Clone)]
pub struct GenLoopResult {
    pub tokens: Vec<TokenId>,
    /// From the start to the first token.
    pub ttft: Option<u64>,
    pub total_dur: u64,
    /// Events were lost: the tokens may be incomplete.
    pub lagged: bool,
}

impl Default for GenLoopResult {
    fn default() -> (r: Self)
        ensures
            r.tokens@.len() == 0,
            r.ttft is None,
            r.total_dur == 0,
            !r.lagged,
    {
        GenLoopResult { tokens: Vec::new(), ttft: None, total_dur: 0, lagged: false }
    }
}

fn is_stop(stops: &[TokenId], token: TokenId) -> (b: bool)
    ensures
        b == stops@.contains(token),
{
    let mut i: usize = 0;
    while i < stops.len()
        invariant
            i <= stops@.len(),
            forall|k: int| 0 <= k < i ==> stops@[k] != token,
        decreases stops@.len() - i,
    {
        if stops[i] == token {
            assert(stops@[i as int] == token);
            return true;
        }
        i += 1;
    }
    false
}

impl GenLoopResult {
    /// Takes an event in that came `elapsed` after the start, and says whether
    /// the loop goes on: it ends with the last token, with one of the stop
    /// tokens, with as many tokens as were asked for, and when events were lost
    /// or the engine shut down. An event of another sequence changes nothing.
    pub fn consume(
        &mut self,
        id: SeqId,
        event: EngineEvent,
        elapsed: u64,
        eos_token_ids: &[TokenId],
        max_new_tokens: usize,
    ) -> (more: bool)
        ensures
            match event {
                EngineEvent::Token { seq_id, token_id, is_eos } => if seq_id == id {
                    &&& final(self).tokens@ == old(self).tokens@.push(token_id)
                    &&& final(self).ttft == (match old(self).ttft {
                        Some(t) => Some(t),
                        None => Some(elapsed),
                    })
                    &&& final(self).lagged == old(self).lagged
                    &&& final(self).total_dur == old(self).total_dur
                    &&& more == !(is_eos || eos_token_ids@.contains(token_id)
                        || final(self).tokens@.len() >= max_new_tokens)
                } else {
                    *final(self) == *old(self) && more
                },
                EngineEvent::Lagged => {
                    &&& final(self).tokens == old(self).tokens
                    &&& final(self).ttft == old(self).ttft
                    &&& final(self).total_dur == old(self).total_dur
                    &&& final(self).lagged
                    &&& !more
                },
                EngineEvent::Closed => *final(self) == *old(self) && !more,
            },
    {
        match event {
            EngineEvent::Token { seq_id, token_id, is_eos } => {
                if seq_id != id {
                    return true;
                }
                if self.ttft.is_none() {
                    self.ttft = Some(elapsed);
                }
                self.tokens.push(token_id);
                !(is_eos || is_stop(eos_token_ids, token_id) || self.tokens.len()
                    >= max_new_tokens)
            },
            EngineEvent::Lagged => {
                self.lagged = true;
                false
            },
            EngineEvent::Closed => false,
        }
    }
}

/// The tokens that end a generation, given which of the common end-of-turn
/// tokens the vocabulary has: the model's own first.
pub fn stop_tokens(
    model_eos: Option<TokenId>,
    im_end: Option<TokenId>,
    end_of_turn: Option<TokenId>,
    turn: Option<TokenId>,
) -> (ids: Vec<TokenId>)
    ensures
        ids@ == listed(model_eos) + listed(im_end) + listed(end_of_turn) + listed(turn),
{
    let mut ids: Vec<TokenId> = Vec::new();
    push_some(&mut ids, model_eos);
    push_some(&mut ids, im_end);
    push_some(&mut ids, end_of_turn);
    push_some(&mut ids, turn);
    assert(ids@ =~= listed(model_eos) + listed(im_end) + listed(end_of_turn) + listed(turn));
    ids
}

/// The tokens that end a generation: the model's own, where it is known, and
/// the common end-of-turn tokens that the vocabulary has.
pub fn resolve_eos_token_ids(model_eos: Option<TokenId>, tokenizer: &LlmTokenizer) -> (ids: Vec<
    TokenId,
>)
    ensures
        ids@ == listed(model_eos) + listed(id_of_token(tokenizer.json(), "<|im_end|>"@)) + listed(
            id_of_token(tokenizer.json(), "<end_of_turn>"@),
        ) + listed(id_of_token(tokenizer.json(), "<turn|>"@)),
{
    stop_tokens(
        model_eos,
        tokenizer.token_to_id("<|im_end|>"),
        tokenizer.token_to_id("<end_of_turn>"),
        tokenizer.token_to_id("<turn|>"),
    )
}

/// A token, where there is one.
pub open spec fn listed(o: Option<TokenId>) -> Seq<TokenId> {
    match o {
        Some(id) => seq![id],
        None => seq![],
    }
}

fn push_some(ids: &mut Vec<TokenId>, o: Option<TokenId>)
    ensures
        final(ids)@ == old(ids)@ + listed(o),
{
    let ghost before = ids@;
    if let Some(id) = o {
        ids.push(id);
    }
    assert(ids@ =~= before + listed(o));
}

/// Whether to warn, at startup, that the detected hardware cannot be used with
/// what was compiled in.
pub fn log_compiled_backend_support(cuda: bool, metal: bool, detected: BackendChoice) -> (warn: bool)
    ensures
        warn == (match detected {
            BackendChoice::Cuda => !cuda,
            BackendChoice::Metal => !metal,
            BackendChoice::Cpu => false,
        }),
{
    match detected {
        BackendChoice::Cuda => !cuda,
        BackendChoice::Metal => !metal,
        BackendChoice::Cpu => false,
    }
}

/// Where a model's tokenizer is looked for: beside the model file, or inside
/// the model directory. A file path without a directory has none.
pub fn resolve_tokenizer_path(model_path: &str, parent: Option<&str>, is_file: bool) -> (r: Result<
    String,
    NoParent,
>)
    ensures
        match r {
            Ok(path) => if is_file {
                parent matches Some(p) && path@ == joined_path(p@, "tokenizer.json"@)
            } else {
                path@ == joined_path(model_path@, "tokenizer.json"@)
            },
            Err(_) => is_file && parent is None,
        },
{
    if is_file {
        match parent {
            Some(p) => Ok(join_path(p, "tokenizer.json")),
            None => Err(NoParent),
        }
    } else {
        Ok(join_path(model_path, "tokenizer.json"))
    }
}

/// The model's path names no directory.
#[derive(Debug, Clone, Copy, PartialEq, Eq, Structural)]
pub struct NoParent;

/// A name inside a directory.
pub open spec fn joined_path(dir: Text, name: Text) -> Text {
    if dir.len() == 0 || dir.last() == '/' {
        dir + name
    } else {
        dir + "/"@ + name
    }
}

fn join_path(dir: &str, name: &str) -> (out: String)
    ensures
        out@ == joined_path(dir@, name@),
{
    let mut out = dir.to_string();
    let chars = crate::text::chars_of(dir);
    if chars.len() > 0 && chars[chars.len() - 1] != '/' {
        out.append("/");
    }
    out.append(name);
    assert(out@ =~= joined_path(dir@, name@));
    out
}

/// A sequence's answer is empty at first, grows by each of its own tokens, in
/// the order in which they come, and by nothing else.
pub proof fn law_tokens_are_collected(events: Seq<EngineEvent>, id: SeqId, e: EngineEvent)
    ensures
        own_tokens(seq![], id) == Seq::<TokenId>::empty(),
        e matches EngineEvent::Token { seq_id, token_id, .. } ==> (seq_id == id ==> own_tokens(
            events.push(e),
            id,
        ) == own_tokens(events, id).push(token_id)),
        e matches EngineEvent::Token { seq_id, .. } ==> (seq_id != id ==> own_tokens(
            events.push(e),
            id,
        ) == own_tokens(events, id)),
        e is Lagged || e is Closed ==> own_tokens(events.push(e), id) == own_tokens(events, id),
{
    assert(events.push(e).drop_last() =~= events);
}

/// What the client is told names what it asked for and what it may have, in
/// this order; an answer is called by its sequence.
pub proof fn law_what_is_written(requested: nat, limit: nat, seq_id: SeqId)
    ensures
        too_many(requested, limit) == "max_tokens ("@ + dec(requested)
            + ") exceeds this server's limit of "@ + dec(limit),
        answer_id(seq_id) == "chatcmpl-"@ + dec(seq_id as nat),
{
}

/// Answers to different sequences are called differently.
pub proof fn law_answers_are_told_apart(a: SeqId, b: SeqId)
    requires
        answer_id(a) == answer_id(b),
    ensures
        a == b,
{
    let lead = "chatcmpl-"@;
    assert((lead + dec(a as nat)).skip(lead.len() as int) =~= dec(a as nat));
    assert((lead + dec(b as nat)).skip(lead.len() as int) =~= dec(b as nat));
    law_decimal_reads_back(a as nat);
    law_decimal_reads_back(b as nat);
}

/// A name inside a directory stands behind the directory's path and one slash.
pub proof fn law_joined_path(dir: Text, name: Text)
    ensures
        dir.len() > 0 && dir.last() != '/' ==> joined_path(dir, name) == dir + "/"@ + name,
        dir.len() > 0 && dir.last() == '/' ==> joined_path(dir, name) == dir + name,
        joined_path(seq![], name) == name,
{
    assert(Seq::<char>::empty() + name =~= name);
}

/// Every token that ends a generation is listed, the model's own first, and no
/// other token is.
pub proof fn law_stops_are_listed(
    model_eos: Option<TokenId>,
    im_end: Option<TokenId>,
    end_of_turn: Option<TokenId>,
    turn: Option<TokenId>,
    id: TokenId,
)
    ensures
        ({
            let all = listed(model_eos) + listed(im_end) + listed(end_of_turn) + listed(turn);
            &&& all.contains(id) <==> model_eos == Some(id) || im_end == Some(id) || end_of_turn
                == Some(id) || turn == Some(id)
            &&& model_eos == Some(id) ==> all[0] == id
        }),
{
    let (a, b, c, d) = (listed(model_eos), listed(im_end), listed(end_of_turn), listed(turn));
    let all = a + b + c + d;
    if model_eos == Some(id) {
        assert(all[0] == id);
    }
    if im_end == Some(id) {
        assert(all[a.len() as int] == id);
    }
    if end_of_turn == Some(id) {
        assert(all[(a.len() + b.len()) as int] == id);
    }
    if turn == Some(id) {
        assert(all[(a.len() + b.len() + c.len()) as int] == id);
    }
}

} // verus!
