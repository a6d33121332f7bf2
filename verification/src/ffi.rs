//! What the C interface decides: how an engine is set up, how requests are
//! numbered, and what a poll answers.
use vstd::prelude::*;
use std::collections::HashSet;
use crate::chat::server::{random_number, EngineEvent, REPETITION_PENALTY};
use crate::tokenizer::{encodings, LlmTokenizer};
use crate::types::{InferRequest, Real, SampleParams, SeqId, TokenId};

verus! {

broadcast use vstd::std_specs::hash::group_hash_axioms;

/// Stands for a failure where a sequence's number is expected. Zero is a valid
/// number and does not.
pub const INVALID_SEQ_ID: u64 = 0xFFFF_FFFF_FFFF_FFFF;

/// What an engine is set up with.
#[derive(Debug, Clone, Copy, PartialEq, Eq, Structural)]
pub enum EnginePlan {
    /// No model is loaded. Only on request, never by the look of a path.
    Dummy,
    /// The model and its tokenizer are loaded.
    Real,
}

/// Why no engine is set up.
#[derive(Debug, Clone, Copy, PartialEq, Eq, Structural)]
pub enum EngineError {
    /// The model's path is missing or no text.
    ModelPath,
    /// The tokenizer's path is missing or no text.
    TokenizerPath,
}

/// How an engine is set up, given whether the two paths are there.
pub fn plan_engine(model_path: bool, tokenizer_path: bool, use_dummy: bool) -> (r: Result<
    EnginePlan,
    EngineError,
>)
    ensures
        r == (if !model_path {
            Err::<EnginePlan, EngineError>(EngineError::ModelPath)
        } else if use_dummy {
            Ok(EnginePlan::Dummy)
        } else if !tokenizer_path {
            Err(EngineError::TokenizerPath)
        } else {
            Ok(EnginePlan::Real)
        }),
{
    if !model_path {
        Err(EngineError::ModelPath)
    } else if use_dummy {
        Ok(EnginePlan::Dummy)
    } else if !tokenizer_path {
        Err(EngineError::TokenizerPath)
    } else {
        Ok(EnginePlan::Real)
    }
}

/// A drawn number as the number of a sequence, unless it stands for a failure.
pub fn accept_seq_id(candidate: u64) -> (r: Option<SeqId>)
    ensures
        r == (if candidate != INVALID_SEQ_ID {
            Some(candidate)
        } else {
            None
        }),
{
    if candidate != INVALID_SEQ_ID {
        Some(candidate)
    } else {
        None
    }
}

/// How often a draw is repeated at most.
const MAX_DRAWS: usize = 64;

/// Draws the number of a new sequence. A draw that falls on the number that
/// stands for a failure is repeated; a generator that gives nothing else is
/// given up on in the end.
pub fn next_seq_id() -> (id: SeqId)
    ensures
        id != INVALID_SEQ_ID,
{
    let mut draws: usize = 0;
    while draws < MAX_DRAWS
        decreases MAX_DRAWS - draws,
    {
        if let Some(id) = accept_seq_id(random_number()) {
            return id;
        }
        draws += 1;
    }
    0
}

/// How a request is answered, given how far it got: with the sequence's
/// number, or with the one that stands for a failure.
pub fn answer_request(
    engine: bool,
    prompt: bool,
    tokenizer: bool,
    encoded: bool,
    queued: bool,
    seq_id: SeqId,
) -> (id: u64)
    ensures
        id == (if engine && prompt && tokenizer && encoded && queued {
            seq_id
        } else {
            INVALID_SEQ_ID
        }),
{
    if engine && prompt && tokenizer && encoded && queued {
        seq_id
    } else {
        INVALID_SEQ_ID
    }
}

/// Splits a prompt into tokens, where there is a prompt and a tokenizer.
pub fn encode_request(prompt: Option<&str>, tokenizer: Option<&LlmTokenizer>) -> (r: Option<
    Vec<TokenId>,
>)
    ensures
        match (prompt, tokenizer) {
            (Some(p), Some(t)) => match r {
                Some(ids) => encodings(t.json(), p@, true).contains(Some(ids@)),
                None => encodings(t.json(), p@, true).contains(None),
            },
            _ => r is None,
        },
{
    match (prompt, tokenizer) {
        (Some(p), Some(t)) => match t.encode(p, true) {
            Ok(ids) => Some(ids),
            Err(_) => None,
        },
        _ => None,
    }
}

/// What is asked of the engine.
pub fn ffi_request(
    seq_id: SeqId,
    prompt_tokens: Vec<TokenId>,
    temperature: Real,
    top_p: Real,
    max_tokens: usize,
) -> (r: InferRequest)
    ensures
        r.seq_id == seq_id,
        r.prompt_tokens == prompt_tokens,
        r.max_new_tokens == max_tokens,
        r.sample_params == (SampleParams {
            temperature,
            top_p,
            top_k: 40,
            repetition_penalty: Real::Single(REPETITION_PENALTY),
            max_new_tokens: max_tokens,
        }),
{
    InferRequest {
        seq_id,
        prompt_tokens,
        max_new_tokens: max_tokens,
        sample_params: SampleParams {
            temperature,
            top_p,
            top_k: 40,
            repetition_penalty: Real::Single(REPETITION_PENALTY),
            max_new_tokens: max_tokens,
        },
    }
}

/// Whether an event goes to the queue of sequence `id`, and whether the queue
/// is fed any further.
pub fn forward_event(id: SeqId, event: EngineEvent) -> (r: (bool, bool))
    ensures
        match event {
            EngineEvent::Token { seq_id, is_eos, .. } => r.0 == (seq_id == id) && r.1 == !(seq_id
                == id && is_eos),
            _ => !r.0 && !r.1,
        },
{
    match event {
        EngineEvent::Token { seq_id, is_eos, .. } => if seq_id == id {
            (true, !is_eos)
        } else {
            (false, true)
        },
        _ => (false, false),
    }
}

/// What a poll found in a sequence's queue.
#[derive(Debug, Clone, Copy, PartialEq, Eq, Structural)]
pub enum Polled {
    /// There is no engine, or it has no tokenizer, or its state is lost.
    NoEngine,
    /// No request was given such a number.
    Unknown,
    /// The sequence is finished.
    Finished,
    /// A token.
    Token { token_id: TokenId, is_eos: bool },
    /// The queue was closed.
    Drained,
}

/// The numbers that requests were given.
pub struct Sequences {
    issued: HashSet<SeqId>,
}

impl View for Sequences {
    type V = Set<SeqId>;

    closed spec fn view(&self) -> Set<SeqId> {
        self.issued@
    }
}

impl Sequences {
    /// No request was given a number.
    pub fn new() -> (s: Self)
        ensures
            s@ == Set::<SeqId>::empty(),
    {
        Sequences { issued: HashSet::new() }
    }

    /// A request is given a number.
    pub fn issue(&mut self, id: SeqId)
        ensures
            final(self)@ == old(self)@.insert(id),
    {
        self.issued.insert(id);
    }

    /// What a poll finds that finds no queue: a sequence that is finished, or
    /// none that there ever was.
    pub fn without_queue(&self, id: SeqId) -> (p: Polled)
        ensures
            p == (if self@.contains(id) {
                Polled::Finished
            } else {
                Polled::Unknown
            }),
    {
        if self.issued.contains(&id) {
            Polled::Finished
        } else {
            Polled::Unknown
        }
    }
}

/// What a poll answers. The text is added by the caller where there is a
/// token.
#[derive(Debug, Clone, Copy, PartialEq, Eq, Structural)]
pub struct GenerationResult {
    pub token: TokenId,
    pub has_text: bool,
    pub is_eos: bool,
    /// Something failed: the end is none of the generation's.
    pub is_error: bool,
}

impl GenerationResult {
    /// A failure.
    pub fn error() -> (r: Self)
        ensures
            r == (GenerationResult { token: 0, has_text: false, is_eos: true, is_error: true }),
    {
        GenerationResult { token: 0, has_text: false, is_eos: true, is_error: true }
    }

    /// The end of a generation.
    pub fn done() -> (r: Self)
        ensures
            r == (GenerationResult { token: 0, has_text: false, is_eos: true, is_error: false }),
    {
        GenerationResult { token: 0, has_text: false, is_eos: true, is_error: false }
    }
}

/// What a poll answers, and whether the sequence's queue is kept for the next
/// one.
pub fn poll_result(found: Polled) -> (r: (GenerationResult, bool))
    ensures
        r.0 == (match found {
            Polled::NoEngine => GenerationResult {
                token: 0,
                has_text: false,
                is_eos: true,
                is_error: true,
            },
            Polled::Unknown => GenerationResult {
                token: 0,
                has_text: false,
                is_eos: true,
                is_error: true,
            },
            Polled::Finished => GenerationResult {
                token: 0,
                has_text: false,
                is_eos: true,
                is_error: false,
            },
            Polled::Drained => GenerationResult {
                token: 0,
                has_text: false,
                is_eos: true,
                is_error: false,
            },
            Polled::Token { token_id, is_eos } => GenerationResult {
                token: token_id,
                has_text: true,
                is_eos,
                is_error: false,
            },
        }),
        r.1 == (found matches Polled::Token { is_eos, .. } && !is_eos),
{
    match found {
        Polled::NoEngine => (GenerationResult::error(), false),
        Polled::Unknown => (GenerationResult::error(), false),
        Polled::Finished => (GenerationResult::done(), false),
        Polled::Drained => (GenerationResult::done(), false),
        Polled::Token { token_id, is_eos } => (
            GenerationResult { token: token_id, has_text: true, is_eos, is_error: false },
            !is_eos,
        ),
    }
}

/// The text that goes with a poll's answer: that of its token, where it has
/// one and there is a tokenizer. What cannot be decoded counts as no text.
pub fn polled_text(result: GenerationResult, tokenizer: Option<&LlmTokenizer>) -> (r: Option<
    String,
>)
    ensures
        match r {
            Some(text) => result.has_text && tokenizer is Some && tokenizer->0.reads_as(
                seq![result.token],
                ""@,
                text@,
            ),
            None => !result.has_text || tokenizer is None,
        },
{
    match tokenizer {
        Some(t) => if result.has_text {
            let ids: Vec<TokenId> = vec![result.token];
            assert(ids@ =~= seq![result.token]);
            Some(t.decode_or(&ids, ""))
        } else {
            None
        },
        None => None,
    }
}

} // verus!
