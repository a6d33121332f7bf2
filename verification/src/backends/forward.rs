//! What a forward pass decides between tensor operations.
use vstd::prelude::*;
use crate::backends::attention::{length_of, RawKvCache};
use crate::floats::{argmax, is_peak};
use crate::graph::builder::{
    at_start, flows, graph_ops, law_graph_computes_decoder, law_graph_flows, logits_term, written,
    Meta,
};
use crate::graph::meaning::{agree, law_operator_reads_and_writes, run, step, Term};
use crate::graph::ops::{reads, writes, ComputeGraph, Operator};
use crate::graph::scan::TensorGroupMap;
use crate::text::{dec, decimal, same, texts, Text};
use crate::types::{text_opt, BatchInput, SeqId};

verus! {

/// Why a batch is refused.
#[derive(Debug, Clone, Copy, PartialEq, Eq, Structural)]
pub enum BatchError {
    /// There is no sequence in it.
    Empty,
    /// The boundaries are not one more than the sequences.
    WrongBoundaries { boundaries: usize, sequences: usize },
    /// The last boundary is not the number of tokens.
    WrongTotal { last: Option<u32>, tokens: usize },
    /// A sequence without tokens has no next one.
    NoTokens { sequence: usize, from: u32, to: u32 },
}

/// The text of an optional number.
pub open spec fn option_text(o: Option<u32>) -> Text {
    match o {
        Some(n) => "Some("@ + dec(n as nat) + ")"@,
        None => "None"@,
    }
}

/// What is reported of a refused batch.
pub open spec fn batch_message(e: BatchError) -> Text {
    match e {
        BatchError::Empty => "empty batch: seq_ids is empty"@,
        BatchError::WrongBoundaries { boundaries, sequences } => "forward_pass: cu_seqlens length "@
            + dec(boundaries as nat) + " does not match seq_ids length "@ + dec(sequences as nat)
            + " + 1"@,
        BatchError::WrongTotal { last, tokens } => "forward_pass: cu_seqlens last entry ("@
            + option_text(last) + ") does not match total token count ("@ + dec(tokens as nat)
            + ")"@,
        BatchError::NoTokens { sequence, from, to } => "forward_pass: sequence at batch index "@
            + dec(sequence as nat) + " has zero tokens (cu_seqlens["@ + dec(sequence as nat)
            + "]="@ + dec(from as nat) + ", cu_seqlens["@ + dec((sequence + 1) as nat) + "]="@
            + dec(to as nat) + ") — cannot extract next-token logits"@,
    }
}

fn push_number(out: &mut String, n: usize)
    ensures
        final(out)@ == old(out)@ + dec(n as nat),
{
    out.append(&decimal(n as u64));
}

impl BatchError {
    /// The report.
    pub fn message(&self) -> (out: String)
        requires
            self matches BatchError::NoTokens { sequence, .. } ==> sequence < usize::MAX,
        ensures
            out@ == batch_message(*self),
    {
        let mut out = String::new();
        match *self {
            BatchError::Empty => {
                out.append("empty batch: seq_ids is empty");
            },
            BatchError::WrongBoundaries { boundaries, sequences } => {
                out.append("forward_pass: cu_seqlens length ");
                push_number(&mut out, boundaries);
                out.append(" does not match seq_ids length ");
                push_number(&mut out, sequences);
                out.append(" + 1");
            },
            BatchError::WrongTotal { last, tokens } => {
                out.append("forward_pass: cu_seqlens last entry (");
                match last {
                    Some(n) => {
                        out.append("Some(");
                        push_number(&mut out, n as usize);
                        out.append(")");
                    },
                    None => {
                        out.append("None");
                    },
                }
                out.append(") does not match total token count (");
                push_number(&mut out, tokens);
                out.append(")");
            },
            BatchError::NoTokens { sequence, from, to } => {
                out.append("forward_pass: sequence at batch index ");
                push_number(&mut out, sequence);
                out.append(" has zero tokens (cu_seqlens[");
                push_number(&mut out, sequence);
                out.append("]=");
                push_number(&mut out, from as usize);
                out.append(", cu_seqlens[");
                push_number(&mut out, sequence + 1);
                out.append("]=");
                push_number(&mut out, to as usize);
                out.append(") — cannot extract next-token logits");
            },
        }
        assert(out@ =~= batch_message(*self));
        out
    }
}

/// The last boundary of a batch.
pub open spec fn last_boundary(bounds: Seq<u32>) -> Option<u32> {
    if bounds.len() == 0 {
        None
    } else {
        Some(bounds.last())
    }
}

/// Why a batch of `sequences` with these boundaries and so many tokens is
/// refused, if it is.
pub open spec fn batch_problem(sequences: nat, bounds: Seq<u32>, tokens: nat) -> Option<BatchError> {
    if sequences == 0 {
        Some(BatchError::Empty)
    } else if bounds.len() != sequences + 1 {
        Some(
            BatchError::WrongBoundaries {
                boundaries: bounds.len() as usize,
                sequences: sequences as usize,
            },
        )
    } else if last_boundary(bounds) != Some((tokens as usize) as u32) {
        Some(BatchError::WrongTotal { last: last_boundary(bounds), tokens: tokens as usize })
    } else {
        None
    }
}

/// Checks the shape of a packed batch before anything is computed: sequences
/// of different lengths stand back to back, and the boundaries say where.
pub fn check_batch(batch: &BatchInput) -> (r: Result<(), BatchError>)
    ensures
        match r {
            Ok(_) => batch_problem(
                batch.seq_ids@.len(),
                batch.cu_seqlens@,
                batch.token_ids@.len(),
            ) is None,
            Err(e) => batch_problem(
                batch.seq_ids@.len(),
                batch.cu_seqlens@,
                batch.token_ids@.len(),
            ) == Some(e),
        },
{
    let sequences: usize = batch.seq_ids.len();
    let boundaries: usize = batch.cu_seqlens.len();
    let tokens: usize = batch.token_ids.len();
    if sequences == 0 {
        return Err(BatchError::Empty);
    }
    if boundaries == 0 || boundaries - 1 != sequences {
        return Err(BatchError::WrongBoundaries { boundaries, sequences });
    }
    let last: u32 = batch.cu_seqlens[boundaries - 1];
    if last != tokens as u32 {
        return Err(BatchError::WrongTotal { last: Some(last), tokens });
    }
    Ok(())
}

fn push_texts(out: &mut Vec<String>, name: &String)
    ensures
        texts(final(out)@) == texts(old(out)@).push(name@),
{
    let ghost before = out@;
    out.push(name.clone());
    assert(texts(out@) =~= texts(before).push(name@));
}

/// The activations that an operator reads.
pub fn op_inputs(op: &Operator) -> (out: Vec<String>)
    ensures
        texts(out@) == reads(op@),
{
    let mut out: Vec<String> = Vec::new();
    assert(texts(out@) =~= Seq::<Text>::empty());
    match op {
        Operator::Embed { input_ids, .. } => {
            push_texts(&mut out, input_ids);
        },
        Operator::RMSNorm { input, .. } => {
            push_texts(&mut out, input);
        },
        Operator::MatMul { input, .. } => {
            push_texts(&mut out, input);
        },
        Operator::Rope { q, k, .. } => {
            push_texts(&mut out, q);
            push_texts(&mut out, k);
        },
        Operator::RopeQ { q, .. } => {
            push_texts(&mut out, q);
        },
        Operator::RopeSkip { q, k, .. } => {
            push_texts(&mut out, q);
            push_texts(&mut out, k);
        },
        Operator::PagedAttention { q, k, v, .. } => {
            push_texts(&mut out, q);
            push_texts(&mut out, k);
            push_texts(&mut out, v);
        },
        Operator::Activation { input, .. } => {
            push_texts(&mut out, input);
        },
        Operator::Mul { lhs, rhs, .. } => {
            push_texts(&mut out, lhs);
            push_texts(&mut out, rhs);
        },
        Operator::Add { lhs, rhs, .. } => {
            push_texts(&mut out, lhs);
            push_texts(&mut out, rhs);
        },
        Operator::VisualEmbed { pixel_values, .. } => {
            push_texts(&mut out, pixel_values);
        },
        Operator::SpliceTensors { text_embeds, visual_embeds, .. } => {
            push_texts(&mut out, text_embeds);
            push_texts(&mut out, visual_embeds);
        },
        Operator::AudioEmbed { audio_values, .. } => {
            push_texts(&mut out, audio_values);
        },
        Operator::SpliceAudioTensors { text_embeds, audio_embeds, .. } => {
            push_texts(&mut out, text_embeds);
            push_texts(&mut out, audio_embeds);
        },
        Operator::DeepStackFuse { input, .. } => {
            push_texts(&mut out, input);
            push_texts(&mut out, &"visual_embeddings".to_string());
        },
        Operator::Softcap { input, .. } => {
            push_texts(&mut out, input);
        },
        Operator::Scale { input, .. } => {
            push_texts(&mut out, input);
        },
        Operator::TensorScale { input, .. } => {
            push_texts(&mut out, input);
        },
        Operator::PleInput { input_ids, text_embeddings, .. } => {
            push_texts(&mut out, input_ids);
            push_texts(&mut out, text_embeddings);
        },
        Operator::PleLayer { input, per_layer_input, .. } => {
            push_texts(&mut out, input);
            push_texts(&mut out, per_layer_input);
        },
    }
    assert(texts(out@) =~= reads(op@));
    out
}

/// Operator `i` is the last that reads `name`.
pub open spec fn reads_last(ops: Seq<Operator<Text>>, i: int, name: Text) -> bool {
    &&& 0 <= i < ops.len()
    &&& reads(ops[i]).contains(name)
    &&& forall|j: int| i < j < ops.len() ==> !reads(#[trigger] ops[j]).contains(name)
}

/// `name` is dropped once operator `i` has run.
pub open spec fn dropped(ops: Seq<Operator<Text>>, i: int, name: Text) -> bool {
    name != "logits"@ && reads_last(ops, i, name)
}

fn listed(names: &Vec<String>, name: &str) -> (b: bool)
    ensures
        b == texts(names@).contains(name@),
{
    let mut i: usize = 0;
    while i < names.len()
        invariant
            i <= names@.len(),
            forall|k: int| 0 <= k < i ==> texts(names@)[k] != name@,
        decreases names@.len() - i,
    {
        if same(&names[i], name) {
            assert(texts(names@)[i as int] == name@);
            return true;
        }
        i += 1;
    }
    false
}

fn read_later(inputs: &Vec<Vec<String>>, from: usize, name: &str) -> (b: bool)
    ensures
        b == exists|j: int| from <= j < inputs@.len() && texts(#[trigger] inputs@[j]@).contains(name@),
{
    let mut j: usize = from;
    while j < inputs.len()
        invariant
            from <= j,
            forall|k: int| from <= k < j && k < inputs@.len() ==> !texts(#[trigger] inputs@[k]@).contains(name@),
        decreases inputs@.len() - j,
    {
        if listed(&inputs[j], name) {
            return true;
        }
        j += 1;
    }
    false
}

fn drops_after(inputs: &Vec<Vec<String>>, i: usize, ops: Ghost<Seq<Operator<Text>>>) -> (out: Vec<String>)
    requires
        i < inputs@.len(),
        inputs@.len() == ops@.len(),
        forall|k: int| 0 <= k < ops@.len() ==> texts(#[trigger] inputs@[k]@) == reads(ops@[k]),
    ensures
        forall|name: Text| texts(out@).contains(name) <==> #[trigger] dropped(ops@, i as int, name),
        texts(out@).no_duplicates(),
{
    let mut out: Vec<String> = Vec::new();
    let total: usize = inputs.len();
    let names = &inputs[i];
    let ghost all = texts(names@);
    let mut k: usize = 0;
    while k < names.len()
        invariant
            k <= names@.len(),
            i < total,
            total == inputs@.len(),
            inputs@.len() == ops@.len(),
            *names == inputs@[i as int],
            all == texts(names@),
            all == reads(ops@[i as int]),
            forall|j: int| 0 <= j < ops@.len() ==> texts(#[trigger] inputs@[j]@) == reads(ops@[j]),
            texts(out@).no_duplicates(),
            forall|name: Text| #[trigger]
                texts(out@).contains(name) <==> (all.take(k as int).contains(name) && dropped(
                    ops@,
                    i as int,
                    name,
                )),
        decreases names@.len() - k,
    {
        let name = &names[k];
        let ghost before = out@;
        let later = read_later(inputs, i + 1, name);
        let ghost at = all.take(k as int);
        let ghost next = all.take(k + 1);
        assert(all[k as int] == name@);
        assert(next =~= at.push(name@));
        proof {
            assert(reads(ops@[i as int]).contains(name@)) by {
                assert(all[k as int] == name@);
            }
            if later {
                let j = choose|j: int| i + 1 <= j < inputs@.len() && texts(#[trigger] inputs@[j]@).contains(name@);
                assert(reads(ops@[j]).contains(name@));
            } else {
                assert forall|j: int| i < j < ops@.len() implies !reads(#[trigger] ops@[j]).contains(name@) by {
                    assert(!texts(inputs@[j]@).contains(name@));
                }
            }
        }
        if !later && !same(name, "logits") && !listed(&out, name) {
            out.push(name.clone());
            assert(texts(out@) =~= texts(before).push(name@));
        }
        assert forall|n: Text| #[trigger] texts(out@).contains(n) <==> (next.contains(n) && dropped(
            ops@,
            i as int,
            n,
        )) by {
            lemma_push_contains(at, name@, n);
            lemma_push_contains(texts(before), name@, n);
        }
        k += 1;
    }
    assert(all.take(k as int) =~= all);
    out
}

proof fn lemma_push_contains(s: Seq<Text>, x: Text, n: Text)
    ensures
        s.push(x).contains(n) <==> (s.contains(n) || n == x),
{
    if s.contains(n) {
        let k = choose|k: int| 0 <= k < s.len() && s[k] == n;
        assert(s.push(x)[k] == n);
    }
    if n == x {
        assert(s.push(x)[s.len() as int] == n);
    }
    if s.push(x).contains(n) && n != x {
        let k = choose|k: int| 0 <= k < s.push(x).len() && s.push(x)[k] == n;
        assert(s[k] == n);
    }
}

/// For each operator of a graph, the activations that no later one reads and
/// that are dropped once it has run. The logits are never dropped.
pub fn evictions(graph: &ComputeGraph) -> (out: Vec<Vec<String>>)
    ensures
        out@.len() == graph@.len(),
        forall|i: int, name: Text|
            0 <= i < out@.len() ==> (#[trigger] texts(out@[i]@).contains(name) <==> dropped(
                graph@,
                i,
                name,
            )),
        forall|i: int| 0 <= i < out@.len() ==> texts((#[trigger] out@[i])@).no_duplicates(),
{
    let mut inputs: Vec<Vec<String>> = Vec::new();
    let mut i: usize = 0;
    while i < graph.ops.len()
        invariant
            i <= graph.ops@.len(),
            inputs@.len() == i,
            forall|k: int| 0 <= k < i ==> texts(#[trigger] inputs@[k]@) == reads(graph@[k]),
        decreases graph.ops@.len() - i,
    {
        assert(graph@[i as int] == graph.ops@[i as int]@);
        inputs.push(op_inputs(&graph.ops[i]));
        i += 1;
    }
    let mut out: Vec<Vec<String>> = Vec::new();
    let mut i: usize = 0;
    while i < inputs.len()
        invariant
            i <= inputs@.len(),
            inputs@.len() == graph@.len(),
            out@.len() == i,
            forall|k: int| 0 <= k < graph@.len() ==> texts(#[trigger] inputs@[k]@) == reads(graph@[k]),
            forall|k: int, name: Text|
                0 <= k < i ==> (#[trigger] texts(out@[k]@).contains(name) <==> dropped(
                    graph@,
                    k,
                    name,
                )),
            forall|k: int| 0 <= k < i ==> texts((#[trigger] out@[k])@).no_duplicates(),
        decreases inputs@.len() - i,
    {
        let names = drops_after(&inputs, i, Ghost(graph@));
        let ghost before = out@;
        out.push(names);
        assert forall|k: int, name: Text| 0 <= k < i + 1 implies (#[trigger] texts(
            out@[k]@,
        ).contains(name) <==> dropped(graph@, k, name)) by {
            if k < i {
                assert(out@[k] == before[k]);
                assert(texts(before[k]@).contains(name) <==> dropped(graph@, k, name));
            } else {
                assert(out@[k] == names);
            }
        }
        i += 1;
    }
    out
}

/// The activations at hand before operator `n` runs, when each operator adds
/// what it writes and then drops what is not read again.
pub open spec fn live(ops: Seq<Operator<Text>>, at_hand: Set<Text>, n: nat) -> Set<Text>
    decreases n,
{
    if n == 0 {
        at_hand
    } else {
        live(ops, at_hand, (n - 1) as nat).union(writes(ops[n - 1]).to_set()).difference(
            Set::new(|name: Text| dropped(ops, n - 1, name)),
        )
    }
}

proof fn lemma_stays_live(ops: Seq<Operator<Text>>, at_hand: Set<Text>, n: nat, name: Text)
    requires
        n <= ops.len(),
        at_hand.union(written(ops.take(n as int))).contains(name),
        name == "logits"@ || exists|j: int| n <= j < ops.len() && reads(#[trigger] ops[j]).contains(name),
    ensures
        live(ops, at_hand, n).contains(name),
    decreases n,
{
    if n == 0 {
        assert(ops.take(0) =~= Seq::empty());
    } else {
        let front = ops.take(n as int);
        assert(front.drop_last() =~= ops.take(n - 1));
        assert(front.last() == ops[n - 1]);
        if at_hand.union(written(ops.take(n - 1))).contains(name) {
            lemma_stays_live(ops, at_hand, (n - 1) as nat, name);
        }
        if name != "logits"@ {
            let j = choose|j: int| n <= j < ops.len() && reads(#[trigger] ops[j]).contains(name);
            assert(!dropped(ops, n - 1, name));
        }
    }
}

proof fn lemma_flows_prefix(ops: Seq<Operator<Text>>, at_hand: Set<Text>, n: int)
    requires
        flows(ops, at_hand),
        0 <= n <= ops.len(),
    ensures
        flows(ops.take(n), at_hand),
    decreases ops.len(),
{
    if n == ops.len() {
        assert(ops.take(n) =~= ops);
    } else {
        lemma_flows_prefix(ops.drop_last(), at_hand, n);
        assert(ops.drop_last().take(n) =~= ops.take(n));
    }
}

/// Dropping activations as soon as nothing reads them again never takes one
/// away from an operator that reads it, and leaves the logits.
pub proof fn law_eviction_is_safe(ops: Seq<Operator<Text>>, at_hand: Set<Text>, i: int)
    requires
        flows(ops, at_hand),
        0 <= i < ops.len(),
    ensures
        reads(ops[i]).to_set().subset_of(live(ops, at_hand, i as nat)),
        written(ops).contains("logits"@) ==> live(ops, at_hand, ops.len()).contains("logits"@),
{
    lemma_flows_prefix(ops, at_hand, i + 1);
    let front = ops.take(i + 1);
    assert(front.drop_last() =~= ops.take(i));
    assert(front.last() == ops[i]);
    assert forall|name: Text| #[trigger] reads(ops[i]).to_set().contains(name) implies live(
        ops,
        at_hand,
        i as nat,
    ).contains(name) by {
        assert(at_hand.union(written(ops.take(i))).contains(name));
        assert(reads(ops[i]).contains(name));
        lemma_stays_live(ops, at_hand, i as nat, name);
    }
    assert(ops.take(ops.len() as int) =~= ops);
    if written(ops).contains("logits"@) {
        lemma_stays_live(ops, at_hand, ops.len(), "logits"@);
    }
}

/// A pass over the graph of a model never misses an activation: what operator
/// `i` reads is at hand when it runs, although what is not read again was
/// dropped; and the logits are there at the end.
pub proof fn law_graph_runs(meta: Meta, group: TensorGroupMap, i: int)
    requires
        0 <= i < graph_ops(meta, group).len(),
    ensures
        ({
            let ops = graph_ops(meta, group);
            let given = set!["input_ids"@, "pixel_values"@];
            &&& reads(ops[i]).to_set().subset_of(live(ops, given, i as nat))
            &&& live(ops, given, ops.len()).contains("logits"@)
        }),
{
    let ops = graph_ops(meta, group);
    law_graph_flows(meta, group);
    assert(writes(ops.last())[0] == "logits"@);
    assert(writes(ops.last()).contains("logits"@));
    assert(ops =~= ops.drop_last().push(ops.last()));
    law_eviction_is_safe(ops, set!["input_ids"@, "pixel_values"@], i);
}

/// Both paths are there and equal.
pub open spec fn same_path(a: Option<Text>, b: Option<Text>) -> bool {
    a is Some && a == b
}

fn paths_agree(a: &Option<String>, b: &Option<String>) -> (r: bool)
    ensures
        r == same_path(text_opt(*a), text_opt(*b)),
{
    match (a, b) {
        (Some(a), Some(b)) => same(a, b),
        _ => false,
    }
}

/// Whether an input file has to be read: not where the file asked for is the
/// one that was read last and its contents are still at hand.
pub fn needs_load(active: &Option<String>, last: &Option<String>, cached: bool) -> (b: bool)
    ensures
        b == !(same_path(text_opt(*active), text_opt(*last)) && cached),
{
    !(paths_agree(active, last) && cached)
}

/// Where the embedding of an image or of a recording comes from.
#[derive(Debug, Clone, Copy, PartialEq, Eq, Structural)]
pub enum EmbedSource {
    /// No file was given: a single zero vector, which is never spliced in.
    Dummy,
    /// The encoder runs.
    Encode,
    /// What the encoder made of the same file before, or what was put there.
    Cached,
    /// There is no encoder and nothing was put there.
    Missing,
}

/// The embedding's source, by the file asked for, the file encoded last,
/// whether there is an encoder and whether an embedding is at hand.
pub open spec fn embed_source(
    active: Option<Text>,
    last: Option<Text>,
    encoder: bool,
    cached: bool,
) -> EmbedSource {
    if active is None {
        EmbedSource::Dummy
    } else if encoder {
        if same_path(active, last) && cached {
            EmbedSource::Cached
        } else {
            EmbedSource::Encode
        }
    } else if cached {
        EmbedSource::Cached
    } else {
        EmbedSource::Missing
    }
}

/// Where the image embedding comes from.
pub fn visual_source(
    active: &Option<String>,
    last: &Option<String>,
    encoder: bool,
    cached: bool,
) -> (s: EmbedSource)
    ensures
        s == embed_source(text_opt(*active), text_opt(*last), encoder, cached),
{
    if active.is_none() {
        EmbedSource::Dummy
    } else if encoder {
        if paths_agree(active, last) && cached {
            EmbedSource::Cached
        } else {
            EmbedSource::Encode
        }
    } else if cached {
        EmbedSource::Cached
    } else {
        EmbedSource::Missing
    }
}

/// Where the audio embedding comes from. A model without an encoder passes the
/// text on as it is.
pub fn audio_source(
    active: &Option<String>,
    last: &Option<String>,
    encoder: bool,
    cached: bool,
) -> (s: EmbedSource)
    ensures
        ({
            let found = embed_source(text_opt(*active), text_opt(*last), encoder, cached);
            s == if found == EmbedSource::Missing {
                EmbedSource::Dummy
            } else {
                found
            }
        }),
{
    match visual_source(active, last, encoder, cached) {
        EmbedSource::Missing => EmbedSource::Dummy,
        s => s,
    }
}

/// The number of set flags before `i`.
pub open spec fn flags_before(flags: Seq<bool>, i: int) -> int
    decreases i,
{
    if i <= 0 || i > flags.len() {
        0
    } else {
        flags_before(flags, i - 1) + (if flags[i - 1] {
            1int
        } else {
            0
        })
    }
}

/// Which of the deep-stack features is fused in after `layer`: as many come
/// before it as earlier layers have one. None where the layer has none.
pub fn deepstack_slot(flags: &Option<Vec<bool>>, layer: usize) -> (r: Option<usize>)
    ensures
        match r {
            Some(k) => flags matches Some(f) && layer < f@.len() && f@[layer as int] && k
                == flags_before(f@, layer as int),
            None => flags matches Some(f) ==> !(layer < f@.len() && f@[layer as int]),
        },
{
    let f = match flags {
        Some(f) => f,
        None => return None,
    };
    if layer >= f.len() || !f[layer] {
        return None;
    }
    let mut count: usize = 0;
    let mut i: usize = 0;
    while i < layer
        invariant
            i <= layer < f@.len(),
            count == flags_before(f@, i as int),
            count <= i,
        decreases layer - i,
    {
        if f[i] {
            count += 1;
        }
        i += 1;
    }
    Some(count)
}

/// Image features go into the text only where an image was given or put there.
pub fn splices_image(active: bool, preloaded: bool) -> (b: bool)
    ensures
        b == (active || preloaded),
{
    active || preloaded
}

/// Encoded vectors wider than the text's are cut to its width.
pub fn spliced_width(encoded: usize, text: usize) -> (w: usize)
    ensures
        w == if encoded > text {
            text
        } else {
            encoded
        },
{
    if encoded > text {
        text
    } else {
        encoded
    }
}

/// A weight that is stored with one row per output is transposed for the
/// product with vectors of `last_dim`.
pub fn transposes(last_dim: usize, shape: &[usize]) -> (b: bool)
    ensures
        b == (shape@.len() == 2 && shape@[1] == last_dim),
{
    shape.len() == 2 && shape[1] == last_dim
}

/// Query heads, key heads, and how often each key head is repeated.
pub fn head_counts(q_dim: usize, k_dim: usize, head_dim: usize) -> (r: (usize, usize, usize))
    requires
        0 < head_dim <= k_dim,
    ensures
        r.0 == q_dim / head_dim,
        r.1 == k_dim / head_dim,
        r.2 == r.0 / r.1,
        r.1 > 0,
{
    let heads: usize = q_dim / head_dim;
    let kv: usize = k_dim / head_dim;
    assert(k_dim / head_dim >= 1) by (nonlinear_arith)
        requires
            0 < head_dim <= k_dim,
    ;
    (heads, kv, heads / kv)
}

/// The boundaries of a batch do not fall.
pub open spec fn rising(bounds: Seq<u32>) -> bool {
    forall|i: int, j: int| 0 <= i <= j < bounds.len() ==> bounds[i] <= bounds[j]
}

/// The lengths after the first `n` sequences of a batch were processed.
pub open spec fn lengths_after(
    lengths: Map<SeqId, usize>,
    ids: Seq<SeqId>,
    bounds: Seq<u32>,
    n: nat,
) -> Map<SeqId, usize>
    decreases n,
{
    if n == 0 {
        lengths
    } else {
        let before = lengths_after(lengths, ids, bounds, (n - 1) as nat);
        before.insert(
            ids[n - 1],
            (length_of(before, ids[n - 1]) + (bounds[n as int] - bounds[n - 1])) as usize,
        )
    }
}

/// The lengths fit.
pub open spec fn lengths_fit(
    lengths: Map<SeqId, usize>,
    ids: Seq<SeqId>,
    bounds: Seq<u32>,
) -> bool {
    forall|n: nat|
        n < ids.len() ==> length_of(#[trigger] lengths_after(lengths, ids, bounds, n), ids[n as int])
            + (bounds[n as int + 1] - bounds[n as int]) <= usize::MAX
}

/// Lengthens every sequence of the batch by the tokens that were processed.
pub fn advance_lengths(cache: &mut RawKvCache, batch: &BatchInput)
    requires
        batch.cu_seqlens@.len() == batch.seq_ids@.len() + 1,
        rising(batch.cu_seqlens@),
        lengths_fit(old(cache)@, batch.seq_ids@, batch.cu_seqlens@),
    ensures
        final(cache)@ == lengths_after(
            old(cache)@,
            batch.seq_ids@,
            batch.cu_seqlens@,
            batch.seq_ids@.len(),
        ),
{
    let ghost before = cache@;
    let mut i: usize = 0;
    while i < batch.seq_ids.len()
        invariant
            i <= batch.seq_ids@.len(),
            batch.cu_seqlens@.len() == batch.seq_ids@.len() + 1,
            rising(batch.cu_seqlens@),
            lengths_fit(before, batch.seq_ids@, batch.cu_seqlens@),
            cache@ == lengths_after(before, batch.seq_ids@, batch.cu_seqlens@, i as nat),
        decreases batch.seq_ids@.len() - i,
    {
        let ghost now = lengths_after(before, batch.seq_ids@, batch.cu_seqlens@, i as nat);
        let ghost bounds = batch.cu_seqlens@;
        assert(bounds[i as int] <= bounds[i + 1]);
        let id = batch.seq_ids[i];
        let count: usize = (batch.cu_seqlens[i + 1] - batch.cu_seqlens[i]) as usize;
        let len = cache.get_seq_len(id);
        assert(length_of(now, batch.seq_ids@[i as int]) + (bounds[i as nat as int + 1] - bounds[i as int])
            <= usize::MAX);
        cache.set_seq_len(id, len + count);
        i += 1;
    }
}

/// The first sequence without tokens.
pub open spec fn first_empty(bounds: Seq<u32>, n: nat) -> Option<int>
    decreases n,
{
    if n == 0 {
        None
    } else {
        match first_empty(bounds, (n - 1) as nat) {
            Some(i) => Some(i),
            None => if bounds[n as int] == bounds[n - 1] {
                Some(n - 1)
            } else {
                None
            },
        }
    }
}

proof fn lemma_first_empty_stays(bounds: Seq<u32>, n: nat, m: nat)
    requires
        n <= m,
        first_empty(bounds, n) is Some,
    ensures
        first_empty(bounds, m) == first_empty(bounds, n),
    decreases m,
{
    if n < m {
        lemma_first_empty_stays(bounds, n, (m - 1) as nat);
    }
}

/// For each sequence, where its last token stands among all tokens: the logits
/// there predict the next one.
pub fn last_tokens(batch: &BatchInput) -> (r: Result<Vec<usize>, BatchError>)
    requires
        batch.cu_seqlens@.len() == batch.seq_ids@.len() + 1,
        rising(batch.cu_seqlens@),
    ensures
        match r {
            Ok(at) => first_empty(batch.cu_seqlens@, batch.seq_ids@.len()) is None && at@.len()
                == batch.seq_ids@.len() && forall|i: int|
                0 <= i < at@.len() ==> #[trigger] at@[i] == batch.cu_seqlens@[i + 1] - 1,
            Err(e) => first_empty(batch.cu_seqlens@, batch.seq_ids@.len()) matches Some(i) && e
                == (BatchError::NoTokens {
                sequence: i as usize,
                from: batch.cu_seqlens@[i],
                to: batch.cu_seqlens@[i + 1],
            }),
        },
{
    let mut at: Vec<usize> = Vec::new();
    let mut i: usize = 0;
    while i < batch.seq_ids.len()
        invariant
            i <= batch.seq_ids@.len(),
            batch.cu_seqlens@.len() == batch.seq_ids@.len() + 1,
            rising(batch.cu_seqlens@),
            first_empty(batch.cu_seqlens@, i as nat) is None,
            at@.len() == i,
            forall|k: int| 0 <= k < i ==> #[trigger] at@[k] == batch.cu_seqlens@[k + 1] - 1,
        decreases batch.seq_ids@.len() - i,
    {
        let ghost bounds = batch.cu_seqlens@;
        assert(bounds[i as int] <= bounds[i + 1]);
        let from = batch.cu_seqlens[i];
        let to = batch.cu_seqlens[i + 1];
        if to == from {
            proof {
                lemma_first_empty_stays(bounds, (i + 1) as nat, batch.seq_ids@.len());
            }
            return Err(BatchError::NoTokens { sequence: i, from, to });
        }
        at.push(to as usize - 1);
        i += 1;
    }
    Ok(at)
}

/// The next token of each sequence: the first of its greatest logits, given by
/// their bits.
pub fn next_tokens(logits: &Vec<Vec<u32>>) -> (out: Vec<u32>)
    requires
        forall|i: int|
            0 <= i < logits@.len() ==> 0 < (#[trigger] logits@[i])@.len() <= u32::MAX,
    ensures
        out@.len() == logits@.len(),
        forall|i: int|
            0 <= i < out@.len() ==> is_peak(logits@[i]@, (#[trigger] out@[i]) as int),
{
    let mut out: Vec<u32> = Vec::new();
    let mut i: usize = 0;
    while i < logits.len()
        invariant
            i <= logits@.len(),
            out@.len() == i,
            forall|k: int|
                0 <= k < logits@.len() ==> 0 < (#[trigger] logits@[k])@.len() <= u32::MAX,
            forall|k: int| 0 <= k < i ==> is_peak(logits@[k]@, (#[trigger] out@[k]) as int),
        decreases logits@.len() - i,
    {
        let row = &logits[i];
        assert(0 < logits@[i as int]@.len() <= u32::MAX);
        let best = argmax(row);
        out.push(best as u32);
        i += 1;
    }
    out
}

/// What the names stand for once the first `n` operators were run, where
/// activations are dropped as soon as nothing reads them again.
pub open spec fn frugal(
    ops: Seq<Operator<Text>>,
    env: Map<Text, Term<Text>>,
    n: nat,
) -> Map<Text, Term<Text>>
    decreases n,
{
    if n == 0 {
        env
    } else {
        step(frugal(ops, env, (n - 1) as nat), ops[n - 1]).remove_keys(
            Set::new(|name: Text| dropped(ops, n - 1, name)),
        )
    }
}

proof fn lemma_frugal_agrees(
    ops: Seq<Operator<Text>>,
    env: Map<Text, Term<Text>>,
    n: nat,
    name: Text,
)
    requires
        flows(ops, env.dom()),
        n <= ops.len(),
        env.dom().union(written(ops.take(n as int))).contains(name),
        name == "logits"@ || exists|j: int| n <= j < ops.len() && reads(#[trigger] ops[j]).contains(name),
    ensures
        frugal(ops, env, n).contains_key(name),
        frugal(ops, env, n)[name] == run(ops.take(n as int), env)[name],
    decreases n,
{
    if n == 0 {
        assert(ops.take(0) =~= Seq::empty());
    } else {
        let front = ops.take(n as int);
        let last = (n - 1) as nat;
        let op = ops[n - 1];
        assert(front.drop_last() =~= ops.take(n - 1));
        assert(front.last() == op);
        let a = frugal(ops, env, last);
        let b = run(ops.take(n - 1), env);
        lemma_flows_prefix(ops, env.dom(), n as int);
        assert forall|i: int| 0 <= i < reads(op).len() implies a[#[trigger] reads(op)[i]]
            == b[reads(op)[i]] by {
            let r = reads(op)[i];
            assert(reads(op).contains(r));
            assert(reads(op).to_set().contains(r));
            assert(reads(ops[n - 1]).contains(r));
            lemma_frugal_agrees(ops, env, last, r);
        }
        law_operator_reads_and_writes(a, b, op, name);
        assert(agree(b, b, reads(op)));
        law_operator_reads_and_writes(b, b, op, name);
        if name != "logits"@ {
            let j = choose|j: int| n <= j < ops.len() && reads(#[trigger] ops[j]).contains(name);
            assert(!dropped(ops, n - 1, name));
        }
        if !writes(op).contains(name) {
            assert(env.dom().union(written(ops.take(n - 1))).contains(name));
            if name != "logits"@ {
                let j = choose|j: int| n <= j < ops.len() && reads(#[trigger] ops[j]).contains(name);
                assert(last <= j && reads(ops[j]).contains(name));
            }
            lemma_frugal_agrees(ops, env, last, name);
        }
    }
}

/// Dropping activations does not change what a graph computes: its logits are
/// the same as if everything had been kept.
pub proof fn law_eviction_keeps_logits(ops: Seq<Operator<Text>>, env: Map<Text, Term<Text>>)
    requires
        flows(ops, env.dom()),
        written(ops).contains("logits"@),
    ensures
        frugal(ops, env, ops.len()).contains_key("logits"@),
        frugal(ops, env, ops.len())["logits"@] == run(ops, env)["logits"@],
{
    assert(ops.take(ops.len() as int) =~= ops);
    lemma_frugal_agrees(ops, env, ops.len(), "logits"@);
}

/// A batch is taken if and only if it has sequences, one boundary more than
/// these, and the last boundary behind its last token; otherwise the first of
/// these that fails is told, with its numbers.
pub proof fn law_batches(sequences: usize, bounds: Seq<u32>, tokens: usize)
    requires
        bounds.len() <= usize::MAX,
    ensures
        ({
            let problem = batch_problem(sequences as nat, bounds, tokens as nat);
            &&& problem is None && tokens <= u32::MAX ==> sequences > 0 && bounds.len() == sequences
                + 1 && bounds[sequences as int] == tokens
            &&& sequences > 0 && bounds.len() == sequences + 1 && bounds[sequences as int] == tokens
                ==> problem is None
            &&& sequences == 0 ==> problem == Some(BatchError::Empty)
            &&& sequences > 0 && bounds.len() != sequences + 1 ==> problem == Some(
                BatchError::WrongBoundaries { boundaries: bounds.len() as usize, sequences },
            )
            &&& sequences > 0 && bounds.len() == sequences + 1 && tokens <= u32::MAX
                && bounds[sequences as int] != tokens ==> problem == Some(
                BatchError::WrongTotal { last: Some(bounds[sequences as int]), tokens },
            )
        }),
{
}

/// What a refused batch is reported with.
pub proof fn law_reports(a: usize, b: usize, last: u32, from: u32, to: u32)
    requires
        a < usize::MAX,
    ensures
        batch_message(BatchError::Empty) == "empty batch: seq_ids is empty"@,
        batch_message(BatchError::WrongBoundaries { boundaries: a, sequences: b })
            == "forward_pass: cu_seqlens length "@ + dec(a as nat)
            + " does not match seq_ids length "@ + dec(b as nat) + " + 1"@,
        batch_message(BatchError::WrongTotal { last: Some(last), tokens: b })
            == "forward_pass: cu_seqlens last entry ("@ + ("Some("@ + dec(last as nat) + ")"@)
            + ") does not match total token count ("@ + dec(b as nat) + ")"@,
        batch_message(BatchError::WrongTotal { last: None, tokens: b })
            == "forward_pass: cu_seqlens last entry ("@ + "None"@
            + ") does not match total token count ("@ + dec(b as nat) + ")"@,
        batch_message(BatchError::NoTokens { sequence: a, from, to })
            == "forward_pass: sequence at batch index "@ + dec(a as nat)
            + " has zero tokens (cu_seqlens["@ + dec(a as nat) + "]="@ + dec(from as nat)
            + ", cu_seqlens["@ + dec((a + 1) as nat) + "]="@ + dec(to as nat)
            + ") — cannot extract next-token logits"@,
{
}

/// An embedding is made anew unless the same file was encoded last; without a
/// file there is none, and without an encoder only what was put there.
pub proof fn law_embedding_source(
    active: Option<Text>,
    last: Option<Text>,
    encoder: bool,
    cached: bool,
)
    ensures
        embed_source(active, last, encoder, cached) == EmbedSource::Dummy <==> active is None,
        embed_source(active, last, encoder, cached) == EmbedSource::Encode <==> active is Some
            && encoder && !(active == last && cached),
        embed_source(active, last, encoder, cached) == EmbedSource::Cached <==> active is Some
            && cached && (encoder ==> active == last),
        embed_source(active, last, encoder, cached) == EmbedSource::Missing <==> active is Some
            && !encoder && !cached,
{
}

/// The features of deep-stack layers are taken in the order of the layers,
/// each once, from the first on.
pub proof fn law_features_in_order(flags: Seq<bool>, i: int, j: int)
    requires
        0 <= i <= j < flags.len(),
    ensures
        0 <= flags_before(flags, i) <= i,
        flags_before(flags, 0) == 0,
        flags[i] ==> flags_before(flags, i + 1) == flags_before(flags, i) + 1,
        !flags[i] ==> flags_before(flags, i + 1) == flags_before(flags, i),
        flags_before(flags, i) <= flags_before(flags, j),
        i < j && flags[i] ==> flags_before(flags, i) < flags_before(flags, j),
    decreases j,
{
    if i > 0 {
        law_features_in_order(flags, i - 1, i - 1);
    }
    if i < j {
        law_features_in_order(flags, i, j - 1);
    }
}

/// A sequence grows by its own tokens: where each stands once in a batch, it
/// grows by what stands between its boundaries. A sequence that is not in the
/// batch keeps its length.
pub proof fn law_lengths_grow(
    lengths: Map<SeqId, usize>,
    ids: Seq<SeqId>,
    bounds: Seq<u32>,
    n: nat,
    i: int,
    other: SeqId,
)
    requires
        n <= ids.len(),
        bounds.len() == ids.len() + 1,
        rising(bounds),
        lengths_fit(lengths, ids, bounds),
        ids.no_duplicates(),
        0 <= i < ids.len(),
    ensures
        i < n ==> length_of(lengths_after(lengths, ids, bounds, n), ids[i]) == length_of(
            lengths,
            ids[i],
        ) + (bounds[i + 1] - bounds[i]),
        i >= n ==> length_of(lengths_after(lengths, ids, bounds, n), ids[i]) == length_of(
            lengths,
            ids[i],
        ),
        !ids.contains(other) ==> length_of(lengths_after(lengths, ids, bounds, n), other)
            == length_of(lengths, other),
    decreases n,
{
    if n > 0 {
        let m = (n - 1) as nat;
        law_lengths_grow(lengths, ids, bounds, m, i, other);
        let before = lengths_after(lengths, ids, bounds, m);
        assert(length_of(before, ids[m as int]) + (bounds[m as int + 1] - bounds[m as int])
            <= usize::MAX);
        assert(bounds[m as int] <= bounds[m as int + 1]);
        if i != m {
            assert(ids[i] != ids[m as int]);
        }
        assert(ids.contains(ids[m as int]));
    }
}

/// The sequence that is told of is the first without tokens.
pub proof fn law_first_empty(bounds: Seq<u32>, n: nat)
    requires
        n < bounds.len(),
    ensures
        match first_empty(bounds, n) {
            Some(i) => 0 <= i < n && bounds[i] == bounds[i + 1] && forall|j: int|
                #![trigger bounds[j]]
                0 <= j < i ==> bounds[j] != bounds[j + 1],
            None => forall|j: int| #![trigger bounds[j]] 0 <= j < n ==> bounds[j] != bounds[j + 1],
        },
    decreases n,
{
    if n > 0 {
        law_first_empty(bounds, (n - 1) as nat);
    }
}

/// An activation is dropped behind the last operator that reads it, and only
/// there; the logits never are.
pub proof fn law_dropped_behind_last_read(ops: Seq<Operator<Text>>, i: int, j: int, name: Text)
    ensures
        dropped(ops, i, name) && dropped(ops, j, name) ==> i == j,
        dropped(ops, i, name) ==> 0 <= i < ops.len() && reads(ops[i]).contains(name),
        dropped(ops, i, name) && i < j < ops.len() ==> !reads(ops[j]).contains(name),
        !dropped(ops, i, "logits"@),
        0 <= i < ops.len() && reads(ops[i]).contains(name) && name != "logits"@ && (forall|k: int|
            i < k < ops.len() ==> !reads(#[trigger] ops[k]).contains(name)) ==> dropped(ops, i, name),
{
}

/// A pass over the graph of a model that drops activations on the way computes
/// the model's formula.
pub proof fn law_pass_computes_decoder(meta: Meta, group: TensorGroupMap)
    ensures
        ({
            let ops = graph_ops(meta, group);
            frugal(ops, at_start(), ops.len())["logits"@] == logits_term(meta, group)
        }),
{
    let ops = graph_ops(meta, group);
    law_graph_flows(meta, group);
    assert(at_start().dom() =~= set!["input_ids"@, "pixel_values"@]);
    assert(writes(ops.last())[0] == "logits"@);
    assert(writes(ops.last()).contains("logits"@));
    assert(ops =~= ops.drop_last().push(ops.last()));
    law_eviction_keeps_logits(ops, at_start());
    law_graph_computes_decoder(meta, group);
}

} // verus!
