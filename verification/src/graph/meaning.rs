//! What a compute graph computes, as one formula over its inputs and weights.
use vstd::prelude::*;
use crate::graph::ops::{reads, writes, Operator};
use crate::text::Text;
use crate::types::{HiddenAct, Real};

verus! {

/// A formula. Weights are known by name; `S` is how a name is held.
pub enum Term<S> {
    /// What is at hand at the start.
    Given(S),
    /// Rows of a table.
    Looked { ids: Box<Term<S>>, table: S },
    /// An image, embedded.
    Seen { pixels: Box<Term<S>> },
    /// A recording, embedded.
    Heard { sound: Box<Term<S>> },
    /// Embeddings of an image or a recording among those of a text.
    Spliced { text: Box<Term<S>>, media: Box<Term<S>> },
    Normed { x: Box<Term<S>>, weight: S, eps: Real },
    /// The product with a weight, and a bias added.
    Times { x: Box<Term<S>>, weight: S, bias: Option<S> },
    /// Turned by the position.
    Turned { x: Box<Term<S>>, layer: usize, theta: Real },
    Attended {
        q: Box<Term<S>>,
        k: Box<Term<S>>,
        v: Box<Term<S>>,
        layer: usize,
        n_heads: usize,
        n_kv_heads: usize,
        head_dim: usize,
    },
    Activated { x: Box<Term<S>>, act: HiddenAct },
    Product { a: Box<Term<S>>, b: Box<Term<S>> },
    Sum { a: Box<Term<S>>, b: Box<Term<S>> },
    /// A deep-stack result of the image added.
    Fused { x: Box<Term<S>>, image: Box<Term<S>>, layer: usize },
    Capped { x: Box<Term<S>>, cap: Real },
    Scaled { x: Box<Term<S>>, scale: Real },
    ScaledBy { x: Box<Term<S>>, weight: S },
    LayerInputs { ids: Box<Term<S>>, text: Box<Term<S>>, table: S, proj: S, norm: S },
    LayerInput {
        x: Box<Term<S>>,
        inputs: Box<Term<S>>,
        layer: usize,
        gate: S,
        proj: S,
        norm: S,
    },
}

/// What the names stand for once `op` was run.
pub open spec fn step(env: Map<Text, Term<Text>>, op: Operator<Text>) -> Map<Text, Term<Text>> {
    match op {
        Operator::Embed { input_ids, weight, output } => env.insert(
            output,
            Term::Looked { ids: Box::new(env[input_ids]), table: weight },
        ),
        Operator::RMSNorm { input, weight, output, eps } => env.insert(
            output,
            Term::Normed { x: Box::new(env[input]), weight, eps },
        ),
        Operator::MatMul { input, weight, bias, output } => env.insert(
            output,
            Term::Times { x: Box::new(env[input]), weight, bias },
        ),
        Operator::Rope { q, k, output_q, output_k, layer_idx, rope_theta } => env.insert(
            output_q,
            Term::Turned { x: Box::new(env[q]), layer: layer_idx, theta: rope_theta },
        ).insert(
            output_k,
            Term::Turned { x: Box::new(env[k]), layer: layer_idx, theta: rope_theta },
        ),
        Operator::RopeQ { q, output_q, layer_idx, rope_theta } => env.insert(
            output_q,
            Term::Turned { x: Box::new(env[q]), layer: layer_idx, theta: rope_theta },
        ),
        Operator::RopeSkip { q, k, output_q, output_k } => env.insert(output_q, env[q]).insert(
            output_k,
            env[k],
        ),
        Operator::PagedAttention {
            q,
            k,
            v,
            output,
            layer_idx,
            n_heads,
            n_kv_heads,
            head_dim,
        } => env.insert(
            output,
            Term::Attended {
                q: Box::new(env[q]),
                k: Box::new(env[k]),
                v: Box::new(env[v]),
                layer: layer_idx,
                n_heads,
                n_kv_heads,
                head_dim,
            },
        ),
        Operator::Activation { input, output, act } => env.insert(
            output,
            Term::Activated { x: Box::new(env[input]), act },
        ),
        Operator::Mul { lhs, rhs, output } => env.insert(
            output,
            Term::Product { a: Box::new(env[lhs]), b: Box::new(env[rhs]) },
        ),
        Operator::Add { lhs, rhs, output } => env.insert(
            output,
            Term::Sum { a: Box::new(env[lhs]), b: Box::new(env[rhs]) },
        ),
        Operator::VisualEmbed { pixel_values, output } => env.insert(
            output,
            Term::Seen { pixels: Box::new(env[pixel_values]) },
        ),
        Operator::SpliceTensors { text_embeds, visual_embeds, output } => env.insert(
            output,
            Term::Spliced { text: Box::new(env[text_embeds]), media: Box::new(env[visual_embeds]) },
        ),
        Operator::AudioEmbed { audio_values, output } => env.insert(
            output,
            Term::Heard { sound: Box::new(env[audio_values]) },
        ),
        Operator::SpliceAudioTensors { text_embeds, audio_embeds, output } => env.insert(
            output,
            Term::Spliced { text: Box::new(env[text_embeds]), media: Box::new(env[audio_embeds]) },
        ),
        Operator::DeepStackFuse { input, layer_idx, output } => env.insert(
            output,
            Term::Fused {
                x: Box::new(env[input]),
                image: Box::new(env["visual_embeddings"@]),
                layer: layer_idx,
            },
        ),
        Operator::Softcap { input, output, cap } => env.insert(
            output,
            Term::Capped { x: Box::new(env[input]), cap },
        ),
        Operator::Scale { input, scale, output } => env.insert(
            output,
            Term::Scaled { x: Box::new(env[input]), scale },
        ),
        Operator::TensorScale { input, scale_tensor, output } => env.insert(
            output,
            Term::ScaledBy { x: Box::new(env[input]), weight: scale_tensor },
        ),
        Operator::PleInput {
            input_ids,
            text_embeddings,
            per_layer_token_embd,
            per_layer_model_proj,
            per_layer_proj_norm,
            output,
        } => env.insert(
            output,
            Term::LayerInputs {
                ids: Box::new(env[input_ids]),
                text: Box::new(env[text_embeddings]),
                table: per_layer_token_embd,
                proj: per_layer_model_proj,
                norm: per_layer_proj_norm,
            },
        ),
        Operator::PleLayer {
            input,
            per_layer_input,
            layer_idx,
            per_layer_input_gate,
            per_layer_projection,
            post_per_layer_input_norm,
            output,
        } => env.insert(
            output,
            Term::LayerInput {
                x: Box::new(env[input]),
                inputs: Box::new(env[per_layer_input]),
                layer: layer_idx,
                gate: per_layer_input_gate,
                proj: per_layer_projection,
                norm: post_per_layer_input_norm,
            },
        ),
    }
}

/// What the names stand for once `ops` were run, one after the other.
pub open spec fn run(ops: Seq<Operator<Text>>, env: Map<Text, Term<Text>>) -> Map<Text, Term<Text>>
    decreases ops.len(),
{
    if ops.len() == 0 {
        env
    } else {
        step(run(ops.drop_last(), env), ops.last())
    }
}

/// Two lists of operators, run one after the other.
pub proof fn lemma_run_join(
    a: Seq<Operator<Text>>,
    b: Seq<Operator<Text>>,
    env: Map<Text, Term<Text>>,
)
    ensures
        run(a + b, env) == run(b, run(a, env)),
    decreases b.len(),
{
    if b.len() == 0 {
        assert(a + b =~= a);
    } else {
        assert((a + b).drop_last() =~= a + b.drop_last());
        lemma_run_join(a, b.drop_last(), env);
    }
}

/// The formula of a product with a weight.
pub open spec fn times(x: Term<Text>, weight: Text, bias: Option<Text>) -> Term<Text> {
    Term::Times { x: Box::new(x), weight, bias }
}

/// The formula of a norm.
pub open spec fn norm(x: Term<Text>, weight: Text, eps: Real) -> Term<Text> {
    Term::Normed { x: Box::new(x), weight, eps }
}

/// The formula of a sum.
pub open spec fn sum(a: Term<Text>, b: Term<Text>) -> Term<Text> {
    Term::Sum { a: Box::new(a), b: Box::new(b) }
}

/// The two tables say the same of every name in the list.
pub open spec fn agree(
    a: Map<Text, Term<Text>>,
    b: Map<Text, Term<Text>>,
    names: Seq<Text>,
) -> bool {
    forall|i: int| 0 <= i < names.len() ==> a[#[trigger] names[i]] == b[names[i]]
}

/// What an operator computes depends on nothing but what it reads, it comes
/// out under what the operator writes, and every other name keeps its meaning.
pub proof fn law_operator_reads_and_writes(
    a: Map<Text, Term<Text>>,
    b: Map<Text, Term<Text>>,
    op: Operator<Text>,
    name: Text,
)
    requires
        agree(a, b, reads(op)),
    ensures
        step(a, op).contains_key(name) <==> a.contains_key(name) || writes(op).contains(name),
        writes(op).contains(name) ==> step(a, op)[name] == step(b, op)[name],
        !writes(op).contains(name) ==> step(a, op)[name] == a[name],
{
    let r = reads(op);
    let w = writes(op);
    assert(r.len() >= 1 && a[r[0]] == b[r[0]]);
    if r.len() >= 2 {
        assert(a[r[1]] == b[r[1]]);
    }
    if r.len() >= 3 {
        assert(a[r[2]] == b[r[2]]);
    }
    assert(w.contains(w[0]));
    if w.len() >= 2 {
        assert(w.contains(w[1]));
    }
}

} // verus!
