//! The decoder's compute graph, from a model's metadata and its tensors.
use vstd::prelude::*;
use crate::graph::meaning::{lemma_run_join, norm, run, step, sum, times, Term};
use crate::graph::ops::{reads, writes, ComputeGraph, Operator};
use crate::graph::scan::{layer_name, layers_view, name_in_layer, LayerTensors, TensorGroupMap};
use crate::text::{
    begins, cut, dec, decimal, join2, law_decimal_reads_back, lemma_cut, lemma_dec_digits, Text,
};
use crate::types::{text_opt, ModelMeta, Real, EPS_QK_NORM};

verus! {

/// A model's metadata, as contracts speak of it.
pub type Meta = ModelMeta<Text, Seq<bool>>;

/// The name of an intermediate result of layer `layer`.
pub open spec fn act_name(layer: usize, what: Text) -> Text {
    "layer_"@ + dec(layer as nat) + "_"@ + what
}

/// The tensor that was found, or the name that it would have.
pub open spec fn or_named(found: Option<Text>, layer: usize, suffix: Text) -> Text {
    match found {
        Some(name) => name,
        None => layer_name(layer as nat, suffix),
    }
}

/// Whether flag `i` is set; flags beyond the list are not.
pub open spec fn flag(flags: Seq<bool>, i: usize) -> bool {
    i < flags.len() && flags[i as int]
}

/// A deep-stack result is fused in after layer `layer`.
pub open spec fn fuses(meta: Meta, layer: usize) -> bool {
    meta.has_vision_encoder && (match meta.is_deepstack_layers {
        Some(flags) => flag(flags, layer),
        None => false,
    })
}

/// The token table's name.
pub open spec fn embed_weight(embed_tokens: Option<Text>) -> Text {
    match embed_tokens {
        Some(name) => name,
        None => "model.embed_tokens.weight"@,
    }
}

/// Embeds the tokens, and the image where the model sees.
pub open spec fn entry_ops(meta: Meta, embed: Text) -> Seq<Operator<Text>> {
    let tokens = Operator::Embed {
        input_ids: "input_ids"@,
        weight: embed,
        output: "text_embeddings"@,
    };
    if meta.has_vision_encoder {
        seq![
            tokens,
            Operator::VisualEmbed { pixel_values: "pixel_values"@, output: "visual_embeddings"@ },
            Operator::SpliceTensors {
                text_embeds: "text_embeddings"@,
                visual_embeds: "visual_embeddings"@,
                output: "spliced_embeddings"@,
            },
        ]
    } else {
        seq![tokens]
    }
}

/// What the first layer reads.
pub open spec fn entry_output(meta: Meta) -> Text {
    if meta.has_vision_encoder {
        "spliced_embeddings"@
    } else {
        "text_embeddings"@
    }
}

/// Normalises the layer's input and projects it to queries, keys and values.
pub open spec fn projection_ops(meta: Meta, l: LayerTensors<Text>, input: Text) -> Seq<
    Operator<Text>,
> {
    let i = l.index;
    let normed = act_name(i, "pre_norm"@);
    seq![
        Operator::RMSNorm {
            input,
            weight: or_named(l.input_layernorm, i, "input_layernorm.weight"@),
            output: normed,
            eps: meta.rms_norm_eps,
        },
        Operator::MatMul {
            input: normed,
            weight: or_named(l.q_proj, i, "self_attn.q_proj.weight"@),
            bias: l.q_bias,
            output: act_name(i, "q_proj"@),
        },
        Operator::MatMul {
            input: normed,
            weight: or_named(l.k_proj, i, "self_attn.k_proj.weight"@),
            bias: l.k_bias,
            output: act_name(i, "k_proj"@),
        },
        Operator::MatMul {
            input: normed,
            weight: or_named(l.v_proj, i, "self_attn.v_proj.weight"@),
            bias: l.v_bias,
            output: act_name(i, "v_proj"@),
        },
    ]
}

/// Normalises `input` where the layer has a norm for it.
pub open spec fn norm_ops(norm: Option<Text>, input: Text, output: Text) -> Seq<Operator<Text>> {
    match norm {
        Some(weight) => seq![
            Operator::RMSNorm { input, weight, output, eps: Real::Single(EPS_QK_NORM) },
        ],
        None => seq![],
    }
}

/// What comes out of `norm_ops`.
pub open spec fn normed(norm: Option<Text>, input: Text, output: Text) -> Text {
    match norm {
        Some(_) => output,
        None => input,
    }
}

/// The queries of layer `l`, normalised where it has a norm for them.
pub open spec fn queries(l: LayerTensors<Text>) -> Text {
    normed(l.q_norm, act_name(l.index, "q_proj"@), act_name(l.index, "q_normed"@))
}

/// The keys of layer `l`, normalised where it has a norm for them.
pub open spec fn keys(l: LayerTensors<Text>) -> Text {
    normed(l.k_norm, act_name(l.index, "k_proj"@), act_name(l.index, "k_normed"@))
}

/// Applies the position to queries and keys, or skips it where the layer has
/// none.
pub open spec fn rope_op(meta: Meta, l: LayerTensors<Text>) -> Operator<Text> {
    let i = l.index;
    if flag(meta.no_rope_layers, i) {
        Operator::RopeSkip {
            q: queries(l),
            k: keys(l),
            output_q: act_name(i, "q_rope"@),
            output_k: act_name(i, "k_rope"@),
        }
    } else {
        Operator::Rope {
            q: queries(l),
            k: keys(l),
            output_q: act_name(i, "q_rope"@),
            output_k: act_name(i, "k_rope"@),
            layer_idx: i,
            rope_theta: meta.rope_theta,
        }
    }
}

/// Attends, projects, adds the layer's input and normalises the sum.
pub open spec fn attention_ops(meta: Meta, l: LayerTensors<Text>, input: Text) -> Seq<
    Operator<Text>,
> {
    let i = l.index;
    seq![
        Operator::PagedAttention {
            q: act_name(i, "q_rope"@),
            k: act_name(i, "k_rope"@),
            v: act_name(i, "v_proj"@),
            output: act_name(i, "attn_out"@),
            layer_idx: i,
            n_heads: meta.n_heads,
            n_kv_heads: meta.n_kv_heads,
            head_dim: meta.head_dim,
        },
        Operator::MatMul {
            input: act_name(i, "attn_out"@),
            weight: or_named(l.o_proj, i, "self_attn.o_proj.weight"@),
            bias: l.o_bias,
            output: act_name(i, "o_proj"@),
        },
        Operator::Add {
            lhs: input,
            rhs: act_name(i, "o_proj"@),
            output: act_name(i, "post_attn"@),
        },
        Operator::RMSNorm {
            input: act_name(i, "post_attn"@),
            weight: or_named(l.post_attention_layernorm, i, "post_attention_layernorm.weight"@),
            output: act_name(i, "post_norm"@),
            eps: meta.rms_norm_eps,
        },
    ]
}

/// The feed-forward part, gated where the layer has a gate.
pub open spec fn mlp_ops(meta: Meta, l: LayerTensors<Text>) -> Seq<Operator<Text>> {
    let i = l.index;
    let input = act_name(i, "post_norm"@);
    let up = Operator::MatMul {
        input,
        weight: or_named(l.up_proj, i, "mlp.up_proj.weight"@),
        bias: l.up_bias,
        output: act_name(i, "up_proj"@),
    };
    let down_weight = or_named(l.down_proj, i, "mlp.down_proj.weight"@);
    match l.gate_proj {
        Some(gate) => seq![
            Operator::MatMul {
                input,
                weight: gate,
                bias: l.gate_bias,
                output: act_name(i, "gate_proj"@),
            },
            up,
            Operator::Activation {
                input: act_name(i, "gate_proj"@),
                output: act_name(i, "act"@),
                act: meta.hidden_act,
            },
            Operator::Mul {
                lhs: act_name(i, "act"@),
                rhs: act_name(i, "up_proj"@),
                output: act_name(i, "mlp_inter"@),
            },
            Operator::MatMul {
                input: act_name(i, "mlp_inter"@),
                weight: down_weight,
                bias: l.down_bias,
                output: act_name(i, "mlp_out"@),
            },
        ],
        None => seq![
            up,
            Operator::Activation {
                input: act_name(i, "up_proj"@),
                output: act_name(i, "act"@),
                act: meta.hidden_act,
            },
            Operator::MatMul {
                input: act_name(i, "act"@),
                weight: down_weight,
                bias: l.down_bias,
                output: act_name(i, "mlp_out"@),
            },
        ],
    }
}

/// Adds the feed-forward result and fuses a deep-stack result in.
pub open spec fn exit_ops(meta: Meta, l: LayerTensors<Text>) -> Seq<Operator<Text>> {
    let i = l.index;
    let add = Operator::Add {
        lhs: act_name(i, "post_attn"@),
        rhs: act_name(i, "mlp_out"@),
        output: act_name(i, "out"@),
    };
    if fuses(meta, i) {
        seq![
            add,
            Operator::DeepStackFuse {
                input: act_name(i, "out"@),
                layer_idx: i,
                output: act_name(i, "fused"@),
            },
        ]
    } else {
        seq![add]
    }
}

/// What a layer hands on.
pub open spec fn layer_output(meta: Meta, l: LayerTensors<Text>) -> Text {
    if fuses(meta, l.index) {
        act_name(l.index, "fused"@)
    } else {
        act_name(l.index, "out"@)
    }
}

/// All operators of one layer.
pub open spec fn layer_ops(meta: Meta, l: LayerTensors<Text>, input: Text) -> Seq<Operator<Text>> {
    projection_ops(meta, l, input) + norm_ops(
        l.q_norm,
        act_name(l.index, "q_proj"@),
        act_name(l.index, "q_normed"@),
    ) + norm_ops(l.k_norm, act_name(l.index, "k_proj"@), act_name(l.index, "k_normed"@)) + seq![
        rope_op(meta, l),
    ] + attention_ops(meta, l, input) + mlp_ops(meta, l) + exit_ops(meta, l)
}

/// What stands before the next layer, after `layers`.
pub open spec fn hidden_after(meta: Meta, layers: Seq<LayerTensors<Text>>) -> Text {
    if layers.len() == 0 {
        entry_output(meta)
    } else {
        layer_output(meta, layers.last())
    }
}

/// The operators of all `layers`, each fed by the one before.
pub open spec fn stack_ops(meta: Meta, layers: Seq<LayerTensors<Text>>) -> Seq<Operator<Text>>
    decreases layers.len(),
{
    if layers.len() == 0 {
        seq![]
    } else {
        stack_ops(meta, layers.drop_last()) + layer_ops(
            meta,
            layers.last(),
            hidden_after(meta, layers.drop_last()),
        )
    }
}

/// The final norm and the projection to logits. A tied model, and one without
/// an output matrix, projects with its token table.
pub open spec fn logit_ops(
    meta: Meta,
    final_norm: Option<Text>,
    lm_head: Option<Text>,
    embed: Text,
    input: Text,
) -> Seq<Operator<Text>> {
    seq![
        Operator::RMSNorm {
            input,
            weight: match final_norm {
                Some(name) => name,
                None => "model.norm.weight"@,
            },
            output: "final_norm_out"@,
            eps: meta.rms_norm_eps,
        },
        Operator::MatMul {
            input: "final_norm_out"@,
            weight: if meta.tie_word_embeddings {
                embed
            } else {
                match lm_head {
                    Some(name) => name,
                    None => embed,
                }
            },
            bias: None,
            output: "logits"@,
        },
    ]
}

/// The whole graph.
pub open spec fn graph_ops(meta: Meta, group: TensorGroupMap) -> Seq<Operator<Text>> {
    let embed = embed_weight(text_opt(group.embed_tokens));
    let layers = layers_view(group.layers@);
    entry_ops(meta, embed) + stack_ops(meta, layers) + logit_ops(
        meta,
        text_opt(group.final_norm),
        text_opt(group.lm_head),
        embed,
        hidden_after(meta, layers),
    )
}

fn act(layer: usize, what: &str) -> (out: String)
    ensures
        out@ == act_name(layer, what@),
{
    let mut out = join2("layer_", &decimal(layer as u64));
    out.append("_");
    out.append(what);
    out
}

fn or_name(found: &Option<String>, layer: usize, suffix: &str) -> (out: String)
    ensures
        out@ == or_named(text_opt(*found), layer, suffix@),
{
    match found {
        Some(name) => name.clone(),
        None => name_in_layer(layer, suffix),
    }
}

fn copy_opt(o: &Option<String>) -> (out: Option<String>)
    ensures
        text_opt(out) == text_opt(*o),
{
    match o {
        Some(s) => Some(s.clone()),
        None => None,
    }
}

fn add_projections(graph: &mut ComputeGraph, meta: &ModelMeta, l: &LayerTensors, input: &str)
    ensures
        final(graph)@ == old(graph)@ + projection_ops(meta@, l@, input@),
{
    let ghost before = graph@;
    let i: usize = l.index;
    graph.add_op(
        Operator::RMSNorm {
            input: input.to_string(),
            weight: or_name(&l.input_layernorm, i, "input_layernorm.weight"),
            output: act(i, "pre_norm"),
            eps: meta.rms_norm_eps,
        },
    );
    graph.add_op(
        Operator::MatMul {
            input: act(i, "pre_norm"),
            weight: or_name(&l.q_proj, i, "self_attn.q_proj.weight"),
            bias: copy_opt(&l.q_bias),
            output: act(i, "q_proj"),
        },
    );
    graph.add_op(
        Operator::MatMul {
            input: act(i, "pre_norm"),
            weight: or_name(&l.k_proj, i, "self_attn.k_proj.weight"),
            bias: copy_opt(&l.k_bias),
            output: act(i, "k_proj"),
        },
    );
    graph.add_op(
        Operator::MatMul {
            input: act(i, "pre_norm"),
            weight: or_name(&l.v_proj, i, "self_attn.v_proj.weight"),
            bias: copy_opt(&l.v_bias),
            output: act(i, "v_proj"),
        },
    );
    assert(graph@ =~= before + projection_ops(meta@, l@, input@));
}

fn add_norm(
    graph: &mut ComputeGraph,
    norm: &Option<String>,
    input: String,
    output: String,
) -> (out: String)
    ensures
        final(graph)@ == old(graph)@ + norm_ops(text_opt(*norm), input@, output@),
        out@ == normed(text_opt(*norm), input@, output@),
{
    let ghost before = graph@;
    match norm {
        Some(weight) => {
            let out = output.clone();
            let ghost added = norm_ops(text_opt(*norm), input@, output@);
            graph.add_op(
                Operator::RMSNorm {
                    input,
                    weight: weight.clone(),
                    output,
                    eps: Real::Single(EPS_QK_NORM),
                },
            );
            assert(graph@ =~= before + added);
            out
        },
        None => {
            assert(graph@ =~= before + norm_ops(text_opt(*norm), input@, output@));
            input
        },
    }
}

fn has_flag(flags: &Vec<bool>, i: usize) -> (set: bool)
    ensures
        set == flag(flags@, i),
{
    i < flags.len() && flags[i]
}

fn add_rope(graph: &mut ComputeGraph, meta: &ModelMeta, l: &LayerTensors)
    ensures
        final(graph)@ == old(graph)@ + norm_ops(
            l@.q_norm,
            act_name(l@.index, "q_proj"@),
            act_name(l@.index, "q_normed"@),
        ) + norm_ops(l@.k_norm, act_name(l@.index, "k_proj"@), act_name(l@.index, "k_normed"@))
            + seq![rope_op(meta@, l@)],
{
    let i: usize = l.index;
    let q = add_norm(graph, &l.q_norm, act(i, "q_proj"), act(i, "q_normed"));
    let k = add_norm(graph, &l.k_norm, act(i, "k_proj"), act(i, "k_normed"));
    let ghost before = graph@;
    if has_flag(&meta.no_rope_layers, i) {
        graph.add_op(
            Operator::RopeSkip { q, k, output_q: act(i, "q_rope"), output_k: act(i, "k_rope") },
        );
    } else {
        graph.add_op(
            Operator::Rope {
                q,
                k,
                output_q: act(i, "q_rope"),
                output_k: act(i, "k_rope"),
                layer_idx: i,
                rope_theta: meta.rope_theta,
            },
        );
    }
    assert(graph@ =~= before + seq![rope_op(meta@, l@)]);
}

fn add_attention(graph: &mut ComputeGraph, meta: &ModelMeta, l: &LayerTensors, input: &str)
    ensures
        final(graph)@ == old(graph)@ + attention_ops(meta@, l@, input@),
{
    let ghost before = graph@;
    let i: usize = l.index;
    graph.add_op(
        Operator::PagedAttention {
            q: act(i, "q_rope"),
            k: act(i, "k_rope"),
            v: act(i, "v_proj"),
            output: act(i, "attn_out"),
            layer_idx: i,
            n_heads: meta.n_heads,
            n_kv_heads: meta.n_kv_heads,
            head_dim: meta.head_dim,
        },
    );
    graph.add_op(
        Operator::MatMul {
            input: act(i, "attn_out"),
            weight: or_name(&l.o_proj, i, "self_attn.o_proj.weight"),
            bias: copy_opt(&l.o_bias),
            output: act(i, "o_proj"),
        },
    );
    graph.add_op(
        Operator::Add {
            lhs: input.to_string(),
            rhs: act(i, "o_proj"),
            output: act(i, "post_attn"),
        },
    );
    graph.add_op(
        Operator::RMSNorm {
            input: act(i, "post_attn"),
            weight: or_name(&l.post_attention_layernorm, i, "post_attention_layernorm.weight"),
            output: act(i, "post_norm"),
            eps: meta.rms_norm_eps,
        },
    );
    assert(graph@ =~= before + attention_ops(meta@, l@, input@));
}

fn up_op(l: &LayerTensors) -> (op: Operator)
    ensures
        op@ == (Operator::MatMul {
            input: act_name(l@.index, "post_norm"@),
            weight: or_named(l@.up_proj, l@.index, "mlp.up_proj.weight"@),
            bias: l@.up_bias,
            output: act_name(l@.index, "up_proj"@),
        }),
{
    Operator::MatMul {
        input: act(l.index, "post_norm"),
        weight: or_name(&l.up_proj, l.index, "mlp.up_proj.weight"),
        bias: copy_opt(&l.up_bias),
        output: act(l.index, "up_proj"),
    }
}

fn down_op(l: &LayerTensors, input: String) -> (op: Operator)
    ensures
        op@ == (Operator::MatMul {
            input: input@,
            weight: or_named(l@.down_proj, l@.index, "mlp.down_proj.weight"@),
            bias: l@.down_bias,
            output: act_name(l@.index, "mlp_out"@),
        }),
{
    Operator::MatMul {
        input,
        weight: or_name(&l.down_proj, l.index, "mlp.down_proj.weight"),
        bias: copy_opt(&l.down_bias),
        output: act(l.index, "mlp_out"),
    }
}

fn add_mlp(graph: &mut ComputeGraph, meta: &ModelMeta, l: &LayerTensors)
    ensures
        final(graph)@ == old(graph)@ + mlp_ops(meta@, l@),
{
    let ghost before = graph@;
    let i: usize = l.index;
    match &l.gate_proj {
        Some(gate) => {
            graph.add_op(
                Operator::MatMul {
                    input: act(i, "post_norm"),
                    weight: gate.clone(),
                    bias: copy_opt(&l.gate_bias),
                    output: act(i, "gate_proj"),
                },
            );
            graph.add_op(up_op(l));
            graph.add_op(
                Operator::Activation {
                    input: act(i, "gate_proj"),
                    output: act(i, "act"),
                    act: meta.hidden_act,
                },
            );
            graph.add_op(
                Operator::Mul {
                    lhs: act(i, "act"),
                    rhs: act(i, "up_proj"),
                    output: act(i, "mlp_inter"),
                },
            );
            graph.add_op(down_op(l, act(i, "mlp_inter")));
        },
        None => {
            graph.add_op(up_op(l));
            graph.add_op(
                Operator::Activation {
                    input: act(i, "up_proj"),
                    output: act(i, "act"),
                    act: meta.hidden_act,
                },
            );
            graph.add_op(down_op(l, act(i, "act")));
        },
    }
    assert(graph@ =~= before + mlp_ops(meta@, l@));
}

fn add_exit(graph: &mut ComputeGraph, meta: &ModelMeta, l: &LayerTensors) -> (out: String)
    ensures
        final(graph)@ == old(graph)@ + exit_ops(meta@, l@),
        out@ == layer_output(meta@, l@),
{
    let ghost before = graph@;
    let i: usize = l.index;
    graph.add_op(
        Operator::Add { lhs: act(i, "post_attn"), rhs: act(i, "mlp_out"), output: act(i, "out") },
    );
    let fuse = meta.has_vision_encoder && (match &meta.is_deepstack_layers {
        Some(flags) => has_flag(flags, i),
        None => false,
    });
    if fuse {
        graph.add_op(
            Operator::DeepStackFuse {
                input: act(i, "out"),
                layer_idx: i,
                output: act(i, "fused"),
            },
        );
        assert(graph@ =~= before + exit_ops(meta@, l@));
        act(i, "fused")
    } else {
        assert(graph@ =~= before + exit_ops(meta@, l@));
        act(i, "out")
    }
}

fn add_layer(graph: &mut ComputeGraph, meta: &ModelMeta, l: &LayerTensors, input: &str) -> (out:
    String)
    ensures
        final(graph)@ == old(graph)@ + layer_ops(meta@, l@, input@),
        out@ == layer_output(meta@, l@),
{
    let ghost before = graph@;
    add_projections(graph, meta, l, input);
    add_rope(graph, meta, l);
    add_attention(graph, meta, l, input);
    add_mlp(graph, meta, l);
    let out = add_exit(graph, meta, l);
    assert(graph@ =~= before + layer_ops(meta@, l@, input@));
    out
}

fn add_entry(graph: &mut ComputeGraph, meta: &ModelMeta, embed: &str) -> (out: String)
    ensures
        final(graph)@ == old(graph)@ + entry_ops(meta@, embed@),
        out@ == entry_output(meta@),
{
    let ghost before = graph@;
    graph.add_op(
        Operator::Embed {
            input_ids: "input_ids".to_string(),
            weight: embed.to_string(),
            output: "text_embeddings".to_string(),
        },
    );
    if meta.has_vision_encoder {
        graph.add_op(
            Operator::VisualEmbed {
                pixel_values: "pixel_values".to_string(),
                output: "visual_embeddings".to_string(),
            },
        );
        graph.add_op(
            Operator::SpliceTensors {
                text_embeds: "text_embeddings".to_string(),
                visual_embeds: "visual_embeddings".to_string(),
                output: "spliced_embeddings".to_string(),
            },
        );
        assert(graph@ =~= before + entry_ops(meta@, embed@));
        "spliced_embeddings".to_string()
    } else {
        assert(graph@ =~= before + entry_ops(meta@, embed@));
        "text_embeddings".to_string()
    }
}

/// Builds the graph that computes the logits of a decoder.
pub fn build_graph(meta: &ModelMeta, group: &TensorGroupMap) -> (graph: ComputeGraph)
    ensures
        graph@ == graph_ops(meta@, *group),
        run(graph@, at_start())["logits"@] == logits_term(meta@, *group),
{
    let mut graph = ComputeGraph::new();
    let embed = match &group.embed_tokens {
        Some(name) => name.clone(),
        None => "model.embed_tokens.weight".to_string(),
    };
    let mut hidden = add_entry(&mut graph, meta, &embed);
    let ghost layers = layers_view(group.layers@);
    let ghost entry = entry_ops(meta@, embed@);
    let mut n: usize = 0;
    assert(layers.take(0) =~= Seq::empty());
    assert(graph@ =~= entry + stack_ops(meta@, layers.take(0)));
    while n < group.layers.len()
        invariant
            n <= group.layers.len(),
            layers == layers_view(group.layers@),
            entry == entry_ops(meta@, embed@),
            hidden@ == hidden_after(meta@, layers.take(n as int)),
            graph@ == entry + stack_ops(meta@, layers.take(n as int)),
        decreases group.layers.len() - n,
    {
        let ghost before = graph@;
        let ghost input = hidden@;
        hidden = add_layer(&mut graph, meta, &group.layers[n], &hidden);
        proof {
            let next = layers.take(n + 1);
            assert(next.drop_last() =~= layers.take(n as int));
            assert(next.last() == group.layers@[n as int]@);
            assert(graph@ =~= entry + stack_ops(meta@, next));
        }
        n += 1;
    }
    assert(layers.take(n as int) =~= layers);
    let final_norm = match &group.final_norm {
        Some(name) => name.clone(),
        None => "model.norm.weight".to_string(),
    };
    let lm_head = if meta.tie_word_embeddings {
        embed.clone()
    } else {
        match &group.lm_head {
            Some(name) => name.clone(),
            None => embed.clone(),
        }
    };
    graph.add_op(
        Operator::RMSNorm {
            input: hidden,
            weight: final_norm,
            output: "final_norm_out".to_string(),
            eps: meta.rms_norm_eps,
        },
    );
    graph.add_op(
        Operator::MatMul {
            input: "final_norm_out".to_string(),
            weight: lm_head,
            bias: None,
            output: "logits".to_string(),
        },
    );
    assert(graph@ =~= graph_ops(meta@, *group));
    proof {
        law_graph_computes_decoder(meta@, *group);
    }
    graph
}

/// Everything that `ops` write.
pub open spec fn written(ops: Seq<Operator<Text>>) -> Set<Text>
    decreases ops.len(),
{
    if ops.len() == 0 {
        Set::empty()
    } else {
        written(ops.drop_last()).union(writes(ops.last()).to_set())
    }
}

/// Every operator reads only what is at hand at the start or what an earlier
/// operator wrote.
pub open spec fn flows(ops: Seq<Operator<Text>>, at_hand: Set<Text>) -> bool
    decreases ops.len(),
{
    if ops.len() == 0 {
        true
    } else {
        flows(ops.drop_last(), at_hand) && reads(ops.last()).to_set().subset_of(
            at_hand.union(written(ops.drop_last())),
        )
    }
}

proof fn lemma_flows_join(a: Seq<Operator<Text>>, b: Seq<Operator<Text>>, at_hand: Set<Text>)
    requires
        flows(a, at_hand),
        flows(b, at_hand.union(written(a))),
    ensures
        flows(a + b, at_hand),
        written(a + b) == written(a).union(written(b)),
    decreases b.len(),
{
    if b.len() == 0 {
        assert(a + b =~= a);
        assert(written(a) =~= written(a).union(written(b)));
    } else {
        assert((a + b).drop_last() =~= a + b.drop_last());
        lemma_flows_join(a, b.drop_last(), at_hand);
        assert(at_hand.union(written(a)).union(written(b.drop_last())) =~= at_hand.union(
            written(a + b.drop_last()),
        ));
        assert(written(a + b) =~= written(a).union(written(b)));
    }
}

proof fn lemma_flows_push(ops: Seq<Operator<Text>>, op: Operator<Text>, at_hand: Set<Text>)
    requires
        flows(ops, at_hand),
        forall|i: int|
            0 <= i < reads(op).len() ==> at_hand.union(written(ops)).contains(
                #[trigger] reads(op)[i],
            ),
    ensures
        flows(ops.push(op), at_hand),
        forall|name: Text|
            written(ops).contains(name) ==> #[trigger] written(ops.push(op)).contains(name),
        forall|i: int|
            0 <= i < writes(op).len() ==> written(ops.push(op)).contains(#[trigger] writes(op)[i]),
{
    assert(ops.push(op).drop_last() =~= ops);
    assert forall|name: Text| #[trigger]
        reads(op).to_set().contains(name) implies at_hand.union(written(ops)).contains(name) by {
        let i = choose|i: int| 0 <= i < reads(op).len() && reads(op)[i] == name;
        assert(at_hand.union(written(ops)).contains(reads(op)[i]));
    }
    assert forall|i: int| 0 <= i < writes(op).len() implies written(ops.push(op)).contains(
        #[trigger] writes(op)[i],
    ) by {
        assert(writes(op).to_set().contains(writes(op)[i]));
    }
}

proof fn lemma_projections_flow(
    meta: Meta,
    l: LayerTensors<Text>,
    input: Text,
    at_hand: Set<Text>,
)
    requires
        at_hand.contains(input),
    ensures
        ({
            let ops = projection_ops(meta, l, input);
            &&& flows(ops, at_hand)
            &&& written(ops).contains(act_name(l.index, "q_proj"@))
            &&& written(ops).contains(act_name(l.index, "k_proj"@))
            &&& written(ops).contains(act_name(l.index, "v_proj"@))
        }),
{
    let ops = projection_ops(meta, l, input);
    let s0 = Seq::<Operator<Text>>::empty();
    let s1 = s0.push(ops[0]);
    let s2 = s1.push(ops[1]);
    let s3 = s2.push(ops[2]);
    lemma_flows_push(s0, ops[0], at_hand);
    assert(written(s1).contains(writes(ops[0])[0]));
    lemma_flows_push(s1, ops[1], at_hand);
    assert(written(s2).contains(writes(ops[1])[0]));
    lemma_flows_push(s2, ops[2], at_hand);
    assert(written(s3).contains(writes(ops[2])[0]));
    lemma_flows_push(s3, ops[3], at_hand);
    let s4 = s3.push(ops[3]);
    assert(written(s4).contains(writes(ops[3])[0]));
    assert(ops =~= s4);
}

proof fn lemma_norm_flows(norm: Option<Text>, input: Text, output: Text, at_hand: Set<Text>)
    requires
        at_hand.contains(input),
    ensures
        flows(norm_ops(norm, input, output), at_hand),
        at_hand.union(written(norm_ops(norm, input, output))).contains(
            normed(norm, input, output),
        ),
{
    let ops = norm_ops(norm, input, output);
    if norm is Some {
        let s0 = Seq::<Operator<Text>>::empty();
        lemma_flows_push(s0, ops[0], at_hand);
        assert(written(s0.push(ops[0])).contains(writes(ops[0])[0]));
        assert(ops =~= s0.push(ops[0]));
    }
}

proof fn lemma_rope_flows(meta: Meta, l: LayerTensors<Text>, at_hand: Set<Text>)
    requires
        at_hand.contains(queries(l)),
        at_hand.contains(keys(l)),
    ensures
        flows(seq![rope_op(meta, l)], at_hand),
        written(seq![rope_op(meta, l)]).contains(act_name(l.index, "q_rope"@)),
        written(seq![rope_op(meta, l)]).contains(act_name(l.index, "k_rope"@)),
{
    let op = rope_op(meta, l);
    let s0 = Seq::<Operator<Text>>::empty();
    lemma_flows_push(s0, op, at_hand);
    assert(written(s0.push(op)).contains(writes(op)[0]));
    assert(written(s0.push(op)).contains(writes(op)[1]));
    assert(seq![op] =~= s0.push(op));
}

proof fn lemma_attention_flows(
    meta: Meta,
    l: LayerTensors<Text>,
    input: Text,
    at_hand: Set<Text>,
)
    requires
        at_hand.contains(input),
        at_hand.contains(act_name(l.index, "q_rope"@)),
        at_hand.contains(act_name(l.index, "k_rope"@)),
        at_hand.contains(act_name(l.index, "v_proj"@)),
    ensures
        ({
            let ops = attention_ops(meta, l, input);
            &&& flows(ops, at_hand)
            &&& written(ops).contains(act_name(l.index, "post_attn"@))
            &&& written(ops).contains(act_name(l.index, "post_norm"@))
        }),
{
    let ops = attention_ops(meta, l, input);
    let s0 = Seq::<Operator<Text>>::empty();
    let s1 = s0.push(ops[0]);
    let s2 = s1.push(ops[1]);
    let s3 = s2.push(ops[2]);
    let s4 = s3.push(ops[3]);
    lemma_flows_push(s0, ops[0], at_hand);
    assert(written(s1).contains(writes(ops[0])[0]));
    lemma_flows_push(s1, ops[1], at_hand);
    assert(written(s2).contains(writes(ops[1])[0]));
    lemma_flows_push(s2, ops[2], at_hand);
    assert(written(s3).contains(writes(ops[2])[0]));
    lemma_flows_push(s3, ops[3], at_hand);
    assert(written(s4).contains(writes(ops[3])[0]));
    assert(ops =~= s4);
}

proof fn lemma_mlp_flows(meta: Meta, l: LayerTensors<Text>, at_hand: Set<Text>)
    requires
        at_hand.contains(act_name(l.index, "post_norm"@)),
    ensures
        flows(mlp_ops(meta, l), at_hand),
        written(mlp_ops(meta, l)).contains(act_name(l.index, "mlp_out"@)),
{
    let ops = mlp_ops(meta, l);
    let s0 = Seq::<Operator<Text>>::empty();
    let s1 = s0.push(ops[0]);
    let s2 = s1.push(ops[1]);
    let s3 = s2.push(ops[2]);
    lemma_flows_push(s0, ops[0], at_hand);
    assert(written(s1).contains(writes(ops[0])[0]));
    lemma_flows_push(s1, ops[1], at_hand);
    assert(written(s2).contains(writes(ops[1])[0]));
    lemma_flows_push(s2, ops[2], at_hand);
    assert(written(s3).contains(writes(ops[2])[0]));
    if l.gate_proj is Some {
        let s4 = s3.push(ops[3]);
        let s5 = s4.push(ops[4]);
        lemma_flows_push(s3, ops[3], at_hand);
        assert(written(s4).contains(writes(ops[3])[0]));
        lemma_flows_push(s4, ops[4], at_hand);
        assert(written(s5).contains(writes(ops[4])[0]));
        assert(ops =~= s5);
    } else {
        assert(ops =~= s3);
    }
}

proof fn lemma_exit_flows(meta: Meta, l: LayerTensors<Text>, at_hand: Set<Text>)
    requires
        at_hand.contains(act_name(l.index, "post_attn"@)),
        at_hand.contains(act_name(l.index, "mlp_out"@)),
        meta.has_vision_encoder ==> at_hand.contains("visual_embeddings"@),
    ensures
        flows(exit_ops(meta, l), at_hand),
        written(exit_ops(meta, l)).contains(layer_output(meta, l)),
{
    let ops = exit_ops(meta, l);
    let s0 = Seq::<Operator<Text>>::empty();
    let s1 = s0.push(ops[0]);
    lemma_flows_push(s0, ops[0], at_hand);
    assert(written(s1).contains(writes(ops[0])[0]));
    if fuses(meta, l.index) {
        let s2 = s1.push(ops[1]);
        lemma_flows_push(s1, ops[1], at_hand);
        assert(written(s2).contains(writes(ops[1])[0]));
        assert(ops =~= s2);
    } else {
        assert(ops =~= s1);
    }
}

proof fn lemma_layer_flows(meta: Meta, l: LayerTensors<Text>, input: Text, at_hand: Set<Text>)
    requires
        at_hand.contains(input),
        meta.has_vision_encoder ==> at_hand.contains("visual_embeddings"@),
    ensures
        flows(layer_ops(meta, l, input), at_hand),
        written(layer_ops(meta, l, input)).contains(layer_output(meta, l)),
{
    let i = l.index;
    let a = projection_ops(meta, l, input);
    let b = norm_ops(l.q_norm, act_name(i, "q_proj"@), act_name(i, "q_normed"@));
    let c = norm_ops(l.k_norm, act_name(i, "k_proj"@), act_name(i, "k_normed"@));
    let d = seq![rope_op(meta, l)];
    let e = attention_ops(meta, l, input);
    let f = mlp_ops(meta, l);
    let g = exit_ops(meta, l);
    lemma_projections_flow(meta, l, input, at_hand);
    lemma_norm_flows(
        l.q_norm,
        act_name(i, "q_proj"@),
        act_name(i, "q_normed"@),
        at_hand.union(written(a)),
    );
    lemma_flows_join(a, b, at_hand);
    lemma_norm_flows(
        l.k_norm,
        act_name(i, "k_proj"@),
        act_name(i, "k_normed"@),
        at_hand.union(written(a + b)),
    );
    lemma_flows_join(a + b, c, at_hand);
    lemma_rope_flows(meta, l, at_hand.union(written(a + b + c)));
    lemma_flows_join(a + b + c, d, at_hand);
    lemma_attention_flows(meta, l, input, at_hand.union(written(a + b + c + d)));
    lemma_flows_join(a + b + c + d, e, at_hand);
    lemma_mlp_flows(meta, l, at_hand.union(written(a + b + c + d + e)));
    lemma_flows_join(a + b + c + d + e, f, at_hand);
    lemma_exit_flows(meta, l, at_hand.union(written(a + b + c + d + e + f)));
    lemma_flows_join(a + b + c + d + e + f, g, at_hand);
}

proof fn lemma_entry_flows(meta: Meta, embed: Text, at_hand: Set<Text>)
    requires
        at_hand.contains("input_ids"@),
        at_hand.contains("pixel_values"@),
    ensures
        flows(entry_ops(meta, embed), at_hand),
        written(entry_ops(meta, embed)).contains(entry_output(meta)),
        meta.has_vision_encoder ==> written(entry_ops(meta, embed)).contains(
            "visual_embeddings"@,
        ),
{
    let ops = entry_ops(meta, embed);
    let s0 = Seq::<Operator<Text>>::empty();
    let s1 = s0.push(ops[0]);
    lemma_flows_push(s0, ops[0], at_hand);
    assert(written(s1).contains(writes(ops[0])[0]));
    if meta.has_vision_encoder {
        let s2 = s1.push(ops[1]);
        let s3 = s2.push(ops[2]);
        lemma_flows_push(s1, ops[1], at_hand);
        assert(written(s2).contains(writes(ops[1])[0]));
        lemma_flows_push(s2, ops[2], at_hand);
        assert(written(s3).contains(writes(ops[2])[0]));
        assert(ops =~= s3);
    } else {
        assert(ops =~= s1);
    }
}

proof fn lemma_stack_flows(
    meta: Meta,
    entry: Seq<Operator<Text>>,
    layers: Seq<LayerTensors<Text>>,
    at_hand: Set<Text>,
)
    requires
        flows(entry, at_hand),
        written(entry).contains(entry_output(meta)),
        meta.has_vision_encoder ==> written(entry).contains("visual_embeddings"@),
    ensures
        meta.has_vision_encoder ==> written(entry + stack_ops(meta, layers)).contains(
            "visual_embeddings"@,
        ),
        flows(entry + stack_ops(meta, layers), at_hand),
        written(entry + stack_ops(meta, layers)).contains(hidden_after(meta, layers)),
    decreases layers.len(),
{
    if layers.len() == 0 {
        assert(entry + stack_ops(meta, layers) =~= entry);
    } else {
        let below = layers.drop_last();
        let input = hidden_after(meta, below);
        lemma_stack_flows(meta, entry, below, at_hand);
        let done = entry + stack_ops(meta, below);
        lemma_layer_flows(meta, layers.last(), input, at_hand.union(written(done)));
        lemma_flows_join(done, layer_ops(meta, layers.last(), input), at_hand);
        assert(entry + stack_ops(meta, layers) =~= done + layer_ops(meta, layers.last(), input));
    }
}

/// Run in order, the graph needs nothing but the token ids and the pixels:
/// every other activation that an operator reads was written by an earlier
/// one. The last operator writes the logits.
pub proof fn law_graph_flows(meta: Meta, group: TensorGroupMap)
    ensures
        flows(graph_ops(meta, group), set!["input_ids"@, "pixel_values"@]),
        graph_ops(meta, group).len() > 0,
        writes(graph_ops(meta, group).last()) == seq!["logits"@],
{
    let at_hand = set!["input_ids"@, "pixel_values"@];
    let embed = embed_weight(text_opt(group.embed_tokens));
    let layers = layers_view(group.layers@);
    let entry = entry_ops(meta, embed);
    lemma_entry_flows(meta, embed, at_hand);
    lemma_stack_flows(meta, entry, layers, at_hand);
    let done = entry + stack_ops(meta, layers);
    let tail = logit_ops(
        meta,
        text_opt(group.final_norm),
        text_opt(group.lm_head),
        embed,
        hidden_after(meta, layers),
    );
    let s0 = Seq::<Operator<Text>>::empty();
    let s1 = s0.push(tail[0]);
    let s2 = s1.push(tail[1]);
    let now = at_hand.union(written(done));
    lemma_flows_push(s0, tail[0], now);
    assert(written(s1).contains(writes(tail[0])[0]));
    lemma_flows_push(s1, tail[1], now);
    assert(tail =~= s2);
    lemma_flows_join(done, tail, at_hand);
}

/// What each of `ops` gives, one behind the other.
pub open spec fn gathered<A>(ops: Seq<Operator<Text>>, f: spec_fn(Operator<Text>) -> Seq<A>) -> Seq<A>
    decreases ops.len(),
{
    if ops.len() == 0 {
        seq![]
    } else {
        gathered(ops.drop_last(), f) + f(ops.last())
    }
}

/// Everything that `ops` write, in order.
pub open spec fn outputs(ops: Seq<Operator<Text>>) -> Seq<Text> {
    gathered(ops, |op: Operator<Text>| writes(op))
}

/// The layers for which `ops` attend, in order.
pub open spec fn attended(ops: Seq<Operator<Text>>) -> Seq<usize> {
    gathered(
        ops,
        |op: Operator<Text>|
            match op {
                Operator::PagedAttention { layer_idx, .. } => seq![layer_idx],
                _ => seq![],
            },
    )
}

proof fn lemma_gathered_join<A>(
    a: Seq<Operator<Text>>,
    b: Seq<Operator<Text>>,
    f: spec_fn(Operator<Text>) -> Seq<A>,
)
    ensures
        gathered(a + b, f) == gathered(a, f) + gathered(b, f),
    decreases b.len(),
{
    if b.len() == 0 {
        assert(a + b =~= a);
        assert(gathered(a, f) + gathered(b, f) =~= gathered(a, f));
    } else {
        lemma_gathered_join(a, b.drop_last(), f);
        assert((a + b).drop_last() =~= a + b.drop_last());
        assert(gathered(a, f) + (gathered(b.drop_last(), f) + f(b.last())) =~= gathered(a, f)
            + gathered(b.drop_last(), f) + f(b.last()));
    }
}

/// A text of this length, with these characters at the front, behind the first
/// two and at the end.
spec fn looks(what: Text, len: int, first: char, third: char, last: char) -> bool {
    what.len() == len && what[0] == first && what[2] == third && what.last() == last
}

/// When in its layer an intermediate result comes.
spec fn turn_of(what: Text) -> int {
    if looks(what, 8, 'p', 'e', 'm') {
        0
    } else if looks(what, 6, 'q', 'p', 'j') {
        1
    } else if looks(what, 6, 'k', 'p', 'j') {
        2
    } else if looks(what, 6, 'v', 'p', 'j') {
        3
    } else if looks(what, 8, 'q', 'n', 'd') {
        4
    } else if looks(what, 8, 'k', 'n', 'd') {
        5
    } else if looks(what, 6, 'q', 'r', 'e') {
        6
    } else if looks(what, 6, 'k', 'r', 'e') {
        7
    } else if looks(what, 8, 'a', 't', 't') {
        8
    } else if looks(what, 6, 'o', 'p', 'j') {
        9
    } else if looks(what, 9, 'p', 's', 'n') {
        10
    } else if looks(what, 9, 'p', 's', 'm') {
        11
    } else if looks(what, 9, 'g', 't', 'j') {
        12
    } else if looks(what, 7, 'u', '_', 'j') {
        13
    } else if looks(what, 3, 'a', 't', 't') {
        14
    } else if looks(what, 9, 'm', 'p', 'r') {
        15
    } else if looks(what, 7, 'm', 'p', 't') {
        16
    } else if looks(what, 3, 'o', 't', 't') {
        17
    } else if looks(what, 5, 'f', 's', 'd') {
        18
    } else {
        -1
    }
}

/// The layer of an intermediate result, as its name writes it, and the rest.
spec fn parts(name: Text) -> Option<(Text, Text)> {
    cut(name.skip(6), '_')
}

spec fn turn(name: Text) -> int {
    match parts(name) {
        Some((_, what)) => turn_of(what),
        None => -1,
    }
}

/// The name is that of an intermediate result of layer `i`.
spec fn of_layer(name: Text, i: usize) -> bool {
    begins(name, "layer_"@) && (match parts(name) {
        Some((digits, _)) => digits == dec(i as nat),
        None => false,
    })
}

proof fn lemma_act_name(i: usize, what: Text)
    ensures
        parts(act_name(i, what)) == Some((dec(i as nat), what)),
        of_layer(act_name(i, what), i),
{
    reveal_strlit("layer_");
    reveal_strlit("_");
    let name = act_name(i, what);
    let digits = dec(i as nat);
    assert(name.subrange(0, 6) =~= "layer_"@);
    assert(name.skip(6) =~= digits.push('_') + what);
    lemma_dec_digits(i as nat);
    lemma_cut(digits, '_', what);
}

proof fn lemma_turns(i: usize)
    ensures
        turn(act_name(i, "pre_norm"@)) == 0,
        turn(act_name(i, "q_proj"@)) == 1,
        turn(act_name(i, "k_proj"@)) == 2,
        turn(act_name(i, "v_proj"@)) == 3,
        turn(act_name(i, "q_normed"@)) == 4,
        turn(act_name(i, "k_normed"@)) == 5,
        turn(act_name(i, "q_rope"@)) == 6,
        turn(act_name(i, "k_rope"@)) == 7,
        turn(act_name(i, "attn_out"@)) == 8,
        turn(act_name(i, "o_proj"@)) == 9,
        turn(act_name(i, "post_attn"@)) == 10,
        turn(act_name(i, "post_norm"@)) == 11,
        turn(act_name(i, "gate_proj"@)) == 12,
        turn(act_name(i, "up_proj"@)) == 13,
        turn(act_name(i, "act"@)) == 14,
        turn(act_name(i, "mlp_inter"@)) == 15,
        turn(act_name(i, "mlp_out"@)) == 16,
        turn(act_name(i, "out"@)) == 17,
        turn(act_name(i, "fused"@)) == 18,
        forall|what: Text| of_layer(#[trigger] act_name(i, what), i),
{
    reveal_strlit("pre_norm");
    assert(turn(act_name(i, "pre_norm"@)) == 0) by {
        lemma_act_name(i, "pre_norm"@);
    }
    reveal_strlit("q_proj");
    assert(turn(act_name(i, "q_proj"@)) == 1) by {
        lemma_act_name(i, "q_proj"@);
    }
    reveal_strlit("k_proj");
    assert(turn(act_name(i, "k_proj"@)) == 2) by {
        lemma_act_name(i, "k_proj"@);
    }
    reveal_strlit("v_proj");
    assert(turn(act_name(i, "v_proj"@)) == 3) by {
        lemma_act_name(i, "v_proj"@);
    }
    reveal_strlit("q_normed");
    assert(turn(act_name(i, "q_normed"@)) == 4) by {
        lemma_act_name(i, "q_normed"@);
    }
    reveal_strlit("k_normed");
    assert(turn(act_name(i, "k_normed"@)) == 5) by {
        lemma_act_name(i, "k_normed"@);
    }
    reveal_strlit("q_rope");
    assert(turn(act_name(i, "q_rope"@)) == 6) by {
        lemma_act_name(i, "q_rope"@);
    }
    reveal_strlit("k_rope");
    assert(turn(act_name(i, "k_rope"@)) == 7) by {
        lemma_act_name(i, "k_rope"@);
    }
    reveal_strlit("attn_out");
    assert(turn(act_name(i, "attn_out"@)) == 8) by {
        lemma_act_name(i, "attn_out"@);
    }
    reveal_strlit("o_proj");
    assert(turn(act_name(i, "o_proj"@)) == 9) by {
        lemma_act_name(i, "o_proj"@);
    }
    reveal_strlit("post_attn");
    assert(turn(act_name(i, "post_attn"@)) == 10) by {
        lemma_act_name(i, "post_attn"@);
    }
    reveal_strlit("post_norm");
    assert(turn(act_name(i, "post_norm"@)) == 11) by {
        lemma_act_name(i, "post_norm"@);
    }
    reveal_strlit("gate_proj");
    assert(turn(act_name(i, "gate_proj"@)) == 12) by {
        lemma_act_name(i, "gate_proj"@);
    }
    reveal_strlit("up_proj");
    assert(turn(act_name(i, "up_proj"@)) == 13) by {
        lemma_act_name(i, "up_proj"@);
    }
    reveal_strlit("act");
    assert(turn(act_name(i, "act"@)) == 14) by {
        lemma_act_name(i, "act"@);
    }
    reveal_strlit("mlp_inter");
    assert(turn(act_name(i, "mlp_inter"@)) == 15) by {
        lemma_act_name(i, "mlp_inter"@);
    }
    reveal_strlit("mlp_out");
    assert(turn(act_name(i, "mlp_out"@)) == 16) by {
        lemma_act_name(i, "mlp_out"@);
    }
    reveal_strlit("out");
    assert(turn(act_name(i, "out"@)) == 17) by {
        lemma_act_name(i, "out"@);
    }
    reveal_strlit("fused");
    assert(turn(act_name(i, "fused"@)) == 18) by {
        lemma_act_name(i, "fused"@);
    }
    assert forall|what: Text| of_layer(#[trigger] act_name(i, what), i) by {
        lemma_act_name(i, what);
    }
}

/// Intermediate results of layer `i`, of the turns `from..to`, one after the
/// other.
spec fn in_turn(names: Seq<Text>, i: usize, from: int, to: int) -> bool {
    &&& forall|k: int|
        0 <= k < names.len() ==> of_layer(#[trigger] names[k], i) && from <= turn(names[k]) < to
    &&& forall|a: int, b: int|
        0 <= a < b < names.len() ==> turn(#[trigger] names[a]) < turn(#[trigger] names[b])
}

proof fn lemma_turns_join(
    a: Seq<Operator<Text>>,
    b: Seq<Operator<Text>>,
    i: usize,
    from: int,
    mid: int,
    to: int,
)
    requires
        from <= mid <= to,
        in_turn(outputs(a), i, from, mid),
        in_turn(outputs(b), i, mid, to),
    ensures
        in_turn(outputs(a + b), i, from, to),
{
    lemma_gathered_join(a, b, |op: Operator<Text>| writes(op));
    let (x, y) = (outputs(a), outputs(b));
    let all = outputs(a + b);
    assert(all == x + y);
    assert forall|k: int| 0 <= k < all.len() implies of_layer(#[trigger] all[k], i) && from <= turn(
        all[k],
    ) < to by {
        if k < x.len() {
            assert(all[k] == x[k]);
        } else {
            assert(all[k] == y[k - x.len()]);
        }
    }
    assert forall|p: int, q: int| 0 <= p < q < all.len() implies turn(#[trigger] all[p]) < turn(
        #[trigger] all[q],
    ) by {
        if q < x.len() {
            assert(all[p] == x[p] && all[q] == x[q]);
        } else if p < x.len() {
            assert(all[p] == x[p] && all[q] == y[q - x.len()]);
        } else {
            assert(all[p] == y[p - x.len()] && all[q] == y[q - x.len()]);
        }
    }
}

proof fn lemma_layer_in_turn(meta: Meta, l: LayerTensors<Text>, input: Text)
    ensures
        in_turn(outputs(layer_ops(meta, l, input)), l.index, 0, 19),
{
    reveal_with_fuel(gathered, 6);
    let i = l.index;
    let a = projection_ops(meta, l, input);
    let b = norm_ops(l.q_norm, act_name(i, "q_proj"@), act_name(i, "q_normed"@));
    let c = norm_ops(l.k_norm, act_name(i, "k_proj"@), act_name(i, "k_normed"@));
    let d = seq![rope_op(meta, l)];
    let e = attention_ops(meta, l, input);
    let f = mlp_ops(meta, l);
    let g = exit_ops(meta, l);
    lemma_turns(i);
    assert(in_turn(outputs(a), i, 0, 4));
    assert(in_turn(outputs(b), i, 4, 5));
    assert(in_turn(outputs(c), i, 5, 6));
    assert(in_turn(outputs(d), i, 6, 8));
    assert(in_turn(outputs(e), i, 8, 12));
    assert(in_turn(outputs(f), i, 12, 17));
    assert(in_turn(outputs(g), i, 17, 19));
    lemma_turns_join(a, b, i, 0, 4, 5);
    lemma_turns_join(a + b, c, i, 0, 5, 6);
    lemma_turns_join(a + b + c, d, i, 0, 6, 8);
    lemma_turns_join(a + b + c + d, e, i, 0, 8, 12);
    lemma_turns_join(a + b + c + d + e, f, i, 0, 12, 17);
    lemma_turns_join(a + b + c + d + e + f, g, i, 0, 17, 19);
}

/// No two of the layers have the same index.
pub open spec fn distinct(layers: Seq<LayerTensors<Text>>) -> bool {
    forall|a: int, b: int|
        0 <= a < b < layers.len() ==> (#[trigger] layers[a]).index != (#[trigger] layers[b]).index
}

/// The name is that of an intermediate result of one of the layers.
spec fn of_stack(name: Text, layers: Seq<LayerTensors<Text>>) -> bool {
    exists|m: int| 0 <= m < layers.len() && of_layer(name, (#[trigger] layers[m]).index)
}

proof fn lemma_one_layer(name: Text, i: usize, j: usize)
    requires
        of_layer(name, i),
        of_layer(name, j),
    ensures
        i == j,
{
    law_decimal_reads_back(i as nat);
    law_decimal_reads_back(j as nat);
}

proof fn lemma_stack_writes_once(meta: Meta, layers: Seq<LayerTensors<Text>>)
    requires
        distinct(layers),
    ensures
        outputs(stack_ops(meta, layers)).no_duplicates(),
        forall|k: int|
            0 <= k < outputs(stack_ops(meta, layers)).len() ==> of_stack(
                #[trigger] outputs(stack_ops(meta, layers))[k],
                layers,
            ),
    decreases layers.len(),
{
    let all = outputs(stack_ops(meta, layers));
    if layers.len() > 0 {
        let below = layers.drop_last();
        let last = layers.last();
        let input = hidden_after(meta, below);
        lemma_stack_writes_once(meta, below);
        lemma_layer_in_turn(meta, last, input);
        lemma_gathered_join(
            stack_ops(meta, below),
            layer_ops(meta, last, input),
            |op: Operator<Text>| writes(op),
        );
        let x = outputs(stack_ops(meta, below));
        let y = outputs(layer_ops(meta, last, input));
        assert(all == x + y);
        assert forall|k: int| 0 <= k < all.len() implies of_stack(#[trigger] all[k], layers) by {
            if k < x.len() {
                assert(of_stack(x[k], below));
                let m = choose|m: int| 0 <= m < below.len() && of_layer(x[k], (#[trigger] below[m]).index);
                assert(of_layer(all[k], layers[m].index));
            } else {
                assert(all[k] == y[k - x.len()]);
                assert(of_layer(all[k], layers[layers.len() - 1].index));
            }
        }
        assert forall|p: int, q: int| 0 <= p < all.len() && 0 <= q < all.len() && p != q implies all[p]
            != all[q] by {
            lemma_apart(x, y, below, last, p, q);
        }
    }
}

/// What the layers below write, and what the next layer writes, differ.
proof fn lemma_apart(
    x: Seq<Text>,
    y: Seq<Text>,
    below: Seq<LayerTensors<Text>>,
    last: LayerTensors<Text>,
    p: int,
    q: int,
)
    requires
        x.no_duplicates(),
        forall|k: int| 0 <= k < x.len() ==> of_stack(#[trigger] x[k], below),
        forall|m: int| 0 <= m < below.len() ==> (#[trigger] below[m]).index != last.index,
        in_turn(y, last.index, 0, 19),
        0 <= p < x.len() + y.len(),
        0 <= q < x.len() + y.len(),
        p != q,
    ensures
        (x + y)[p] != (x + y)[q],
{
    let all = x + y;
    if p < x.len() && q < x.len() {
        assert(all[p] == x[p] && all[q] == x[q]);
    } else if p >= x.len() && q >= x.len() {
        let (a, b) = (p - x.len(), q - x.len());
        assert(all[p] == y[a] && all[q] == y[b]);
        if a < b {
            assert(turn(y[a]) < turn(y[b]));
        } else {
            assert(turn(y[b]) < turn(y[a]));
        }
    } else {
        let (a, b) = if p < x.len() {
            (p, q - x.len())
        } else {
            (q, p - x.len())
        };
        assert(of_stack(x[a], below));
        let m = choose|m: int| 0 <= m < below.len() && of_layer(x[a], (#[trigger] below[m]).index);
        assert(of_layer(y[b], last.index));
        if x[a] == y[b] {
            lemma_one_layer(x[a], below[m].index, last.index);
        }
    }
}

proof fn lemma_entry_writes(meta: Meta, embed: Text)
    ensures
        outputs(entry_ops(meta, embed)) == if meta.has_vision_encoder {
            seq!["text_embeddings"@, "visual_embeddings"@, "spliced_embeddings"@]
        } else {
            seq!["text_embeddings"@]
        },
{
    reveal_with_fuel(gathered, 4);
    let x = outputs(entry_ops(meta, embed));
    if meta.has_vision_encoder {
        assert(x =~= seq!["text_embeddings"@, "visual_embeddings"@, "spliced_embeddings"@]);
    } else {
        assert(x =~= seq!["text_embeddings"@]);
    }
}

/// The names around the layers are those of no layer's results, and of
/// different lengths.
proof fn lemma_outer_names()
    ensures
        !begins("text_embeddings"@, "layer_"@),
        !begins("visual_embeddings"@, "layer_"@),
        !begins("spliced_embeddings"@, "layer_"@),
        !begins("final_norm_out"@, "layer_"@),
        !begins("logits"@, "layer_"@),
        "text_embeddings"@.len() == 15,
        "visual_embeddings"@.len() == 17,
        "spliced_embeddings"@.len() == 18,
        "final_norm_out"@.len() == 14,
        "logits"@.len() == 6,
{
    reveal_strlit("text_embeddings");
    reveal_strlit("visual_embeddings");
    reveal_strlit("spliced_embeddings");
    reveal_strlit("final_norm_out");
    reveal_strlit("logits");
    lemma_no_layer("text_embeddings"@);
    lemma_no_layer("visual_embeddings"@);
    lemma_no_layer("spliced_embeddings"@);
    lemma_no_layer("final_norm_out"@);
    lemma_no_layer("logits"@);
}

/// Names around those of layers, with no name twice.
proof fn lemma_around(x: Seq<Text>, y: Seq<Text>, z: Seq<Text>)
    requires
        (x + z).no_duplicates(),
        y.no_duplicates(),
        forall|k: int| 0 <= k < x.len() ==> !begins(#[trigger] x[k], "layer_"@),
        forall|k: int| 0 <= k < y.len() ==> begins(#[trigger] y[k], "layer_"@),
        forall|k: int| 0 <= k < z.len() ==> !begins(#[trigger] z[k], "layer_"@),
    ensures
        (x + y + z).no_duplicates(),
{
    let all = x + y + z;
    let outer = x + z;
    let (a, b) = (x.len() as int, x.len() + y.len());
    assert forall|p: int, q: int| 0 <= p < q < all.len() implies all[p] != all[q] by {
        let u = if p < a {
            p
        } else {
            p - y.len()
        };
        let v = if q < a {
            q
        } else {
            q - y.len()
        };
        if a <= p < b {
            assert(all[p] == y[p - a]);
        } else {
            assert(all[p] == outer[u]);
            assert(outer[u] == if u < a { x[u] } else { z[u - a] });
        }
        if a <= q < b {
            assert(all[q] == y[q - a]);
        } else {
            assert(all[q] == outer[v]);
            assert(outer[v] == if v < a { x[v] } else { z[v - a] });
        }
    }
}

/// The graph writes no activation twice, as long as no two layers have the same
/// index.
pub proof fn law_written_once(meta: Meta, group: TensorGroupMap)
    requires
        distinct(layers_view(group.layers@)),
    ensures
        outputs(graph_ops(meta, group)).no_duplicates(),
{
    let f = |op: Operator<Text>| writes(op);
    let embed = embed_weight(text_opt(group.embed_tokens));
    let layers = layers_view(group.layers@);
    let entry = entry_ops(meta, embed);
    let stack = stack_ops(meta, layers);
    let tail = logit_ops(
        meta,
        text_opt(group.final_norm),
        text_opt(group.lm_head),
        embed,
        hidden_after(meta, layers),
    );
    lemma_stack_writes_once(meta, layers);
    lemma_entry_writes(meta, embed);
    lemma_gathered_join(entry, stack, f);
    lemma_gathered_join(entry + stack, tail, f);
    let (x, y, z) = (outputs(entry), outputs(stack), outputs(tail));
    assert(outputs(graph_ops(meta, group)) == x + y + z);
    assert(z =~= seq!["final_norm_out"@, "logits"@]) by {
        reveal_with_fuel(gathered, 3);
    }
    lemma_outer_names();
    assert forall|k: int| 0 <= k < y.len() implies begins(#[trigger] y[k], "layer_"@) by {
        assert(of_stack(y[k], layers));
    }
    let outer = x + z;
    if meta.has_vision_encoder {
        assert(outer =~= seq![
            "text_embeddings"@,
            "visual_embeddings"@,
            "spliced_embeddings"@,
            "final_norm_out"@,
            "logits"@,
        ]);
    } else {
        assert(outer =~= seq!["text_embeddings"@, "final_norm_out"@, "logits"@]);
    }
    assert(outer.no_duplicates());
    lemma_around(x, y, z);
}

/// A name with another beginning is that of no layer's result.
proof fn lemma_no_layer(name: Text)
    requires
        name.len() >= 6,
        name[1] != 'a',
    ensures
        !begins(name, "layer_"@),
{
    reveal_strlit("layer_");
    if begins(name, "layer_"@) {
        assert(name.subrange(0, 6)[1] == name[1]);
    }
}

proof fn lemma_stack_attends(meta: Meta, layers: Seq<LayerTensors<Text>>)
    ensures
        attended(stack_ops(meta, layers)) == layers.map_values(|l: LayerTensors<Text>| l.index),
    decreases layers.len(),
{
    if layers.len() == 0 {
        assert(attended(stack_ops(meta, layers)) =~= layers.map_values(
            |l: LayerTensors<Text>| l.index,
        ));
    } else {
        let below = layers.drop_last();
        let last = layers.last();
        let input = hidden_after(meta, below);
        lemma_stack_attends(meta, below);
        lemma_layer_attends(meta, last, input);
        let f = |op: Operator<Text>|
            match op {
                Operator::PagedAttention { layer_idx, .. } => seq![layer_idx],
                _ => seq![],
            };
        lemma_gathered_join(stack_ops(meta, below), layer_ops(meta, last, input), f);
        assert(attended(stack_ops(meta, layers)) =~= layers.map_values(
            |l: LayerTensors<Text>| l.index,
        ));
    }
}

#[verifier::rlimit(40)]
proof fn lemma_layer_attends(meta: Meta, l: LayerTensors<Text>, input: Text)
    ensures
        attended(layer_ops(meta, l, input)) == seq![l.index],
{
    reveal_with_fuel(gathered, 6);
    let i = l.index;
    let a = projection_ops(meta, l, input);
    let b = norm_ops(l.q_norm, act_name(i, "q_proj"@), act_name(i, "q_normed"@));
    let c = norm_ops(l.k_norm, act_name(i, "k_proj"@), act_name(i, "k_normed"@));
    let d = seq![rope_op(meta, l)];
    let e = attention_ops(meta, l, input);
    let g = mlp_ops(meta, l);
    let h = exit_ops(meta, l);
    let f = |op: Operator<Text>|
        match op {
            Operator::PagedAttention { layer_idx, .. } => seq![layer_idx],
            _ => seq![],
        };
    let none = Seq::<usize>::empty();
    assert(attended(a) =~= none);
    assert(attended(b) =~= none);
    assert(attended(c) =~= none);
    assert(attended(d) =~= none);
    assert(attended(e) =~= seq![i]);
    assert(attended(g) =~= none);
    assert(attended(h) =~= none);
    lemma_gathered_join(a, b, f);
    lemma_gathered_join(a + b, c, f);
    lemma_gathered_join(a + b + c, d, f);
    lemma_gathered_join(a + b + c + d, e, f);
    lemma_gathered_join(a + b + c + d + e, g, f);
    lemma_gathered_join(a + b + c + d + e + g, h, f);
    assert(attended(layer_ops(meta, l, input)) =~= seq![i]);
}

/// Each layer attends once, in the order of the layers.
pub proof fn law_one_attention_per_layer(meta: Meta, group: TensorGroupMap)
    ensures
        attended(graph_ops(meta, group)) == layers_view(group.layers@).map_values(
            |l: LayerTensors<Text>| l.index,
        ),
{
    reveal_with_fuel(gathered, 4);
    let f = |op: Operator<Text>|
        match op {
            Operator::PagedAttention { layer_idx, .. } => seq![layer_idx],
            _ => seq![],
        };
    let embed = embed_weight(text_opt(group.embed_tokens));
    let layers = layers_view(group.layers@);
    let entry = entry_ops(meta, embed);
    let stack = stack_ops(meta, layers);
    let tail = logit_ops(
        meta,
        text_opt(group.final_norm),
        text_opt(group.lm_head),
        embed,
        hidden_after(meta, layers),
    );
    lemma_stack_attends(meta, layers);
    let none = Seq::<usize>::empty();
    assert(attended(entry) =~= none);
    assert(attended(tail) =~= none);
    lemma_gathered_join(entry, stack, f);
    lemma_gathered_join(entry + stack, tail, f);
    assert(attended(graph_ops(meta, group)) =~= layers.map_values(|l: LayerTensors<Text>| l.index));
}

/// The name of a tensor of layer `i`: as it was found, or as the checkpoint would
/// name it.
pub open spec fn tensor(found: Option<Text>, i: usize, suffix: Text) -> Text {
    match found {
        Some(name) => name,
        None => "model.layers."@ + dec(i as nat) + "."@ + suffix,
    }
}

/// A head's queries or keys: normalised, where the layer has a norm for them,
/// and turned by the position, where the layer has one.
pub open spec fn placed(meta: Meta, i: usize, head_norm: Option<Text>, x: Term<Text>) -> Term<
    Text,
> {
    let y = match head_norm {
        Some(weight) => norm(x, weight, Real::Single(0x358637BD)),
        None => x,
    };
    if i < meta.no_rope_layers.len() && meta.no_rope_layers[i as int] {
        y
    } else {
        Term::Turned { x: Box::new(y), layer: i, theta: meta.rope_theta }
    }
}

/// Attention over `x`, projected back.
pub open spec fn attention_of(meta: Meta, l: LayerTensors<Text>, x: Term<Text>) -> Term<Text> {
    let i = l.index;
    let y = norm(x, tensor(l.input_layernorm, i, "input_layernorm.weight"@), meta.rms_norm_eps);
    let heads = Term::Attended {
        q: Box::new(
            placed(
                meta,
                i,
                l.q_norm,
                times(y, tensor(l.q_proj, i, "self_attn.q_proj.weight"@), l.q_bias),
            ),
        ),
        k: Box::new(
            placed(
                meta,
                i,
                l.k_norm,
                times(y, tensor(l.k_proj, i, "self_attn.k_proj.weight"@), l.k_bias),
            ),
        ),
        v: Box::new(times(y, tensor(l.v_proj, i, "self_attn.v_proj.weight"@), l.v_bias)),
        layer: i,
        n_heads: meta.n_heads,
        n_kv_heads: meta.n_kv_heads,
        head_dim: meta.head_dim,
    };
    times(heads, tensor(l.o_proj, i, "self_attn.o_proj.weight"@), l.o_bias)
}

/// The feed-forward part over `x`: the activated gate times the rest where the
/// layer has a gate, the activated rest where it has none.
pub open spec fn feed_forward_of(meta: Meta, l: LayerTensors<Text>, x: Term<Text>) -> Term<Text> {
    let i = l.index;
    let y = norm(
        x,
        tensor(l.post_attention_layernorm, i, "post_attention_layernorm.weight"@),
        meta.rms_norm_eps,
    );
    let up = times(y, tensor(l.up_proj, i, "mlp.up_proj.weight"@), l.up_bias);
    let inner = match l.gate_proj {
        Some(gate) => Term::Product {
            a: Box::new(
                Term::Activated {
                    x: Box::new(times(y, gate, l.gate_bias)),
                    act: meta.hidden_act,
                },
            ),
            b: Box::new(up),
        },
        None => Term::Activated { x: Box::new(up), act: meta.hidden_act },
    };
    times(inner, tensor(l.down_proj, i, "mlp.down_proj.weight"@), l.down_bias)
}

/// The embedded image.
pub open spec fn image_term() -> Term<Text> {
    Term::Seen { pixels: Box::new(Term::Given("pixel_values"@)) }
}

/// A layer over `x`: attention and feed-forward, each added to what it was made
/// of. Where the layer is one of the deep stack, the image is fused in.
pub open spec fn layer_term(meta: Meta, l: LayerTensors<Text>, x: Term<Text>) -> Term<Text> {
    let h = sum(x, attention_of(meta, l, x));
    let y = sum(h, feed_forward_of(meta, l, h));
    let deep = meta.has_vision_encoder && (meta.is_deepstack_layers matches Some(flags) && l.index
        < flags.len() && flags[l.index as int]);
    if deep {
        Term::Fused { x: Box::new(y), image: Box::new(image_term()), layer: l.index }
    } else {
        y
    }
}

/// The token ids, looked up, with the image among them where the model sees.
pub open spec fn embedded(meta: Meta, table: Text) -> Term<Text> {
    let text = Term::Looked { ids: Box::new(Term::Given("input_ids"@)), table };
    if meta.has_vision_encoder {
        Term::Spliced { text: Box::new(text), media: Box::new(image_term()) }
    } else {
        text
    }
}

/// The layers, one over the other.
pub open spec fn stacked(meta: Meta, layers: Seq<LayerTensors<Text>>, x: Term<Text>) -> Term<Text>
    decreases layers.len(),
{
    if layers.len() == 0 {
        x
    } else {
        layer_term(meta, layers.last(), stacked(meta, layers.drop_last(), x))
    }
}

/// What the model computes: the embedded input, through all layers, normalised
/// and projected to the vocabulary.
pub open spec fn logits_term(meta: Meta, group: TensorGroupMap) -> Term<Text> {
    let table = match group.embed_tokens {
        Some(name) => name@,
        None => "model.embed_tokens.weight"@,
    };
    let head = match group.lm_head {
        Some(name) if !meta.tie_word_embeddings => name@,
        _ => table,
    };
    let last = match group.final_norm {
        Some(name) => name@,
        None => "model.norm.weight"@,
    };
    let x = stacked(meta, layers_view(group.layers@), embedded(meta, table));
    times(norm(x, last, meta.rms_norm_eps), head, None)
}

/// What is at hand when the graph is run.
pub open spec fn at_start() -> Map<Text, Term<Text>> {
    Map::<Text, Term<Text>>::empty().insert("input_ids"@, Term::Given("input_ids"@)).insert(
        "pixel_values"@,
        Term::Given("pixel_values"@),
    )
}

/// A name that layer `i` does not write before it is done with its input.
spec fn lasts(name: Text, i: usize) -> bool {
    !of_layer(name, i) || turn(name) >= 17
}

proof fn lemma_attention_means(
    meta: Meta,
    l: LayerTensors<Text>,
    input: Text,
    env: Map<Text, Term<Text>>,
    x: Term<Text>,
)
    requires
        env[input] == x,
        lasts(input, l.index),
    ensures
        ({
            let i = l.index;
            let ops = projection_ops(meta, l, input) + norm_ops(
                l.q_norm,
                act_name(i, "q_proj"@),
                act_name(i, "q_normed"@),
            ) + norm_ops(l.k_norm, act_name(i, "k_proj"@), act_name(i, "k_normed"@)) + seq![
                rope_op(meta, l),
            ] + attention_ops(meta, l, input);
            let h = sum(x, attention_of(meta, l, x));
            let after = run(ops, env);
            &&& after[act_name(i, "post_attn"@)] == h
            &&& after[act_name(i, "post_norm"@)] == norm(
                h,
                tensor(l.post_attention_layernorm, i, "post_attention_layernorm.weight"@),
                meta.rms_norm_eps,
            )
            &&& after["visual_embeddings"@] == env["visual_embeddings"@]
        }),
{
    reveal_with_fuel(run, 5);
    let i = l.index;
    lemma_turns(i);
    lemma_outer_names();
    let a = projection_ops(meta, l, input);
    let b = norm_ops(l.q_norm, act_name(i, "q_proj"@), act_name(i, "q_normed"@));
    let c = norm_ops(l.k_norm, act_name(i, "k_proj"@), act_name(i, "k_normed"@));
    let d = seq![rope_op(meta, l)];
    let e = attention_ops(meta, l, input);
    let y = norm(x, tensor(l.input_layernorm, i, "input_layernorm.weight"@), meta.rms_norm_eps);
    let q = times(y, tensor(l.q_proj, i, "self_attn.q_proj.weight"@), l.q_bias);
    let k = times(y, tensor(l.k_proj, i, "self_attn.k_proj.weight"@), l.k_bias);
    let v = times(y, tensor(l.v_proj, i, "self_attn.v_proj.weight"@), l.v_bias);
    lemma_run_join(a, b, env);
    lemma_run_join(a + b, c, env);
    lemma_run_join(a + b + c, d, env);
    lemma_run_join(a + b + c + d, e, env);
    let ea = run(a, env);
    let a1 = a.drop_last();
    let a2 = a1.drop_last();
    let a3 = a2.drop_last();
    let e0 = run(a3, env);
    assert(a3.drop_last() =~= Seq::empty());
    assert(e0 == step(env, a[0]));
    let e1 = run(a2, env);
    assert(e1 == step(e0, a[1]));
    let e2 = run(a1, env);
    assert(e2 == step(e1, a[2]));
    assert(ea == step(e2, a[3]));
    assert(e0[act_name(i, "pre_norm"@)] == y);
    assert(ea[act_name(i, "q_proj"@)] == q);
    assert(ea[act_name(i, "k_proj"@)] == k);
    assert(ea[act_name(i, "v_proj"@)] == v);
    assert(ea[input] == x);
    let eb = run(b, ea);
    let ec = run(c, eb);
    let ed = run(d, ec);
    match l.q_norm {
        Some(w) => {
            assert(b.drop_last() =~= Seq::empty());
            assert(eb == step(ea, b[0]));
        },
        None => {},
    }
    match l.k_norm {
        Some(w) => {
            assert(c.drop_last() =~= Seq::empty());
            assert(ec == step(eb, c[0]));
        },
        None => {},
    }
    assert(d.drop_last() =~= Seq::empty());
    assert(ed == step(ec, d[0]));
    assert(ec[input] == x && ec[act_name(i, "v_proj"@)] == v);
    assert(ed[act_name(i, "q_rope"@)] == placed(meta, i, l.q_norm, q));
    assert(ed[act_name(i, "k_rope"@)] == placed(meta, i, l.k_norm, k));
    assert(ed[act_name(i, "v_proj"@)] == v);
    assert(ed[input] == x);
    let b1 = e.drop_last();
    let b2 = b1.drop_last();
    let b3 = b2.drop_last();
    assert(b3.drop_last() =~= Seq::empty());
    let f0 = run(b3, ed);
    assert(f0 == step(ed, e[0]));
    let f1 = run(b2, ed);
    assert(f1 == step(f0, e[1]));
    let f2 = run(b1, ed);
    assert(f2 == step(f1, e[2]));
    assert(run(e, ed) == step(f2, e[3]));
    assert(f1[act_name(i, "o_proj"@)] == attention_of(meta, l, x));
    assert(f1[input] == x);
}

proof fn lemma_feed_forward_means(
    meta: Meta,
    l: LayerTensors<Text>,
    env: Map<Text, Term<Text>>,
    h: Term<Text>,
)
    requires
        env[act_name(l.index, "post_attn"@)] == h,
        env[act_name(l.index, "post_norm"@)] == norm(
            h,
            tensor(l.post_attention_layernorm, l.index, "post_attention_layernorm.weight"@),
            meta.rms_norm_eps,
        ),
        meta.has_vision_encoder ==> env["visual_embeddings"@] == image_term(),
    ensures
        ({
            let after = run(mlp_ops(meta, l) + exit_ops(meta, l), env);
            let y = sum(h, feed_forward_of(meta, l, h));
            let deep = meta.has_vision_encoder && (meta.is_deepstack_layers matches Some(flags)
                && l.index < flags.len() && flags[l.index as int]);
            &&& after[layer_output(meta, l)] == if deep {
                Term::Fused { x: Box::new(y), image: Box::new(image_term()), layer: l.index }
            } else {
                y
            }
            &&& after["visual_embeddings"@] == env["visual_embeddings"@]
        }),
{
    reveal_with_fuel(run, 6);
    let i = l.index;
    lemma_turns(i);
    lemma_outer_names();
    let a = mlp_ops(meta, l);
    let b = exit_ops(meta, l);
    lemma_run_join(a, b, env);
    let e = run(a, env);
    let a1 = a.drop_last();
    let a2 = a1.drop_last();
    let e2 = run(a2, env);
    let e1 = run(a1, env);
    assert(e1 == step(e2, a1.last()));
    assert(e == step(e1, a.last()));
    match l.gate_proj {
        Some(gate) => {
            let a3 = a2.drop_last();
            let a4 = a3.drop_last();
            assert(a4.drop_last() =~= Seq::empty());
            let e4 = run(a4, env);
            let e3 = run(a3, env);
            assert(e4 == step(env, a[0]));
            assert(e3 == step(e4, a[1]));
            assert(e2 == step(e3, a[2]));
        },
        None => {
            assert(a2.drop_last() =~= Seq::empty());
            assert(e2 == step(env, a[0]));
        },
    }
    assert(e[act_name(i, "mlp_out"@)] == feed_forward_of(meta, l, h));
    assert(e[act_name(i, "post_attn"@)] == h);
    if fuses(meta, i) {
        let b1 = b.drop_last();
        assert(b1.drop_last() =~= Seq::empty());
        assert(run(b1, e) == step(e, b[0]));
    } else {
        assert(b.drop_last() =~= Seq::empty());
        assert(run(b, e) == step(e, b[0]));
    }
}

proof fn lemma_layer_means(
    meta: Meta,
    l: LayerTensors<Text>,
    input: Text,
    env: Map<Text, Term<Text>>,
    x: Term<Text>,
)
    requires
        env[input] == x,
        lasts(input, l.index),
        meta.has_vision_encoder ==> env["visual_embeddings"@] == image_term(),
    ensures
        run(layer_ops(meta, l, input), env)[layer_output(meta, l)] == layer_term(meta, l, x),
        run(layer_ops(meta, l, input), env)["visual_embeddings"@] == env["visual_embeddings"@],
{
    let i = l.index;
    let front = projection_ops(meta, l, input) + norm_ops(
        l.q_norm,
        act_name(i, "q_proj"@),
        act_name(i, "q_normed"@),
    ) + norm_ops(l.k_norm, act_name(i, "k_proj"@), act_name(i, "k_normed"@)) + seq![
        rope_op(meta, l),
    ] + attention_ops(meta, l, input);
    let back = mlp_ops(meta, l) + exit_ops(meta, l);
    lemma_attention_means(meta, l, input, env, x);
    lemma_feed_forward_means(meta, l, run(front, env), sum(x, attention_of(meta, l, x)));
    lemma_run_join(front, back, env);
    assert(layer_ops(meta, l, input) =~= front + back);
}

proof fn lemma_stack_means(
    meta: Meta,
    layers: Seq<LayerTensors<Text>>,
    env: Map<Text, Term<Text>>,
    x: Term<Text>,
)
    requires
        env[entry_output(meta)] == x,
        meta.has_vision_encoder ==> env["visual_embeddings"@] == image_term(),
    ensures
        run(stack_ops(meta, layers), env)[hidden_after(meta, layers)] == stacked(meta, layers, x),
        run(stack_ops(meta, layers), env)["visual_embeddings"@] == env["visual_embeddings"@],
    decreases layers.len(),
{
    if layers.len() > 0 {
        let below = layers.drop_last();
        let l = layers.last();
        let input = hidden_after(meta, below);
        lemma_stack_means(meta, below, env, x);
        lemma_outer_names();
        if below.len() > 0 {
            lemma_turns(below.last().index);
        }
        assert(lasts(input, l.index));
        lemma_layer_means(
            meta,
            l,
            input,
            run(stack_ops(meta, below), env),
            stacked(meta, below, x),
        );
        lemma_run_join(stack_ops(meta, below), layer_ops(meta, l, input), env);
    }
}

proof fn lemma_entry_means(meta: Meta, embed: Text)
    ensures
        ({
            let e = run(entry_ops(meta, embed), at_start());
            &&& e[entry_output(meta)] == embedded(meta, embed)
            &&& meta.has_vision_encoder ==> e["visual_embeddings"@] == image_term()
        }),
{
    lemma_outer_names();
    assert("input_ids"@.len() == 9 && "pixel_values"@.len() == 12) by {
        reveal_strlit("input_ids");
        reveal_strlit("pixel_values");
    }
    let entry = entry_ops(meta, embed);
    let env = at_start();
    if meta.has_vision_encoder {
        let e1 = entry.drop_last();
        let e2 = e1.drop_last();
        assert(e2.drop_last() =~= Seq::empty());
        assert(run(e2.drop_last(), env) == env);
        assert(run(e2, env) == step(env, entry[0]));
        assert(run(e1, env) == step(run(e2, env), entry[1]));
        assert(run(entry, env) == step(run(e1, env), entry[2]));
    } else {
        assert(entry.drop_last() =~= Seq::empty());
        assert(run(entry.drop_last(), env) == env);
        assert(run(entry, env) == step(env, entry[0]));
    }
}

proof fn lemma_tail_means(
    meta: Meta,
    final_norm: Option<Text>,
    lm_head: Option<Text>,
    embed: Text,
    input: Text,
    s: Map<Text, Term<Text>>,
)
    ensures
        run(logit_ops(meta, final_norm, lm_head, embed, input), s)["logits"@] == times(
            norm(
                s[input],
                match final_norm {
                    Some(name) => name,
                    None => "model.norm.weight"@,
                },
                meta.rms_norm_eps,
            ),
            match lm_head {
                Some(name) if !meta.tie_word_embeddings => name,
                _ => embed,
            },
            None,
        ),
{
    let tail = logit_ops(meta, final_norm, lm_head, embed, input);
    let t1 = tail.drop_last();
    assert(t1.drop_last() =~= Seq::empty());
    assert(run(t1.drop_last(), s) == s);
    assert(run(t1, s) == step(s, tail[0]));
    assert(run(tail, s) == step(run(t1, s), tail[1]));
}

/// The graph computes the decoder: run in order from the token ids and the
/// pixels, what it writes as logits is the embedded input taken through every
/// layer, each with its own tensors in their own parts, then normalised and
/// projected.
pub proof fn law_graph_computes_decoder(meta: Meta, group: TensorGroupMap)
    ensures
        run(graph_ops(meta, group), at_start())["logits"@] == logits_term(meta, group),
{
    let embed = embed_weight(text_opt(group.embed_tokens));
    let layers = layers_view(group.layers@);
    let entry = entry_ops(meta, embed);
    let stack = stack_ops(meta, layers);
    let (last, head) = (text_opt(group.final_norm), text_opt(group.lm_head));
    let tail = logit_ops(meta, last, head, embed, hidden_after(meta, layers));
    let env = at_start();
    let e = run(entry, env);
    lemma_entry_means(meta, embed);
    lemma_stack_means(meta, layers, e, embedded(meta, embed));
    lemma_run_join(entry, stack, env);
    lemma_run_join(entry + stack, tail, env);
    lemma_tail_means(meta, last, head, embed, hidden_after(meta, layers), run(stack, e));
}

} // verus!
