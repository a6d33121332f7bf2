//! The operators of a compute graph.
use vstd::prelude::*;
use crate::text::Text;
use crate::types::{text_opt, HiddenAct, Real};

verus! {

/// One step of the computation. Tensors are known by name; `S` is how a name
/// is held.
#[derive(Debug, Clone)]
pub enum Operator<S = String> {
    Embed { input_ids: S, weight: S, output: S },
    RMSNorm { input: S, weight: S, output: S, eps: Real },
    MatMul { input: S, weight: S, bias: Option<S>, output: S },
    Rope { q: S, k: S, output_q: S, output_k: S, layer_idx: usize, rope_theta: Real },
    RopeQ { q: S, output_q: S, layer_idx: usize, rope_theta: Real },
    RopeSkip { q: S, k: S, output_q: S, output_k: S },
    PagedAttention {
        q: S,
        k: S,
        v: S,
        output: S,
        layer_idx: usize,
        n_heads: usize,
        n_kv_heads: usize,
        head_dim: usize,
    },
    Activation { input: S, output: S, act: HiddenAct },
    Mul { lhs: S, rhs: S, output: S },
    Add { lhs: S, rhs: S, output: S },
    VisualEmbed { pixel_values: S, output: S },
    SpliceTensors { text_embeds: S, visual_embeds: S, output: S },
    AudioEmbed { audio_values: S, output: S },
    SpliceAudioTensors { text_embeds: S, audio_embeds: S, output: S },
    DeepStackFuse { input: S, layer_idx: usize, output: S },
    Softcap { input: S, output: S, cap: Real },
    Scale { input: S, scale: Real, output: S },
    TensorScale { input: S, scale_tensor: S, output: S },
    PleInput {
        input_ids: S,
        text_embeddings: S,
        per_layer_token_embd: S,
        per_layer_model_proj: S,
        per_layer_proj_norm: S,
        output: S,
    },
    PleLayer {
        input: S,
        per_layer_input: S,
        layer_idx: usize,
        per_layer_input_gate: S,
        per_layer_projection: S,
        post_per_layer_input_norm: S,
        output: S,
    },
}

impl View for Operator {
    type V = Operator<Text>;

    open spec fn view(&self) -> Operator<Text> {
        match *self {
            Operator::Embed { input_ids, weight, output } => Operator::Embed {
                input_ids: input_ids@,
                weight: weight@,
                output: output@,
            },
            Operator::RMSNorm { input, weight, output, eps } => Operator::RMSNorm {
                input: input@,
                weight: weight@,
                output: output@,
                eps,
            },
            Operator::MatMul { input, weight, bias, output } => Operator::MatMul {
                input: input@,
                weight: weight@,
                bias: text_opt(bias),
                output: output@,
            },
            Operator::Rope { q, k, output_q, output_k, layer_idx, rope_theta } => Operator::Rope {
                q: q@,
                k: k@,
                output_q: output_q@,
                output_k: output_k@,
                layer_idx,
                rope_theta,
            },
            Operator::RopeQ { q, output_q, layer_idx, rope_theta } => Operator::RopeQ {
                q: q@,
                output_q: output_q@,
                layer_idx,
                rope_theta,
            },
            Operator::RopeSkip { q, k, output_q, output_k } => Operator::RopeSkip {
                q: q@,
                k: k@,
                output_q: output_q@,
                output_k: output_k@,
            },
            Operator::PagedAttention {
                q,
                k,
                v,
                output,
                layer_idx,
                n_heads,
                n_kv_heads,
                head_dim,
            } => Operator::PagedAttention {
                q: q@,
                k: k@,
                v: v@,
                output: output@,
                layer_idx,
                n_heads,
                n_kv_heads,
                head_dim,
            },
            Operator::Activation { input, output, act } => Operator::Activation {
                input: input@,
                output: output@,
                act,
            },
            Operator::Mul { lhs, rhs, output } => Operator::Mul {
                lhs: lhs@,
                rhs: rhs@,
                output: output@,
            },
            Operator::Add { lhs, rhs, output } => Operator::Add {
                lhs: lhs@,
                rhs: rhs@,
                output: output@,
            },
            Operator::VisualEmbed { pixel_values, output } => Operator::VisualEmbed {
                pixel_values: pixel_values@,
                output: output@,
            },
            Operator::SpliceTensors { text_embeds, visual_embeds, output } =>
                Operator::SpliceTensors {
                text_embeds: text_embeds@,
                visual_embeds: visual_embeds@,
                output: output@,
            },
            Operator::AudioEmbed { audio_values, output } => Operator::AudioEmbed {
                audio_values: audio_values@,
                output: output@,
            },
            Operator::SpliceAudioTensors { text_embeds, audio_embeds, output } =>
                Operator::SpliceAudioTensors {
                text_embeds: text_embeds@,
                audio_embeds: audio_embeds@,
                output: output@,
            },
            Operator::DeepStackFuse { input, layer_idx, output } => Operator::DeepStackFuse {
                input: input@,
                layer_idx,
                output: output@,
            },
            Operator::Softcap { input, output, cap } => Operator::Softcap {
                input: input@,
                output: output@,
                cap,
            },
            Operator::Scale { input, scale, output } => Operator::Scale {
                input: input@,
                scale,
                output: output@,
            },
            Operator::TensorScale { input, scale_tensor, output } => Operator::TensorScale {
                input: input@,
                scale_tensor: scale_tensor@,
                output: output@,
            },
            Operator::PleInput {
                input_ids,
                text_embeddings,
                per_layer_token_embd,
                per_layer_model_proj,
                per_layer_proj_norm,
                output,
            } => Operator::PleInput {
                input_ids: input_ids@,
                text_embeddings: text_embeddings@,
                per_layer_token_embd: per_layer_token_embd@,
                per_layer_model_proj: per_layer_model_proj@,
                per_layer_proj_norm: per_layer_proj_norm@,
                output: output@,
            },
            Operator::PleLayer {
                input,
                per_layer_input,
                layer_idx,
                per_layer_input_gate,
                per_layer_projection,
                post_per_layer_input_norm,
                output,
            } => Operator::PleLayer {
                input: input@,
                per_layer_input: per_layer_input@,
                layer_idx,
                per_layer_input_gate: per_layer_input_gate@,
                per_layer_projection: per_layer_projection@,
                post_per_layer_input_norm: post_per_layer_input_norm@,
                output: output@,
            },
        }
    }
}

/// The activations that an operator reads. Weights are not among them.
pub open spec fn reads(op: Operator<Text>) -> Seq<Text> {
    match op {
        Operator::Embed { input_ids, .. } => seq![input_ids],
        Operator::RMSNorm { input, .. } => seq![input],
        Operator::MatMul { input, .. } => seq![input],
        Operator::Rope { q, k, .. } => seq![q, k],
        Operator::RopeQ { q, .. } => seq![q],
        Operator::RopeSkip { q, k, .. } => seq![q, k],
        Operator::PagedAttention { q, k, v, .. } => seq![q, k, v],
        Operator::Activation { input, .. } => seq![input],
        Operator::Mul { lhs, rhs, .. } => seq![lhs, rhs],
        Operator::Add { lhs, rhs, .. } => seq![lhs, rhs],
        Operator::VisualEmbed { pixel_values, .. } => seq![pixel_values],
        Operator::SpliceTensors { text_embeds, visual_embeds, .. } => seq![
            text_embeds,
            visual_embeds,
        ],
        Operator::AudioEmbed { audio_values, .. } => seq![audio_values],
        Operator::SpliceAudioTensors { text_embeds, audio_embeds, .. } => seq![
            text_embeds,
            audio_embeds,
        ],
        Operator::DeepStackFuse { input, .. } => seq![input, "visual_embeddings"@],
        Operator::Softcap { input, .. } => seq![input],
        Operator::Scale { input, .. } => seq![input],
        Operator::TensorScale { input, .. } => seq![input],
        Operator::PleInput { input_ids, text_embeddings, .. } => seq![input_ids, text_embeddings],
        Operator::PleLayer { input, per_layer_input, .. } => seq![input, per_layer_input],
    }
}

/// The activations that an operator writes.
pub open spec fn writes(op: Operator<Text>) -> Seq<Text> {
    match op {
        Operator::Rope { output_q, output_k, .. } => seq![output_q, output_k],
        Operator::RopeQ { output_q, .. } => seq![output_q],
        Operator::RopeSkip { output_q, output_k, .. } => seq![output_q, output_k],
        Operator::Embed { output, .. } => seq![output],
        Operator::RMSNorm { output, .. } => seq![output],
        Operator::MatMul { output, .. } => seq![output],
        Operator::PagedAttention { output, .. } => seq![output],
        Operator::Activation { output, .. } => seq![output],
        Operator::Mul { output, .. } => seq![output],
        Operator::Add { output, .. } => seq![output],
        Operator::VisualEmbed { output, .. } => seq![output],
        Operator::SpliceTensors { output, .. } => seq![output],
        Operator::AudioEmbed { output, .. } => seq![output],
        Operator::SpliceAudioTensors { output, .. } => seq![output],
        Operator::DeepStackFuse { output, .. } => seq![output],
        Operator::Softcap { output, .. } => seq![output],
        Operator::Scale { output, .. } => seq![output],
        Operator::TensorScale { output, .. } => seq![output],
        Operator::PleInput { output, .. } => seq![output],
        Operator::PleLayer { output, .. } => seq![output],
    }
}

/// Operators in the order in which they run.
#[derive(Debug, Clone)]
pub struct ComputeGraph {
    pub ops: Vec<Operator>,
}

impl View for ComputeGraph {
    type V = Seq<Operator<Text>>;

    open spec fn view(&self) -> Seq<Operator<Text>> {
        self.ops@.map_values(|op: Operator| op@)
    }
}

impl ComputeGraph {
    /// A graph without operators.
    pub fn new() -> (g: Self)
        ensures
            g@ == Seq::<Operator<Text>>::empty(),
    {
        let g = ComputeGraph { ops: Vec::new() };
        assert(g@ =~= Seq::<Operator<Text>>::empty());
        g
    }

    /// Appends an operator.
    pub fn add_op(&mut self, op: Operator)
        ensures
            final(self)@ == old(self)@.push(op@),
    {
        let ghost before = self.ops@;
        self.ops.push(op);
        assert(self@ =~= before.map_values(|o: Operator| o@).push(op@));
    }
}

} // verus!
