//! Which tensors a checkpoint holds, and for which layer.
use vstd::prelude::*;
use crate::text::{
    begins, cut, cut_at, dec, decimal, join2, law_decimal_reads_back, lemma_cut, lemma_dec_digits,
    parse_usize, same, starts_with, strip_prefix, texts, usize_value, Text,
};
use crate::types::text_opt;

verus! {

/// The names of one layer's tensors. `S` is how a name is held.
#[derive(Debug, Clone)]
pub struct LayerTensors<S = String> {
    pub index: usize,
    pub input_layernorm: Option<S>,
    pub q_proj: Option<S>,
    pub q_bias: Option<S>,
    pub k_proj: Option<S>,
    pub k_bias: Option<S>,
    pub v_proj: Option<S>,
    pub v_bias: Option<S>,
    pub q_norm: Option<S>,
    pub k_norm: Option<S>,
    pub o_proj: Option<S>,
    pub o_bias: Option<S>,
    pub post_attention_layernorm: Option<S>,
    pub post_attention_norm: Option<S>,
    pub post_ffw_norm: Option<S>,
    pub gate_proj: Option<S>,
    pub gate_bias: Option<S>,
    pub up_proj: Option<S>,
    pub up_bias: Option<S>,
    pub down_proj: Option<S>,
    pub down_bias: Option<S>,
    pub per_layer_input_gate: Option<S>,
    pub per_layer_projection: Option<S>,
    pub post_per_layer_input_norm: Option<S>,
    pub layer_output_scale: Option<S>,
}

/// The names of all the tensors that the graph uses.
#[derive(Debug, Clone)]
pub struct TensorGroupMap {
    pub embed_tokens: Option<String>,
    pub final_norm: Option<String>,
    pub lm_head: Option<String>,
    pub per_layer_token_embd: Option<String>,
    pub per_layer_model_proj: Option<String>,
    pub per_layer_proj_norm: Option<String>,
    /// By ascending index, each index once.
    pub layers: Vec<LayerTensors>,
}

impl View for LayerTensors {
    type V = LayerTensors<Text>;

    open spec fn view(&self) -> LayerTensors<Text> {
        LayerTensors {
            index: self.index,
            input_layernorm: text_opt(self.input_layernorm),
            q_proj: text_opt(self.q_proj),
            q_bias: text_opt(self.q_bias),
            k_proj: text_opt(self.k_proj),
            k_bias: text_opt(self.k_bias),
            v_proj: text_opt(self.v_proj),
            v_bias: text_opt(self.v_bias),
            q_norm: text_opt(self.q_norm),
            k_norm: text_opt(self.k_norm),
            o_proj: text_opt(self.o_proj),
            o_bias: text_opt(self.o_bias),
            post_attention_layernorm: text_opt(self.post_attention_layernorm),
            post_attention_norm: text_opt(self.post_attention_norm),
            post_ffw_norm: text_opt(self.post_ffw_norm),
            gate_proj: text_opt(self.gate_proj),
            gate_bias: text_opt(self.gate_bias),
            up_proj: text_opt(self.up_proj),
            up_bias: text_opt(self.up_bias),
            down_proj: text_opt(self.down_proj),
            down_bias: text_opt(self.down_bias),
            per_layer_input_gate: text_opt(self.per_layer_input_gate),
            per_layer_projection: text_opt(self.per_layer_projection),
            post_per_layer_input_norm: text_opt(self.post_per_layer_input_norm),
            layer_output_scale: text_opt(self.layer_output_scale),
        }
    }
}

/// The layers of a scan.
pub open spec fn layers_view(layers: Seq<LayerTensors>) -> Seq<LayerTensors<Text>> {
    layers.map_values(|l: LayerTensors| l@)
}

/// The part of a block tensor's name behind the layer index, in the naming of
/// the decoder.
pub open spec fn block_suffix(suffix: Text) -> Text {
    if suffix == "attn_q.weight"@ {
        "self_attn.q_proj.weight"@
    } else if suffix == "attn_k.weight"@ {
        "self_attn.k_proj.weight"@
    } else if suffix == "attn_v.weight"@ {
        "self_attn.v_proj.weight"@
    } else if suffix == "attn_output.weight"@ {
        "self_attn.o_proj.weight"@
    } else if suffix == "ffn_gate.weight"@ {
        "mlp.gate_proj.weight"@
    } else if suffix == "ffn_up.weight"@ {
        "mlp.up_proj.weight"@
    } else if suffix == "ffn_down.weight"@ {
        "mlp.down_proj.weight"@
    } else if suffix == "attn_norm.weight"@ {
        "input_layernorm.weight"@
    } else if suffix == "ffn_norm.weight"@ {
        "post_attention_layernorm.weight"@
    } else if suffix == "attn_q.bias"@ {
        "self_attn.q_proj.bias"@
    } else if suffix == "attn_k.bias"@ {
        "self_attn.k_proj.bias"@
    } else if suffix == "attn_v.bias"@ {
        "self_attn.v_proj.bias"@
    } else if suffix == "attn_output.bias"@ {
        "self_attn.o_proj.bias"@
    } else if suffix == "ffn_gate.bias"@ {
        "mlp.gate_proj.bias"@
    } else if suffix == "ffn_up.bias"@ {
        "mlp.up_proj.bias"@
    } else if suffix == "ffn_down.bias"@ {
        "mlp.down_proj.bias"@
    } else if suffix == "inp_gate.weight"@ {
        "per_layer_input_gate.weight"@
    } else if suffix == "proj.weight"@ {
        "per_layer_projection.weight"@
    } else if suffix == "post_norm.weight"@ {
        "post_per_layer_input_norm.weight"@
    } else {
        suffix
    }
}

/// The decoder's name for a tensor that a GGUF file calls `name`.
pub open spec fn decoder_name(name: Text) -> Text {
    if name == "token_embd.weight"@ {
        "model.embed_tokens.weight"@
    } else if name == "output_norm.weight"@ {
        "model.norm.weight"@
    } else if name == "output.weight"@ {
        "lm_head.weight"@
    } else if name == "per_layer_inp.weight"@ || name == "per_layer_token_embd.weight"@ || name
        == "per_layer_embed.weight"@ {
        "per_layer_token_embd.weight"@
    } else if name == "per_layer_proj.weight"@ || name == "per_layer_model_proj.weight"@ {
        "per_layer_model_proj.weight"@
    } else if name == "per_layer_norm.weight"@ || name == "per_layer_proj_norm.weight"@ {
        "per_layer_proj_norm.weight"@
    } else {
        match numbered(name, "blk."@) {
            Some((layer, suffix)) => layer_name(layer as nat, block_suffix(suffix)),
            None => name,
        }
    }
}

/// `prefix`, a layer index, a dot and the rest: the index and the rest.
#[verifier::opaque]
pub open spec fn numbered(name: Text, prefix: Text) -> Option<(usize, Text)> {
    if begins(name, prefix) {
        match cut(name.skip(prefix.len() as int), '.') {
            Some((index, rest)) => match usize_value(index) {
                Some(layer) => Some((layer, rest)),
                None => None,
            },
            None => None,
        }
    } else {
        None
    }
}

/// The name of a tensor of layer `layer`.
pub open spec fn layer_name(layer: nat, suffix: Text) -> Text {
    "model.layers."@ + dec(layer) + "."@ + suffix
}

/// Takes a name of the form `prefix`, layer index, dot, rest apart.
pub fn numbered_parts(name: &str, prefix: &str) -> (parts: Option<(usize, String)>)
    ensures
        match parts {
            Some((layer, rest)) => numbered(name@, prefix@) == Some((layer, rest@)),
            None => numbered(name@, prefix@) is None,
        },
{
    reveal(numbered);
    match strip_prefix(name, prefix) {
        Some(remain) => match cut_at(&remain, '.') {
            Some((index, rest)) => match parse_usize(&index) {
                Some(layer) => Some((layer, rest)),
                None => None,
            },
            None => None,
        },
        None => None,
    }
}

fn map_block_suffix(suffix: &str) -> (out: String)
    ensures
        out@ == block_suffix(suffix@),
{
    if same(suffix, "attn_q.weight") {
        "self_attn.q_proj.weight".to_string()
    } else if same(suffix, "attn_k.weight") {
        "self_attn.k_proj.weight".to_string()
    } else if same(suffix, "attn_v.weight") {
        "self_attn.v_proj.weight".to_string()
    } else if same(suffix, "attn_output.weight") {
        "self_attn.o_proj.weight".to_string()
    } else if same(suffix, "ffn_gate.weight") {
        "mlp.gate_proj.weight".to_string()
    } else if same(suffix, "ffn_up.weight") {
        "mlp.up_proj.weight".to_string()
    } else if same(suffix, "ffn_down.weight") {
        "mlp.down_proj.weight".to_string()
    } else if same(suffix, "attn_norm.weight") {
        "input_layernorm.weight".to_string()
    } else if same(suffix, "ffn_norm.weight") {
        "post_attention_layernorm.weight".to_string()
    } else if same(suffix, "attn_q.bias") {
        "self_attn.q_proj.bias".to_string()
    } else if same(suffix, "attn_k.bias") {
        "self_attn.k_proj.bias".to_string()
    } else if same(suffix, "attn_v.bias") {
        "self_attn.v_proj.bias".to_string()
    } else if same(suffix, "attn_output.bias") {
        "self_attn.o_proj.bias".to_string()
    } else if same(suffix, "ffn_gate.bias") {
        "mlp.gate_proj.bias".to_string()
    } else if same(suffix, "ffn_up.bias") {
        "mlp.up_proj.bias".to_string()
    } else if same(suffix, "ffn_down.bias") {
        "mlp.down_proj.bias".to_string()
    } else if same(suffix, "inp_gate.weight") {
        "per_layer_input_gate.weight".to_string()
    } else if same(suffix, "proj.weight") {
        "per_layer_projection.weight".to_string()
    } else if same(suffix, "post_norm.weight") {
        "post_per_layer_input_norm.weight".to_string()
    } else {
        suffix.to_string()
    }
}

/// Renders the name of a tensor of layer `layer`.
pub fn name_in_layer(layer: usize, suffix: &str) -> (out: String)
    ensures
        out@ == layer_name(layer as nat, suffix@),
{
    let mut out = join2("model.layers.", &decimal(layer as u64));
    out.append(".");
    out.append(suffix);
    out
}

/// Translates a GGUF tensor name into the decoder's naming. Names that are not
/// GGUF's are kept.
pub fn map_gguf_name(name: &str) -> (out: String)
    ensures
        out@ == decoder_name(name@),
{
    if same(name, "token_embd.weight") {
        return "model.embed_tokens.weight".to_string();
    }
    if same(name, "output_norm.weight") {
        return "model.norm.weight".to_string();
    }
    if same(name, "output.weight") {
        return "lm_head.weight".to_string();
    }
    if same(name, "per_layer_inp.weight") || same(name, "per_layer_token_embd.weight") || same(
        name,
        "per_layer_embed.weight",
    ) {
        return "per_layer_token_embd.weight".to_string();
    }
    if same(name, "per_layer_proj.weight") || same(name, "per_layer_model_proj.weight") {
        return "per_layer_model_proj.weight".to_string();
    }
    if same(name, "per_layer_norm.weight") || same(name, "per_layer_proj_norm.weight") {
        return "per_layer_proj_norm.weight".to_string();
    }
    match numbered_parts(name, "blk.") {
        Some((layer, suffix)) => {
            let mapped = map_block_suffix(&suffix);
            name_in_layer(layer, &mapped)
        },
        None => name.to_string(),
    }
}

/// A name that starts like none of GGUF's own is kept.
proof fn lemma_other_start_kept(name: Text)
    requires
        name.len() > 0,
        name[0] == 'm' || name[0] == 'l',
    ensures
        decoder_name(name) == name,
{
    reveal_strlit("token_embd.weight");
    reveal_strlit("output_norm.weight");
    reveal_strlit("output.weight");
    reveal_strlit("per_layer_inp.weight");
    reveal_strlit("per_layer_token_embd.weight");
    reveal_strlit("per_layer_embed.weight");
    reveal_strlit("per_layer_proj.weight");
    reveal_strlit("per_layer_model_proj.weight");
    reveal_strlit("per_layer_norm.weight");
    reveal_strlit("per_layer_proj_norm.weight");
    assert(numbered(name, "blk."@) is None) by {
        lemma_not_numbered(name);
    }
}

proof fn lemma_not_numbered(name: Text)
    requires
        name.len() > 0,
        name[0] != 'b',
    ensures
        numbered(name, "blk."@) is None,
{
    reveal(numbered);
    reveal_strlit("blk.");
    if begins(name, "blk."@) {
        assert(name.subrange(0, 4)[0] == "blk."@[0]);
    }
}

proof fn lemma_per_layer_kept()
    ensures
        decoder_name("per_layer_token_embd.weight"@) == "per_layer_token_embd.weight"@,
        decoder_name("per_layer_model_proj.weight"@) == "per_layer_model_proj.weight"@,
        decoder_name("per_layer_proj_norm.weight"@) == "per_layer_proj_norm.weight"@,
{
    reveal_strlit("token_embd.weight");
    reveal_strlit("output_norm.weight");
    reveal_strlit("output.weight");
    reveal_strlit("per_layer_inp.weight");
    reveal_strlit("per_layer_token_embd.weight");
    reveal_strlit("per_layer_embed.weight");
    reveal_strlit("per_layer_proj.weight");
    reveal_strlit("per_layer_model_proj.weight");
    reveal_strlit("per_layer_norm.weight");
    reveal_strlit("per_layer_proj_norm.weight");
    assert("per_layer_token_embd.weight"@[0] == 'p');
    assert("per_layer_token_embd.weight"@[10] != "per_layer_model_proj.weight"@[10]);
    assert("per_layer_inp.weight"@.len() == 20);
    assert("per_layer_embed.weight"@.len() == 22);
    assert("per_layer_proj.weight"@.len() == 21);
    assert("per_layer_norm.weight"@.len() == 21);
    assert("per_layer_model_proj.weight"@.len() == 27);
    assert("per_layer_proj_norm.weight"@.len() == 26);
}

/// A name in the decoder's naming keeps itself: translating twice is
/// translating once.
pub proof fn law_decoder_name_settles(name: Text)
    ensures
        decoder_name(decoder_name(name)) == decoder_name(name),
{
    let out = decoder_name(name);
    if out.len() > 0 && (out[0] == 'm' || out[0] == 'l') {
        lemma_other_start_kept(out);
    } else {
        reveal_strlit("model.embed_tokens.weight");
        reveal_strlit("model.norm.weight");
        reveal_strlit("lm_head.weight");
        lemma_per_layer_kept();
        if let Some((layer, suffix)) = numbered(name, "blk."@) {
            reveal_strlit("model.layers.");
            let full = layer_name(layer as nat, block_suffix(suffix));
            assert(full[0] == "model.layers."@[0]);
        }
    }
}

/// The decoder's names for a list of tensors.
pub open spec fn decoder_names(names: Seq<Text>) -> Seq<Text> {
    names.map_values(|n: Text| decoder_name(n))
}

/// The last of `names` that belongs to layer `layer` and ends in `suffix`.
pub open spec fn last_named(names: Seq<Text>, layer: usize, suffix: Text) -> Option<Text>
    decreases names.len(),
{
    if names.len() == 0 {
        None
    } else if numbered(names.last(), "model.layers."@) == Some((layer, suffix)) {
        Some(names.last())
    } else {
        last_named(names.drop_last(), layer, suffix)
    }
}

/// `name`, if it is among `names`.
pub open spec fn if_present(names: Seq<Text>, name: Text) -> Option<Text> {
    if names.contains(name) {
        Some(name)
    } else {
        None
    }
}

/// The layer that a tensor belongs to, by its name.
pub open spec fn layer_index(name: Text) -> Option<usize> {
    match numbered(name, "model.layers."@) {
        Some((layer, _)) => Some(layer),
        None => None,
    }
}

/// Some tensor belongs to layer `layer`.
pub open spec fn has_layer(names: Seq<Text>, layer: usize) -> bool {
    exists|k: int| 0 <= k < names.len() && #[trigger] layer_index(names[k]) == Some(layer)
}

/// What `names`, already in the decoder's naming, say of layer `layer`.
#[verifier::opaque]
pub open spec fn layer_tensors(names: Seq<Text>, layer: usize) -> LayerTensors<Text> {
    LayerTensors {
        index: layer,
        input_layernorm: last_named(names, layer, "input_layernorm.weight"@),
        q_proj: last_named(names, layer, "self_attn.q_proj.weight"@),
        q_bias: last_named(names, layer, "self_attn.q_proj.bias"@),
        k_proj: last_named(names, layer, "self_attn.k_proj.weight"@),
        k_bias: last_named(names, layer, "self_attn.k_proj.bias"@),
        v_proj: last_named(names, layer, "self_attn.v_proj.weight"@),
        v_bias: last_named(names, layer, "self_attn.v_proj.bias"@),
        q_norm: last_named(names, layer, "attn_q_norm.weight"@),
        k_norm: last_named(names, layer, "attn_k_norm.weight"@),
        o_proj: last_named(names, layer, "self_attn.o_proj.weight"@),
        o_bias: last_named(names, layer, "self_attn.o_proj.bias"@),
        post_attention_layernorm: last_named(names, layer, "post_attention_layernorm.weight"@),
        post_attention_norm: last_named(names, layer, "post_attention_norm.weight"@),
        post_ffw_norm: last_named(names, layer, "post_ffw_norm.weight"@),
        gate_proj: last_named(names, layer, "mlp.gate_proj.weight"@),
        gate_bias: last_named(names, layer, "mlp.gate_proj.bias"@),
        up_proj: last_named(names, layer, "mlp.up_proj.weight"@),
        up_bias: last_named(names, layer, "mlp.up_proj.bias"@),
        down_proj: last_named(names, layer, "mlp.down_proj.weight"@),
        down_bias: last_named(names, layer, "mlp.down_proj.bias"@),
        per_layer_input_gate: last_named(names, layer, "per_layer_input_gate.weight"@),
        per_layer_projection: last_named(names, layer, "per_layer_projection.weight"@),
        post_per_layer_input_norm: last_named(names, layer, "post_per_layer_input_norm.weight"@),
        layer_output_scale: last_named(names, layer, "layer_output_scale.weight"@),
    }
}

/// A layer after its tensor `name`, which ends in `suffix`, has been noted.
#[verifier::opaque]
pub open spec fn noted(l: LayerTensors<Text>, suffix: Text, name: Text) -> LayerTensors<Text> {
    LayerTensors {
        index: l.index,
        input_layernorm: if suffix == "input_layernorm.weight"@ {
            Some(name)
        } else {
            l.input_layernorm
        },
        q_proj: if suffix == "self_attn.q_proj.weight"@ {
            Some(name)
        } else {
            l.q_proj
        },
        q_bias: if suffix == "self_attn.q_proj.bias"@ {
            Some(name)
        } else {
            l.q_bias
        },
        k_proj: if suffix == "self_attn.k_proj.weight"@ {
            Some(name)
        } else {
            l.k_proj
        },
        k_bias: if suffix == "self_attn.k_proj.bias"@ {
            Some(name)
        } else {
            l.k_bias
        },
        v_proj: if suffix == "self_attn.v_proj.weight"@ {
            Some(name)
        } else {
            l.v_proj
        },
        v_bias: if suffix == "self_attn.v_proj.bias"@ {
            Some(name)
        } else {
            l.v_bias
        },
        q_norm: if suffix == "attn_q_norm.weight"@ {
            Some(name)
        } else {
            l.q_norm
        },
        k_norm: if suffix == "attn_k_norm.weight"@ {
            Some(name)
        } else {
            l.k_norm
        },
        o_proj: if suffix == "self_attn.o_proj.weight"@ {
            Some(name)
        } else {
            l.o_proj
        },
        o_bias: if suffix == "self_attn.o_proj.bias"@ {
            Some(name)
        } else {
            l.o_bias
        },
        post_attention_layernorm: if suffix == "post_attention_layernorm.weight"@ {
            Some(name)
        } else {
            l.post_attention_layernorm
        },
        post_attention_norm: if suffix == "post_attention_norm.weight"@ {
            Some(name)
        } else {
            l.post_attention_norm
        },
        post_ffw_norm: if suffix == "post_ffw_norm.weight"@ {
            Some(name)
        } else {
            l.post_ffw_norm
        },
        gate_proj: if suffix == "mlp.gate_proj.weight"@ {
            Some(name)
        } else {
            l.gate_proj
        },
        gate_bias: if suffix == "mlp.gate_proj.bias"@ {
            Some(name)
        } else {
            l.gate_bias
        },
        up_proj: if suffix == "mlp.up_proj.weight"@ {
            Some(name)
        } else {
            l.up_proj
        },
        up_bias: if suffix == "mlp.up_proj.bias"@ {
            Some(name)
        } else {
            l.up_bias
        },
        down_proj: if suffix == "mlp.down_proj.weight"@ {
            Some(name)
        } else {
            l.down_proj
        },
        down_bias: if suffix == "mlp.down_proj.bias"@ {
            Some(name)
        } else {
            l.down_bias
        },
        per_layer_input_gate: if suffix == "per_layer_input_gate.weight"@ {
            Some(name)
        } else {
            l.per_layer_input_gate
        },
        per_layer_projection: if suffix == "per_layer_projection.weight"@ {
            Some(name)
        } else {
            l.per_layer_projection
        },
        post_per_layer_input_norm: if suffix == "post_per_layer_input_norm.weight"@ {
            Some(name)
        } else {
            l.post_per_layer_input_norm
        },
        layer_output_scale: if suffix == "layer_output_scale.weight"@ {
            Some(name)
        } else {
            l.layer_output_scale
        },
    }
}

fn empty_layer(index: usize) -> (l: LayerTensors)
    ensures
        l@ == layer_tensors(Seq::empty(), index),
        l.index == index,
{
    reveal(layer_tensors);
    LayerTensors {
        index,
        input_layernorm: None,
        q_proj: None,
        q_bias: None,
        k_proj: None,
        k_bias: None,
        v_proj: None,
        v_bias: None,
        q_norm: None,
        k_norm: None,
        o_proj: None,
        o_bias: None,
        post_attention_layernorm: None,
        post_attention_norm: None,
        post_ffw_norm: None,
        gate_proj: None,
        gate_bias: None,
        up_proj: None,
        up_bias: None,
        down_proj: None,
        down_bias: None,
        per_layer_input_gate: None,
        per_layer_projection: None,
        post_per_layer_input_norm: None,
        layer_output_scale: None,
    }
}

fn note_in(slot: &mut Option<String>, suffix: &str, wanted: &str, name: &str)
    ensures
        text_opt(*final(slot)) == if suffix@ == wanted@ {
            Some(name@)
        } else {
            text_opt(*old(slot))
        },
{
    if same(suffix, wanted) {
        *slot = Some(name.to_string());
    }
}

fn note_tensor(l: &mut LayerTensors, suffix: &str, name: &str)
    ensures
        final(l)@ == noted(old(l)@, suffix@, name@),
{
    reveal(noted);
    note_in(&mut l.input_layernorm, suffix, "input_layernorm.weight", name);
    note_in(&mut l.q_proj, suffix, "self_attn.q_proj.weight", name);
    note_in(&mut l.q_bias, suffix, "self_attn.q_proj.bias", name);
    note_in(&mut l.k_proj, suffix, "self_attn.k_proj.weight", name);
    note_in(&mut l.k_bias, suffix, "self_attn.k_proj.bias", name);
    note_in(&mut l.v_proj, suffix, "self_attn.v_proj.weight", name);
    note_in(&mut l.v_bias, suffix, "self_attn.v_proj.bias", name);
    note_in(&mut l.q_norm, suffix, "attn_q_norm.weight", name);
    note_in(&mut l.k_norm, suffix, "attn_k_norm.weight", name);
    note_in(&mut l.o_proj, suffix, "self_attn.o_proj.weight", name);
    note_in(&mut l.o_bias, suffix, "self_attn.o_proj.bias", name);
    note_in(&mut l.post_attention_layernorm, suffix, "post_attention_layernorm.weight", name);
    note_in(&mut l.post_attention_norm, suffix, "post_attention_norm.weight", name);
    note_in(&mut l.post_ffw_norm, suffix, "post_ffw_norm.weight", name);
    note_in(&mut l.gate_proj, suffix, "mlp.gate_proj.weight", name);
    note_in(&mut l.gate_bias, suffix, "mlp.gate_proj.bias", name);
    note_in(&mut l.up_proj, suffix, "mlp.up_proj.weight", name);
    note_in(&mut l.up_bias, suffix, "mlp.up_proj.bias", name);
    note_in(&mut l.down_proj, suffix, "mlp.down_proj.weight", name);
    note_in(&mut l.down_bias, suffix, "mlp.down_proj.bias", name);
    note_in(&mut l.per_layer_input_gate, suffix, "per_layer_input_gate.weight", name);
    note_in(&mut l.per_layer_projection, suffix, "per_layer_projection.weight", name);
    note_in(&mut l.post_per_layer_input_norm, suffix, "post_per_layer_input_norm.weight", name);
    note_in(&mut l.layer_output_scale, suffix, "layer_output_scale.weight", name);
}

proof fn lemma_layer_step(names: Seq<Text>, name: Text, layer: usize)
    ensures
        layer_tensors(names.push(name), layer) == (match numbered(name, "model.layers."@) {
            Some((l, suffix)) => if l == layer {
                noted(layer_tensors(names, layer), suffix, name)
            } else {
                layer_tensors(names, layer)
            },
            None => layer_tensors(names, layer),
        }),
        layer_tensors(names, layer).index == layer,
        layer_tensors(names.push(name), layer).index == layer,
{
    reveal(layer_tensors);
    reveal(noted);
    assert(names.push(name).drop_last() =~= names);
    assert(names.push(name).last() == name);
}

proof fn lemma_has_layer_step(names: Seq<Text>, name: Text, layer: usize)
    ensures
        has_layer(names.push(name), layer) == (has_layer(names, layer) || layer_index(name) == Some(
            layer,
        )),
{
    let all = names.push(name);
    if has_layer(names, layer) {
        let k = choose|k: int|
            0 <= k < names.len() && #[trigger] layer_index(names[k]) == Some(layer);
        assert(layer_index(all[k]) == Some(layer));
    }
    if layer_index(name) == Some(layer) {
        assert(layer_index(all[names.len() as int]) == Some(layer));
    }
    if has_layer(all, layer) {
        let k = choose|k: int|
            0 <= k < all.len() && #[trigger] layer_index(all[k]) == Some(layer);
        if k < names.len() {
            assert(layer_index(names[k]) == Some(layer));
        }
    }
}

proof fn lemma_if_present_step(names: Seq<Text>, name: Text, wanted: Text)
    ensures
        if_present(names.push(name), wanted) == if name == wanted {
            Some(wanted)
        } else {
            if_present(names, wanted)
        },
{
    let all = names.push(name);
    if names.contains(wanted) {
        let k = choose|k: int| 0 <= k < names.len() && names[k] == wanted;
        assert(all[k] == wanted);
    }
    if name == wanted {
        assert(all[names.len() as int] == wanted);
    }
    if all.contains(wanted) && name != wanted {
        let k = choose|k: int| 0 <= k < all.len() && all[k] == wanted;
        assert(names[k] == wanted);
    }
}

/// The layers come by ascending index.
pub open spec fn ascending(layers: Seq<LayerTensors<Text>>) -> bool {
    forall|a: int, b: int|
        #![trigger layers[a], layers[b]]
        0 <= a < b < layers.len() ==> layers[a].index < layers[b].index
}

/// Each layer holds what the names say of it.
pub open spec fn described(names: Seq<Text>, layers: Seq<LayerTensors<Text>>) -> bool {
    forall|a: int|
        #![trigger layers[a]]
        0 <= a < layers.len() ==> layers[a] == layer_tensors(names, layers[a].index)
}

/// The names speak of every layer that is there.
pub open spec fn spoken_of(names: Seq<Text>, layers: Seq<LayerTensors<Text>>) -> bool {
    forall|a: int|
        0 <= a < layers.len() ==> #[trigger] has_layer(names, layers[a].index)
}

/// Every layer that the names speak of is there.
pub open spec fn covered(names: Seq<Text>, layers: Seq<LayerTensors<Text>>) -> bool {
    forall|layer: usize| #[trigger]
        has_layer(names, layer) ==> exists|a: int|
            0 <= a < layers.len() && (#[trigger] layers[a]).index == layer
}

/// The layers found: ascending, one per index that occurs, each with what the
/// names say of it.
pub open spec fn layers_of(names: Seq<Text>, layers: Seq<LayerTensors<Text>>) -> bool {
    &&& ascending(layers)
    &&& described(names, layers)
    &&& spoken_of(names, layers)
    &&& covered(names, layers)
}

fn layer_slot(layers: &mut Vec<LayerTensors>, layer: usize) -> (at: usize)
    requires
        forall|a: int, b: int|
            #![trigger old(layers)@[a], old(layers)@[b]]
            0 <= a < b < old(layers).len() ==> old(layers)@[a].index < old(layers)@[b].index,
    ensures
        at < final(layers).len(),
        final(layers)@[at as int].index == layer,
        forall|a: int, b: int|
            #![trigger final(layers)@[a], final(layers)@[b]]
            0 <= a < b < final(layers).len() ==> final(layers)@[a].index < final(layers)@[b].index,
        final(layers)@ == old(layers)@ || (final(layers)@ == old(layers)@.insert(
            at as int,
            final(layers)@[at as int],
        ) && final(layers)@[at as int]@ == layer_tensors(Seq::empty(), layer) && at
            <= old(layers).len() && forall|a: int|
            #![trigger old(layers)@[a]]
            0 <= a < old(layers).len() ==> old(layers)@[a].index != layer),
{
    let mut at: usize = 0;
    while at < layers.len() && layers[at].index < layer
        invariant
            at <= layers.len(),
            layers@ == old(layers)@,
            forall|a: int| #![trigger layers@[a]] 0 <= a < at ==> layers@[a].index < layer,
        decreases layers.len() - at,
    {
        at += 1;
    }
    if at < layers.len() && layers[at].index == layer {
        return at;
    }
    layers.insert(at, empty_layer(layer));
    at
}

/// Sorts out which tensors a checkpoint holds. Names may be GGUF's or the
/// decoder's; of two names for one place the later one counts.
pub fn scan_tensors(names: &[String]) -> (group: TensorGroupMap)
    ensures
        scanned(decoder_names(texts(names@)), group),
{
    let mut embed_tokens: Option<String> = None;
    let mut final_norm: Option<String> = None;
    let mut lm_head: Option<String> = None;
    let mut per_layer_token_embd: Option<String> = None;
    let mut per_layer_model_proj: Option<String> = None;
    let mut per_layer_proj_norm: Option<String> = None;
    let mut layers: Vec<LayerTensors> = Vec::new();
    let ghost all = decoder_names(texts(names@));
    let mut i: usize = 0;
    assert(all.take(0) =~= Seq::empty());
    while i < names.len()
        invariant
            i <= names.len(),
            all == decoder_names(texts(names@)),
            all.len() == names.len(),
            text_opt(embed_tokens) == if_present(all.take(i as int), "model.embed_tokens.weight"@),
            text_opt(final_norm) == if_present(all.take(i as int), "model.norm.weight"@),
            text_opt(lm_head) == if_present(all.take(i as int), "lm_head.weight"@),
            text_opt(per_layer_token_embd) == if_present(
                all.take(i as int),
                "per_layer_token_embd.weight"@,
            ),
            text_opt(per_layer_model_proj) == if_present(
                all.take(i as int),
                "per_layer_model_proj.weight"@,
            ),
            text_opt(per_layer_proj_norm) == if_present(
                all.take(i as int),
                "per_layer_proj_norm.weight"@,
            ),
            layers_of(all.take(i as int), layers_view(layers@)),
        decreases names.len() - i,
    {
        let name = map_gguf_name(&names[i]);
        let ghost before = all.take(i as int);
        proof {
            assert(all[i as int] == name@);
            assert(all.take(i + 1) =~= before.push(name@));
            lemma_if_present_step(before, name@, "model.embed_tokens.weight"@);
            lemma_if_present_step(before, name@, "model.norm.weight"@);
            lemma_if_present_step(before, name@, "lm_head.weight"@);
            lemma_if_present_step(before, name@, "per_layer_token_embd.weight"@);
            lemma_if_present_step(before, name@, "per_layer_model_proj.weight"@);
            lemma_if_present_step(before, name@, "per_layer_proj_norm.weight"@);
        }
        if same(&name, "model.embed_tokens.weight") {
            embed_tokens = Some(name.clone());
        }
        if same(&name, "model.norm.weight") {
            final_norm = Some(name.clone());
        }
        if same(&name, "lm_head.weight") {
            lm_head = Some(name.clone());
        }
        if same(&name, "per_layer_token_embd.weight") {
            per_layer_token_embd = Some(name.clone());
        }
        if same(&name, "per_layer_model_proj.weight") {
            per_layer_model_proj = Some(name.clone());
        }
        if same(&name, "per_layer_proj_norm.weight") {
            per_layer_proj_norm = Some(name.clone());
        }
        note_name(&mut layers, &name, Ghost(before));
        i += 1;
    }
    assert(all.take(i as int) =~= all);
    if per_layer_token_embd.is_none() && per_layer_model_proj.is_some() {
        per_layer_token_embd = embed_tokens.clone();
    }
    TensorGroupMap {
        embed_tokens,
        final_norm,
        lm_head,
        per_layer_token_embd,
        per_layer_model_proj,
        per_layer_proj_norm,
        layers,
    }
}

fn note_name(layers: &mut Vec<LayerTensors>, name: &str, Ghost(before): Ghost<Seq<Text>>)
    requires
        layers_of(before, layers_view(old(layers)@)),
    ensures
        layers_of(before.push(name@), layers_view(final(layers)@)),
{
    let ghost v0 = layers_view(layers@);
    proof {
        assert forall|a: int| 0 <= a < layers.len() implies #[trigger] layers@[a].index
            == v0[a].index by {}
    }
    match numbered_parts(name, "model.layers.") {
        None => {
            proof {
                lemma_unlayered_name(before, v0, name@);
            }
        },
        Some((layer, suffix)) => {
            let at = layer_slot(layers, layer);
            let ghost v1 = layers_view(layers@);
            proof {
                assert forall|a: int| 0 <= a < layers.len() implies #[trigger] v1[a].index
                    == layers@[a].index by {}
                if layers@ == old(layers)@ {
                    assert(v1 == v0);
                } else {
                    assert(v1 =~= v0.insert(at as int, v1[at as int]));
                    assert forall|a: int| 0 <= a < v0.len() implies (#[trigger] v0[a]).index
                        != layer by {
                        assert(v0[a].index == old(layers)@[a].index);
                    }
                    lemma_no_layer(before, v0, layer);
                }
            }
            note_tensor(&mut layers[at], &suffix, name);
            proof {
                let v2 = layers_view(layers@);
                assert(v2 =~= v1.update(at as int, noted(v1[at as int], suffix@, name@)));
                lemma_layered_name(before, v0, v1, at as int, name@, layer, suffix@);
            }
        },
    }
}

proof fn lemma_unlayered_name(before: Seq<Text>, v: Seq<LayerTensors<Text>>, name: Text)
    requires
        layers_of(before, v),
        layer_index(name) is None,
    ensures
        layers_of(before.push(name), v),
{
    let after = before.push(name);
    assert forall|a: int| 0 <= a < v.len() implies #[trigger] v[a] == layer_tensors(
        after,
        v[a].index,
    ) by {
        lemma_layer_step(before, name, v[a].index);
    }
    assert forall|a: int| 0 <= a < v.len() implies #[trigger] has_layer(after, v[a].index) by {
        assert(has_layer(before, v[a].index));
        lemma_has_layer_step(before, name, v[a].index);
    }
    assert forall|layer: usize| #[trigger] has_layer(after, layer) implies exists|a: int|
        0 <= a < v.len() && (#[trigger] v[a]).index == layer by {
        lemma_has_layer_step(before, name, layer);
    }
}

proof fn lemma_layered_name(
    before: Seq<Text>,
    v0: Seq<LayerTensors<Text>>,
    v1: Seq<LayerTensors<Text>>,
    at: int,
    name: Text,
    layer: usize,
    suffix: Text,
)
    requires
        layers_of(before, v0),
        numbered(name, "model.layers."@) == Some((layer, suffix)),
        0 <= at < v1.len(),
        v1 == v0 || (at <= v0.len() && v1 == v0.insert(at, v1[at])),
        v1[at] == layer_tensors(before, layer),
        ascending(v1),
    ensures
        layers_of(before.push(name), v1.update(at, noted(v1[at], suffix, name))),
{
    let after = before.push(name);
    let v2 = v1.update(at, noted(v1[at], suffix, name));
    lemma_layer_step(before, name, layer);
    lemma_has_layer_step(before, name, layer);
    assert(v2[at] == layer_tensors(after, layer));
    assert(v2[at].index == v1[at].index);
    assert(ascending(v2)) by {
        assert forall|a: int, b: int|
            #![trigger v2[a], v2[b]]
            0 <= a < b < v2.len() implies v2[a].index < v2[b].index by {
            assert(v1[a].index < v1[b].index);
        }
    }
    assert(described(after, v2)) by {
        assert forall|a: int|
            #![trigger v2[a]]
            0 <= a < v2.len() implies v2[a] == layer_tensors(after, v2[a].index) by {
            if a != at {
                let b = if v1 == v0 || a < at {
                    a
                } else {
                    a - 1
                };
                assert(v1[a] == v0[b]);
                assert(v1[a].index != v1[at].index);
                lemma_layer_step(before, name, v2[a].index);
            }
        }
    }
    assert(spoken_of(after, v2)) by {
        assert forall|a: int| 0 <= a < v2.len() implies #[trigger] has_layer(
            after,
            v2[a].index,
        ) by {
            if a != at {
                let b = if v1 == v0 || a < at {
                    a
                } else {
                    a - 1
                };
                assert(v1[a] == v0[b]);
                assert(has_layer(before, v0[b].index));
                lemma_has_layer_step(before, name, v2[a].index);
            }
        }
    }
    assert(covered(after, v2)) by {
        assert forall|k: usize| #[trigger] has_layer(after, k) implies exists|a: int|
            0 <= a < v2.len() && (#[trigger] v2[a]).index == k by {
            lemma_has_layer_step(before, name, k);
            if k == layer {
                assert(v2[at].index == k);
            } else {
                let b = choose|b: int| 0 <= b < v0.len() && (#[trigger] v0[b]).index == k;
                let a = if v1 == v0 || b < at {
                    b
                } else {
                    b + 1
                };
                assert(v1[a] == v0[b]);
                assert(v2[a].index == k);
            }
        }
    }
}

proof fn lemma_no_layer(names: Seq<Text>, layers: Seq<LayerTensors<Text>>, layer: usize)
    requires
        layers_of(names, layers),
        forall|a: int| #![trigger layers[a]] 0 <= a < layers.len() ==> layers[a].index != layer,
    ensures
        layer_tensors(names, layer) == layer_tensors(Seq::empty(), layer),
{
    assert(!has_layer(names, layer));
    lemma_unnamed(names, layer);
}

proof fn lemma_unnamed(names: Seq<Text>, layer: usize)
    requires
        !has_layer(names, layer),
    ensures
        layer_tensors(names, layer) == layer_tensors(Seq::empty(), layer),
    decreases names.len(),
{
    if names.len() > 0 {
        lemma_has_layer_step(names.drop_last(), names.last(), layer);
        assert(names.drop_last().push(names.last()) =~= names);
        lemma_layer_step(names.drop_last(), names.last(), layer);
        lemma_unnamed(names.drop_last(), layer);
    } else {
        assert(names =~= Seq::empty());
    }
}

/// What a scan of `names`, which are in the decoder's naming, gives. A model
/// with a per-layer projection but no per-layer table uses its token table.
pub open spec fn scanned(names: Seq<Text>, group: TensorGroupMap) -> bool {
    &&& text_opt(group.embed_tokens) == if_present(names, "model.embed_tokens.weight"@)
    &&& text_opt(group.final_norm) == if_present(names, "model.norm.weight"@)
    &&& text_opt(group.lm_head) == if_present(names, "lm_head.weight"@)
    &&& text_opt(group.per_layer_model_proj) == if_present(names, "per_layer_model_proj.weight"@)
    &&& text_opt(group.per_layer_proj_norm) == if_present(names, "per_layer_proj_norm.weight"@)
    &&& text_opt(group.per_layer_token_embd) == if names.contains("per_layer_token_embd.weight"@) {
        Some("per_layer_token_embd.weight"@)
    } else if names.contains("per_layer_model_proj.weight"@) {
        if_present(names, "model.embed_tokens.weight"@)
    } else {
        None
    }
    &&& layers_of(names, layers_view(group.layers@))
}

/// A name of a layer's tensor writes the layer's number plainly: without a sign
/// and without leading zeros.
pub open spec fn plainly_numbered(name: Text) -> bool {
    numbered(name, "model.layers."@) matches Some((layer, suffix)) ==> name == layer_name(
        layer as nat,
        suffix,
    )
}

/// The name of a layer's tensor tells the layer and the rest.
proof fn lemma_layer_name_numbered(layer: usize, suffix: Text)
    ensures
        numbered(layer_name(layer as nat, suffix), "model.layers."@) == Some((layer, suffix)),
{
    reveal(numbered);
    reveal_strlit(".");
    let name = layer_name(layer as nat, suffix);
    let prefix = "model.layers."@;
    let digits = dec(layer as nat);
    assert(name.subrange(0, prefix.len() as int) =~= prefix);
    assert(name.skip(prefix.len() as int) =~= digits.push('.') + suffix);
    lemma_dec_digits(layer as nat);
    lemma_cut(digits, '.', suffix);
    law_decimal_reads_back(layer as nat);
}

/// A plainly numbered name stays one in the decoder's naming.
proof fn lemma_plain_kept(name: Text)
    requires
        plainly_numbered(name),
    ensures
        plainly_numbered(decoder_name(name)),
{
    let out = decoder_name(name);
    if out != name {
        if let Some((layer, suffix)) = numbered(name, "blk."@) {
            lemma_layer_name_numbered(layer, block_suffix(suffix));
        }
        reveal(numbered);
        reveal_strlit("model.layers.");
        reveal_strlit("model.embed_tokens.weight");
        reveal_strlit("model.norm.weight");
        reveal_strlit("lm_head.weight");
        reveal_strlit("per_layer_token_embd.weight");
        reveal_strlit("per_layer_model_proj.weight");
        reveal_strlit("per_layer_proj_norm.weight");
        if begins(out, "model.layers."@) {
            assert(out.subrange(0, 13)[6] == "model.layers."@[6]);
            assert(out.subrange(0, 13)[0] == "model.layers."@[0]);
        }
    }
}

/// Of plainly numbered names, only one can stand in a place.
proof fn lemma_last_named(names: Seq<Text>, layer: usize, suffix: Text)
    requires
        forall|i: int| 0 <= i < names.len() ==> plainly_numbered(#[trigger] names[i]),
    ensures
        last_named(names, layer, suffix) == if_present(names, layer_name(layer as nat, suffix)),
    decreases names.len(),
{
    let wanted = layer_name(layer as nat, suffix);
    if names.len() > 0 {
        let before = names.drop_last();
        assert forall|i: int| 0 <= i < before.len() implies plainly_numbered(
            #[trigger] before[i],
        ) by {
            assert(before[i] == names[i]);
        }
        lemma_last_named(before, layer, suffix);
        lemma_if_present_step(before, names.last(), wanted);
        assert(before.push(names.last()) =~= names);
        assert(plainly_numbered(names[names.len() - 1]));
        lemma_layer_name_numbered(layer, suffix);
    }
}

/// Lists that rise and hold the same numbers are the same list.
proof fn lemma_same_rising(a: Seq<usize>, b: Seq<usize>)
    requires
        forall|i: int, j: int| 0 <= i < j < a.len() ==> a[i] < a[j],
        forall|i: int, j: int| 0 <= i < j < b.len() ==> b[i] < b[j],
        forall|n: usize| a.contains(n) <==> b.contains(n),
    ensures
        a == b,
    decreases a.len(),
{
    if a.len() == 0 {
        if b.len() > 0 {
            assert(b.contains(b[0]));
        }
        assert(a =~= b);
    } else {
        assert(a.contains(a.last()));
        assert(b.len() > 0);
        assert(b.contains(b.last()));
        let i = choose|i: int| 0 <= i < b.len() && b[i] == a.last();
        let j = choose|j: int| 0 <= j < a.len() && a[j] == b.last();
        assert(b[i] <= b[b.len() - 1]);
        assert(a[j] <= a[a.len() - 1]);
        assert(a.last() == b.last());
        let (x, y) = (a.drop_last(), b.drop_last());
        assert forall|n: usize| x.contains(n) <==> y.contains(n) by {
            if x.contains(n) {
                let k = choose|k: int| 0 <= k < x.len() && x[k] == n;
                assert(a[k] == n && a[k] < a[a.len() - 1]);
                assert(a.contains(n));
                let m = choose|m: int| 0 <= m < b.len() && b[m] == n;
                assert(y[m] == n);
            }
            if y.contains(n) {
                let k = choose|k: int| 0 <= k < y.len() && y[k] == n;
                assert(b[k] == n && b[k] < b[b.len() - 1]);
                assert(b.contains(n));
                let m = choose|m: int| 0 <= m < a.len() && a[m] == n;
                assert(x[m] == n);
            }
        }
        lemma_same_rising(x, y);
        assert(a =~= x.push(a.last()));
        assert(b =~= y.push(b.last()));
    }
}

/// The same names in the decoder's naming speak of the same layers.
proof fn lemma_layers_spoken_of(a: Seq<Text>, b: Seq<Text>, layer: usize)
    requires
        forall|n: Text| a.contains(n) ==> b.contains(n),
        has_layer(a, layer),
    ensures
        has_layer(b, layer),
{
    let k = choose|k: int| 0 <= k < a.len() && #[trigger] layer_index(a[k]) == Some(layer);
    assert(a.contains(a[k]));
    let m = choose|m: int| 0 <= m < b.len() && b[m] == a[k];
    assert(layer_index(b[m]) == Some(layer));
}

proof fn lemma_same_tensors(a: Seq<Text>, b: Seq<Text>, layer: usize)
    requires
        forall|n: Text| a.contains(n) <==> b.contains(n),
        forall|i: int| 0 <= i < a.len() ==> plainly_numbered(#[trigger] a[i]),
        forall|i: int| 0 <= i < b.len() ==> plainly_numbered(#[trigger] b[i]),
    ensures
        layer_tensors(a, layer) == layer_tensors(b, layer),
{
    reveal(layer_tensors);
    assert forall|suffix: Text| #[trigger] last_named(a, layer, suffix) == last_named(
        b,
        layer,
        suffix,
    ) by {
        lemma_last_named(a, layer, suffix);
        lemma_last_named(b, layer, suffix);
    }
}

/// The indices of layers.
spec fn indices(layers: Seq<LayerTensors<Text>>) -> Seq<usize> {
    layers.map_values(|l: LayerTensors<Text>| l.index)
}

proof fn lemma_same_layers(
    a: Seq<Text>,
    b: Seq<Text>,
    v: Seq<LayerTensors<Text>>,
    w: Seq<LayerTensors<Text>>,
)
    requires
        forall|n: Text| a.contains(n) <==> b.contains(n),
        forall|i: int| 0 <= i < a.len() ==> plainly_numbered(#[trigger] a[i]),
        forall|i: int| 0 <= i < b.len() ==> plainly_numbered(#[trigger] b[i]),
        layers_of(a, v),
        layers_of(b, w),
    ensures
        v == w,
{
    let (x, y) = (indices(v), indices(w));
    assert forall|n: usize| x.contains(n) <==> y.contains(n) by {
        if x.contains(n) {
            let k = choose|k: int| 0 <= k < x.len() && x[k] == n;
            assert(has_layer(a, v[k].index));
            lemma_layers_spoken_of(a, b, n);
            let m = choose|m: int| 0 <= m < w.len() && (#[trigger] w[m]).index == n;
            assert(y[m] == n);
        }
        if y.contains(n) {
            let k = choose|k: int| 0 <= k < y.len() && y[k] == n;
            assert(has_layer(b, w[k].index));
            lemma_layers_spoken_of(b, a, n);
            let m = choose|m: int| 0 <= m < v.len() && (#[trigger] v[m]).index == n;
            assert(x[m] == n);
        }
    }
    assert forall|i: int, j: int| 0 <= i < j < x.len() implies x[i] < x[j] by {
        assert(v[i].index < v[j].index);
    }
    assert forall|i: int, j: int| 0 <= i < j < y.len() implies y[i] < y[j] by {
        assert(w[i].index < w[j].index);
    }
    lemma_same_rising(x, y);
    assert forall|k: int| 0 <= k < v.len() implies v[k] == w[k] by {
        assert(x[k] == y[k]);
        lemma_same_tensors(a, b, v[k].index);
    }
    assert(v =~= w);
}

/// The order of a checkpoint's tensors does not matter, nor how often one is
/// listed: two lists of the same names are scanned to the same tensors, as long
/// as the numbers of layers are written plainly.
pub proof fn law_order_does_not_matter(
    a: Seq<Text>,
    b: Seq<Text>,
    g: TensorGroupMap,
    h: TensorGroupMap,
)
    requires
        forall|n: Text| a.contains(n) <==> b.contains(n),
        forall|n: Text| #[trigger] a.contains(n) ==> plainly_numbered(n),
        scanned(decoder_names(a), g),
        scanned(decoder_names(b), h),
    ensures
        text_opt(g.embed_tokens) == text_opt(h.embed_tokens),
        text_opt(g.final_norm) == text_opt(h.final_norm),
        text_opt(g.lm_head) == text_opt(h.lm_head),
        text_opt(g.per_layer_token_embd) == text_opt(h.per_layer_token_embd),
        text_opt(g.per_layer_model_proj) == text_opt(h.per_layer_model_proj),
        text_opt(g.per_layer_proj_norm) == text_opt(h.per_layer_proj_norm),
        layers_view(g.layers@) == layers_view(h.layers@),
{
    let (x, y) = (decoder_names(a), decoder_names(b));
    assert forall|n: Text| x.contains(n) <==> y.contains(n) by {
        if x.contains(n) {
            let k = choose|k: int| 0 <= k < x.len() && x[k] == n;
            assert(a.contains(a[k]));
            let m = choose|m: int| 0 <= m < b.len() && b[m] == a[k];
            assert(y[m] == n);
        }
        if y.contains(n) {
            let k = choose|k: int| 0 <= k < y.len() && y[k] == n;
            assert(b.contains(b[k]));
            let m = choose|m: int| 0 <= m < a.len() && a[m] == b[k];
            assert(x[m] == n);
        }
    }
    assert forall|i: int| 0 <= i < x.len() implies plainly_numbered(#[trigger] x[i]) by {
        assert(a.contains(a[i]));
        lemma_plain_kept(a[i]);
    }
    assert forall|i: int| 0 <= i < y.len() implies plainly_numbered(#[trigger] y[i]) by {
        assert(b.contains(b[i]));
        assert(a.contains(b[i]));
        lemma_plain_kept(b[i]);
    }
    lemma_same_layers(x, y, layers_view(g.layers@), layers_view(h.layers@));
}

/// A tensor of layer `layer` that a GGUF file calls `theirs` is called `ours`.
pub open spec fn called(layer: usize, theirs: Text, ours: Text) -> bool {
    decoder_name("blk."@ + dec(layer as nat) + "."@ + theirs) == "model.layers."@ + dec(layer as nat)
        + "."@ + ours
}

proof fn lemma_called(layer: usize, theirs: Text)
    ensures
        called(layer, theirs, block_suffix(theirs)),
{
    reveal(numbered);
    reveal_strlit(".");
    reveal_strlit("blk.");
    reveal_strlit("token_embd.weight");
    reveal_strlit("output_norm.weight");
    reveal_strlit("output.weight");
    reveal_strlit("per_layer_inp.weight");
    reveal_strlit("per_layer_token_embd.weight");
    reveal_strlit("per_layer_embed.weight");
    reveal_strlit("per_layer_proj.weight");
    reveal_strlit("per_layer_model_proj.weight");
    reveal_strlit("per_layer_norm.weight");
    reveal_strlit("per_layer_proj_norm.weight");
    let digits = dec(layer as nat);
    let name = "blk."@ + digits + "."@ + theirs;
    assert(name[0] == 'b');
    assert(name.subrange(0, 4) =~= "blk."@);
    assert(name.skip(4) =~= digits.push('.') + theirs);
    lemma_dec_digits(layer as nat);
    lemma_cut(digits, '.', theirs);
    law_decimal_reads_back(layer as nat);
}

/// The tensors of a GGUF file's blocks stand for those of the decoder's layers,
/// each for its own part.
#[verifier::spinoff_prover]
#[verifier::rlimit(60)]
pub proof fn law_block_names(layer: usize)
    ensures
        called(layer, "attn_q.weight"@, "self_attn.q_proj.weight"@),
        called(layer, "attn_k.weight"@, "self_attn.k_proj.weight"@),
        called(layer, "attn_v.weight"@, "self_attn.v_proj.weight"@),
        called(layer, "attn_output.weight"@, "self_attn.o_proj.weight"@),
        called(layer, "ffn_gate.weight"@, "mlp.gate_proj.weight"@),
        called(layer, "ffn_up.weight"@, "mlp.up_proj.weight"@),
        called(layer, "ffn_down.weight"@, "mlp.down_proj.weight"@),
        called(layer, "attn_norm.weight"@, "input_layernorm.weight"@),
        called(layer, "ffn_norm.weight"@, "post_attention_layernorm.weight"@),
        called(layer, "attn_q.bias"@, "self_attn.q_proj.bias"@),
        called(layer, "attn_k.bias"@, "self_attn.k_proj.bias"@),
        called(layer, "attn_v.bias"@, "self_attn.v_proj.bias"@),
        called(layer, "attn_output.bias"@, "self_attn.o_proj.bias"@),
        called(layer, "ffn_gate.bias"@, "mlp.gate_proj.bias"@),
        called(layer, "ffn_up.bias"@, "mlp.up_proj.bias"@),
        called(layer, "ffn_down.bias"@, "mlp.down_proj.bias"@),
        called(layer, "inp_gate.weight"@, "per_layer_input_gate.weight"@),
        called(layer, "proj.weight"@, "per_layer_projection.weight"@),
        called(layer, "post_norm.weight"@, "post_per_layer_input_norm.weight"@),
        called(layer, "attn_q_norm.weight"@, "attn_q_norm.weight"@),
        called(layer, "attn_k_norm.weight"@, "attn_k_norm.weight"@),
        called(layer, "post_attention_norm.weight"@, "post_attention_norm.weight"@),
        called(layer, "post_ffw_norm.weight"@, "post_ffw_norm.weight"@),
        called(layer, "layer_output_scale.weight"@, "layer_output_scale.weight"@),
{
    reveal_strlit("attn_q.weight");
    reveal_strlit("attn_k.weight");
    reveal_strlit("attn_v.weight");
    reveal_strlit("attn_output.weight");
    reveal_strlit("ffn_gate.weight");
    reveal_strlit("ffn_up.weight");
    reveal_strlit("ffn_down.weight");
    reveal_strlit("attn_norm.weight");
    reveal_strlit("ffn_norm.weight");
    reveal_strlit("attn_q.bias");
    reveal_strlit("attn_k.bias");
    reveal_strlit("attn_v.bias");
    reveal_strlit("attn_output.bias");
    reveal_strlit("ffn_gate.bias");
    reveal_strlit("ffn_up.bias");
    reveal_strlit("ffn_down.bias");
    reveal_strlit("inp_gate.weight");
    reveal_strlit("proj.weight");
    reveal_strlit("post_norm.weight");
    reveal_strlit("attn_q_norm.weight");
    reveal_strlit("attn_k_norm.weight");
    reveal_strlit("post_attention_norm.weight");
    reveal_strlit("post_ffw_norm.weight");
    reveal_strlit("layer_output_scale.weight");
    assert("attn_q.weight"@.len() == 13);
    assert("attn_k.weight"@.len() == 13);
    assert("attn_v.weight"@.len() == 13);
    assert("attn_output.weight"@.len() == 18);
    assert("ffn_gate.weight"@.len() == 15);
    assert("ffn_up.weight"@.len() == 13);
    assert("ffn_down.weight"@.len() == 15);
    assert("attn_norm.weight"@.len() == 16);
    assert("ffn_norm.weight"@.len() == 15);
    assert("attn_q.bias"@.len() == 11);
    assert("attn_k.bias"@.len() == 11);
    assert("attn_v.bias"@.len() == 11);
    assert("attn_output.bias"@.len() == 16);
    assert("ffn_gate.bias"@.len() == 13);
    assert("ffn_up.bias"@.len() == 11);
    assert("ffn_down.bias"@.len() == 13);
    assert("inp_gate.weight"@.len() == 15);
    assert("proj.weight"@.len() == 11);
    assert("post_norm.weight"@.len() == 16);
    assert("attn_q_norm.weight"@.len() == 18);
    assert("attn_k_norm.weight"@.len() == 18);
    assert("post_attention_norm.weight"@.len() == 26);
    assert("post_ffw_norm.weight"@.len() == 20);
    assert("layer_output_scale.weight"@.len() == 25);
    assert("attn_q.weight"@[5] != "attn_k.weight"@[5]);
    assert("attn_q.weight"@[5] != "attn_v.weight"@[5]);
    assert("attn_q.weight"@[0] != "ffn_up.weight"@[0]);
    assert("attn_q.weight"@[0] != "ffn_gate.bias"@[0]);
    assert("attn_q.weight"@[0] != "ffn_down.bias"@[0]);
    assert("attn_k.weight"@[5] != "attn_v.weight"@[5]);
    assert("attn_k.weight"@[0] != "ffn_up.weight"@[0]);
    assert("attn_k.weight"@[0] != "ffn_gate.bias"@[0]);
    assert("attn_k.weight"@[0] != "ffn_down.bias"@[0]);
    assert("attn_v.weight"@[0] != "ffn_up.weight"@[0]);
    assert("attn_v.weight"@[0] != "ffn_gate.bias"@[0]);
    assert("attn_v.weight"@[0] != "ffn_down.bias"@[0]);
    assert("attn_output.weight"@[5] != "attn_q_norm.weight"@[5]);
    assert("attn_output.weight"@[5] != "attn_k_norm.weight"@[5]);
    assert("ffn_gate.weight"@[4] != "ffn_down.weight"@[4]);
    assert("ffn_gate.weight"@[4] != "ffn_norm.weight"@[4]);
    assert("ffn_gate.weight"@[0] != "inp_gate.weight"@[0]);
    assert("ffn_up.weight"@[4] != "ffn_gate.bias"@[4]);
    assert("ffn_up.weight"@[4] != "ffn_down.bias"@[4]);
    assert("ffn_down.weight"@[4] != "ffn_norm.weight"@[4]);
    assert("ffn_down.weight"@[0] != "inp_gate.weight"@[0]);
    assert("attn_norm.weight"@[5] != "attn_output.bias"@[5]);
    assert("attn_norm.weight"@[0] != "post_norm.weight"@[0]);
    assert("ffn_norm.weight"@[0] != "inp_gate.weight"@[0]);
    assert("attn_q.bias"@[5] != "attn_k.bias"@[5]);
    assert("attn_q.bias"@[5] != "attn_v.bias"@[5]);
    assert("attn_q.bias"@[0] != "ffn_up.bias"@[0]);
    assert("attn_q.bias"@[0] != "proj.weight"@[0]);
    assert("attn_k.bias"@[5] != "attn_v.bias"@[5]);
    assert("attn_k.bias"@[0] != "ffn_up.bias"@[0]);
    assert("attn_k.bias"@[0] != "proj.weight"@[0]);
    assert("attn_v.bias"@[0] != "ffn_up.bias"@[0]);
    assert("attn_v.bias"@[0] != "proj.weight"@[0]);
    assert("attn_output.bias"@[0] != "post_norm.weight"@[0]);
    assert("ffn_gate.bias"@[4] != "ffn_down.bias"@[4]);
    assert("ffn_up.bias"@[0] != "proj.weight"@[0]);
    assert("attn_q_norm.weight"@[5] != "attn_k_norm.weight"@[5]);
    lemma_called(layer, "attn_q.weight"@);
    lemma_called(layer, "attn_k.weight"@);
    lemma_called(layer, "attn_v.weight"@);
    lemma_called(layer, "attn_output.weight"@);
    lemma_called(layer, "ffn_gate.weight"@);
    lemma_called(layer, "ffn_up.weight"@);
    lemma_called(layer, "ffn_down.weight"@);
    lemma_called(layer, "attn_norm.weight"@);
    lemma_called(layer, "ffn_norm.weight"@);
    lemma_called(layer, "attn_q.bias"@);
    lemma_called(layer, "attn_k.bias"@);
    lemma_called(layer, "attn_v.bias"@);
    lemma_called(layer, "attn_output.bias"@);
    lemma_called(layer, "ffn_gate.bias"@);
    lemma_called(layer, "ffn_up.bias"@);
    lemma_called(layer, "ffn_down.bias"@);
    lemma_called(layer, "inp_gate.weight"@);
    lemma_called(layer, "proj.weight"@);
    lemma_called(layer, "post_norm.weight"@);
    lemma_called(layer, "attn_q_norm.weight"@);
    lemma_called(layer, "attn_k_norm.weight"@);
    lemma_called(layer, "post_attention_norm.weight"@);
    lemma_called(layer, "post_ffw_norm.weight"@);
    lemma_called(layer, "layer_output_scale.weight"@);
}

/// The tensors of a GGUF file around the blocks stand for those around the
/// layers.
pub proof fn law_outer_names()
    ensures
        decoder_name("token_embd.weight"@) == "model.embed_tokens.weight"@,
        decoder_name("output_norm.weight"@) == "model.norm.weight"@,
        decoder_name("output.weight"@) == "lm_head.weight"@,
        decoder_name("per_layer_inp.weight"@) == "per_layer_token_embd.weight"@,
        decoder_name("per_layer_token_embd.weight"@) == "per_layer_token_embd.weight"@,
        decoder_name("per_layer_embed.weight"@) == "per_layer_token_embd.weight"@,
        decoder_name("per_layer_proj.weight"@) == "per_layer_model_proj.weight"@,
        decoder_name("per_layer_model_proj.weight"@) == "per_layer_model_proj.weight"@,
        decoder_name("per_layer_norm.weight"@) == "per_layer_proj_norm.weight"@,
        decoder_name("per_layer_proj_norm.weight"@) == "per_layer_proj_norm.weight"@,
{
    reveal_strlit("token_embd.weight");
    reveal_strlit("output_norm.weight");
    reveal_strlit("output.weight");
    reveal_strlit("per_layer_inp.weight");
    reveal_strlit("per_layer_token_embd.weight");
    reveal_strlit("per_layer_embed.weight");
    reveal_strlit("per_layer_proj.weight");
    reveal_strlit("per_layer_model_proj.weight");
    reveal_strlit("per_layer_norm.weight");
    reveal_strlit("per_layer_proj_norm.weight");
    assert("token_embd.weight"@.len() == 17);
    assert("output_norm.weight"@.len() == 18);
    assert("output.weight"@.len() == 13);
    assert("per_layer_inp.weight"@.len() == 20);
    assert("per_layer_token_embd.weight"@.len() == 27);
    assert("per_layer_embed.weight"@.len() == 22);
    assert("per_layer_proj.weight"@.len() == 21);
    assert("per_layer_model_proj.weight"@.len() == 27);
    assert("per_layer_norm.weight"@.len() == 21);
    assert("per_layer_proj_norm.weight"@.len() == 26);
    assert("per_layer_token_embd.weight"@[10] != "per_layer_model_proj.weight"@[10]);
    assert("per_layer_proj.weight"@[10] != "per_layer_norm.weight"@[10]);
}

/// `names` hold the tensor of layer `layer` that ends in `suffix`, and then it is
/// what was found.
pub open spec fn found(names: Seq<Text>, layer: usize, suffix: Text, field: Option<Text>) -> bool {
    let name = "model.layers."@ + dec(layer as nat) + "."@ + suffix;
    field == if names.contains(name) {
        Some(name)
    } else {
        None
    }
}

/// Each part of a layer is found under its own name, exactly where the checkpoint
/// has it, as long as the numbers of layers are written plainly. So are the
/// parts around the layers.
pub proof fn law_tensors_found(names: Seq<Text>, g: TensorGroupMap, layer: usize)
    requires
        forall|n: Text| #[trigger] names.contains(n) ==> plainly_numbered(n),
        scanned(decoder_names(names), g),
    ensures
        has_layer(decoder_names(names), layer) <==> exists|k: int|
            0 <= k < g.layers@.len() && (#[trigger] layers_view(g.layers@)[k]).index == layer,
        forall|k: int|
            0 <= k < g.layers@.len() && (#[trigger] layers_view(g.layers@)[k]).index == layer
                ==> parts_found(decoder_names(names), layer, layers_view(g.layers@)[k]),
        (g.embed_tokens matches Some(n) && n@ == "model.embed_tokens.weight"@) == decoder_names(
            names,
        ).contains("model.embed_tokens.weight"@),
        (g.final_norm matches Some(n) && n@ == "model.norm.weight"@) == decoder_names(
            names,
        ).contains("model.norm.weight"@),
        (g.lm_head matches Some(n) && n@ == "lm_head.weight"@) == decoder_names(names).contains(
            "lm_head.weight"@,
        ),
        g.embed_tokens is Some ==> g.embed_tokens->0@ == "model.embed_tokens.weight"@,
        g.final_norm is Some ==> g.final_norm->0@ == "model.norm.weight"@,
        g.lm_head is Some ==> g.lm_head->0@ == "lm_head.weight"@,
{
    let all = decoder_names(names);
    let v = layers_view(g.layers@);
    assert forall|i: int| 0 <= i < all.len() implies plainly_numbered(#[trigger] all[i]) by {
        assert(names.contains(names[i]));
        lemma_plain_kept(names[i]);
    }
    if has_layer(all, layer) {
        let k = choose|k: int| 0 <= k < v.len() && (#[trigger] v[k]).index == layer;
    }
    assert forall|k: int| 0 <= k < v.len() && (#[trigger] v[k]).index == layer implies parts_found(
        all,
        layer,
        v[k],
    ) && has_layer(all, layer) by {
        assert(v[k] == layer_tensors(all, layer));
        assert(has_layer(all, v[k].index));
        reveal(layer_tensors);
        assert forall|suffix: Text| #[trigger] last_named(all, layer, suffix) == if_present(
            all,
            layer_name(layer as nat, suffix),
        ) by {
            lemma_last_named(all, layer, suffix);
        }
    }
}

/// Each part of a layer is what `names` hold under the part's own name.
pub open spec fn parts_found(names: Seq<Text>, layer: usize, l: LayerTensors<Text>) -> bool {
    &&& found(names, layer, "input_layernorm.weight"@, l.input_layernorm)
    &&& found(names, layer, "self_attn.q_proj.weight"@, l.q_proj)
    &&& found(names, layer, "self_attn.q_proj.bias"@, l.q_bias)
    &&& found(names, layer, "self_attn.k_proj.weight"@, l.k_proj)
    &&& found(names, layer, "self_attn.k_proj.bias"@, l.k_bias)
    &&& found(names, layer, "self_attn.v_proj.weight"@, l.v_proj)
    &&& found(names, layer, "self_attn.v_proj.bias"@, l.v_bias)
    &&& found(names, layer, "attn_q_norm.weight"@, l.q_norm)
    &&& found(names, layer, "attn_k_norm.weight"@, l.k_norm)
    &&& found(names, layer, "self_attn.o_proj.weight"@, l.o_proj)
    &&& found(names, layer, "self_attn.o_proj.bias"@, l.o_bias)
    &&& found(names, layer, "post_attention_layernorm.weight"@, l.post_attention_layernorm)
    &&& found(names, layer, "post_attention_norm.weight"@, l.post_attention_norm)
    &&& found(names, layer, "post_ffw_norm.weight"@, l.post_ffw_norm)
    &&& found(names, layer, "mlp.gate_proj.weight"@, l.gate_proj)
    &&& found(names, layer, "mlp.gate_proj.bias"@, l.gate_bias)
    &&& found(names, layer, "mlp.up_proj.weight"@, l.up_proj)
    &&& found(names, layer, "mlp.up_proj.bias"@, l.up_bias)
    &&& found(names, layer, "mlp.down_proj.weight"@, l.down_proj)
    &&& found(names, layer, "mlp.down_proj.bias"@, l.down_bias)
    &&& found(names, layer, "per_layer_input_gate.weight"@, l.per_layer_input_gate)
    &&& found(names, layer, "per_layer_projection.weight"@, l.per_layer_projection)
    &&& found(names, layer, "post_per_layer_input_norm.weight"@, l.post_per_layer_input_norm)
    &&& found(names, layer, "layer_output_scale.weight"@, l.layer_output_scale)
}

/// The tensors of per-layer inputs are found under their own names; the table
/// is the token embedding where there is a projection and no table.
pub proof fn law_layer_inputs_found(names: Seq<Text>, g: TensorGroupMap)
    requires
        scanned(names, g),
    ensures
        ({
            let table = "per_layer_token_embd.weight"@;
            let proj = "per_layer_model_proj.weight"@;
            let norm = "per_layer_proj_norm.weight"@;
            let embed = "model.embed_tokens.weight"@;
            &&& text_opt(g.per_layer_model_proj) == (if names.contains(proj) {
                Some(proj)
            } else {
                None
            })
            &&& text_opt(g.per_layer_proj_norm) == (if names.contains(norm) {
                Some(norm)
            } else {
                None
            })
            &&& names.contains(table) ==> text_opt(g.per_layer_token_embd) == Some(table)
            &&& !names.contains(table) && names.contains(proj) && names.contains(embed)
                ==> text_opt(g.per_layer_token_embd) == Some(embed)
            &&& !names.contains(table) && !names.contains(proj) ==> text_opt(
                g.per_layer_token_embd,
            ) is None
        }),
{
}

} // verus!
