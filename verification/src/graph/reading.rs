//! That nothing is computed in vain: what a graph's operators write is read.
use vstd::prelude::*;
use crate::graph::builder::{
    act_name, attention_ops, embed_weight, entry_ops, entry_output, exit_ops, fuses, graph_ops,
    hidden_after, keys, layer_ops, layer_output, logit_ops, mlp_ops, norm_ops, normed,
    projection_ops, queries, rope_op, stack_ops, Meta,
};
use crate::graph::ops::{reads, writes, Operator};
use crate::graph::scan::{layers_view, LayerTensors, TensorGroupMap};
use crate::text::Text;
use crate::types::text_opt;

verus! {

/// Some operator of the list reads `name`.
pub open spec fn read_in(ops: Seq<Operator<Text>>, name: Text) -> bool {
    exists|j: int| 0 <= j < ops.len() && reads(#[trigger] ops[j]).contains(name)
}

/// A later operator of the list than `i` reads `name`.
pub open spec fn read_behind(ops: Seq<Operator<Text>>, i: int, name: Text) -> bool {
    exists|j: int| i < j < ops.len() && reads(#[trigger] ops[j]).contains(name)
}

/// Everything that is written is read later, by the list or by what comes
/// behind it, which reads `after`.
pub open spec fn all_read(ops: Seq<Operator<Text>>, after: Set<Text>) -> bool {
    forall|i: int, name: Text|
        0 <= i < ops.len() && #[trigger] writes(ops[i]).contains(name) ==> after.contains(name)
            || read_behind(ops, i, name)
}

proof fn lemma_all_read_join(
    a: Seq<Operator<Text>>,
    b: Seq<Operator<Text>>,
    between: Set<Text>,
    after: Set<Text>,
)
    requires
        all_read(a, between),
        all_read(b, after),
        forall|name: Text| #[trigger]
            between.contains(name) ==> after.contains(name) || read_in(b, name),
    ensures
        all_read(a + b, after),
{
    let all = a + b;
    assert forall|i: int, name: Text|
        0 <= i < all.len() && #[trigger] writes(all[i]).contains(name) implies after.contains(name)
        || read_behind(all, i, name) by {
        if i < a.len() {
            assert(writes(a[i]).contains(name));
            if read_behind(a, i, name) {
                let j = choose|j: int| i < j < a.len() && reads(#[trigger] a[j]).contains(name);
                assert(reads(all[j]).contains(name));
            } else if !after.contains(name) {
                assert(between.contains(name));
                let j = choose|j: int| 0 <= j < b.len() && reads(#[trigger] b[j]).contains(name);
                assert(all[a.len() + j] == b[j]);
                assert(reads(all[a.len() + j]).contains(name));
            }
        } else {
            let k = i - a.len();
            assert(all[i] == b[k]);
            assert(writes(b[k]).contains(name));
            if read_behind(b, k, name) {
                let j = choose|j: int| k < j < b.len() && reads(#[trigger] b[j]).contains(name);
                assert(all[a.len() + j] == b[j]);
                assert(reads(all[a.len() + j]).contains(name));
            }
        }
    }
}

/// What an operator of a list reads is read in the list.
proof fn lemma_read_in(ops: Seq<Operator<Text>>, j: int, k: int)
    requires
        0 <= j < ops.len(),
        0 <= k < reads(ops[j]).len(),
    ensures
        read_in(ops, reads(ops[j])[k]),
        forall|i: int| i < j ==> #[trigger] read_behind(ops, i, reads(ops[j])[k]),
{
    assert(reads(ops[j]).contains(reads(ops[j])[k]));
}

proof fn lemma_projections_read(meta: Meta, l: LayerTensors<Text>, input: Text)
    ensures
        all_read(
            projection_ops(meta, l, input),
            set![act_name(l.index, "q_proj"@), act_name(l.index, "k_proj"@), act_name(l.index, "v_proj"@)],
        ),
        read_in(projection_ops(meta, l, input), input),
{
    let ops = projection_ops(meta, l, input);
    lemma_read_in(ops, 0, 0);
    lemma_read_in(ops, 1, 0);
    assert(read_behind(ops, 0, act_name(l.index, "pre_norm"@)));
}

proof fn lemma_attention_read(meta: Meta, l: LayerTensors<Text>, input: Text)
    ensures
        all_read(attention_ops(meta, l, input), set![act_name(l.index, "post_norm"@)]),
        read_in(attention_ops(meta, l, input), act_name(l.index, "q_rope"@)),
        read_in(attention_ops(meta, l, input), act_name(l.index, "k_rope"@)),
        read_in(attention_ops(meta, l, input), act_name(l.index, "v_proj"@)),
{
    let ops = attention_ops(meta, l, input);
    lemma_read_in(ops, 0, 0);
    lemma_read_in(ops, 0, 1);
    lemma_read_in(ops, 0, 2);
    lemma_read_in(ops, 1, 0);
    lemma_read_in(ops, 2, 1);
    lemma_read_in(ops, 3, 0);
    assert(read_behind(ops, 0, act_name(l.index, "attn_out"@)));
    assert(read_behind(ops, 1, act_name(l.index, "o_proj"@)));
    assert(read_behind(ops, 2, act_name(l.index, "post_attn"@)));
}

proof fn lemma_mlp_read(meta: Meta, l: LayerTensors<Text>)
    ensures
        all_read(mlp_ops(meta, l), set![act_name(l.index, "mlp_out"@)]),
        read_in(mlp_ops(meta, l), act_name(l.index, "post_norm"@)),
{
    let ops = mlp_ops(meta, l);
    lemma_read_in(ops, 0, 0);
    match l.gate_proj {
        Some(_) => {
            lemma_read_in(ops, 2, 0);
            lemma_read_in(ops, 3, 0);
            lemma_read_in(ops, 3, 1);
            lemma_read_in(ops, 4, 0);
            assert(read_behind(ops, 0, act_name(l.index, "gate_proj"@)));
            assert(read_behind(ops, 1, act_name(l.index, "up_proj"@)));
            assert(read_behind(ops, 2, act_name(l.index, "act"@)));
            assert(read_behind(ops, 3, act_name(l.index, "mlp_inter"@)));
        },
        None => {
            lemma_read_in(ops, 1, 0);
            lemma_read_in(ops, 2, 0);
            assert(read_behind(ops, 0, act_name(l.index, "up_proj"@)));
            assert(read_behind(ops, 1, act_name(l.index, "act"@)));
        },
    }
}

proof fn lemma_exit_read(meta: Meta, l: LayerTensors<Text>)
    ensures
        all_read(exit_ops(meta, l), set![layer_output(meta, l)]),
        read_in(exit_ops(meta, l), act_name(l.index, "post_attn"@)),
        read_in(exit_ops(meta, l), act_name(l.index, "mlp_out"@)),
{
    let ops = exit_ops(meta, l);
    lemma_read_in(ops, 0, 0);
    lemma_read_in(ops, 0, 1);
    if fuses(meta, l.index) {
        lemma_read_in(ops, 1, 0);
        assert(read_behind(ops, 0, act_name(l.index, "out"@)));
    }
}

proof fn lemma_turn_read(meta: Meta, l: LayerTensors<Text>)
    ensures
        all_read(
            seq![rope_op(meta, l)],
            set![act_name(l.index, "q_rope"@), act_name(l.index, "k_rope"@)],
        ),
        read_in(seq![rope_op(meta, l)], queries(l)),
        read_in(seq![rope_op(meta, l)], keys(l)),
{
    let ops = seq![rope_op(meta, l)];
    lemma_read_in(ops, 0, 0);
    lemma_read_in(ops, 0, 1);
}

proof fn lemma_norm_read(norm: Option<Text>, input: Text, output: Text)
    ensures
        all_read(norm_ops(norm, input, output), set![normed(norm, input, output)]),
        norm is Some ==> read_in(norm_ops(norm, input, output), input),
        norm is None ==> normed(norm, input, output) == input,
{
    if norm is Some {
        lemma_read_in(norm_ops(norm, input, output), 0, 0);
    }
}

/// What a list reads, a longer one reads too.
proof fn lemma_read_join(a: Seq<Operator<Text>>, b: Seq<Operator<Text>>, name: Text)
    ensures
        read_in(a, name) ==> read_in(a + b, name),
        read_in(b, name) ==> read_in(a + b, name),
{
    if read_in(a, name) {
        let j = choose|j: int| 0 <= j < a.len() && reads(#[trigger] a[j]).contains(name);
        assert(reads((a + b)[j]).contains(name));
    }
    if read_in(b, name) {
        let j = choose|j: int| 0 <= j < b.len() && reads(#[trigger] b[j]).contains(name);
        assert((a + b)[a.len() + j] == b[j]);
        assert(reads((a + b)[a.len() + j]).contains(name));
    }
}

proof fn lemma_back_read(meta: Meta, l: LayerTensors<Text>, input: Text)
    ensures
        ({
            let back = attention_ops(meta, l, input) + (mlp_ops(meta, l) + exit_ops(meta, l));
            &&& all_read(back, set![layer_output(meta, l)])
            &&& read_in(back, act_name(l.index, "q_rope"@))
            &&& read_in(back, act_name(l.index, "k_rope"@))
            &&& read_in(back, act_name(l.index, "v_proj"@))
        }),
{
    let (a, m, e) = (attention_ops(meta, l, input), mlp_ops(meta, l), exit_ops(meta, l));
    let after = set![layer_output(meta, l)];
    lemma_attention_read(meta, l, input);
    lemma_mlp_read(meta, l);
    lemma_exit_read(meta, l);
    lemma_all_read_join(m, e, set![act_name(l.index, "mlp_out"@)], after);
    lemma_read_join(m, e, act_name(l.index, "post_norm"@));
    lemma_all_read_join(a, m + e, set![act_name(l.index, "post_norm"@)], after);
    lemma_read_join(a, m + e, act_name(l.index, "q_rope"@));
    lemma_read_join(a, m + e, act_name(l.index, "k_rope"@));
    lemma_read_join(a, m + e, act_name(l.index, "v_proj"@));
}

/// Six lists of operators, one behind the other, each of which writes what
/// those behind it read.
proof fn lemma_chain(
    p: Seq<Operator<Text>>,
    nq: Seq<Operator<Text>>,
    nk: Seq<Operator<Text>>,
    r: Seq<Operator<Text>>,
    back: Seq<Operator<Text>>,
    q: Text,
    k: Text,
    v: Text,
    qn: Text,
    kn: Text,
    qr: Text,
    kr: Text,
    out: Text,
)
    requires
        all_read(p, set![q, k, v]),
        all_read(nq, set![qn]),
        all_read(nk, set![kn]),
        all_read(r, set![qr, kr]),
        all_read(back, set![out]),
        read_in(back, qr) && read_in(back, kr) && read_in(back, v),
        read_in(r, qn) && read_in(r, kn),
        q == qn || read_in(nq, q),
        k == kn || read_in(nk, k),
    ensures
        all_read(p + (nq + (nk + (r + back))), set![out]),
{
    let after = set![out];
    let r_on = r + back;
    lemma_all_read_join(r, back, set![qr, kr], after);
    lemma_read_join(r, back, qn);
    lemma_read_join(r, back, kn);
    lemma_read_join(r, back, v);
    let k_on = nk + r_on;
    lemma_all_read_join(nk, r_on, set![kn], after);
    lemma_read_join(nk, r_on, qn);
    lemma_read_join(nk, r_on, kn);
    lemma_read_join(nk, r_on, k);
    lemma_read_join(nk, r_on, v);
    let q_on = nq + k_on;
    lemma_all_read_join(nq, k_on, set![qn], after);
    lemma_read_join(nq, k_on, qn);
    lemma_read_join(nq, k_on, q);
    lemma_read_join(nq, k_on, k);
    lemma_read_join(nq, k_on, v);
    lemma_all_read_join(p, q_on, set![q, k, v], after);
}

/// A layer's operators, grouped from the back.
proof fn lemma_layer_groups(meta: Meta, l: LayerTensors<Text>, input: Text)
    ensures
        ({
            let i = l.index;
            let nq = norm_ops(l.q_norm, act_name(i, "q_proj"@), act_name(i, "q_normed"@));
            let nk = norm_ops(l.k_norm, act_name(i, "k_proj"@), act_name(i, "k_normed"@));
            let back = attention_ops(meta, l, input) + (mlp_ops(meta, l) + exit_ops(meta, l));
            layer_ops(meta, l, input) == projection_ops(meta, l, input) + (nq + (nk + (seq![
                rope_op(meta, l),
            ] + back)))
        }),
{
    lemma_regroup(
        projection_ops(meta, l, input),
        norm_ops(l.q_norm, act_name(l.index, "q_proj"@), act_name(l.index, "q_normed"@)),
        norm_ops(l.k_norm, act_name(l.index, "k_proj"@), act_name(l.index, "k_normed"@)),
        seq![rope_op(meta, l)],
        attention_ops(meta, l, input),
        mlp_ops(meta, l),
        exit_ops(meta, l),
    );
}

proof fn lemma_regroup(
    p: Seq<Operator<Text>>,
    q: Seq<Operator<Text>>,
    k: Seq<Operator<Text>>,
    r: Seq<Operator<Text>>,
    a: Seq<Operator<Text>>,
    m: Seq<Operator<Text>>,
    e: Seq<Operator<Text>>,
)
    ensures
        p + q + k + r + a + m + e == p + (q + (k + (r + (a + (m + e))))),
{
    assert(p + q + k + r + a + m + e =~= p + (q + (k + (r + (a + (m + e))))));
}

proof fn lemma_layer_read(meta: Meta, l: LayerTensors<Text>, input: Text)
    ensures
        all_read(layer_ops(meta, l, input), set![layer_output(meta, l)]),
        read_in(layer_ops(meta, l, input), input),
{
    let i = l.index;
    let p = projection_ops(meta, l, input);
    let nq = norm_ops(l.q_norm, act_name(i, "q_proj"@), act_name(i, "q_normed"@));
    let nk = norm_ops(l.k_norm, act_name(i, "k_proj"@), act_name(i, "k_normed"@));
    let r = seq![rope_op(meta, l)];
    let back = attention_ops(meta, l, input) + (mlp_ops(meta, l) + exit_ops(meta, l));
    lemma_back_read(meta, l, input);
    lemma_turn_read(meta, l);
    lemma_norm_read(l.q_norm, act_name(i, "q_proj"@), act_name(i, "q_normed"@));
    lemma_norm_read(l.k_norm, act_name(i, "k_proj"@), act_name(i, "k_normed"@));
    lemma_projections_read(meta, l, input);
    lemma_chain(
        p,
        nq,
        nk,
        r,
        back,
        act_name(i, "q_proj"@),
        act_name(i, "k_proj"@),
        act_name(i, "v_proj"@),
        queries(l),
        keys(l),
        act_name(i, "q_rope"@),
        act_name(i, "k_rope"@),
        layer_output(meta, l),
    );
    lemma_read_join(p, nq + (nk + (r + back)), input);
    lemma_layer_groups(meta, l, input);
}

proof fn lemma_stack_read(meta: Meta, layers: Seq<LayerTensors<Text>>)
    ensures
        all_read(stack_ops(meta, layers), set![hidden_after(meta, layers)]),
        layers.len() > 0 ==> read_in(stack_ops(meta, layers), entry_output(meta)),
    decreases layers.len(),
{
    if layers.len() > 0 {
        let front = layers.drop_last();
        let input = hidden_after(meta, front);
        let a = stack_ops(meta, front);
        let b = layer_ops(meta, layers.last(), input);
        lemma_stack_read(meta, front);
        lemma_layer_read(meta, layers.last(), input);
        lemma_all_read_join(a, b, set![input], set![hidden_after(meta, layers)]);
        lemma_read_join(a, b, entry_output(meta));
    }
}

proof fn lemma_entry_read(meta: Meta, embed: Text)
    ensures
        all_read(entry_ops(meta, embed), set![entry_output(meta)]),
{
    let ops = entry_ops(meta, embed);
    if meta.has_vision_encoder {
        lemma_read_in(ops, 2, 0);
        lemma_read_in(ops, 2, 1);
        assert(read_behind(ops, 0, "text_embeddings"@));
        assert(read_behind(ops, 1, "visual_embeddings"@));
    }
}

proof fn lemma_logits_read(
    meta: Meta,
    final_norm: Option<Text>,
    lm_head: Option<Text>,
    embed: Text,
    input: Text,
)
    ensures
        all_read(logit_ops(meta, final_norm, lm_head, embed, input), set!["logits"@]),
        read_in(logit_ops(meta, final_norm, lm_head, embed, input), input),
{
    let ops = logit_ops(meta, final_norm, lm_head, embed, input);
    lemma_read_in(ops, 0, 0);
    lemma_read_in(ops, 1, 0);
    assert(read_behind(ops, 0, "final_norm_out"@));
}

/// No work is wasted: whatever an operator of a model's graph writes, but for
/// the logits, a later operator reads.
pub proof fn law_every_activation_is_read(meta: Meta, group: TensorGroupMap, i: int, name: Text)
    requires
        0 <= i < graph_ops(meta, group).len(),
        writes(graph_ops(meta, group)[i]).contains(name),
        name != "logits"@,
    ensures
        exists|j: int|
            i < j < graph_ops(meta, group).len() && reads(
                #[trigger] graph_ops(meta, group)[j],
            ).contains(name),
{
    let embed = embed_weight(text_opt(group.embed_tokens));
    let layers = layers_view(group.layers@);
    let (final_norm, lm_head) = (text_opt(group.final_norm), text_opt(group.lm_head));
    let hidden = hidden_after(meta, layers);
    let a = entry_ops(meta, embed);
    let b = stack_ops(meta, layers);
    let c = logit_ops(meta, final_norm, lm_head, embed, hidden);
    let after = set!["logits"@];
    lemma_entry_read(meta, embed);
    lemma_stack_read(meta, layers);
    lemma_logits_read(meta, final_norm, lm_head, embed, hidden);
    lemma_all_read_join(b, c, set![hidden], after);
    lemma_read_join(b, c, entry_output(meta));
    lemma_all_read_join(a, b + c, set![entry_output(meta)], after);
    let all = graph_ops(meta, group);
    assert(all =~= a + (b + c));
    assert(read_behind(all, i, name));
}

} // verus!
