//! Separate query, key and value projections of an encoder, fused into one.
//!
//! Tensors are known by their place in the list that they were loaded in. A
//! plan says, for each name that the encoder looks up, which tensor to take or
//! how to make it.
use vstd::prelude::*;
use crate::names::NameMap;
use crate::text::{
    begins, contains, dec, decimal, free_of, has, join2, joined, law_decimal_reads_back,
    law_split_takes_apart, lemma_cut, lemma_dec_digits, lemma_split_behind, lemma_split_whole, parse_usize, same, split, split_on,
    starts_with, texts, usize_value, Text,
};
use crate::types::text_opt;

verus! {

/// One third of a fused projection.
#[derive(Debug, Clone, Copy, PartialEq, Eq, Structural)]
pub enum Piece {
    /// A loaded tensor.
    Raw(usize),
    /// That many zeros.
    Zeros(usize),
}

/// Where a tensor comes from.
#[derive(Debug, Clone, Copy, PartialEq, Eq, Structural)]
pub enum Source {
    /// A loaded tensor.
    Raw(usize),
    /// Three pieces, joined along an axis.
    Join { axis: usize, q: Piece, k: Piece, v: Piece },
    /// That many zeros.
    Zeros(usize),
}

/// Why projections cannot be fused.
#[derive(Debug, Clone, Copy, PartialEq, Eq, Structural)]
pub enum FuseError {
    /// A tensor has no such axis.
    LowRank(usize),
    /// The fused projection is wider than the machine can address.
    TooWide,
}

/// The name of a tensor of an encoder layer.
pub open spec fn part_name(prefix: Text, layer: nat, what: Text) -> Text {
    prefix + dec(layer) + "."@ + what
}

/// Renders the name of a tensor of an encoder layer.
pub fn name_of_part(prefix: &str, layer: usize, what: &str) -> (out: String)
    ensures
        out@ == part_name(prefix@, layer as nat, what@),
{
    let mut out = join2(prefix, &decimal(layer as u64));
    out.append(".");
    out.append(what);
    out
}

/// The name belongs to one of the three separate projections of a layer.
pub open spec fn is_separate(prefix: Text, name: Text) -> bool {
    let parts = split(name, '.');
    &&& begins(name, prefix)
    &&& parts.len() >= 5
    &&& usize_value(parts[2]) is Some
    &&& parts[3] == "attn_q"@ || parts[3] == "attn_k"@ || parts[3] == "attn_v"@
    &&& parts[4] == "weight"@ || parts[4] == "bias"@
}

fn names_separate(prefix: &str, name: &str) -> (b: bool)
    ensures
        b == is_separate(prefix@, name@),
{
    if !starts_with(name, prefix) {
        return false;
    }
    let parts = split_on(name, '.');
    let ghost all = split(name@, '.');
    if parts.len() < 5 {
        assert(all.len() < 5);
        return false;
    }
    assert(parts@[2]@ == all[2]);
    assert(parts@[3]@ == all[3]);
    assert(parts@[4]@ == all[4]);
    parse_usize(&parts[2]).is_some() && (same(&parts[3], "attn_q") || same(&parts[3], "attn_k")
        || same(&parts[3], "attn_v")) && (same(&parts[4], "weight") || same(&parts[4], "bias"))
}

/// The entry under `name`.
pub open spec fn look(m: Map<Text, usize>, name: Text) -> Option<usize> {
    if m.contains_key(name) {
        Some(m[name])
    } else {
        None
    }
}

/// The size of tensor `i` along `axis`.
pub open spec fn size_along(shapes: Seq<Seq<usize>>, i: int, axis: int) -> Option<usize> {
    if axis < shapes[i].len() {
        Some(shapes[i][axis])
    } else {
        None
    }
}

/// The separate projections of a layer: weights, then biases.
pub ghost struct Separate {
    pub qw: Option<usize>,
    pub kw: Option<usize>,
    pub vw: Option<usize>,
    pub qb: Option<usize>,
    pub kb: Option<usize>,
    pub vb: Option<usize>,
}

/// The separate projections of layer `layer` that were found.
pub open spec fn separate(m: Map<Text, usize>, prefix: Text, layer: nat) -> Separate {
    Separate {
        qw: look(m, part_name(prefix, layer, "attn_q.weight"@)),
        kw: look(m, part_name(prefix, layer, "attn_k.weight"@)),
        vw: look(m, part_name(prefix, layer, "attn_v.weight"@)),
        qb: look(m, part_name(prefix, layer, "attn_q.bias"@)),
        kb: look(m, part_name(prefix, layer, "attn_k.bias"@)),
        vb: look(m, part_name(prefix, layer, "attn_v.bias"@)),
    }
}

/// The width of a projection; one where there is none. `None` if the tensor
/// has no such axis.
pub open spec fn width(shapes: Seq<Seq<usize>>, w: Option<usize>, axis: int) -> Option<usize> {
    match w {
        Some(i) => size_along(shapes, i as int, axis),
        None => Some(1),
    }
}

/// A bias, or zeros of the projection's width.
pub open spec fn bias_piece(b: Option<usize>, width: usize) -> Piece {
    match b {
        Some(i) => Piece::Raw(i),
        None => Piece::Zeros(width),
    }
}

/// The plan after layer `layer` has been fused. Weights are joined along
/// `axis`, biases end to end. A missing bias counts as zeros; a fused weight
/// without any bias gets a bias of zeros.
pub open spec fn fused_layer(
    plan: Map<Text, Source>,
    m: Map<Text, usize>,
    shapes: Seq<Seq<usize>>,
    prefix: Text,
    axis: usize,
    layer: nat,
) -> Result<Map<Text, Source>, FuseError> {
    let s = separate(m, prefix, layer);
    let weight = part_name(prefix, layer, "attn_qkv.weight"@);
    let bias = part_name(prefix, layer, "attn_qkv.bias"@);
    match (width(shapes, s.qw, axis as int), width(shapes, s.kw, axis as int), width(
        shapes,
        s.vw,
        axis as int,
    )) {
        (None, _, _) => Err(FuseError::LowRank(s.qw->0)),
        (_, None, _) => Err(FuseError::LowRank(s.kw->0)),
        (_, _, None) => Err(FuseError::LowRank(s.vw->0)),
        (Some(q), Some(k), Some(v)) => {
            let all = s.qw is Some && s.kw is Some && s.vw is Some;
            let with_weight = if all {
                plan.insert(
                    weight,
                    Source::Join {
                        axis,
                        q: Piece::Raw(s.qw->0),
                        k: Piece::Raw(s.kw->0),
                        v: Piece::Raw(s.vw->0),
                    },
                )
            } else {
                plan
            };
            if s.qb is Some || s.kb is Some || s.vb is Some {
                Ok(
                    with_weight.insert(
                        bias,
                        Source::Join {
                            axis: 0,
                            q: bias_piece(s.qb, q),
                            k: bias_piece(s.kb, k),
                            v: bias_piece(s.vb, v),
                        },
                    ),
                )
            } else if all {
                if q + k + v > usize::MAX {
                    Err(FuseError::TooWide)
                } else {
                    Ok(with_weight.insert(bias, Source::Zeros((q + k + v) as usize)))
                }
            } else if plan.contains_key(weight) {
                match plan[weight] {
                    Source::Raw(i) => match size_along(shapes, i as int, axis as int) {
                        Some(n) => Ok(plan.insert(bias, Source::Zeros(n))),
                        None => Err(FuseError::LowRank(i)),
                    },
                    _ => Ok(plan),
                }
            } else {
                Ok(plan)
            }
        },
    }
}

/// The plan after the first `layers` layers have been fused.
pub open spec fn fused_layers(
    plan: Map<Text, Source>,
    m: Map<Text, usize>,
    shapes: Seq<Seq<usize>>,
    prefix: Text,
    axis: usize,
    layers: nat,
) -> Result<Map<Text, Source>, FuseError>
    decreases layers,
{
    if layers == 0 {
        Ok(plan)
    } else {
        match fused_layers(plan, m, shapes, prefix, axis, (layers - 1) as nat) {
            Err(e) => Err(e),
            Ok(p) => fused_layer(p, m, shapes, prefix, axis, (layers - 1) as nat),
        }
    }
}

/// Everything that was found but the separate projections.
pub open spec fn kept(m: Map<Text, usize>, prefix: Text) -> Map<Text, Source> {
    Map::new(
        |name: Text| m.contains_key(name) && !is_separate(prefix, name),
        |name: Text| Source::Raw(m[name]),
    )
}

/// Shapes without their representation.
pub open spec fn shapes_view(shapes: Seq<Vec<usize>>) -> Seq<Seq<usize>> {
    shapes.map_values(|s: Vec<usize>| s@)
}

/// Every entry is a tensor of the list.
pub open spec fn in_list(m: Map<Text, usize>, n: nat) -> bool {
    forall|name: Text| #[trigger] m.contains_key(name) ==> m[name] < n
}

fn keep_others(m: &NameMap<usize>, prefix: &str) -> (plan: NameMap<Source>)
    ensures
        plan@ == kept(m@, prefix@),
{
    let n: usize = m.len();
    let mut plan: NameMap<Source> = NameMap::new();
    let mut i: usize = 0;
    proof {
        m.lemma_items();
    }
    while i < n
        invariant
            i <= n,
            n == m.items().len(),
            forall|k: int|
                #![trigger m.items()[k]]
                0 <= k < m.items().len() ==> m@.contains_key(m.items()[k].0@)
                    && m@[m.items()[k].0@] == m.items()[k].1,
            forall|name: Text| #[trigger]
                plan@.contains_key(name) <==> (!is_separate(prefix@, name) && exists|k: int|
                    0 <= k < i && (#[trigger] m.items()[k]).0@ == name),
            forall|name: Text| #[trigger]
                plan@.contains_key(name) ==> plan@[name] == Source::Raw(m@[name]),
        decreases n - i,
    {
        let name = m.name_at(i);
        let ghost before = plan@;
        assert(m.items()[i as int].0@ == name@);
        if !names_separate(prefix, name) {
            plan.insert(name.clone(), Source::Raw(*m.value_at(i)));
        }
        proof {
            assert forall|x: Text| #[trigger] plan@.contains_key(x) <==> (!is_separate(prefix@, x)
                && exists|k: int| 0 <= k < i + 1 && (#[trigger] m.items()[k]).0@ == x) by {
                assert(before.contains_key(x) <==> (!is_separate(prefix@, x) && exists|k: int|
                    0 <= k < i && (#[trigger] m.items()[k]).0@ == x));
                if x == name@ {
                    assert(m.items()[i as int].0@ == x);
                }
                if plan@.contains_key(x) && x != name@ {
                    assert(before.contains_key(x));
                    let k = choose|k: int| 0 <= k < i && (#[trigger] m.items()[k]).0@ == x;
                    assert(m.items()[k].0@ == x);
                }
            }
        }
        i += 1;
    }
    proof {
        assert forall|name: Text| plan@.contains_key(name) <==> kept(m@, prefix@).contains_key(name)
        by {
            if m@.contains_key(name) && !is_separate(prefix@, name) {
                let k = choose|k: int|
                    0 <= k < m.items().len() && (#[trigger] m.items()[k]).0@ == name;
                assert(plan@.contains_key(name));
            }
        }
        assert(plan@ =~= kept(m@, prefix@));
    }
    plan
}

fn look_up(m: &NameMap<usize>, name: &str) -> (r: Option<usize>)
    ensures
        r == look(m@, name@),
{
    match m.get(name) {
        Some(i) => Some(*i),
        None => None,
    }
}

fn size_at(shapes: &[Vec<usize>], i: usize, axis: usize) -> (r: Option<usize>)
    requires
        i < shapes@.len(),
    ensures
        r == size_along(shapes_view(shapes@), i as int, axis as int),
{
    if axis < shapes[i].len() {
        Some(shapes[i][axis])
    } else {
        None
    }
}

fn width_of(shapes: &[Vec<usize>], w: Option<usize>, axis: usize) -> (r: Result<usize, FuseError>)
    requires
        w matches Some(i) ==> i < shapes@.len(),
    ensures
        match r {
            Ok(n) => width(shapes_view(shapes@), w, axis as int) == Some(n),
            Err(e) => width(shapes_view(shapes@), w, axis as int) is None && w is Some && e
                == FuseError::LowRank(w->0),
        },
{
    match w {
        Some(i) => match size_at(shapes, i, axis) {
            Some(n) => Ok(n),
            None => Err(FuseError::LowRank(i)),
        },
        None => Ok(1),
    }
}

fn piece_of(b: Option<usize>, width: usize) -> (p: Piece)
    ensures
        p == bias_piece(b, width),
{
    match b {
        Some(i) => Piece::Raw(i),
        None => Piece::Zeros(width),
    }
}

/// Entries that are loaded tensors are tensors of the list.
pub open spec fn raws_in_list(plan: Map<Text, Source>, n: nat) -> bool {
    forall|name: Text| #[trigger]
        plan.contains_key(name) ==> (plan[name] matches Source::Raw(i) ==> i < n)
}

fn fuse_layer(
    plan: &mut NameMap<Source>,
    m: &NameMap<usize>,
    shapes: &[Vec<usize>],
    prefix: &str,
    axis: usize,
    layer: usize,
) -> (r: Result<(), FuseError>)
    requires
        in_list(m@, shapes@.len()),
        raws_in_list(old(plan)@, shapes@.len()),
    ensures
        raws_in_list(final(plan)@, shapes@.len()),
        match r {
            Ok(()) => fused_layer(
                old(plan)@,
                m@,
                shapes_view(shapes@),
                prefix@,
                axis,
                layer as nat,
            ) == Ok::<Map<Text, Source>, FuseError>(final(plan)@),
            Err(e) => fused_layer(
                old(plan)@,
                m@,
                shapes_view(shapes@),
                prefix@,
                axis,
                layer as nat,
            ) == Err::<Map<Text, Source>, FuseError>(e),
        },
{
    let qw = look_up(m, &name_of_part(prefix, layer, "attn_q.weight"));
    let kw = look_up(m, &name_of_part(prefix, layer, "attn_k.weight"));
    let vw = look_up(m, &name_of_part(prefix, layer, "attn_v.weight"));
    let qb = look_up(m, &name_of_part(prefix, layer, "attn_q.bias"));
    let kb = look_up(m, &name_of_part(prefix, layer, "attn_k.bias"));
    let vb = look_up(m, &name_of_part(prefix, layer, "attn_v.bias"));
    let q: usize = match width_of(shapes, qw, axis) {
        Ok(n) => n,
        Err(e) => return Err(e),
    };
    let k: usize = match width_of(shapes, kw, axis) {
        Ok(n) => n,
        Err(e) => return Err(e),
    };
    let v: usize = match width_of(shapes, vw, axis) {
        Ok(n) => n,
        Err(e) => return Err(e),
    };
    let weight = name_of_part(prefix, layer, "attn_qkv.weight");
    let bias = name_of_part(prefix, layer, "attn_qkv.bias");
    let mut all = false;
    if let (Some(a), Some(b), Some(c)) = (qw, kw, vw) {
        all = true;
        plan.insert(
            weight.clone(),
            Source::Join { axis, q: Piece::Raw(a), k: Piece::Raw(b), v: Piece::Raw(c) },
        );
    }
    if qb.is_some() || kb.is_some() || vb.is_some() {
        plan.insert(
            bias,
            Source::Join {
                axis: 0,
                q: piece_of(qb, q),
                k: piece_of(kb, k),
                v: piece_of(vb, v),
            },
        );
        return Ok(());
    }
    if all {
        let qk: usize = match q.checked_add(k) {
            Some(n) => n,
            None => return Err(FuseError::TooWide),
        };
        let qkv: usize = match qk.checked_add(v) {
            Some(n) => n,
            None => return Err(FuseError::TooWide),
        };
        plan.insert(bias, Source::Zeros(qkv));
        return Ok(());
    }
    if let Some(Source::Raw(i)) = plan.get(&weight) {
        let i: usize = *i;
        match size_at(shapes, i, axis) {
            Some(n) => {
                plan.insert(bias, Source::Zeros(n));
            },
            None => return Err(FuseError::LowRank(i)),
        }
    }
    Ok(())
}

proof fn lemma_fused_stop(
    plan: Map<Text, Source>,
    m: Map<Text, usize>,
    shapes: Seq<Seq<usize>>,
    prefix: Text,
    axis: usize,
    k: nat,
    n: nat,
)
    requires
        k <= n,
        fused_layers(plan, m, shapes, prefix, axis, k) is Err,
    ensures
        fused_layers(plan, m, shapes, prefix, axis, n) == fused_layers(
            plan,
            m,
            shapes,
            prefix,
            axis,
            k,
        ),
    decreases n,
{
    if k < n {
        lemma_fused_stop(plan, m, shapes, prefix, axis, k, (n - 1) as nat);
    }
}

/// Plans the tensors of an encoder: the separate projections of the first
/// `num_layers` layers are fused, everything else is kept.
pub fn fuse_projections(
    m: &NameMap<usize>,
    shapes: &[Vec<usize>],
    prefix: &str,
    axis: usize,
    num_layers: usize,
) -> (r: Result<NameMap<Source>, FuseError>)
    requires
        in_list(m@, shapes@.len()),
    ensures
        match r {
            Ok(plan) => fused_layers(
                kept(m@, prefix@),
                m@,
                shapes_view(shapes@),
                prefix@,
                axis,
                num_layers as nat,
            ) == Ok::<Map<Text, Source>, FuseError>(plan@),
            Err(e) => fused_layers(
                kept(m@, prefix@),
                m@,
                shapes_view(shapes@),
                prefix@,
                axis,
                num_layers as nat,
            ) == Err::<Map<Text, Source>, FuseError>(e),
        },
{
    let mut plan = keep_others(m, prefix);
    let ghost start = plan@;
    let ghost sv = shapes_view(shapes@);
    let mut layer: usize = 0;
    while layer < num_layers
        invariant
            layer <= num_layers,
            in_list(m@, shapes@.len()),
            raws_in_list(plan@, shapes@.len()),
            start == kept(m@, prefix@),
            sv == shapes_view(shapes@),
            fused_layers(start, m@, sv, prefix@, axis, layer as nat) == Ok::<
                Map<Text, Source>,
                FuseError,
            >(plan@),
        decreases num_layers - layer,
    {
        match fuse_layer(&mut plan, m, shapes, prefix, axis, layer) {
            Ok(()) => {},
            Err(e) => {
                proof {
                    lemma_fused_stop(
                        start,
                        m@,
                        sv,
                        prefix@,
                        axis,
                        (layer + 1) as nat,
                        num_layers as nat,
                    );
                }
                return Err(e);
            },
        }
        layer += 1;
    }
    Ok(plan)
}

/// What a tensor of a Hugging Face encoder layer is called in this library,
/// behind the layer index.
pub open spec fn layer_part(name: Text) -> Option<Text> {
    if has(name, "layer_norm1.weight"@) {
        Some("ln1.weight"@)
    } else if has(name, "layer_norm1.bias"@) {
        Some("ln1.bias"@)
    } else if has(name, "layer_norm2.weight"@) {
        Some("ln2.weight"@)
    } else if has(name, "layer_norm2.bias"@) {
        Some("ln2.bias"@)
    } else if has(name, "self_attn.out_proj.weight"@) || has(name, "self_attn.dense.weight"@) {
        Some("attn_out.weight"@)
    } else if has(name, "self_attn.out_proj.bias"@) || has(name, "self_attn.dense.bias"@) {
        Some("attn_out.bias"@)
    } else if has(name, "mlp.fc1.weight"@) || has(name, "mlp.dense_h_to_4h.weight"@) {
        Some("ffn_up.weight"@)
    } else if has(name, "mlp.fc1.bias"@) || has(name, "mlp.dense_h_to_4h.bias"@) {
        Some("ffn_up.bias"@)
    } else if has(name, "mlp.fc2.weight"@) || has(name, "mlp.dense_4h_to_h.weight"@) {
        Some("ffn_down.weight"@)
    } else if has(name, "mlp.fc2.bias"@) || has(name, "mlp.dense_4h_to_h.bias"@) {
        Some("ffn_down.bias"@)
    } else if has(name, "self_attn.q_proj.weight"@) {
        Some("attn_q.weight"@)
    } else if has(name, "self_attn.k_proj.weight"@) {
        Some("attn_k.weight"@)
    } else if has(name, "self_attn.v_proj.weight"@) {
        Some("attn_v.weight"@)
    } else if has(name, "self_attn.q_proj.bias"@) {
        Some("attn_q.bias"@)
    } else if has(name, "self_attn.k_proj.bias"@) {
        Some("attn_k.bias"@)
    } else if has(name, "self_attn.v_proj.bias"@) {
        Some("attn_v.bias"@)
    } else {
        None
    }
}

/// The index behind the first `layers` in a dotted name.
pub open spec fn layer_behind(parts: Seq<Text>) -> Option<usize>
    decreases parts.len(),
{
    if parts.len() < 2 {
        None
    } else if parts[0] == "layers"@ {
        usize_value(parts[1])
    } else {
        layer_behind(parts.skip(1))
    }
}

/// A tensor of a Hugging Face encoder layer, in this library's naming.
pub open spec fn hf_layer_name(prefix: Text, name: Text) -> Option<Text> {
    match layer_behind(split(name, '.')) {
        Some(layer) => match layer_part(name) {
            Some(what) => Some(part_name(prefix, layer as nat, what)),
            None => None,
        },
        None => None,
    }
}

fn part_in_layer(name: &str) -> (r: Option<&'static str>)
    ensures
        match r {
            Some(what) => layer_part(name@) == Some(what@),
            None => layer_part(name@) is None,
        },
{
    if contains(name, "layer_norm1.weight") {
        Some("ln1.weight")
    } else if contains(name, "layer_norm1.bias") {
        Some("ln1.bias")
    } else if contains(name, "layer_norm2.weight") {
        Some("ln2.weight")
    } else if contains(name, "layer_norm2.bias") {
        Some("ln2.bias")
    } else if contains(name, "self_attn.out_proj.weight") || contains(name, "self_attn.dense.weight") {
        Some("attn_out.weight")
    } else if contains(name, "self_attn.out_proj.bias") || contains(name, "self_attn.dense.bias") {
        Some("attn_out.bias")
    } else if contains(name, "mlp.fc1.weight") || contains(name, "mlp.dense_h_to_4h.weight") {
        Some("ffn_up.weight")
    } else if contains(name, "mlp.fc1.bias") || contains(name, "mlp.dense_h_to_4h.bias") {
        Some("ffn_up.bias")
    } else if contains(name, "mlp.fc2.weight") || contains(name, "mlp.dense_4h_to_h.weight") {
        Some("ffn_down.weight")
    } else if contains(name, "mlp.fc2.bias") || contains(name, "mlp.dense_4h_to_h.bias") {
        Some("ffn_down.bias")
    } else if contains(name, "self_attn.q_proj.weight") {
        Some("attn_q.weight")
    } else if contains(name, "self_attn.k_proj.weight") {
        Some("attn_k.weight")
    } else if contains(name, "self_attn.v_proj.weight") {
        Some("attn_v.weight")
    } else if contains(name, "self_attn.q_proj.bias") {
        Some("attn_q.bias")
    } else if contains(name, "self_attn.k_proj.bias") {
        Some("attn_k.bias")
    } else if contains(name, "self_attn.v_proj.bias") {
        Some("attn_v.bias")
    } else {
        None
    }
}

fn find_layer(parts: &Vec<String>) -> (r: Option<usize>)
    ensures
        r == layer_behind(texts(parts@)),
{
    let ghost all = texts(parts@);
    let mut i: usize = 0;
    assert(all.skip(0) =~= all);
    while parts.len() - i >= 2
        invariant
            i <= parts.len(),
            all == texts(parts@),
            layer_behind(all) == layer_behind(all.skip(i as int)),
        decreases parts.len() - i,
    {
        let ghost rest = all.skip(i as int);
        assert(rest[0] == parts@[i as int]@);
        assert(rest[1] == parts@[i + 1]@);
        assert(rest.skip(1) =~= all.skip(i + 1));
        if same(&parts[i], "layers") {
            return parse_usize(&parts[i + 1]);
        }
        i += 1;
    }
    None
}

/// Renames a tensor of a Hugging Face encoder layer.
pub fn rename_hf_layer(prefix: &str, name: &str) -> (r: Option<String>)
    ensures
        text_opt(r) == hf_layer_name(prefix@, name@),
{
    match find_layer(&split_on(name, '.')) {
        Some(layer) => match part_in_layer(name) {
            Some(what) => Some(name_of_part(prefix, layer, what)),
            None => None,
        },
        None => None,
    }
}

/// Appends a name to a list.
pub fn push_name(out: &mut Vec<String>, name: String)
    ensures
        texts(final(out)@) == texts(old(out)@).push(name@),
{
    let ghost before = texts(out@);
    out.push(name);
    assert(texts(out@) =~= before.push(name@));
}

/// Fusing a layer gives the layer's fused weight, where there is one, a fused
/// bias. No name leaves the plan, and nothing but these two changes. A fused
/// bias that was planned is replaced.
pub proof fn law_fused_weight_has_bias(
    plan: Map<Text, Source>,
    m: Map<Text, usize>,
    shapes: Seq<Seq<usize>>,
    prefix: Text,
    axis: usize,
    layer: nat,
)
    requires
        ({
            let weight = part_name(prefix, layer, "attn_qkv.weight"@);
            plan.contains_key(weight) ==> plan[weight] is Raw
        }),
    ensures
        fused_layer(plan, m, shapes, prefix, axis, layer) matches Ok(p) ==> (p.contains_key(
            part_name(prefix, layer, "attn_qkv.weight"@),
        ) ==> p.contains_key(part_name(prefix, layer, "attn_qkv.bias"@))),
        fused_layer(plan, m, shapes, prefix, axis, layer) matches Ok(p) ==> plan.dom().subset_of(
            p.dom(),
        ),
        fused_layer(plan, m, shapes, prefix, axis, layer) matches Ok(p) ==> forall|name: Text|
            name != part_name(prefix, layer, "attn_qkv.weight"@) && name != part_name(
                prefix,
                layer,
                "attn_qkv.bias"@,
            ) ==> (#[trigger] p.contains_key(name) <==> plan.contains_key(name)) && p[name]
                == plan[name],
{
}

/// Two tensors of an encoder share a name only if they are the same part of
/// the same layer.
pub proof fn law_part_names_apart(prefix: Text, a: nat, b: nat, x: Text, y: Text)
    requires
        part_name(prefix, a, x) == part_name(prefix, b, y),
    ensures
        a == b,
        x == y,
{
    reveal_strlit(".");
    let s = dec(a).push('.') + x;
    let t = dec(b).push('.') + y;
    assert(part_name(prefix, a, x) =~= prefix + s);
    assert(part_name(prefix, b, y) =~= prefix + t);
    assert((prefix + s).skip(prefix.len() as int) =~= s);
    assert((prefix + t).skip(prefix.len() as int) =~= t);
    lemma_dec_digits(a);
    lemma_dec_digits(b);
    lemma_cut(dec(a), '.', x);
    lemma_cut(dec(b), '.', y);
    law_decimal_reads_back(a);
    law_decimal_reads_back(b);
}

/// A tensor of a layer, split at its dots.
pub proof fn lemma_part_split(
    one: Text,
    two: Text,
    prefix: Text,
    layer: nat,
    component: Text,
    param: Text,
)
    requires
        prefix == (one.push('.') + two).push('.'),
        free_of(one, '.'),
        free_of(two, '.'),
        free_of(component, '.'),
        free_of(param, '.'),
    ensures
        split(part_name(prefix, layer, component + "."@ + param), '.') == seq![
            one,
            two,
            dec(layer),
            component,
            param,
        ],
        begins(part_name(prefix, layer, component + "."@ + param), prefix),
{
    reveal_strlit(".");
    lemma_dec_digits(layer);
    let a = one;
    let b = a.push('.') + two;
    let c = b.push('.') + dec(layer);
    let d = c.push('.') + component;
    let e = d.push('.') + param;
    lemma_split_whole(a, '.');
    lemma_split_behind(a, '.', two);
    lemma_split_behind(b, '.', dec(layer));
    lemma_split_behind(c, '.', component);
    lemma_split_behind(d, '.', param);
    let name = part_name(prefix, layer, component + "."@ + param);
    assert(name =~= e);
    assert(split(e, '.') =~= seq![one, two, dec(layer), component, param]);
    assert(name.subrange(0, prefix.len() as int) =~= prefix);
}

/// The prefix of an encoder's layers.
pub open spec fn is_layer_prefix(prefix: Text) -> bool {
    prefix == "vision.layers."@ || prefix == "audio.layers."@
}

/// Of the parts of a layer, the weights and biases of its queries, keys and
/// values count as separate projections, and no other part does.
pub proof fn law_separate_parts(prefix: Text, layer: usize, component: Text, param: Text)
    requires
        is_layer_prefix(prefix),
        free_of(component, '.'),
        free_of(param, '.'),
    ensures
        is_separate(prefix, part_name(prefix, layer as nat, component + "."@ + param)) <==> (
        component == "attn_q"@ || component == "attn_k"@ || component == "attn_v"@) && (param
            == "weight"@ || param == "bias"@),
{
    law_decimal_reads_back(layer as nat);
    reveal_strlit("vision.layers.");
    reveal_strlit("audio.layers.");
    reveal_strlit("vision");
    reveal_strlit("audio");
    reveal_strlit("layers");
    let one = if prefix == "vision.layers."@ {
        "vision"@
    } else {
        "audio"@
    };
    assert(prefix =~= (one.push('.') + "layers"@).push('.'));
    lemma_part_split(one, "layers"@, prefix, layer as nat, component, param);
}

/// The fused projections of a layer, and their biases, are no separate ones.
proof fn lemma_fused_not_separate(prefix: Text, layer: usize)
    requires
        is_layer_prefix(prefix),
    ensures
        !is_separate(prefix, part_name(prefix, layer as nat, "attn_qkv.weight"@)),
        !is_separate(prefix, part_name(prefix, layer as nat, "attn_qkv.bias"@)),
{
    reveal_strlit("attn_q");
    reveal_strlit("attn_k");
    reveal_strlit("attn_v");
    reveal_strlit("attn_qkv");
    reveal_strlit("weight");
    reveal_strlit("bias");
    reveal_strlit("attn_qkv.weight");
    reveal_strlit("attn_qkv.bias");
    reveal_strlit(".");
    assert("attn_q"@.len() == 6);
    assert("attn_k"@.len() == 6);
    assert("attn_v"@.len() == 6);
    assert("attn_qkv"@.len() == 8);
    assert("weight"@.len() == 6);
    assert("bias"@.len() == 4);
    assert("attn_q"@[5] != "attn_k"@[5]);
    assert("attn_q"@[5] != "attn_v"@[5]);
    assert("attn_q"@[0] != "weight"@[0]);
    assert("attn_k"@[5] != "attn_v"@[5]);
    assert("attn_k"@[0] != "weight"@[0]);
    assert("attn_v"@[0] != "weight"@[0]);
    law_separate_parts(prefix, layer, "attn_qkv"@, "weight"@);
    law_separate_parts(prefix, layer, "attn_qkv"@, "bias"@);
    assert("attn_qkv"@ + "."@ + "weight"@ =~= "attn_qkv.weight"@);
    assert("attn_qkv"@ + "."@ + "bias"@ =~= "attn_qkv.bias"@);
}

/// A bias of the list, or as many zeros as its weight is wide; a weight that
/// is not there counts as one wide.
pub open spec fn bias_or_zeros(
    m: Map<Text, usize>,
    shapes: Seq<Seq<usize>>,
    axis: usize,
    bias: Text,
    weight: Text,
) -> Piece {
    if m.contains_key(bias) {
        Piece::Raw(m[bias])
    } else if m.contains_key(weight) {
        Piece::Zeros(shapes[m[weight] as int][axis as int])
    } else {
        Piece::Zeros(1)
    }
}

/// The plan holds, for a layer, queries, keys and values in this order: the
/// weights side by side along `axis`, the biases end to end. What is not
/// separate in the list stays as it is.
pub open spec fn layer_is_fused(
    plan: Map<Text, Source>,
    m: Map<Text, usize>,
    shapes: Seq<Seq<usize>>,
    prefix: Text,
    axis: usize,
    layer: nat,
) -> bool {
    let (qw, qb) = (
        part_name(prefix, layer, "attn_q.weight"@),
        part_name(prefix, layer, "attn_q.bias"@),
    );
    let (kw, kb) = (
        part_name(prefix, layer, "attn_k.weight"@),
        part_name(prefix, layer, "attn_k.bias"@),
    );
    let (vw, vb) = (
        part_name(prefix, layer, "attn_v.weight"@),
        part_name(prefix, layer, "attn_v.bias"@),
    );
    let weight = part_name(prefix, layer, "attn_qkv.weight"@);
    let bias = part_name(prefix, layer, "attn_qkv.bias"@);
    let all = m.contains_key(qw) && m.contains_key(kw) && m.contains_key(vw);
    let some = m.contains_key(qb) || m.contains_key(kb) || m.contains_key(vb);
    &&& all ==> plan.contains_key(weight) && plan[weight] == (Source::Join {
        axis,
        q: Piece::Raw(m[qw]),
        k: Piece::Raw(m[kw]),
        v: Piece::Raw(m[vw]),
    })
    &&& !all && m.contains_key(weight) ==> plan.contains_key(weight) && plan[weight]
        == Source::Raw(m[weight])
    &&& !all && !(m.contains_key(weight)) ==> !(plan.contains_key(weight))
    &&& some ==> plan.contains_key(bias) && plan[bias] == (Source::Join {
        axis: 0,
        q: bias_or_zeros(m, shapes, axis, qb, qw),
        k: bias_or_zeros(m, shapes, axis, kb, kw),
        v: bias_or_zeros(m, shapes, axis, vb, vw),
    })
    &&& !some && all ==> plan.contains_key(bias) && (plan[bias] matches Source::Zeros(n) && n
        == shapes[m[qw] as int][axis as int] + shapes[m[kw] as int][axis as int]
        + shapes[m[vw] as int][axis as int])
    &&& !some && !all && m.contains_key(weight) ==> plan.contains_key(bias) && plan[bias]
        == Source::Zeros(shapes[m[weight] as int][axis as int])
    &&& !some && !all && !(m.contains_key(weight)) && m.contains_key(bias)
        ==> plan.contains_key(bias) && plan[bias] == Source::Raw(m[bias])
}

/// The name is that of a fused projection, or of its bias, in one of the first
/// `layers` layers.
pub open spec fn is_fused(prefix: Text, layers: nat, name: Text) -> bool {
    exists|l: nat|
        l < layers && (name == #[trigger] part_name(prefix, l, "attn_qkv.weight"@) || name
            == part_name(prefix, l, "attn_qkv.bias"@))
}

/// Every tensor but the separate and the fused projections stays where it is.
pub proof fn law_others_are_kept(
    m: Map<Text, usize>,
    shapes: Seq<Seq<usize>>,
    prefix: Text,
    axis: usize,
    layers: nat,
    name: Text,
)
    requires
        fused_layers(kept(m, prefix), m, shapes, prefix, axis, layers) is Ok,
        !(is_fused(prefix, layers, name)),
    ensures
        ({
            let plan = fused_layers(kept(m, prefix), m, shapes, prefix, axis, layers)->Ok_0;
            &&& plan.contains_key(name) <==> m.contains_key(name) && !(is_separate(prefix, name))
            &&& plan.contains_key(name) ==> plan[name] == Source::Raw(m[name])
        }),
    decreases layers,
{
    if layers > 0 {
        let last = (layers - 1) as nat;
        if is_fused(prefix, last, name) {
            let l = choose|l: nat|
                l < last && (name == #[trigger] part_name(prefix, l, "attn_qkv.weight"@) || name
                    == part_name(prefix, l, "attn_qkv.bias"@));
            assert(is_fused(prefix, layers, name));
        }
        law_others_are_kept(m, shapes, prefix, axis, last, name);
        assert(name != part_name(prefix, last, "attn_qkv.weight"@));
        assert(name != part_name(prefix, last, "attn_qkv.bias"@));
    }
}

/// The fused projections of one layer are not those of another.
proof fn lemma_fused_apart(prefix: Text, layers: nat, layer: nat)
    requires
        layer >= layers,
    ensures
        !(is_fused(prefix, layers, part_name(prefix, layer, "attn_qkv.weight"@))),
        !(is_fused(prefix, layers, part_name(prefix, layer, "attn_qkv.bias"@))),
{
    let weight = part_name(prefix, layer, "attn_qkv.weight"@);
    let bias = part_name(prefix, layer, "attn_qkv.bias"@);
    assert forall|l: nat| l < layers implies {
        &&& #[trigger] part_name(prefix, l, "attn_qkv.weight"@) != weight
        &&& part_name(prefix, l, "attn_qkv.weight"@) != bias
        &&& part_name(prefix, l, "attn_qkv.bias"@) != weight
        &&& part_name(prefix, l, "attn_qkv.bias"@) != bias
    } by {
        if part_name(prefix, l, "attn_qkv.weight"@) == weight {
            law_part_names_apart(prefix, l, layer, "attn_qkv.weight"@, "attn_qkv.weight"@);
        }
        if part_name(prefix, l, "attn_qkv.weight"@) == bias {
            law_part_names_apart(prefix, l, layer, "attn_qkv.weight"@, "attn_qkv.bias"@);
        }
        if part_name(prefix, l, "attn_qkv.bias"@) == weight {
            law_part_names_apart(prefix, l, layer, "attn_qkv.bias"@, "attn_qkv.weight"@);
        }
        if part_name(prefix, l, "attn_qkv.bias"@) == bias {
            law_part_names_apart(prefix, l, layer, "attn_qkv.bias"@, "attn_qkv.bias"@);
        }
    }
}

/// A layer's queries, keys and values are fused in their order, each from the
/// tensor that stands for it.
pub proof fn law_layers_are_fused(
    m: Map<Text, usize>,
    shapes: Seq<Seq<usize>>,
    prefix: Text,
    axis: usize,
    layers: nat,
    layer: nat,
)
    requires
        is_layer_prefix(prefix),
        layer < layers <= usize::MAX,
        fused_layers(kept(m, prefix), m, shapes, prefix, axis, layers) is Ok,
    ensures
        layer_is_fused(
            fused_layers(kept(m, prefix), m, shapes, prefix, axis, layers)->Ok_0,
            m,
            shapes,
            prefix,
            axis,
            layer,
        ),
    decreases layers,
{
    let last = (layers - 1) as nat;
    let weight = part_name(prefix, layer, "attn_qkv.weight"@);
    let bias = part_name(prefix, layer, "attn_qkv.bias"@);
    reveal_strlit("attn_qkv.weight");
    reveal_strlit("attn_qkv.bias");
    assert("attn_qkv.weight"@.len() != "attn_qkv.bias"@.len());
    if weight == bias {
        law_part_names_apart(prefix, layer, layer, "attn_qkv.weight"@, "attn_qkv.bias"@);
    }
    if layer == last {
        lemma_fused_apart(prefix, last, layer);
        lemma_fused_not_separate(prefix, layer as usize);
        law_others_are_kept(m, shapes, prefix, axis, last, weight);
        law_others_are_kept(m, shapes, prefix, axis, last, bias);
    } else {
        law_layers_are_fused(m, shapes, prefix, axis, last, layer);
        lemma_fused_apart(prefix, last, last);
        assert(is_fused(prefix, last, weight));
        assert(is_fused(prefix, last, bias)) by {
            assert(weight == part_name(prefix, layer, "attn_qkv.weight"@));
        }
        let other_weight = part_name(prefix, last, "attn_qkv.weight"@);
        let other_bias = part_name(prefix, last, "attn_qkv.bias"@);
        assert(weight != other_weight && weight != other_bias);
        assert(bias != other_weight && bias != other_bias);
    }
}

/// The name holds this one of the marks of a layer's parts, and no other.
pub open spec fn only_mark(name: Text, mark: Text) -> bool {
    &&& has(name, mark)
    &&& forall|other: Text| #[trigger]
        is_layer_mark(other) && other != mark ==> !(has(name, other))
}

/// By what the tensors of a Hugging Face encoder layer are told apart.
pub open spec fn is_layer_mark(mark: Text) -> bool {
    ||| mark == "layer_norm1.weight"@
    ||| mark == "layer_norm1.bias"@
    ||| mark == "layer_norm2.weight"@
    ||| mark == "layer_norm2.bias"@
    ||| mark == "self_attn.out_proj.weight"@
    ||| mark == "self_attn.dense.weight"@
    ||| mark == "self_attn.out_proj.bias"@
    ||| mark == "self_attn.dense.bias"@
    ||| mark == "mlp.fc1.weight"@
    ||| mark == "mlp.dense_h_to_4h.weight"@
    ||| mark == "mlp.fc1.bias"@
    ||| mark == "mlp.dense_h_to_4h.bias"@
    ||| mark == "mlp.fc2.weight"@
    ||| mark == "mlp.dense_4h_to_h.weight"@
    ||| mark == "mlp.fc2.bias"@
    ||| mark == "mlp.dense_4h_to_h.bias"@
    ||| mark == "self_attn.q_proj.weight"@
    ||| mark == "self_attn.k_proj.weight"@
    ||| mark == "self_attn.v_proj.weight"@
    ||| mark == "self_attn.q_proj.bias"@
    ||| mark == "self_attn.k_proj.bias"@
    ||| mark == "self_attn.v_proj.bias"@
}

/// Each mark stands for one part of a layer.
pub proof fn law_marks_name_parts(name: Text)
    ensures
        only_mark(name, "layer_norm1.weight"@) ==> layer_part(name) == Some("ln1.weight"@),
        only_mark(name, "layer_norm1.bias"@) ==> layer_part(name) == Some("ln1.bias"@),
        only_mark(name, "layer_norm2.weight"@) ==> layer_part(name) == Some("ln2.weight"@),
        only_mark(name, "layer_norm2.bias"@) ==> layer_part(name) == Some("ln2.bias"@),
        only_mark(name, "self_attn.out_proj.weight"@) ==> layer_part(name) == Some("attn_out.weight"@),
        only_mark(name, "self_attn.dense.weight"@) ==> layer_part(name) == Some("attn_out.weight"@),
        only_mark(name, "self_attn.out_proj.bias"@) ==> layer_part(name) == Some("attn_out.bias"@),
        only_mark(name, "self_attn.dense.bias"@) ==> layer_part(name) == Some("attn_out.bias"@),
        only_mark(name, "mlp.fc1.weight"@) ==> layer_part(name) == Some("ffn_up.weight"@),
        only_mark(name, "mlp.dense_h_to_4h.weight"@) ==> layer_part(name) == Some("ffn_up.weight"@),
        only_mark(name, "mlp.fc1.bias"@) ==> layer_part(name) == Some("ffn_up.bias"@),
        only_mark(name, "mlp.dense_h_to_4h.bias"@) ==> layer_part(name) == Some("ffn_up.bias"@),
        only_mark(name, "mlp.fc2.weight"@) ==> layer_part(name) == Some("ffn_down.weight"@),
        only_mark(name, "mlp.dense_4h_to_h.weight"@) ==> layer_part(name) == Some("ffn_down.weight"@),
        only_mark(name, "mlp.fc2.bias"@) ==> layer_part(name) == Some("ffn_down.bias"@),
        only_mark(name, "mlp.dense_4h_to_h.bias"@) ==> layer_part(name) == Some("ffn_down.bias"@),
        only_mark(name, "self_attn.q_proj.weight"@) ==> layer_part(name) == Some("attn_q.weight"@),
        only_mark(name, "self_attn.k_proj.weight"@) ==> layer_part(name) == Some("attn_k.weight"@),
        only_mark(name, "self_attn.v_proj.weight"@) ==> layer_part(name) == Some("attn_v.weight"@),
        only_mark(name, "self_attn.q_proj.bias"@) ==> layer_part(name) == Some("attn_q.bias"@),
        only_mark(name, "self_attn.k_proj.bias"@) ==> layer_part(name) == Some("attn_k.bias"@),
        only_mark(name, "self_attn.v_proj.bias"@) ==> layer_part(name) == Some("attn_v.bias"@),
{
    reveal_strlit("layer_norm1.weight");
    reveal_strlit("layer_norm1.bias");
    reveal_strlit("layer_norm2.weight");
    reveal_strlit("layer_norm2.bias");
    reveal_strlit("self_attn.out_proj.weight");
    reveal_strlit("self_attn.dense.weight");
    reveal_strlit("self_attn.out_proj.bias");
    reveal_strlit("self_attn.dense.bias");
    reveal_strlit("mlp.fc1.weight");
    reveal_strlit("mlp.dense_h_to_4h.weight");
    reveal_strlit("mlp.fc1.bias");
    reveal_strlit("mlp.dense_h_to_4h.bias");
    reveal_strlit("mlp.fc2.weight");
    reveal_strlit("mlp.dense_4h_to_h.weight");
    reveal_strlit("mlp.fc2.bias");
    reveal_strlit("mlp.dense_4h_to_h.bias");
    reveal_strlit("self_attn.q_proj.weight");
    reveal_strlit("self_attn.k_proj.weight");
    reveal_strlit("self_attn.v_proj.weight");
    reveal_strlit("self_attn.q_proj.bias");
    reveal_strlit("self_attn.k_proj.bias");
    reveal_strlit("self_attn.v_proj.bias");
    assert("layer_norm1.weight"@.len() == 18);
    assert("layer_norm1.bias"@.len() == 16);
    assert("layer_norm2.weight"@.len() == 18);
    assert("layer_norm2.bias"@.len() == 16);
    assert("self_attn.out_proj.weight"@.len() == 25);
    assert("self_attn.dense.weight"@.len() == 22);
    assert("self_attn.out_proj.bias"@.len() == 23);
    assert("self_attn.dense.bias"@.len() == 20);
    assert("mlp.fc1.weight"@.len() == 14);
    assert("mlp.dense_h_to_4h.weight"@.len() == 24);
    assert("mlp.fc1.bias"@.len() == 12);
    assert("mlp.dense_h_to_4h.bias"@.len() == 22);
    assert("mlp.fc2.weight"@.len() == 14);
    assert("mlp.dense_4h_to_h.weight"@.len() == 24);
    assert("mlp.fc2.bias"@.len() == 12);
    assert("mlp.dense_4h_to_h.bias"@.len() == 22);
    assert("self_attn.q_proj.weight"@.len() == 23);
    assert("self_attn.k_proj.weight"@.len() == 23);
    assert("self_attn.v_proj.weight"@.len() == 23);
    assert("self_attn.q_proj.bias"@.len() == 21);
    assert("self_attn.k_proj.bias"@.len() == 21);
    assert("self_attn.v_proj.bias"@.len() == 21);
    assert("layer_norm1.weight"@[10] != "layer_norm2.weight"@[10]);
    assert("layer_norm1.bias"@[10] != "layer_norm2.bias"@[10]);
    assert("self_attn.dense.weight"@[0] != "mlp.dense_h_to_4h.bias"@[0]);
    assert("self_attn.dense.weight"@[0] != "mlp.dense_4h_to_h.bias"@[0]);
    assert("self_attn.out_proj.bias"@[10] != "self_attn.q_proj.weight"@[10]);
    assert("self_attn.out_proj.bias"@[10] != "self_attn.k_proj.weight"@[10]);
    assert("self_attn.out_proj.bias"@[10] != "self_attn.v_proj.weight"@[10]);
    assert("mlp.fc1.weight"@[6] != "mlp.fc2.weight"@[6]);
    assert("mlp.dense_h_to_4h.weight"@[10] != "mlp.dense_4h_to_h.weight"@[10]);
    assert("mlp.fc1.bias"@[6] != "mlp.fc2.bias"@[6]);
    assert("mlp.dense_h_to_4h.bias"@[10] != "mlp.dense_4h_to_h.bias"@[10]);
    assert("self_attn.q_proj.weight"@[10] != "self_attn.k_proj.weight"@[10]);
    assert("self_attn.q_proj.weight"@[10] != "self_attn.v_proj.weight"@[10]);
    assert("self_attn.k_proj.weight"@[10] != "self_attn.v_proj.weight"@[10]);
    assert("self_attn.q_proj.bias"@[10] != "self_attn.k_proj.bias"@[10]);
    assert("self_attn.q_proj.bias"@[10] != "self_attn.v_proj.bias"@[10]);
    assert("self_attn.k_proj.bias"@[10] != "self_attn.v_proj.bias"@[10]);
    assert(is_layer_mark("layer_norm1.weight"@));
    assert(is_layer_mark("layer_norm1.bias"@));
    assert(is_layer_mark("layer_norm2.weight"@));
    assert(is_layer_mark("layer_norm2.bias"@));
    assert(is_layer_mark("self_attn.out_proj.weight"@));
    assert(is_layer_mark("self_attn.dense.weight"@));
    assert(is_layer_mark("self_attn.out_proj.bias"@));
    assert(is_layer_mark("self_attn.dense.bias"@));
    assert(is_layer_mark("mlp.fc1.weight"@));
    assert(is_layer_mark("mlp.dense_h_to_4h.weight"@));
    assert(is_layer_mark("mlp.fc1.bias"@));
    assert(is_layer_mark("mlp.dense_h_to_4h.bias"@));
    assert(is_layer_mark("mlp.fc2.weight"@));
    assert(is_layer_mark("mlp.dense_4h_to_h.weight"@));
    assert(is_layer_mark("mlp.fc2.bias"@));
    assert(is_layer_mark("mlp.dense_4h_to_h.bias"@));
    assert(is_layer_mark("self_attn.q_proj.weight"@));
    assert(is_layer_mark("self_attn.k_proj.weight"@));
    assert(is_layer_mark("self_attn.v_proj.weight"@));
    assert(is_layer_mark("self_attn.q_proj.bias"@));
    assert(is_layer_mark("self_attn.k_proj.bias"@));
    assert(is_layer_mark("self_attn.v_proj.bias"@));
}

/// The number of a layer is the one that stands behind the first `layers`.
pub proof fn law_layer_is_found(front: Seq<Text>, layer: usize, rest: Seq<Text>)
    requires
        forall|i: int| 0 <= i < front.len() ==> #[trigger] front[i] != "layers"@,
    ensures
        layer_behind(front + seq!["layers"@, dec(layer as nat)] + rest) == Some(layer),
    decreases front.len(),
{
    let all = front + seq!["layers"@, dec(layer as nat)] + rest;
    if front.len() == 0 {
        law_decimal_reads_back(layer as nat);
        assert(all[0] == "layers"@);
        assert(all[1] == dec(layer as nat));
    } else {
        let fewer = front.skip(1);
        assert forall|i: int| 0 <= i < fewer.len() implies #[trigger] fewer[i] != "layers"@ by {
            assert(fewer[i] == front[i + 1]);
        }
        law_layer_is_found(fewer, layer, rest);
        assert(all[0] == front[0]);
        assert(all.skip(1) =~= fewer + seq!["layers"@, dec(layer as nat)] + rest);
    }
}

/// A tensor of layer `layer` with one of the marks is called by its layer and
/// its part; one without a mark has no name here.
pub proof fn law_layer_tensor_is_named(
    prefix: Text,
    front: Seq<Text>,
    layer: usize,
    rest: Seq<Text>,
)
    requires
        forall|i: int|
            0 <= i < front.len() ==> #[trigger] front[i] != "layers"@ && free_of(front[i], '.'),
        forall|i: int| 0 <= i < rest.len() ==> free_of(#[trigger] rest[i], '.'),
    ensures
        ({
            let name = joined(front + seq!["layers"@, dec(layer as nat)] + rest, '.');
            match layer_part(name) {
                Some(what) => hf_layer_name(prefix, name) == Some(
                    prefix + dec(layer as nat) + "."@ + what,
                ),
                None => hf_layer_name(prefix, name) is None,
            }
        }),
{
    let all = front + seq!["layers"@, dec(layer as nat)] + rest;
    reveal_strlit("layers");
    lemma_dec_digits(layer as nat);
    assert forall|i: int| 0 <= i < all.len() implies free_of(#[trigger] all[i], '.') by {
        if i < front.len() {
            assert(all[i] == front[i]);
        } else if i >= front.len() + 2 {
            assert(all[i] == rest[i - front.len() - 2]);
        }
    }
    law_split_takes_apart(all, '.');
    law_layer_is_found(front, layer, rest);
}

/// A tensor of a layer is called by the prefix, the layer's number, a dot and
/// its part.
pub proof fn law_part_name(prefix: Text, layer: nat, what: Text)
    ensures
        part_name(prefix, layer, what) == prefix + dec(layer) + "."@ + what,
{
}

} // verus!
