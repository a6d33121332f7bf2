//! The vision encoder's tensors and dimensions.
use vstd::prelude::*;
use crate::backends::projections::{
    fuse_projections, fused_layers, hf_layer_name, in_list, kept, name_of_part, part_name,
    push_name, rename_hf_layer, shapes_view, FuseError, Source,
};
use crate::names::NameMap;
use crate::text::{
    begins, contains, dec, ends, ends_with, has, join2, parse_usize, same, split, split_on,
    starts_with, texts, usize_value, Text,
};
use crate::loader::gguf::{meta_map, metas, GgufValue, Meta};
use crate::types::{text_opt, ModelMeta};

verus! {

/// Why the tensors of a vision encoder cannot be used.
#[derive(Debug, Clone, Copy, PartialEq, Eq, Structural)]
pub enum VisionError {
    /// A deep-stack tensor's layer index is not a number.
    BadDeepstackIndex,
    /// The projections cannot be fused.
    Fuse(FuseError),
}

/// The last part of a calibration tensor's name.
pub open spec fn is_calibration(last: Text) -> bool {
    last == "input_max"@ || last == "input_min"@ || last == "output_max"@ || last == "output_min"@
}

/// This library's name for a tensor that a GGUF projector file calls `name`.
/// Calibration tensors and relative position biases have none.
pub open spec fn gguf_vision_name(name: Text) -> Result<Option<Text>, VisionError> {
    let parts = split(name, '.');
    if name == "v.patch_embd.weight"@ {
        Ok(Some("vision.patch_embed.weight"@))
    } else if name == "v.patch_embd.bias"@ {
        Ok(Some("vision.patch_embed.bias"@))
    } else if name == "v.position_embd.weight"@ {
        Ok(Some("vision.pos_embed.weight"@))
    } else if name == "v.post_ln.weight"@ {
        Ok(Some("vision.post_ln.weight"@))
    } else if name == "v.post_ln.bias"@ {
        Ok(Some("vision.post_ln.bias"@))
    } else if name == "mm.input_projection.weight"@ || name == "mm.0.weight"@ {
        Ok(Some("projector.0.weight"@))
    } else if name == "mm.input_projection.bias"@ || name == "mm.0.bias"@ {
        Ok(Some("projector.0.bias"@))
    } else if name == "mm.2.weight"@ {
        Ok(Some("projector.2.weight"@))
    } else if name == "mm.2.bias"@ {
        Ok(Some("projector.2.bias"@))
    } else if begins(name, "v.blk."@) {
        if is_calibration(parts.last()) || parts.len() < 5 || usize_value(parts[2]) is None || ends(
            parts[3],
            "_rel"@,
        ) {
            Ok(None)
        } else {
            Ok(
                Some(
                    part_name(
                        "vision.layers."@,
                        usize_value(parts[2])->0 as nat,
                        parts[3] + "."@ + parts[4],
                    ),
                ),
            )
        }
    } else if begins(name, "v.deepstack."@) && parts.len() >= 5 {
        match usize_value(parts[2]) {
            Some(layer) => Ok(
                Some(part_name("deepstack."@, layer as nat, parts[3] + "."@ + parts[4])),
            ),
            None => Err(VisionError::BadDeepstackIndex),
        }
    } else {
        Ok(None)
    }
}

/// This library's name for a tensor that a Hugging Face checkpoint calls
/// `name`.
pub open spec fn hf_vision_name(name: Text) -> Option<Text> {
    if has(name, "patch_embedding.weight"@) {
        Some("vision.patch_embed.weight"@)
    } else if has(name, "patch_embedding.bias"@) {
        Some("vision.patch_embed.bias"@)
    } else if has(name, "position_embedding.weight"@) {
        Some("vision.pos_embed.weight"@)
    } else if has(name, "post_layernorm.weight"@) {
        Some("vision.post_ln.weight"@)
    } else if has(name, "post_layernorm.bias"@) {
        Some("vision.post_ln.bias"@)
    } else if has(name, "multi_modal_projector.linear_1.weight"@) || has(name, "multi_modal_projector.0.weight"@) {
        Some("projector.0.weight"@)
    } else if has(name, "multi_modal_projector.linear_1.bias"@) || has(name, "multi_modal_projector.0.bias"@) {
        Some("projector.0.bias"@)
    } else if has(name, "multi_modal_projector.linear_2.weight"@) || has(name, "multi_modal_projector.2.weight"@) {
        Some("projector.2.weight"@)
    } else if has(name, "multi_modal_projector.linear_2.bias"@) || has(name, "multi_modal_projector.2.bias"@) {
        Some("projector.2.bias"@)
    } else if has(name, "encoder.layers."@) {
        hf_layer_name("vision.layers."@, name)
    } else {
        None
    }
}

/// The names are those of a GGUF projector file.
pub open spec fn is_gguf_naming(names: Seq<Text>) -> bool {
    exists|i: int|
        0 <= i < names.len() && (begins(#[trigger] names[i], "v."@) || begins(names[i], "mm."@))
}

/// This library's name for `name` under either naming.
pub open spec fn vision_name(gguf: bool, name: Text) -> Result<Option<Text>, VisionError> {
    if gguf {
        gguf_vision_name(name)
    } else {
        Ok(hf_vision_name(name))
    }
}

/// Which tensor of the list stands under which name. Of two tensors for one
/// name the later one counts.
pub open spec fn vision_places(gguf: bool, names: Seq<Text>) -> Result<
    Map<Text, usize>,
    VisionError,
>
    decreases names.len(),
{
    if names.len() == 0 {
        Ok(Map::empty())
    } else {
        match vision_places(gguf, names.drop_last()) {
            Err(e) => Err(e),
            Ok(m) => match vision_name(gguf, names.last()) {
                Err(e) => Err(e),
                Ok(Some(name)) => Ok(m.insert(name, (names.len() - 1) as usize)),
                Ok(None) => Ok(m),
            },
        }
    }
}

/// The plan for the tensors of a vision encoder.
pub open spec fn vision_plan(
    names: Seq<Text>,
    shapes: Seq<Seq<usize>>,
    num_layers: nat,
) -> Result<Map<Text, Source>, VisionError> {
    match vision_places(is_gguf_naming(names), names) {
        Err(e) => Err(e),
        Ok(m) => match fused_layers(
            kept(m, "vision.layers."@),
            m,
            shapes,
            "vision.layers."@,
            1,
            num_layers,
        ) {
            Err(e) => Err(VisionError::Fuse(e)),
            Ok(plan) => Ok(plan),
        },
    }
}

fn rename_gguf(name: &str) -> (r: Result<Option<String>, VisionError>)
    ensures
        match r {
            Ok(n) => gguf_vision_name(name@) == Ok::<Option<Text>, VisionError>(text_opt(n)),
            Err(e) => gguf_vision_name(name@) == Err::<Option<Text>, VisionError>(e),
        },
{
    let parts = split_on(name, '.');
    let ghost all = split(name@, '.');
    assert forall|i: int| 0 <= i < all.len() implies #[trigger] all[i] == parts@[i]@ by {}
    let n: usize = parts.len();
    assert(all.len() == n);
    if same(name, "v.patch_embd.weight") {
        Ok(Some("vision.patch_embed.weight".to_string()))
    } else if same(name, "v.patch_embd.bias") {
        Ok(Some("vision.patch_embed.bias".to_string()))
    } else if same(name, "v.position_embd.weight") {
        Ok(Some("vision.pos_embed.weight".to_string()))
    } else if same(name, "v.post_ln.weight") {
        Ok(Some("vision.post_ln.weight".to_string()))
    } else if same(name, "v.post_ln.bias") {
        Ok(Some("vision.post_ln.bias".to_string()))
    } else if same(name, "mm.input_projection.weight") || same(name, "mm.0.weight") {
        Ok(Some("projector.0.weight".to_string()))
    } else if same(name, "mm.input_projection.bias") || same(name, "mm.0.bias") {
        Ok(Some("projector.0.bias".to_string()))
    } else if same(name, "mm.2.weight") {
        Ok(Some("projector.2.weight".to_string()))
    } else if same(name, "mm.2.bias") {
        Ok(Some("projector.2.bias".to_string()))
    } else if starts_with(name, "v.blk.") {
        let last = &parts[n - 1];
        if same(last, "input_max") || same(last, "input_min") || same(last, "output_max") || same(
            last,
            "output_min",
        ) || n < 5 || ends_with(&parts[3], "_rel") {
            return Ok(None);
        }
        match parse_usize(&parts[2]) {
            Some(layer) => {
                let what = join2(&join2(&parts[3], "."), &parts[4]);
                Ok(Some(name_of_part("vision.layers.", layer, &what)))
            },
            None => Ok(None),
        }
    } else if starts_with(name, "v.deepstack.") && n >= 5 {
        match parse_usize(&parts[2]) {
            Some(layer) => {
                let what = join2(&join2(&parts[3], "."), &parts[4]);
                Ok(Some(name_of_part("deepstack.", layer, &what)))
            },
            None => Err(VisionError::BadDeepstackIndex),
        }
    } else {
        Ok(None)
    }
}

fn rename_hf(name: &str) -> (r: Option<String>)
    ensures
        text_opt(r) == hf_vision_name(name@),
{
    if contains(name, "patch_embedding.weight") {
        Some("vision.patch_embed.weight".to_string())
    } else if contains(name, "patch_embedding.bias") {
        Some("vision.patch_embed.bias".to_string())
    } else if contains(name, "position_embedding.weight") {
        Some("vision.pos_embed.weight".to_string())
    } else if contains(name, "post_layernorm.weight") {
        Some("vision.post_ln.weight".to_string())
    } else if contains(name, "post_layernorm.bias") {
        Some("vision.post_ln.bias".to_string())
    } else if contains(name, "multi_modal_projector.linear_1.weight") || contains(name, "multi_modal_projector.0.weight") {
        Some("projector.0.weight".to_string())
    } else if contains(name, "multi_modal_projector.linear_1.bias") || contains(name, "multi_modal_projector.0.bias") {
        Some("projector.0.bias".to_string())
    } else if contains(name, "multi_modal_projector.linear_2.weight") || contains(name, "multi_modal_projector.2.weight") {
        Some("projector.2.weight".to_string())
    } else if contains(name, "multi_modal_projector.linear_2.bias") || contains(name, "multi_modal_projector.2.bias") {
        Some("projector.2.bias".to_string())
    } else if contains(name, "encoder.layers.") {
        rename_hf_layer("vision.layers.", name)
    } else {
        None
    }
}

fn names_are_gguf(names: &[String]) -> (b: bool)
    ensures
        b == is_gguf_naming(texts(names@)),
{
    let ghost all = texts(names@);
    let mut i: usize = 0;
    while i < names.len()
        invariant
            i <= names@.len(),
            all == texts(names@),
            forall|k: int|
                0 <= k < i ==> !(begins(#[trigger] all[k], "v."@) || begins(all[k], "mm."@)),
        decreases names@.len() - i,
    {
        assert(all[i as int] == names@[i as int]@);
        if starts_with(&names[i], "v.") || starts_with(&names[i], "mm.") {
            return true;
        }
        i += 1;
    }
    false
}

proof fn lemma_places_stop(gguf: bool, names: Seq<Text>, k: int)
    requires
        0 <= k <= names.len(),
        vision_places(gguf, names.take(k)) is Err,
    ensures
        vision_places(gguf, names) == vision_places(gguf, names.take(k)),
    decreases names.len(),
{
    if k < names.len() {
        assert(names.drop_last().take(k) =~= names.take(k));
        lemma_places_stop(gguf, names.drop_last(), k);
    } else {
        assert(names.take(k) =~= names);
    }
}

fn place_names(gguf: bool, names: &[String]) -> (r: Result<NameMap<usize>, VisionError>)
    ensures
        match r {
            Ok(m) => vision_places(gguf, texts(names@)) == Ok::<Map<Text, usize>, VisionError>(m@)
                && in_list(m@, names@.len()),
            Err(e) => vision_places(gguf, texts(names@)) == Err::<Map<Text, usize>, VisionError>(e),
        },
{
    let ghost all = texts(names@);
    let mut m: NameMap<usize> = NameMap::new();
    let mut i: usize = 0;
    assert(all.take(0) =~= seq![]);
    while i < names.len()
        invariant
            i <= names@.len(),
            all == texts(names@),
            in_list(m@, i as nat),
            vision_places(gguf, all.take(i as int)) == Ok::<Map<Text, usize>, VisionError>(m@),
        decreases names@.len() - i,
    {
        assert(all.take(i + 1).drop_last() =~= all.take(i as int));
        assert(all.take(i + 1).last() == names@[i as int]@);
        let renamed = if gguf {
            rename_gguf(&names[i])
        } else {
            Ok(rename_hf(&names[i]))
        };
        match renamed {
            Ok(Some(name)) => {
                m.insert(name, i);
            },
            Ok(None) => {},
            Err(e) => {
                proof {
                    lemma_places_stop(gguf, all, i + 1);
                }
                return Err(e);
            },
        }
        i += 1;
    }
    assert(all.take(i as int) =~= all);
    Ok(m)
}

/// Plans the tensors of a vision encoder from the names and shapes of the
/// loaded ones. Separate projections of the first `num_layers` layers are
/// joined along their output axis.
pub fn normalize_vision_tensors(
    names: &[String],
    shapes: &[Vec<usize>],
    num_layers: usize,
) -> (r: Result<NameMap<Source>, VisionError>)
    requires
        names@.len() == shapes@.len(),
    ensures
        match r {
            Ok(plan) => vision_plan(texts(names@), shapes_view(shapes@), num_layers as nat) == Ok::<
                Map<Text, Source>,
                VisionError,
            >(plan@),
            Err(e) => vision_plan(texts(names@), shapes_view(shapes@), num_layers as nat) == Err::<
                Map<Text, Source>,
                VisionError,
            >(e),
        },
{
    let gguf = names_are_gguf(names);
    let m = match place_names(gguf, names) {
        Ok(m) => m,
        Err(e) => return Err(e),
    };
    match fuse_projections(&m, shapes, "vision.layers.", 1, num_layers) {
        Ok(plan) => Ok(plan),
        Err(e) => Err(VisionError::Fuse(e)),
    }
}

/// The dimensions of a vision encoder. `L` is how a list of flags is held.
#[derive(Debug)]
pub struct VisionDims<L = Vec<bool>> {
    pub image_size: usize,
    pub patch_size: usize,
    pub hidden_dim: usize,
    pub num_layers: usize,
    pub num_heads: usize,
    pub projection_dim: usize,
    pub spatial_merge_size: usize,
    pub is_deepstack_layers: L,
}

impl View for VisionDims {
    type V = VisionDims<Seq<bool>>;

    open spec fn view(&self) -> VisionDims<Seq<bool>> {
        VisionDims {
            image_size: self.image_size,
            patch_size: self.patch_size,
            hidden_dim: self.hidden_dim,
            num_layers: self.num_layers,
            num_heads: self.num_heads,
            projection_dim: self.projection_dim,
            spatial_merge_size: self.spatial_merge_size,
            is_deepstack_layers: self.is_deepstack_layers@,
        }
    }
}

/// That many flags, none set.
pub open spec fn no_flags(n: nat) -> Seq<bool> {
    Seq::new(n, |i: int| false)
}

pub(crate) fn clear_flags(n: usize) -> (out: Vec<bool>)
    ensures
        out@ == no_flags(n as nat),
{
    let mut out: Vec<bool> = Vec::new();
    let mut i: usize = 0;
    while i < n
        invariant
            i <= n,
            out@ == no_flags(i as nat),
        decreases n - i,
    {
        out.push(false);
        assert(out@ =~= no_flags((i + 1) as nat));
        i += 1;
    }
    out
}

fn copy_flags(v: &Vec<bool>) -> (out: Vec<bool>)
    ensures
        out@ == v@,
{
    let mut out: Vec<bool> = Vec::new();
    let mut i: usize = 0;
    while i < v.len()
        invariant
            i <= v.len(),
            out@ == v@.take(i as int),
        decreases v.len() - i,
    {
        out.push(v[i]);
        i += 1;
    }
    assert(v@.take(i as int) =~= v@);
    out
}

/// The dimensions where nothing else is known.
pub open spec fn default_dims() -> VisionDims<Seq<bool>> {
    VisionDims {
        image_size: 768,
        patch_size: 16,
        hidden_dim: 1024,
        num_layers: 24,
        num_heads: 16,
        projection_dim: 2560,
        spatial_merge_size: 1,
        is_deepstack_layers: no_flags(24),
    }
}

impl VisionDims {
    /// The dimensions where nothing else is known.
    pub fn unknown() -> (d: Self)
        ensures
            d@ == default_dims(),
    {
        VisionDims {
            image_size: 768,
            patch_size: 16,
            hidden_dim: 1024,
            num_layers: 24,
            num_heads: 16,
            projection_dim: 2560,
            spatial_merge_size: 1,
            is_deepstack_layers: clear_flags(24),
        }
    }
}

/// An integer of the metadata as 32 bits; the higher ones are dropped.
pub open spec fn word_of(m: Map<Text, Meta>, key: Text) -> Option<u32> {
    if m.contains_key(key) {
        match m[key] {
            Meta::U8(v) => Some(v as u32),
            Meta::I8(v) => Some(v as u32),
            Meta::U16(v) => Some(v as u32),
            Meta::I16(v) => Some(v as u32),
            Meta::U32(v) => Some(v),
            Meta::I32(v) => Some(v as u32),
            Meta::U64(v) => Some(v as u32),
            Meta::I64(v) => Some(v as u32),
            _ => None,
        }
    } else {
        None
    }
}

fn read_word(m: &NameMap<GgufValue>, key: &str) -> (r: Option<u32>)
    ensures
        r == word_of(meta_map(m@), key@),
{
    match m.get(key) {
        Some(GgufValue::U8(v)) => Some(*v as u32),
        Some(GgufValue::I8(v)) => Some(*v as u32),
        Some(GgufValue::U16(v)) => Some(*v as u32),
        Some(GgufValue::I16(v)) => Some(*v as u32),
        Some(GgufValue::U32(v)) => Some(*v),
        Some(GgufValue::I32(v)) => Some(*v as u32),
        Some(GgufValue::U64(v)) => Some(*v as u32),
        Some(GgufValue::I64(v)) => Some(*v as u32),
        _ => None,
    }
}

/// A dimension from the metadata, or a default.
pub open spec fn dim_or(m: Map<Text, Meta>, key: Text, default: usize) -> usize {
    match word_of(m, key) {
        Some(v) => v as usize,
        None => default,
    }
}

fn read_dim(m: &NameMap<GgufValue>, key: &str, default: usize) -> (d: usize)
    ensures
        d == dim_or(meta_map(m@), key@, default),
{
    match read_word(m, key) {
        Some(v) => v as usize,
        None => default,
    }
}

/// The deep-stack flags of the metadata; without a list none is set.
pub open spec fn deepstack_flags(m: Map<Text, Meta>, num_layers: nat) -> Seq<bool> {
    let key = "clip.vision.is_deepstack_layers"@;
    if m.contains_key(key) {
        match m[key] {
            Meta::Array(items) => items.map_values(|v: Meta| v == Meta::Bool(true)),
            _ => no_flags(num_layers),
        }
    } else {
        no_flags(num_layers)
    }
}

/// The dimensions that the metadata of a projector file gives.
pub open spec fn gguf_dims(m: Map<Text, Meta>) -> VisionDims<Seq<bool>> {
    let d = default_dims();
    let num_layers = dim_or(m, "clip.vision.block_count"@, d.num_layers);
    VisionDims {
        image_size: dim_or(m, "clip.vision.image_size"@, d.image_size),
        patch_size: dim_or(m, "clip.vision.patch_size"@, d.patch_size),
        hidden_dim: dim_or(m, "clip.vision.embedding_length"@, d.hidden_dim),
        num_layers,
        num_heads: dim_or(m, "clip.vision.attention.head_count"@, d.num_heads),
        projection_dim: dim_or(m, "clip.vision.projection_dim"@, d.projection_dim),
        spatial_merge_size: dim_or(m, "clip.vision.spatial_merge_size"@, d.spatial_merge_size),
        is_deepstack_layers: deepstack_flags(m, num_layers as nat),
    }
}

pub(crate) fn flags_of_items(items: &Vec<GgufValue>) -> (out: Vec<bool>)
    ensures
        out@ == metas(items@).map_values(|v: Meta| v == Meta::Bool(true)),
{
    let mut out: Vec<bool> = Vec::new();
    let mut i: usize = 0;
    while i < items.len()
        invariant
            i <= items.len(),
            out.len() == i,
            forall|k: int|
                0 <= k < i ==> #[trigger] out@[k] == (items@[k].meta() == Meta::Bool(true)),
        decreases items.len() - i,
    {
        let b = match &items[i] {
            GgufValue::Bool(b) => *b,
            _ => false,
        };
        out.push(b);
        i += 1;
    }
    assert(out@ =~= metas(items@).map_values(|v: Meta| v == Meta::Bool(true)));
    out
}

fn read_deepstack(m: &NameMap<GgufValue>, num_layers: usize) -> (out: Vec<bool>)
    ensures
        out@ == deepstack_flags(meta_map(m@), num_layers as nat),
{
    match m.get("clip.vision.is_deepstack_layers") {
        Some(GgufValue::Array(items)) => {
            assert(GgufValue::Array(*items).meta()->Array_0 =~= metas(items@));
            flags_of_items(items)
        },
        _ => clear_flags(num_layers),
    }
}

/// Reads the dimensions out of the metadata of a projector file.
pub fn dims_from_gguf(m: &NameMap<GgufValue>) -> (d: VisionDims)
    ensures
        d@ == gguf_dims(meta_map(m@)),
{
    let num_layers: usize = read_dim(m, "clip.vision.block_count", 24);
    VisionDims {
        image_size: read_dim(m, "clip.vision.image_size", 768),
        patch_size: read_dim(m, "clip.vision.patch_size", 16),
        hidden_dim: read_dim(m, "clip.vision.embedding_length", 1024),
        num_layers,
        num_heads: read_dim(m, "clip.vision.attention.head_count", 16),
        projection_dim: read_dim(m, "clip.vision.projection_dim", 2560),
        spatial_merge_size: read_dim(m, "clip.vision.spatial_merge_size", 1),
        is_deepstack_layers: read_deepstack(m, num_layers),
    }
}

/// A value, or a default.
pub open spec fn given_or(o: Option<usize>, default: usize) -> usize {
    match o {
        Some(v) => v,
        None => default,
    }
}

/// The dimensions that a checkpoint's configuration gives.
pub open spec fn config_dims(meta: ModelMeta<Text, Seq<bool>>) -> VisionDims<Seq<bool>> {
    let d = default_dims();
    let num_layers = given_or(meta.vision_num_layers, d.num_layers);
    VisionDims {
        image_size: given_or(meta.vision_image_size, d.image_size),
        patch_size: given_or(meta.vision_patch_size, d.patch_size),
        hidden_dim: given_or(meta.vision_hidden_dim, d.hidden_dim),
        num_layers,
        num_heads: given_or(meta.vision_num_heads, d.num_heads),
        projection_dim: given_or(meta.vision_projection_dim, d.projection_dim),
        spatial_merge_size: given_or(meta.spatial_merge_size, d.spatial_merge_size),
        is_deepstack_layers: match meta.is_deepstack_layers {
            Some(flags) => flags,
            None => no_flags(num_layers as nat),
        },
    }
}

fn or_else(o: Option<usize>, default: usize) -> (v: usize)
    ensures
        v == given_or(o, default),
{
    match o {
        Some(v) => v,
        None => default,
    }
}

/// Reads the dimensions out of a checkpoint's configuration.
pub fn dims_from_config(meta: &ModelMeta) -> (d: VisionDims)
    ensures
        d@ == config_dims(meta@),
{
    let num_layers: usize = or_else(meta.vision_num_layers, 24);
    VisionDims {
        image_size: or_else(meta.vision_image_size, 768),
        patch_size: or_else(meta.vision_patch_size, 16),
        hidden_dim: or_else(meta.vision_hidden_dim, 1024),
        num_layers,
        num_heads: or_else(meta.vision_num_heads, 16),
        projection_dim: or_else(meta.vision_projection_dim, 2560),
        spatial_merge_size: or_else(meta.spatial_merge_size, 1),
        is_deepstack_layers: match &meta.is_deepstack_layers {
            Some(flags) => copy_flags(flags),
            None => clear_flags(num_layers),
        },
    }
}

/// `s` is the greatest integer whose square is at most `n`.
pub open spec fn is_root(n: nat, s: nat) -> bool {
    s * s <= n < (s + 1) * (s + 1)
}

/// There is only one integer square root.
pub proof fn lemma_root_unique(n: nat, a: nat, b: nat)
    requires
        is_root(n, a),
        is_root(n, b),
    ensures
        a == b,
{
    if a < b {
        assert((a + 1) * (a + 1) <= b * b) by (nonlinear_arith)
            requires
                a + 1 <= b,
        ;
    }
    if b < a {
        assert((b + 1) * (b + 1) <= a * a) by (nonlinear_arith)
            requires
                b + 1 <= a,
        ;
    }
}

/// The integer square root.
pub fn root(n: usize) -> (s: usize)
    ensures
        is_root(n as nat, s as nat),
{
    let mut low: usize = 0;
    let mut high: usize = n;
    assert((n + 1) * (n + 1) > n) by (nonlinear_arith)
        requires
            n >= 0,
    ;
    while low < high
        invariant
            low <= high <= n,
            low * low <= n,
            (high + 1) * (high + 1) > n,
        decreases high - low,
    {
        let half: usize = (high - low) / 2;
        let mid: usize = high - half;
        proof {
            assert(low < mid <= high);
            assert(mid >= 1);
        }
        if mid <= n / mid {
            assert(mid * mid <= n) by (nonlinear_arith)
                requires
                    mid >= 1,
                    mid <= n / mid,
                    n >= 0,
            ;
            low = mid;
        } else {
            assert(mid * mid > n) by (nonlinear_arith)
                requires
                    mid >= 1,
                    mid > n / mid,
                    n >= 0,
            ;
            high = mid - 1;
        }
    }
    low
}

/// The merge size that a projector of input size `dim` asks for: the root of
/// how often the hidden size goes into it, where that comes out even.
pub open spec fn merge_of(dim: usize, hidden: usize) -> Option<usize> {
    if hidden > 0 && dim > hidden && dim % hidden == 0 && exists|s: usize|
        #[trigger] (s * s) == dim / hidden {
        Some(choose|s: usize| #[trigger] (s * s) == dim / hidden)
    } else {
        None
    }
}

fn merge_for(dim: usize, hidden: usize) -> (r: Option<usize>)
    ensures
        r == merge_of(dim, hidden),
        r matches Some(s) ==> s * s == dim / hidden,
{
    if hidden == 0 || dim <= hidden || dim % hidden != 0 {
        return None;
    }
    let ratio: usize = dim / hidden;
    let s: usize = root(ratio);
    proof {
        if exists|t: usize| #[trigger] (t * t) == ratio {
            let t = choose|t: usize| #[trigger] (t * t) == ratio;
            assert((t + 1) * (t + 1) > t * t) by (nonlinear_arith)
                requires
                    t >= 0,
            ;
            lemma_root_unique(ratio as nat, s as nat, t as nat);
        }
    }
    assert(s * s <= ratio);
    if s * s == ratio {
        assert(s * s == ratio);
        proof {
            let t = choose|t: usize| #[trigger] (t * t) == dim / hidden;
            assert(t * t == ratio);
            assert((t + 1) * (t + 1) > t * t) by (nonlinear_arith)
                requires
                    t >= 0,
            ;
            lemma_root_unique(ratio as nat, s as nat, t as nat);
        }
        Some(s)
    } else {
        None
    }
}

/// The merge size that the projector's weight settles, from its first or else
/// its last axis; without one that fits, what was known before stands.
pub open spec fn settled_merge(shape: Option<Seq<usize>>, hidden: usize, known: usize) -> usize {
    match shape {
        Some(dims) => match merge_of(dims[0], hidden) {
            Some(s) => s,
            None => match merge_of(dims.last(), hidden) {
                Some(s) => s,
                None => known,
            },
        },
        None => known,
    }
}

/// Settles the merge size by the shape of the projector's weight.
pub fn settle_merge(shape: Option<&Vec<usize>>, hidden: usize, known: usize) -> (s: usize)
    requires
        shape matches Some(v) ==> v.len() > 0,
    ensures
        s == settled_merge(
            match shape {
                Some(v) => Some(v@),
                None => None,
            },
            hidden,
            known,
        ),
{
    match shape {
        Some(dims) => match merge_for(dims[0], hidden) {
            Some(s) => s,
            None => match merge_for(dims[dims.len() - 1], hidden) {
                Some(s) => s,
                None => known,
            },
        },
        None => known,
    }
}

/// A deep-stack result is taken behind layer `layer`.
pub open spec fn taken(flags: Seq<bool>, layer: int) -> bool {
    layer < flags.len() && flags[layer]
}

/// The tensors that layer `layer` cannot do without, in the order in which it
/// uses them.
pub open spec fn layer_needs(flags: Seq<bool>, layer: nat) -> Seq<Text> {
    let own = seq![
        part_name("vision.layers."@, layer, "ln1.weight"@),
        part_name("vision.layers."@, layer, "attn_qkv.weight"@),
        part_name("vision.layers."@, layer, "attn_out.weight"@),
        part_name("vision.layers."@, layer, "ln2.weight"@),
        part_name("vision.layers."@, layer, "ffn_up.weight"@),
        part_name("vision.layers."@, layer, "ffn_down.weight"@),
    ];
    if taken(flags, layer as int) {
        own + seq![
            part_name("deepstack."@, layer, "norm.weight"@),
            part_name("deepstack."@, layer, "fc1.weight"@),
            part_name("deepstack."@, layer, "fc2.weight"@),
        ]
    } else {
        own
    }
}

/// The tensors that the first `layers` layers cannot do without.
pub open spec fn layers_need(flags: Seq<bool>, layers: nat) -> Seq<Text>
    decreases layers,
{
    if layers == 0 {
        seq![]
    } else {
        layers_need(flags, (layers - 1) as nat) + layer_needs(flags, (layers - 1) as nat)
    }
}

/// The tensors that encoding an image cannot do without, in the order in which
/// they are used. An encoder without layers projects its patches directly, if
/// it has a projector.
pub open spec fn encoder_needs(flags: Seq<bool>, layers: nat) -> Seq<Text> {
    if layers == 0 {
        seq!["vision.patch_embed.weight"@]
    } else {
        seq!["vision.patch_embed.weight"@] + layers_need(flags, layers) + seq![
            "projector.0.weight"@,
        ]
    }
}

fn add_layer_needs(out: &mut Vec<String>, flags: &Vec<bool>, layer: usize)
    ensures
        texts(final(out)@) == texts(old(out)@) + layer_needs(flags@, layer as nat),
{
    let ghost before = texts(out@);
    push_name(out, name_of_part("vision.layers.", layer, "ln1.weight"));
    push_name(out, name_of_part("vision.layers.", layer, "attn_qkv.weight"));
    push_name(out, name_of_part("vision.layers.", layer, "attn_out.weight"));
    push_name(out, name_of_part("vision.layers.", layer, "ln2.weight"));
    push_name(out, name_of_part("vision.layers.", layer, "ffn_up.weight"));
    push_name(out, name_of_part("vision.layers.", layer, "ffn_down.weight"));
    if layer < flags.len() && flags[layer] {
        push_name(out, name_of_part("deepstack.", layer, "norm.weight"));
        push_name(out, name_of_part("deepstack.", layer, "fc1.weight"));
        push_name(out, name_of_part("deepstack.", layer, "fc2.weight"));
    }
    assert(texts(out@) =~= before + layer_needs(flags@, layer as nat));
}

/// Lists the tensors that encoding an image cannot do without.
pub fn needed_tensors(flags: &Vec<bool>, num_layers: usize) -> (out: Vec<String>)
    ensures
        texts(out@) == encoder_needs(flags@, num_layers as nat),
{
    let mut out: Vec<String> = Vec::new();
    assert(texts(out@) =~= seq![]);
    push_name(&mut out, "vision.patch_embed.weight".to_string());
    let ghost head = seq!["vision.patch_embed.weight"@];
    assert(texts(out@) =~= head);
    if num_layers == 0 {
        return out;
    }
    let mut layer: usize = 0;
    assert(texts(out@) =~= head + layers_need(flags@, 0));
    while layer < num_layers
        invariant
            layer <= num_layers,
            texts(out@) == head + layers_need(flags@, layer as nat),
        decreases num_layers - layer,
    {
        let ghost before = layers_need(flags@, layer as nat);
        add_layer_needs(&mut out, flags, layer);
        assert(texts(out@) =~= head + (before + layer_needs(flags@, layer as nat)));
        layer += 1;
    }
    push_name(&mut out, "projector.0.weight".to_string());
    assert(texts(out@) =~= encoder_needs(flags@, num_layers as nat));
    out
}

/// How a table of positions is added to the patches.
#[derive(Debug, Clone, Copy, PartialEq, Eq, Structural)]
pub enum PositionUse {
    /// One table for rows and one for columns, added up.
    Factorized,
    /// The first so many rows.
    FirstRows(usize),
    /// All of it.
    Whole,
}

/// How a table of positions of shape `shape` is added to `num_patches`
/// patches: position 0 goes to patch 0.
pub fn position_use(shape: &Vec<usize>, num_patches: usize) -> (u: PositionUse)
    requires
        shape.len() > 0,
    ensures
        u == (if shape@.len() == 3 && shape@[0] == 2 {
            PositionUse::Factorized
        } else if shape@[0] > num_patches {
            PositionUse::FirstRows(num_patches)
        } else {
            PositionUse::Whole
        }),
{
    if shape.len() == 3 && shape[0] == 2 {
        PositionUse::Factorized
    } else if shape[0] > num_patches {
        PositionUse::FirstRows(num_patches)
    } else {
        PositionUse::Whole
    }
}

/// The side of the merged grid of `n_patches` patches, where patches are
/// merged at all.
pub open spec fn merged_side(n_patches: nat, merge_size: nat, side: nat) -> bool {
    exists|grid: nat| #[trigger] is_root(n_patches, grid) && side == grid / merge_size
}

/// The side of the grid that is left when `merge_size` by `merge_size` patches
/// become one; `None` where nothing is merged.
pub fn spatial_merge_side(n_patches: usize, merge_size: usize) -> (r: Option<usize>)
    ensures
        match r {
            Some(side) => merge_size > 1 && merged_side(
                n_patches as nat,
                merge_size as nat,
                side as nat,
            ),
            None => merge_size <= 1,
        },
{
    if merge_size <= 1 {
        return None;
    }
    let grid: usize = root(n_patches);
    Some(grid / merge_size)
}

/// Whether a bias of this many values is added to rows of `width` values; one
/// that does not fit is left out.
pub fn bias_fits(bias_len: usize, width: usize) -> (b: bool)
    ensures
        b == (bias_len == width),
{
    bias_len == width
}

/// The merged side is settled by the number of patches and the merge size.
pub proof fn law_merged_side_unique(n: nat, m: nat, a: nat, b: nat)
    requires
        merged_side(n, m, a),
        merged_side(n, m, b),
    ensures
        a == b,
{
    let g = choose|g: nat| #[trigger] is_root(n, g) && a == g / m;
    let h = choose|h: nat| #[trigger] is_root(n, h) && b == h / m;
    lemma_root_unique(n, g, h);
}

/// One channel of an image whose pixels are given one after the other, three
/// values each.
pub open spec fn channel(pixels: Seq<u8>, which: int) -> Seq<u8> {
    Seq::new(pixels.len() / 3, |i: int| pixels[3 * i + which])
}

/// Appends one channel of an image.
fn push_channel(out: &mut Vec<u8>, pixels: &[u8], which: usize)
    requires
        which < 3,
        pixels@.len() % 3 == 0,
    ensures
        final(out)@ == old(out)@ + channel(pixels@, which as int),
{
    let ghost before = out@;
    let mut at: usize = 0;
    while at < pixels.len()
        invariant
            which < 3,
            at <= pixels@.len(),
            at % 3 == 0,
            pixels@.len() % 3 == 0,
            out@ == before + channel(pixels@, which as int).take(at as int / 3),
        decreases pixels@.len() - at,
    {
        let ghost whole = channel(pixels@, which as int);
        out.push(pixels[at + which]);
        proof {
            let i = at as int / 3;
            assert(whole[i] == pixels@[at + which]);
            assert(whole.take(i + 1) =~= whole.take(i).push(whole[i]));
        }
        at += 3;
    }
    proof {
        let whole = channel(pixels@, which as int);
        assert(whole.take(at as int / 3) =~= whole);
    }
}

/// An image as the encoder takes it: all of its red values, then the green
/// ones, then the blue ones, each in the order of the pixels.
pub fn channel_planes(pixels: &[u8]) -> (planes: Vec<u8>)
    requires
        pixels@.len() % 3 == 0,
    ensures
        planes@ == channel(pixels@, 0) + channel(pixels@, 1) + channel(pixels@, 2),
        planes@.len() == pixels@.len(),
        forall|c: int, i: int|
            0 <= c < 3 && 0 <= i < pixels@.len() / 3 ==> planes@[c * (pixels@.len() as int / 3)
                + i] == #[trigger] pixels@[3 * i + c],
{
    let mut planes: Vec<u8> = Vec::new();
    push_channel(&mut planes, pixels, 0);
    push_channel(&mut planes, pixels, 1);
    push_channel(&mut planes, pixels, 2);
    proof {
        let n = pixels@.len() as int / 3;
        assert forall|c: int, i: int| 0 <= c < 3 && 0 <= i < n implies planes@[c * n + i]
            == #[trigger] pixels@[3 * i + c] by {
            assert(c * n == 0 || c * n == n || c * n == 2 * n) by (nonlinear_arith)
                requires
                    c == 0 || c == 1 || c == 2,
            ;
            if c == 0 {
                assert(c * n == 0) by (nonlinear_arith)
                    requires
                        c == 0,
                ;
                assert(planes@[i] == channel(pixels@, 0)[i]);
            } else if c == 1 {
                assert(c * n == n) by (nonlinear_arith)
                    requires
                        c == 1,
                ;
                assert(planes@[n + i] == channel(pixels@, 1)[i]);
            } else {
                assert(c * n == 2 * n) by (nonlinear_arith)
                    requires
                        c == 2,
                ;
                assert(planes@[2 * n + i] == channel(pixels@, 2)[i]);
            }
        }
    }
    planes
}

/// The metadata holds the number `n` under `key`, in some integer type.
pub open spec fn number_under(m: Map<Text, Meta>, key: Text, n: u32) -> bool {
    m.contains_key(key) && match m[key] {
        Meta::U8(v) => v == n,
        Meta::I8(v) => v == n,
        Meta::U16(v) => v == n,
        Meta::I16(v) => v == n,
        Meta::U32(v) => v == n,
        Meta::I32(v) => v == n,
        Meta::U64(v) => v == n,
        Meta::I64(v) => v == n,
        _ => false,
    }
}

/// Each dimension is what the metadata holds under its own key; one without an
/// entry is the one that is known of common encoders.
pub proof fn law_dims_are_read(m: Map<Text, Meta>, n: u32)
    ensures
        number_under(m, "clip.vision.image_size"@, n) ==> gguf_dims(m).image_size == n,
        !(m.contains_key("clip.vision.image_size"@)) ==> gguf_dims(m).image_size == 768,
        number_under(m, "clip.vision.patch_size"@, n) ==> gguf_dims(m).patch_size == n,
        !(m.contains_key("clip.vision.patch_size"@)) ==> gguf_dims(m).patch_size == 16,
        number_under(m, "clip.vision.embedding_length"@, n) ==> gguf_dims(m).hidden_dim == n,
        !(m.contains_key("clip.vision.embedding_length"@)) ==> gguf_dims(m).hidden_dim == 1024,
        number_under(m, "clip.vision.block_count"@, n) ==> gguf_dims(m).num_layers == n,
        !(m.contains_key("clip.vision.block_count"@)) ==> gguf_dims(m).num_layers == 24,
        number_under(m, "clip.vision.attention.head_count"@, n) ==> gguf_dims(m).num_heads == n,
        !(m.contains_key("clip.vision.attention.head_count"@)) ==> gguf_dims(m).num_heads == 16,
        number_under(m, "clip.vision.projection_dim"@, n) ==> gguf_dims(m).projection_dim == n,
        !(m.contains_key("clip.vision.projection_dim"@)) ==> gguf_dims(m).projection_dim == 2560,
        number_under(m, "clip.vision.spatial_merge_size"@, n) ==> gguf_dims(m).spatial_merge_size == n,
        !(m.contains_key("clip.vision.spatial_merge_size"@)) ==> gguf_dims(m).spatial_merge_size == 1,
{
}

/// A block is a deep-stack block if and only if the list says so at its place;
/// without a list none is.
pub proof fn law_deepstack_is_read(m: Map<Text, Meta>)
    ensures
        ({
            let key = "clip.vision.is_deepstack_layers"@;
            let flags = gguf_dims(m).is_deepstack_layers;
            if m.contains_key(key) && m[key] is Array {
                let items = m[key]->Array_0;
                flags.len() == items.len() && forall|i: int|
                    0 <= i < items.len() ==> (#[trigger] flags[i] <==> items[i] == Meta::Bool(true))
            } else {
                flags.len() == gguf_dims(m).num_layers && forall|i: int|
                    0 <= i < flags.len() ==> !(#[trigger] flags[i])
            }
        }),
{
}

/// Each dimension is what the configuration gives for it; one that it does not
/// give is the one that is known of common encoders.
pub proof fn law_config_dims_are_read(meta: ModelMeta<Text, Seq<bool>>)
    ensures
        meta.vision_image_size matches Some(n) ==> config_dims(meta).image_size == n,
        meta.vision_image_size is None ==> config_dims(meta).image_size == 768,
        meta.vision_patch_size matches Some(n) ==> config_dims(meta).patch_size == n,
        meta.vision_patch_size is None ==> config_dims(meta).patch_size == 16,
        meta.vision_hidden_dim matches Some(n) ==> config_dims(meta).hidden_dim == n,
        meta.vision_hidden_dim is None ==> config_dims(meta).hidden_dim == 1024,
        meta.vision_num_layers matches Some(n) ==> config_dims(meta).num_layers == n,
        meta.vision_num_layers is None ==> config_dims(meta).num_layers == 24,
        meta.vision_num_heads matches Some(n) ==> config_dims(meta).num_heads == n,
        meta.vision_num_heads is None ==> config_dims(meta).num_heads == 16,
        meta.vision_projection_dim matches Some(n) ==> config_dims(meta).projection_dim == n,
        meta.vision_projection_dim is None ==> config_dims(meta).projection_dim == 2560,
        meta.spatial_merge_size matches Some(n) ==> config_dims(meta).spatial_merge_size == n,
        meta.spatial_merge_size is None ==> config_dims(meta).spatial_merge_size == 1,
        meta.is_deepstack_layers matches Some(flags) ==> config_dims(meta).is_deepstack_layers
            == flags,
        meta.is_deepstack_layers is None ==> {
            let flags = config_dims(meta).is_deepstack_layers;
            flags.len() == config_dims(meta).num_layers && forall|i: int|
                0 <= i < flags.len() ==> !(#[trigger] flags[i])
        },
{
}

/// An axis of `dim` is one of merged patches: `s` by `s` of them, of `hidden`
/// values each, side by side.
pub open spec fn merges(dim: usize, hidden: usize, s: usize) -> bool {
    hidden > 0 && s > 1 && dim == s * s * hidden
}

proof fn lemma_merge_is(dim: usize, hidden: usize, s: usize)
    requires
        merges(dim, hidden, s),
    ensures
        merge_of(dim, hidden) == Some(s),
{
    assert(dim > hidden && dim % hidden == 0 && dim / hidden == s * s) by (nonlinear_arith)
        requires
            dim == s * s * hidden,
            hidden > 0,
            s > 1,
    ;
    let t = choose|t: usize| #[trigger] (t * t) == dim / hidden;
    assert(s * s == dim / hidden);
    assert(t * t == s * s);
    assert(t == s) by (nonlinear_arith)
        requires
            t * t == s * s,
            t >= 0,
            s >= 0,
    ;
}

proof fn lemma_merge_merges(dim: usize, hidden: usize)
    ensures
        merge_of(dim, hidden) matches Some(s) ==> merges(dim, hidden, s),
{
    if merge_of(dim, hidden) is Some {
        let s = merge_of(dim, hidden)->0;
        assert(s * s == dim / hidden);
        assert(dim == (dim / hidden) * hidden) by (nonlinear_arith)
            requires
                hidden > 0,
                dim % hidden == 0,
        ;
        assert(s > 1) by (nonlinear_arith)
            requires
                dim == (s * s) * hidden,
                dim > hidden,
                hidden > 0,
                s >= 0,
        ;
    }
}

/// The merge size is the one of which the projector's first axis is made, or
/// else its last one; where neither is made of merged patches, what was known
/// before stands.
pub proof fn law_merge_is_settled(dims: Seq<usize>, hidden: usize, known: usize, s: usize)
    ensures
        merges(dims[0], hidden, s) ==> settled_merge(Some(dims), hidden, known) == s,
        (forall|t: usize| !(#[trigger] merges(dims[0], hidden, t))) && merges(
            dims.last(),
            hidden,
            s,
        ) ==> settled_merge(Some(dims), hidden, known) == s,
        (forall|t: usize| !(#[trigger] merges(dims[0], hidden, t))) && (forall|t: usize|
            !(#[trigger] merges(dims.last(), hidden, t))) ==> settled_merge(
            Some(dims),
            hidden,
            known,
        ) == known,
        settled_merge(None, hidden, known) == known,
{
    if merges(dims[0], hidden, s) {
        lemma_merge_is(dims[0], hidden, s);
    }
    if merges(dims.last(), hidden, s) {
        lemma_merge_is(dims.last(), hidden, s);
    }
    lemma_merge_merges(dims[0], hidden);
    lemma_merge_merges(dims.last(), hidden);
}

/// A tensor that block `layer` reads.
pub open spec fn block_reads(flags: Seq<bool>, layer: nat, name: Text) -> bool {
    ||| name == part_name("vision.layers."@, layer, "ln1.weight"@)
    ||| name == part_name("vision.layers."@, layer, "attn_qkv.weight"@)
    ||| name == part_name("vision.layers."@, layer, "attn_out.weight"@)
    ||| name == part_name("vision.layers."@, layer, "ln2.weight"@)
    ||| name == part_name("vision.layers."@, layer, "ffn_up.weight"@)
    ||| name == part_name("vision.layers."@, layer, "ffn_down.weight"@)
    ||| layer < flags.len() && flags[layer as int] && (name == part_name(
        "deepstack."@,
        layer,
        "norm.weight"@,
    ) || name == part_name("deepstack."@, layer, "fc1.weight"@) || name == part_name(
        "deepstack."@,
        layer,
        "fc2.weight"@,
    ))
}

proof fn lemma_layer_needs(flags: Seq<bool>, layer: nat, name: Text)
    ensures
        layer_needs(flags, layer).contains(name) <==> block_reads(flags, layer, name),
{
    let all = layer_needs(flags, layer);
    assert(all[0] == part_name("vision.layers."@, layer, "ln1.weight"@));
    assert(all[1] == part_name("vision.layers."@, layer, "attn_qkv.weight"@));
    assert(all[2] == part_name("vision.layers."@, layer, "attn_out.weight"@));
    assert(all[3] == part_name("vision.layers."@, layer, "ln2.weight"@));
    assert(all[4] == part_name("vision.layers."@, layer, "ffn_up.weight"@));
    assert(all[5] == part_name("vision.layers."@, layer, "ffn_down.weight"@));
    if taken(flags, layer as int) {
        assert(all[6] == part_name("deepstack."@, layer, "norm.weight"@));
        assert(all[7] == part_name("deepstack."@, layer, "fc1.weight"@));
        assert(all[8] == part_name("deepstack."@, layer, "fc2.weight"@));
    }
}

proof fn lemma_layers_need(flags: Seq<bool>, layers: nat, name: Text)
    ensures
        layers_need(flags, layers).contains(name) <==> exists|l: nat|
            l < layers && #[trigger] block_reads(flags, l, name),
    decreases layers,
{
    if layers > 0 {
        let last = (layers - 1) as nat;
        let (before, own) = (layers_need(flags, last), layer_needs(flags, last));
        lemma_layers_need(flags, last, name);
        lemma_layer_needs(flags, last, name);
        if before.contains(name) {
            let i = before.index_of(name);
            assert((before + own)[i] == name);
        }
        if own.contains(name) {
            let i = own.index_of(name);
            assert((before + own)[before.len() + i] == name);
        }
        if (before + own).contains(name) {
            let i = (before + own).index_of(name);
            if i < before.len() {
                assert(before[i] == name);
            } else {
                assert(own[i - before.len()] == name);
            }
        }
    }
}

/// Encoding an image asks for the patch weights, for what each block reads
/// and, behind blocks, for the first layer of the projector, and for nothing
/// else.
pub proof fn law_encoder_reads(flags: Seq<bool>, layers: nat, name: Text)
    ensures
        encoder_needs(flags, layers).contains(name) <==> {
            ||| name == "vision.patch_embed.weight"@
            ||| layers > 0 && name == "projector.0.weight"@
            ||| exists|l: nat| l < layers && #[trigger] block_reads(flags, l, name)
        },
{
    lemma_layers_need(flags, layers, name);
    let all = encoder_needs(flags, layers);
    let blocks = layers_need(flags, layers);
    assert(all[0] == "vision.patch_embed.weight"@);
    if layers > 0 {
        assert(all[all.len() - 1] == "projector.0.weight"@);
        if blocks.contains(name) {
            let i = blocks.index_of(name);
            assert(all[1 + i] == name);
        }
        if all.contains(name) {
            let i = all.index_of(name);
            if 0 < i < all.len() - 1 {
                assert(blocks[i - 1] == name);
            }
        }
    }
}

} // verus!
