//! The parts of a vision encoder: what a file calls them and where the encoder
//! looks for them.
use vstd::prelude::*;
use crate::backends::projections::{
    hf_layer_name, is_fused, is_separate, law_layers_are_fused, law_others_are_kept,
    law_part_names_apart, law_separate_parts, layer_is_fused, lemma_part_split, part_name, Piece,
    Source,
};
use crate::backends::vision::{
    gguf_vision_name, hf_vision_name, is_calibration, is_gguf_naming, vision_name, vision_places,
    vision_plan, VisionError,
};
use crate::text::{
    begins, dec, ends, free_of, has, law_decimal_reads_back, lemma_cut, split, Text,
};

verus! {

/// A part of a vision encoder.
pub ghost enum VisionPart {
    PatchWeight,
    PatchBias,
    Positions,
    LastNormWeight,
    LastNormBias,
    /// The first layer of the projector.
    FirstWeight,
    FirstBias,
    /// The second layer of the projector.
    SecondWeight,
    SecondBias,
    /// A tensor of a block.
    Block { layer: usize, component: Text, param: Text },
    /// A tensor of a deep-stack merger.
    Stack { layer: usize, component: Text, param: Text },
}

/// What a GGUF projector file calls a part.
pub open spec fn in_file(p: VisionPart) -> Text {
    match p {
        VisionPart::PatchWeight => "v.patch_embd.weight"@,
        VisionPart::PatchBias => "v.patch_embd.bias"@,
        VisionPart::Positions => "v.position_embd.weight"@,
        VisionPart::LastNormWeight => "v.post_ln.weight"@,
        VisionPart::LastNormBias => "v.post_ln.bias"@,
        VisionPart::FirstWeight => "mm.0.weight"@,
        VisionPart::FirstBias => "mm.0.bias"@,
        VisionPart::SecondWeight => "mm.2.weight"@,
        VisionPart::SecondBias => "mm.2.bias"@,
        VisionPart::Block { layer, component, param } => part_name(
            "v.blk."@,
            layer as nat,
            component + "."@ + param,
        ),
        VisionPart::Stack { layer, component, param } => part_name(
            "v.deepstack."@,
            layer as nat,
            component + "."@ + param,
        ),
    }
}

/// Where the encoder looks for a part.
pub open spec fn in_encoder(p: VisionPart) -> Text {
    match p {
        VisionPart::PatchWeight => "vision.patch_embed.weight"@,
        VisionPart::PatchBias => "vision.patch_embed.bias"@,
        VisionPart::Positions => "vision.pos_embed.weight"@,
        VisionPart::LastNormWeight => "vision.post_ln.weight"@,
        VisionPart::LastNormBias => "vision.post_ln.bias"@,
        VisionPart::FirstWeight => "projector.0.weight"@,
        VisionPart::FirstBias => "projector.0.bias"@,
        VisionPart::SecondWeight => "projector.2.weight"@,
        VisionPart::SecondBias => "projector.2.bias"@,
        VisionPart::Block { layer, component, param } => part_name(
            "vision.layers."@,
            layer as nat,
            component + "."@ + param,
        ),
        VisionPart::Stack { layer, component, param } => part_name(
            "deepstack."@,
            layer as nat,
            component + "."@ + param,
        ),
    }
}

/// A part that the encoder has a use for, by names without dots.
pub open spec fn is_plain(p: VisionPart) -> bool {
    match p {
        VisionPart::Block { component, param, .. } => {
            &&& free_of(component, '.')
            &&& free_of(param, '.')
            &&& !ends(component, "_rel"@)
            &&& param != "input_max"@
            &&& param != "input_min"@
            &&& param != "output_max"@
            &&& param != "output_min"@
        },
        VisionPart::Stack { component, param, .. } => free_of(component, '.') && free_of(
            param,
            '.',
        ),
        _ => true,
    }
}

proof fn lemma_fixed_parts(p: VisionPart)
    requires
        !(p is Block) && !(p is Stack),
    ensures
        gguf_vision_name(in_file(p)) == Ok::<Option<Text>, VisionError>(Some(in_encoder(p))),
{
    reveal_strlit("v.patch_embd.weight");
    reveal_strlit("v.patch_embd.bias");
    reveal_strlit("v.position_embd.weight");
    reveal_strlit("v.post_ln.weight");
    reveal_strlit("v.post_ln.bias");
    reveal_strlit("mm.0.weight");
    reveal_strlit("mm.0.bias");
    reveal_strlit("mm.2.weight");
    reveal_strlit("mm.2.bias");
    reveal_strlit("mm.input_projection.weight");
    reveal_strlit("mm.input_projection.bias");
    assert("v.patch_embd.weight"@.len() == 19);
    assert("v.patch_embd.bias"@.len() == 17);
    assert("v.position_embd.weight"@.len() == 22);
    assert("v.post_ln.weight"@.len() == 16);
    assert("v.post_ln.bias"@.len() == 14);
    assert("mm.0.weight"@.len() == 11);
    assert("mm.0.bias"@.len() == 9);
    assert("mm.2.weight"@.len() == 11);
    assert("mm.2.bias"@.len() == 9);
    assert("mm.input_projection.weight"@.len() == 26);
    assert("mm.input_projection.bias"@.len() == 24);
    assert("mm.0.weight"@[3] != "mm.2.weight"@[3]);
    assert("mm.0.bias"@[3] != "mm.2.bias"@[3]);
}

proof fn lemma_block_parts(layer: usize, component: Text, param: Text)
    requires
        free_of(component, '.'),
        free_of(param, '.'),
    ensures
        ({
            let what = component + "."@ + param;
            let name = part_name("v.blk."@, layer as nat, what);
            gguf_vision_name(name) == (if ends(component, "_rel"@) || is_calibration(param) {
                Ok::<Option<Text>, VisionError>(None)
            } else {
                Ok(Some(part_name("vision.layers."@, layer as nat, what)))
            })
        }),
        begins(part_name("v.blk."@, layer as nat, component + "."@ + param), "v."@),
{
    reveal_strlit("v.patch_embd.weight");
    reveal_strlit("v.patch_embd.bias");
    reveal_strlit("v.position_embd.weight");
    reveal_strlit("v.post_ln.weight");
    reveal_strlit("v.post_ln.bias");
    reveal_strlit("mm.0.weight");
    reveal_strlit("mm.0.bias");
    reveal_strlit("mm.2.weight");
    reveal_strlit("mm.2.bias");
    reveal_strlit("mm.input_projection.weight");
    reveal_strlit("mm.input_projection.bias");
    reveal_strlit("v.blk.");
    reveal_strlit("v");
    reveal_strlit("blk");
    reveal_strlit("v.");
    let what = component + "."@ + param;
    let name = part_name("v.blk."@, layer as nat, what);
    assert("v.blk."@ =~= ("v"@.push('.') + "blk"@).push('.'));
    lemma_part_split("v"@, "blk"@, "v.blk."@, layer as nat, component, param);
    law_decimal_reads_back(layer as nat);
    assert(name[0] == 'v' && name[1] == '.' && name[2] == 'b');
    assert(name.subrange(0, 2) =~= "v."@);
    assert("v.patch_embd.weight"@[2] == 'p');
    assert("v.patch_embd.bias"@[2] == 'p');
    assert("v.position_embd.weight"@[2] == 'p');
    assert("v.post_ln.weight"@[2] == 'p');
    assert("v.post_ln.bias"@[2] == 'p');
    assert("mm.0.weight"@[0] == 'm');
    assert("mm.0.bias"@[0] == 'm');
    assert("mm.2.weight"@[0] == 'm');
    assert("mm.2.bias"@[0] == 'm');
    assert("mm.input_projection.weight"@[0] == 'm');
    assert("mm.input_projection.bias"@[0] == 'm');
    let parts = split(name, '.');
    assert(parts[2] == dec(layer as nat) && parts[3] == component && parts[4] == param);
}

proof fn lemma_stack_parts(layer: usize, component: Text, param: Text)
    requires
        free_of(component, '.'),
        free_of(param, '.'),
    ensures
        ({
            let what = component + "."@ + param;
            let name = part_name("v.deepstack."@, layer as nat, what);
            gguf_vision_name(name) == Ok::<Option<Text>, VisionError>(
                Some(part_name("deepstack."@, layer as nat, what)),
            )
        }),
        begins(part_name("v.deepstack."@, layer as nat, component + "."@ + param), "v."@),
{
    reveal_strlit("v.patch_embd.weight");
    reveal_strlit("v.patch_embd.bias");
    reveal_strlit("v.position_embd.weight");
    reveal_strlit("v.post_ln.weight");
    reveal_strlit("v.post_ln.bias");
    reveal_strlit("mm.0.weight");
    reveal_strlit("mm.0.bias");
    reveal_strlit("mm.2.weight");
    reveal_strlit("mm.2.bias");
    reveal_strlit("mm.input_projection.weight");
    reveal_strlit("mm.input_projection.bias");
    reveal_strlit("v.blk.");
    reveal_strlit("v.deepstack.");
    reveal_strlit("v");
    reveal_strlit("deepstack");
    reveal_strlit("v.");
    let what = component + "."@ + param;
    let name = part_name("v.deepstack."@, layer as nat, what);
    assert("v.deepstack."@ =~= ("v"@.push('.') + "deepstack"@).push('.'));
    lemma_part_split("v"@, "deepstack"@, "v.deepstack."@, layer as nat, component, param);
    law_decimal_reads_back(layer as nat);
    assert(name[0] == 'v' && name[1] == '.' && name[2] == 'd');
    assert(name.subrange(0, 2) =~= "v."@);
    assert("v.patch_embd.weight"@[2] == 'p');
    assert("v.patch_embd.bias"@[2] == 'p');
    assert("v.position_embd.weight"@[2] == 'p');
    assert("v.post_ln.weight"@[2] == 'p');
    assert("v.post_ln.bias"@[2] == 'p');
    assert("mm.0.weight"@[0] == 'm');
    assert("mm.0.bias"@[0] == 'm');
    assert("mm.2.weight"@[0] == 'm');
    assert("mm.2.bias"@[0] == 'm');
    assert("mm.input_projection.weight"@[0] == 'm');
    assert("mm.input_projection.bias"@[0] == 'm');
    if begins(name, "v.blk."@) {
        assert(name.subrange(0, 6)[2] == name[2]);
        assert("v.blk."@[2] == 'b');
    }
    let parts = split(name, '.');
    assert(parts[2] == dec(layer as nat) && parts[3] == component && parts[4] == param);
}

/// Every part of an encoder stands where the encoder looks for it: the first
/// layer of the projector under `projector.0`, the second one under
/// `projector.2`, the tensors of a block under its number.
pub proof fn law_part_is_placed(p: VisionPart)
    requires
        is_plain(p),
    ensures
        gguf_vision_name(in_file(p)) == Ok::<Option<Text>, VisionError>(Some(in_encoder(p))),
{
    match p {
        VisionPart::Block { layer, component, param } => {
            lemma_block_parts(layer, component, param);
        },
        VisionPart::Stack { layer, component, param } => {
            lemma_stack_parts(layer, component, param);
        },
        _ => {
            lemma_fixed_parts(p);
        },
    }
}

/// The first layer of the projector has a second name, which leads to the same
/// place.
pub proof fn law_input_projection_is_first()
    ensures
        gguf_vision_name("mm.input_projection.weight"@) == Ok::<Option<Text>, VisionError>(
            Some("projector.0.weight"@),
        ),
        gguf_vision_name("mm.input_projection.bias"@) == Ok::<Option<Text>, VisionError>(
            Some("projector.0.bias"@),
        ),
{
    reveal_strlit("v.patch_embd.weight");
    reveal_strlit("v.patch_embd.bias");
    reveal_strlit("v.position_embd.weight");
    reveal_strlit("v.post_ln.weight");
    reveal_strlit("v.post_ln.bias");
    reveal_strlit("mm.0.weight");
    reveal_strlit("mm.0.bias");
    reveal_strlit("mm.2.weight");
    reveal_strlit("mm.2.bias");
    reveal_strlit("mm.input_projection.weight");
    reveal_strlit("mm.input_projection.bias");
    assert("v.patch_embd.weight"@.len() == 19);
    assert("v.patch_embd.bias"@.len() == 17);
    assert("v.position_embd.weight"@.len() == 22);
    assert("v.post_ln.weight"@.len() == 16);
    assert("v.post_ln.bias"@.len() == 14);
    assert("mm.0.weight"@.len() == 11);
    assert("mm.0.bias"@.len() == 9);
    assert("mm.2.weight"@.len() == 11);
    assert("mm.2.bias"@.len() == 9);
    assert("mm.input_projection.weight"@.len() == 26);
    assert("mm.input_projection.bias"@.len() == 24);
    assert("mm.0.weight"@[3] != "mm.2.weight"@[3]);
    assert("mm.0.bias"@[3] != "mm.2.bias"@[3]);
}

/// What a block holds for calibration, or as relative positions, has no place.
pub proof fn law_unused_has_no_place(layer: usize, component: Text, param: Text)
    requires
        free_of(component, '.'),
        free_of(param, '.'),
        ends(component, "_rel"@) || param == "input_max"@ || param == "input_min"@ || param
            == "output_max"@ || param == "output_min"@,
    ensures
        gguf_vision_name(part_name("v.blk."@, layer as nat, component + "."@ + param)) == Ok::<
            Option<Text>,
            VisionError,
        >(None),
{
    lemma_block_parts(layer, component, param);
}

proof fn lemma_tensor_apart(
    prefix: Text,
    a: usize,
    b: usize,
    ac: Text,
    ap: Text,
    bc: Text,
    bp: Text,
)
    requires
        free_of(ac, '.'),
        free_of(bc, '.'),
        part_name(prefix, a as nat, ac + "."@ + ap) == part_name(prefix, b as nat, bc + "."@ + bp),
    ensures
        a == b,
        ac == bc,
        ap == bp,
{
    reveal_strlit(".");
    law_part_names_apart(prefix, a as nat, b as nat, ac + "."@ + ap, bc + "."@ + bp);
    lemma_cut(ac, '.', ap);
    lemma_cut(bc, '.', bp);
    assert(ac + "."@ + ap =~= ac.push('.') + ap);
    assert(bc + "."@ + bp =~= bc.push('.') + bp);
}

/// Parts that play different roles never share a place, nor a name.
pub proof fn law_parts_apart(p: VisionPart, q: VisionPart)
    requires
        is_plain(p),
        is_plain(q),
        p != q,
    ensures
        in_file(p) != in_file(q),
        in_encoder(p) != in_encoder(q),
{
    reveal_strlit("v.patch_embd.weight");
    reveal_strlit("v.patch_embd.bias");
    reveal_strlit("v.position_embd.weight");
    reveal_strlit("v.post_ln.weight");
    reveal_strlit("v.post_ln.bias");
    reveal_strlit("mm.0.weight");
    reveal_strlit("mm.0.bias");
    reveal_strlit("mm.2.weight");
    reveal_strlit("mm.2.bias");
    reveal_strlit("vision.patch_embed.weight");
    reveal_strlit("vision.patch_embed.bias");
    reveal_strlit("vision.pos_embed.weight");
    reveal_strlit("vision.post_ln.weight");
    reveal_strlit("vision.post_ln.bias");
    reveal_strlit("projector.0.weight");
    reveal_strlit("projector.0.bias");
    reveal_strlit("projector.2.weight");
    reveal_strlit("projector.2.bias");
    reveal_strlit("v.blk.");
    reveal_strlit("v.deepstack.");
    reveal_strlit("vision.layers.");
    reveal_strlit("deepstack.");
    assert("v.patch_embd.weight"@.len() == 19);
    assert("v.patch_embd.bias"@.len() == 17);
    assert("v.position_embd.weight"@.len() == 22);
    assert("v.post_ln.weight"@.len() == 16);
    assert("v.post_ln.bias"@.len() == 14);
    assert("mm.0.weight"@.len() == 11);
    assert("mm.0.bias"@.len() == 9);
    assert("mm.2.weight"@.len() == 11);
    assert("mm.2.bias"@.len() == 9);
    assert("mm.0.weight"@[3] != "mm.2.weight"@[3]);
    assert("mm.0.bias"@[3] != "mm.2.bias"@[3]);
    assert("vision.patch_embed.weight"@.len() == 25);
    assert("vision.patch_embed.bias"@.len() == 23);
    assert("vision.pos_embed.weight"@.len() == 23);
    assert("vision.post_ln.weight"@.len() == 21);
    assert("vision.post_ln.bias"@.len() == 19);
    assert("projector.0.weight"@.len() == 18);
    assert("projector.0.bias"@.len() == 16);
    assert("projector.2.weight"@.len() == 18);
    assert("projector.2.bias"@.len() == 16);
    assert("vision.patch_embed.bias"@[8] != "vision.pos_embed.weight"@[8]);
    assert("projector.0.weight"@[10] != "projector.2.weight"@[10]);
    assert("projector.0.bias"@[10] != "projector.2.bias"@[10]);
    lemma_first_letters(p);
    lemma_first_letters(q);
    match (p, q) {
        (
            VisionPart::Block { layer: a, component: ac, param: ap },
            VisionPart::Block { layer: b, component: bc, param: bp },
        ) => {
            if in_file(p) == in_file(q) {
                lemma_tensor_apart("v.blk."@, a, b, ac, ap, bc, bp);
            }
            if in_encoder(p) == in_encoder(q) {
                lemma_tensor_apart("vision.layers."@, a, b, ac, ap, bc, bp);
            }
        },
        (
            VisionPart::Stack { layer: a, component: ac, param: ap },
            VisionPart::Stack { layer: b, component: bc, param: bp },
        ) => {
            if in_file(p) == in_file(q) {
                lemma_tensor_apart("v.deepstack."@, a, b, ac, ap, bc, bp);
            }
            if in_encoder(p) == in_encoder(q) {
                lemma_tensor_apart("deepstack."@, a, b, ac, ap, bc, bp);
            }
        },
        _ => {},
    }
}

/// By which letters the names of parts of different kinds are told apart.
proof fn lemma_first_letters(p: VisionPart)
    ensures
        p is Block ==> in_file(p)[0] == 'v' && in_file(p)[2] == 'b',
        p is Stack ==> in_file(p)[0] == 'v' && in_file(p)[2] == 'd',
        !(p is Block) && !(p is Stack) ==> in_file(p)[0] == 'm' || in_file(p)[2] == 'p',
        p is Block ==> in_encoder(p)[0] == 'v' && in_encoder(p)[7] == 'l',
        p is Stack ==> in_encoder(p)[0] == 'd',
        !(p is Block) && !(p is Stack) ==> in_encoder(p)[0] == 'p' || (in_encoder(p)[0] == 'v'
            && in_encoder(p)[7] == 'p'),
        begins(in_file(p), "v."@) || begins(in_file(p), "mm."@),
{
    reveal_strlit("v.patch_embd.weight");
    reveal_strlit("v.patch_embd.bias");
    reveal_strlit("v.position_embd.weight");
    reveal_strlit("v.post_ln.weight");
    reveal_strlit("v.post_ln.bias");
    reveal_strlit("mm.0.weight");
    reveal_strlit("mm.0.bias");
    reveal_strlit("mm.2.weight");
    reveal_strlit("mm.2.bias");
    reveal_strlit("vision.patch_embed.weight");
    reveal_strlit("vision.patch_embed.bias");
    reveal_strlit("vision.pos_embed.weight");
    reveal_strlit("vision.post_ln.weight");
    reveal_strlit("vision.post_ln.bias");
    reveal_strlit("projector.0.weight");
    reveal_strlit("projector.0.bias");
    reveal_strlit("projector.2.weight");
    reveal_strlit("projector.2.bias");
    reveal_strlit("v.blk.");
    reveal_strlit("v.deepstack.");
    reveal_strlit("vision.layers.");
    reveal_strlit("deepstack.");
    reveal_strlit("v.");
    reveal_strlit("mm.");
    assert(in_file(p).subrange(0, 2) =~= "v."@ || in_file(p).subrange(0, 3) =~= "mm."@);
}

/// Tensor `i` of the list is the last one that stands under `name`.
pub open spec fn is_last_for(gguf: bool, names: Seq<Text>, name: Text, i: int) -> bool {
    &&& 0 <= i < names.len()
    &&& vision_name(gguf, names[i]) == Ok::<Option<Text>, VisionError>(Some(name))
    &&& forall|j: int|
        i < j < names.len() ==> vision_name(gguf, #[trigger] names[j]) != Ok::<
            Option<Text>,
            VisionError,
        >(Some(name))
}

/// A place is filled if and only if some tensor of the list belongs there, and
/// then with the last one that does.
pub proof fn law_last_one_counts(gguf: bool, names: Seq<Text>, name: Text)
    requires
        names.len() <= usize::MAX,
    ensures
        vision_places(gguf, names) matches Ok(m) ==> {
            &&& m.contains_key(name) <==> exists|i: int|
                0 <= i < names.len() && vision_name(gguf, #[trigger] names[i]) == Ok::<
                    Option<Text>,
                    VisionError,
                >(Some(name))
            &&& m.contains_key(name) ==> is_last_for(gguf, names, name, m[name] as int)
        },
    decreases names.len(),
{
    if names.len() > 0 && vision_places(gguf, names) is Ok {
        let front = names.drop_last();
        law_last_one_counts(gguf, front, name);
        assert forall|i: int| 0 <= i < front.len() implies #[trigger] names[i] == front[i] by {}
        let m = vision_places(gguf, names)->Ok_0;
        let before = vision_places(gguf, front)->Ok_0;
        let own = Ok::<Option<Text>, VisionError>(Some(name));
        assert(names[names.len() - 1] == names.last());
        if vision_name(gguf, names.last()) == own {
            assert(is_last_for(gguf, names, name, m[name] as int));
        } else {
            assert(m.contains_key(name) == before.contains_key(name));
            if before.contains_key(name) {
                let i = before[name] as int;
                assert(m[name] == before[name]);
                assert(front[i] == names[i]);
                assert forall|j: int| i < j < names.len() implies vision_name(
                    gguf,
                    #[trigger] names[j],
                ) != own by {
                    if j < front.len() {
                        assert(front[j] == names[j]);
                    }
                }
            }
            if exists|i: int|
                0 <= i < names.len() && vision_name(gguf, #[trigger] names[i]) == own {
                let i = choose|i: int|
                    0 <= i < names.len() && vision_name(gguf, #[trigger] names[i]) == own;
                assert(i < front.len());
                assert(front[i] == names[i]);
            }
        }
    }
}

/// A list of parts that the encoder has a use for, each once.
pub open spec fn lists(names: Seq<Text>, parts: Seq<VisionPart>) -> bool {
    &&& 0 < parts.len() <= usize::MAX
    &&& parts.no_duplicates()
    &&& names.len() == parts.len()
    &&& forall|i: int|
        0 <= i < parts.len() ==> is_plain(#[trigger] parts[i]) && names[i] == in_file(parts[i])
}

/// A list of parts is that of a GGUF projector file, and every name of it has
/// a place.
proof fn lemma_list_is_placed(names: Seq<Text>, parts: Seq<VisionPart>, n: int)
    requires
        lists(names, parts),
        0 <= n <= names.len(),
    ensures
        is_gguf_naming(names),
        vision_places(true, names.take(n)) is Ok,
    decreases n,
{
    lemma_first_letters(parts[0]);
    assert(names[0] == in_file(parts[0]));
    if n > 0 {
        lemma_list_is_placed(names, parts, n - 1);
        assert(names.take(n).drop_last() =~= names.take(n - 1));
        law_part_is_placed(parts[n - 1]);
        assert(names.take(n).last() == in_file(parts[n - 1]));
    }
}

/// In a file that holds each part once, every part stands in its own place:
/// no place is lost, and none is taken by another part.
pub proof fn law_file_is_placed(names: Seq<Text>, parts: Seq<VisionPart>)
    requires
        lists(names, parts),
    ensures
        is_gguf_naming(names),
        vision_places(true, names) matches Ok(m) && (forall|i: int|
            0 <= i < parts.len() ==> m.contains_key(in_encoder(#[trigger] parts[i])) && m[in_encoder(
                parts[i],
            )] == i) && (forall|name: Text| #[trigger]
            m.contains_key(name) ==> exists|i: int|
                0 <= i < parts.len() && name == in_encoder(#[trigger] parts[i])),
{
    lemma_list_is_placed(names, parts, names.len() as int);
    assert(names.take(names.len() as int) =~= names);
    let m = vision_places(true, names)->Ok_0;
    assert forall|i: int| 0 <= i < parts.len() implies m.contains_key(
        in_encoder(#[trigger] parts[i]),
    ) && m[in_encoder(parts[i])] == i by {
        let place = in_encoder(parts[i]);
        law_last_one_counts(true, names, place);
        law_part_is_placed(parts[i]);
        assert(vision_name(true, names[i]) == Ok::<Option<Text>, VisionError>(Some(place)));
        let j = m[place] as int;
        law_part_is_placed(parts[j]);
        assert(names[j] == in_file(parts[j]));
        if j != i {
            law_parts_apart(parts[i], parts[j]);
        }
    }
    assert forall|name: Text| #[trigger] m.contains_key(name) implies exists|i: int|
        0 <= i < parts.len() && name == in_encoder(#[trigger] parts[i]) by {
        law_last_one_counts(true, names, name);
        let i = m[name] as int;
        law_part_is_placed(parts[i]);
        assert(names[i] == in_file(parts[i]));
        assert(name == in_encoder(parts[i]));
    }
}

/// The queries, keys and values of block `layer`, which the encoder has fused.
pub open spec fn is_projection(p: VisionPart) -> bool {
    p matches VisionPart::Block { component, param, .. } && (component == "attn_q"@ || component
        == "attn_k"@ || component == "attn_v"@ || component == "attn_qkv"@) && (param == "weight"@
        || param == "bias"@)
}

/// Every place that the encoder reads is filled whenever its tensor is in the
/// file, and with that tensor.
pub proof fn law_plan_fills_places(
    names: Seq<Text>,
    parts: Seq<VisionPart>,
    shapes: Seq<Seq<usize>>,
    num_layers: nat,
    i: int,
)
    requires
        lists(names, parts),
        0 <= i < parts.len(),
        !(is_projection(parts[i])),
    ensures
        vision_plan(names, shapes, num_layers) matches Ok(plan) ==> plan.contains_key(
            in_encoder(parts[i]),
        ) && plan[in_encoder(parts[i])] == Source::Raw(i as usize),
{
    law_file_is_placed(names, parts);
    let m = vision_places(true, names)->Ok_0;
    let p = parts[i];
    let place = in_encoder(p);
    let prefix = "vision.layers."@;
    if vision_plan(names, shapes, num_layers) is Ok {
        reveal_strlit("vision.layers.");
        reveal_strlit(".");
        reveal_strlit("attn_qkv.weight");
        reveal_strlit("attn_qkv.bias");
        reveal_strlit("attn_qkv");
        reveal_strlit("weight");
        reveal_strlit("bias");
        assert("attn_qkv.weight"@ =~= "attn_qkv"@ + "."@ + "weight"@);
        assert("attn_qkv.bias"@ =~= "attn_qkv"@ + "."@ + "bias"@);
        lemma_first_letters(p);
        if is_fused(prefix, num_layers, place) {
            let l = choose|l: nat|
                l < num_layers && (place == #[trigger] part_name(prefix, l, "attn_qkv.weight"@)
                    || place == part_name(prefix, l, "attn_qkv.bias"@));
            assert(place[0] == 'v' && place[7] == 'l');
            let (layer, component, param) = (p->Block_layer, p->Block_component, p->Block_param);
            let what = component + "."@ + param;
            lemma_cut(component, '.', param);
            lemma_cut("attn_qkv"@, '.', "weight"@);
            lemma_cut("attn_qkv"@, '.', "bias"@);
            assert(what =~= component.push('.') + param);
            assert("attn_qkv.weight"@ =~= "attn_qkv"@.push('.') + "weight"@);
            assert("attn_qkv.bias"@ =~= "attn_qkv"@.push('.') + "bias"@);
            if place == part_name(prefix, l, "attn_qkv.weight"@) {
                law_part_names_apart(prefix, layer as nat, l, what, "attn_qkv.weight"@);
            } else {
                law_part_names_apart(prefix, layer as nat, l, what, "attn_qkv.bias"@);
            }
        }
        if is_separate(prefix, place) {
            assert(place.subrange(0, prefix.len() as int)[7] == place[7]);
            assert(place.subrange(0, prefix.len() as int)[0] == place[0]);
            assert(prefix[7] == 'l' && prefix[0] == 'v');
            law_separate_parts(prefix, p->Block_layer, p->Block_component, p->Block_param);
        }
        law_others_are_kept(m, shapes, prefix, 1, num_layers, place);
        assert(m[place] == i);
    }
}

/// The queries, keys and values of a block, where the file holds them one by
/// one, are joined in this order along the second axis; where it holds them
/// fused, they are taken as they are.
pub proof fn law_plan_joins_projections(
    names: Seq<Text>,
    parts: Seq<VisionPart>,
    shapes: Seq<Seq<usize>>,
    num_layers: nat,
    layer: usize,
    q: int,
    k: int,
    v: int,
)
    requires
        lists(names, parts),
        layer < num_layers <= usize::MAX,
        0 <= q < parts.len(),
        0 <= k < parts.len(),
        0 <= v < parts.len(),
        parts[q] == (VisionPart::Block { layer, component: "attn_q"@, param: "weight"@ }),
        parts[k] == (VisionPart::Block { layer, component: "attn_k"@, param: "weight"@ }),
        parts[v] == (VisionPart::Block { layer, component: "attn_v"@, param: "weight"@ }),
    ensures
        vision_plan(names, shapes, num_layers) matches Ok(plan) ==> {
            let weight = part_name("vision.layers."@, layer as nat, "attn_qkv.weight"@);
            &&& plan.contains_key(weight)
            &&& plan[weight] == (Source::Join {
                axis: 1,
                q: Piece::Raw(q as usize),
                k: Piece::Raw(k as usize),
                v: Piece::Raw(v as usize),
            })
            &&& layer_is_fused(
                plan,
                vision_places(true, names)->Ok_0,
                shapes,
                "vision.layers."@,
                1,
                layer as nat,
            )
        },
{
    law_file_is_placed(names, parts);
    let m = vision_places(true, names)->Ok_0;
    if vision_plan(names, shapes, num_layers) is Ok {
        reveal_strlit("attn_q");
        reveal_strlit("attn_k");
        reveal_strlit("attn_v");
        reveal_strlit("weight");
        reveal_strlit(".");
        reveal_strlit("attn_q.weight");
        reveal_strlit("attn_k.weight");
        reveal_strlit("attn_v.weight");
        assert("attn_q"@ + "."@ + "weight"@ =~= "attn_q.weight"@);
        assert("attn_k"@ + "."@ + "weight"@ =~= "attn_k.weight"@);
        assert("attn_v"@ + "."@ + "weight"@ =~= "attn_v.weight"@);
        assert(m[in_encoder(parts[q])] == q);
        assert(m[in_encoder(parts[k])] == k);
        assert(m[in_encoder(parts[v])] == v);
        law_layers_are_fused(m, shapes, "vision.layers."@, 1, num_layers, layer as nat);
    }
}

/// By what the tensors of a Hugging Face checkpoint that belong to no layer
/// are told apart.
pub open spec fn is_mark(mark: Text) -> bool {
    ||| mark == "patch_embedding.weight"@
    ||| mark == "patch_embedding.bias"@
    ||| mark == "position_embedding.weight"@
    ||| mark == "post_layernorm.weight"@
    ||| mark == "post_layernorm.bias"@
    ||| mark == "multi_modal_projector.linear_1.weight"@
    ||| mark == "multi_modal_projector.0.weight"@
    ||| mark == "multi_modal_projector.linear_1.bias"@
    ||| mark == "multi_modal_projector.0.bias"@
    ||| mark == "multi_modal_projector.linear_2.weight"@
    ||| mark == "multi_modal_projector.2.weight"@
    ||| mark == "multi_modal_projector.linear_2.bias"@
    ||| mark == "multi_modal_projector.2.bias"@
}

/// The name holds this one of the marks, and no other.
pub open spec fn only_has(name: Text, mark: Text) -> bool {
    &&& has(name, mark)
    &&& forall|other: Text| #[trigger] is_mark(other) && other != mark ==> !(has(name, other))
}

/// Each mark of a Hugging Face name leads to its place.
pub proof fn law_marks_name_places(name: Text)
    ensures
        only_has(name, "patch_embedding.weight"@) ==> hf_vision_name(name) == Some("vision.patch_embed.weight"@),
        only_has(name, "patch_embedding.bias"@) ==> hf_vision_name(name) == Some("vision.patch_embed.bias"@),
        only_has(name, "position_embedding.weight"@) ==> hf_vision_name(name) == Some("vision.pos_embed.weight"@),
        only_has(name, "post_layernorm.weight"@) ==> hf_vision_name(name) == Some("vision.post_ln.weight"@),
        only_has(name, "post_layernorm.bias"@) ==> hf_vision_name(name) == Some("vision.post_ln.bias"@),
        only_has(name, "multi_modal_projector.linear_1.weight"@) ==> hf_vision_name(name) == Some("projector.0.weight"@),
        only_has(name, "multi_modal_projector.0.weight"@) ==> hf_vision_name(name) == Some("projector.0.weight"@),
        only_has(name, "multi_modal_projector.linear_1.bias"@) ==> hf_vision_name(name) == Some("projector.0.bias"@),
        only_has(name, "multi_modal_projector.0.bias"@) ==> hf_vision_name(name) == Some("projector.0.bias"@),
        only_has(name, "multi_modal_projector.linear_2.weight"@) ==> hf_vision_name(name) == Some("projector.2.weight"@),
        only_has(name, "multi_modal_projector.2.weight"@) ==> hf_vision_name(name) == Some("projector.2.weight"@),
        only_has(name, "multi_modal_projector.linear_2.bias"@) ==> hf_vision_name(name) == Some("projector.2.bias"@),
        only_has(name, "multi_modal_projector.2.bias"@) ==> hf_vision_name(name) == Some("projector.2.bias"@),
{
    reveal_strlit("patch_embedding.weight");
    reveal_strlit("patch_embedding.bias");
    reveal_strlit("position_embedding.weight");
    reveal_strlit("post_layernorm.weight");
    reveal_strlit("post_layernorm.bias");
    reveal_strlit("multi_modal_projector.linear_1.weight");
    reveal_strlit("multi_modal_projector.0.weight");
    reveal_strlit("multi_modal_projector.linear_1.bias");
    reveal_strlit("multi_modal_projector.0.bias");
    reveal_strlit("multi_modal_projector.linear_2.weight");
    reveal_strlit("multi_modal_projector.2.weight");
    reveal_strlit("multi_modal_projector.linear_2.bias");
    reveal_strlit("multi_modal_projector.2.bias");
    assert("patch_embedding.weight"@.len() == 22);
    assert("patch_embedding.bias"@.len() == 20);
    assert("position_embedding.weight"@.len() == 25);
    assert("post_layernorm.weight"@.len() == 21);
    assert("post_layernorm.bias"@.len() == 19);
    assert("multi_modal_projector.linear_1.weight"@.len() == 37);
    assert("multi_modal_projector.0.weight"@.len() == 30);
    assert("multi_modal_projector.linear_1.bias"@.len() == 35);
    assert("multi_modal_projector.0.bias"@.len() == 28);
    assert("multi_modal_projector.linear_2.weight"@.len() == 37);
    assert("multi_modal_projector.2.weight"@.len() == 30);
    assert("multi_modal_projector.linear_2.bias"@.len() == 35);
    assert("multi_modal_projector.2.bias"@.len() == 28);
    assert("multi_modal_projector.linear_1.weight"@[29] != "multi_modal_projector.linear_2.weight"@[29]);
    assert("multi_modal_projector.0.weight"@[22] != "multi_modal_projector.2.weight"@[22]);
    assert("multi_modal_projector.linear_1.bias"@[29] != "multi_modal_projector.linear_2.bias"@[29]);
    assert("multi_modal_projector.0.bias"@[22] != "multi_modal_projector.2.bias"@[22]);
    assert(is_mark("patch_embedding.weight"@));
    assert(is_mark("patch_embedding.bias"@));
    assert(is_mark("position_embedding.weight"@));
    assert(is_mark("post_layernorm.weight"@));
    assert(is_mark("post_layernorm.bias"@));
    assert(is_mark("multi_modal_projector.linear_1.weight"@));
    assert(is_mark("multi_modal_projector.0.weight"@));
    assert(is_mark("multi_modal_projector.linear_1.bias"@));
    assert(is_mark("multi_modal_projector.0.bias"@));
    assert(is_mark("multi_modal_projector.linear_2.weight"@));
    assert(is_mark("multi_modal_projector.2.weight"@));
    assert(is_mark("multi_modal_projector.linear_2.bias"@));
    assert(is_mark("multi_modal_projector.2.bias"@));
}

/// A name without any of the marks belongs to a layer, if it says so, and
/// otherwise nowhere.
pub proof fn law_other_names(name: Text)
    requires
        forall|mark: Text| #[trigger] is_mark(mark) ==> !(has(name, mark)),
    ensures
        has(name, "encoder.layers."@) ==> hf_vision_name(name) == hf_layer_name(
            "vision.layers."@,
            name,
        ),
        !(has(name, "encoder.layers."@)) ==> hf_vision_name(name) is None,
{
    assert(is_mark("patch_embedding.weight"@));
    assert(is_mark("patch_embedding.bias"@));
    assert(is_mark("position_embedding.weight"@));
    assert(is_mark("post_layernorm.weight"@));
    assert(is_mark("post_layernorm.bias"@));
    assert(is_mark("multi_modal_projector.linear_1.weight"@));
    assert(is_mark("multi_modal_projector.linear_1.bias"@));
    assert(is_mark("multi_modal_projector.0.weight"@));
    assert(is_mark("multi_modal_projector.0.bias"@));
    assert(is_mark("multi_modal_projector.linear_2.weight"@));
    assert(is_mark("multi_modal_projector.linear_2.bias"@));
    assert(is_mark("multi_modal_projector.2.weight"@));
    assert(is_mark("multi_modal_projector.2.bias"@));
}

/// The names are those of a GGUF projector file if one of them begins with `v.`
/// or `mm.`, and otherwise those of a Hugging Face checkpoint.
pub proof fn law_naming(names: Seq<Text>, i: int)
    ensures
        0 <= i < names.len() && begins(names[i], "v."@) ==> is_gguf_naming(names),
        0 <= i < names.len() && begins(names[i], "mm."@) ==> is_gguf_naming(names),
        (forall|k: int|
            0 <= k < names.len() ==> !(begins(#[trigger] names[k], "v."@)) && !(begins(
                names[k],
                "mm."@,
            ))) ==> !is_gguf_naming(names),
{
}

/// In the plan of an encoder the queries, keys and values of a layer are joined
/// in this order along the second axis, and every tensor that is neither stays
/// in the place that it was found for.
pub proof fn law_plan_is_right(
    names: Seq<Text>,
    shapes: Seq<Seq<usize>>,
    num_layers: nat,
    layer: nat,
    name: Text,
)
    requires
        num_layers <= usize::MAX,
    ensures
        vision_plan(names, shapes, num_layers) matches Ok(plan) ==> (vision_places(
            is_gguf_naming(names),
            names,
        ) matches Ok(m) && {
            &&& layer < num_layers ==> layer_is_fused(plan, m, shapes, "vision.layers."@, 1, layer)
            &&& !(is_fused("vision.layers."@, num_layers, name)) ==> {
                &&& plan.contains_key(name) <==> m.contains_key(name) && !(is_separate(
                    "vision.layers."@,
                    name,
                ))
                &&& plan.contains_key(name) ==> plan[name] == Source::Raw(m[name])
            }
        }),
{
    if vision_plan(names, shapes, num_layers) is Ok {
        let m = vision_places(is_gguf_naming(names), names)->Ok_0;
        if layer < num_layers {
            law_layers_are_fused(m, shapes, "vision.layers."@, 1, num_layers, layer);
        }
        if !(is_fused("vision.layers."@, num_layers, name)) {
            law_others_are_kept(m, shapes, "vision.layers."@, 1, num_layers, name);
        }
    }
}

} // verus!
