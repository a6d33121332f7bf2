//! Choosing what to download from a model hub.
use vstd::prelude::*;
use vstd::utf8::encode_utf8;
use crate::json::{as_text, field, field_of, get, get_in, str_of, Json};
use crate::profile::{device_for, headroom, with_headroom, BackendChoice, HardwareProfile, OutOfMemory};
use crate::text::{
    chars_of, contains, cut_at_last, cut_back, ends, ends_with, free_of, has, join2, law_cut_back,
    lowercase, same, slice_string, strip_suffix, texts, to_lowercase, Text,
};

verus! {

/// A file of a repository.
#[derive(Debug, Clone)]
pub struct TreeEntry<S = String> {
    pub path: S,
    pub size: Option<u64>,
}

impl View for TreeEntry {
    type V = TreeEntry<Text>;

    open spec fn view(&self) -> TreeEntry<Text> {
        TreeEntry { path: self.path@, size: self.size }
    }
}

/// A weight file and how it is quantized.
#[derive(Debug, Clone)]
pub struct QuantVariant<S = String> {
    pub filename: S,
    pub size_bytes: Option<u64>,
    pub quant_label: S,
    pub is_mmproj: bool,
}

impl View for QuantVariant {
    type V = QuantVariant<Text>;

    open spec fn view(&self) -> QuantVariant<Text> {
        QuantVariant {
            filename: self.filename@,
            size_bytes: self.size_bytes,
            quant_label: self.quant_label@,
            is_mmproj: self.is_mmproj,
        }
    }
}

pub open spec fn letter(c: char) -> bool {
    ('a' <= c && c <= 'z') || ('A' <= c && c <= 'Z')
}

pub open spec fn alphanumeric(c: char) -> bool {
    letter(c) || ('0' <= c && c <= '9')
}

fn is_letter(c: char) -> (b: bool)
    ensures
        b == letter(c),
{
    ('a' <= c && c <= 'z') || ('A' <= c && c <= 'Z')
}

fn is_alphanumeric(c: char) -> (b: bool)
    ensures
        b == alphanumeric(c),
{
    is_letter(c) || ('0' <= c && c <= '9')
}

/// An ASCII letter in upper case.
pub open spec fn upper(c: char) -> char {
    if 'a' <= c && c <= 'z' {
        (c as int - 32) as char
    } else {
        c
    }
}

fn to_upper(c: char) -> (r: char)
    ensures
        r == upper(c),
{
    if 'a' <= c && c <= 'z' {
        ((c as u8) - 32) as char
    } else {
        c
    }
}

/// The pieces of a text between dashes and dots.
pub open spec fn segments(s: Text) -> Seq<Text>
    decreases s.len(),
{
    if s.len() == 0 {
        seq![Seq::empty()]
    } else {
        let before = segments(s.drop_last());
        if s.last() == '-' || s.last() == '.' {
            before.push(Seq::empty())
        } else {
            before.drop_last().push(before.last().push(s.last()))
        }
    }
}

fn split_segments(s: &str) -> (out: Vec<String>)
    ensures
        texts(out@) == segments(s@),
        out@.len() >= 1,
{
    let chars = chars_of(s);
    let mut out: Vec<String> = Vec::new();
    let mut last = String::new();
    assert(texts(out@).push(last@) =~= segments(s@.take(0)));
    let mut i: usize = 0;
    while i < chars.len()
        invariant
            i <= chars@.len(),
            chars@ == s@,
            texts(out@).push(last@) == segments(s@.take(i as int)),
        decreases chars@.len() - i,
    {
        let c = chars[i];
        let ghost front = s@.take(i + 1);
        assert(front.drop_last() =~= s@.take(i as int));
        assert(front.last() == c);
        let ghost done = out@;
        let ghost word = last@;
        let ghost before = texts(done).push(word);
        assert(before.drop_last() =~= texts(done));
        assert(before.last() == word);
        if c == '-' || c == '.' {
            out.push(last);
            last = String::new();
            assert(texts(out@) =~= texts(done).push(word));
        } else {
            last.push(c);
        }
        assert(texts(out@).push(last@) =~= segments(front));
        i += 1;
    }
    assert(s@.take(i as int) =~= s@);
    let ghost done = out@;
    let ghost word = last@;
    out.push(last);
    assert(texts(out@) =~= texts(done).push(word));
    out
}

/// The shape of a quantization's name: a letter, then letters, digits and
/// underscores.
pub open spec fn label_like(s: Text) -> bool {
    s.len() >= 2 && letter(s[0]) && forall|i: int|
        0 <= i < s.len() ==> alphanumeric(#[trigger] s[i]) || s[i] == '_'
}

fn is_label_like(chars: &Vec<char>) -> (b: bool)
    ensures
        b == label_like(chars@),
{
    if chars.len() < 2 || !is_letter(chars[0]) {
        return false;
    }
    let mut i: usize = 0;
    while i < chars.len()
        invariant
            i <= chars@.len(),
            forall|k: int| 0 <= k < i ==> alphanumeric(#[trigger] chars@[k]) || chars@[k] == '_',
        decreases chars@.len() - i,
    {
        if !is_alphanumeric(chars[i]) && chars[i] != '_' {
            assert(!alphanumeric(chars@[i as int]) && chars@[i as int] != '_');
            return false;
        }
        i += 1;
    }
    true
}

/// A text in upper case, as far as it is ASCII.
pub open spec fn uppercase(s: Text) -> Text {
    s.map_values(|c: char| upper(c))
}

fn to_uppercase(chars: &Vec<char>) -> (out: String)
    ensures
        out@ == uppercase(chars@),
{
    let mut out = String::new();
    let mut i: usize = 0;
    while i < chars.len()
        invariant
            i <= chars@.len(),
            out@ == uppercase(chars@.take(i as int)),
        decreases chars@.len() - i,
    {
        out.push(to_upper(chars[i]));
        assert(uppercase(chars@.take(i + 1)) =~= uppercase(chars@.take(i as int)).push(
            upper(chars@[i as int]),
        ));
        i += 1;
    }
    assert(chars@.take(i as int) =~= chars@);
    out
}

/// The last of the segments before `n`, of at most `tries`, that looks like a
/// label.
pub open spec fn label_among(parts: Seq<Text>, n: nat, tries: nat) -> Text
    decreases tries,
{
    if n == 0 || tries == 0 {
        "unknown"@
    } else if label_like(parts[n - 1]) {
        uppercase(parts[n - 1])
    } else {
        label_among(parts, (n - 1) as nat, (tries - 1) as nat)
    }
}

/// A file name without its extension.
pub open spec fn without_gguf(name: Text) -> Text {
    if ends(name, ".gguf"@) {
        name.take(name.len() - ".gguf"@.len())
    } else {
        name
    }
}

/// The quantization that a file's name tells of.
pub open spec fn label_of(filename: Text) -> Text {
    let parts = segments(without_gguf(filename));
    label_among(parts, parts.len(), 3)
}

/// Reads the quantization (`Q4_K_M`, `Q8_0`, ...) out of a file's name: the
/// last of its final three segments that has the shape of one, whatever names
/// there may be.
pub fn extract_quant_label(filename: &str) -> (out: String)
    ensures
        out@ == label_of(filename@),
{
    let stem = match strip_suffix(filename, ".gguf") {
        Some(s) => s,
        None => filename.to_string(),
    };
    let parts = split_segments(&stem);
    let ghost all = texts(parts@);
    let mut n: usize = parts.len();
    let mut tries: usize = 3;
    while n > 0 && tries > 0
        invariant
            n <= parts@.len(),
            all == texts(parts@),
            all == segments(without_gguf(filename@)),
            label_among(all, all.len(), 3) == label_among(all, n as nat, tries as nat),
        decreases n,
    {
        let chars = chars_of(&parts[n - 1]);
        assert(all[n - 1] == chars@);
        if is_label_like(&chars) {
            return to_uppercase(&chars);
        }
        n -= 1;
        tries -= 1;
    }
    "unknown".to_string()
}

/// A weight file's description.
pub open spec fn variant_of(e: TreeEntry<Text>) -> QuantVariant<Text> {
    let mmproj = has(lowercase(e.path), "mmproj"@);
    QuantVariant {
        filename: e.path,
        size_bytes: e.size,
        quant_label: if mmproj {
            "mmproj"@
        } else {
            label_of(e.path)
        },
        is_mmproj: mmproj,
    }
}

/// The GGUF files among the entries, in order.
pub open spec fn variants_of(entries: Seq<TreeEntry<Text>>) -> Seq<QuantVariant<Text>>
    decreases entries.len(),
{
    if entries.len() == 0 {
        Seq::empty()
    } else {
        let before = variants_of(entries.drop_last());
        if ends(entries.last().path, ".gguf"@) {
            before.push(variant_of(entries.last()))
        } else {
            before
        }
    }
}

/// Entries without their representation.
pub open spec fn tree(entries: Seq<TreeEntry>) -> Seq<TreeEntry<Text>> {
    entries.map_values(|e: TreeEntry| e@)
}

/// Variants without their representation.
pub open spec fn described(variants: Seq<QuantVariant>) -> Seq<QuantVariant<Text>> {
    variants.map_values(|v: QuantVariant| v@)
}

/// Finds the GGUF files of a repository.
pub fn classify_gguf_variants(entries: &[TreeEntry]) -> (out: Vec<QuantVariant>)
    ensures
        described(out@) == variants_of(tree(entries@)),
{
    let mut out: Vec<QuantVariant> = Vec::new();
    assert(described(out@) =~= variants_of(tree(entries@).take(0)));
    let mut i: usize = 0;
    while i < entries.len()
        invariant
            i <= entries@.len(),
            described(out@) == variants_of(tree(entries@).take(i as int)),
        decreases entries@.len() - i,
    {
        let ghost front = tree(entries@).take(i + 1);
        assert(front.drop_last() =~= tree(entries@).take(i as int));
        assert(front.last() == entries@[i as int]@);
        let ghost before = out@;
        let e = &entries[i];
        if ends_with(&e.path, ".gguf") {
            let is_mmproj = contains(&to_lowercase(&e.path), "mmproj");
            let quant_label = if is_mmproj {
                "mmproj".to_string()
            } else {
                extract_quant_label(&e.path)
            };
            out.push(
                QuantVariant {
                    filename: e.path.clone(),
                    size_bytes: e.size,
                    quant_label,
                    is_mmproj,
                },
            );
            assert(described(out@) =~= described(before).push(variant_of(entries@[i as int]@)));
        }
        i += 1;
    }
    assert(tree(entries@).take(i as int) =~= tree(entries@));
    out
}

/// The memory that a model may fill: the card's where one is used and was
/// measured, else the system's.
pub open spec fn available(p: HardwareProfile) -> u64 {
    match p.gpu_vram_free_bytes {
        Some(free) => if p.backend != BackendChoice::Cpu {
            free
        } else {
            p.system_ram_free_bytes
        },
        None => p.system_ram_free_bytes,
    }
}

/// The memory that a model may fill.
pub fn available_memory(profile: &HardwareProfile) -> (n: u64)
    ensures
        n == available(*profile),
{
    match profile.gpu_vram_free_bytes {
        Some(free) => if profile.backend != BackendChoice::Cpu {
            free
        } else {
            profile.system_ram_free_bytes
        },
        None => profile.system_ram_free_bytes,
    }
}

/// A model that fits with headroom.
pub open spec fn eligible(v: QuantVariant<Text>, memory: u64) -> bool {
    !v.is_mmproj && v.size_bytes is Some && headroom(v.size_bytes->0 as nat) < memory
}

/// `i` is the largest model that fits, the last of several.
pub open spec fn is_recommended(variants: Seq<QuantVariant<Text>>, memory: u64, i: int) -> bool {
    &&& 0 <= i < variants.len()
    &&& eligible(variants[i], memory)
    &&& forall|j: int|
        0 <= j < variants.len() && eligible(#[trigger] variants[j], memory)
            ==> variants[j].size_bytes->0 <= variants[i].size_bytes->0 && (
        variants[j].size_bytes->0 == variants[i].size_bytes->0 ==> j <= i)
}

/// Recommends the largest model that fits this machine's memory with the same
/// headroom that is asked for on loading.
pub fn recommend_variant<'a>(variants: &'a [QuantVariant], profile: &HardwareProfile) -> (r: Option<
    &'a QuantVariant,
>)
    ensures
        ({
            let all = described(variants@);
            let memory = available(*profile);
            match r {
                Some(v) => exists|i: int|
                    #![trigger all[i]]
                    is_recommended(all, memory, i) && *v == variants@[i],
                None => forall|i: int|
                    0 <= i < all.len() ==> !eligible(#[trigger] all[i], memory),
            }
        }),
{
    let memory = available_memory(profile);
    let ghost all = described(variants@);
    let mut best: Option<usize> = None;
    let mut i: usize = 0;
    while i < variants.len()
        invariant
            i <= variants@.len(),
            all == described(variants@),
            match best {
                Some(b) => b < i && is_recommended(all.take(i as int), memory, b as int),
                None => forall|k: int| 0 <= k < i ==> !eligible(#[trigger] all[k], memory),
            },
        decreases variants@.len() - i,
    {
        let v = &variants[i];
        assert(all[i as int] == v@);
        let ghost now = all.take(i as int);
        let ghost next = all.take(i + 1);
        assert(forall|k: int| 0 <= k < i ==> now[k] == #[trigger] next[k]);
        assert(next[i as int] == all[i as int]);
        let fits = match v.size_bytes {
            Some(n) => !v.is_mmproj && with_headroom(n) < memory,
            None => false,
        };
        if fits {
            let better = match best {
                Some(b) => {
                    assert(now[b as int] == all[b as int]);
                    assert(all[b as int] == variants@[b as int]@);
                    let mine: u64 = match v.size_bytes {
                        Some(n) => n,
                        None => 0,
                    };
                    let other: u64 = match variants[b].size_bytes {
                        Some(n) => n,
                        None => 0,
                    };
                    mine >= other
                },
                None => true,
            };
            if better {
                proof {
                    assert forall|j: int|
                        0 <= j < next.len() && eligible(#[trigger] next[j], memory) implies next[j].size_bytes->0
                        <= next[i as int].size_bytes->0 && (next[j].size_bytes->0
                        == next[i as int].size_bytes->0 ==> j <= i) by {
                        if j < i {
                            assert(next[j] == now[j]);
                            if best is Some {
                                assert(eligible(now[j], memory));
                                assert(now[j].size_bytes->0 <= now[best->0 as int].size_bytes->0);
                            } else {
                                assert(!eligible(all[j], memory));
                            }
                        }
                    }
                }
                best = Some(i);
            } else {
                proof {
                    let b = best->0 as int;
                    assert(next[b] == now[b]);
                    assert forall|j: int|
                        0 <= j < next.len() && eligible(#[trigger] next[j], memory) implies next[j].size_bytes->0
                        <= next[b].size_bytes->0 && (next[j].size_bytes->0 == next[b].size_bytes->0
                        ==> j <= b) by {
                        if j < i {
                            assert(eligible(now[j], memory));
                        }
                    }
                }
            }
        } else {
            proof {
                assert(!eligible(all[i as int], memory));
                if best is Some {
                    let b = best->0 as int;
                    assert(next[b] == now[b]);
                    assert forall|j: int|
                        0 <= j < next.len() && eligible(#[trigger] next[j], memory) implies next[j].size_bytes->0
                        <= next[b].size_bytes->0 && (next[j].size_bytes->0 == next[b].size_bytes->0
                        ==> j <= b) by {
                        if j < i {
                            assert(eligible(now[j], memory));
                        }
                    }
                }
            }
        }
        i += 1;
    }
    assert(all.take(i as int) =~= all);
    match best {
        Some(b) => {
            assert(is_recommended(all, memory, b as int));
            assert(all[b as int] == variants@[b as int]@);
            Some(&variants[b])
        },
        None => None,
    }
}

/// A recommended model passes the test that is made when it is loaded: a device
/// takes it, and where CUDA is used and its memory was measured it is the card.
/// Only where another card reports more memory than the machine has free can a
/// model be recommended that loading, which looks at the machine's memory alone,
/// then refuses. Every larger model that could be chosen needs all the memory
/// that is free, or more.
pub proof fn law_recommended_fits(
    variants: Seq<QuantVariant<Text>>,
    profile: HardwareProfile,
    i: int,
    j: int,
)
    requires
        is_recommended(variants, available(profile), i),
    ensures
        profile.backend == BackendChoice::Cuda || available(profile)
            <= profile.system_ram_free_bytes ==> device_for(profile, variants[i].size_bytes->0) is Ok,
        profile.backend != BackendChoice::Cuda ==> (device_for(
            profile,
            variants[i].size_bytes->0,
        ) is Ok <==> headroom(variants[i].size_bytes->0 as nat) < profile.system_ram_free_bytes),
        profile.backend == BackendChoice::Cuda && profile.gpu_vram_free_bytes is Some
            ==> device_for(profile, variants[i].size_bytes->0) == Ok::<BackendChoice, OutOfMemory>(
            BackendChoice::Cuda,
        ),
        0 <= j < variants.len() && !variants[j].is_mmproj && variants[j].size_bytes is Some
            && variants[j].size_bytes->0 > variants[i].size_bytes->0 ==> headroom(
            variants[j].size_bytes->0 as nat,
        ) >= available(profile),
{
    if 0 <= j < variants.len() && variants[j].size_bytes is Some && variants[j].size_bytes->0
        > variants[i].size_bytes->0 {
        assert(!eligible(variants[j], available(profile)));
    }
}

/// The size that a projector is compared by.
pub open spec fn weight_of(v: QuantVariant<Text>) -> u64 {
    match v.size_bytes {
        Some(n) => n,
        None => u64::MAX,
    }
}

/// `i` is the smallest projector, the first of several.
pub open spec fn is_projector(variants: Seq<QuantVariant<Text>>, i: int) -> bool {
    &&& 0 <= i < variants.len()
    &&& variants[i].is_mmproj
    &&& forall|j: int|
        0 <= j < variants.len() && (#[trigger] variants[j]).is_mmproj ==> weight_of(variants[i])
            <= weight_of(variants[j]) && (weight_of(variants[i]) == weight_of(variants[j]) ==> i
            <= j)
}

/// The projector to download with a model: the smallest there is.
pub fn find_matching_mmproj<'a>(text_filename: &str, variants: &'a [QuantVariant]) -> (r: Option<
    &'a QuantVariant,
>)
    ensures
        ({
            let all = described(variants@);
            match r {
                Some(v) => text_filename@.len() > 0 && exists|i: int|
                    #![trigger all[i]]
                    is_projector(all, i) && *v == variants@[i],
                None => text_filename@.len() == 0 || forall|i: int|
                    0 <= i < all.len() ==> !(#[trigger] all[i]).is_mmproj,
            }
        }),
{
    if chars_of(text_filename).len() == 0 {
        return None;
    }
    let ghost all = described(variants@);
    let mut best: Option<usize> = None;
    let mut i: usize = 0;
    while i < variants.len()
        invariant
            i <= variants@.len(),
            all == described(variants@),
            match best {
                Some(b) => b < i && is_projector(all.take(i as int), b as int),
                None => forall|k: int| 0 <= k < i ==> !(#[trigger] all[k]).is_mmproj,
            },
        decreases variants@.len() - i,
    {
        let v = &variants[i];
        assert(all[i as int] == v@);
        let ghost now = all.take(i as int);
        let ghost next = all.take(i + 1);
        assert(forall|k: int| 0 <= k < i ==> now[k] == #[trigger] next[k]);
        assert(next[i as int] == all[i as int]);
        if v.is_mmproj {
            let smaller = match best {
                Some(b) => {
                    assert(now[b as int] == all[b as int]);
                    assert(all[b as int] == variants@[b as int]@);
                    let mine: u64 = match v.size_bytes {
                        Some(n) => n,
                        None => u64::MAX,
                    };
                    let other: u64 = match variants[b].size_bytes {
                        Some(n) => n,
                        None => u64::MAX,
                    };
                    mine < other
                },
                None => true,
            };
            if smaller {
                proof {
                    assert forall|j: int| 0 <= j < next.len() && (#[trigger] next[j]).is_mmproj implies weight_of(next[i as int])
                        <= weight_of(next[j]) && (weight_of(next[i as int]) == weight_of(next[j])
                        ==> i <= j) by {
                        if j < i {
                            assert(next[j] == now[j]);
                            if best is Some {
                                assert(weight_of(now[best->0 as int]) <= weight_of(now[j]));
                            } else {
                                assert(!all[j].is_mmproj);
                            }
                        }
                    }
                }
                best = Some(i);
            } else {
                proof {
                    let b = best->0 as int;
                    assert(next[b] == now[b]);
                    assert forall|j: int| 0 <= j < next.len() && (#[trigger] next[j]).is_mmproj implies weight_of(next[b])
                        <= weight_of(next[j]) && (weight_of(next[b]) == weight_of(next[j]) ==> b
                        <= j) by {
                        if j < i {
                            assert(now[j].is_mmproj);
                        }
                    }
                }
            }
        } else {
            proof {
                if best is Some {
                    let b = best->0 as int;
                    assert(next[b] == now[b]);
                    assert forall|j: int| 0 <= j < next.len() && (#[trigger] next[j]).is_mmproj implies weight_of(next[b])
                        <= weight_of(next[j]) && (weight_of(next[b]) == weight_of(next[j]) ==> b
                        <= j) by {
                        assert(now[j].is_mmproj);
                    }
                }
            }
        }
        i += 1;
    }
    assert(all.take(i as int) =~= all);
    match best {
        Some(b) => {
            assert(is_projector(all, b as int));
            assert(all[b as int] == variants@[b as int]@);
            Some(&variants[b])
        },
        None => None,
    }
}

/// A character that a directory's name keeps.
pub open spec fn plain(c: char) -> char {
    if alphanumeric(c) || c == '-' || c == '_' || c == '.' {
        c
    } else {
        '_'
    }
}

/// A directory's name for `name`.
pub open spec fn sanitized(name: Text) -> Text {
    name.map_values(|c: char| plain(c))
}

/// Replaces every character that a directory's name should not have.
pub fn sanitize_dirname(name: &str) -> (out: String)
    ensures
        out@ == sanitized(name@),
{
    let chars = chars_of(name);
    let mut out = String::new();
    let mut i: usize = 0;
    while i < chars.len()
        invariant
            i <= chars@.len(),
            chars@ == name@,
            out@ == sanitized(name@.take(i as int)),
        decreases chars@.len() - i,
    {
        let c = chars[i];
        if is_alphanumeric(c) || c == '-' || c == '_' || c == '.' {
            out.push(c);
        } else {
            out.push('_');
        }
        assert(sanitized(name@.take(i + 1)) =~= sanitized(name@.take(i as int)).push(
            plain(name@[i as int]),
        ));
        i += 1;
    }
    assert(name@.take(i as int) =~= name@);
    out
}

/// What stands behind the last slash.
pub open spec fn repo_name(repo: Text) -> Text {
    match cut_back(repo, '/') {
        Some((_, name)) => name,
        None => repo,
    }
}

/// Where a repository is downloaded to, unless the user says.
pub fn default_output_dir(repo: &str) -> (out: String)
    ensures
        out@ == "models/"@ + sanitized(repo_name(repo@)),
{
    let name = match cut_at_last(repo, '/') {
        Some((_, name)) => name,
        None => repo.to_string(),
    };
    join2("models/", &sanitize_dirname(&name))
}

/// A download stays below its directory: the name it is given there holds no
/// slash.
pub proof fn law_output_dir_has_no_slash(repo: Text, i: int)
    requires
        0 <= i < sanitized(repo_name(repo)).len(),
    ensures
        sanitized(repo_name(repo))[i] != '/',
{
}

/// `s` ends in `-gguf`, in any case.
pub open spec fn gguf_named(s: Text) -> bool {
    s.len() >= 5 && uppercase(s.skip(s.len() - 5)) == "-GGUF"@
}

/// A quantization's name as repositories carry it, in any case: `Q` or `IQ`
/// and a digit, with letters, digits and underscores behind it, or the name of
/// an unquantized type.
pub open spec fn quant_named(s: Text) -> bool {
    let u = uppercase(s);
    ||| u == "F16"@
    ||| u == "BF16"@
    ||| u == "F32"@
    ||| label_like(u) && u[0] == 'Q' && '0' <= u[1] <= '9'
    ||| label_like(u) && u.len() >= 3 && u[0] == 'I' && u[1] == 'Q' && '0' <= u[2] <= '9'
}

fn is_quant_named(s: &str) -> (b: bool)
    ensures
        b == quant_named(s@),
{
    let upper = to_uppercase(&chars_of(s));
    if same(&upper, "F16") || same(&upper, "BF16") || same(&upper, "F32") {
        return true;
    }
    let chars = chars_of(&upper);
    if !is_label_like(&chars) {
        return false;
    }
    (chars[0] == 'Q' && '0' <= chars[1] && chars[1] <= '9') || (chars.len() >= 3 && chars[0] == 'I'
        && chars[1] == 'Q' && '0' <= chars[2] && chars[2] <= '9')
}

/// A name without the quantization behind its last dash, where one stands
/// there.
pub open spec fn without_quant(name: Text) -> Text {
    match cut_back(name, '-') {
        Some((front, tail)) => if quant_named(tail) {
            front
        } else {
            name
        },
        None => name,
    }
}

/// The repository that a repository of GGUF files was likely made from: its
/// name without `-GGUF` at the end, and without a quantization in front of
/// that, as in `-Q4_K_M-GGUF`.
pub fn strip_gguf_suffix(repo: &str) -> (r: Option<String>)
    ensures
        match r {
            Some(base) => gguf_named(repo@) && base@ == without_quant(
                repo@.take(repo@.len() - 5),
            ),
            None => !gguf_named(repo@),
        },
{
    let chars = chars_of(repo);
    let n: usize = chars.len();
    if n < 5 {
        return None;
    }
    let mut tail: Vec<char> = Vec::new();
    tail.push(chars[n - 5]);
    tail.push(chars[n - 4]);
    tail.push(chars[n - 3]);
    tail.push(chars[n - 2]);
    tail.push(chars[n - 1]);
    assert(tail@ =~= repo@.skip(n - 5));
    if !same(&to_uppercase(&tail), "-GGUF") {
        return None;
    }
    assert(chars@.subrange(0, n - 5) =~= repo@.take(n - 5));
    let name: String = slice_string(&chars, 0, n - 5);
    match cut_at_last(&name, '-') {
        Some((front, label)) => if is_quant_named(&label) {
            Some(front)
        } else {
            Some(name)
        },
        None => Some(name),
    }
}

/// A hexadecimal digit in upper case.
pub open spec fn hex_digit(n: int) -> char {
    if n < 10 {
        ('0' as int + n) as char
    } else {
        ('A' as int + n - 10) as char
    }
}

fn hex_char(n: u8) -> (c: char)
    requires
        n < 16,
    ensures
        c == hex_digit(n as int),
{
    if n < 10 {
        (48 + n) as char
    } else {
        (55 + n) as char
    }
}

/// Bytes, each as a percent sign and two digits.
pub open spec fn percent(bytes: Seq<u8>) -> Text
    decreases bytes.len(),
{
    if bytes.len() == 0 {
        Seq::empty()
    } else {
        percent(bytes.drop_last()) + seq![
            '%',
            hex_digit(bytes.last() as int / 16),
            hex_digit(bytes.last() as int % 16),
        ]
    }
}

/// A character as it stands in a query.
pub open spec fn encoded_char(c: char) -> Text {
    if alphanumeric(c) || c == '-' || c == '_' || c == '.' || c == '~' {
        seq![c]
    } else if c == ' ' {
        seq!['+']
    } else {
        percent(encode_utf8(seq![c]))
    }
}

/// A text as it stands in a query.
pub open spec fn encoded(s: Text) -> Text
    decreases s.len(),
{
    if s.len() == 0 {
        Seq::empty()
    } else {
        encoded(s.drop_last()) + encoded_char(s.last())
    }
}

fn push_percent(out: &mut String, c: char)
    ensures
        final(out)@ == old(out)@ + percent(encode_utf8(seq![c])),
{
    let mut one = String::new();
    one.push(c);
    assert(one@ =~= seq![c]);
    let bytes = one.as_str().as_bytes();
    let ghost before = out@;
    assert(bytes@.take(0) =~= Seq::<u8>::empty());
    assert(out@ =~= before + percent(bytes@.take(0)));
    let mut i: usize = 0;
    while i < bytes.len()
        invariant
            i <= bytes@.len(),
            out@ == before + percent(bytes@.take(i as int)),
        decreases bytes@.len() - i,
    {
        let ghost front = bytes@.take(i + 1);
        assert(front.drop_last() =~= bytes@.take(i as int));
        assert(front.last() == bytes@[i as int]);
        let ghost so_far = out@;
        out.push('%');
        out.push(hex_char(bytes[i] / 16));
        out.push(hex_char(bytes[i] % 16));
        assert(out@ =~= so_far + seq![
            '%',
            hex_digit(bytes@[i as int] as int / 16),
            hex_digit(bytes@[i as int] as int % 16),
        ]);
        assert(out@ =~= before + percent(front));
        i += 1;
    }
    assert(bytes@.take(i as int) =~= bytes@);
}

/// Writes a text as the value of a query.
pub fn urlencode(s: &str) -> (out: String)
    ensures
        out@ == encoded(s@),
{
    let chars = chars_of(s);
    let mut out = String::new();
    assert(out@ =~= encoded(s@.take(0)));
    let mut i: usize = 0;
    while i < chars.len()
        invariant
            i <= chars@.len(),
            chars@ == s@,
            out@ == encoded(s@.take(i as int)),
        decreases chars@.len() - i,
    {
        let c = chars[i];
        let ghost front = s@.take(i + 1);
        assert(front.drop_last() =~= s@.take(i as int));
        assert(front.last() == c);
        let ghost before = out@;
        if is_alphanumeric(c) || c == '-' || c == '_' || c == '.' || c == '~' {
            out.push(c);
            assert(out@ =~= before + encoded_char(c));
        } else if c == ' ' {
            out.push('+');
            assert(out@ =~= before + encoded_char(c));
        } else {
            push_percent(&mut out, c);
        }
        i += 1;
    }
    assert(s@.take(i as int) =~= s@);
    out
}

/// A character that may stand in a query.
pub open spec fn query_safe(c: char) -> bool {
    alphanumeric(c) || c == '-' || c == '_' || c == '.' || c == '~' || c == '+' || c == '%'
}

proof fn lemma_percent_safe(bytes: Seq<u8>)
    ensures
        forall|i: int| 0 <= i < percent(bytes).len() ==> query_safe(#[trigger] percent(bytes)[i]),
    decreases bytes.len(),
{
    if bytes.len() > 0 {
        lemma_percent_safe(bytes.drop_last());
        let before = percent(bytes.drop_last());
        assert forall|i: int| 0 <= i < percent(bytes).len() implies query_safe(
            #[trigger] percent(bytes)[i],
        ) by {
            if i < before.len() {
                assert(query_safe(before[i]));
            }
        }
    }
}

/// An encoded text holds nothing that could end a query's value or begin
/// another.
pub proof fn law_encoded_is_safe(s: Text)
    ensures
        forall|i: int| 0 <= i < encoded(s).len() ==> query_safe(#[trigger] encoded(s)[i]),
    decreases s.len(),
{
    if s.len() > 0 {
        law_encoded_is_safe(s.drop_last());
        lemma_percent_safe(encode_utf8(seq![s.last()]));
        let before = encoded(s.drop_last());
        assert forall|i: int| 0 <= i < encoded(s).len() implies query_safe(
            #[trigger] encoded(s)[i],
        ) by {
            if i < before.len() {
                assert(query_safe(before[i]));
            } else {
                assert(encoded(s)[i] == encoded_char(s.last())[i - before.len()]);
            }
        }
    }
}

/// The user named a repository, rather than something to search for.
pub fn is_repo_name(model: &str) -> (b: bool)
    ensures
        b == (has(model@, "/"@) && !(has(model@, " "@))),
{
    contains(model, "/") && !contains(model, " ")
}

/// Where the hub is asked for `model`.
pub fn search_url(base: &str, model: &str) -> (out: String)
    ensures
        out@ == base@ + "/api/models?search="@ + encoded(model@) + "&limit=15"@,
{
    let mut out = base.to_string();
    out.append("/api/models?search=");
    out.append(&urlencode(model));
    out.append("&limit=15");
    out
}

/// Where the files of a repository are listed.
pub fn tree_url(base: &str, repo: &str) -> (out: String)
    ensures
        out@ == base@ + "/api/models/"@ + repo@ + "/tree/main?recursive=true"@,
{
    let mut out = base.to_string();
    out.append("/api/models/");
    out.append(repo);
    out.append("/tree/main?recursive=true");
    out
}

/// Where a file of a repository is.
pub fn file_url(base: &str, repo: &str, filename: &str) -> (out: String)
    ensures
        out@ == base@ + "/"@ + repo@ + "/resolve/main/"@ + filename@,
{
    let mut out = base.to_string();
    out.append("/");
    out.append(repo);
    out.append("/resolve/main/");
    out.append(filename);
    out
}

/// A search's answer.
#[derive(Debug, Clone)]
pub struct SearchResult<S = String> {
    pub id: S,
    pub downloads: i64,
}

impl View for SearchResult {
    type V = SearchResult<Text>;

    open spec fn view(&self) -> SearchResult<Text> {
        SearchResult { id: self.id@, downloads: self.downloads }
    }
}

/// Results without their representation.
pub open spec fn found(results: Seq<SearchResult>) -> Seq<SearchResult<Text>> {
    results.map_values(|r: SearchResult| r@)
}

/// Where a result with so many downloads is put: behind all that have no
/// fewer.
pub open spec fn rank(sorted: Seq<SearchResult<Text>>, downloads: i64) -> int
    decreases sorted.len(),
{
    if sorted.len() == 0 {
        0
    } else if sorted.last().downloads < downloads {
        rank(sorted.drop_last(), downloads)
    } else {
        sorted.len() as int
    }
}

/// Results by downloads, the most first; those with as many in the order given.
pub open spec fn ranked(results: Seq<SearchResult<Text>>) -> Seq<SearchResult<Text>>
    decreases results.len(),
{
    if results.len() == 0 {
        Seq::empty()
    } else {
        let sorted = ranked(results.drop_last());
        sorted.insert(rank(sorted, results.last().downloads), results.last())
    }
}

fn find_rank(sorted: &Vec<SearchResult>, downloads: i64) -> (i: usize)
    ensures
        i == rank(found(sorted@), downloads),
        i <= sorted@.len(),
{
    let mut i: usize = sorted.len();
    assert(found(sorted@).take(i as int) =~= found(sorted@));
    while i > 0
        invariant
            i <= sorted@.len(),
            rank(found(sorted@), downloads) == rank(found(sorted@).take(i as int), downloads),
        decreases i,
    {
        let ghost front = found(sorted@).take(i as int);
        assert(front.last() == sorted@[i - 1]@);
        assert(front.drop_last() =~= found(sorted@).take(i - 1));
        if sorted[i - 1].downloads >= downloads {
            return i;
        }
        i -= 1;
    }
    i
}

/// Orders search results by downloads: the hub's own order does not put the
/// repository first that most users mean.
pub fn rank_results(results: &[SearchResult]) -> (out: Vec<SearchResult>)
    ensures
        found(out@) == ranked(found(results@)),
{
    let mut out: Vec<SearchResult> = Vec::new();
    assert(found(out@) =~= ranked(found(results@).take(0)));
    let mut i: usize = 0;
    while i < results.len()
        invariant
            i <= results@.len(),
            found(out@) == ranked(found(results@).take(i as int)),
        decreases results@.len() - i,
    {
        let ghost front = found(results@).take(i + 1);
        assert(front.drop_last() =~= found(results@).take(i as int));
        assert(front.last() == results@[i as int]@);
        let ghost before = out@;
        let k = find_rank(&out, results[i].downloads);
        let copy = SearchResult { id: results[i].id.clone(), downloads: results[i].downloads };
        out.insert(k, copy);
        assert(found(out@) =~= found(before).insert(k as int, results@[i as int]@));
        i += 1;
    }
    assert(found(results@).take(i as int) =~= found(results@));
    out
}

proof fn lemma_rank_splits(sorted: Seq<SearchResult<Text>>, downloads: i64)
    requires
        forall|i: int, j: int|
            0 <= i <= j < sorted.len() ==> (#[trigger] sorted[i]).downloads >= (
            #[trigger] sorted[j]).downloads,
    ensures
        0 <= rank(sorted, downloads) <= sorted.len(),
        forall|i: int|
            0 <= i < rank(sorted, downloads) ==> (#[trigger] sorted[i]).downloads >= downloads,
        forall|i: int|
            rank(sorted, downloads) <= i < sorted.len() ==> (#[trigger] sorted[i]).downloads
                < downloads,
    decreases sorted.len(),
{
    if sorted.len() > 0 && sorted.last().downloads < downloads {
        let rest = sorted.drop_last();
        assert(forall|i: int| 0 <= i < rest.len() ==> rest[i] == sorted[i]);
        lemma_rank_splits(rest, downloads);
        assert forall|i: int| rank(sorted, downloads) <= i < sorted.len() implies (
        #[trigger] sorted[i]).downloads < downloads by {
            if i < rest.len() {
                assert(rest[i].downloads < downloads);
            }
        }
        assert forall|i: int| 0 <= i < rank(sorted, downloads) implies (#[trigger] sorted[i]).downloads
            >= downloads by {
            assert(rest[i].downloads >= downloads);
        }
    } else if sorted.len() > 0 {
        assert forall|i: int| 0 <= i < sorted.len() implies (#[trigger] sorted[i]).downloads
            >= downloads by {
            assert(sorted[i].downloads >= sorted[sorted.len() - 1].downloads);
        }
    }
}

/// Ranking keeps every result, and none stands behind one with fewer
/// downloads.
pub proof fn law_ranked_by_downloads(results: Seq<SearchResult<Text>>)
    ensures
        ranked(results).to_multiset() == results.to_multiset(),
        ranked(results).len() == results.len(),
        forall|i: int, j: int|
            0 <= i <= j < ranked(results).len() ==> (#[trigger] ranked(results)[i]).downloads >= (
            #[trigger] ranked(results)[j]).downloads,
    decreases results.len(),
{
    broadcast use vstd::seq_lib::group_to_multiset_ensures;

    if results.len() > 0 {
        let rest = results.drop_last();
        law_ranked_by_downloads(rest);
        let sorted = ranked(rest);
        let r = results.last();
        let k = rank(sorted, r.downloads);
        lemma_rank_splits(sorted, r.downloads);
        assert(rest.push(r) =~= results);
        let out = sorted.insert(k, r);
        assert(out.to_multiset() =~= sorted.to_multiset().insert(r));
        assert forall|i: int, j: int| 0 <= i <= j < out.len() implies (#[trigger] out[i]).downloads
            >= (#[trigger] out[j]).downloads by {
            let a = if i < k {
                i
            } else {
                i - 1
            };
            let b = if j < k {
                j
            } else {
                j - 1
            };
            if i != k && j != k {
                assert(out[i] == sorted[a] && out[j] == sorted[b]);
            } else if i == k && j != k {
                assert(out[j] == sorted[b]);
                assert(sorted[b].downloads < r.downloads);
            } else if j == k && i != k {
                assert(out[i] == sorted[a]);
                assert(sorted[a].downloads >= r.downloads);
            }
        }
    } else {
        assert(ranked(results) =~= results);
    }
}

/// Why no repository was picked.
#[derive(Debug, Clone, Copy, PartialEq, Eq, Structural)]
pub enum PickError {
    NoResults,
    OutOfRange { results: usize },
}

/// The repository at place `pick` of the ranking.
pub fn pick_result(results: &[SearchResult], pick: usize) -> (r: Result<String, PickError>)
    ensures
        match r {
            Ok(id) => pick < results@.len() && id@ == found(results@)[pick as int].id,
            Err(PickError::NoResults) => results@.len() == 0,
            Err(PickError::OutOfRange { results: n }) => results@.len() > 0 && n == results@.len()
                && pick >= results@.len(),
        },
{
    if results.len() == 0 {
        Err(PickError::NoResults)
    } else if pick < results.len() {
        Ok(results[pick].id.clone())
    } else {
        Err(PickError::OutOfRange { results: results.len() })
    }
}

/// A variant that the user's words name: its file, or its label in any case.
pub open spec fn named(v: QuantVariant<Text>, want: Text) -> bool {
    v.filename == want || uppercase(v.quant_label) == uppercase(want)
}

/// The first variant that the user's words name.
pub fn find_variant<'a>(variants: &'a [QuantVariant], want: &str) -> (r: Option<&'a QuantVariant>)
    ensures
        ({
            let all = described(variants@);
            match r {
                Some(v) => exists|i: int|
                    #![trigger all[i]]
                    0 <= i < all.len() && *v == variants@[i] && named(all[i], want@) && forall|j: int|
                        0 <= j < i ==> !named(#[trigger] all[j], want@),
                None => forall|j: int| 0 <= j < all.len() ==> !named(#[trigger] all[j], want@),
            }
        }),
{
    let wanted = to_uppercase(&chars_of(want));
    let ghost all = described(variants@);
    let mut i: usize = 0;
    while i < variants.len()
        invariant
            i <= variants@.len(),
            all == described(variants@),
            wanted@ == uppercase(want@),
            forall|j: int| 0 <= j < i ==> !named(#[trigger] all[j], want@),
        decreases variants@.len() - i,
    {
        let v = &variants[i];
        assert(all[i as int] == v@);
        if same(&v.filename, want) || same(&to_uppercase(&chars_of(&v.quant_label)), &wanted) {
            return Some(v);
        }
        i += 1;
    }
    None
}

/// Whether weights of `total` bytes are likely more than this machine can
/// load.
pub fn exceeds_memory(total: u64, profile: &HardwareProfile) -> (b: bool)
    ensures
        b == (total > 0 && headroom(total as nat) > available(*profile)),
{
    total > 0 && with_headroom(total) > available_memory(profile)
}

/// Whether a file need not be downloaded: one of the right size is there.
pub fn already_present(force: bool, on_disk: Option<u64>, total: Option<u64>) -> (b: bool)
    ensures
        b == (!force && on_disk is Some && on_disk == total),
{
    match (on_disk, total) {
        (Some(have), Some(want)) => !force && have == want,
        _ => false,
    }
}

/// Whether a download is complete, as far as its size is known. What is not is
/// removed: it would pass for a model and fail to load.
pub fn is_complete(downloaded: u64, total: Option<u64>) -> (b: bool)
    ensures
        b == (total matches Some(n) ==> downloaded == n),
{
    match total {
        Some(n) => downloaded == n,
        None => true,
    }
}

/// What is known of a repository's own quantization.
#[derive(Debug, Clone, Copy, PartialEq, Eq, Structural)]
pub enum QuantSupport {
    /// The weights are not quantized.
    Plain,
    /// Unpacked on loading.
    Unpacked,
    /// Cannot be loaded.
    Unsupported,
    /// Nothing is known of it.
    Unknown,
}

/// The quantization that a configuration names.
pub open spec fn support_of(config: Json) -> QuantSupport {
    let q = field(config, "quantization_config"@);
    if q is None {
        QuantSupport::Plain
    } else {
        match str_of(field_of(q, "quant_method"@)) {
            Some(m) => {
                let low = lowercase(m);
                if low == "awq"@ || low == "gptq"@ {
                    QuantSupport::Unpacked
                } else if low == "bitsandbytes"@ || low == "bnb"@ {
                    QuantSupport::Unsupported
                } else {
                    QuantSupport::Unknown
                }
            },
            None => QuantSupport::Unknown,
        }
    }
}

/// What is to be said of a repository with this configuration.
pub fn check_quantization_method(config: &Json) -> (s: QuantSupport)
    ensures
        s == support_of(*config),
{
    let q = get(config, "quantization_config");
    if q.is_none() {
        return QuantSupport::Plain;
    }
    match as_text(get_in(q, "quant_method")) {
        Some(m) => {
            let low = to_lowercase(m);
            if same(&low, "awq") || same(&low, "gptq") {
                QuantSupport::Unpacked
            } else if same(&low, "bitsandbytes") || same(&low, "bnb") {
                QuantSupport::Unsupported
            } else {
                QuantSupport::Unknown
            }
        },
        None => QuantSupport::Unknown,
    }
}

/// The small files that are downloaded beside the weights.
pub open spec fn sidecar_names() -> Seq<Text> {
    seq![
        "tokenizer.json"@,
        "tokenizer_config.json"@,
        "config.json"@,
        "generation_config.json"@,
        "special_tokens_map.json"@,
        "preprocessor_config.json"@,
        "chat_template.jinja"@,
    ]
}

/// The first `n` of those files that are among `paths`.
pub open spec fn present_among(paths: Seq<Text>, n: nat) -> Seq<Text>
    decreases n,
{
    if n == 0 || n > sidecar_names().len() {
        Seq::empty()
    } else {
        let before = present_among(paths, (n - 1) as nat);
        if paths.contains(sidecar_names()[n - 1]) {
            before.push(sidecar_names()[n - 1])
        } else {
            before
        }
    }
}

fn is_among(entries: &[TreeEntry], name: &str) -> (b: bool)
    ensures
        b == paths_of(tree(entries@)).contains(name@),
{
    let mut i: usize = 0;
    while i < entries.len()
        invariant
            i <= entries@.len(),
            forall|k: int| 0 <= k < i ==> paths_of(tree(entries@))[k] != name@,
        decreases entries@.len() - i,
    {
        if same(&entries[i].path, name) {
            assert(paths_of(tree(entries@))[i as int] == name@);
            return true;
        }
        i += 1;
    }
    false
}

/// The paths of the entries.
pub open spec fn paths_of(entries: Seq<TreeEntry<Text>>) -> Seq<Text> {
    entries.map_values(|e: TreeEntry<Text>| e.path)
}

/// The small files that a repository has and that are downloaded beside the
/// weights.
pub fn sidecars(entries: &[TreeEntry]) -> (out: Vec<String>)
    ensures
        texts(out@) == present_among(paths_of(tree(entries@)), 7),
{
    let names = [
        "tokenizer.json",
        "tokenizer_config.json",
        "config.json",
        "generation_config.json",
        "special_tokens_map.json",
        "preprocessor_config.json",
        "chat_template.jinja",
    ];
    let ghost paths = paths_of(tree(entries@));
    let mut out: Vec<String> = Vec::new();
    assert(texts(out@) =~= present_among(paths, 0));
    let mut i: usize = 0;
    while i < 7
        invariant
            i <= 7,
            names@.len() == 7,
            forall|k: int| 0 <= k < 7 ==> (#[trigger] names@[k])@ == sidecar_names()[k],
            paths == paths_of(tree(entries@)),
            texts(out@) == present_among(paths, i as nat),
        decreases 7 - i,
    {
        let ghost before = out@;
        assert(names@[i as int]@ == sidecar_names()[i as int]);
        if is_among(entries, names[i]) {
            out.push(names[i].to_string());
            assert(texts(out@) =~= texts(before).push(sidecar_names()[i as int]));
        }
        i += 1;
    }
    out
}

/// What stands behind a dash or a dot, and holds neither, is a segment.
proof fn lemma_segment(front: Text, c: char, t: Text)
    requires
        c == '-' || c == '.',
        free_of(t, '-'),
        free_of(t, '.'),
    ensures
        segments(front.push(c) + t) == segments(front).push(t),
    decreases t.len(),
{
    let s = front.push(c) + t;
    if t.len() == 0 {
        assert(s =~= front.push(c));
        assert(s.drop_last() =~= front);
        assert(t =~= Seq::empty());
    } else {
        let less = t.drop_last();
        assert forall|i: int| 0 <= i < less.len() implies #[trigger] less[i] != '-' && less[i] != '.' by {
            assert(less[i] == t[i]);
        }
        lemma_segment(front, c, less);
        assert(s.drop_last() =~= front.push(c) + less);
        assert(t[t.len() - 1] != '-' && t[t.len() - 1] != '.');
        assert(less.push(t.last()) =~= t);
        let before = segments(front).push(less);
        assert(before.drop_last() =~= segments(front));
    }
}

/// The quantization of a file is what stands behind the last dash or dot
/// before the extension, in upper case, if it has the shape of a label.
pub proof fn law_label_is_read(front: Text, c: char, label: Text)
    requires
        c == '-' || c == '.',
        label_like(label),
    ensures
        label_of(front.push(c) + label + ".gguf"@) == uppercase(label),
{
    reveal_strlit(".gguf");
    let stem = front.push(c) + label;
    let name = stem + ".gguf"@;
    assert(name.subrange(stem.len() as int, name.len() as int) =~= ".gguf"@);
    assert(name.take(stem.len() as int) =~= stem);
    assert forall|i: int| 0 <= i < label.len() implies #[trigger] label[i] != '-' && label[i] != '.' by {}
    lemma_segment(front, c, label);
    let parts = segments(stem);
    assert(parts[parts.len() - 1] == label);
}

/// Upper case changes the letters from a to z and nothing else, each to its
/// own capital.
pub proof fn law_uppercase(s: Text, i: int)
    requires
        0 <= i < s.len(),
    ensures
        uppercase(s).len() == s.len(),
        !('a' <= s[i] <= 'z') ==> uppercase(s)[i] == s[i],
        'a' <= s[i] <= 'z' ==> 'A' <= uppercase(s)[i] <= 'Z' && uppercase(s)[i] as int - 'A' as int
            == s[i] as int - 'a' as int,
{
}

/// A file is described by its own path and size; one with `mmproj` in its path
/// is a projector and labelled as one, any other by its quantization.
pub proof fn law_variant(e: TreeEntry<Text>)
    ensures
        ({
            let v = variant_of(e);
            &&& v.filename == e.path
            &&& v.size_bytes == e.size
            &&& v.is_mmproj <==> has(lowercase(e.path), "mmproj"@)
            &&& v.is_mmproj ==> v.quant_label == "mmproj"@
            &&& !v.is_mmproj ==> v.quant_label == label_of(e.path)
        }),
{
}

/// A repository's variants are its GGUF files, in order: each further one adds
/// itself, and no other file adds anything.
pub proof fn law_variants_are_gguf_files(entries: Seq<TreeEntry<Text>>, e: TreeEntry<Text>)
    ensures
        variants_of(seq![]) == Seq::<QuantVariant<Text>>::empty(),
        ends(e.path, ".gguf"@) ==> variants_of(entries.push(e)) == variants_of(entries).push(
            variant_of(e),
        ),
        !(ends(e.path, ".gguf"@)) ==> variants_of(entries.push(e)) == variants_of(entries),
{
    assert(entries.push(e).drop_last() =~= entries);
}

/// A model may fill what is free on a card that is used and was measured, and
/// otherwise what is free of the system's memory.
pub proof fn law_available(p: HardwareProfile)
    ensures
        p.backend == BackendChoice::Cpu ==> available(p) == p.system_ram_free_bytes,
        p.gpu_vram_free_bytes is None ==> available(p) == p.system_ram_free_bytes,
        p.gpu_vram_free_bytes matches Some(free) ==> (p.backend != BackendChoice::Cpu ==> available(
            p,
        ) == free),
{
}

/// A model fits if its size is known and with headroom stays below the memory;
/// a projector is no model.
pub proof fn law_eligible(v: QuantVariant<Text>, memory: u64)
    ensures
        eligible(v, memory) <==> !v.is_mmproj && (v.size_bytes matches Some(n) && headroom(n as nat)
            < memory),
{
}

/// A directory's name keeps letters, digits, dashes, underscores and dots where
/// they stand; everything else becomes an underscore.
pub proof fn law_sanitized(name: Text, i: int)
    requires
        0 <= i < name.len(),
    ensures
        sanitized(name).len() == name.len(),
        ({
            let c = name[i];
            let good = ('a' <= c <= 'z') || ('A' <= c <= 'Z') || ('0' <= c <= '9') || c == '-' || c
                == '_' || c == '.';
            &&& good ==> sanitized(name)[i] == c
            &&& !good ==> sanitized(name)[i] == '_'
        }),
{
}

/// A repository is called by what stands behind its last slash.
pub proof fn law_repo_name(owner: Text, name: Text)
    requires
        free_of(name, '/'),
    ensures
        repo_name(owner.push('/') + name) == name,
        repo_name(name) == name,
{
    law_cut_back(owner, '/', name);
}

/// Names that end in `-GGUF`, in any case, are those of GGUF repositories.
pub proof fn law_gguf_named(base: Text)
    ensures
        gguf_named(base + "-GGUF"@),
        gguf_named(base + "-gguf"@),
        gguf_named(base) ==> base.len() >= 5 && base[base.len() - 5] == '-',
{
    reveal_strlit("-GGUF");
    reveal_strlit("-gguf");
    let a = base + "-GGUF"@;
    let b = base + "-gguf"@;
    assert(uppercase(a.skip(a.len() - 5)) =~= "-GGUF"@);
    assert(uppercase(b.skip(b.len() - 5)) =~= "-GGUF"@);
    if gguf_named(base) {
        let tail = base.skip(base.len() - 5);
        assert(uppercase(tail)[0] == '-');
        assert(upper(tail[0]) == '-');
    }
}

/// A quantization behind the last dash is taken off, anything else stays.
pub proof fn law_without_quant(front: Text, tail: Text)
    requires
        free_of(tail, '-'),
    ensures
        quant_named(tail) ==> without_quant(front.push('-') + tail) == front,
        !quant_named(tail) ==> without_quant(front.push('-') + tail) == front.push('-') + tail,
        without_quant(tail) == tail,
{
    law_cut_back(front, '-', tail);
}

/// What counts as a quantization's name: the three unquantized types, and `Q`
/// or `IQ` with a digit and more of the kind behind it, in any case.
pub proof fn law_quant_names(rest: Text, d: char)
    requires
        '0' <= d <= '9',
        forall|i: int| 0 <= i < rest.len() ==> alphanumeric(#[trigger] rest[i]) || rest[i] == '_',
    ensures
        quant_named("F16"@),
        quant_named("BF16"@),
        quant_named("F32"@),
        quant_named(seq!['Q', d] + rest),
        quant_named(seq!['q', d] + rest),
        quant_named(seq!['I', 'Q', d] + rest),
        quant_named(seq!['i', 'q', d] + rest),
{
    reveal_strlit("F16");
    reveal_strlit("BF16");
    reveal_strlit("F32");
    assert(uppercase("F16"@) =~= "F16"@);
    assert(uppercase("BF16"@) =~= "BF16"@);
    assert(uppercase("F32"@) =~= "F32"@);
    lemma_label_upper(seq!['Q', d], rest);
    lemma_label_upper(seq!['q', d], rest);
    lemma_label_upper(seq!['I', 'Q', d], rest);
    lemma_label_upper(seq!['i', 'q', d], rest);
}

proof fn lemma_label_upper(lead: Text, rest: Text)
    requires
        lead.len() >= 2,
        letter(lead[0]),
        forall|i: int| 0 <= i < lead.len() ==> alphanumeric(#[trigger] lead[i]),
        forall|i: int| 0 <= i < rest.len() ==> alphanumeric(#[trigger] rest[i]) || rest[i] == '_',
    ensures
        label_like(uppercase(lead + rest)),
        forall|i: int| 0 <= i < lead.len() ==> #[trigger] uppercase(lead + rest)[i] == upper(lead[i]),
{
    let u = uppercase(lead + rest);
    assert forall|i: int| 0 <= i < u.len() implies alphanumeric(#[trigger] u[i]) || u[i] == '_' by {
        if i < lead.len() {
            assert(u[i] == upper(lead[i]));
        } else {
            assert(u[i] == upper(rest[i - lead.len()]));
        }
    }
}

/// A byte is written as a percent sign and its two hexadecimal digits.
pub proof fn law_percent(bytes: Seq<u8>, b: u8)
    ensures
        percent(seq![]) == Seq::<char>::empty(),
        percent(bytes.push(b)) == percent(bytes) + seq![
            '%',
            "0123456789ABCDEF"@[b as int / 16],
            "0123456789ABCDEF"@[b as int % 16],
        ],
{
    reveal_strlit("0123456789ABCDEF");
    assert(bytes.push(b).drop_last() =~= bytes);
    lemma_hex(b as int / 16);
    lemma_hex(b as int % 16);
}

proof fn lemma_hex(n: int)
    requires
        0 <= n < 16,
    ensures
        hex_digit(n) == "0123456789ABCDEF"@[n],
{
    reveal_strlit("0123456789ABCDEF");
}

/// A query keeps letters, digits, dashes, underscores, dots and tildes, writes
/// a space as a plus sign, and every other character by its bytes.
pub proof fn law_encoded(s: Text, c: char)
    ensures
        encoded(seq![]) == Seq::<char>::empty(),
        ({
            let kept = ('a' <= c <= 'z') || ('A' <= c <= 'Z') || ('0' <= c <= '9') || c == '-' || c
                == '_' || c == '.' || c == '~';
            &&& kept ==> encoded(s.push(c)) == encoded(s).push(c)
            &&& c == ' ' ==> encoded(s.push(c)) == encoded(s).push('+')
            &&& !kept && c != ' ' ==> encoded(s.push(c)) == encoded(s) + percent(
                encode_utf8(seq![c]),
            )
        }),
{
    assert(s.push(c).drop_last() =~= s);
    assert(encoded(s) + seq![c] =~= encoded(s).push(c));
    assert(encoded(s) + seq!['+'] =~= encoded(s).push('+'));
}

/// What is said of a repository: nothing where it is not quantized, that it is
/// unpacked for AWQ and GPTQ, that it cannot be loaded for bitsandbytes, and
/// that nothing is known otherwise.
pub proof fn law_support(config: Json)
    ensures
        field(config, "quantization_config"@) is None <==> support_of(config)
            == QuantSupport::Plain,
        field(config, "quantization_config"@) matches Some(q) ==> {
            match str_of(field(q, "quant_method"@)) {
                Some(m) => {
                    let low = lowercase(m);
                    &&& low == "awq"@ || low == "gptq"@ ==> support_of(config)
                        == QuantSupport::Unpacked
                    &&& low == "bitsandbytes"@ || low == "bnb"@ ==> support_of(config)
                        == QuantSupport::Unsupported
                    &&& low != "awq"@ && low != "gptq"@ && low != "bitsandbytes"@ && low != "bnb"@
                        ==> support_of(config) == QuantSupport::Unknown
                },
                None => support_of(config) == QuantSupport::Unknown,
            }
        },
{
    reveal_strlit("awq");
    reveal_strlit("gptq");
    reveal_strlit("bitsandbytes");
    reveal_strlit("bnb");
    assert("awq"@.len() == 3);
    assert("gptq"@.len() == 4);
    assert("bitsandbytes"@.len() == 12);
    assert("bnb"@.len() == 3);
    assert("awq"@[0] != "bnb"@[0]);
}

/// The small files that come with the weights are those of seven names that
/// the repository has.
pub proof fn law_sidecars(paths: Seq<Text>, name: Text)
    ensures
        present_among(paths, 7).contains(name) <==> paths.contains(name) && (
        name == "tokenizer.json"@ || name == "tokenizer_config.json"@ || name == "config.json"@ || name == "generation_config.json"@ || name == "special_tokens_map.json"@ || name == "preprocessor_config.json"@ || name == "chat_template.jinja"@),
{
    let all = sidecar_names();
    assert(all[0] == "tokenizer.json"@);
    assert(all[1] == "tokenizer_config.json"@);
    assert(all[2] == "config.json"@);
    assert(all[3] == "generation_config.json"@);
    assert(all[4] == "special_tokens_map.json"@);
    assert(all[5] == "preprocessor_config.json"@);
    assert(all[6] == "chat_template.jinja"@);
    lemma_present(paths, 7, name);
    if paths.contains(name) {
        if exists|i: int| 0 <= i < 7 && #[trigger] all[i] == name {
            let i = choose|i: int| 0 <= i < 7 && #[trigger] all[i] == name;
        }
    }
}

proof fn lemma_present(paths: Seq<Text>, n: nat, name: Text)
    requires
        n <= sidecar_names().len(),
    ensures
        present_among(paths, n).contains(name) <==> paths.contains(name) && exists|i: int|
            0 <= i < n && #[trigger] sidecar_names()[i] == name,
    decreases n,
{
    if n > 0 {
        lemma_present(paths, (n - 1) as nat, name);
        let before = present_among(paths, (n - 1) as nat);
        let last = sidecar_names()[n - 1];
        let now = present_among(paths, n);
        if before.contains(name) {
            let k = before.index_of(name);
            assert(now[k] == name);
        }
        if paths.contains(last) && last == name {
            assert(now[before.len() as int] == name);
        }
        if now.contains(name) {
            let k = now.index_of(name);
            if k < before.len() {
                assert(before[k] == name);
            }
        }
    }
}

/// A user's words name a file by its full name, or by its quantization in any
/// case.
pub proof fn law_named(v: QuantVariant<Text>, want: Text)
    ensures
        named(v, want) <==> v.filename == want || uppercase(v.quant_label) == uppercase(want),
        named(v, v.filename),
        named(v, v.quant_label),
{
}

/// Of two projectors the smaller one is taken, the first of two as small, and
/// one of unknown size only where there is no other.
pub proof fn law_projector_is_smallest(variants: Seq<QuantVariant<Text>>, i: int, j: int)
    requires
        is_projector(variants, i),
        0 <= j < variants.len(),
        variants[j].is_mmproj,
    ensures
        variants[i].is_mmproj,
        variants[i].size_bytes matches Some(a) ==> (variants[j].size_bytes matches Some(b) ==> a
            <= b),
        variants[i].size_bytes is None ==> (variants[j].size_bytes is None
            || variants[j].size_bytes == Some(u64::MAX)),
        variants[i].size_bytes == variants[j].size_bytes ==> i <= j,
{
}

/// A segment: no dash and no dot.
pub open spec fn is_segment(s: Text) -> bool {
    free_of(s, '-') && free_of(s, '.')
}

/// Where the last segment, or the last two, do not look like a label, the one
/// before counts; behind three such segments nothing is looked for.
pub proof fn law_label_is_among_last_three(front: Text, label: Text, x: Text, y: Text, z: Text)
    requires
        label_like(label),
        is_segment(x) && is_segment(y) && is_segment(z),
        !label_like(x) && !label_like(y) && !label_like(z),
    ensures
        ({
            let one = front.push('-') + label;
            let two = one.push('-') + x;
            let three = two.push('-') + y;
            let four = three.push('-') + z;
            &&& label_of(two + ".gguf"@) == uppercase(label)
            &&& label_of(three + ".gguf"@) == uppercase(label)
            &&& label_of(four + ".gguf"@) == "unknown"@
        }),
{
    let one = front.push('-') + label;
    let two = one.push('-') + x;
    let three = two.push('-') + y;
    let four = three.push('-') + z;
    assert forall|i: int| 0 <= i < label.len() implies #[trigger] label[i] != '-' && label[i] != '.' by {}
    lemma_segment(front, '-', label);
    lemma_segment(one, '-', x);
    lemma_segment(two, '-', y);
    lemma_segment(three, '-', z);
    lemma_stem(two);
    lemma_stem(three);
    lemma_stem(four);
    let n = segments(front).len() as int;
    let (b, c, d) = (segments(two), segments(three), segments(four));
    reveal_with_fuel(label_among, 4);
    assert(b[n] == label && b[n + 1] == x);
    assert(c[n] == label && c[n + 1] == x && c[n + 2] == y);
    assert(d[n + 1] == x && d[n + 2] == y && d[n + 3] == z);
}

/// A file's name without its extension.
proof fn lemma_stem(stem: Text)
    ensures
        without_gguf(stem + ".gguf"@) == stem,
{
    reveal_strlit(".gguf");
    let name = stem + ".gguf"@;
    assert(name.subrange(stem.len() as int, name.len() as int) =~= ".gguf"@);
    assert(name.take(stem.len() as int) =~= stem);
}

} // verus!
