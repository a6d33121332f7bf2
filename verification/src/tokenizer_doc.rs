//! What the document that describes a tokenizer asks for, as far as it decides
//! whether texts can be split and put together with it at all.
use vstd::prelude::*;
use vstd::utf8::{decode_utf8, encode_utf8, valid_utf8};
use crate::charsmap::{
    charsmap_fits, charsmap_sound, charsmap_walks, does_text_walk, is_map_sound, map_fits,
    read_charsmap, unbase64,
};
use crate::json::{
    array_of, as_array, as_bool, as_text, as_u64, at, bool_of, field, field_of, get, get_in,
    parse_json, parsed_json, str_of, u64_of, Json,
};
use crate::loader::gguf::utf8_text;
use crate::text::{chars_of, contains, cut, cut_at, has, is_white, same, texts, white, Text};

verus! {

/// The document that bytes write, if they are JSON.
pub open spec fn document(bytes: Seq<u8>) -> Option<Json> {
    if valid_utf8(bytes) {
        parsed_json(decode_utf8(bytes))
    } else {
        None
    }
}

/// Reads the document that bytes write.
pub fn read_document(bytes: &[u8]) -> (r: Option<Json>)
    ensures
        r == document(bytes@),
{
    match utf8_text(bytes) {
        Some(text) => match parse_json(&text) {
            Ok(j) => Some(j),
            Err(_) => None,
        },
        None => None,
    }
}

/// How often a text stands in the outermost object of a JSON document, or in the
/// rest of it, from within a text or not and at a depth of nesting.
pub open spec fn stands_at_top(bytes: Seq<u8>, quoted: bool, depth: int, name: Seq<u8>) -> nat
    decreases bytes.len(),
{
    if bytes.len() == 0 {
        0
    } else if quoted {
        if bytes[0] == 0x5C && bytes.len() > 1 {
            stands_at_top(bytes.skip(2), true, depth, name)
        } else {
            stands_at_top(bytes.skip(1), bytes[0] != 0x22, depth, name)
        }
    } else {
        stands_at_top(bytes.skip(1), bytes[0] == 0x22, depth + nesting(bytes[0]), name)
            + if bytes[0] == 0x22 && depth == 1 && leads(bytes.skip(1), name) {
            1nat
        } else {
            0
        }
    }
}

/// The bytes begin with a text and the quote that ends it.
pub open spec fn leads(bytes: Seq<u8>, name: Seq<u8>) -> bool {
    name.len() < bytes.len() && bytes.take(name.len() as int) == name && bytes[name.len() as int]
        == 0x22
}

/// A text in the outermost object of a JSON document has an escape.
pub open spec fn escapes_at_top(bytes: Seq<u8>, quoted: bool, depth: int) -> bool
    decreases bytes.len(),
{
    if bytes.len() == 0 {
        false
    } else if quoted {
        if bytes[0] == 0x5C && bytes.len() > 1 {
            depth == 1 || escapes_at_top(bytes.skip(2), true, depth)
        } else {
            escapes_at_top(bytes.skip(1), bytes[0] != 0x22, depth)
        }
    } else {
        escapes_at_top(bytes.skip(1), bytes[0] == 0x22, depth + nesting(bytes[0]))
    }
}

/// By how much a byte of a JSON document changes the depth.
pub open spec fn nesting(b: u8) -> int {
    if b == 0x7B || b == 0x5B {
        1
    } else if b == 0x7D || b == 0x5D {
        -1
    } else {
        0
    }
}

/// The model and the normalizer are written once at most, and plainly: each is
/// built as it is read, also where another one follows.
pub open spec fn parts_once(bytes: Seq<u8>) -> bool {
    &&& stands_at_top(bytes, false, 0, encode_utf8("model"@)) <= 1
    &&& stands_at_top(bytes, false, 0, encode_utf8("normalizer"@)) <= 1
    &&& !escapes_at_top(bytes, false, 0)
}

fn does_lead(bytes: &[u8], from: usize, name: &[u8]) -> (b: bool)
    requires
        from <= bytes@.len(),
    ensures
        b == leads(bytes@.skip(from as int), name@),
{
    let ghost rest = bytes@.skip(from as int);
    let len: usize = bytes.len();
    if name.len() >= len - from {
        return false;
    }
    let mut i: usize = 0;
    while i < name.len()
        invariant
            i <= name@.len(),
            len == bytes@.len(),
            name@.len() < len - from,
            from <= len,
            rest == bytes@.skip(from as int),
            forall|k: int| 0 <= k < i ==> rest[k] == #[trigger] name@[k],
        decreases name@.len() - i,
    {
        assert(rest[i as int] == bytes@[from + i]);
        if bytes[from + i] != name[i] {
            assert(rest.take(name@.len() as int)[i as int] != name@[i as int]);
            return false;
        }
        i += 1;
    }
    assert(rest.take(name@.len() as int) =~= name@);
    bytes[from + name.len()] == 0x22
}

fn count_at_top(bytes: &[u8], name: &[u8]) -> (n: usize)
    ensures
        n == stands_at_top(bytes@, false, 0, name@),
{
    let mut n: usize = 0;
    let mut quoted: bool = false;
    let mut depth: i128 = 0;
    let mut i: usize = 0;
    assert(bytes@.skip(0) =~= bytes@);
    while i < bytes.len()
        invariant
            i <= bytes@.len(),
            n <= i,
            -(i as int) <= depth <= i,
            stands_at_top(bytes@, false, 0, name@) == n + stands_at_top(
                bytes@.skip(i as int),
                quoted,
                depth as int,
                name@,
            ),
        decreases bytes@.len() - i,
    {
        let b = bytes[i];
        let ghost rest = bytes@.skip(i as int);
        assert(rest[0] == b);
        assert(rest.skip(1) =~= bytes@.skip(i + 1));
        if quoted {
            if b == 0x5C && bytes.len() - i > 1 {
                assert(rest.skip(2) =~= bytes@.skip(i + 2));
                i += 2;
            } else {
                quoted = b != 0x22;
                i += 1;
            }
        } else {
            if b == 0x22 && depth == 1 && does_lead(bytes, i + 1, name) {
                n += 1;
            }
            quoted = b == 0x22;
            if b == 0x7B || b == 0x5B {
                depth += 1;
            } else if b == 0x7D || b == 0x5D {
                depth -= 1;
            }
            i += 1;
        }
    }
    n
}

fn has_escape_at_top(bytes: &[u8]) -> (r: bool)
    ensures
        r == escapes_at_top(bytes@, false, 0),
{
    let mut quoted: bool = false;
    let mut depth: i128 = 0;
    let mut i: usize = 0;
    assert(bytes@.skip(0) =~= bytes@);
    while i < bytes.len()
        invariant
            i <= bytes@.len(),
            -(i as int) <= depth <= i,
            escapes_at_top(bytes@, false, 0) == escapes_at_top(
                bytes@.skip(i as int),
                quoted,
                depth as int,
            ),
        decreases bytes@.len() - i,
    {
        let b = bytes[i];
        let ghost rest = bytes@.skip(i as int);
        assert(rest[0] == b);
        assert(rest.skip(1) =~= bytes@.skip(i + 1));
        if quoted {
            if b == 0x5C && bytes.len() - i > 1 {
                if depth == 1 {
                    return true;
                }
                assert(rest.skip(2) =~= bytes@.skip(i + 2));
                i += 2;
            } else {
                quoted = b != 0x22;
                i += 1;
            }
        } else {
            quoted = b == 0x22;
            if b == 0x7B || b == 0x5B {
                depth += 1;
            } else if b == 0x7D || b == 0x5D {
                depth -= 1;
            }
            i += 1;
        }
    }
    false
}

/// Whether the model and the normalizer are written once at most, and plainly.
pub fn are_parts_once(bytes: &[u8]) -> (b: bool)
    ensures
        b == parts_once(bytes@),
{
    count_at_top(bytes, "model".as_bytes()) <= 1 && count_at_top(bytes, "normalizer".as_bytes())
        <= 1 && !has_escape_at_top(bytes)
}

/// How deep the parts of a document may be nested.
pub const MAX_NESTING: usize = 128;

/// The part tells its type by a text, if at all.
pub open spec fn plainly_typed(e: Json) -> bool {
    match field(e, "type"@) {
        Some(Json::Str(_)) => true,
        Some(_) => false,
        None => true,
    }
}

fn is_plainly_typed(e: &Json) -> (b: bool)
    ensures
        b == plainly_typed(*e),
{
    match get(e, "type") {
        Some(v) => match v {
            Json::Str(_) => true,
            _ => false,
        },
        None => true,
    }
}

/// A part of the document and the parts that it lists under `key`, and so on.
/// There is none where a part is no object or tells its type by anything but a
/// text, or they are nested too deep.
pub open spec fn steps(part: Option<Json>, key: Text, depth: nat) -> Option<Seq<Json>>
    decreases depth, 0nat,
{
    match part {
        None => Some(Seq::empty()),
        Some(Json::Null) => Some(Seq::empty()),
        Some(Json::Object(entries)) => {
            let j = Json::Object(entries);
            if !plainly_typed(j) {
                None
            } else {
                match array_of(field(j, key)) {
                    None => Some(seq![j]),
                    Some(items) => if depth == 0 {
                        None
                    } else {
                        match all_steps(items, key, (depth - 1) as nat) {
                            Some(below) => Some(seq![j] + below),
                            None => None,
                        }
                    },
                }
            }
        },
        _ => None,
    }
}

/// The steps of several parts.
pub open spec fn all_steps(parts: Seq<Json>, key: Text, depth: nat) -> Option<Seq<Json>>
    decreases depth, parts.len() + 1,
{
    if parts.len() == 0 {
        Some(Seq::empty())
    } else {
        match (all_steps(parts.drop_last(), key, depth), steps(Some(parts.last()), key, depth)) {
            (Some(before), Some(more)) => Some(before + more),
            _ => None,
        }
    }
}

/// What references refer to.
pub open spec fn parts_at(v: Seq<&Json>) -> Seq<Json> {
    v.map_values(|j: &Json| *j)
}

/// Parts whose beginning cannot be followed cannot be followed themselves.
proof fn lemma_lost(parts: Seq<Json>, key: Text, depth: nat, n: int)
    requires
        0 <= n <= parts.len(),
        all_steps(parts.take(n), key, depth) is None,
    ensures
        all_steps(parts, key, depth) is None,
    decreases parts.len() - n,
{
    if n == parts.len() {
        assert(parts.take(n) =~= parts);
    } else {
        assert(parts.take(n + 1).drop_last() =~= parts.take(n));
        lemma_lost(parts, key, depth, n + 1);
    }
}

/// Appends a part and the parts below it.
fn push_steps<'a>(out: &mut Vec<&'a Json>, part: Option<&'a Json>, key: &str, depth: usize) -> (ok:
    bool)
    ensures
        match steps(at(part), key@, depth as nat) {
            Some(s) => ok && parts_at(final(out)@) == parts_at(old(out)@) + s,
            None => !ok,
        },
    decreases depth,
{
    let ghost before = out@;
    match part {
        None => {
            assert(parts_at(before) + Seq::<Json>::empty() =~= parts_at(before));
            true
        },
        Some(j) => match j {
            Json::Null => {
                assert(parts_at(before) + Seq::<Json>::empty() =~= parts_at(before));
                true
            },
            Json::Object(_) => {
                if !is_plainly_typed(j) {
                    return false;
                }
                out.push(j);
                let ghost with_self = parts_at(before) + seq![*j];
                assert(parts_at(out@) =~= with_self);
                match as_array(get(j, key)) {
                    None => true,
                    Some(items) => {
                        if depth == 0 {
                            return false;
                        }
                        let mut i: usize = 0;
                        assert(with_self + Seq::<Json>::empty() =~= with_self);
                        while i < items.len()
                            invariant
                                at(part) == Some(*j),
                                *j is Object,
                                plainly_typed(*j),
                                array_of(field(*j, key@)) == Some(items@),
                                i <= items@.len(),
                                depth > 0,
                                all_steps(items@.take(i as int), key@, (depth - 1) as nat) matches Some(
                                    below,
                                ) && parts_at(out@) == with_self + below,
                            decreases items@.len() - i,
                        {
                            let ghost front = items@.take(i + 1);
                            assert(front.drop_last() =~= items@.take(i as int));
                            assert(front.last() == items@[i as int]);
                            let ghost below = all_steps(
                                items@.take(i as int),
                                key@,
                                (depth - 1) as nat,
                            )->0;
                            if !push_steps(out, Some(&items[i]), key, depth - 1) {
                                proof {
                                    assert(all_steps(front, key@, (depth - 1) as nat) is None);
                                    lemma_lost(items@, key@, (depth - 1) as nat, i + 1);
                                }
                                return false;
                            }
                            proof {
                                let more = steps(
                                    Some(items@[i as int]),
                                    key@,
                                    (depth - 1) as nat,
                                )->0;
                                assert(with_self + below + more =~= with_self + (below + more));
                            }
                            i += 1;
                        }
                        proof {
                            assert(items@.take(i as int) =~= items@);
                            let below = all_steps(items@, key@, (depth - 1) as nat)->0;
                            assert(with_self + below =~= parts_at(before) + (seq![*j] + below));
                        }
                        true
                    },
                }
            },
            _ => false,
        },
    }
}

/// The parts of a document under `name`, with those that they list under `key`.
pub open spec fn parts_of(j: Json, name: Text, key: Text) -> Option<Seq<Json>> {
    steps(field(j, name), key, MAX_NESTING as nat)
}

fn gather<'a>(j: &'a Json, name: &str, key: &str) -> (r: Option<Vec<&'a Json>>)
    ensures
        match r {
            Some(v) => parts_of(*j, name@, key@) == Some(parts_at(v@)),
            None => parts_of(*j, name@, key@) is None,
        },
{
    let mut out: Vec<&'a Json> = Vec::new();
    let ghost none = parts_at(out@);
    if push_steps(&mut out, get(j, name), key, MAX_NESTING) {
        assert(none + parts_of(*j, name@, key@)->0 =~= parts_of(*j, name@, key@)->0);
        Some(out)
    } else {
        None
    }
}

/// A part is of a type.
pub open spec fn typed(e: Json, name: Text) -> bool {
    str_of(field(e, "type"@)) == Some(name)
}

fn is_typed(e: &Json, name: &str) -> (b: bool)
    ensures
        b == typed(*e, name@),
{
    match as_text(get(e, "type")) {
        Some(s) => same(s, name),
        None => false,
    }
}

/// The part is a table of character replacements.
pub open spec fn replaces(e: Json) -> bool {
    typed(e, "Precompiled"@)
}

/// The text that such a table is written in, empty where there is none.
pub open spec fn table_text(e: Json) -> Text {
    match str_of(field(e, "precompiled_charsmap"@)) {
        Some(s) => s,
        None => Seq::empty(),
    }
}

/// A table of character replacements, where the part is one, is all there.
pub open spec fn normalizer_sound(e: Json) -> bool {
    replaces(e) ==> charsmap_fits(table_text(e))
}

/// A character that stands for itself in a pattern.
pub open spec fn literal(c: char) -> bool {
    c != '\\' && c != '^' && c != '$' && c != '.' && c != '|' && c != '?' && c != '*' && c != '+' && c
        != '(' && c != ')' && c != '[' && c != ']' && c != '{' && c != '}'
}

/// A letter that stands, behind a backslash, for the characters of a class.
pub open spec fn class_letter(c: char) -> bool {
    c == 's' || c == 'S' || c == 'd' || c == 'D' || c == 'w' || c == 'W'
}

/// How many characters of a pattern make up its first element, where that takes
/// exactly one character of the text.
pub open spec fn first_element(r: Text) -> int {
    if r.len() > 0 && literal(r[0]) {
        1
    } else if r.len() > 1 && r[0] == '\\' && class_letter(r[1]) {
        2
    } else {
        0
    }
}

/// A pattern counts what is counted already, or has comments between.
pub open spec fn counts_twice(r: Text) -> bool {
    ||| has(r, "+*"@)
    ||| has(r, "+?"@)
    ||| has(r, "++"@)
    ||| has(r, "+{"@)
    ||| has(r, "}*"@)
    ||| has(r, "}?"@)
    ||| has(r, "}+"@)
    ||| has(r, "}{"@)
    ||| has(r, "(?#"@)
}

fn does_count_twice(r: &str) -> (b: bool)
    ensures
        b == counts_twice(r@),
{
    contains(r, "+*") || contains(r, "+?") || contains(r, "++") || contains(r, "+{") || contains(
        r,
        "}*",
    ) || contains(r, "}?") || contains(r, "}+") || contains(r, "}{") || contains(r, "(?#")
}

/// What a pattern matches begins with at least one character: the first element
/// is not optional, and there is no other branch. Matches are not moved.
pub open spec fn takes_some(r: Text) -> bool {
    let n = first_element(r);
    &&& n > 0
    &&& !(has(r, "|"@))
    &&& !(has(r, "\\K"@))
    &&& !counts_twice(r)
    &&& n < r.len() ==> r[n] != '*' && r[n] != '?' && (r[n] == '{' ==> n + 1 < r.len() && '1'
        <= r[n + 1] <= '9')
}

fn does_take_some(r: &str) -> (b: bool)
    ensures
        b == takes_some(r@),
{
    let chars = chars_of(r);
    let mut n: usize = 0;
    if chars.len() > 0 {
        let c = chars[0];
        if c == '\\' {
            if chars.len() > 1 {
                let d = chars[1];
                if d == 's' || d == 'S' || d == 'd' || d == 'D' || d == 'w' || d == 'W' {
                    n = 2;
                }
            }
        } else if c != '^' && c != '$' && c != '.' && c != '|' && c != '?' && c != '*' && c != '+' && c
            != '(' && c != ')' && c != '[' && c != ']' && c != '{' && c != '}' {
            n = 1;
        }
    }
    if n == 0 || contains(r, "|") || contains(r, "\\K") || does_count_twice(r) {
        return false;
    }
    if n < chars.len() {
        if chars[n] == '*' || chars[n] == '?' {
            return false;
        }
        if chars[n] == '{' {
            return n + 1 < chars.len() && '1' <= chars[n + 1] && chars[n + 1] <= '9';
        }
    }
    true
}

/// What is replaced is never empty.
pub open spec fn pattern_mild(p: Json) -> bool {
    match str_of(field(p, "String"@)) {
        Some(s) => s.len() > 0,
        None => match str_of(field(p, "Regex"@)) {
            Some(r) => takes_some(r),
            None => false,
        },
    }
}

fn is_pattern_mild(p: &Json) -> (b: bool)
    ensures
        b == pattern_mild(*p),
{
    match as_text(get(p, "String")) {
        Some(s) => {
            proof {
                lemma_no_bytes(s@);
            }
            s.as_str().as_bytes().len() > 0
        },
        None => match as_text(get(p, "Regex")) {
            Some(r) => does_take_some(r),
            None => false,
        },
    }
}

/// A normalizer inserts nothing before the text without taking part of the text
/// with it: no empty match is replaced, and nothing empty is put in front.
pub open spec fn mild(e: Json) -> bool {
    &&& match field(e, "pattern"@) {
        Some(p) => pattern_mild(p),
        None => true,
    }
    &&& str_of(field(e, "prepend"@)) matches Some(s) ==> s.len() > 0
}

fn is_mild(e: &Json) -> (b: bool)
    ensures
        b == mild(*e),
{
    let pattern = match get(e, "pattern") {
        Some(p) => is_pattern_mild(p),
        None => true,
    };
    let prepend = match as_text(get(e, "prepend")) {
        Some(s) => {
            proof {
                lemma_no_bytes(s@);
            }
            s.as_str().as_bytes().len() > 0
        },
        None => true,
    };
    pattern && prepend
}

/// What a part of a document does to a text before it is split, as far as it
/// decides whether it can.
#[derive(Debug)]
pub struct NormalStep {
    /// It only holds other parts.
    pub holds_others: bool,
    pub mild: bool,
    /// It replaces characters by a table.
    pub replaces: bool,
    /// The table, where it is all there.
    pub map: Option<Vec<u8>>,
    /// The table can be walked with every text.
    pub sound: bool,
}

impl NormalStep {
    /// The step says of a part what the part says of itself.
    pub open spec fn keeps(self, e: Json) -> bool {
        &&& self.holds_others == typed(e, "Sequence"@)
        &&& self.mild == mild(e)
        &&& self.replaces == replaces(e)
        &&& self.sound == charsmap_sound(table_text(e))
        &&& match self.map {
            Some(map) => unbase64(table_text(e)) == Some(map@) && map_fits(map@),
            None => !charsmap_fits(table_text(e)),
        }
    }
}

/// The steps say of the parts what these say of themselves.
pub open spec fn all_kept(steps: Seq<NormalStep>, parts: Seq<Json>) -> bool {
    &&& steps.len() == parts.len()
    &&& forall|i: int| 0 <= i < parts.len() ==> (#[trigger] steps[i]).keeps(parts[i])
}

fn take_normal_step(e: &Json) -> (s: NormalStep)
    ensures
        s.keeps(*e),
{
    let map = match as_text(get(e, "precompiled_charsmap")) {
        Some(s) => read_charsmap(s),
        None => {
            assert(""@ =~= Seq::<char>::empty()) by {
                reveal_strlit("");
            }
            read_charsmap("")
        },
    };
    let sound = match &map {
        Some(m) => is_map_sound(m),
        None => false,
    };
    NormalStep {
        holds_others: is_typed(e, "Sequence"),
        mild: is_mild(e),
        replaces: is_typed(e, "Precompiled"),
        map,
        sound,
    }
}

/// The steps of the document's normalizers, if they can be followed.
pub fn read_normal_steps(j: &Json) -> (r: Option<Vec<NormalStep>>)
    ensures
        match r {
            Some(v) => normalizers(*j) matches Some(parts) && all_kept(v@, parts),
            None => normalizers(*j) is None,
        },
{
    let parts = match gather(j, "normalizer", "normalizers") {
        Some(parts) => parts,
        None => return None,
    };
    let ghost all = parts_at(parts@);
    let mut out: Vec<NormalStep> = Vec::new();
    let mut i: usize = 0;
    while i < parts.len()
        invariant
            i <= parts@.len(),
            all == parts_at(parts@),
            normalizers(*j) == Some(all),
            out@.len() == i,
            forall|k: int| 0 <= k < i ==> (#[trigger] out@[k]).keeps(all[k]),
        decreases parts@.len() - i,
    {
        assert(all[i as int] == *parts@[i as int]);
        out.push(take_normal_step(parts[i]));
        i += 1;
    }
    Some(out)
}

/// The document's normalizers.
pub open spec fn normalizers(j: Json) -> Option<Seq<Json>> {
    parts_of(j, "normalizer"@, "normalizers"@)
}

/// Part `i` is handed the text as it is: the parts before it only hold others.
pub open spec fn comes_first(parts: Seq<Json>, i: int) -> bool {
    forall|k: int| 0 <= k < i ==> typed(#[trigger] parts[k], "Sequence"@)
}

/// Part `i` can take a text. A table of replacements can be walked with it, or
/// with every text where other parts have changed it before.
pub open spec fn part_takes(parts: Seq<Json>, i: int, text: Text) -> bool {
    &&& mild(parts[i])
    &&& replaces(parts[i]) ==> if comes_first(parts, i) {
        charsmap_walks(table_text(parts[i]), text)
    } else {
        charsmap_sound(table_text(parts[i]))
    }
}

/// The normalizers can take a text.
pub open spec fn normalizes(parts: Seq<Json>, text: Text) -> bool {
    forall|i: int| 0 <= i < parts.len() ==> #[trigger] part_takes(parts, i, text)
}

/// Whether the normalizers can take a text, by the steps that say so.
pub(crate) fn does_normalize(
    steps: &Vec<NormalStep>,
    text: &str,
    parts: Ghost<Seq<Json>>,
) -> (b: bool)
    requires
        all_kept(steps@, parts@),
    ensures
        b == normalizes(parts@, text@),
{
    let ghost all = parts@;
    let mut first: bool = true;
    let mut i: usize = 0;
    while i < steps.len()
        invariant
            i <= steps@.len(),
            all == parts@,
            all_kept(steps@, all),
            first == comes_first(all, i as int),
            forall|k: int| 0 <= k < i ==> #[trigger] part_takes(all, k, text@),
        decreases steps@.len() - i,
    {
        let s = &steps[i];
        assert(s.keeps(all[i as int]));
        let walked: bool = if !s.replaces {
            true
        } else if first {
            match &s.map {
                Some(map) => does_text_walk(map, text),
                None => false,
            }
        } else {
            s.sound
        };
        if !s.mild || !walked {
            assert(!part_takes(all, i as int, text@));
            return false;
        }
        assert(part_takes(all, i as int, text@));
        if !s.holds_others {
            first = false;
            assert(!typed(all[i as int], "Sequence"@));
        }
        i += 1;
    }
    true
}

/// Pieces of a fixed length are not empty, and a pattern does not move its
/// matches.
pub open spec fn splitter_sound(e: Json) -> bool {
    u64_of(field(e, "length"@)) != Some(0u64) && !moves_matches(e)
}

/// The part has a pattern that moves the beginning of what it matches, which may
/// then lie behind its end.
pub open spec fn moves_matches(e: Json) -> bool {
    str_of(field_of(field(e, "pattern"@), "Regex"@)) matches Some(r) && has(r, "\\K"@)
}

fn does_move_matches(e: &Json) -> (b: bool)
    ensures
        b == moves_matches(*e),
{
    match as_text(get_in(get(e, "pattern"), "Regex")) {
        Some(r) => contains(r, "\\K"),
        None => false,
    }
}

fn is_splitter_sound(e: &Json) -> (b: bool)
    ensures
        b == splitter_sound(*e),
{
    let length = match as_u64(get(e, "length")) {
        Some(n) => n != 0,
        None => true,
    };
    length && !does_move_matches(e)
}

/// A piece of a template for one text: the text itself, or a special token, which
/// the template knows where `special` asks for it.
pub open spec fn piece_sound(piece: Json, known: Option<Json>, special: bool) -> bool {
    match str_of(field_of(field(piece, "Sequence"@), "id"@)) {
        Some(id) => id == "A"@,
        None => match str_of(field_of(field(piece, "SpecialToken"@), "id"@)) {
            Some(id) => special ==> field_of(known, id) is Some,
            None => false,
        },
    }
}

fn is_piece_sound(piece: &Json, known: Option<&Json>, special: bool) -> (b: bool)
    ensures
        b == piece_sound(*piece, at(known), special),
{
    match as_text(get_in(get(piece, "Sequence"), "id")) {
        Some(id) => same(id, "A"),
        None => match as_text(get_in(get(piece, "SpecialToken"), "id")) {
            Some(id) => !special || get_in(known, id).is_some(),
            None => false,
        },
    }
}

/// The part is a template.
pub open spec fn is_template(e: Json) -> bool {
    field(e, "single"@) is Some
}

/// Pieces of a template are sound.
pub open spec fn pieces_sound(pieces: Seq<Json>, known: Option<Json>, special: bool) -> bool {
    forall|i: int| 0 <= i < pieces.len() ==> piece_sound(#[trigger] pieces[i], known, special)
}

/// The pieces of a template for one text are sound.
pub open spec fn template_sound(e: Json, special: bool) -> bool {
    match array_of(field(e, "single"@)) {
        Some(pieces) => pieces_sound(pieces, field(e, "special_tokens"@), special),
        None => false,
    }
}

fn are_pieces_sound(pieces: &Vec<Json>, known: Option<&Json>, special: bool) -> (b: bool)
    ensures
        b == pieces_sound(pieces@, at(known), special),
{
    let mut i: usize = 0;
    while i < pieces.len()
        invariant
            i <= pieces@.len(),
            forall|k: int| 0 <= k < i ==> piece_sound(#[trigger] pieces@[k], at(known), special),
        decreases pieces@.len() - i,
    {
        if !is_piece_sound(&pieces[i], known, special) {
            assert(!piece_sound(pieces@[i as int], at(known), special));
            return false;
        }
        i += 1;
    }
    true
}

fn is_template_sound(e: &Json, special: bool) -> (b: bool)
    ensures
        b == template_sound(*e, special),
{
    match as_array(get(e, "single")) {
        Some(pieces) => are_pieces_sound(pieces, get(e, "special_tokens"), special),
        None => false,
    }
}

/// How many of the first `n` parts are templates.
pub open spec fn templates(parts: Seq<Json>, n: nat) -> nat
    decreases n,
{
    if n == 0 || n > parts.len() {
        0
    } else {
        templates(parts, (n - 1) as nat) + if is_template(parts[n - 1]) {
            1nat
        } else {
            0
        }
    }
}

/// There is at most one template, and it is sound: a second one would be handed
/// what the first has taken apart.
pub open spec fn processors_sound(parts: Seq<Json>, special: bool) -> bool {
    &&& templates(parts, parts.len()) <= 1
    &&& forall|i: int|
        0 <= i < parts.len() ==> (is_template(#[trigger] parts[i]) ==> template_sound(
            parts[i],
            special,
        ))
}

proof fn lemma_templates_grow(parts: Seq<Json>, a: nat, b: nat)
    requires
        a <= b <= parts.len(),
    ensures
        templates(parts, a) <= templates(parts, b),
    decreases b,
{
    if a < b {
        lemma_templates_grow(parts, a, (b - 1) as nat);
    }
}

fn are_processors_sound(parts: &Vec<&Json>, special: bool) -> (b: bool)
    ensures
        b == processors_sound(parts_at(parts@), special),
{
    let ghost all = parts_at(parts@);
    let mut seen: bool = false;
    let mut i: usize = 0;
    while i < parts.len()
        invariant
            i <= parts@.len(),
            all == parts_at(parts@),
            templates(all, i as nat) == (if seen {
                1nat
            } else {
                0
            }),
            forall|k: int|
                0 <= k < i ==> (is_template(#[trigger] all[k]) ==> template_sound(all[k], special)),
        decreases parts@.len() - i,
    {
        assert(all[i as int] == *parts@[i as int]);
        if get(parts[i], "single").is_some() {
            if seen {
                proof {
                    lemma_templates_grow(all, (i + 1) as nat, all.len());
                }
                return false;
            }
            if !is_template_sound(parts[i], special) {
                return false;
            }
            seen = true;
        }
        i += 1;
    }
    true
}

/// White space before an added token belongs to it.
pub open spec fn takes_left(t: Json) -> bool {
    bool_of(field(t, "lstrip"@)) == Some(true)
}

/// White space behind an added token belongs to it.
pub open spec fn takes_right(t: Json) -> bool {
    bool_of(field(t, "rstrip"@)) == Some(true)
}

/// All characters are white space.
pub open spec fn all_white(s: Text) -> bool {
    forall|i: int| 0 <= i < s.len() ==> white(#[trigger] s[i])
}

/// None of the characters is white space.
pub open spec fn no_white(s: Text) -> bool {
    forall|i: int| 0 <= i < s.len() ==> !white(#[trigger] s[i])
}

fn is_all_white(s: &str) -> (b: bool)
    ensures
        b == all_white(s@),
{
    let chars = chars_of(s);
    let mut i: usize = 0;
    while i < chars.len()
        invariant
            i <= chars@.len(),
            chars@ == s@,
            forall|k: int| 0 <= k < i ==> white(#[trigger] s@[k]),
        decreases chars@.len() - i,
    {
        if !is_white(chars[i]) {
            assert(!white(s@[i as int]));
            return false;
        }
        i += 1;
    }
    true
}

/// Whether none of the characters is white space.
pub fn has_no_white(s: &str) -> (b: bool)
    ensures
        b == no_white(s@),
{
    let chars = chars_of(s);
    let mut i: usize = 0;
    while i < chars.len()
        invariant
            i <= chars@.len(),
            chars@ == s@,
            forall|k: int| 0 <= k < i ==> !white(#[trigger] s@[k]),
        decreases chars@.len() - i,
    {
        if is_white(chars[i]) {
            assert(white(s@[i as int]));
            return false;
        }
        i += 1;
    }
    true
}

/// The document has no part under a name.
pub open spec fn lacks(j: Json, name: Text) -> bool {
    match field(j, name) {
        None => true,
        Some(Json::Null) => true,
        Some(_) => false,
    }
}

fn does_lack(j: &Json, name: &str) -> (b: bool)
    ensures
        b == lacks(*j, name@),
{
    match get(j, name) {
        None => true,
        Some(v) => match v {
            Json::Null => true,
            _ => false,
        },
    }
}

/// The document has no normalizer.
pub open spec fn bare(j: Json) -> bool {
    lacks(j, "normalizer"@)
}

/// Whether the document has no normalizer.
pub fn is_bare(j: &Json) -> (b: bool)
    ensures
        b == bare(*j),
{
    does_lack(j, "normalizer")
}

/// The document leaves texts as they are, up to its model, and the model does not
/// fall back to bytes, which may be more than those of the text.
pub open spec fn untouched(j: Json) -> bool {
    bare(j) && lacks(j, "pre_tokenizer"@) && bool_of(
        field_of(field(j, "model"@), "byte_fallback"@),
    ) != Some(true)
}

/// Whether the document leaves texts as they are, and its model does not fall
/// back to bytes.
pub fn is_untouched(j: &Json) -> (b: bool)
    ensures
        b == untouched(*j),
{
    is_bare(j) && does_lack(j, "pre_tokenizer") && as_bool(
        get_in(get(j, "model"), "byte_fallback"),
    ) != Some(true)
}

/// An added token that takes the white space before it may be found within
/// white space: it is white space, or may be once it is normalized.
pub open spec fn found_in_white(t: Json, plain: bool) -> bool {
    &&& takes_left(t)
    &&& (!plain && bool_of(field(t, "normalized"@)) == Some(true)) || (str_of(
        field(t, "content"@),
    ) matches Some(s) && all_white(s))
}

fn is_found_in_white(t: &Json, plain: bool) -> (b: bool)
    ensures
        b == found_in_white(*t, plain),
{
    if as_bool(get(t, "lstrip")) != Some(true) {
        return false;
    }
    if !plain && as_bool(get(t, "normalized")) == Some(true) {
        return true;
    }
    match as_text(get(t, "content")) {
        Some(s) => is_all_white(s),
        None => false,
    }
}

/// No two added tokens can lay claim to the same white space.
pub open spec fn tokens_sound(tokens: Seq<Json>, plain: bool) -> bool {
    !(some_part(tokens, |t: Json| takes_right(t)) && some_part(
        tokens,
        |t: Json| found_in_white(t, plain),
    ))
}

/// No two added tokens of the document can lay claim to the same white space.
pub open spec fn added_sound(j: Json) -> bool {
    match array_of(field(j, "added_tokens"@)) {
        Some(tokens) => tokens_sound(tokens, bare(j)),
        None => true,
    }
}

fn are_tokens_sound(tokens: &Vec<Json>, plain: bool) -> (b: bool)
    ensures
        b == tokens_sound(tokens@, plain),
{
    let mut right: bool = false;
    let mut within: bool = false;
    let mut i: usize = 0;
    while i < tokens.len()
        invariant
            i <= tokens@.len(),
            right <==> exists|k: int| 0 <= k < i && takes_right(#[trigger] tokens@[k]),
            within <==> exists|k: int| 0 <= k < i && found_in_white(#[trigger] tokens@[k], plain),
        decreases tokens@.len() - i,
    {
        if as_bool(get(&tokens[i], "rstrip")) == Some(true) {
            assert(takes_right(tokens@[i as int]));
            right = true;
        }
        if is_found_in_white(&tokens[i], plain) {
            assert(found_in_white(tokens@[i as int], plain));
            within = true;
        }
        i += 1;
    }
    proof {
        let (right_kind, within_kind) = (
            |t: Json| takes_right(t),
            |t: Json| found_in_white(t, plain),
        );
        if right {
            let k = choose|k: int| 0 <= k < i && takes_right(#[trigger] tokens@[k]);
            assert(right_kind(tokens@[k]));
        }
        if within {
            let k = choose|k: int| 0 <= k < i && found_in_white(#[trigger] tokens@[k], plain);
            assert(within_kind(tokens@[k]));
        }
    }
    !(right && within)
}

/// Whether no two added tokens of the document can lay claim to the same white
/// space.
pub fn is_added_sound(j: &Json) -> (b: bool)
    ensures
        b == added_sound(*j),
{
    match as_array(get(j, "added_tokens")) {
        Some(tokens) => are_tokens_sound(tokens, is_bare(j)),
        None => true,
    }
}

/// An added token is taken as it stands, or the normalizers can take it.
pub open spec fn token_taken(t: Json, parts: Seq<Json>) -> bool {
    bool_of(field(t, "normalized"@)) == Some(false) || (str_of(field(t, "content"@)) matches Some(
        s,
    ) ==> normalizes(parts, s))
}

/// The added tokens are taken.
pub open spec fn tokens_taken(tokens: Seq<Json>, parts: Seq<Json>) -> bool {
    forall|i: int| 0 <= i < tokens.len() ==> token_taken(#[trigger] tokens[i], parts)
}

fn are_tokens_taken(tokens: &Vec<Json>, steps: &Vec<NormalStep>, parts: Ghost<Seq<Json>>) -> (b:
    bool)
    requires
        all_kept(steps@, parts@),
    ensures
        b == tokens_taken(tokens@, parts@),
{
    let ghost all = parts@;
    let mut i: usize = 0;
    while i < tokens.len()
        invariant
            i <= tokens@.len(),
            all == parts@,
            all_kept(steps@, all),
            forall|k: int| 0 <= k < i ==> token_taken(#[trigger] tokens@[k], all),
        decreases tokens@.len() - i,
    {
        if as_bool(get(&tokens[i], "normalized")) != Some(false) {
            match as_text(get(&tokens[i], "content")) {
                Some(s) => if !does_normalize(steps, s, parts) {
                    assert(!token_taken(tokens@[i as int], all));
                    return false;
                },
                None => {},
            }
        }
        assert(token_taken(tokens@[i as int], all));
        i += 1;
    }
    true
}

/// The number of bytes that a text takes.
pub open spec fn byte_len(s: Text) -> nat {
    encode_utf8(s).len()
}

/// The length in bytes of the longest name.
pub open spec fn longest(entries: Seq<(String, Json)>) -> nat
    decreases entries.len(),
{
    if entries.len() == 0 {
        0
    } else {
        let before = longest(entries.drop_last());
        let last = byte_len(entries.last().0@);
        if before < last {
            last
        } else {
            before
        }
    }
}

/// The length of the longest token of a model.
pub open spec fn longest_token(vocab: Option<Json>) -> nat {
    match vocab {
        Some(Json::Object(entries)) => longest(entries@),
        _ => 0,
    }
}

fn find_longest(vocab: Option<&Json>) -> (n: usize)
    ensures
        n == longest_token(at(vocab)),
{
    match vocab {
        Some(j) => match j {
            Json::Object(entries) => {
                let mut n: usize = 0;
                let mut i: usize = 0;
                while i < entries.len()
                    invariant
                        i <= entries@.len(),
                        n == longest(entries@.take(i as int)),
                    decreases entries@.len() - i,
                {
                    let len: usize = entries[i].0.as_str().as_bytes().len();
                    let ghost front = entries@.take(i + 1);
                    assert(front.drop_last() =~= entries@.take(i as int));
                    assert(front.last() == entries@[i as int]);
                    if n < len {
                        n = len;
                    }
                    i += 1;
                }
                assert(entries@.take(i as int) =~= entries@);
                n
            },
            _ => 0,
        },
        None => 0,
    }
}

/// `n` bytes of a text end where a character ends.
pub open spec fn ends_character(s: Text, n: nat) -> bool {
    exists|k: int| 0 <= k <= s.len() && byte_len(#[trigger] s.take(k)) == n
}

fn does_end_character(s: &str, n: usize) -> (b: bool)
    ensures
        b == ends_character(s@, n as nat),
{
    let chars = chars_of(s);
    let mut front = String::new();
    let mut i: usize = 0;
    assert(s@.take(0) =~= front@);
    while i < chars.len()
        invariant
            i <= chars@.len(),
            chars@ == s@,
            front@ == s@.take(i as int),
            forall|k: int| 0 <= k < i ==> byte_len(#[trigger] s@.take(k)) != n,
        decreases chars@.len() - i,
    {
        if front.as_str().as_bytes().len() == n {
            assert(byte_len(s@.take(i as int)) == n);
            return true;
        }
        front.push(chars[i]);
        i += 1;
        assert(front@ =~= s@.take(i as int));
    }
    if front.as_str().as_bytes().len() == n {
        assert(byte_len(s@.take(i as int)) == n);
        return true;
    }
    false
}

/// What two tokens are merged into, without as many bytes of the second as the
/// prefix has, is no longer than the longest token, and these bytes end where a
/// character ends.
pub open spec fn pair_sound(a: Text, b: Text, prefix: nat, limit: nat) -> bool {
    &&& byte_len(a) + byte_len(b) <= limit + prefix
    &&& prefix > 0 ==> ends_character(b, prefix)
}

fn is_pair_sound(a: &str, b: &str, prefix: usize, limit: usize) -> (r: bool)
    ensures
        r == pair_sound(a@, b@, prefix as nat, limit as nat),
{
    a.as_bytes().len() as u128 + b.as_bytes().len() as u128 <= limit as u128 + prefix as u128 && (
    prefix == 0 || does_end_character(b, prefix))
}

/// A merge makes a token that the model can hold. It is a pair, or a text with a
/// space between the two.
pub open spec fn merge_sound(m: Json, prefix: nat, limit: nat) -> bool {
    match m {
        Json::Str(s) => match cut(s@, ' ') {
            Some((a, b)) => pair_sound(a, b, prefix, limit),
            None => true,
        },
        Json::Array(pair) => if pair@.len() == 2 {
            match (str_of(Some(pair@[0])), str_of(Some(pair@[1]))) {
                (Some(a), Some(b)) => pair_sound(a, b, prefix, limit),
                _ => true,
            }
        } else {
            true
        },
        _ => true,
    }
}

fn is_merge_sound(m: &Json, prefix: usize, limit: usize) -> (b: bool)
    ensures
        b == merge_sound(*m, prefix as nat, limit as nat),
{
    match m {
        Json::Str(s) => match cut_at(s, ' ') {
            Some((a, b)) => is_pair_sound(&a, &b, prefix, limit),
            None => true,
        },
        Json::Array(pair) => if pair.len() == 2 {
            match (as_text(Some(&pair[0])), as_text(Some(&pair[1]))) {
                (Some(a), Some(b)) => is_pair_sound(a, b, prefix, limit),
                _ => true,
            }
        } else {
            true
        },
        _ => true,
    }
}

/// Only the empty text takes no bytes.
proof fn lemma_no_bytes(s: Text)
    ensures
        byte_len(s) == 0 <==> s.len() == 0,
{
    reveal_with_fuel(encode_utf8, 2);
}

/// The prefix of tokens that continue a word.
pub open spec fn prefix_of(model: Option<Json>) -> Text {
    match str_of(field_of(model, "continuing_subword_prefix"@)) {
        Some(s) => s,
        None => Seq::empty(),
    }
}

/// Merges make tokens of no more than `limit` bytes.
pub open spec fn merges_sound(merges: Seq<Json>, prefix: nat, limit: nat) -> bool {
    forall|i: int| 0 <= i < merges.len() ==> merge_sound(#[trigger] merges[i], prefix, limit)
}

/// The merges of a model make tokens that it can hold, and tokens that are held
/// in a tree are not too long.
pub open spec fn model_sound(model: Option<Json>) -> bool {
    (match array_of(field_of(model, "merges"@)) {
        Some(merges) => merges_sound(
            merges,
            byte_len(prefix_of(model)),
            longest_token(field_of(model, "vocab"@)),
        ),
        None => true,
    }) && (match array_of(field_of(model, "vocab"@)) {
        Some(pieces) => pieces_short(pieces),
        None => true,
    })
}

/// The longest token of a model that lists its tokens with their scores.
pub const MAX_PIECE: usize = 1024;

/// A token with its score is not too long.
pub open spec fn piece_short(piece: Json) -> bool {
    match array_of(Some(piece)) {
        Some(pair) => pair.len() > 0 ==> (str_of(Some(pair[0])) matches Some(s) ==> byte_len(s)
            <= MAX_PIECE),
        None => true,
    }
}

/// Tokens with their scores are not too long.
pub open spec fn pieces_short(pieces: Seq<Json>) -> bool {
    forall|i: int| 0 <= i < pieces.len() ==> piece_short(#[trigger] pieces[i])
}

fn is_piece_short(piece: &Json) -> (b: bool)
    ensures
        b == piece_short(*piece),
{
    match as_array(Some(piece)) {
        Some(pair) => if pair.len() > 0 {
            match as_text(Some(&pair[0])) {
                Some(s) => s.as_str().as_bytes().len() <= MAX_PIECE,
                None => true,
            }
        } else {
            true
        },
        None => true,
    }
}

fn are_pieces_short(pieces: &Vec<Json>) -> (b: bool)
    ensures
        b == pieces_short(pieces@),
{
    let mut i: usize = 0;
    while i < pieces.len()
        invariant
            i <= pieces@.len(),
            forall|k: int| 0 <= k < i ==> piece_short(#[trigger] pieces@[k]),
        decreases pieces@.len() - i,
    {
        if !is_piece_short(&pieces[i]) {
            assert(!piece_short(pieces@[i as int]));
            return false;
        }
        i += 1;
    }
    true
}

fn are_merges_sound(merges: &Vec<Json>, prefix: usize, limit: usize) -> (b: bool)
    ensures
        b == merges_sound(merges@, prefix as nat, limit as nat),
{
    let mut i: usize = 0;
    while i < merges.len()
        invariant
            i <= merges@.len(),
            forall|k: int| 0 <= k < i ==> merge_sound(
                #[trigger] merges@[k],
                prefix as nat,
                limit as nat,
            ),
        decreases merges@.len() - i,
    {
        if !is_merge_sound(&merges[i], prefix, limit) {
            assert(!merge_sound(merges@[i as int], prefix as nat, limit as nat));
            return false;
        }
        i += 1;
    }
    true
}

fn is_model_sound(model: Option<&Json>) -> (b: bool)
    ensures
        b == model_sound(at(model)),
{
    let merges = match as_array(get_in(model, "merges")) {
        Some(merges) => {
            let limit: usize = find_longest(get_in(model, "vocab"));
            let prefix: usize = match as_text(get_in(model, "continuing_subword_prefix")) {
                Some(s) => s.as_str().as_bytes().len(),
                None => {
                    proof {
                        lemma_no_bytes(Seq::empty());
                    }
                    0
                },
            };
            are_merges_sound(merges, prefix, limit)
        },
        None => true,
    };
    let pieces = match as_array(get_in(model, "vocab")) {
        Some(pieces) => are_pieces_short(pieces),
        None => true,
    };
    merges && pieces
}

/// All of the parts are sound.
pub open spec fn all_sound(parts: Seq<Json>, sound: spec_fn(Json) -> bool) -> bool {
    forall|i: int| 0 <= i < parts.len() ==> sound(#[trigger] parts[i])
}

/// A tokenizer can be made of the document, if it describes one.
pub open spec fn loads(j: Json) -> bool {
    &&& model_sound(field(j, "model"@))
    &&& normalizers(j) matches Some(parts) && {
        &&& all_sound(parts, |e: Json| normalizer_sound(e))
        &&& array_of(field(j, "added_tokens"@)) matches Some(tokens) ==> tokens_taken(tokens, parts)
    }
}

fn are_tables_there(steps: &Vec<NormalStep>, parts: Ghost<Seq<Json>>) -> (b: bool)
    requires
        all_kept(steps@, parts@),
    ensures
        b == all_sound(parts@, |e: Json| normalizer_sound(e)),
{
    let ghost all = parts@;
    let ghost kind = |e: Json| normalizer_sound(e);
    let mut i: usize = 0;
    while i < steps.len()
        invariant
            i <= steps@.len(),
            all == parts@,
            all_kept(steps@, all),
            kind == (|e: Json| normalizer_sound(e)),
            forall|k: int| 0 <= k < i ==> kind(#[trigger] all[k]),
        decreases steps@.len() - i,
    {
        let s = &steps[i];
        assert(s.keeps(all[i as int]));
        if s.replaces && s.map.is_none() {
            assert(!kind(all[i as int]));
            return false;
        }
        i += 1;
    }
    true
}

/// Whether a tokenizer can be made of the document.
pub fn is_loadable(j: &Json) -> (b: bool)
    ensures
        b == loads(*j),
{
    if !is_model_sound(get(j, "model")) {
        return false;
    }
    let steps = match read_normal_steps(j) {
        Some(steps) => steps,
        None => return false,
    };
    let parts: Ghost<Seq<Json>> = Ghost(normalizers(*j)->0);
    if !are_tables_there(&steps, parts) {
        return false;
    }
    match as_array(get(j, "added_tokens")) {
        Some(tokens) => are_tokens_taken(tokens, &steps, parts),
        None => true,
    }
}

/// The parts of the document that split a text can do so.
pub open spec fn splitters_sound(j: Json) -> bool {
    parts_of(j, "pre_tokenizer"@, "pretokenizers"@) matches Some(parts) && all_sound(
        parts,
        |e: Json| splitter_sound(e),
    )
}

/// Whether the parts of the document that split a text can do so.
pub fn are_splitters_sound(j: &Json) -> (b: bool)
    ensures
        b == splitters_sound(*j),
{
    let parts = match gather(j, "pre_tokenizer", "pretokenizers") {
        Some(parts) => parts,
        None => return false,
    };
    let ghost all = parts_at(parts@);
    let ghost kind = |e: Json| splitter_sound(e);
    let mut i: usize = 0;
    while i < parts.len()
        invariant
            i <= parts@.len(),
            all == parts_at(parts@),
            kind == (|e: Json| splitter_sound(e)),
            parts_of(*j, "pre_tokenizer"@, "pretokenizers"@) == Some(all),
            forall|k: int| 0 <= k < i ==> kind(#[trigger] all[k]),
        decreases parts@.len() - i,
    {
        assert(all[i as int] == *parts@[i as int]);
        if !is_splitter_sound(parts[i]) {
            assert(!kind(all[i as int]));
            return false;
        }
        i += 1;
    }
    true
}

/// The templates of the document are sound.
pub open spec fn templates_sound(j: Json, special: bool) -> bool {
    parts_of(j, "post_processor"@, "processors"@) matches Some(parts) && processors_sound(
        parts,
        special,
    )
}

/// Whether the templates of the document are sound.
pub fn are_templates_sound(j: &Json, special: bool) -> (b: bool)
    ensures
        b == templates_sound(*j, special),
{
    match gather(j, "post_processor", "processors") {
        Some(parts) => are_processors_sound(&parts, special),
        None => false,
    }
}

/// A text can be split with the tokenizer of the document, as far as its parts
/// decide.
pub open spec fn splits(j: Json, text: Text, special: bool) -> bool {
    &&& normalizers(j) matches Some(parts) && normalizes(parts, text)
    &&& added_sound(j) || (bare(j) && no_white(text))
    &&& splitters_sound(j)
    &&& templates_sound(j, special)
}

/// What a step of putting tokens together does, as far as it decides whether it
/// can be taken.
#[derive(Debug, Clone, Copy)]
pub struct JoinStep {
    /// It only holds other steps.
    pub holds_others: bool,
    /// The character that is cut off, and how often at most at the two ends.
    pub content: Option<char>,
    pub start: u64,
    pub stop: u64,
    /// It counts the tokens that it is handed.
    pub counts: bool,
    /// It may leave tokens out.
    pub drops: bool,
    /// It has a pattern that moves its matches.
    pub moves: bool,
}

/// The first character of a text.
pub open spec fn first_char(s: Option<Text>) -> Option<char> {
    match s {
        Some(t) => if t.len() > 0 {
            Some(t[0])
        } else {
            None
        },
        None => None,
    }
}

/// The number, or 0 where there is none.
pub open spec fn or_zero(n: Option<u64>) -> u64 {
    match n {
        Some(v) => v,
        None => 0,
    }
}

/// What a part of the document does to tokens that are put together.
pub open spec fn join_step(e: Json) -> JoinStep {
    JoinStep {
        holds_others: typed(e, "Sequence"@),
        content: first_char(str_of(field(e, "content"@))),
        start: or_zero(u64_of(field(e, "start"@))),
        stop: or_zero(u64_of(field(e, "stop"@))),
        counts: typed(e, "BPEDecoder"@) || field(e, "suffix"@) is Some,
        drops: typed(e, "CTC"@) || field(e, "pad_token"@) is Some,
        moves: moves_matches(e),
    }
}

fn take_join_step(e: &Json) -> (s: JoinStep)
    ensures
        s == join_step(*e),
{
    let content = match as_text(get(e, "content")) {
        Some(s) => {
            let chars = chars_of(s);
            if chars.len() > 0 {
                Some(chars[0])
            } else {
                None
            }
        },
        None => None,
    };
    let start: u64 = match as_u64(get(e, "start")) {
        Some(n) => n,
        None => 0,
    };
    let stop: u64 = match as_u64(get(e, "stop")) {
        Some(n) => n,
        None => 0,
    };
    JoinStep {
        holds_others: is_typed(e, "Sequence"),
        content,
        start,
        stop,
        counts: is_typed(e, "BPEDecoder") || get(e, "suffix").is_some(),
        drops: is_typed(e, "CTC") || get(e, "pad_token").is_some(),
        moves: does_move_matches(e),
    }
}

/// The steps of putting tokens together, if the document's can be followed.
pub open spec fn join_steps(j: Json) -> Option<Seq<JoinStep>> {
    match parts_of(j, "decoder"@, "decoders"@) {
        Some(parts) => Some(parts.map_values(|e: Json| join_step(e))),
        None => None,
    }
}

/// The steps of putting tokens together, if the document's can be followed.
pub fn read_join_steps(j: &Json) -> (r: Option<Vec<JoinStep>>)
    ensures
        match r {
            Some(v) => join_steps(*j) == Some(v@),
            None => join_steps(*j) is None,
        },
{
    let parts = match gather(j, "decoder", "decoders") {
        Some(parts) => parts,
        None => return None,
    };
    let ghost all = parts_at(parts@);
    let ghost wanted = all.map_values(|e: Json| join_step(e));
    let mut out: Vec<JoinStep> = Vec::new();
    let mut i: usize = 0;
    while i < parts.len()
        invariant
            i <= parts@.len(),
            all == parts_at(parts@),
            wanted == all.map_values(|e: Json| join_step(e)),
            parts_of(*j, "decoder"@, "decoders"@) == Some(all),
            out@ == wanted.take(i as int),
        decreases parts@.len() - i,
    {
        assert(all[i as int] == *parts@[i as int]);
        out.push(take_join_step(parts[i]));
        i += 1;
        assert(out@ =~= wanted.take(i as int));
    }
    assert(wanted.take(i as int) =~= wanted);
    Some(out)
}

/// Cutting a step's character off both ends of a token leaves it in one piece:
/// the token has another character, or enough of this one.
pub open spec fn cut_sound(s: JoinStep, token: Text) -> bool {
    s.start + s.stop <= token.len() || exists|i: int|
        0 <= i < token.len() && Some(#[trigger] token[i]) != s.content
}

/// A step can be taken. It does not move matches. One that cuts characters off
/// the end is handed the tokens as they stand, and each of them is left in one
/// piece. One that counts tokens is handed some.
pub open spec fn step_sound(steps: Seq<JoinStep>, i: int, tokens: Seq<Text>) -> bool {
    &&& !steps[i].moves
    &&& steps[i].stop > 0 ==> {
        &&& forall|k: int| 0 <= k < i ==> (#[trigger] steps[k]).holds_others
        &&& forall|k: int| 0 <= k < tokens.len() ==> cut_sound(steps[i], #[trigger] tokens[k])
    }
    &&& steps[i].counts ==> {
        &&& tokens.len() > 0
        &&& forall|k: int| 0 <= k < i ==> !(#[trigger] steps[k]).drops
    }
}

/// Tokens can be put together in these steps.
pub open spec fn joins(steps: Seq<JoinStep>, tokens: Seq<Text>) -> bool {
    forall|i: int| 0 <= i < steps.len() ==> #[trigger] step_sound(steps, i, tokens)
}

fn is_cut_sound(s: &JoinStep, token: &str) -> (b: bool)
    ensures
        b == cut_sound(*s, token@),
{
    let chars = chars_of(token);
    if s.start as u128 + s.stop as u128 <= chars.len() as u128 {
        return true;
    }
    let mut i: usize = 0;
    while i < chars.len()
        invariant
            i <= chars@.len(),
            chars@ == token@,
            forall|k: int| 0 <= k < i ==> Some(#[trigger] token@[k]) == s.content,
        decreases chars@.len() - i,
    {
        if Some(chars[i]) != s.content {
            assert(Some(token@[i as int]) != s.content);
            return true;
        }
        i += 1;
    }
    false
}

fn are_cuts_sound(s: &JoinStep, tokens: &Vec<String>) -> (b: bool)
    ensures
        b == forall|k: int|
            0 <= k < tokens@.len() ==> cut_sound(*s, #[trigger] texts(tokens@)[k]),
{
    let mut i: usize = 0;
    while i < tokens.len()
        invariant
            i <= tokens@.len(),
            forall|k: int| 0 <= k < i ==> cut_sound(*s, #[trigger] texts(tokens@)[k]),
        decreases tokens@.len() - i,
    {
        assert(texts(tokens@)[i as int] == tokens@[i as int]@);
        if !is_cut_sound(s, &tokens[i]) {
            return false;
        }
        i += 1;
    }
    true
}

/// Whether tokens can be put together in these steps.
pub fn are_joining(steps: &Vec<JoinStep>, tokens: &Vec<String>) -> (b: bool)
    ensures
        b == joins(steps@, texts(tokens@)),
{
    let mut raw: bool = true;
    let mut dropped: bool = false;
    let mut i: usize = 0;
    while i < steps.len()
        invariant
            i <= steps@.len(),
            raw <==> forall|k: int| 0 <= k < i ==> (#[trigger] steps@[k]).holds_others,
            !dropped <==> forall|k: int| 0 <= k < i ==> !(#[trigger] steps@[k]).drops,
            forall|k: int| 0 <= k < i ==> #[trigger] step_sound(steps@, k, texts(tokens@)),
        decreases steps@.len() - i,
    {
        let s = &steps[i];
        if s.moves {
            assert(!step_sound(steps@, i as int, texts(tokens@)));
            return false;
        }
        if s.stop > 0 && !(raw && are_cuts_sound(s, tokens)) {
            assert(!step_sound(steps@, i as int, texts(tokens@)));
            return false;
        }
        if s.counts && (tokens.len() == 0 || dropped) {
            assert(!step_sound(steps@, i as int, texts(tokens@)));
            return false;
        }
        assert(step_sound(steps@, i as int, texts(tokens@)));
        if !s.holds_others {
            raw = false;
        }
        if s.drops {
            dropped = true;
        }
        i += 1;
    }
    true
}

/// Some part is of a kind.
pub open spec fn some_part(parts: Seq<Json>, kind: spec_fn(Json) -> bool) -> bool {
    exists|i: int| 0 <= i < parts.len() && kind(#[trigger] parts[i])
}

/// A document without a normalizer, a pre-tokenizer, a post-processor and added
/// tokens stands in no text's way.
pub proof fn law_bare_document_splits(j: Json, text: Text, special: bool)
    requires
        lacks(j, "normalizer"@),
        lacks(j, "pre_tokenizer"@),
        lacks(j, "post_processor"@),
        lacks(j, "added_tokens"@),
    ensures
        splits(j, text, special),
{
    assert(templates(Seq::empty(), 0) == 0);
}

/// A document without a decoder puts any tokens together.
pub proof fn law_bare_document_joins(j: Json, tokens: Seq<Text>)
    requires
        lacks(j, "decoder"@),
    ensures
        join_steps(j) matches Some(steps) && joins(steps, tokens),
{
}

/// A document whose model is sound and that has no normalizer is loaded.
pub proof fn law_bare_document_loads(j: Json)
    requires
        lacks(j, "normalizer"@),
        model_sound(field(j, "model"@)),
    ensures
        loads(j),
{
    assert(normalizers(j) == Some(Seq::<Json>::empty()));
    if let Some(tokens) = array_of(field(j, "added_tokens"@)) {
        assert(forall|s: Text| #[trigger] normalizes(Seq::<Json>::empty(), s));
    }
}

} // verus!
