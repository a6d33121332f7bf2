//! Strings as sequences of characters: the few searches, splits and number
//! renderings that the rest of the library is written with.
use vstd::prelude::*;
use vstd::utf8::encode_utf8;

verus! {

/// A piece of text.
pub type Text = Seq<char>;

/// The texts of a list of strings.
pub open spec fn texts(v: Seq<String>) -> Seq<Text> {
    v.map_values(|s: String| s@)
}

/// `p` stands in `s` at position `i`.
pub open spec fn stands_at(s: Text, p: Text, i: int) -> bool {
    0 <= i && i + p.len() <= s.len() && s.subrange(i, i + p.len()) == p
}

/// `p` stands somewhere in `s`.
pub open spec fn has(s: Text, p: Text) -> bool {
    exists|i: int| stands_at(s, p, i)
}

/// `s` begins with `p`.
pub open spec fn begins(s: Text, p: Text) -> bool {
    stands_at(s, p, 0)
}

/// `s` ends with `p`.
pub open spec fn ends(s: Text, p: Text) -> bool {
    stands_at(s, p, s.len() - p.len())
}

/// Appends one character.
///
/// Trusted: `String::push` of std appends the given character to the end of
/// the string.
pub assume_specification[ std::string::String::push ](s: &mut std::string::String, c: char)
    ensures
        final(s)@ == old(s)@.push(c),
;

/// A text without characters beyond ASCII.
pub open spec fn ascii(s: Text) -> bool {
    forall|i: int| 0 <= i < s.len() ==> (#[trigger] s[i] as u32) < 0x80
}

/// An ASCII character in lower case.
pub open spec fn ascii_lower(c: char) -> char {
    if 'A' <= c <= 'Z' {
        (c as u32 + 32) as char
    } else {
        c
    }
}

/// A text with characters beyond ASCII, in lower case.
pub uninterp spec fn lowercase_beyond(s: Seq<char>) -> Seq<char>;

/// A text in lower case.
pub open spec fn lowercase(s: Text) -> Text {
    if ascii(s) {
        s.map_values(|c: char| ascii_lower(c))
    } else {
        lowercase_beyond(s)
    }
}

/// A text in lower case.
///
/// Trusted: `str::to_lowercase` of std maps a text to its lowercase
/// equivalent, which depends on the text alone. Of ASCII characters it changes
/// the capital letters only. What becomes of other texts is not stated.
#[verifier::external_body]
pub(crate) fn to_lowercase(s: &str) -> (out: String)
    ensures
        ascii(s@) ==> out@ == s@.map_values(|c: char| ascii_lower(c)),
        !ascii(s@) ==> out@ == lowercase_beyond(s@),
{
    s.to_lowercase()
}

/// A character is white space: it has the Unicode property `White_Space`.
pub open spec fn white(c: char) -> bool {
    let n = c as u32;
    9 <= n <= 13 || n == 0x20 || n == 0x85 || n == 0xA0 || n == 0x1680 || 0x2000 <= n <= 0x200A || n
        == 0x2028 || n == 0x2029 || n == 0x202F || n == 0x205F || n == 0x3000
}

/// Whether a character is white space.
pub(crate) fn is_white(c: char) -> (b: bool)
    ensures
        b == white(c),
{
    let n: u32 = c as u32;
    (9 <= n && n <= 13) || n == 0x20 || n == 0x85 || n == 0xA0 || n == 0x1680 || (0x2000 <= n && n
        <= 0x200A) || n == 0x2028 || n == 0x2029 || n == 0x202F || n == 0x205F || n == 0x3000
}

/// A text from its first character on that is not white space.
pub open spec fn without_lead(s: Text) -> Text
    decreases s.len(),
{
    if s.len() > 0 && white(s[0]) {
        without_lead(s.skip(1))
    } else {
        s
    }
}

/// A text up to its last character that is not white space.
pub open spec fn without_tail(s: Text) -> Text
    decreases s.len(),
{
    if s.len() > 0 && white(s.last()) {
        without_tail(s.drop_last())
    } else {
        s
    }
}

/// A text without the white space at its ends.
pub open spec fn trimmed(s: Text) -> Text {
    without_tail(without_lead(s))
}

/// Takes the white space off both ends.
pub(crate) fn trim(s: &str) -> (out: String)
    ensures
        out@ == trimmed(s@),
{
    let chars = chars_of(s);
    let mut from: usize = 0;
    assert(s@.skip(0) =~= s@);
    while from < chars.len() && is_white(chars[from])
        invariant
            from <= chars@.len(),
            chars@ == s@,
            without_lead(s@) == without_lead(s@.skip(from as int)),
        ensures
            from <= chars@.len(),
            without_lead(s@) == s@.skip(from as int),
        decreases chars@.len() - from,
    {
        assert(s@.skip(from as int).skip(1) =~= s@.skip(from + 1));
        from += 1;
    }
    let ghost kept = s@.skip(from as int);
    let mut to: usize = chars.len();
    assert(s@.subrange(from as int, to as int) =~= kept);
    while to > from && is_white(chars[to - 1])
        invariant
            from <= to <= chars@.len(),
            chars@ == s@,
            without_tail(kept) == without_tail(s@.subrange(from as int, to as int)),
        ensures
            from <= to <= chars@.len(),
            without_tail(kept) == s@.subrange(from as int, to as int),
        decreases to,
    {
        assert(s@.subrange(from as int, to as int).drop_last() =~= s@.subrange(
            from as int,
            to - 1,
        ));
        to -= 1;
    }
    slice_string(&chars, from, to)
}

/// What stands between one white space character and the next.
pub open spec fn pieces(s: Text) -> Seq<Text>
    decreases s.len(),
{
    if s.len() == 0 {
        seq![seq![]]
    } else {
        let before = pieces(s.drop_last());
        if white(s.last()) {
            before.push(seq![])
        } else {
            before.drop_last().push(before.last().push(s.last()))
        }
    }
}

/// A piece of a text is no word if it is empty.
pub open spec fn is_word() -> spec_fn(Text) -> bool {
    |p: Text| p.len() > 0
}

/// The words of a text: what stands between white space.
pub open spec fn words(s: Text) -> Seq<Text> {
    pieces(s).filter(is_word())
}

/// Splits a text into its words.
pub(crate) fn split_words(s: &str) -> (out: Vec<String>)
    ensures
        texts(out@) == words(s@),
{
    let chars = chars_of(s);
    let mut out: Vec<String> = Vec::new();
    let mut word = String::new();
    let ghost mut closed: Seq<Text> = seq![];
    let mut i: usize = 0;
    proof {
        reveal(Seq::filter);
        assert(word@ =~= seq![]);
        assert(s@.take(0) =~= seq![]);
        assert(pieces(s@.take(0)) =~= closed.push(word@));
        assert(texts(out@) =~= closed.filter(is_word()));
    }
    while i < chars.len()
        invariant
            i <= chars@.len(),
            chars@ == s@,
            pieces(s@.take(i as int)) == closed.push(word@),
            texts(out@) == closed.filter(is_word()),
        decreases chars@.len() - i,
    {
        let ghost front = s@.take(i + 1);
        assert(front.drop_last() =~= s@.take(i as int));
        assert(closed.push(word@).drop_last() =~= closed);
        if is_white(chars[i]) {
            let ghost grown = closed.push(word@);
            if word.as_str().unicode_len() > 0 {
                out.push(word);
            }
            proof {
                reveal(Seq::filter);
                assert(grown.drop_last() =~= closed);
                assert(texts(out@) =~= grown.filter(is_word()));
                closed = grown;
            }
            word = String::new();
            assert(word@ =~= seq![]);
        } else {
            word.push(chars[i]);
        }
        i += 1;
        assert(pieces(front) =~= closed.push(word@));
    }
    assert(s@.take(i as int) =~= s@);
    proof {
        reveal(Seq::filter);
        assert(closed.push(word@).drop_last() =~= closed);
    }
    if word.as_str().unicode_len() > 0 {
        out.push(word);
    }
    assert(texts(out@) =~= closed.push(word@).filter(is_word()));
    out
}

/// The characters of a string, in order.
pub fn chars_of(s: &str) -> (out: Vec<char>)
    ensures
        out@ == s@,
{
    let mut out: Vec<char> = Vec::new();
    for c in it: s.chars()
        invariant
            it.seq() == s@,
            out@ == s@.take(it.index() as int),
    {
        out.push(c);
    }
    out
}

/// The string made of the characters `from..to` of `chars`.
pub fn slice_string(chars: &Vec<char>, from: usize, to: usize) -> (out: String)
    requires
        from <= to <= chars.len(),
    ensures
        out@ == chars@.subrange(from as int, to as int),
{
    let mut out = String::new();
    let mut i: usize = from;
    while i < to
        invariant
            from <= i <= to <= chars.len(),
            out@ == chars@.subrange(from as int, i as int),
        decreases to - i,
    {
        out.push(chars[i]);
        i += 1;
    }
    out
}

/// Whether `p` stands in `s` at position `i`.
pub fn is_at(s: &Vec<char>, p: &Vec<char>, i: usize) -> (found: bool)
    ensures
        found == stands_at(s@, p@, i as int),
{
    if p.len() > s.len() || i > s.len() - p.len() {
        return false;
    }
    let mut j: usize = 0;
    while j < p.len()
        invariant
            j <= p.len(),
            i + p.len() <= s.len(),
            forall|k: int| 0 <= k < j ==> s@[i + k] == p@[k],
        decreases p.len() - j,
    {
        if s[i + j] != p[j] {
            proof {
                assert(s@.subrange(i as int, i + p@.len())[j as int] != p@[j as int]);
            }
            return false;
        }
        j += 1;
    }
    assert(s@.subrange(i as int, i + p@.len()) =~= p@);
    true
}

/// The first position at which `p` stands in `s`, at `from` or later.
#[verifier::opaque]
pub open spec fn first_at(s: Text, p: Text, from: int) -> Option<int> {
    if exists|i: int| from <= i && stands_at(s, p, i) {
        Some(choose|i: int| from <= i && stands_at(s, p, i) && forall|j: int|
            from <= j < i ==> !stands_at(s, p, j))
    } else {
        None
    }
}

/// Finds `p` in `s` from position `from` on.
pub fn find_from(s: &Vec<char>, p: &Vec<char>, from: usize) -> (found: Option<usize>)
    ensures
        match found {
            Some(i) => first_at(s@, p@, from as int) == Some(i as int) && from <= i && stands_at(
                s@,
                p@,
                i as int,
            ) && forall|j: int| from <= j < i ==> !stands_at(s@, p@, j),
            None => first_at(s@, p@, from as int) is None && forall|j: int|
                from <= j ==> !stands_at(s@, p@, j),
        },
{
    reveal(first_at);
    let mut i: usize = from;
    while i <= s.len()
        invariant
            from <= i,
            i <= s.len() + 1 || i == from,
            forall|j: int| from <= j < i ==> !stands_at(s@, p@, j),
        decreases s.len() + 1 - i,
    {
        if is_at(s, p, i) {
            proof {
                reveal(first_at);
                let c = choose|k: int| from <= k && stands_at(s@, p@, k) && forall|j: int|
                    from <= j < k ==> !stands_at(s@, p@, j);
                assert(from <= c && stands_at(s@, p@, c) && forall|j: int|
                    from <= j < c ==> !stands_at(s@, p@, j));
                assert(c == i);
            }
            return Some(i);
        }
        if i == s.len() {
            proof {
                reveal(first_at);
                assert forall|j: int| from <= j implies !stands_at(s@, p@, j) by {}
            }
            return None;
        }
        i += 1;
    }
    None
}

/// Whether `p` stands in `s`.
pub fn contains(s: &str, p: &str) -> (found: bool)
    ensures
        found == has(s@, p@),
{
    let sc = chars_of(s);
    let pc = chars_of(p);
    match find_from(&sc, &pc, 0) {
        Some(i) => {
            assert(stands_at(s@, p@, i as int));
            true
        },
        None => false,
    }
}

/// Whether `s` begins with `p`.
pub fn starts_with(s: &str, p: &str) -> (found: bool)
    ensures
        found == begins(s@, p@),
{
    let sc = chars_of(s);
    let pc = chars_of(p);
    is_at(&sc, &pc, 0)
}

/// Whether `s` ends with `p`.
pub fn ends_with(s: &str, p: &str) -> (found: bool)
    ensures
        found == ends(s@, p@),
{
    let sc = chars_of(s);
    let pc = chars_of(p);
    if pc.len() > sc.len() {
        return false;
    }
    is_at(&sc, &pc, sc.len() - pc.len())
}

/// Whether the two texts are the same.
pub fn same(a: &str, b: &str) -> (eq: bool)
    ensures
        eq == (a@ == b@),
{
    let ab = a.as_bytes();
    let bb = b.as_bytes();
    if ab.len() != bb.len() {
        return false;
    }
    let mut i: usize = 0;
    while i < ab.len()
        invariant
            i <= ab@.len(),
            ab@.len() == bb@.len(),
            ab@ == encode_utf8(a@),
            bb@ == encode_utf8(b@),
            forall|k: int| 0 <= k < i ==> ab@[k] == bb@[k],
        decreases ab@.len() - i,
    {
        if ab[i] != bb[i] {
            return false;
        }
        i += 1;
    }
    proof {
        assert(ab@ =~= bb@);
        vstd::utf8::encode_utf8_decode_utf8(a@);
        vstd::utf8::encode_utf8_decode_utf8(b@);
    }
    true
}

/// `s` without its ending `p`, if it has that ending.
pub fn strip_suffix(s: &str, p: &str) -> (rest: Option<String>)
    ensures
        match rest {
            Some(r) => ends(s@, p@) && r@ == s@.take(s@.len() - p@.len()),
            None => !ends(s@, p@),
        },
{
    let sc = chars_of(s);
    let pc = chars_of(p);
    if pc.len() > sc.len() || !is_at(&sc, &pc, sc.len() - pc.len()) {
        return None;
    }
    Some(slice_string(&sc, 0, sc.len() - pc.len()))
}

/// `s` without its beginning `p`, if it has that beginning.
pub fn strip_prefix(s: &str, p: &str) -> (rest: Option<String>)
    ensures
        match rest {
            Some(r) => begins(s@, p@) && r@ == s@.skip(p@.len() as int),
            None => !begins(s@, p@),
        },
{
    let sc = chars_of(s);
    let pc = chars_of(p);
    if !is_at(&sc, &pc, 0) {
        return None;
    }
    Some(slice_string(&sc, pc.len(), sc.len()))
}

/// The concatenation of two texts.
pub fn join2(a: &str, b: &str) -> (out: String)
    ensures
        out@ == a@ + b@,
{
    let mut out = a.to_owned();
    out.append(b);
    out
}

/// `s` with every `p` replaced by `w`, from the left. `p` is not empty.
pub open spec fn replaced(s: Text, p: Text, w: Text) -> Text
    decreases s.len(),
{
    match first_at(s, p, 0) {
        Some(i) => if p.len() > 0 && 0 <= i && i + p.len() <= s.len() {
            s.take(i) + w + replaced(s.skip(i + p.len()), p, w)
        } else {
            s
        },
        None => s,
    }
}

proof fn lemma_stands_in_rest(s: Text, p: Text, from: int, i: int)
    requires
        0 <= from <= s.len(),
        0 <= i,
    ensures
        stands_at(s.skip(from), p, i) == stands_at(s, p, from + i),
{
    if i + p.len() <= s.skip(from).len() {
        assert(s.skip(from).subrange(i, i + p.len()) =~= s.subrange(from + i, from + i + p.len()));
    }
}

proof fn lemma_replaced_at(s: Text, p: Text, w: Text, from: int, at: int)
    requires
        0 <= from <= at,
        p.len() > 0,
        from <= s.len(),
        stands_at(s, p, at),
        forall|j: int| from <= j < at ==> !stands_at(s, p, j),
    ensures
        replaced(s.skip(from), p, w) == s.subrange(from, at) + w + replaced(
            s.skip(at + p.len()),
            p,
            w,
        ),
{
    let rest = s.skip(from);
    let i = at - from;
    lemma_stands_in_rest(s, p, from, i);
    assert forall|j: int| 0 <= j < i implies !stands_at(rest, p, j) by {
        lemma_stands_in_rest(s, p, from, j);
        assert(!stands_at(s, p, from + j));
    }
    lemma_first_at_is(rest, p, i);
    assert(rest.skip(i + p.len()) =~= s.skip(at + p.len()));
    assert(rest.take(i) =~= s.subrange(from, at));
}

proof fn lemma_replaced_nowhere(s: Text, p: Text, w: Text, from: int)
    requires
        0 <= from <= s.len(),
        forall|j: int| from <= j ==> !stands_at(s, p, j),
    ensures
        replaced(s.skip(from), p, w) == s.skip(from),
{
    reveal(first_at);
    let rest = s.skip(from);
    assert forall|j: int| 0 <= j implies !stands_at(rest, p, j) by {
        lemma_stands_in_rest(s, p, from, j);
        assert(!stands_at(s, p, from + j));
    }
}

/// Replaces every `p` in `s` by `w`.
pub fn replace(s: &str, p: &str, w: &str) -> (out: String)
    requires
        p@.len() > 0,
    ensures
        out@ == replaced(s@, p@, w@),
{
    let sc = chars_of(s);
    let pc = chars_of(p);
    let n: usize = sc.len();
    let mut out = String::new();
    let mut from: usize = 0;
    assert(s@.skip(0) =~= s@);
    assert(out@ + replaced(s@.skip(0), p@, w@) =~= replaced(s@, p@, w@));
    let mut next: Option<usize> = find_from(&sc, &pc, 0);
    while next.is_some()
        invariant
            from <= n,
            n == sc.len(),
            sc@ == s@,
            pc@ == p@,
            p@.len() > 0,
            match next {
                Some(at) => from <= at && stands_at(s@, p@, at as int) && forall|j: int|
                    from <= j < at ==> !stands_at(s@, p@, j),
                None => forall|j: int| from <= j ==> !stands_at(s@, p@, j),
            },
            out@ + replaced(s@.skip(from as int), p@, w@) == replaced(s@, p@, w@),
        decreases n - from,
    {
        let at: usize = next.unwrap();
        let ghost before = out@;
        let ghost piece = s@.subrange(from as int, at as int);
        let ghost tail = replaced(s@.skip(at + p@.len()), p@, w@);
        proof {
            lemma_replaced_at(s@, p@, w@, from as int, at as int);
        }
        out.append(&slice_string(&sc, from, at));
        out.append(w);
        from = at + pc.len();
        assert(out@ + tail =~= before + (piece + w@ + tail));
        next = find_from(&sc, &pc, from);
    }
    proof {
        lemma_replaced_nowhere(s@, p@, w@, from as int);
        assert(s@.subrange(from as int, s@.len() as int) =~= s@.skip(from as int));
    }
    out.append(&slice_string(&sc, from, n));
    out
}

proof fn lemma_first_at_is(s: Text, p: Text, i: int)
    requires
        0 <= i,
        stands_at(s, p, i),
        forall|j: int| 0 <= j < i ==> !stands_at(s, p, j),
    ensures
        first_at(s, p, 0) == Some(i),
{
    reveal(first_at);
    let c = choose|k: int| 0 <= k && stands_at(s, p, k) && forall|j: int|
        0 <= j < k ==> !stands_at(s, p, j);
    assert(0 <= c && stands_at(s, p, c) && forall|j: int| 0 <= j < c ==> !stands_at(s, p, j));
}

/// `s` cut at its first `c`: what stands before it and what stands after it.
pub open spec fn cut(s: Text, c: char) -> Option<(Text, Text)> {
    match first_at(s, seq![c], 0) {
        Some(d) => Some((s.take(d), s.skip(d + 1))),
        None => None,
    }
}

/// Cuts `s` at its first `c`.
pub fn cut_at(s: &str, c: char) -> (parts: Option<(String, String)>)
    ensures
        match parts {
            Some((a, b)) => cut(s@, c) == Some((a@, b@)),
            None => cut(s@, c) is None,
        },
{
    let sc = chars_of(s);
    let mut pc: Vec<char> = Vec::new();
    pc.push(c);
    assert(pc@ =~= seq![c]);
    match find_from(&sc, &pc, 0) {
        Some(d) => {
            let n: usize = sc.len();
            assert(d + seq![c].len() <= n);
            Some((slice_string(&sc, 0, d), slice_string(&sc, d + 1, n)))
        },
        None => None,
    }
}

/// What stands before and behind the last `c`.
pub open spec fn cut_back(s: Text, c: char) -> Option<(Text, Text)>
    decreases s.len(),
{
    if s.len() == 0 {
        None
    } else if s.last() == c {
        Some((s.drop_last(), Seq::empty()))
    } else {
        match cut_back(s.drop_last(), c) {
            Some((a, b)) => Some((a, b.push(s.last()))),
            None => None,
        }
    }
}

proof fn lemma_cut_back(s: Text, c: char, i: int)
    requires
        0 <= i <= s.len(),
        forall|k: int| i <= k < s.len() ==> s[k] != c,
    ensures
        i > 0 && s[i - 1] == c ==> cut_back(s, c) == Some((s.take(i - 1), s.skip(i))),
        i == 0 ==> cut_back(s, c) is None,
    decreases s.len(),
{
    if s.len() > 0 {
        if i == s.len() {
            assert(s.take(i - 1) =~= s.drop_last());
            assert(s.skip(i) =~= Seq::empty());
        } else {
            lemma_cut_back(s.drop_last(), c, i);
            if i > 0 {
                assert(s.drop_last().take(i - 1) =~= s.take(i - 1));
                assert(s.drop_last().skip(i).push(s.last()) =~= s.skip(i));
            }
        }
    }
}

/// Cuts a text at the last `c`.
pub fn cut_at_last(s: &str, c: char) -> (parts: Option<(String, String)>)
    ensures
        match parts {
            Some((a, b)) => cut_back(s@, c) == Some((a@, b@)),
            None => cut_back(s@, c) is None,
        },
{
    let chars = chars_of(s);
    let mut i: usize = chars.len();
    while i > 0
        invariant
            i <= chars@.len(),
            chars@ == s@,
            forall|k: int| i <= k < s@.len() ==> s@[k] != c,
        decreases i,
    {
        if chars[i - 1] == c {
            proof {
                lemma_cut_back(s@, c, i as int);
                assert(s@.subrange(0, i - 1) =~= s@.take(i - 1));
                assert(s@.subrange(i as int, s@.len() as int) =~= s@.skip(i as int));
            }
            return Some((slice_string(&chars, 0, i - 1), slice_string(&chars, i, chars.len())));
        }
        i -= 1;
    }
    proof {
        lemma_cut_back(s@, c, 0);
    }
    None
}

/// The pieces of `s` between occurrences of `sep`; always at least one piece.
pub open spec fn split(s: Text, sep: char) -> Seq<Text>
    decreases s.len(),
{
    if s.len() == 0 {
        seq![s]
    } else {
        let rest = split(s.drop_last(), sep);
        if s.last() == sep {
            rest.push(Seq::empty())
        } else {
            rest.drop_last().push(rest.last().push(s.last()))
        }
    }
}

/// A split has at least one piece.
pub proof fn lemma_split_nonempty(s: Text, sep: char)
    ensures
        split(s, sep).len() >= 1,
    decreases s.len(),
{
    if s.len() > 0 {
        lemma_split_nonempty(s.drop_last(), sep);
    }
}

/// Splits `s` at every `sep`.
pub fn split_on(s: &str, sep: char) -> (parts: Vec<String>)
    ensures
        texts(parts@) == split(s@, sep),
        parts.len() >= 1,
{
    let chars = chars_of(s);
    let mut parts: Vec<String> = Vec::new();
    let mut cur = String::new();
    let mut i: usize = 0;
    assert(s@.take(0) =~= Seq::empty());
    assert(texts(parts@).push(cur@) =~= split(s@.take(0), sep));
    while i < chars.len()
        invariant
            i <= chars.len(),
            chars@ == s@,
            texts(parts@).push(cur@) == split(s@.take(i as int), sep),
        decreases chars.len() - i,
    {
        let c = chars[i];
        let ghost before = texts(parts@);
        let ghost piece = cur@;
        assert(s@.take(i + 1).drop_last() =~= s@.take(i as int));
        assert(before.push(piece).drop_last() =~= before);
        if c == sep {
            parts.push(cur);
            cur = String::new();
            assert(texts(parts@) =~= before.push(piece));
            assert(cur@ =~= Seq::<char>::empty());
        } else {
            cur.push(c);
        }
        i += 1;
    }
    let ghost before = texts(parts@);
    let ghost piece = cur@;
    parts.push(cur);
    assert(texts(parts@) =~= before.push(piece));
    assert(s@.take(i as int) =~= s@);
    parts
}

/// The value of a decimal digit, if the character is one.
pub open spec fn digit(c: char) -> Option<nat> {
    if '0' <= c && c <= '9' {
        Some((c as int - '0' as int) as nat)
    } else {
        None
    }
}

/// The number that a run of decimal digits writes, if every character is one.
pub open spec fn digits_value(s: Text) -> Option<nat>
    decreases s.len(),
{
    if s.len() == 0 {
        Some(0)
    } else {
        match (digits_value(s.drop_last()), digit(s.last())) {
            (Some(v), Some(d)) => Some(10 * v + d),
            _ => None,
        }
    }
}

/// A text as an unsigned number: an optional plus sign, then digits.
pub open spec fn unsigned_value(s: Text) -> Option<nat> {
    if s.len() == 0 {
        None
    } else if s[0] == '+' {
        if s.len() == 1 {
            None
        } else {
            digits_value(s.skip(1))
        }
    } else {
        digits_value(s)
    }
}

/// A text as a `usize`: what it writes, when that fits.
pub open spec fn usize_value(s: Text) -> Option<usize> {
    match unsigned_value(s) {
        Some(v) => if v <= usize::MAX {
            Some(v as usize)
        } else {
            None
        },
        None => None,
    }
}

proof fn lemma_digits_prefix(s: Text, n: int)
    requires
        0 <= n <= s.len(),
        digits_value(s) is Some,
    ensures
        digits_value(s.take(n)) is Some,
        digits_value(s.take(n))->0 <= digits_value(s)->0,
    decreases s.len(),
{
    if n == s.len() {
        assert(s.take(n) =~= s);
    } else {
        lemma_digits_prefix(s.drop_last(), n);
        assert(s.drop_last().take(n) =~= s.take(n));
    }
}

/// What a text writes, when that is at most `max`.
pub open spec fn value_upto(s: Text, max: nat) -> Option<nat> {
    match unsigned_value(s) {
        Some(v) => if v <= max {
            Some(v)
        } else {
            None
        },
        None => None,
    }
}

/// Reads a text as a number of at most `max`.
pub fn parse_upto(s: &str, max: u64) -> (v: Option<u64>)
    ensures
        match v {
            Some(n) => value_upto(s@, max as nat) == Some(n as nat),
            None => value_upto(s@, max as nat) is None,
        },
{
    let chars = chars_of(s);
    if chars.len() == 0 {
        return None;
    }
    let start: usize = if chars[0] == '+' { 1 } else { 0 };
    if start == chars.len() {
        return None;
    }
    let ghost body = s@.skip(start as int);
    assert(start == 0 ==> body =~= s@);
    let mut v: u64 = 0;
    let mut i: usize = start;
    assert(body.take(0) =~= Seq::empty());
    while i < chars.len()
        invariant
            start <= i <= chars.len(),
            chars@ == s@,
            body == s@.skip(start as int),
            unsigned_value(s@) == digits_value(body),
            digits_value(body.take(i - start)) == Some(v as nat),
            v <= max,
        decreases chars.len() - i,
    {
        let c = chars[i];
        let ghost next = body.take(i + 1 - start);
        assert(next.drop_last() =~= body.take(i - start));
        assert(next.last() == c);
        if c < '0' || c > '9' {
            proof {
                if digits_value(body) is Some {
                    lemma_digits_prefix(body, i + 1 - start);
                }
            }
            return None;
        }
        let d: u64 = (c as u32 - '0' as u32) as u64;
        if max < d || v > (max - d) / 10 {
            proof {
                assert(10 * v + d > max);
                if digits_value(body) is Some {
                    lemma_digits_prefix(body, i + 1 - start);
                }
            }
            return None;
        }
        v = v * 10 + d;
        i += 1;
    }
    assert(body.take(i - start) =~= body);
    Some(v)
}

/// Reads a text as a `usize`.
pub fn parse_usize(s: &str) -> (v: Option<usize>)
    ensures
        v == usize_value(s@),
{
    match parse_upto(s, usize::MAX as u64) {
        Some(n) => Some(n as usize),
        None => None,
    }
}

/// The decimal digits of a number, without leading zeros.
pub open spec fn dec(n: nat) -> Text
    decreases n,
{
    if n < 10 {
        seq![digit_char(n)]
    } else {
        dec(n / 10).push(digit_char(n % 10))
    }
}

/// The character of a digit.
pub open spec fn digit_char(d: nat) -> char {
    ('0' as int + d) as char
}

fn char_of_digit(d: u64) -> (c: char)
    requires
        d < 10,
    ensures
        c == digit_char(d as nat),
{
    match d {
        0 => '0',
        1 => '1',
        2 => '2',
        3 => '3',
        4 => '4',
        5 => '5',
        6 => '6',
        7 => '7',
        8 => '8',
        _ => '9',
    }
}

/// Renders a number in decimal.
pub fn decimal(n: u64) -> (out: String)
    ensures
        out@ == dec(n as nat),
    decreases n,
{
    if n < 10 {
        let mut out = String::new();
        out.push(char_of_digit(n));
        assert(out@ =~= dec(n as nat));
        out
    } else {
        let mut out = decimal(n / 10);
        out.push(char_of_digit(n % 10));
        out
    }
}

/// Rendering a number in decimal and reading the digits gives the number
/// back.
pub proof fn law_decimal_reads_back(n: nat)
    ensures
        digits_value(dec(n)) == Some(n),
        unsigned_value(dec(n)) == Some(n),
        dec(n).len() >= 1,
        dec(n)[0] != '+',
    decreases n,
{
    if n < 10 {
        assert(dec(n).drop_last() =~= Seq::empty());
        assert(digits_value(Seq::<char>::empty()) == Some(0nat));
    } else {
        law_decimal_reads_back(n / 10);
        assert(dec(n).drop_last() =~= dec(n / 10));
        assert(dec(n)[0] == dec(n / 10)[0]);
    }
}

/// A text is cut where a character stands first.
pub proof fn lemma_cut(front: Text, c: char, rest: Text)
    requires
        forall|i: int| 0 <= i < front.len() ==> #[trigger] front[i] != c,
    ensures
        cut(front.push(c) + rest, c) == Some((front, rest)),
{
    reveal(first_at);
    let s = front.push(c) + rest;
    let p = seq![c];
    let d = front.len() as int;
    assert(s.subrange(d, d + 1) =~= p);
    assert(stands_at(s, p, d));
    assert forall|j: int| 0 <= j < d implies !stands_at(s, p, j) by {
        if stands_at(s, p, j) {
            assert(s.subrange(j, j + 1)[0] == front[j]);
        }
    }
    let f = choose|i: int| 0 <= i && stands_at(s, p, i) && forall|j: int|
        0 <= j < i ==> !stands_at(s, p, j);
    assert(0 <= d && stands_at(s, p, d) && forall|j: int| 0 <= j < d ==> !stands_at(s, p, j));
    assert(f == d);
    assert(s.take(d) =~= front);
    assert(s.skip(d + 1) =~= rest);
}

/// A number is written with digits.
pub proof fn lemma_dec_digits(n: nat)
    ensures
        forall|i: int| 0 <= i < dec(n).len() ==> '0' <= #[trigger] dec(n)[i] <= '9',
    decreases n,
{
    let last = digit_char(n % 10);
    assert('0' <= last <= '9');
    if n >= 10 {
        lemma_dec_digits(n / 10);
        let front = dec(n / 10);
        assert forall|i: int| 0 <= i < dec(n).len() implies '0' <= #[trigger] dec(n)[i] <= '9' by {
            if i < front.len() {
                assert(dec(n)[i] == front[i]);
            }
        }
    }
}

/// Character `c` stands nowhere in the text.
pub open spec fn free_of(s: Text, c: char) -> bool {
    forall|i: int| 0 <= i < s.len() ==> #[trigger] s[i] != c
}

/// The parts one after the other, with a separator between them.
pub open spec fn joined(parts: Seq<Text>, sep: char) -> Text
    decreases parts.len(),
{
    if parts.len() == 0 {
        seq![]
    } else if parts.len() == 1 {
        parts[0]
    } else {
        joined(parts.drop_last(), sep).push(sep) + parts.last()
    }
}

/// A text without the separator is one part.
pub proof fn lemma_split_whole(s: Text, sep: char)
    requires
        free_of(s, sep),
    ensures
        split(s, sep) == seq![s],
    decreases s.len(),
{
    if s.len() > 0 {
        let front = s.drop_last();
        assert forall|i: int| 0 <= i < front.len() implies #[trigger] front[i] != sep by {
            assert(front[i] == s[i]);
        }
        lemma_split_whole(front, sep);
        assert(front.push(s.last()) =~= s);
        assert(split(s, sep) =~= seq![s]);
    }
}

/// What stands behind a separator, and holds none, is a part of its own.
pub proof fn lemma_split_behind(s: Text, sep: char, t: Text)
    requires
        free_of(t, sep),
    ensures
        split(s.push(sep) + t, sep) == split(s, sep).push(t),
    decreases t.len(),
{
    let all = s.push(sep) + t;
    if t.len() == 0 {
        assert(all =~= s.push(sep));
        assert(all.drop_last() =~= s);
        assert(t =~= seq![]);
    } else {
        let front = t.drop_last();
        assert forall|i: int| 0 <= i < front.len() implies #[trigger] front[i] != sep by {
            assert(front[i] == t[i]);
        }
        lemma_split_behind(s, sep, front);
        assert(all.drop_last() =~= s.push(sep) + front);
        assert(all.last() == t[t.len() - 1]);
        assert(front.push(t.last()) =~= t);
        let rest = split(s, sep).push(front);
        assert(rest.drop_last() =~= split(s, sep));
    }
}

/// Parts that hold no separator, once joined, are what a split gives back.
pub proof fn law_split_takes_apart(parts: Seq<Text>, sep: char)
    requires
        parts.len() > 0,
        forall|i: int| 0 <= i < parts.len() ==> free_of(#[trigger] parts[i], sep),
    ensures
        split(joined(parts, sep), sep) == parts,
    decreases parts.len(),
{
    if parts.len() == 1 {
        assert(free_of(parts[0], sep));
        lemma_split_whole(parts[0], sep);
        assert(seq![parts[0]] =~= parts);
    } else {
        let front = parts.drop_last();
        assert forall|i: int| 0 <= i < front.len() implies free_of(#[trigger] front[i], sep) by {
            assert(front[i] == parts[i]);
        }
        law_split_takes_apart(front, sep);
        assert(free_of(parts[parts.len() - 1], sep));
        lemma_split_behind(joined(front, sep), sep, parts.last());
        assert(front.push(parts.last()) =~= parts);
    }
}

/// What a split gives holds no separator, and joined it is the text again.
pub proof fn law_split_joins_back(s: Text, sep: char)
    ensures
        split(s, sep).len() >= 1,
        joined(split(s, sep), sep) == s,
        forall|i: int| 0 <= i < split(s, sep).len() ==> free_of(#[trigger] split(s, sep)[i], sep),
    decreases s.len(),
{
    if s.len() == 0 {
        assert(split(s, sep) =~= seq![s]);
    } else {
        let front = s.drop_last();
        let rest = split(front, sep);
        let all = split(s, sep);
        law_split_joins_back(front, sep);
        if s.last() == sep {
            assert(all.drop_last() =~= rest);
            assert(all.last() =~= seq![]);
            assert(joined(all, sep) =~= s);
            assert forall|i: int| 0 <= i < all.len() implies free_of(#[trigger] all[i], sep) by {
                if i < rest.len() {
                    assert(all[i] == rest[i]);
                }
            }
        } else {
            assert(all.drop_last() =~= rest.drop_last());
            assert(free_of(rest[rest.len() - 1], sep));
            assert(front.push(s.last()) =~= s);
            if rest.len() == 1 {
                assert(all[0] == rest[0].push(s.last()));
            } else {
                let head = joined(rest.drop_last(), sep).push(sep);
                assert(front == head + rest.last());
                assert(head + rest.last().push(s.last()) =~= (head + rest.last()).push(s.last()));
            }
            assert(joined(all, sep) =~= s);
            assert forall|i: int| 0 <= i < all.len() implies free_of(#[trigger] all[i], sep) by {
                if i < rest.len() - 1 {
                    assert(all[i] == rest[i]);
                } else {
                    assert(all[i] == rest.last().push(s.last()));
                }
            }
        }
    }
}

/// A text that is written with `p` in front, at the end or in between begins
/// with it, ends with it or holds it.
pub proof fn law_text_stands(a: Text, p: Text, b: Text)
    ensures
        begins(p + b, p),
        ends(a + p, p),
        has(a + p + b, p),
{
    assert((p + b).subrange(0, p.len() as int) =~= p);
    assert((a + p).subrange(a.len() as int, (a + p).len() as int) =~= p);
    assert((a + p + b).subrange(a.len() as int, (a.len() + p.len()) as int) =~= p);
    assert(stands_at(a + p + b, p, a.len() as int));
}

/// A text that holds `p` somewhere is `p` with the rest of the text around it.
pub proof fn lemma_around(s: Text, p: Text, i: int)
    requires
        stands_at(s, p, i),
    ensures
        s == s.take(i) + p + s.skip(i + p.len()),
{
    let t = s.take(i) + p + s.skip(i + p.len());
    assert forall|k: int| 0 <= k < s.len() implies t[k] == s[k] by {
        if i <= k < i + p.len() {
            assert(s.subrange(i, i + p.len())[k - i] == s[k]);
        }
    }
    assert(t =~= s);
}

/// A text that begins with `p`, ends with it or holds it is `p` with the rest
/// of the text around it.
pub proof fn law_text_is_around(s: Text, p: Text)
    ensures
        begins(s, p) ==> s == p + s.skip(p.len() as int),
        ends(s, p) ==> s == s.take(s.len() - p.len()) + p,
        has(s, p) ==> exists|i: int| #[trigger]
            stands_at(s, p, i) && s == s.take(i) + p + s.skip(i + p.len()),
{
    if begins(s, p) {
        lemma_around(s, p, 0);
        assert(s.take(0) + p =~= p);
    }
    if ends(s, p) {
        lemma_around(s, p, s.len() - p.len());
        assert(s.skip(s.len() as int) =~= Seq::<char>::empty());
        assert(s.take(s.len() - p.len()) + p + Seq::<char>::empty() =~= s.take(s.len() - p.len())
            + p);
    }
    if has(s, p) {
        let i = choose|i: int| #[trigger] stands_at(s, p, i);
        lemma_around(s, p, i);
    }
}

/// Where `p` stands nowhere, nothing is replaced.
pub proof fn law_nothing_to_replace(s: Text, p: Text, w: Text)
    ensures
        !(has(s, p)) ==> replaced(s, p, w) == s,
{
    if !(has(s, p)) {
        assert forall|j: int| 0 <= j implies !stands_at(s, p, j) by {}
        lemma_replaced_nowhere(s, p, w, 0);
        assert(s.skip(0) =~= s);
    }
}

/// The first `p` gives way to `w`; what stands before it stays, and behind it
/// the replacing goes on.
pub proof fn law_first_is_replaced(a: Text, p: Text, rest: Text, w: Text)
    requires
        p.len() > 0,
        forall|j: int| 0 <= j < a.len() ==> !(#[trigger] stands_at(a + p + rest, p, j)),
    ensures
        replaced(a + p + rest, p, w) == a + w + replaced(rest, p, w),
{
    let s = a + p + rest;
    let at = a.len() as int;
    assert(s.subrange(at, at + p.len()) =~= p);
    lemma_replaced_at(s, p, w, 0, at);
    assert(s.skip(0) =~= s);
    assert(s.subrange(0, at) =~= a);
    assert(s.skip(at + p.len()) =~= rest);
}

/// Nothing but white space.
pub open spec fn all_white(s: Text) -> bool {
    forall|i: int| 0 <= i < s.len() ==> white(#[trigger] s[i])
}

/// A text splits into white space and the text without it in front.
proof fn lemma_lead(s: Text)
    ensures
        without_lead(s).len() <= s.len(),
        without_lead(s) == s.skip(s.len() - without_lead(s).len()),
        all_white(s.take(s.len() - without_lead(s).len())),
        without_lead(s).len() > 0 ==> !white(without_lead(s)[0]),
    decreases s.len(),
{
    if s.len() > 0 && white(s[0]) {
        let rest = s.skip(1);
        lemma_lead(rest);
        let n = s.len() - without_lead(s).len();
        assert(rest.skip(n - 1) =~= s.skip(n));
        assert forall|i: int| 0 <= i < s.take(n).len() implies white(#[trigger] s.take(n)[i]) by {
            if i > 0 {
                assert(s.take(n)[i] == rest.take(n - 1)[i - 1]);
            }
        }
    } else {
        assert(s.skip(0) =~= s);
    }
}

/// A text splits into the text without white space at the end, and that.
proof fn lemma_tail(s: Text)
    ensures
        without_tail(s).len() <= s.len(),
        without_tail(s) == s.take(without_tail(s).len() as int),
        all_white(s.skip(without_tail(s).len() as int)),
        without_tail(s).len() > 0 ==> !white(without_tail(s).last()),
    decreases s.len(),
{
    if s.len() > 0 && white(s.last()) {
        let front = s.drop_last();
        lemma_tail(front);
        let n = without_tail(s).len() as int;
        assert(front.take(n) =~= s.take(n));
        assert forall|i: int| 0 <= i < s.skip(n).len() implies white(#[trigger] s.skip(n)[i]) by {
            if n + i < front.len() {
                assert(s.skip(n)[i] == front.skip(n)[i]);
            }
        }
    } else {
        assert(s.take(s.len() as int) =~= s);
    }
}

/// Trimming takes white space off the ends and nothing else, and all of it.
pub proof fn law_trimmed(s: Text)
    ensures
        exists|a: Text, b: Text|
            all_white(a) && all_white(b) && s == #[trigger] (a + trimmed(s) + b),
        trimmed(s).len() > 0 ==> !white(trimmed(s)[0]) && !white(trimmed(s).last()),
{
    lemma_lead(s);
    let rest = without_lead(s);
    lemma_tail(rest);
    let a = s.take(s.len() - rest.len());
    let b = rest.skip(trimmed(s).len() as int);
    assert(s =~= a + trimmed(s) + b);
}

/// A text is cut where a character stands last.
pub proof fn law_cut_back(front: Text, c: char, rest: Text)
    requires
        free_of(rest, c),
    ensures
        cut_back(front.push(c) + rest, c) == Some((front, rest)),
        cut_back(rest, c) is None,
{
    let s = front.push(c) + rest;
    let at = front.len() as int;
    assert forall|j: int| at < j < s.len() implies s[j] != c by {
        assert(s[j] == rest[j - at - 1]);
    }
    lemma_cut_back(s, c, at + 1);
    assert(s.take(at) =~= front);
    assert(s.skip(at + 1) =~= rest);
    lemma_no_cut_back(rest, c);
}

proof fn lemma_no_cut_back(s: Text, c: char)
    requires
        free_of(s, c),
    ensures
        cut_back(s, c) is None,
    decreases s.len(),
{
    if s.len() > 0 {
        let front = s.drop_last();
        assert forall|i: int| 0 <= i < front.len() implies #[trigger] front[i] != c by {
            assert(front[i] == s[i]);
        }
        assert(s[s.len() - 1] != c);
        lemma_no_cut_back(front, c);
    }
}

/// The first part of a text that is split is what stands before the first
/// separator.
pub proof fn lemma_first_part(first: Text, sep: char, rest: Text)
    requires
        free_of(first, sep),
    ensures
        split(first.push(sep) + rest, sep)[0] == first,
        split(first.push(sep) + rest, sep).len() >= 2,
    decreases rest.len(),
{
    let s = first.push(sep) + rest;
    if rest.len() == 0 {
        lemma_split_whole(first, sep);
        assert(s =~= first.push(sep));
        assert(s.drop_last() =~= first);
    } else {
        let front = rest.drop_last();
        lemma_first_part(first, sep, front);
        assert(s.drop_last() =~= first.push(sep) + front);
    }
}

/// No white space.
pub open spec fn no_space(s: Text) -> bool {
    forall|i: int| 0 <= i < s.len() ==> !white(#[trigger] s[i])
}

/// What stands behind white space, and holds none, is a piece of its own.
proof fn lemma_piece(s: Text, c: char, w: Text)
    requires
        white(c),
        no_space(w),
    ensures
        pieces(s.push(c) + w) == pieces(s).push(w),
    decreases w.len(),
{
    let all = s.push(c) + w;
    if w.len() == 0 {
        assert(all =~= s.push(c));
        assert(all.drop_last() =~= s);
        assert(w =~= seq![]);
    } else {
        let less = w.drop_last();
        assert forall|i: int| 0 <= i < less.len() implies !white(#[trigger] less[i]) by {
            assert(less[i] == w[i]);
        }
        lemma_piece(s, c, less);
        assert(all.drop_last() =~= s.push(c) + less);
        assert(!white(w[w.len() - 1]));
        assert(less.push(w.last()) =~= w);
        let before = pieces(s).push(less);
        assert(before.drop_last() =~= pieces(s));
    }
}

/// A word behind white space is a further word; white space alone adds none.
pub proof fn law_words(s: Text, c: char, w: Text)
    requires
        white(c),
        no_space(w),
    ensures
        w.len() > 0 ==> words(s.push(c) + w) == words(s).push(w),
        words(s.push(c)) == words(s),
        words(seq![]) == Seq::<Text>::empty(),
        w.len() > 0 ==> words(w) == seq![w],
{
    reveal(Seq::filter);
    lemma_piece(s, c, w);
    lemma_piece(s, c, seq![]);
    assert(s.push(c) + Seq::<char>::empty() =~= s.push(c));
    let front = pieces(s);
    assert(front.push(w).drop_last() =~= front);
    let none: Text = seq![];
    assert(front.push(none).drop_last() =~= front);
    let start = pieces(seq![]);
    assert(start.last() =~= none);
    assert(start.drop_last() =~= Seq::<Text>::empty());
    assert(start.drop_last().filter(is_word()) =~= Seq::<Text>::empty());
    assert(words(none) =~= Seq::<Text>::empty());
    if w.len() > 0 {
        lemma_one_piece(w);
        let one = pieces(w);
        assert(one =~= Seq::<Text>::empty().push(w));
        assert(one.drop_last() =~= Seq::<Text>::empty());
        assert(words(w) =~= seq![w]);
    }
}

proof fn lemma_one_piece(w: Text)
    requires
        no_space(w),
    ensures
        pieces(w) == seq![w],
    decreases w.len(),
{
    if w.len() > 0 {
        let less = w.drop_last();
        assert forall|i: int| 0 <= i < less.len() implies !white(#[trigger] less[i]) by {
            assert(less[i] == w[i]);
        }
        lemma_one_piece(less);
        assert(!white(w[w.len() - 1]));
        assert(less.push(w.last()) =~= w);
        assert(pieces(w) =~= seq![w]);
    } else {
        assert(w =~= seq![]);
    }
}

} // verus!
