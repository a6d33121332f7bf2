//! Tables of character replacements, as tokenizer documents carry them: a trie
//! and the texts that it leads to, in base64.
use vstd::prelude::*;
use vstd::utf8::{encode_utf8, valid_utf8};
use crate::loader::gguf::utf8_text;
use crate::text::{chars_of, Text};

verus! {

/// The number that a character stands for in base64.
pub open spec fn sextet(c: char) -> Option<int> {
    if 'A' <= c <= 'Z' {
        Some(c as int - 'A' as int)
    } else if 'a' <= c <= 'z' {
        Some(c as int - 'a' as int + 26)
    } else if '0' <= c <= '9' {
        Some(c as int - '0' as int + 52)
    } else if c == '+' {
        Some(62)
    } else if c == '/' {
        Some(63)
    } else {
        None
    }
}

/// The bytes that four characters write: three, or fewer where they end in
/// padding. Bits that padding leaves over are zero.
pub open spec fn quantum(a: char, b: char, c: char, d: char) -> Option<Seq<u8>> {
    match (sextet(a), sextet(b), sextet(c), sextet(d)) {
        (Some(p), Some(q), Some(r), Some(s)) => Some(
            seq![(4 * p + q / 16) as u8, (q % 16 * 16 + r / 4) as u8, (r % 4 * 64 + s) as u8],
        ),
        (Some(p), Some(q), Some(r), None) => if d == '=' && r % 4 == 0 {
            Some(seq![(4 * p + q / 16) as u8, (q % 16 * 16 + r / 4) as u8])
        } else {
            None
        },
        (Some(p), Some(q), None, None) => if c == '=' && d == '=' && q % 16 == 0 {
            Some(seq![(4 * p + q / 16) as u8])
        } else {
            None
        },
        _ => None,
    }
}

/// The bytes that a text writes in base64. Only the last four characters may
/// end in padding.
pub open spec fn unbase64(s: Text) -> Option<Seq<u8>>
    decreases s.len(),
{
    if s.len() == 0 {
        Some(Seq::empty())
    } else if s.len() < 4 {
        None
    } else {
        let n = s.len() - 4;
        match (unbase64(s.take(n)), quantum(s[n], s[n + 1], s[n + 2], s[n + 3])) {
            (Some(front), Some(bytes)) => if front.len() % 3 == 0 {
                Some(front + bytes)
            } else {
                None
            },
            _ => None,
        }
    }
}

fn read_sextet(c: char) -> (r: Option<u8>)
    ensures
        match r {
            Some(n) => n < 64 && sextet(c) == Some(n as int),
            None => sextet(c) is None,
        },
{
    if 'A' <= c && c <= 'Z' {
        Some(c as u8 - 65)
    } else if 'a' <= c && c <= 'z' {
        Some(c as u8 - 97 + 26)
    } else if '0' <= c && c <= '9' {
        Some(c as u8 - 48 + 52)
    } else if c == '+' {
        Some(62)
    } else if c == '/' {
        Some(63)
    } else {
        None
    }
}

fn push_quantum(out: &mut Vec<u8>, a: char, b: char, c: char, d: char) -> (ok: bool)
    ensures
        match quantum(a, b, c, d) {
            Some(bytes) => ok && final(out)@ == old(out)@ + bytes,
            None => !ok,
        },
{
    let ghost before = out@;
    match (read_sextet(a), read_sextet(b), read_sextet(c), read_sextet(d)) {
        (Some(p), Some(q), Some(r), Some(s)) => {
            out.push(4 * p + q / 16);
            out.push(q % 16 * 16 + r / 4);
            out.push(r % 4 * 64 + s);
            assert(out@ =~= before + quantum(a, b, c, d)->0);
            true
        },
        (Some(p), Some(q), Some(r), None) => if d == '=' && r % 4 == 0 {
            out.push(4 * p + q / 16);
            out.push(q % 16 * 16 + r / 4);
            assert(out@ =~= before + quantum(a, b, c, d)->0);
            true
        } else {
            false
        },
        (Some(p), Some(q), None, None) => if c == '=' && d == '=' && q % 16 == 0 {
            out.push(4 * p + q / 16);
            assert(out@ =~= before + quantum(a, b, c, d)->0);
            true
        } else {
            false
        },
        _ => false,
    }
}

/// A text whose beginning is no base64 is none itself.
proof fn lemma_bad_beginning(s: Text, n: int)
    requires
        0 <= n <= s.len(),
        n % 4 == 0,
        unbase64(s.take(n)) is None,
    ensures
        unbase64(s) is None,
    decreases s.len(),
{
    if n < s.len() && s.len() >= 4 {
        let m = s.len() - 4;
        if m >= n {
            assert(s.take(m).take(n) =~= s.take(n));
            lemma_bad_beginning(s.take(m), n);
        } else {
            lemma_uneven(s);
        }
    } else {
        if n == s.len() {
            assert(s.take(n) =~= s);
        }
    }
}

/// Base64 comes in fours.
proof fn lemma_uneven(s: Text)
    ensures
        unbase64(s) is Some ==> s.len() % 4 == 0,
    decreases s.len(),
{
    if s.len() >= 4 {
        lemma_uneven(s.take(s.len() - 4));
    }
}

/// Reads base64.
#[verifier::spinoff_prover]
#[verifier::rlimit(40)]
pub fn read_base64(text: &str) -> (r: Option<Vec<u8>>)
    ensures
        match r {
            Some(bytes) => unbase64(text@) == Some(bytes@),
            None => unbase64(text@) is None,
        },
{
    let s = chars_of(text);
    let mut out: Vec<u8> = Vec::new();
    let mut i: usize = 0;
    assert(out@ =~= Seq::<u8>::empty());
    while i < s.len()
        invariant
            s@ == text@,
            i <= s@.len(),
            i % 4 == 0,
            unbase64(s@.take(i as int)) == Some(out@),
        decreases s@.len() - i,
    {
        if s.len() - i < 4 {
            proof {
                lemma_uneven(s@);
            }
            return None;
        }
        let ghost front = s@.take(i + 4);
        assert(front.take(i as int) =~= s@.take(i as int));
        assert(front.len() == i + 4);
        if out.len() % 3 != 0 {
            proof {
                assert(unbase64(front) is None);
                lemma_bad_beginning(s@, i + 4);
            }
            return None;
        }
        if !push_quantum(&mut out, s[i], s[i + 1], s[i + 2], s[i + 3]) {
            proof {
                assert(unbase64(front) is None);
                lemma_bad_beginning(s@, i + 4);
            }
            return None;
        }
        i += 4;
    }
    assert(s@.take(i as int) =~= s@);
    Some(out)
}

/// The number in four bytes, the lowest byte first.
pub open spec fn word(bytes: Seq<u8>, at: int) -> int {
    bytes[at] + 0x100 * bytes[at + 1] + 0x1_0000 * bytes[at + 2] + 0x100_0000 * bytes[at + 3]
}

fn read_word(bytes: &Vec<u8>, at: usize) -> (n: u32)
    requires
        at + 4 <= bytes.len(),
    ensures
        n == word(bytes@, at as int),
{
    bytes[at] as u32 + 0x100 * bytes[at + 1] as u32 + 0x1_0000 * bytes[at + 2] as u32 + 0x100_0000
        * bytes[at + 3] as u32
}

/// How many units the trie has: its size in bytes comes first.
pub open spec fn unit_count(map: Seq<u8>) -> int {
    word(map, 0) / 4
}

/// Unit `i` of the trie.
pub open spec fn unit(map: Seq<u8>, i: int) -> u32 {
    word(map, 4 + 4 * i) as u32
}

/// The texts that the trie leads to.
pub open spec fn replacements(map: Seq<u8>) -> Seq<u8> {
    map.skip(4 + 4 * unit_count(map))
}

/// How far a unit leads on.
pub open spec fn offset(u: u32) -> u64 {
    let far = (u / 1024) as u64;
    if u / 512 % 2 == 1 {
        (256 * far) as u64
    } else {
        far
    }
}

/// Where the children of unit `i` begin.
pub open spec fn children(u: u32, i: u32) -> u64 {
    offset(u) ^ (i as u64)
}

/// A character begins at `at`, or the bytes end there.
pub open spec fn is_boundary(bytes: Seq<u8>, at: int) -> bool {
    at == bytes.len() || (0 <= at < bytes.len() && !(0x80 <= bytes[at] < 0xC0))
}

/// Unit `i` leads into the trie and, where a replacement hangs on it, to the
/// beginning of a character. Units above `2^31` are replacements, and not
/// passed on the way to one.
pub open spec fn unit_sound(map: Seq<u8>, i: int) -> bool {
    let u = unit(map, i);
    let next = children(u, i as u32) as int;
    i == 0 || u < 0x8000_0000 ==> {
        &&& next < unit_count(map)
        &&& u / 256 % 2 == 1 ==> is_boundary(
            replacements(map),
            unit(map, next) as int % 0x8000_0000,
        )
    }
}

/// A table that is all there: the trie has the size it says, and text follows.
pub open spec fn map_fits(map: Seq<u8>) -> bool {
    &&& map.len() >= 4
    &&& 4 + 4 * unit_count(map) <= map.len()
    &&& valid_utf8(replacements(map))
}

/// A table that can be walked with every text: the trie comes in whole pages of
/// 256 units, so that a step of one byte from inside of it stays inside.
pub open spec fn map_sound(map: Seq<u8>) -> bool {
    &&& map_fits(map)
    &&& unit_count(map) > 0
    &&& unit_count(map) % 256 == 0
    &&& forall|i: int| 0 <= i < unit_count(map) ==> #[trigger] unit_sound(map, i)
}

/// From a place in the trie the bytes can be followed, up to the first that has
/// no unit there. Where a replacement hangs on the way it can be read, and the
/// first of them begins a character.
pub open spec fn walks_from(map: Seq<u8>, pos: u64, found: bool, key: Seq<u8>) -> bool
    decreases key.len(),
{
    if key.len() == 0 || key[0] == 0 {
        true
    } else {
        let i = pos ^ (key[0] as u64);
        i < unit_count(map) && {
            let u = unit(map, i as int);
            let next = i ^ offset(u);
            let leaf = u / 256 % 2 == 1;
            u < 0x8000_0000 && u % 256 == key[0] ==> {
                &&& leaf ==> next < unit_count(map) && (found || is_boundary(
                    replacements(map),
                    unit(map, next as int) as int % 0x8000_0000,
                ))
                &&& walks_from(map, next, found || leaf, key.skip(1))
            }
        }
    }
}

/// The longest piece of a text that is looked up at once, in bytes.
pub const MAX_LOOKUP: usize = 5;

/// The bytes from `a` on that are looked up at once.
pub open spec fn window(bytes: Seq<u8>, a: int) -> Seq<u8> {
    if a + MAX_LOOKUP <= bytes.len() {
        bytes.subrange(a, a + MAX_LOOKUP)
    } else {
        bytes.skip(a)
    }
}

/// The trie can be walked from the root with the bytes from `a` on, where a
/// character begins there.
pub open spec fn walks_at(map: Seq<u8>, bytes: Seq<u8>, a: int) -> bool {
    is_boundary(bytes, a) ==> unit_count(map) > 0 && walks_from(
        map,
        offset(unit(map, 0)),
        false,
        window(bytes, a),
    )
}

/// The trie can be walked from every character of a text.
pub open spec fn text_walks(map: Seq<u8>, bytes: Seq<u8>) -> bool {
    forall|a: int| 0 <= a < bytes.len() ==> #[trigger] walks_at(map, bytes, a)
}

fn find_offset(u: u32) -> (n: u64)
    ensures
        n == offset(u),
{
    let far: u64 = (u / 1024) as u64;
    if u / 512 % 2 == 1 {
        256 * far
    } else {
        far
    }
}

/// Whether the bytes from `a` on can be followed through the trie.
fn does_walk(map: &Vec<u8>, bytes: &[u8], a: usize) -> (b: bool)
    requires
        map_fits(map@),
        unit_count(map@) > 0,
        a <= bytes@.len(),
    ensures
        b == walks_from(map@, offset(unit(map@, 0)), false, window(bytes@, a as int)),
{
    let ghost key = window(bytes@, a as int);
    let len: usize = bytes.len();
    let size: usize = map.len();
    let n: usize = (read_word(map, 0) / 4) as usize;
    assert(4 + 4 * n <= size);
    let texts: usize = 4 + 4 * n;
    let ghost start = offset(unit(map@, 0));
    let mut pos: u64 = find_offset(read_word(map, 4));
    let mut found: bool = false;
    let mut k: usize = 0;
    assert(key.skip(0) =~= key);
    while k < MAX_LOOKUP && k < len - a
        invariant
            len == bytes@.len(),
            a <= len,
            k <= MAX_LOOKUP,
            k <= key.len(),
            key == window(bytes@, a as int),
            n == unit_count(map@),
            n <= 0x4000_0000,
            texts == 4 + 4 * n,
            texts <= map@.len(),
            start == offset(unit(map@, 0)),
            walks_from(map@, start, false, key) == walks_from(map@, pos, found, key.skip(k as int)),
        decreases MAX_LOOKUP - k,
    {
        let c = bytes[a + k];
        let ghost rest = key.skip(k as int);
        assert(rest[0] == c);
        assert(rest.skip(1) =~= key.skip(k + 1));
        if c == 0 {
            return true;
        }
        let i: u64 = pos ^ (c as u64);
        if i >= n as u64 {
            return false;
        }
        let u: u32 = read_word(map, 4 + 4 * i as usize);
        if !(u < 0x8000_0000 && u % 256 == c as u32) {
            return true;
        }
        let next: u64 = i ^ find_offset(u);
        if u / 256 % 2 == 1 {
            if next >= n as u64 {
                return false;
            }
            let at: usize = (read_word(map, 4 + 4 * next as usize) % 0x8000_0000) as usize;
            assert(replacements(map@).len() == map@.len() - texts);
            let there: usize = map.len() - texts;
            if at < there {
                assert(replacements(map@)[at as int] == map@[texts + at]);
            }
            if !found && (at > there || (at < there && 0x80 <= map[texts + at] && map[texts + at]
                < 0xC0)) {
                return false;
            }
            found = true;
        }
        pos = next;
        k += 1;
    }
    assert(k == key.len());
    true
}

/// Whether the trie can be walked from every character of a text.
pub fn does_text_walk(map: &Vec<u8>, text: &str) -> (b: bool)
    requires
        map_fits(map@),
    ensures
        b == text_walks(map@, encode_utf8(text@)),
{
    let bytes = text.as_bytes();
    let some: bool = read_word(map, 0) / 4 > 0;
    let mut a: usize = 0;
    while a < bytes.len()
        invariant
            map_fits(map@),
            some == (unit_count(map@) > 0),
            bytes@ == encode_utf8(text@),
            a <= bytes@.len(),
            forall|k: int| 0 <= k < a ==> #[trigger] walks_at(map@, bytes@, k),
        decreases bytes@.len() - a,
    {
        let c = bytes[a];
        if !(0x80 <= c && c < 0xC0) {
            if !some || !does_walk(map, bytes, a) {
                assert(!walks_at(map@, bytes@, a as int));
                return false;
            }
        }
        assert(walks_at(map@, bytes@, a as int));
        a += 1;
    }
    true
}

/// The table that a text writes, if it is all there.
pub fn read_charsmap(text: &str) -> (r: Option<Vec<u8>>)
    ensures
        match r {
            Some(map) => unbase64(text@) == Some(map@) && map_fits(map@),
            None => !charsmap_fits(text@),
        },
{
    let map = match read_base64(text) {
        Some(map) => map,
        None => return None,
    };
    if map.len() < 4 {
        return None;
    }
    let n: usize = (read_word(&map, 0) / 4) as usize;
    if n > (map.len() - 4) / 4 {
        return None;
    }
    let texts = vstd::slice::slice_subrange(map.as_slice(), 4 + 4 * n, map.len());
    assert(texts@ =~= replacements(map@));
    if utf8_text(texts).is_none() {
        return None;
    }
    Some(map)
}

/// Whether a table can be walked with every text.
pub fn is_map_sound(map: &Vec<u8>) -> (b: bool)
    requires
        map_fits(map@),
    ensures
        b == map_sound(map@),
{
    let n: usize = (read_word(map, 0) / 4) as usize;
    if n == 0 || n % 256 != 0 {
        return false;
    }
    let texts = vstd::slice::slice_subrange(map.as_slice(), 4 + 4 * n, map.len());
    assert(texts@ =~= replacements(map@));
    let mut i: usize = 0;
    while i < n
        invariant
            i <= n,
            n == unit_count(map@),
            n <= 0x4000_0000,
            4 + 4 * n <= map@.len(),
            texts@ == replacements(map@),
            forall|k: int| 0 <= k < i ==> #[trigger] unit_sound(map@, k),
        decreases n - i,
    {
        let u: u32 = read_word(map, 4 + 4 * i);
        if i == 0 || u < 0x8000_0000 {
            let next: u64 = find_offset(u) ^ (i as u32 as u64);
            if next >= n as u64 {
                assert(!unit_sound(map@, i as int));
                return false;
            }
            if u / 256 % 2 == 1 {
                let at: usize = (read_word(map, 4 + 4 * next as usize) % 0x8000_0000) as usize;
                if at > texts.len() || (at < texts.len() && 0x80 <= texts[at] && texts[at] < 0xC0) {
                    assert(!unit_sound(map@, i as int));
                    return false;
                }
            }
        }
        assert(unit_sound(map@, i as int));
        i += 1;
    }
    true
}

/// A text writes a table that is all there.
pub open spec fn charsmap_fits(text: Text) -> bool {
    unbase64(text) matches Some(map) && map_fits(map)
}

/// A text writes a table that can be walked with every text.
pub open spec fn charsmap_sound(text: Text) -> bool {
    unbase64(text) matches Some(map) && map_sound(map)
}

/// A text writes a table that can be walked with `with`.
pub open spec fn charsmap_walks(text: Text, with: Text) -> bool {
    unbase64(text) matches Some(map) && map_fits(map) && text_walks(map, encode_utf8(with))
}

/// The character that stands for a number below 64.
pub open spec fn letter(n: int) -> char {
    "ABCDEFGHIJKLMNOPQRSTUVWXYZabcdefghijklmnopqrstuvwxyz0123456789+/"@[n]
}

/// One, two or three bytes in base64.
pub open spec fn four(b: Seq<u8>) -> Text {
    if b.len() == 1 {
        seq![letter(b[0] as int / 4), letter(b[0] as int % 4 * 16), '=', '=']
    } else if b.len() == 2 {
        seq![
            letter(b[0] as int / 4),
            letter(b[0] as int % 4 * 16 + b[1] as int / 16),
            letter(b[1] as int % 16 * 4),
            '=',
        ]
    } else {
        seq![
            letter(b[0] as int / 4),
            letter(b[0] as int % 4 * 16 + b[1] as int / 16),
            letter(b[1] as int % 16 * 4 + b[2] as int / 64),
            letter(b[2] as int % 64),
        ]
    }
}

/// Bytes in base64, three at a time.
pub open spec fn base64(bytes: Seq<u8>) -> Text
    decreases bytes.len(),
{
    if bytes.len() == 0 {
        Seq::empty()
    } else {
        let last = if bytes.len() % 3 == 0 {
            3
        } else {
            bytes.len() as int % 3
        };
        base64(bytes.take(bytes.len() - last)) + four(bytes.skip(bytes.len() - last))
    }
}

proof fn lemma_letter(n: int)
    requires
        0 <= n < 64,
    ensures
        sextet(letter(n)) == Some(n),
{
    reveal_strlit("ABCDEFGHIJKLMNOPQRSTUVWXYZabcdefghijklmnopqrstuvwxyz0123456789+/");
}

proof fn lemma_four(b: Seq<u8>)
    requires
        1 <= b.len() <= 3,
    ensures
        quantum(four(b)[0], four(b)[1], four(b)[2], four(b)[3]) == Some(b),
        four(b).len() == 4,
{
    assert(sextet('=') is None);
    let x = b[0] as int;
    lemma_letter(x / 4);
    if b.len() == 1 {
        lemma_letter(x % 4 * 16);
        assert(quantum(four(b)[0], four(b)[1], four(b)[2], four(b)[3])->0 =~= b);
    } else {
        let y = b[1] as int;
        lemma_letter(x % 4 * 16 + y / 16);
        if b.len() == 2 {
            lemma_letter(y % 16 * 4);
        } else {
            let z = b[2] as int;
            lemma_letter(y % 16 * 4 + z / 64);
            lemma_letter(z % 64);
        }
        assert(quantum(four(b)[0], four(b)[1], four(b)[2], four(b)[3])->0 =~= b);
    }
}

/// Bytes that were written in base64 are read back.
pub proof fn law_base64_reads_back(bytes: Seq<u8>)
    ensures
        unbase64(base64(bytes)) == Some(bytes),
    decreases bytes.len(),
{
    if bytes.len() > 0 {
        let last = if bytes.len() % 3 == 0 {
            3
        } else {
            bytes.len() as int % 3
        };
        let front = bytes.take(bytes.len() - last);
        let back = bytes.skip(bytes.len() - last);
        law_base64_reads_back(front);
        lemma_four(back);
        let s = base64(bytes);
        let n = s.len() - 4;
        assert(s.take(n) =~= base64(front));
        assert(s[n] == four(back)[0] && s[n + 1] == four(back)[1] && s[n + 2] == four(back)[2] && s[n
            + 3] == four(back)[3]);
        assert(front + back =~= bytes);
    }
}

} // verus!
