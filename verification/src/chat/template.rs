//! Which chat templates are rendered: those whose tags keep to what can neither
//! run away nor fail without an answer. Values may be added to, but do not grow
//! with themselves, macros do not call macros, and loops lie in few others.
use vstd::prelude::*;
use crate::text::{chars_of, same, slice_string, Text};

verus! {

/// What stands in the tags of a template.
#[derive(Debug, Clone)]
pub enum Mark<S = String> {
    /// A tag begins; a statement or a value.
    Tag { statement: bool },
    /// A tag ends.
    End,
    Word(S),
    Number,
    Quote,
    Compare,
    Sign(char),
}

impl View for Mark {
    type V = Mark<Text>;

    open spec fn view(&self) -> Mark<Text> {
        match *self {
            Mark::Tag { statement } => Mark::Tag { statement },
            Mark::End => Mark::End,
            Mark::Word(w) => Mark::Word(w@),
            Mark::Number => Mark::Number,
            Mark::Quote => Mark::Quote,
            Mark::Compare => Mark::Compare,
            Mark::Sign(c) => Mark::Sign(c),
        }
    }
}

/// Where in a template a reader is.
#[derive(Debug, Clone, Copy, PartialEq, Eq, Structural)]
pub enum Place {
    Outside,
    Statement,
    Value,
}

/// A letter, a digit or an underscore of ASCII.
pub open spec fn wordy(c: char) -> bool {
    'a' <= c <= 'z' || 'A' <= c <= 'Z' || '0' <= c <= '9' || c == '_'
}

fn is_wordy(c: char) -> (b: bool)
    ensures
        b == wordy(c),
{
    ('a' <= c && c <= 'z') || ('A' <= c && c <= 'Z') || ('0' <= c && c <= '9') || c == '_'
}

/// How many characters the word at the front has.
pub open spec fn word_len(s: Text) -> nat
    decreases s.len(),
{
    if s.len() > 0 && wordy(s[0]) {
        1 + word_len(s.skip(1))
    } else {
        0
    }
}

fn find_word(s: &Vec<char>, from: usize) -> (n: usize)
    requires
        from <= s@.len(),
    ensures
        n == word_len(s@.skip(from as int)),
        from + n <= s@.len(),
{
    let len: usize = s.len();
    let mut n: usize = 0;
    while from + n < len && is_wordy(s[from + n])
        invariant
            len == s@.len(),
            from + n <= s@.len(),
            word_len(s@.skip(from as int)) == n + word_len(s@.skip(from + n)),
        decreases s@.len() - n,
    {
        assert(s@.skip(from + n).skip(1) =~= s@.skip(from + n + 1));
        n += 1;
    }
    n
}

/// How many characters a quoted text has, up to and with the quote that ends
/// it. A backslash takes the character behind it along.
pub open spec fn quote_len(s: Text, quote: char) -> Option<nat>
    decreases s.len(),
{
    if s.len() == 0 {
        None
    } else if s[0] == quote {
        Some(1)
    } else {
        let step: nat = if s[0] == '\\' {
            2
        } else {
            1
        };
        if s.len() < step {
            None
        } else {
            match quote_len(s.skip(step as int), quote) {
                Some(n) => Some(n + step),
                None => None,
            }
        }
    }
}

fn find_quote(s: &Vec<char>, from: usize, quote: char) -> (r: Option<usize>)
    requires
        from <= s@.len(),
    ensures
        match r {
            Some(n) => quote_len(s@.skip(from as int), quote) == Some(n as nat) && 0 < n && from + n
                <= s@.len(),
            None => quote_len(s@.skip(from as int), quote) is None,
        },
{
    let len: usize = s.len();
    let mut n: usize = 0;
    while from + n < len
        invariant
            len == s@.len(),
            from + n <= s@.len(),
            match quote_len(s@.skip(from + n), quote) {
                Some(rest) => quote_len(s@.skip(from as int), quote) == Some(rest + n as nat),
                None => quote_len(s@.skip(from as int), quote) is None,
            },
        decreases s@.len() - n,
    {
        let c = s[from + n];
        assert(s@.skip(from + n).skip(1) =~= s@.skip(from + n + 1));
        if c == quote {
            return Some(n + 1);
        }
        if c == '\\' {
            if len - from - n < 2 {
                return None;
            }
            assert(s@.skip(from + n).skip(2) =~= s@.skip(from + n + 2));
            n += 2;
        } else {
            n += 1;
        }
    }
    None
}

/// How many characters a comment has, up to and with its end.
pub open spec fn comment_len(s: Text) -> Option<nat>
    decreases s.len(),
{
    if s.len() < 2 {
        None
    } else if s[0] == '#' && s[1] == '}' {
        Some(2)
    } else {
        match comment_len(s.skip(1)) {
            Some(n) => Some(n + 1),
            None => None,
        }
    }
}

fn find_comment(s: &Vec<char>, from: usize) -> (r: Option<usize>)
    requires
        from <= s@.len(),
    ensures
        match r {
            Some(n) => comment_len(s@.skip(from as int)) == Some(n as nat) && 0 < n && from + n
                <= s@.len(),
            None => comment_len(s@.skip(from as int)) is None,
        },
{
    let mut n: usize = 0;
    while s.len() - from - n >= 2
        invariant
            from + n <= s@.len(),
            match comment_len(s@.skip(from + n)) {
                Some(rest) => comment_len(s@.skip(from as int)) == Some(rest + n as nat),
                None => comment_len(s@.skip(from as int)) is None,
            },
        decreases s@.len() - n,
    {
        assert(s@.skip(from + n).skip(1) =~= s@.skip(from + n + 1));
        if s[from + n] == '#' && s[from + n + 1] == '}' {
            return Some(n + 2);
        }
        n += 1;
    }
    None
}

/// The character at `i`, if there is one.
pub open spec fn char_at(s: Text, i: int) -> Option<char> {
    if 0 <= i < s.len() {
        Some(s[i])
    } else {
        None
    }
}

fn peek(s: &Vec<char>, i: usize, ahead: usize) -> (r: Option<char>)
    requires
        i <= s@.len(),
    ensures
        r == char_at(s@.skip(i as int), ahead as int),
{
    if ahead < s.len() - i {
        Some(s[i + ahead])
    } else {
        None
    }
}

/// How many characters the end of a tag has, where it stands at the front. It
/// may begin with a sign for the white space behind it.
pub open spec fn end_len(s: Text, statement: bool) -> nat {
    let first = if statement {
        '%'
    } else {
        '}'
    };
    if char_at(s, 0) == Some(first) && char_at(s, 1) == Some('}') {
        2
    } else if (char_at(s, 0) == Some('-') || char_at(s, 0) == Some('+')) && char_at(s, 1) == Some(
        first,
    ) && char_at(s, 2) == Some('}') {
        3
    } else {
        0
    }
}

/// One step of reading a template: the characters it takes, the mark it makes,
/// where the reader then is, and how many brackets are open.
pub type Step<S> = (nat, Option<Mark<S>>, Place, nat);

/// The step at the front of `s`, which is not empty, outside of tags.
pub open spec fn step_outside(s: Text) -> Option<Step<Text>> {
    if s[0] != '{' {
        Some((1, None, Place::Outside, 0))
    } else {
        let sign: nat = if char_at(s, 2) == Some('-') || char_at(s, 2) == Some('+') {
            1
        } else {
            0
        };
        if char_at(s, 1) == Some('{') {
            Some((2 + sign, Some(Mark::Tag { statement: false }), Place::Value, 0))
        } else if char_at(s, 1) == Some('%') {
            Some((2 + sign, Some(Mark::Tag { statement: true }), Place::Statement, 0))
        } else if char_at(s, 1) == Some('#') {
            match comment_len(s.skip((2 + sign) as int)) {
                Some(n) => Some((n + 2 + sign, None, Place::Outside, 0)),
                None => None,
            }
        } else {
            Some((1, None, Place::Outside, 0))
        }
    }
}

/// The signs that may stand in a tag.
pub open spec fn known_sign(c: char) -> bool {
    c == '+' || c == '-' || c == '%' || c == '.' || c == ',' || c == ':' || c == '~' || c == '|'
        || c == '=' || c == '(' || c == ')' || c == '[' || c == ']'
}

fn is_known_sign(c: char) -> (b: bool)
    ensures
        b == known_sign(c),
{
    c == '+' || c == '-' || c == '%' || c == '.' || c == ',' || c == ':' || c == '~' || c == '|'
        || c == '=' || c == '(' || c == ')' || c == '[' || c == ']'
}

/// The white space that is passed over in tags.
pub open spec fn blank(c: char) -> bool {
    c == ' ' || c == '\t' || c == '\n' || c == '\r' || c as u32 == 12
}

/// The longest number that may stand in a tag.
pub const MAX_DIGITS: usize = 9;

/// All characters are digits.
pub open spec fn digits_only(s: Text) -> bool {
    forall|i: int| 0 <= i < s.len() ==> '0' <= #[trigger] s[i] <= '9'
}

fn are_digits(s: &Vec<char>, from: usize, n: usize) -> (b: bool)
    requires
        from + n <= s@.len(),
    ensures
        b == digits_only(s@.skip(from as int).take(n as int)),
{
    let ghost part = s@.skip(from as int).take(n as int);
    let len: usize = s.len();
    let mut i: usize = 0;
    while i < n
        invariant
            i <= n,
            len == s@.len(),
            from + n <= len,
            part == s@.skip(from as int).take(n as int),
            forall|k: int| 0 <= k < i ==> '0' <= #[trigger] part[k] <= '9',
        decreases n - i,
    {
        let c = s[from + i];
        assert(part[i as int] == c);
        if !('0' <= c && c <= '9') {
            return false;
        }
        i += 1;
    }
    true
}

/// The step at the front of `s`, which is not empty, in a tag. There is none at
/// what may not stand in one: braces, products, quotients and powers, fractions,
/// long numbers, and tags that end within brackets.
pub open spec fn step_inside(s: Text, place: Place, open: nat) -> Option<Step<Text>> {
    let c = s[0];
    let end = end_len(s, place == Place::Statement);
    if blank(c) {
        Some((1, None, place, open))
    } else if end > 0 {
        if open == 0 {
            Some((end, Some(Mark::End), Place::Outside, 0))
        } else {
            None
        }
    } else if c == '"' || c == '\'' {
        match quote_len(s.skip(1), c) {
            Some(n) => Some((n + 1, Some(Mark::Quote), place, open)),
            None => None,
        }
    } else if '0' <= c <= '9' {
        let n = word_len(s);
        if n <= MAX_DIGITS && digits_only(s.take(n as int)) && char_at(s, n as int) != Some('.') {
            Some((n, Some(Mark::Number), place, open))
        } else {
            None
        }
    } else if wordy(c) {
        let n = word_len(s);
        Some((n, Some(Mark::Word(s.take(n as int))), place, open))
    } else if (c == '=' || c == '!' || c == '<' || c == '>') && char_at(s, 1) == Some('=') {
        Some((2, Some(Mark::Compare), place, open))
    } else if c == '<' || c == '>' {
        Some((1, Some(Mark::Compare), place, open))
    } else if known_sign(c) {
        if c == '(' || c == '[' {
            Some((1, Some(Mark::Sign(c)), place, open + 1))
        } else if c == ')' || c == ']' {
            if open > 0 {
                Some((1, Some(Mark::Sign(c)), place, (open - 1) as nat))
            } else {
                None
            }
        } else {
            Some((1, Some(Mark::Sign(c)), place, open))
        }
    } else {
        None
    }
}

/// The step at the front of `s`, which is not empty.
pub open spec fn step(s: Text, place: Place, open: nat) -> Option<Step<Text>> {
    if place == Place::Outside {
        step_outside(s)
    } else {
        step_inside(s, place, open)
    }
}

/// The marks of a template, or of the rest of one. There are none where a step
/// is missing, or the template ends in a tag.
pub open spec fn marks(s: Text, place: Place, open: nat) -> Option<Seq<Mark<Text>>>
    decreases s.len(),
{
    if s.len() == 0 {
        if place == Place::Outside {
            Some(Seq::empty())
        } else {
            None
        }
    } else {
        match step(s, place, open) {
            None => None,
            Some((n, mark, next, then_open)) => if n == 0 || n > s.len() {
                None
            } else {
                match marks(s.skip(n as int), next, then_open) {
                    None => None,
                    Some(rest) => match mark {
                        Some(m) => Some(seq![m] + rest),
                        None => Some(rest),
                    },
                }
            },
        }
    }
}

/// What `Step` is while a template is read.
type Taken = (usize, Option<Mark>, Place, usize);

/// A step that was taken is the one that there is.
spec fn same_step(r: Option<Taken>, s: Option<Step<Text>>) -> bool {
    match (r, s) {
        (Some((n, mark, place, open)), Some((m, expected, next, then_open))) => {
            &&& n == m
            &&& place == next
            &&& open == then_open
            &&& match (mark, expected) {
                (Some(a), Some(b)) => a@ == b,
                (None, None) => true,
                _ => false,
            }
        },
        (None, None) => true,
        _ => false,
    }
}

fn take_outside(s: &Vec<char>, i: usize) -> (r: Option<Taken>)
    requires
        i < s@.len(),
    ensures
        same_step(r, step_outside(s@.skip(i as int))),
        r matches Some(t) ==> 0 < t.0 <= s@.len() - i,
{
    let len: usize = s.len();
    if s[i] != '{' {
        return Some((1, None, Place::Outside, 0));
    }
    let behind = peek(s, i, 2);
    let sign: usize = if behind == Some('-') || behind == Some('+') {
        1
    } else {
        0
    };
    let second = peek(s, i, 1);
    if second == Some('{') {
        Some((2 + sign, Some(Mark::Tag { statement: false }), Place::Value, 0))
    } else if second == Some('%') {
        Some((2 + sign, Some(Mark::Tag { statement: true }), Place::Statement, 0))
    } else if second == Some('#') {
        assert(s@.skip(i as int).skip(2 + sign) =~= s@.skip(i + 2 + sign));
        match find_comment(s, i + 2 + sign) {
            Some(n) => Some((n + 2 + sign, None, Place::Outside, 0)),
            None => None,
        }
    } else {
        Some((1, None, Place::Outside, 0))
    }
}

fn measure_end(s: &Vec<char>, i: usize, statement: bool) -> (n: usize)
    requires
        i <= s@.len(),
    ensures
        n == end_len(s@.skip(i as int), statement),
        i + n <= s@.len(),
{
    let first = if statement {
        '%'
    } else {
        '}'
    };
    let (a, b, c) = (peek(s, i, 0), peek(s, i, 1), peek(s, i, 2));
    if a == Some(first) && b == Some('}') {
        2
    } else if (a == Some('-') || a == Some('+')) && b == Some(first) && c == Some('}') {
        3
    } else {
        0
    }
}

fn take_inside(s: &Vec<char>, i: usize, place: Place, open: usize) -> (r: Option<Taken>)
    requires
        i < s@.len(),
        open <= i,
    ensures
        same_step(r, step_inside(s@.skip(i as int), place, open as nat)),
        r matches Some(t) ==> 0 < t.0 <= s@.len() - i && t.3 <= i + t.0,
{
    let len: usize = s.len();
    let ghost rest = s@.skip(i as int);
    let c = s[i];
    assert(rest[0] == c);
    assert(rest.skip(1) =~= s@.skip(i + 1));
    let end = measure_end(s, i, place == Place::Statement);
    if c == ' ' || c == '\t' || c == '\n' || c == '\r' || c as u32 == 12 {
        return Some((1, None, place, open));
    }
    if end > 0 {
        return if open == 0 {
            Some((end, Some(Mark::End), Place::Outside, 0))
        } else {
            None
        };
    }
    if c == '"' || c == '\'' {
        return match find_quote(s, i + 1, c) {
            Some(n) => Some((n + 1, Some(Mark::Quote), place, open)),
            None => None,
        };
    }
    if is_wordy(c) {
        let n = find_word(s, i);
        assert(n > 0);
        if '0' <= c && c <= '9' {
            return if n <= MAX_DIGITS && are_digits(s, i, n) && peek(s, i, n) != Some('.') {
                Some((n, Some(Mark::Number), place, open))
            } else {
                None
            };
        }
        let word = slice_string(s, i, i + n);
        assert(word@ =~= rest.take(n as int));
        return Some((n, Some(Mark::Word(word)), place, open));
    }
    if (c == '=' || c == '!' || c == '<' || c == '>') && peek(s, i, 1) == Some('=') {
        return Some((2, Some(Mark::Compare), place, open));
    }
    if c == '<' || c == '>' {
        return Some((1, Some(Mark::Compare), place, open));
    }
    if !is_known_sign(c) {
        return None;
    }
    if c == '(' || c == '[' {
        Some((1, Some(Mark::Sign(c)), place, open + 1))
    } else if c == ')' || c == ']' {
        if open > 0 {
            Some((1, Some(Mark::Sign(c)), place, open - 1))
        } else {
            None
        }
    } else {
        Some((1, Some(Mark::Sign(c)), place, open))
    }
}

/// Marks without their representation.
pub open spec fn seen(v: Seq<Mark>) -> Seq<Mark<Text>> {
    v.map_values(|m: Mark| m@)
}

/// Reads the marks of a template.
fn read_marks(s: &Vec<char>) -> (r: Option<Vec<Mark>>)
    ensures
        match r {
            Some(v) => marks(s@, Place::Outside, 0) == Some(seen(v@)),
            None => marks(s@, Place::Outside, 0) is None,
        },
{
    let mut out: Vec<Mark> = Vec::new();
    let mut place = Place::Outside;
    let mut open: usize = 0;
    let mut i: usize = 0;
    assert(s@.skip(0) =~= s@);
    proof {
        if let Some(all) = marks(s@, Place::Outside, 0) {
            assert(seen(out@) + all =~= all);
        }
    }
    while i < s.len()
        invariant
            i <= s@.len(),
            open <= i,
            match marks(s@.skip(i as int), place, open as nat) {
                Some(rest) => marks(s@, Place::Outside, 0) == Some(seen(out@) + rest),
                None => marks(s@, Place::Outside, 0) is None,
            },
        decreases s@.len() - i,
    {
        let ghost rest = s@.skip(i as int);
        let ghost before = seen(out@);
        let taken = if place == Place::Outside {
            take_outside(s, i)
        } else {
            take_inside(s, i, place, open)
        };
        match taken {
            None => return None,
            Some((n, mark, next, then_open)) => {
                assert(rest.skip(n as int) =~= s@.skip(i + n));
                let ghost tail = marks(s@.skip(i + n), next, then_open as nat);
                if let Some(m) = mark {
                    let ghost seen_mark = m@;
                    out.push(m);
                    proof {
                        assert(seen(out@) =~= before.push(seen_mark));
                        if let Some(more) = tail {
                            assert(before + (seq![seen_mark] + more) =~= seen(out@) + more);
                        }
                    }
                }
                place = next;
                open = then_open;
                i += n;
            },
        }
    }
    assert(s@.skip(i as int).len() == 0);
    if place == Place::Outside {
        assert(seen(out@) + Seq::<Mark<Text>>::empty() =~= seen(out@));
        Some(out)
    } else {
        None
    }
}

/// The statements that a template may have.
pub open spec fn known_statement(w: Text) -> bool {
    w == "if"@
        || w == "elif"@
        || w == "else"@
        || w == "endif"@
        || w == "for"@
        || w == "endfor"@
        || w == "set"@
        || w == "endset"@
        || w == "macro"@
        || w == "endmacro"@
}

fn is_known_statement(w: &str) -> (b: bool)
    ensures
        b == known_statement(w@),
{
    same(w, "if")
        || same(w, "elif")
        || same(w, "else")
        || same(w, "endif")
        || same(w, "for")
        || same(w, "endfor")
        || same(w, "set")
        || same(w, "endset")
        || same(w, "macro")
        || same(w, "endmacro")
}

/// Filters that neither allocate by a number nor choose what they call, as long as
/// their arguments are those that `filter_fits` asks for.
pub open spec fn gentle_filter(w: Text) -> bool {
    w == "trim"@
        || w == "length"@
        || w == "count"@
        || w == "string"@
        || w == "lower"@
        || w == "upper"@
        || w == "title"@
        || w == "capitalize"@
        || w == "replace"@
        || w == "join"@
        || w == "default"@
        || w == "d"@
        || w == "first"@
        || w == "last"@
        || w == "list"@
        || w == "items"@
        || w == "map"@
        || w == "selectattr"@
        || w == "rejectattr"@
        || w == "tojson"@
        || w == "safe"@
        || w == "reverse"@
}

fn is_gentle_filter(w: &str) -> (b: bool)
    ensures
        b == gentle_filter(w@),
{
    same(w, "trim")
        || same(w, "length")
        || same(w, "count")
        || same(w, "string")
        || same(w, "lower")
        || same(w, "upper")
        || same(w, "title")
        || same(w, "capitalize")
        || same(w, "replace")
        || same(w, "join")
        || same(w, "default")
        || same(w, "d")
        || same(w, "first")
        || same(w, "last")
        || same(w, "list")
        || same(w, "items")
        || same(w, "map")
        || same(w, "selectattr")
        || same(w, "rejectattr")
        || same(w, "tojson")
        || same(w, "safe")
        || same(w, "reverse")
}

/// Methods of texts and maps that end whatever they are given.
pub open spec fn gentle_method(w: Text) -> bool {
    w == "strip"@
        || w == "lstrip"@
        || w == "rstrip"@
        || w == "split"@
        || w == "splitlines"@
        || w == "startswith"@
        || w == "endswith"@
        || w == "upper"@
        || w == "lower"@
        || w == "title"@
        || w == "capitalize"@
        || w == "replace"@
        || w == "items"@
        || w == "keys"@
        || w == "values"@
        || w == "get"@
        || w == "join"@
        || w == "find"@
        || w == "rfind"@
        || w == "isdigit"@
        || w == "isalpha"@
}

fn is_gentle_method(w: &str) -> (b: bool)
    ensures
        b == gentle_method(w@),
{
    same(w, "strip")
        || same(w, "lstrip")
        || same(w, "rstrip")
        || same(w, "split")
        || same(w, "splitlines")
        || same(w, "startswith")
        || same(w, "endswith")
        || same(w, "upper")
        || same(w, "lower")
        || same(w, "title")
        || same(w, "capitalize")
        || same(w, "replace")
        || same(w, "items")
        || same(w, "keys")
        || same(w, "values")
        || same(w, "get")
        || same(w, "join")
        || same(w, "find")
        || same(w, "rfind")
        || same(w, "isdigit")
        || same(w, "isalpha")
}

/// Tests that answer whatever they are given.
pub open spec fn gentle_test(w: Text) -> bool {
    w == "defined"@
        || w == "undefined"@
        || w == "none"@
        || w == "string"@
        || w == "mapping"@
        || w == "iterable"@
        || w == "sequence"@
        || w == "number"@
        || w == "integer"@
        || w == "boolean"@
        || w == "true"@
        || w == "false"@
        || w == "odd"@
        || w == "even"@
        || w == "in"@
        || w == "eq"@
        || w == "equalto"@
        || w == "ne"@
        || w == "startingwith"@
        || w == "endingwith"@
        || w == "sameas"@
}

fn is_gentle_test(w: &str) -> (b: bool)
    ensures
        b == gentle_test(w@),
{
    same(w, "defined")
        || same(w, "undefined")
        || same(w, "none")
        || same(w, "string")
        || same(w, "mapping")
        || same(w, "iterable")
        || same(w, "sequence")
        || same(w, "number")
        || same(w, "integer")
        || same(w, "boolean")
        || same(w, "true")
        || same(w, "false")
        || same(w, "odd")
        || same(w, "even")
        || same(w, "in")
        || same(w, "eq")
        || same(w, "equalto")
        || same(w, "ne")
        || same(w, "startingwith")
        || same(w, "endingwith")
        || same(w, "sameas")
}

/// Words that join expressions: a bracket behind one groups.
pub open spec fn operator(w: Text) -> bool {
    w == "and"@
        || w == "or"@
        || w == "not"@
        || w == "in"@
        || w == "if"@
        || w == "elif"@
        || w == "else"@
        || w == "is"@
        || w == "for"@
}

fn is_operator(w: &str) -> (b: bool)
    ensures
        b == operator(w@),
{
    same(w, "and")
        || same(w, "or")
        || same(w, "not")
        || same(w, "in")
        || same(w, "if")
        || same(w, "elif")
        || same(w, "else")
        || same(w, "is")
        || same(w, "for")
}

/// Functions that a template may call besides its own macros.
pub open spec fn outside_function(w: Text) -> bool {
    w == "namespace"@
        || w == "raise_exception"@
        || w == "strftime_now"@
}

fn is_outside_function(w: &str) -> (b: bool)
    ensures
        b == outside_function(w@),
{
    same(w, "namespace")
        || same(w, "raise_exception")
        || same(w, "strftime_now")
}

/// Names that a template may not use: functions that would be handed around, and
/// loops that call themselves.
pub open spec fn barred(w: Text) -> bool {
    w == "range"@
        || w == "dict"@
        || w == "debug"@
        || w == "cycler"@
        || w == "joiner"@
        || w == "self"@
        || w == "super"@
        || w == "caller"@
        || w == "recursive"@
}

fn is_barred(w: &str) -> (b: bool)
    ensures
        b == barred(w@),
{
    same(w, "range")
        || same(w, "dict")
        || same(w, "debug")
        || same(w, "cycler")
        || same(w, "joiner")
        || same(w, "self")
        || same(w, "super")
        || same(w, "caller")
        || same(w, "recursive")
}

/// The word `w` stands at `i`.
pub open spec fn word(m: Seq<Mark<Text>>, i: int, w: Text) -> bool {
    0 <= i < m.len() && m[i] == Mark::Word(w)
}

/// The sign `c` stands at `i`.
pub open spec fn sign(m: Seq<Mark<Text>>, i: int, c: char) -> bool {
    0 <= i < m.len() && m[i] == Mark::<Text>::Sign(c)
}

/// Some word stands at `i`.
pub open spec fn a_word(m: Seq<Mark<Text>>, i: int) -> bool {
    0 <= i < m.len() && m[i] is Word
}

/// A number or a quoted text stands at `i`.
pub open spec fn a_constant(m: Seq<Mark<Text>>, i: int) -> bool {
    0 <= i < m.len() && (m[i] is Quote || m[i] is Number)
}

/// A statement begins at `i`.
pub open spec fn a_statement(m: Seq<Mark<Text>>, i: int) -> bool {
    0 <= i < m.len() && m[i] == (Mark::<Text>::Tag { statement: true })
}

/// The statement at `i` begins with `w`.
pub open spec fn states(m: Seq<Mark<Text>>, i: int, w: Text) -> bool {
    a_statement(m, i) && word(m, i + 1, w)
}

fn has_word(v: &Vec<Mark>, i: usize, ahead: usize, w: &str) -> (b: bool)
    requires
        i <= v@.len(),
    ensures
        b == word(seen(v@), i + ahead, w@),
{
    if ahead < v.len() - i {
        match &v[i + ahead] {
            Mark::Word(s) => same(s, w),
            _ => false,
        }
    } else {
        false
    }
}

fn had_word(v: &Vec<Mark>, i: usize, back: usize, w: &str) -> (b: bool)
    requires
        i <= v@.len(),
        back > 0,
    ensures
        b == word(seen(v@), i - back, w@),
{
    i >= back && has_word(v, i - back, 0, w)
}

fn has_sign(v: &Vec<Mark>, i: usize, ahead: usize, c: char) -> (b: bool)
    requires
        i <= v@.len(),
    ensures
        b == sign(seen(v@), i + ahead, c),
{
    if ahead < v.len() - i {
        match &v[i + ahead] {
            Mark::Sign(s) => *s == c,
            _ => false,
        }
    } else {
        false
    }
}

fn had_sign(v: &Vec<Mark>, i: usize, back: usize, c: char) -> (b: bool)
    requires
        i <= v@.len(),
        back > 0,
    ensures
        b == sign(seen(v@), i - back, c),
{
    i >= back && has_sign(v, i - back, 0, c)
}

fn has_some_word(v: &Vec<Mark>, i: usize, ahead: usize) -> (b: bool)
    requires
        i <= v@.len(),
    ensures
        b == a_word(seen(v@), i + ahead),
{
    if ahead < v.len() - i {
        match &v[i + ahead] {
            Mark::Word(_) => true,
            _ => false,
        }
    } else {
        false
    }
}

fn has_constant(v: &Vec<Mark>, i: usize, ahead: usize) -> (b: bool)
    requires
        i <= v@.len(),
    ensures
        b == a_constant(seen(v@), i + ahead),
{
    if ahead < v.len() - i {
        match &v[i + ahead] {
            Mark::Quote => true,
            Mark::Number => true,
            _ => false,
        }
    } else {
        false
    }
}

fn has_number(v: &Vec<Mark>, i: usize) -> (b: bool)
    requires
        i < v@.len(),
    ensures
        b == (seen(v@)[i as int] is Number),
{
    match &v[i] {
        Mark::Number => true,
        _ => false,
    }
}

fn has_quote(v: &Vec<Mark>, i: usize, ahead: usize) -> (b: bool)
    requires
        i <= v@.len(),
    ensures
        b == (i + ahead < v@.len() && seen(v@)[i + ahead] is Quote),
{
    if ahead < v.len() - i {
        match &v[i + ahead] {
            Mark::Quote => true,
            _ => false,
        }
    } else {
        false
    }
}

fn has_statement(v: &Vec<Mark>, i: usize) -> (b: bool)
    requires
        i <= v@.len(),
    ensures
        b == a_statement(seen(v@), i as int),
{
    if i < v.len() {
        match &v[i] {
            Mark::Tag { statement } => *statement,
            _ => false,
        }
    } else {
        false
    }
}

fn does_state(v: &Vec<Mark>, i: usize, w: &str) -> (b: bool)
    requires
        i <= v@.len(),
    ensures
        b == states(seen(v@), i as int, w@),
{
    has_statement(v, i) && has_word(v, i, 1, w)
}

/// Where the tag begins that `i` lies in.
pub open spec fn tag_of(m: Seq<Mark<Text>>, i: int) -> int
    decreases i + 1,
{
    if i < 0 || i >= m.len() {
        -1
    } else if m[i] is Tag {
        i
    } else {
        tag_of(m, i - 1)
    }
}

/// How many statements `opening` before `i` lack their `closing`.
pub open spec fn within(m: Seq<Mark<Text>>, i: int, opening: Text, closing: Text) -> int
    decreases i,
{
    if i <= 0 {
        0
    } else {
        within(m, i - 1, opening, closing) + (if states(m, i - 1, opening) {
            1int
        } else if states(m, i - 1, closing) {
            -1
        } else {
            0
        })
    }
}

/// Behind the target of a loop or an assignment.
pub open spec fn past_target(m: Seq<Mark<Text>>, tag: int, i: int) -> bool {
    exists|j: int| tag < j < i && (#[trigger] sign(m, j, '=') || word(m, j, "in"@))
}

/// A place whose values may come back to it: in a macro, in an assignment to a
/// namespace, and in an assignment in a loop. Lists may not grow deeper there.
pub open spec fn comes_back(m: Seq<Mark<Text>>, i: int) -> bool {
    let tag = tag_of(m, i);
    tag >= 0 && {
        ||| within(m, tag, "macro"@, "endmacro"@) > 0
        ||| word(m, tag + 1, "macro"@)
        ||| word(m, tag + 1, "set"@) && (sign(m, tag + 3, '.') || within(
            m,
            tag,
            "for"@,
            "endfor"@,
        ) > 0)
    }
}

/// The template has a macro of this name.
pub open spec fn macro_named(m: Seq<Mark<Text>>, w: Text) -> bool {
    exists|j: int| #[trigger] states(m, j, "macro"@) && word(m, j + 2, w)
}

fn is_macro(v: &Vec<Mark>, w: &str) -> (b: bool)
    ensures
        b == macro_named(seen(v@), w@),
{
    let mut i: usize = 0;
    while i < v.len()
        invariant
            i <= v@.len(),
            forall|j: int|
                0 <= j < i ==> !(#[trigger] states(seen(v@), j, "macro"@) && word(
                    seen(v@),
                    j + 2,
                    w@,
                )),
        decreases v@.len() - i,
    {
        if does_state(v, i, "macro") && has_word(v, i, 2, w) {
            assert(states(seen(v@), i as int, "macro"@));
            return true;
        }
        i += 1;
    }
    false
}

/// A namespace is assigned to the word at `i`.
pub open spec fn names_space(m: Seq<Mark<Text>>, i: int) -> bool {
    states(m, i - 2, "set"@) && sign(m, i + 1, '=') && word(m, i + 2, "namespace"@)
}

/// The template has a namespace of this name.
pub open spec fn space_named(m: Seq<Mark<Text>>, w: Text) -> bool {
    exists|j: int| #[trigger] names_space(m, j) && word(m, j, w)
}

fn does_name_space(v: &Vec<Mark>, i: usize) -> (b: bool)
    requires
        i <= v@.len(),
    ensures
        b == names_space(seen(v@), i as int),
{
    i >= 2 && does_state(v, i - 2, "set") && has_sign(v, i, 1, '=') && has_word(
        v,
        i,
        2,
        "namespace",
    )
}

fn is_space(v: &Vec<Mark>, w: &str) -> (b: bool)
    ensures
        b == space_named(seen(v@), w@),
{
    let mut i: usize = 0;
    while i < v.len()
        invariant
            i <= v@.len(),
            forall|j: int|
                0 <= j < i ==> !(#[trigger] names_space(seen(v@), j) && word(seen(v@), j, w@)),
        decreases v@.len() - i,
    {
        if does_name_space(v, i) && has_word(v, i, 0, w) {
            assert(names_space(seen(v@), i as int));
            return true;
        }
        i += 1;
    }
    false
}

/// The filter or the method `w` stands at `i`.
pub open spec fn applies(m: Seq<Mark<Text>>, i: int, w: Text) -> bool {
    word(m, i, w) && (sign(m, i - 1, '|') || sign(m, i - 1, '.'))
}

fn does_apply(v: &Vec<Mark>, i: usize, w: &str) -> (b: bool)
    requires
        i < v@.len(),
    ensures
        b == applies(seen(v@), i as int, w@),
{
    has_word(v, i, 0, w) && (had_sign(v, i, 1, '|') || had_sign(v, i, 1, '.'))
}

/// At `i` stands a filter or a method that a value may come out of many times as
/// large as it went in.
pub open spec fn spreads_at(m: Seq<Mark<Text>>, i: int) -> bool {
    applies(m, i, "join"@) || applies(m, i, "replace"@)
}

fn does_spread(v: &Vec<Mark>, i: usize) -> (b: bool)
    requires
        i < v@.len(),
    ensures
        b == spreads_at(seen(v@), i as int),
{
    does_apply(v, i, "join") || does_apply(v, i, "replace")
}

/// What is put between or in place of something at `i` is written out.
pub open spec fn spread_fits(m: Seq<Mark<Text>>, i: int) -> bool {
    spreads_at(m, i) ==> {
        ||| quotes_only(m, i + 1)
        ||| applies(m, i, "join"@) && if sign(m, i - 1, '.') {
            0 <= i - 2 < m.len() && m[i - 2] is Quote
        } else {
            !sign(m, i + 1, '(')
        }
    }
}

fn does_spread_fit(v: &Vec<Mark>, i: usize) -> (b: bool)
    requires
        i < v@.len(),
    ensures
        b == spread_fits(seen(v@), i as int),
{
    if !does_spread(v, i) || are_quotes_only(v, i, 1) {
        return true;
    }
    if !does_apply(v, i, "join") {
        return false;
    }
    if had_sign(v, i, 1, '.') {
        i >= 2 && has_quote(v, i - 2, 0)
    } else {
        !has_sign(v, i, 1, '(')
    }
}

/// The word at `i` is the name of something, and no operator.
pub open spec fn a_name(m: Seq<Mark<Text>>, i: int) -> bool {
    a_word(m, i) && !operator(m[i]->Word_0)
}

fn has_name(v: &Vec<Mark>, i: usize) -> (b: bool)
    requires
        i < v@.len(),
    ensures
        b == a_name(seen(v@), i as int),
{
    match &v[i] {
        Mark::Word(w) => !is_operator(w),
        _ => false,
    }
}

/// The square bracket at `i` picks something out of what stands before it.
pub open spec fn picks(m: Seq<Mark<Text>>, i: int) -> bool {
    a_name(m, i - 1) || sign(m, i - 1, ')') || sign(m, i - 1, ']') || (0 <= i - 1 < m.len() && m[i
        - 1] is Quote)
}

fn does_pick(v: &Vec<Mark>, i: usize) -> (b: bool)
    requires
        i < v@.len(),
    ensures
        b == picks(seen(v@), i as int),
{
    i > 0 && (has_name(v, i - 1) || had_sign(v, i, 1, ')') || had_sign(v, i, 1, ']') || has_quote(
        v,
        i - 1,
        0,
    ))
}

/// A list is written at `i`: a bracket opens it, or a comma stands in no call
/// and in no other brackets. Or a value is written out as a text, in which
/// quotes and backslashes are doubled.
pub open spec fn lists_at(m: Seq<Mark<Text>>, i: int) -> bool {
    ||| applies(m, i, "string"@) || applies(m, i, "tojson"@)
    ||| sign(m, i, '[') && !picks(m, i)
    ||| sign(m, i, ',') && {
        let p = opener(m, i - 1, 0);
        !sign(m, p, '[') && !(sign(m, p, '(') && a_name(m, p - 1))
    }
}

fn does_list(v: &Vec<Mark>, i: usize) -> (b: bool)
    requires
        i < v@.len(),
    ensures
        b == lists_at(seen(v@), i as int),
{
    if does_apply(v, i, "string") || does_apply(v, i, "tojson") {
        return true;
    }
    if has_sign(v, i, 0, '[') {
        return !does_pick(v, i);
    }
    if has_sign(v, i, 0, ',') {
        return match find_opener(v, i) {
            Some(p) => !has_sign(v, p, 0, '[') && !(has_sign(v, p, 0, '(') && p > 0 && has_name(
                v,
                p - 1,
            )),
            None => true,
        };
    }
    false
}

/// A macro of the template is called at `i`.
pub open spec fn calls_macro(m: Seq<Mark<Text>>, i: int) -> bool {
    sign(m, i, '(') && a_word(m, i - 1) && macro_named(m, m[i - 1]->Word_0)
}

fn does_call_macro(v: &Vec<Mark>, i: usize) -> (b: bool)
    requires
        i < v@.len(),
    ensures
        b == calls_macro(seen(v@), i as int),
{
    if !has_sign(v, i, 0, '(') || i == 0 {
        return false;
    }
    match &v[i - 1] {
        Mark::Word(w) => is_macro(v, w),
        _ => false,
    }
}

/// What a mark does to the size of a value.
#[derive(Debug, Clone, Copy, PartialEq, Eq, Structural)]
pub enum Growth {
    /// It adds one value to another.
    Adds,
    /// It may make a value many times as large.
    Multiplies,
    /// It calls a macro, which may do either.
    Calls,
    /// It assigns a value.
    Assigns,
}

/// What the mark at `i` does.
pub open spec fn does(m: Seq<Mark<Text>>, i: int, what: Growth) -> bool {
    match what {
        Growth::Adds => sign(m, i, '+'),
        Growth::Multiplies => sign(m, i, '~') || spreads_at(m, i) || lists_at(m, i) || calls_macro(
            m,
            i,
        ),
        Growth::Calls => calls_macro(m, i),
        Growth::Assigns => sign(m, i, '='),
    }
}

fn is_doing(v: &Vec<Mark>, i: usize, what: Growth) -> (b: bool)
    requires
        i < v@.len(),
    ensures
        b == does(seen(v@), i as int, what),
{
    match what {
        Growth::Adds => has_sign(v, i, 0, '+'),
        Growth::Multiplies => has_sign(v, i, 0, '~') || does_spread(v, i) || does_list(v, i)
            || does_call_macro(v, i),
        Growth::Calls => does_call_macro(v, i),
        Growth::Assigns => has_sign(v, i, 0, '='),
    }
}

/// Some mark from `i` on, up to the next tag, does so.
pub open spec fn ahead(m: Seq<Mark<Text>>, i: int, what: Growth) -> bool
    decreases m.len() - i,
{
    0 <= i < m.len() && !(m[i] is Tag) && (does(m, i, what) || ahead(m, i + 1, what))
}

fn is_ahead(v: &Vec<Mark>, from: usize, what: Growth) -> (b: bool)
    requires
        from <= v@.len(),
    ensures
        b == ahead(seen(v@), from as int, what),
{
    let mut i: usize = from;
    while i < v.len()
        invariant
            from <= i <= v@.len(),
            ahead(seen(v@), from as int, what) == ahead(seen(v@), i as int, what),
        decreases v@.len() - i,
    {
        if is_tag(v, i) {
            return false;
        }
        if is_doing(v, i, what) {
            return true;
        }
        i += 1;
    }
    false
}

/// The statement at `i` assigns all that is written up to `endset`.
pub open spec fn opens_block(m: Seq<Mark<Text>>, i: int) -> bool {
    states(m, i, "set"@) && !ahead(m, i + 1, Growth::Assigns)
}

fn does_open_block(v: &Vec<Mark>, i: usize) -> (b: bool)
    requires
        i < v@.len(),
    ensures
        b == opens_block(seen(v@), i as int),
{
    let len: usize = v.len();
    does_state(v, i, "set") && !is_ahead(v, i + 1, Growth::Assigns)
}

/// How many such statements before `i` lack their `endset`.
pub open spec fn blocks(m: Seq<Mark<Text>>, i: int) -> int
    decreases i,
{
    if i <= 0 {
        0
    } else {
        blocks(m, i - 1) + (if opens_block(m, i - 1) {
            1int
        } else if states(m, i - 1, "endset"@) {
            -1
        } else {
            0
        })
    }
}

/// The statement at `i` assigns a value that may be larger than what it is made
/// of.
pub open spec fn grows(m: Seq<Mark<Text>>, i: int) -> bool {
    states(m, i, "set"@) && (opens_block(m, i) || ahead(m, i + 1, Growth::Adds) || ahead(
        m,
        i + 1,
        Growth::Multiplies,
    ))
}

fn does_grow(v: &Vec<Mark>, i: usize) -> (b: bool)
    requires
        i < v@.len(),
    ensures
        b == grows(seen(v@), i as int),
{
    let len: usize = v.len();
    does_state(v, i, "set") && (does_open_block(v, i) || is_ahead(v, i + 1, Growth::Adds)
        || is_ahead(v, i + 1, Growth::Multiplies))
}

/// A name is assigned such a value somewhere.
pub open spec fn grown(m: Seq<Mark<Text>>, w: Text) -> bool {
    exists|j: int| #[trigger] grows(m, j) && word(m, j + 2, w)
}

fn is_grown(v: &Vec<Mark>, w: &str) -> (b: bool)
    ensures
        b == grown(seen(v@), w@),
{
    let mut i: usize = 0;
    while i < v.len()
        invariant
            i <= v@.len(),
            forall|j: int|
                0 <= j < i ==> !(#[trigger] grows(seen(v@), j) && word(seen(v@), j + 2, w@)),
        decreases v@.len() - i,
    {
        if has_word(v, i, 2, w) && does_grow(v, i) {
            assert(grows(seen(v@), i as int));
            return true;
        }
        i += 1;
    }
    false
}

/// At `i`, in the tag that begins at `tag`, stands a name that is grown, and not
/// to be assigned to.
pub open spec fn uses_grown(m: Seq<Mark<Text>>, tag: int, i: int) -> bool {
    a_word(m, i) && !sign(m, i - 1, '.') && i != tag + 2 && grown(m, m[i]->Word_0)
}

fn does_use_grown(v: &Vec<Mark>, tag: usize, i: usize) -> (b: bool)
    requires
        i < v@.len(),
        tag <= i,
    ensures
        b == uses_grown(seen(v@), tag as int, i as int),
{
    match &v[i] {
        Mark::Word(w) => !had_sign(v, i, 1, '.') && i - tag != 2 && is_grown(v, w),
        _ => false,
    }
}

/// How many such names stand in the tag from `i` on.
pub open spec fn grown_ahead(m: Seq<Mark<Text>>, tag: int, i: int) -> nat
    decreases m.len() - i,
{
    if !(0 <= i < m.len()) || m[i] is Tag {
        0
    } else {
        grown_ahead(m, tag, i + 1) + if uses_grown(m, tag, i) {
            1nat
        } else {
            0
        }
    }
}

fn count_grown(v: &Vec<Mark>, tag: usize) -> (n: usize)
    requires
        tag < v@.len(),
    ensures
        n == grown_ahead(seen(v@), tag as int, tag + 1),
{
    let len: usize = v.len();
    let mut n: usize = 0;
    let mut i: usize = tag + 1;
    while i < len
        invariant
            len == v@.len(),
            tag < i <= len,
            n <= i,
            grown_ahead(seen(v@), tag as int, tag + 1) == n + grown_ahead(
                seen(v@),
                tag as int,
                i as int,
            ),
        decreases len - i,
    {
        if is_tag(v, i) {
            return n;
        }
        if does_use_grown(v, tag, i) {
            n += 1;
        }
        i += 1;
    }
    n
}

/// A name that is grown is used at `i` where its value does not grow with itself:
/// it is written out or compared, or assigned to a name that counts as grown,
/// alone where something is added. No macro is handed it.
pub open spec fn growth_fits(m: Seq<Mark<Text>>, i: int) -> bool {
    let tag = tag_of(m, i);
    tag >= 0 && uses_grown(m, tag, i) ==> {
        &&& within(m, tag, "macro"@, "endmacro"@) <= 0
        &&& blocks(m, tag) <= 0
        &&& if a_statement(m, tag) {
            ||| states(m, tag, "if"@) || states(m, tag, "elif"@)
            ||| states(m, tag, "set"@) && a_word(m, tag + 2) && grown(m, m[tag + 2]->Word_0)
                && !ahead(m, tag + 1, Growth::Multiplies) && (ahead(m, tag + 1, Growth::Adds)
                ==> grown_ahead(m, tag, tag + 1) <= 1)
        } else {
            !ahead(m, tag + 1, Growth::Calls)
        }
    }
}

/// How many filters and methods that spread stand in the tag up to `i`.
pub open spec fn spreads_before(m: Seq<Mark<Text>>, i: int) -> nat
    decreases i + 1,
{
    if i < 0 || i >= m.len() || m[i] is Tag {
        0
    } else {
        spreads_before(m, i - 1) + if spreads_at(m, i) {
            1nat
        } else {
            0
        }
    }
}

/// How many lists are written in the tag up to `i`.
pub open spec fn lists_before(m: Seq<Mark<Text>>, i: int) -> nat
    decreases i + 1,
{
    if i < 0 || i >= m.len() || m[i] is Tag {
        0
    } else {
        lists_before(m, i - 1) + if lists_at(m, i) {
            1nat
        } else {
            0
        }
    }
}

/// The most filters and methods that spread a value in one tag.
pub const MAX_SPREADS: usize = 1;

/// The most lists that are written in one tag.
pub const MAX_LISTS: usize = 8;

/// The most loops within each other.
pub const MAX_LOOPS: usize = 3;

/// The most marks that a tag has.
pub const MAX_TAG: usize = 256;

/// The tag that begins at `i` ends soon.
pub open spec fn ends_soon(m: Seq<Mark<Text>>, i: int) -> bool {
    exists|j: int| i < j <= i + MAX_TAG && j < m.len() && #[trigger] m[j] is End
}

fn does_end_soon(v: &Vec<Mark>, i: usize) -> (b: bool)
    requires
        i < v@.len(),
    ensures
        b == ends_soon(seen(v@), i as int),
{
    let len: usize = v.len();
    let mut j: usize = i + 1;
    while j < len && j - i <= MAX_TAG
        invariant
            len == v@.len(),
            i < j <= len,
            forall|k: int| i < k < j ==> !(#[trigger] seen(v@)[k] is End),
        decreases len - j,
    {
        match &v[j] {
            Mark::End => {
                assert(seen(v@)[j as int] is End);
                return true;
            },
            _ => {},
        }
        j += 1;
    }
    false
}

/// A tag is short, and a statement is a known one. What is assigned to is named
/// first, and alone. Loops lie in few others.
pub open spec fn tag_fits(m: Seq<Mark<Text>>, i: int, statement: bool) -> bool {
    &&& ends_soon(m, i)
    &&& statement ==> a_word(m, i + 1) && known_statement(m[i + 1]->Word_0)
    &&& states(m, i, "set"@) ==> a_word(m, i + 2) && !sign(m, i + 3, ',')
    &&& states(m, i, "for"@) ==> within(m, i, "for"@, "endfor"@) < MAX_LOOPS
}

/// A name is used as it may be: none is barred, a loop and a namespace are used
/// by their parts only, a namespace is made where it is assigned, and tests are
/// gentle.
pub open spec fn word_fits(m: Seq<Mark<Text>>, i: int, w: Text) -> bool {
    sign(m, i - 1, '.') || {
        &&& !barred(w)
        &&& w == "loop"@ ==> sign(m, i + 1, '.')
        &&& w == "namespace"@ ==> names_space(m, i - 2) && sign(m, i + 1, '(')
        &&& space_named(m, w) ==> sign(m, i + 1, '.') || names_space(m, i)
        &&& w == "is"@ ==> {
            let t = if word(m, i + 1, "not"@) {
                i + 2
            } else {
                i + 1
            };
            a_word(m, t) && gentle_test(m[t]->Word_0) && !sign(m, t + 1, '.')
        }
    }
}

/// `i` lies in a macro.
pub open spec fn in_macro(m: Seq<Mark<Text>>, i: int) -> bool {
    let tag = tag_of(m, i);
    tag >= 0 && (within(m, tag, "macro"@, "endmacro"@) > 0 || word(m, tag + 1, "macro"@))
}

/// What is called may be called: a gentle method, a filter or a test, which are
/// judged where they are named, a macro of the template, though not from within
/// a macro, or one of a few functions. Otherwise the bracket groups.
pub open spec fn call_fits(m: Seq<Mark<Text>>, i: int) -> bool {
    if i > 0 && m[i - 1] is Word {
        let w = m[i - 1]->Word_0;
        if sign(m, i - 2, '.') {
            gentle_method(w)
        } else {
            ||| sign(m, i - 2, '|')
            ||| word(m, i - 2, "is"@)
            ||| word(m, i - 2, "not"@) && word(m, i - 3, "is"@)
            ||| operator(w)
            ||| outside_function(w)
            ||| macro_named(m, w) && !in_macro(m, i)
            ||| states(m, i - 3, "macro"@)
        }
    } else {
        !a_constant(m, i - 1) && !sign(m, i - 1, ')') && !sign(m, i - 1, ']')
    }
}

/// Up to three quoted texts in brackets.
pub open spec fn quotes_only(m: Seq<Mark<Text>>, i: int) -> bool {
    sign(m, i, '(') && a_constant(m, i + 1) && (sign(m, i + 2, ')') || sign(m, i + 2, ',')
        && a_constant(m, i + 3) && (sign(m, i + 4, ')') || sign(m, i + 4, ',') && (0 <= i + 5
        < m.len() && m[i + 5] is Quote) && sign(m, i + 6, ')')))
}

/// The filter behind the sign at `i` is gentle, and so are its arguments: what a
/// list is mapped to is an attribute, what is selected by is written out, and
/// JSON is indented by a number that is written out.
pub open spec fn filter_fits(m: Seq<Mark<Text>>, i: int) -> bool {
    a_word(m, i + 1) && {
        let f = m[i + 1]->Word_0;
        &&& gentle_filter(f)
        &&& !sign(m, i + 2, '.')
        &&& f == "map"@ ==> sign(m, i + 2, '(') && word(m, i + 3, "attribute"@) && sign(
            m,
            i + 4,
            '=',
        )
        &&& f == "selectattr"@ || f == "rejectattr"@ ==> quotes_only(m, i + 2)
        &&& f == "tojson"@ && sign(m, i + 2, '(') ==> a_word(m, i + 3) && sign(m, i + 4, '=') && (
        a_word(m, i + 5) || a_constant(m, i + 5)) && sign(m, i + 6, ')')
        &&& comes_back(m, i) ==> f != "reverse"@
    }
}

/// A constant that is an element of a list, or all that stands in brackets.
pub open spec fn lone_constant(m: Seq<Mark<Text>>, i: int) -> bool {
    a_constant(m, i) && (sign(m, i + 1, ',') || sign(m, i + 1, ']'))
}

/// A list that is written where values come back begins with a constant.
pub open spec fn bracket_fits(m: Seq<Mark<Text>>, i: int) -> bool {
    comes_back(m, i) ==> picks(m, i) || lone_constant(m, i + 1)
}

/// The bracket that is open at `i`, counted from `depth` brackets further in.
pub open spec fn opener(m: Seq<Mark<Text>>, i: int, depth: nat) -> int
    decreases i + 1,
{
    if i < 0 || i >= m.len() || m[i] is Tag {
        -1
    } else if sign(m, i, ')') || sign(m, i, ']') {
        opener(m, i - 1, depth + 1)
    } else if sign(m, i, '(') || sign(m, i, '[') {
        if depth == 0 {
            i
        } else {
            opener(m, i - 1, (depth - 1) as nat)
        }
    } else {
        opener(m, i - 1, depth)
    }
}

fn find_opener(v: &Vec<Mark>, from: usize) -> (r: Option<usize>)
    requires
        from <= v@.len(),
    ensures
        match r {
            Some(p) => p < from && opener(seen(v@), from - 1, 0) == p,
            None => opener(seen(v@), from - 1, 0) == -1,
        },
{
    let mut i: usize = from;
    let mut depth: usize = 0;
    while i > 0
        invariant
            i <= from <= v@.len(),
            depth <= from - i,
            opener(seen(v@), from - 1, 0) == opener(seen(v@), i - 1, depth as nat),
        decreases i,
    {
        let k: usize = i - 1;
        match &v[k] {
            Mark::Tag { .. } => return None,
            Mark::Sign(c) => {
                if *c == ')' || *c == ']' {
                    depth += 1;
                } else if *c == '(' || *c == '[' {
                    if depth == 0 {
                        return Some(k);
                    }
                    depth -= 1;
                }
            },
            _ => {},
        }
        i = k;
    }
    None
}

/// A comma, where values come back, stands between arguments, between constants
/// or between the names that a loop runs over.
pub open spec fn comma_fits(m: Seq<Mark<Text>>, i: int) -> bool {
    comes_back(m, i) ==> {
        let p = opener(m, i - 1, 0);
        let tag = tag_of(m, i);
        ||| sign(m, p, '(') && a_word(m, p - 1) && !operator(m[p - 1]->Word_0)
        ||| lone_constant(m, i + 1)
        ||| states(m, tag, "for"@) && !past_target(m, tag, i)
    }
}

/// From `k` on the bracket closes before another colon comes.
pub open spec fn no_colon(m: Seq<Mark<Text>>, k: int, depth: nat) -> bool
    decreases m.len() - k,
{
    if k < 0 || k >= m.len() {
        false
    } else if sign(m, k, '(') || sign(m, k, '[') {
        no_colon(m, k + 1, depth + 1)
    } else if sign(m, k, ')') || sign(m, k, ']') {
        depth == 0 || no_colon(m, k + 1, (depth - 1) as nat)
    } else {
        (depth > 0 || !sign(m, k, ':')) && no_colon(m, k + 1, depth)
    }
}

fn has_no_colon(v: &Vec<Mark>, from: usize) -> (b: bool)
    requires
        from <= v@.len(),
    ensures
        b == no_colon(seen(v@), from as int, 0),
{
    let mut k: usize = from;
    let mut depth: usize = 0;
    while k < v.len()
        invariant
            from <= k <= v@.len(),
            depth <= k - from,
            no_colon(seen(v@), from as int, 0) == no_colon(seen(v@), k as int, depth as nat),
        decreases v@.len() - k,
    {
        match &v[k] {
            Mark::Sign(c) => {
                if *c == '(' || *c == '[' {
                    depth += 1;
                } else if *c == ')' || *c == ']' {
                    if depth == 0 {
                        return true;
                    }
                    depth -= 1;
                } else if *c == ':' && depth == 0 {
                    return false;
                }
            },
            _ => {},
        }
        k += 1;
    }
    false
}

/// The conversation, backwards: `messages[::-1]`, its first colon at `i`.
pub open spec fn backwards(m: Seq<Mark<Text>>, i: int) -> bool {
    &&& word(m, i - 2, "messages"@)
    &&& !sign(m, i - 3, '.')
    &&& sign(m, i - 1, '[')
    &&& sign(m, i, ':')
    &&& sign(m, i + 1, ':')
    &&& sign(m, i + 2, '-')
    &&& 0 <= i + 3 < m.len() && m[i + 3] is Number
    &&& sign(m, i + 4, ']')
}

fn is_backwards(v: &Vec<Mark>, i: usize) -> (b: bool)
    requires
        i <= v@.len(),
    ensures
        b == backwards(seen(v@), i as int),
{
    let len: usize = v.len();
    had_word(v, i, 2, "messages") && !had_sign(v, i, 3, '.') && had_sign(v, i, 1, '[')
        && has_sign(v, i, 0, ':') && has_sign(v, i, 1, ':') && has_sign(v, i, 2, '-')
        && has_sign(v, i, 4, ']') && has_number(v, i + 3)
}

/// A slice has no step, but for the conversation backwards, where there is one.
pub open spec fn colon_fits(m: Seq<Mark<Text>>, i: int, some: bool) -> bool {
    !comes_back(m, i) && (no_colon(m, i + 1, 0) || some && (backwards(m, i) || backwards(m, i - 1)))
}

/// The conversation keeps its name: it is neither assigned to, nor what a loop
/// runs over, nor an argument of a macro.
pub open spec fn keeps_name(m: Seq<Mark<Text>>, i: int) -> bool {
    let tag = tag_of(m, i);
    word(m, i, "messages"@) ==> sign(m, i - 1, '.') || !states(m, tag, "macro"@) && (states(
        m,
        tag,
        "set"@,
    ) || states(m, tag, "for"@) ==> past_target(m, tag, i))
}

/// What stands at `i` keeps values in bounds.
pub open spec fn bounded(m: Seq<Mark<Text>>, i: int) -> bool {
    &&& growth_fits(m, i)
    &&& spread_fits(m, i)
    &&& spreads_before(m, i) <= MAX_SPREADS
    &&& lists_before(m, i) <= MAX_LISTS
}

/// What stands at `i` may stand there.
pub open spec fn fits(m: Seq<Mark<Text>>, i: int, some: bool) -> bool {
    bounded(m, i) && match m[i] {
        Mark::Tag { statement } => tag_fits(m, i, statement),
        Mark::Word(w) => word_fits(m, i, w),
        Mark::Sign(c) => if c == '(' {
            call_fits(m, i)
        } else if c == '|' {
            filter_fits(m, i)
        } else if c == '[' {
            bracket_fits(m, i)
        } else if c == ',' {
            comma_fits(m, i)
        } else if c == ':' {
            colon_fits(m, i, some)
        } else {
            true
        },
        _ => true,
    }
}

/// The conversation is taken backwards somewhere.
pub open spec fn turns_back(m: Seq<Mark<Text>>) -> bool {
    exists|i: int| #[trigger] backwards(m, i)
}

/// A mark with which lists can grow deeper.
pub open spec fn deepens(m: Mark<Text>) -> bool {
    m == Mark::<Text>::Sign('[') || m == Mark::<Text>::Sign(',') || m == Mark::<Text>::Sign(':') || m
        == Mark::<Text>::Sign('|')
}

/// How many of the first `n` marks are of a kind.
pub open spec fn tally(m: Seq<Mark<Text>>, n: int, kind: spec_fn(Mark<Text>) -> bool) -> nat
    decreases n,
{
    if n <= 0 {
        0
    } else {
        tally(m, n - 1, kind) + if kind(m[n - 1]) {
            1nat
        } else {
            0
        }
    }
}

/// The most marks with which lists can grow deeper.
pub const MAX_DEPTH: usize = 400;

/// The most branches behind a condition.
pub const MAX_BRANCHES: usize = 100;

/// A template is shorter than this.
pub const MAX_TEMPLATE: usize = 65_000;

/// The marks of a template that is rendered.
pub open spec fn marks_plain(m: Seq<Mark<Text>>, some: bool) -> bool {
    &&& forall|i: int| 0 <= i < m.len() ==> #[trigger] fits(m, i, some)
    &&& turns_back(m) ==> forall|i: int| 0 <= i < m.len() ==> #[trigger] keeps_name(m, i)
    &&& tally(m, m.len() as int, |x: Mark<Text>| deepens(x)) <= MAX_DEPTH
    &&& tally(m, m.len() as int, |x: Mark<Text>| x == Mark::Word("elif"@)) <= MAX_BRANCHES
}

/// A template that is rendered, where `some` tells that there are messages.
pub open spec fn plain(template: Text, some: bool) -> bool {
    template.len() < MAX_TEMPLATE && (marks(template, Place::Outside, 0) matches Some(m)
        && marks_plain(m, some))
}

fn does_tag_fit(v: &Vec<Mark>, i: usize, statement: bool, loops: i128) -> (b: bool)
    requires
        i < v@.len(),
        loops == within(seen(v@), i as int, "for"@, "endfor"@),
    ensures
        b == tag_fits(seen(v@), i as int, statement),
{
    let len: usize = v.len();
    if !does_end_soon(v, i) {
        return false;
    }
    if statement {
        let known = if i + 1 < len {
            match &v[i + 1] {
                Mark::Word(w) => is_known_statement(w),
                _ => false,
            }
        } else {
            false
        };
        if !known {
            return false;
        }
    }
    (!does_state(v, i, "set") || (has_some_word(v, i, 2) && !has_sign(v, i, 3, ','))) && (
    !does_state(v, i, "for") || loops < MAX_LOOPS as i128)
}

fn is_gentle_word(v: &Vec<Mark>, i: usize, ahead: usize) -> (b: bool)
    requires
        i <= v@.len(),
    ensures
        b == (a_word(seen(v@), i + ahead) && gentle_test(seen(v@)[i + ahead]->Word_0)),
{
    if ahead < v.len() - i {
        match &v[i + ahead] {
            Mark::Word(w) => is_gentle_test(w),
            _ => false,
        }
    } else {
        false
    }
}

fn does_word_fit(v: &Vec<Mark>, i: usize, w: &str) -> (b: bool)
    requires
        i < v@.len(),
    ensures
        b == word_fits(seen(v@), i as int, w@),
{
    if had_sign(v, i, 1, '.') {
        return true;
    }
    if is_barred(w) {
        return false;
    }
    if same(w, "loop") && !has_sign(v, i, 1, '.') {
        return false;
    }
    if same(w, "namespace") && !(i >= 2 && does_name_space(v, i - 2) && has_sign(v, i, 1, '(')) {
        return false;
    }
    if !has_sign(v, i, 1, '.') && !does_name_space(v, i) && is_space(v, w) {
        return false;
    }
    if same(w, "is") {
        let ahead: usize = if has_word(v, i, 1, "not") {
            2
        } else {
            1
        };
        return is_gentle_word(v, i, ahead) && !has_sign(v, i, ahead + 1, '.');
    }
    true
}

fn does_call_fit(v: &Vec<Mark>, i: usize, inside: bool) -> (b: bool)
    requires
        i < v@.len(),
        inside == in_macro(seen(v@), i as int),
    ensures
        b == call_fits(seen(v@), i as int),
{
    if i == 0 {
        return true;
    }
    match &v[i - 1] {
        Mark::Word(w) => if had_sign(v, i, 2, '.') {
            is_gentle_method(w)
        } else {
            had_sign(v, i, 2, '|') || had_word(v, i, 2, "is") || (had_word(v, i, 2, "not")
                && had_word(v, i, 3, "is")) || is_operator(w) || is_outside_function(w) || (!inside
                && is_macro(v, w)) || (i >= 3 && does_state(v, i - 3, "macro"))
        },
        Mark::Quote => false,
        Mark::Number => false,
        Mark::Sign(c) => *c != ')' && *c != ']',
        _ => true,
    }
}

fn are_quotes_only(v: &Vec<Mark>, i: usize, ahead: usize) -> (b: bool)
    requires
        i <= v@.len(),
        ahead < 8,
    ensures
        b == quotes_only(seen(v@), i + ahead),
{
    has_sign(v, i, ahead, '(') && has_constant(v, i, ahead + 1) && (has_sign(v, i, ahead + 2, ')')
        || (has_sign(v, i, ahead + 2, ',') && has_constant(v, i, ahead + 3) && (has_sign(
        v,
        i,
        ahead + 4,
        ')',
    ) || (has_sign(v, i, ahead + 4, ',') && has_quote(v, i, ahead + 5) && has_sign(
        v,
        i,
        ahead + 6,
        ')',
    )))))
}

fn does_filter_fit(v: &Vec<Mark>, i: usize, back: bool) -> (b: bool)
    requires
        i < v@.len(),
        back == comes_back(seen(v@), i as int),
    ensures
        b == filter_fits(seen(v@), i as int),
{
    let len: usize = v.len();
    if i + 1 >= len {
        return false;
    }
    match &v[i + 1] {
        Mark::Word(f) => {
            if !is_gentle_filter(f) || has_sign(v, i, 2, '.') {
                return false;
            }
            if same(f, "map") && !(has_sign(v, i, 2, '(') && has_word(v, i, 3, "attribute")
                && has_sign(v, i, 4, '=')) {
                return false;
            }
            if (same(f, "selectattr") || same(f, "rejectattr")) && !are_quotes_only(v, i, 2) {
                return false;
            }
            if same(f, "tojson") && has_sign(v, i, 2, '(') && !(has_some_word(v, i, 3) && has_sign(
                v,
                i,
                4,
                '=',
            ) && (has_some_word(v, i, 5) || has_constant(v, i, 5)) && has_sign(v, i, 6, ')')) {
                return false;
            }
            !back || !same(f, "reverse")
        },
        _ => false,
    }
}

fn is_lone_constant(v: &Vec<Mark>, i: usize, ahead: usize) -> (b: bool)
    requires
        i <= v@.len(),
        ahead < 8,
    ensures
        b == lone_constant(seen(v@), i + ahead),
{
    has_constant(v, i, ahead) && (has_sign(v, i, ahead + 1, ',') || has_sign(v, i, ahead + 1, ']'))
}

fn does_bracket_fit(v: &Vec<Mark>, i: usize, back: bool) -> (b: bool)
    requires
        i < v@.len(),
        back == comes_back(seen(v@), i as int),
    ensures
        b == bracket_fits(seen(v@), i as int),
{
    !back || does_pick(v, i) || is_lone_constant(v, i, 1)
}

fn does_comma_fit(v: &Vec<Mark>, i: usize, back: bool, tag: usize, past: bool) -> (b: bool)
    requires
        i < v@.len(),
        back == comes_back(seen(v@), i as int),
        back ==> tag == tag_of(seen(v@), i as int),
        back ==> past == past_target(seen(v@), tag as int, i as int),
        tag <= v@.len(),
    ensures
        b == comma_fits(seen(v@), i as int),
{
    if !back || is_lone_constant(v, i, 1) || (does_state(v, tag, "for") && !past) {
        return true;
    }
    match find_opener(v, i) {
        Some(p) => {
            if p == 0 || !has_sign(v, p, 0, '(') {
                return false;
            }
            match &v[p - 1] {
                Mark::Word(w) => !is_operator(w),
                _ => false,
            }
        },
        None => false,
    }
}

fn does_colon_fit(v: &Vec<Mark>, i: usize, back: bool, some: bool) -> (b: bool)
    requires
        i < v@.len(),
        back == comes_back(seen(v@), i as int),
    ensures
        b == colon_fits(seen(v@), i as int, some),
{
    let len: usize = v.len();
    !back && (has_no_colon(v, i + 1) || (some && (is_backwards(v, i) || (i > 0 && is_backwards(
        v,
        i - 1,
    )))))
}

/// What is known where a mark stands: the tag it lies in, whether it stands
/// behind that tag's target, how many loops, macros and blocks the tag lies in,
/// and what the tag holds up to there.
struct Around {
    tag: Option<usize>,
    past: bool,
    loops: i128,
    macros: i128,
    blocks: i128,
    spreads: usize,
    lists: usize,
}

impl Around {
    spec fn holds(self, m: Seq<Mark<Text>>, i: int) -> bool {
        &&& self.spreads == spreads_before(m, i)
        &&& self.lists == lists_before(m, i)
        &&& match self.tag {
            Some(t) => {
                &&& tag_of(m, i) == t
                &&& t <= i
                &&& self.past == past_target(m, t as int, i)
                &&& self.loops == within(m, t as int, "for"@, "endfor"@)
                &&& self.macros == within(m, t as int, "macro"@, "endmacro"@)
                &&& self.blocks == blocks(m, t as int)
            },
            None => tag_of(m, i) == -1,
        }
    }

    fn comes_back(&self, v: &Vec<Mark>, i: usize) -> (b: bool)
        requires
            i < v@.len(),
            self.holds(seen(v@), i as int),
        ensures
            b == comes_back(seen(v@), i as int),
    {
        match self.tag {
            Some(t) => self.macros > 0 || has_word(v, t, 1, "macro") || (has_word(v, t, 1, "set")
                && (has_sign(v, t, 3, '.') || self.loops > 0)),
            None => false,
        }
    }

    fn is_in_macro(&self, v: &Vec<Mark>, i: usize) -> (b: bool)
        requires
            i < v@.len(),
            self.holds(seen(v@), i as int),
        ensures
            b == in_macro(seen(v@), i as int),
    {
        match self.tag {
            Some(t) => self.macros > 0 || has_word(v, t, 1, "macro"),
            None => false,
        }
    }

    fn does_growth_fit(&self, v: &Vec<Mark>, i: usize) -> (b: bool)
        requires
            i < v@.len(),
            self.holds(seen(v@), i as int),
        ensures
            b == growth_fits(seen(v@), i as int),
    {
        let t: usize = match self.tag {
            Some(t) => t,
            None => return true,
        };
        if !does_use_grown(v, t, i) {
            return true;
        }
        if self.macros > 0 || self.blocks > 0 {
            return false;
        }
        let len: usize = v.len();
        if !has_statement(v, t) {
            return !is_ahead(v, t + 1, Growth::Calls);
        }
        if does_state(v, t, "if") || does_state(v, t, "elif") {
            return true;
        }
        if !does_state(v, t, "set") || is_ahead(v, t + 1, Growth::Multiplies) {
            return false;
        }
        let target: bool = if len - t > 2 {
            match &v[t + 2] {
                Mark::Word(w) => is_grown(v, w),
                _ => false,
            }
        } else {
            false
        };
        target && (!is_ahead(v, t + 1, Growth::Adds) || count_grown(v, t) <= 1)
    }

    fn is_bounded(&self, v: &Vec<Mark>, i: usize) -> (b: bool)
        requires
            i < v@.len(),
            self.holds(seen(v@), i as int),
        ensures
            b == bounded(seen(v@), i as int),
    {
        self.spreads <= MAX_SPREADS && self.lists <= MAX_LISTS && does_spread_fit(v, i)
            && self.does_growth_fit(v, i)
    }

    fn does_fit(&self, v: &Vec<Mark>, i: usize, some: bool) -> (b: bool)
        requires
            i < v@.len(),
            self.holds(seen(v@), i as int),
        ensures
            b == fits(seen(v@), i as int, some),
    {
        if !self.is_bounded(v, i) {
            return false;
        }
        let back = self.comes_back(v, i);
        match &v[i] {
            Mark::Tag { statement } => does_tag_fit(v, i, *statement, self.loops),
            Mark::Word(w) => does_word_fit(v, i, w),
            Mark::Sign(c) => if *c == '(' {
                does_call_fit(v, i, self.is_in_macro(v, i))
            } else if *c == '|' {
                does_filter_fit(v, i, back)
            } else if *c == '[' {
                does_bracket_fit(v, i, back)
            } else if *c == ',' {
                let tag: usize = match self.tag {
                    Some(t) => t,
                    None => 0,
                };
                does_comma_fit(v, i, back, tag, self.past)
            } else if *c == ':' {
                does_colon_fit(v, i, back, some)
            } else {
                true
            },
            _ => true,
        }
    }

    fn does_keep_name(&self, v: &Vec<Mark>, i: usize) -> (b: bool)
        requires
            i < v@.len(),
            self.holds(seen(v@), i as int),
        ensures
            b == keeps_name(seen(v@), i as int),
    {
        if !has_word(v, i, 0, "messages") || had_sign(v, i, 1, '.') {
            return true;
        }
        match self.tag {
            Some(t) => !does_state(v, t, "macro") && (!(does_state(v, t, "set") || does_state(
                v,
                t,
                "for",
            )) || self.past),
            None => true,
        }
    }
}

/// Whether a target ends at `i`.
fn ends_target(v: &Vec<Mark>, i: usize) -> (b: bool)
    requires
        i < v@.len(),
    ensures
        b == (sign(seen(v@), i as int, '=') || word(seen(v@), i as int, "in"@)),
{
    has_sign(v, i, 0, '=') || has_word(v, i, 0, "in")
}

fn does_deepen(v: &Vec<Mark>, i: usize) -> (b: bool)
    requires
        i < v@.len(),
    ensures
        b == deepens(seen(v@)[i as int]),
{
    has_sign(v, i, 0, '[') || has_sign(v, i, 0, ',') || has_sign(v, i, 0, ':') || has_sign(
        v,
        i,
        0,
        '|',
    )
}

fn is_tag(v: &Vec<Mark>, i: usize) -> (b: bool)
    requires
        i < v@.len(),
    ensures
        b == (seen(v@)[i as int] is Tag),
{
    match &v[i] {
        Mark::Tag { .. } => true,
        _ => false,
    }
}

fn change(v: &Vec<Mark>, i: usize, opening: &str, closing: &str) -> (n: i128)
    requires
        i < v@.len(),
    ensures
        n == within(seen(v@), i + 1, opening@, closing@) - within(
            seen(v@),
            i as int,
            opening@,
            closing@,
        ),
        -1 <= n <= 1,
{
    if does_state(v, i, opening) {
        1
    } else if does_state(v, i, closing) {
        -1
    } else {
        0
    }
}

fn are_marks_plain(v: &Vec<Mark>, some: bool) -> (b: bool)
    ensures
        b == marks_plain(seen(v@), some),
{
    let ghost m = seen(v@);
    let ghost deep = |x: Mark<Text>| deepens(x);
    let ghost branch = |x: Mark<Text>| x == Mark::Word("elif"@);
    let mut around = Around {
        tag: None,
        past: false,
        loops: 0,
        macros: 0,
        blocks: 0,
        spreads: 0,
        lists: 0,
    };
    let mut loops: i128 = 0;
    let mut macros: i128 = 0;
    let mut open: i128 = 0;
    let mut depth: usize = 0;
    let mut branches: usize = 0;
    let mut back: bool = false;
    let mut kept: bool = true;
    let mut i: usize = 0;
    while i < v.len()
        invariant
            i <= v@.len(),
            m == seen(v@),
            deep == (|x: Mark<Text>| deepens(x)),
            branch == (|x: Mark<Text>| x == Mark::Word("elif"@)),
            i > 0 ==> around.holds(m, i - 1),
            i == 0 ==> around.tag is None && around.spreads == 0 && around.lists == 0,
            around.spreads <= i,
            around.lists <= i,
            open == blocks(m, i as int),
            -(i as int) <= open <= i,
            loops == within(m, i as int, "for"@, "endfor"@),
            macros == within(m, i as int, "macro"@, "endmacro"@),
            -(i as int) <= loops <= i,
            -(i as int) <= macros <= i,
            depth == tally(m, i as int, deep),
            branches == tally(m, i as int, branch),
            depth <= i,
            branches <= i,
            forall|k: int| 0 <= k < i ==> #[trigger] fits(m, k, some),
            back <==> exists|k: int| 0 <= k < i && #[trigger] backwards(m, k),
            kept <==> forall|k: int| 0 <= k < i ==> #[trigger] keeps_name(m, k),
        decreases v@.len() - i,
    {
        let ghost before = around;
        if is_tag(v, i) {
            around = Around {
                tag: Some(i),
                past: false,
                loops,
                macros,
                blocks: open,
                spreads: 0,
                lists: 0,
            };
            assert(tag_of(m, i as int) == i);
        } else {
            if does_spread(v, i) {
                around.spreads = around.spreads + 1;
            }
            if does_list(v, i) {
                around.lists = around.lists + 1;
            }
            if i > 0 && around.tag.is_some() && ends_target(v, i - 1) {
                around.past = true;
            }
            proof {
                lemma_around(before, around, m, i as int);
            }
        }
        if !around.does_fit(v, i, some) {
            assert(!fits(m, i as int, some));
            return false;
        }
        if is_backwards(v, i) {
            assert(backwards(m, i as int));
            back = true;
        }
        if !around.does_keep_name(v, i) {
            assert(!keeps_name(m, i as int));
            kept = false;
        }
        if does_deepen(v, i) {
            depth += 1;
        }
        if has_word(v, i, 0, "elif") {
            branches += 1;
        }
        loops = loops + change(v, i, "for", "endfor");
        macros = macros + change(v, i, "macro", "endmacro");
        if does_open_block(v, i) {
            open += 1;
        } else if does_state(v, i, "endset") {
            open -= 1;
        }
        i += 1;
    }
    proof {
        if turns_back(m) {
            let k = choose|k: int| #[trigger] backwards(m, k);
            assert(0 <= k < m.len());
        }
    }
    (!back || kept) && depth <= MAX_DEPTH && branches <= MAX_BRANCHES
}

/// A tag begins where a tag begins.
proof fn lemma_tag_of(m: Seq<Mark<Text>>, i: int)
    requires
        i < m.len(),
    ensures
        tag_of(m, i) >= 0 ==> tag_of(m, i) <= i && m[tag_of(m, i)] is Tag,
    decreases i + 1,
{
    if i >= 0 && !(m[i] is Tag) {
        lemma_tag_of(m, i - 1);
    }
}

/// What is known of a mark follows from what is known of the one before it in
/// the same tag.
proof fn lemma_around(before: Around, now: Around, m: Seq<Mark<Text>>, i: int)
    requires
        0 <= i < m.len(),
        !(m[i] is Tag),
        i > 0 ==> before.holds(m, i - 1),
        i == 0 ==> before.tag is None && before.spreads == 0 && before.lists == 0,
        now.tag == before.tag,
        now.loops == before.loops,
        now.macros == before.macros,
        now.blocks == before.blocks,
        now.spreads == before.spreads + (if spreads_at(m, i) {
            1int
        } else {
            0
        }),
        now.lists == before.lists + (if lists_at(m, i) {
            1int
        } else {
            0
        }),
        now.past == (before.past || (i > 0 && before.tag is Some && (sign(m, i - 1, '=') || word(
            m,
            i - 1,
            "in"@,
        )))),
    ensures
        now.holds(m, i),
{
    assert(tag_of(m, i) == tag_of(m, i - 1));
    assert(spreads_before(m, -1) == 0 && lists_before(m, -1) == 0);
    if let Some(t) = now.tag {
        let t = t as int;
        if before.past {
            let j = choose|j: int|
                t < j < i - 1 && (#[trigger] sign(m, j, '=') || word(m, j, "in"@));
            assert(sign(m, j, '=') || word(m, j, "in"@));
            assert(t < j < i);
        }
        if now.past && !before.past {
            assert(sign(m, i - 1, '=') || word(m, i - 1, "in"@));
            lemma_tag_of(m, i - 1);
        }
        if past_target(m, t, i) && !before.past {
            let j = choose|j: int| t < j < i && (#[trigger] sign(m, j, '=') || word(m, j, "in"@));
            if j < i - 1 {
                assert(sign(m, j, '=') || word(m, j, "in"@));
            }
        }
    }
}

/// Whether a template is rendered, where `some` tells that there are messages.
pub fn is_plain(template: &str, some: bool) -> (b: bool)
    ensures
        b == plain(template@, some),
{
    let chars = chars_of(template);
    if chars.len() >= MAX_TEMPLATE {
        return false;
    }
    match read_marks(&chars) {
        Some(v) => are_marks_plain(&v, some),
        None => false,
    }
}

proof fn lemma_no_marks(s: Text)
    requires
        forall|i: int| 0 <= i < s.len() ==> #[trigger] s[i] != '{',
    ensures
        marks(s, Place::Outside, 0) == Some(Seq::<Mark<Text>>::empty()),
    decreases s.len(),
{
    if s.len() > 0 {
        let rest = s.skip(1);
        assert forall|i: int| 0 <= i < rest.len() implies #[trigger] rest[i] != '{' by {
            assert(rest[i] == s[i + 1]);
        }
        lemma_no_marks(rest);
        assert(s[0] != '{');
    }
}

/// A template that is mere text is rendered, up to its length.
pub proof fn law_text_is_plain(template: Text, some: bool)
    requires
        template.len() < 65_000,
        forall|i: int| 0 <= i < template.len() ==> #[trigger] template[i] != '{',
    ensures
        plain(template, some),
{
    lemma_no_marks(template);
}

} // verus!
