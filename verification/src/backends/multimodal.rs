//! Where image and audio embeddings go among the text embeddings.
use vstd::prelude::*;

verus! {

/// `n` equal tokens stand at `s`.
pub open spec fn is_run(t: Seq<u32>, s: int, n: int) -> bool {
    &&& 0 <= s
    &&& 1 <= n
    &&& s + n <= t.len()
    &&& forall|k: int| s <= k < s + n ==> #[trigger] t[k] == t[s]
}

/// No run is longer than the `n` tokens at `s`, and none that comes earlier is
/// as long.
pub open spec fn is_longest(t: Seq<u32>, n: int, s: int) -> bool {
    if t.len() == 0 {
        n == 0 && s == 0
    } else {
        is_run(t, s, n) && forall|a: int, m: int| #[trigger]
            is_run(t, a, m) ==> m <= n && (m == n ==> s <= a)
    }
}

/// The first longest run: its length and its start.
pub open spec fn longest_run(t: Seq<u32>) -> (int, int) {
    choose|p: (int, int)| #[trigger] is_longest(t, p.0, p.1)
}

/// There is only one first longest run.
pub proof fn lemma_longest_unique(t: Seq<u32>, n: int, s: int, m: int, a: int)
    requires
        is_longest(t, n, s),
        is_longest(t, m, a),
    ensures
        n == m,
        s == a,
{
}

/// Finds the first longest run of equal tokens: its length and its start.
pub fn find_longest_run(token_ids: &[u32]) -> (r: (usize, usize))
    ensures
        is_longest(token_ids@, r.0 as int, r.1 as int),
        longest_run(token_ids@) == (r.0 as int, r.1 as int),
{
    let ghost t = token_ids@;
    let (len, start) = longest_of(token_ids);
    proof {
        let p = (len as int, start as int);
        assert(is_longest(t, p.0, p.1));
        let q = longest_run(t);
        assert(is_longest(t, q.0, q.1));
        lemma_longest_unique(t, p.0, p.1, q.0, q.1);
    }
    (len, start)
}

fn longest_of(token_ids: &[u32]) -> (r: (usize, usize))
    ensures
        is_longest(token_ids@, r.0 as int, r.1 as int),
{
    let ghost t = token_ids@;
    if token_ids.len() == 0 {
        return (0, 0);
    }
    let mut max_len: usize = 0;
    let mut max_start: usize = 0;
    let mut cur_start: usize = 0;
    let mut i: usize = 1;
    while i < token_ids.len()
        invariant
            t == token_ids@,
            1 <= i <= t.len(),
            cur_start < i,
            is_run(t, cur_start as int, i - cur_start),
            cur_start > 0 ==> t[cur_start - 1] != t[cur_start as int],
            max_len == 0 ==> cur_start == 0,
            max_len > 0 ==> is_run(t, max_start as int, max_len as int),
            forall|a: int, m: int| #[trigger]
                is_run(t, a, m) && a + m <= cur_start ==> m <= max_len && (m == max_len
                    ==> max_start <= a),
            max_len > 0 ==> max_start < cur_start,
        decreases t.len() - i,
    {
        if token_ids[i] == token_ids[i - 1] {
            assert(t[i - 1] == t[cur_start as int]);
        } else {
            let cur_len: usize = i - cur_start;
            proof {
                lemma_closed_run(t, cur_start as int, i as int, max_len as int, max_start as int);
            }
            if cur_len > max_len {
                max_len = cur_len;
                max_start = cur_start;
            }
            cur_start = i;
        }
        i += 1;
    }
    let cur_len: usize = i - cur_start;
    proof {
        lemma_closed_run(t, cur_start as int, i as int, max_len as int, max_start as int);
    }
    if cur_len > max_len {
        max_len = cur_len;
        max_start = cur_start;
    }
    (max_len, max_start)
}

/// Among the runs that end at `i` or earlier, where `i` ends a run that starts
/// at `cur`, the longest is either that one or the longest before it.
proof fn lemma_closed_run(t: Seq<u32>, cur: int, i: int, max_len: int, max_start: int)
    requires
        0 <= cur < i <= t.len(),
        is_run(t, cur, i - cur),
        cur > 0 ==> t[cur - 1] != t[cur],
        max_len == 0 ==> cur == 0,
        max_len > 0 ==> max_start < cur,
        forall|a: int, m: int| #[trigger]
            is_run(t, a, m) && a + m <= cur ==> m <= max_len && (m == max_len ==> max_start <= a),
    ensures
        forall|a: int, m: int| #[trigger]
            is_run(t, a, m) && a + m <= i ==> if i - cur > max_len {
                m <= i - cur && (m == i - cur ==> cur <= a)
            } else {
                m <= max_len && (m == max_len ==> max_start <= a)
            },
{
    assert forall|a: int, m: int| #[trigger] is_run(t, a, m) && a + m <= i implies (if i - cur
        > max_len {
        m <= i - cur && (m == i - cur ==> cur <= a)
    } else {
        m <= max_len && (m == max_len ==> max_start <= a)
    }) by {
        if a < cur && a + m > cur {
            assert(t[cur - 1] == t[a]);
            assert(t[cur] == t[a]);
        }
    }
}

/// Where embeddings are put in: the placeholder's start and length, and what
/// is left of the text behind it.
#[derive(Debug, Clone, Copy, PartialEq, Eq, Structural)]
pub struct Splice {
    pub start: usize,
    pub len: usize,
    pub after_start: usize,
    pub after_len: usize,
}

/// The placeholder has not as many tokens as the encoder gave embeddings.
#[derive(Debug, Clone, Copy, PartialEq, Eq, Structural)]
pub struct SpliceMismatch {
    pub run_start: usize,
    pub run_len: usize,
    pub encoded_len: usize,
}

/// The last place of `id` among `t`, where it is not `other`.
pub open spec fn last_place(t: Seq<u32>, id: u32, other: Option<u32>) -> Option<int>
    decreases t.len(),
{
    if t.len() == 0 {
        None
    } else if t.last() == id && other != Some(id) {
        Some(t.len() - 1)
    } else {
        last_place(t.drop_last(), id, other)
    }
}

/// The shortest run that counts as a placeholder.
pub const MIN_PLACEHOLDER: usize = 16;

/// The placeholder for an image: the longest run of equal tokens if it is long
/// enough, and otherwise what stands between the last markers.
pub open spec fn image_place(t: Seq<u32>, start_id: u32, end_id: u32) -> Option<(int, int)> {
    let (n, s) = longest_run(t);
    if n >= MIN_PLACEHOLDER {
        Some((s, n))
    } else {
        match (last_place(t, start_id, None), last_place(t, end_id, Some(start_id))) {
            (Some(a), Some(b)) => if b > a + 1 {
                Some((a + 1, b - a - 1))
            } else {
                None
            },
            _ => None,
        }
    }
}

/// The placeholder for a sound: the longest run of equal tokens if it is long
/// enough.
pub open spec fn audio_place(t: Seq<u32>) -> Option<(int, int)> {
    let (n, s) = longest_run(t);
    if n >= MIN_PLACEHOLDER {
        Some((s, n))
    } else {
        None
    }
}

/// Embeddings go where the placeholder is, if there is one, and there must be
/// as many as it has tokens.
pub open spec fn spliced(
    r: Result<Option<Splice>, SpliceMismatch>,
    place: Option<(int, int)>,
    seq_len: int,
    encoded_len: int,
) -> bool {
    match place {
        None => r == Ok::<Option<Splice>, SpliceMismatch>(None),
        Some((s, n)) => match r {
            Ok(Some(p)) => n == encoded_len && p.start == s && p.len == n && p.after_start == s + n
                && p.after_len == (if seq_len > s + n {
                seq_len - s - n
            } else {
                0
            }),
            Ok(None) => false,
            Err(e) => n != encoded_len && e.run_start == s && e.run_len == n && e.encoded_len
                == encoded_len,
        },
    }
}

fn splice_at(run_start: usize, run_len: usize, seq_len: usize, encoded_len: usize) -> (r: Result<
    Option<Splice>,
    SpliceMismatch,
>)
    requires
        run_start + run_len <= usize::MAX,
    ensures
        spliced(r, Some((run_start as int, run_len as int)), seq_len as int, encoded_len as int),
{
    if encoded_len != run_len {
        return Err(SpliceMismatch { run_start, run_len, encoded_len });
    }
    let after_start: usize = run_start + run_len;
    let after_len: usize = seq_len.saturating_sub(after_start);
    Ok(Some(Splice { start: run_start, len: run_len, after_start, after_len }))
}

fn find_last(t: &[u32], id: u32, other: Option<u32>) -> (r: Option<usize>)
    ensures
        match r {
            Some(i) => last_place(t@, id, other) == Some(i as int) && i < t@.len(),
            None => last_place(t@, id, other) is None,
        },
{
    let mut n: usize = t.len();
    assert(t@.take(n as int) =~= t@);
    while n > 0
        invariant
            n <= t@.len(),
            last_place(t@, id, other) == last_place(t@.take(n as int), id, other),
        decreases n,
    {
        let ghost now = t@.take(n as int);
        assert(now.last() == t@[n - 1]);
        assert(now.drop_last() =~= t@.take(n - 1));
        let barred = match other {
            Some(o) => o == id,
            None => false,
        };
        if t[n - 1] == id && !barred {
            return Some(n - 1);
        }
        n -= 1;
    }
    None
}

/// Plans where the embeddings of an image go. Only batches of one sequence are
/// spliced; others keep their text as it is.
pub fn splice_visual_embeddings(
    batch_size: usize,
    seq_len: usize,
    token_ids: &[u32],
    vision_start_id: u32,
    vision_end_id: u32,
    visual_len: usize,
) -> (r: Result<Option<Splice>, SpliceMismatch>)
    ensures
        spliced(
            r,
            if batch_size == 1 {
                image_place(token_ids@, vision_start_id, vision_end_id)
            } else {
                None
            },
            seq_len as int,
            visual_len as int,
        ),
{
    if batch_size != 1 {
        return Ok(None);
    }
    let (run_len, run_start) = find_longest_run(token_ids);
    if run_len >= MIN_PLACEHOLDER {
        let n: usize = token_ids.len();
        assert(run_start + run_len <= n);
        return splice_at(run_start, run_len, seq_len, visual_len);
    }
    let start = find_last(token_ids, vision_start_id, None);
    let end = find_last(token_ids, vision_end_id, Some(vision_start_id));
    if let (Some(a), Some(b)) = (start, end) {
        if b > a && b - a > 1 {
            return splice_at(a + 1, b - a - 1, seq_len, visual_len);
        }
    }
    Ok(None)
}

/// Plans where the embeddings of a sound go. Only batches of one sequence are
/// spliced; others keep their text as it is.
pub fn splice_audio_embeddings(
    batch_size: usize,
    seq_len: usize,
    token_ids: &[u32],
    audio_len: usize,
) -> (r: Result<Option<Splice>, SpliceMismatch>)
    ensures
        spliced(
            r,
            if batch_size == 1 {
                audio_place(token_ids@)
            } else {
                None
            },
            seq_len as int,
            audio_len as int,
        ),
{
    if batch_size != 1 {
        return Ok(None);
    }
    let (run_len, run_start) = find_longest_run(token_ids);
    if run_len >= MIN_PLACEHOLDER {
        let n: usize = token_ids.len();
        assert(run_start + run_len <= n);
        return splice_at(run_start, run_len, seq_len, audio_len);
    }
    Ok(None)
}

/// A splice that covers the text keeps its length: as many embeddings come in
/// as placeholder tokens go out.
pub proof fn law_splice_keeps_length(
    p: Splice,
    place: (int, int),
    seq_len: int,
    encoded_len: int,
)
    requires
        spliced(Ok(Some(p)), Some(place), seq_len, encoded_len),
        place.0 + place.1 <= seq_len,
    ensures
        p.start == place.0,
        p.len == encoded_len,
        p.after_start == p.start + p.len,
        p.start + encoded_len + p.after_len == seq_len,
{
}

/// The last place of a token is one that holds it, and none behind it does; a
/// token that is not there, or is taken for the other marker, has none.
pub proof fn law_last_place(t: Seq<u32>, id: u32, other: Option<u32>)
    ensures
        match last_place(t, id, other) {
            Some(i) => {
                &&& 0 <= i < t.len()
                &&& t[i] == id
                &&& other != Some(id)
                &&& forall|j: int| i < j < t.len() ==> #[trigger] t[j] != id
            },
            None => other == Some(id) || !t.contains(id),
        },
    decreases t.len(),
{
    if t.len() > 0 && !(t.last() == id && other != Some(id)) {
        let front = t.drop_last();
        law_last_place(front, id, other);
        assert forall|j: int| 0 <= j < front.len() implies #[trigger] t[j] == front[j] by {}
        if t.contains(id) {
            let j = t.index_of(id);
            if j < front.len() {
                assert(front[j] == id);
            }
        }
    }
}

/// An image goes where the longest run of equal tokens stands, if that is at
/// least sixteen long, and otherwise between the last start marker and the
/// last end marker behind it; a sound goes to the run or nowhere.
pub proof fn law_places(t: Seq<u32>, start_id: u32, end_id: u32, n: int, s: int)
    requires
        is_longest(t, n, s),
    ensures
        n >= 16 ==> image_place(t, start_id, end_id) == Some((s, n)),
        n >= 16 ==> audio_place(t) == Some((s, n)),
        n < 16 ==> audio_place(t) is None,
        n < 16 ==> (image_place(t, start_id, end_id) matches Some(p) ==> {
            &&& 0 < p.0 && p.0 + p.1 < t.len() && p.1 > 0
            &&& start_id != end_id
            &&& t[p.0 - 1] == start_id
            &&& t[p.0 + p.1] == end_id
            &&& forall|j: int| p.0 <= j < t.len() ==> #[trigger] t[j] != start_id
            &&& forall|j: int| p.0 + p.1 < j < t.len() ==> #[trigger] t[j] != end_id
        }),
        n < 16 && image_place(t, start_id, end_id) is None ==> {
            ||| start_id == end_id
            ||| !t.contains(start_id)
            ||| !t.contains(end_id)
            ||| exists|a: int, b: int|
                0 <= a < t.len() && 0 <= b < t.len() && b <= a + 1 && #[trigger] t[a] == start_id
                    && #[trigger] t[b] == end_id && forall|j: int|
                    b < j < t.len() ==> #[trigger] t[j] != end_id
        },
{
    let q = longest_run(t);
    assert(is_longest(t, (n, s).0, (n, s).1));
    assert(is_longest(t, q.0, q.1));
    lemma_longest_unique(t, n, s, q.0, q.1);
    law_last_place(t, start_id, None);
    law_last_place(t, end_id, Some(start_id));
    if n < 16 && image_place(t, start_id, end_id) is None && start_id != end_id && t.contains(
        start_id,
    ) && t.contains(end_id) {
        let a = last_place(t, start_id, None)->0;
        let b = last_place(t, end_id, Some(start_id))->0;
        assert(t[a] == start_id && t[b] == end_id);
    }
}

} // verus!
