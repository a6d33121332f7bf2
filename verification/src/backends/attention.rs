//! Positions and lengths of sequences.
use vstd::prelude::*;
use std::collections::HashMap;
use crate::types::{BatchInput, SeqId};

verus! {

broadcast use vstd::std_specs::hash::group_hash_axioms;

/// How many tokens of each sequence have already been processed.
pub struct RawKvCache {
    seq_lengths: HashMap<SeqId, usize>,
}

impl View for RawKvCache {
    type V = Map<SeqId, usize>;

    closed spec fn view(&self) -> Map<SeqId, usize> {
        self.seq_lengths@
    }
}

/// The processed length of a sequence; zero where nothing is known of it.
pub open spec fn length_of(m: Map<SeqId, usize>, seq_id: SeqId) -> usize {
    if m.contains_key(seq_id) {
        m[seq_id]
    } else {
        0
    }
}

impl RawKvCache {
    /// No sequence has been processed.
    pub fn new() -> (c: Self)
        ensures
            c@ == Map::<SeqId, usize>::empty(),
    {
        RawKvCache { seq_lengths: HashMap::new() }
    }

    /// The processed length of a sequence.
    pub fn get_seq_len(&self, seq_id: SeqId) -> (n: usize)
        ensures
            n == length_of(self@, seq_id),
    {
        match self.seq_lengths.get(&seq_id) {
            Some(n) => *n,
            None => 0,
        }
    }

    /// Sets the processed length of a sequence.
    pub fn set_seq_len(&mut self, seq_id: SeqId, len: usize)
        ensures
            final(self)@ == old(self)@.insert(seq_id, len),
    {
        self.seq_lengths.insert(seq_id, len);
    }

    /// Forgets a sequence.
    pub fn clear(&mut self, seq_id: SeqId)
        ensures
            final(self)@ == old(self)@.remove(seq_id),
    {
        self.seq_lengths.remove(&seq_id);
    }
}

/// Why positions cannot be given.
#[derive(Debug, Clone, Copy, PartialEq, Eq, Structural)]
pub enum PositionError {
    /// The last boundary is not the number of tokens.
    LastBoundary,
    /// The sequences do not add up to the number of tokens.
    TokenCount,
}

/// Tokens `start..end` of a batch, which continue a sequence of `offset`
/// tokens: their positions.
pub open spec fn run_positions(offset: int, start: int, end: int) -> Seq<int> {
    Seq::new((end - start) as nat, |t: int| offset + t)
}

/// The positions of the tokens of the first `n` sequences of a batch.
pub open spec fn positions(
    seq_ids: Seq<SeqId>,
    cu: Seq<u32>,
    lengths: Map<SeqId, usize>,
    n: nat,
) -> Seq<int>
    decreases n,
{
    if n == 0 {
        seq![]
    } else {
        positions(seq_ids, cu, lengths, (n - 1) as nat) + run_positions(
            length_of(lengths, seq_ids[n - 1]) as int,
            cu[n - 1] as int,
            cu[n as int] as int,
        )
    }
}

/// The boundaries fit the sequences and never go back, and no position leaves
/// the machine's range.
pub open spec fn boundaries_fit(
    seq_ids: Seq<SeqId>,
    cu: Seq<u32>,
    lengths: Map<SeqId, usize>,
) -> bool {
    &&& cu.len() > seq_ids.len()
    &&& forall|i: int|
        0 <= i < seq_ids.len() ==> #[trigger] cu[i] <= cu[i + 1] && length_of(lengths, seq_ids[i])
            + (cu[i + 1] - cu[i]) <= usize::MAX
}

/// A list of positions without its representation.
pub open spec fn as_ints(v: Seq<usize>) -> Seq<int> {
    v.map_values(|x: usize| x as int)
}

/// Gives every token of a packed batch its position: where its own sequence
/// stood before, plus its place within the sequence.
pub fn token_positions(batch: &BatchInput, kv_cache: &RawKvCache, total_tokens: usize) -> (r: Result<
    Vec<usize>,
    PositionError,
>)
    requires
        batch.cu_seqlens@.len() > 0 && batch.cu_seqlens@.last() == total_tokens as u32
            ==> boundaries_fit(batch.seq_ids@, batch.cu_seqlens@, kv_cache@),
    ensures
        ({
            let all = positions(
                batch.seq_ids@,
                batch.cu_seqlens@,
                kv_cache@,
                batch.seq_ids@.len(),
            );
            let last_fits = batch.cu_seqlens@.len() > 0 && batch.cu_seqlens@.last()
                == total_tokens as u32;
            match r {
                Ok(v) => last_fits && as_ints(v@) == all && v.len() == total_tokens,
                Err(PositionError::LastBoundary) => !last_fits,
                Err(PositionError::TokenCount) => last_fits && all.len() != total_tokens,
            }
        }),
{
    let n: usize = batch.cu_seqlens.len();
    if n == 0 || batch.cu_seqlens[n - 1] != total_tokens as u32 {
        return Err(PositionError::LastBoundary);
    }
    let ghost ids = batch.seq_ids@;
    let ghost cu = batch.cu_seqlens@;
    let mut out: Vec<usize> = Vec::new();
    let mut i: usize = 0;
    assert(as_ints(out@) =~= seq![]);
    while i < batch.seq_ids.len()
        invariant
            i <= ids.len(),
            ids == batch.seq_ids@,
            cu == batch.cu_seqlens@,
            boundaries_fit(ids, cu, kv_cache@),
            as_ints(out@) == positions(ids, cu, kv_cache@, i as nat),
        decreases ids.len() - i,
    {
        let offset: usize = kv_cache.get_seq_len(batch.seq_ids[i]);
        assert(cu[i as int] <= cu[i + 1]);
        let len: usize = (batch.cu_seqlens[i + 1] - batch.cu_seqlens[i]) as usize;
        let ghost before = as_ints(out@);
        let mut t: usize = 0;
        assert(as_ints(out@) =~= before + run_positions(offset as int, 0, 0));
        while t < len
            invariant
                t <= len,
                offset + len <= usize::MAX,
                as_ints(out@) == before + run_positions(offset as int, 0, t as int),
            decreases len - t,
        {
            let ghost now = out@;
            out.push(offset + t);
            assert(as_ints(out@) =~= as_ints(now).push(offset + t));
            assert(as_ints(out@) =~= before + run_positions(offset as int, 0, t + 1));
            t += 1;
        }
        assert(run_positions(offset as int, 0, len as int) =~= run_positions(
            offset as int,
            cu[i as int] as int,
            cu[i + 1] as int,
        ));
        i += 1;
    }
    assert(as_ints(out@).len() == out.len());
    if out.len() != total_tokens {
        return Err(PositionError::TokenCount);
    }
    Ok(out)
}

proof fn lemma_positions_len(
    seq_ids: Seq<SeqId>,
    cu: Seq<u32>,
    lengths: Map<SeqId, usize>,
    n: nat,
)
    requires
        boundaries_fit(seq_ids, cu, lengths),
        n <= seq_ids.len(),
        cu[0] == 0,
    ensures
        positions(seq_ids, cu, lengths, n).len() == cu[n as int],
    decreases n,
{
    if n > 0 {
        lemma_positions_len(seq_ids, cu, lengths, (n - 1) as nat);
        assert(cu[n - 1] <= cu[n - 1 + 1]);
    }
}

/// In a packed batch that starts at zero, token `t` of sequence `i` continues
/// that sequence and no other: its position is the sequence's own length
/// before, plus `t`.
pub proof fn law_positions_follow_own_sequence(
    seq_ids: Seq<SeqId>,
    cu: Seq<u32>,
    lengths: Map<SeqId, usize>,
    i: int,
    t: int,
    n: nat,
)
    requires
        boundaries_fit(seq_ids, cu, lengths),
        cu[0] == 0,
        0 <= i < n <= seq_ids.len(),
        0 <= t < cu[i + 1] - cu[i],
    ensures
        cu[i] + t < positions(seq_ids, cu, lengths, n).len(),
        positions(seq_ids, cu, lengths, n)[cu[i] + t] == length_of(lengths, seq_ids[i]) + t,
    decreases n,
{
    lemma_positions_len(seq_ids, cu, lengths, (n - 1) as nat);
    lemma_positions_len(seq_ids, cu, lengths, n);
    if i < n - 1 {
        law_positions_follow_own_sequence(seq_ids, cu, lengths, i, t, (n - 1) as nat);
    }
}

/// How many heads a norm of `w_len` weights covers in a last axis of
/// `last_dim`; `None` where it covers the axis as a whole. Heads are told
/// apart only in tensors of two or three axes.
pub fn norm_heads(last_dim: usize, w_len: usize, rank: usize) -> (r: Result<Option<usize>, usize>)
    requires
        w_len > 0,
    ensures
        r == (if last_dim == w_len || last_dim % w_len != 0 {
            Ok(None)
        } else if rank == 2 || rank == 3 {
            Ok(Some((last_dim / w_len) as usize))
        } else {
            Err(rank)
        }),
{
    if last_dim == w_len || last_dim % w_len != 0 {
        Ok(None)
    } else if rank == 2 || rank == 3 {
        Ok(Some(last_dim / w_len))
    } else {
        Err(rank)
    }
}

} // verus!
