//! Keys and values of past tokens: which block holds which token, what history
//! a step attends to, and the rotation that spreads outliers before
//! quantization.
use vstd::prelude::*;
use crate::types::BlockId;

verus! {

/// Consecutive tokens of a step that go into one block.
#[derive(Debug, Clone, Copy, PartialEq, Eq, Structural)]
pub struct Chunk {
    /// The first of them, counted from the start of the step.
    pub first: usize,
    pub len: usize,
    pub block: BlockId,
    /// Where in the block the first of them goes.
    pub offset: usize,
}

/// The block table has no entry for a token.
#[derive(Debug, Clone, Copy, PartialEq, Eq, Structural)]
pub struct NoBlock {
    pub index: usize,
    pub table_len: usize,
}

pub open spec fn smaller(a: int, b: int) -> int {
    if a < b {
        a
    } else {
        b
    }
}

/// How many tokens the chunk at token `at` takes: to the end of the step or of
/// the block.
pub open spec fn chunk_len(before: int, len: int, block_size: int, at: int) -> int {
    smaller(len - at, block_size - (before + at) % block_size)
}

/// The chunks of tokens `at..len` of a step that follows `before` tokens.
pub open spec fn chunks_from(
    before: int,
    len: int,
    block_size: int,
    table: Seq<BlockId>,
    at: int,
) -> Result<Seq<Chunk>, NoBlock>
    decreases len - at,
{
    if at >= len || at < 0 || before < 0 || block_size <= 0 {
        Ok(Seq::empty())
    } else {
        let index = (before + at) / block_size;
        if index >= table.len() {
            Err(NoBlock { index: index as usize, table_len: table.len() as usize })
        } else {
            let n = chunk_len(before, len, block_size, at);
            if n <= 0 {
                Ok(Seq::empty())
            } else {
                let chunk = Chunk {
                    first: at as usize,
                    len: n as usize,
                    block: table[index],
                    offset: ((before + at) % block_size) as usize,
                };
                match chunks_from(before, len, block_size, table, at + n) {
                    Ok(rest) => Ok(seq![chunk] + rest),
                    Err(e) => Err(e),
                }
            }
        }
    }
}

/// Splits the tokens of a step, which follows `before` tokens of its sequence,
/// over the blocks that the sequence's table gives.
pub fn plan_chunks(before: usize, len: usize, block_size: usize, table: &[BlockId]) -> (r: Result<
    Vec<Chunk>,
    NoBlock,
>)
    requires
        block_size > 0,
        before + len <= usize::MAX,
    ensures
        match r {
            Ok(chunks) => chunks_from(before as int, len as int, block_size as int, table@, 0) == Ok::<
                Seq<Chunk>,
                NoBlock,
            >(chunks@),
            Err(e) => chunks_from(before as int, len as int, block_size as int, table@, 0) == Err::<
                Seq<Chunk>,
                NoBlock,
            >(e),
        },
{
    let mut out: Vec<Chunk> = Vec::new();
    let mut at: usize = 0;
    let ghost whole = chunks_from(before as int, len as int, block_size as int, table@, 0);
    while at < len
        invariant
            at <= len,
            block_size > 0,
            before + len <= usize::MAX,
            whole == chunks_from(before as int, len as int, block_size as int, table@, 0),
            match chunks_from(before as int, len as int, block_size as int, table@, at as int) {
                Ok(rest) => whole == Ok::<Seq<Chunk>, NoBlock>(out@ + rest),
                Err(e) => whole == Err::<Seq<Chunk>, NoBlock>(e),
            },
        decreases len - at,
    {
        let index: usize = (before + at) / block_size;
        let offset: usize = (before + at) % block_size;
        if index >= table.len() {
            return Err(NoBlock { index, table_len: table.len() });
        }
        let left: usize = len - at;
        let room: usize = block_size - offset;
        let n: usize = if left < room {
            left
        } else {
            room
        };
        let chunk = Chunk { first: at, len: n, block: table[index], offset };
        let ghost so_far = out@;
        let ghost rest = chunks_from(before as int, len as int, block_size as int, table@, at + n);
        assert(n == chunk_len(before as int, len as int, block_size as int, at as int));
        out.push(chunk);
        assert(rest matches Ok(r) ==> out@ + r =~= so_far + (seq![chunk] + r));
        at = at + n;
    }
    assert(out@ + Seq::<Chunk>::empty() =~= out@);
    Ok(out)
}

/// Chunk `c` holds token `t` of the step.
pub open spec fn holds(c: Chunk, t: int) -> bool {
    c.first <= t < c.first + c.len
}

/// Some chunk holds token `t`.
pub open spec fn covered(chunks: Seq<Chunk>, t: int) -> bool {
    exists|i: int| 0 <= i < chunks.len() && #[trigger] holds(chunks[i], t)
}

/// The tokens of chunk `c`, of a step that follows `before` tokens, stand in
/// their places: token `t` in the block that the table gives for it, at its
/// place within the block, and no chunk leaves its block.
pub open spec fn well_placed(
    c: Chunk,
    before: int,
    block_size: int,
    table: Seq<BlockId>,
) -> bool {
    &&& c.len > 0
    &&& c.offset + c.len <= block_size
    &&& forall|t: int|
        #[trigger] holds(c, t) ==> {
            &&& 0 <= (before + t) / block_size < table.len()
            &&& c.block == table[(before + t) / block_size]
            &&& c.offset + (t - c.first) == (before + t) % block_size
        }
}

proof fn lemma_chunk(before: int, len: int, block_size: int, table: Seq<BlockId>, at: int, c: Chunk)
    requires
        0 <= at < len,
        0 <= before,
        block_size > 0,
        before + len <= usize::MAX,
        block_size <= usize::MAX,
        (before + at) / block_size < table.len(),
        c == (Chunk {
            first: at as usize,
            len: chunk_len(before, len, block_size, at) as usize,
            block: table[(before + at) / block_size],
            offset: ((before + at) % block_size) as usize,
        }),
    ensures
        well_placed(c, before, block_size, table),
        c.len == chunk_len(before, len, block_size, at),
        c.len > 0,
{
    let a = before + at;
    let q = a / block_size;
    let r = a % block_size;
    assert(a == q * block_size + r && 0 <= r < block_size) by (nonlinear_arith)
        requires
            block_size > 0,
            q == a / block_size,
            r == a % block_size,
    ;
    assert(q >= 0) by (nonlinear_arith)
        requires
            q == a / block_size,
            a >= 0,
            block_size > 0,
    ;
    assert forall|t: int| #[trigger] holds(c, t) implies {
        &&& 0 <= (before + t) / block_size < table.len()
        &&& c.block == table[(before + t) / block_size]
        &&& c.offset + (t - c.first) == (before + t) % block_size
    } by {
        let d = t - at;
        vstd::arithmetic::div_mod::lemma_fundamental_div_mod_converse(
            before + t,
            block_size,
            q,
            r + d,
        );
    }
}

/// The chunks of a step cover its tokens from `at` on, each exactly once and
/// each in its place.
pub proof fn law_chunks_cover(
    before: int,
    len: int,
    block_size: int,
    table: Seq<BlockId>,
    at: int,
)
    requires
        0 <= at <= len,
        0 <= before,
        0 < block_size <= usize::MAX,
        before + len <= usize::MAX,
        chunks_from(before, len, block_size, table, at) is Ok,
    ensures
        ({
            let chunks = chunks_from(before, len, block_size, table, at)->Ok_0;
            &&& forall|i: int|
                0 <= i < chunks.len() ==> well_placed(
                    #[trigger] chunks[i],
                    before,
                    block_size,
                    table,
                ) && at <= chunks[i].first && chunks[i].first + chunks[i].len <= len
            &&& forall|i: int, j: int|
                0 <= i < j < chunks.len() ==> (#[trigger] chunks[i]).first + chunks[i].len
                    <= (#[trigger] chunks[j]).first
            &&& forall|t: int|
                at <= t < len ==> #[trigger] covered(chunks, t)
        }),
    decreases len - at,
{
    let chunks = chunks_from(before, len, block_size, table, at)->Ok_0;
    if at < len {
        let n = chunk_len(before, len, block_size, at);
        let c = Chunk {
            first: at as usize,
            len: n as usize,
            block: table[(before + at) / block_size],
            offset: ((before + at) % block_size) as usize,
        };
        lemma_chunk(before, len, block_size, table, at, c);
        let rest = chunks_from(before, len, block_size, table, at + n)->Ok_0;
        law_chunks_cover(before, len, block_size, table, at + n);
        assert(chunks =~= seq![c] + rest);
        assert forall|i: int| 0 <= i < chunks.len() implies well_placed(
            #[trigger] chunks[i],
            before,
            block_size,
            table,
        ) && at <= chunks[i].first && chunks[i].first + chunks[i].len <= len by {
            if i > 0 {
                assert(chunks[i] == rest[i - 1]);
            }
        }
        assert forall|i: int, j: int| 0 <= i < j < chunks.len() implies (#[trigger] chunks[i]).first
            + chunks[i].len <= (#[trigger] chunks[j]).first by {
            assert(chunks[j] == rest[j - 1]);
            if i > 0 {
                assert(chunks[i] == rest[i - 1]);
            }
        }
        assert forall|t: int| at <= t < len implies #[trigger] covered(chunks, t) by {
            if t < at + n {
                assert(holds(chunks[0], t));
            } else {
                assert(covered(rest, t));
                let i = choose|i: int| 0 <= i < rest.len() && #[trigger] holds(rest[i], t);
                assert(holds(chunks[i + 1], t));
            }
        }
    }
}

/// A write of `chunk_len` places from `start` on into a block: how much of the
/// block stays in front of it, and where what stays behind it begins and how
/// much that is. The three parts make up the block again.
pub fn split_block(block_size: usize, start: usize, chunk_len: usize) -> (s: (
    Option<usize>,
    Option<(usize, usize)>,
))
    requires
        start + chunk_len <= usize::MAX,
    ensures
        s.0 == (if start > 0 {
            Some(start)
        } else {
            None
        }),
        s.1 == (if start + chunk_len < block_size {
            Some(((start + chunk_len) as usize, (block_size - (start + chunk_len)) as usize))
        } else {
            None
        }),
        start + chunk_len <= block_size ==> (match s.0 {
            Some(n) => n as int,
            None => 0,
        }) + chunk_len + (match s.1 {
            Some((_, n)) => n as int,
            None => 0,
        }) == block_size,
{
    let end: usize = start + chunk_len;
    let left: Option<usize> = if start > 0 {
        Some(start)
    } else {
        None
    };
    let right: Option<(usize, usize)> = if end < block_size {
        Some((end, block_size - end))
    } else {
        None
    };
    (left, right)
}

/// How many blocks of a table hold `before + len` tokens.
pub fn active_blocks(before: usize, len: usize, block_size: usize, table_len: usize) -> (n: usize)
    requires
        block_size > 0,
        before + len + block_size - 1 <= usize::MAX,
    ensures
        n == smaller((before + len + block_size - 1) / block_size as int, table_len as int),
        n == table_len || (n * block_size >= before + len && (n == 0 || (n - 1) * block_size
            < before + len)),
{
    let total: usize = before + len;
    let blocks: usize = (total + (block_size - 1)) / block_size;
    proof {
        let x = total + block_size - 1;
        let q = x / block_size as int;
        assert(q == blocks);
        assert(q * block_size <= x < (q + 1) * block_size) by (nonlinear_arith)
            requires
                q == x / block_size as int,
                block_size > 0,
        ;
        assert((q + 1) * block_size == q * block_size + block_size) by (nonlinear_arith);
        assert((q - 1) * block_size == q * block_size - block_size) by (nonlinear_arith);
    }
    if blocks < table_len {
        blocks
    } else {
        table_len
    }
}

/// How the history of a sequence's keys and values is come by.
#[derive(Debug, Clone, Copy, PartialEq, Eq, Structural)]
pub enum History {
    /// The kept history is already complete: the layer that owns it extended
    /// it in this step.
    Reuse,
    /// The step's own tokens are put behind the kept history.
    Extend,
    /// It is gathered from the blocks again.
    Rebuild,
}

/// What to do with a kept history of `kept` tokens, at a step of `len` tokens
/// behind `before`.
pub open spec fn history_use(
    kept: Option<usize>,
    quantized: bool,
    shared: bool,
    before: int,
    len: int,
) -> History {
    match kept {
        Some(n) => if quantized {
            History::Rebuild
        } else if n == before + len {
            History::Reuse
        } else if n == before && !shared {
            History::Extend
        } else {
            History::Rebuild
        },
        None => History::Rebuild,
    }
}

/// How the history is come by. Quantized blocks are always gathered again, and
/// so is a history whose length does not fit: it may belong to a sequence that
/// had the same number before.
pub fn plan_history(
    kept: Option<usize>,
    quantized: bool,
    shared: bool,
    before: usize,
    len: usize,
) -> (h: History)
    requires
        before + len <= usize::MAX,
    ensures
        h == history_use(kept, quantized, shared, before as int, len as int),
{
    match kept {
        Some(n) => if quantized {
            History::Rebuild
        } else if n == before + len {
            History::Reuse
        } else if n == before && !shared {
            History::Extend
        } else {
            History::Rebuild
        },
        None => History::Rebuild,
    }
}

/// However it is come by, the history of a step that follows `before` tokens
/// holds those and its own: reusing and extending are chosen only where that
/// is so.
pub proof fn law_history_is_complete(
    kept: Option<usize>,
    quantized: bool,
    shared: bool,
    before: int,
    len: int,
)
    ensures
        history_use(kept, quantized, shared, before, len) == History::Reuse ==> kept->0 == before
            + len && !quantized,
        history_use(kept, quantized, shared, before, len) == History::Extend ==> kept->0 + len
            == before + len && !quantized && !shared,
        kept is None || quantized ==> history_use(kept, quantized, shared, before, len)
            == History::Rebuild,
{
}

/// The part of a history of `total` tokens that a layer with a sliding window
/// looks at: where it begins and how long it is.
pub fn window_view(total: usize, window: Option<usize>) -> (r: (usize, usize))
    ensures
        match window {
            Some(w) => if total > w {
                r.0 == total - w && r.1 == w
            } else {
                r.0 == 0 && r.1 == total
            },
            None => r.0 == 0 && r.1 == total,
        },
        r.0 + r.1 == total,
{
    match window {
        Some(w) => if total > w {
            (total - w, w)
        } else {
            (0, total)
        },
        None => (0, total),
    }
}

/// Token `q` of a step of `tokens` may not look at place `k` of a history of
/// `total`, which ends with the step.
pub open spec fn hidden(tokens: int, total: int, q: int, k: int) -> bool {
    k > total - tokens + q
}

/// For each token of a step and each place of its history, row by row, whether
/// the place is hidden from the token. A single token sees everything: no mask
/// is needed.
pub fn causal_mask(tokens: usize, total: usize) -> (r: Option<Vec<bool>>)
    requires
        tokens <= total,
        tokens * total <= usize::MAX,
    ensures
        match r {
            Some(mask) => tokens > 1 && mask@.len() == tokens * total && forall|q: int, k: int|
                0 <= q < tokens && 0 <= k < total ==> #[trigger] mask@[q * total + k] == hidden(
                    tokens as int,
                    total as int,
                    q,
                    k,
                ),
            None => tokens <= 1,
        },
{
    if tokens <= 1 {
        return None;
    }
    let mut mask: Vec<bool> = Vec::new();
    let mut q: usize = 0;
    while q < tokens
        invariant
            q <= tokens <= total,
            tokens * total <= usize::MAX,
            mask@.len() == q * total,
            forall|a: int, k: int|
                0 <= a < q && 0 <= k < total ==> #[trigger] mask@[a * total + k] == hidden(
                    tokens as int,
                    total as int,
                    a,
                    k,
                ),
        decreases tokens - q,
    {
        let ghost rows = mask@;
        let mut k: usize = 0;
        while k < total
            invariant
                q < tokens <= total,
                k <= total,
                mask@.len() == q * total + k,
                rows.len() == q * total,
                forall|i: int| 0 <= i < rows.len() ==> mask@[i] == rows[i],
                forall|b: int|
                    0 <= b < k ==> #[trigger] mask@[q * total + b] == hidden(
                        tokens as int,
                        total as int,
                        q as int,
                        b,
                    ),
            decreases total - k,
        {
            mask.push(k > (total - tokens) + q);
            k += 1;
        }
        assert((q + 1) * total == q * total + total) by (nonlinear_arith);
        assert forall|a: int, k: int| 0 <= a < q + 1 && 0 <= k < total implies #[trigger] mask@[a
            * total + k] == hidden(tokens as int, total as int, a, k) by {
            if a < q {
                assert(a * total + k < q * total) by (nonlinear_arith)
                    requires
                        0 <= a < q,
                        0 <= k < total,
                ;
                assert(0 <= a * total + k) by (nonlinear_arith)
                    requires
                        0 <= a,
                        0 <= k < total,
                ;
                assert(rows[a * total + k] == hidden(tokens as int, total as int, a, k));
            }
        }
        q += 1;
    }
    Some(mask)
}

/// No token sees a later one: place `k` of the history is visible to token `q`
/// exactly if it holds the token itself or an earlier one.
pub proof fn law_mask_is_causal(tokens: int, total: int, q: int, k: int)
    requires
        0 <= q < tokens <= total,
        0 <= k < total,
    ensures
        hidden(tokens, total, q, k) <==> k - (total - tokens) > q,
        !hidden(tokens, total, q, total - tokens + q),
{
}

/// The stored blocks that go when a sequence with these blocks is forgotten:
/// all of them, in every layer.
pub fn blocks_to_clear(n_layers: usize, blocks: &[BlockId]) -> (out: Vec<(usize, BlockId)>)
    ensures
        forall|layer: usize, block: BlockId| #[trigger]
            out@.contains((layer, block)) <==> layer < n_layers && blocks@.contains(block),
{
    let mut out: Vec<(usize, BlockId)> = Vec::new();
    let mut layer: usize = 0;
    while layer < n_layers
        invariant
            layer <= n_layers,
            forall|l: usize, b: BlockId| #[trigger]
                out@.contains((l, b)) <==> l < layer && blocks@.contains(b),
        decreases n_layers - layer,
    {
        let mut i: usize = 0;
        while i < blocks.len()
            invariant
                i <= blocks@.len(),
                layer < n_layers,
                forall|l: usize, b: BlockId| #[trigger]
                    out@.contains((l, b)) <==> (l < layer && blocks@.contains(b)) || (l == layer
                        && blocks@.take(i as int).contains(b)),
            decreases blocks@.len() - i,
        {
            let ghost before = out@;
            let block = blocks[i];
            out.push((layer, block));
            assert forall|l: usize, b: BlockId| #[trigger] out@.contains((l, b)) <==> (l < layer
                && blocks@.contains(b)) || (l == layer && blocks@.take(i + 1).contains(b)) by {
                assert(blocks@.take(i + 1) =~= blocks@.take(i as int).push(block));
                lemma_push_has(before, (layer, block), (l, b));
                lemma_push_has(blocks@.take(i as int), block, b);
            }
            i += 1;
        }
        assert(blocks@.take(i as int) =~= blocks@);
        layer += 1;
    }
    out
}

proof fn lemma_push_has<T>(s: Seq<T>, x: T, y: T)
    ensures
        s.push(x).contains(y) <==> (s.contains(y) || y == x),
{
    if s.contains(y) {
        let k = choose|k: int| 0 <= k < s.len() && s[k] == y;
        assert(s.push(x)[k] == y);
    }
    if y == x {
        assert(s.push(x)[s.len() as int] == y);
    }
    if s.push(x).contains(y) && y != x {
        let k = choose|k: int| 0 <= k < s.push(x).len() && s.push(x)[k] == y;
        assert(s[k] == y);
    }
}

/// The largest quantized magnitude and the offset that makes it unsigned.
pub fn quant_range(dtype: crate::types::KvDtype) -> (r: (u8, u8))
    ensures
        r == match dtype {
            crate::types::KvDtype::Q8 => (127u8, 128u8),
            crate::types::KvDtype::Q4 => (7u8, 8u8),
            _ => (1u8, 0u8),
        },
{
    match dtype {
        crate::types::KvDtype::Q8 => (127, 128),
        crate::types::KvDtype::Q4 => (7, 8),
        _ => (1, 0),
    }
}

/// A step finds room exactly if the table has a block for its last token;
/// otherwise it is told of a block that the table does not have.
pub proof fn law_room_for_step(
    before: int,
    len: int,
    block_size: int,
    table: Seq<BlockId>,
    at: int,
)
    requires
        0 <= at <= len,
        0 <= before,
        0 < block_size <= usize::MAX,
        before + len <= usize::MAX,
        table.len() <= usize::MAX,
    ensures
        chunks_from(before, len, block_size, table, at) is Ok <==> at == len || (before + len - 1)
            / block_size < table.len(),
        chunks_from(before, len, block_size, table, at) matches Err(e) ==> e.index >= table.len()
            && e.table_len == table.len(),
    decreases len - at,
{
    if at < len {
        let a = before + at;
        let index = a / block_size;
        let last = (before + len - 1) / block_size;
        assert(0 <= index <= last) by (nonlinear_arith)
            requires
                0 <= a <= before + len - 1,
                index == a / block_size,
                last == (before + len - 1) / block_size,
                block_size > 0,
        ;
        assert(index <= a) by (nonlinear_arith)
            requires
                0 <= a,
                index == a / block_size,
                block_size > 0,
        ;
        if index < table.len() {
            let n = chunk_len(before, len, block_size, at);
            let c = Chunk {
                first: at as usize,
                len: n as usize,
                block: table[index],
                offset: (a % block_size) as usize,
            };
            lemma_chunk(before, len, block_size, table, at, c);
            law_room_for_step(before, len, block_size, table, at + n);
            if at + n == len {
                assert(holds(c, len - 1));
            }
        }
    }
}

/// A kept history is used where it is complete, is added to where it lacks
/// just this step and the layer owns it, and is gathered again otherwise.
pub proof fn law_use_of_history(kept: usize, quantized: bool, shared: bool, before: int, len: int)
    requires
        len > 0,
    ensures
        history_use(Some(kept), quantized, shared, before, len) == History::Reuse <==> !quantized
            && kept == before + len,
        history_use(Some(kept), quantized, shared, before, len) == History::Extend <==> !quantized
            && !shared && kept == before,
        history_use(None, quantized, shared, before, len) == History::Rebuild,
{
}

} // verus!
