//! Summing a buffer over a ring of machines.
use vstd::prelude::*;
use crate::cluster::tensor_parallel::{
    law_every_index_owned, law_one_owner, law_shards_cover, shard_bounds, shard_start,
};

verus! {

/// One machine's place in the ring.
#[derive(Debug, Clone, Copy, PartialEq, Eq, Structural)]
pub struct CollectiveComm {
    pub rank: usize,
    pub world_size: usize,
}

/// What a machine sends to the next and receives from the previous one.
#[derive(Debug, Clone, Copy, PartialEq, Eq, Structural)]
pub struct RingStep {
    pub send: usize,
    pub recv: usize,
}

/// The machine after `r`.
pub open spec fn next(w: int, r: int) -> int {
    (r + 1) % w
}

/// The machine before `r`.
pub open spec fn previous(w: int, r: int) -> int {
    (r + w - 1) % w
}

/// The chunk that machine `r` sends at step `s` while sums are collected.
pub open spec fn scatter_send(w: int, r: int, s: int) -> int {
    (r + w - s) % w
}

/// The chunk that it receives then, and adds to its own.
pub open spec fn scatter_recv(w: int, r: int, s: int) -> int {
    (r + w - s - 1) % w
}

/// The chunk that machine `r` sends at step `s` while sums are handed round.
pub open spec fn gather_send(w: int, r: int, s: int) -> int {
    (r + 1 + w - s) % w
}

/// The chunk that it receives then, and keeps.
pub open spec fn gather_recv(w: int, r: int, s: int) -> int {
    (r + w - s) % w
}

impl CollectiveComm {
    /// A machine of the ring, with room to count around it.
    pub open spec fn wf(self) -> bool {
        self.rank < self.world_size && 2 * self.world_size <= usize::MAX
    }

    pub fn new(rank: usize, world_size: usize) -> (c: Self)
        ensures
            c.rank == rank,
            c.world_size == world_size,
    {
        CollectiveComm { rank, world_size }
    }

    /// The machines that this one sends to and receives from.
    pub fn neighbours(&self) -> (r: (usize, usize))
        requires
            self.wf(),
        ensures
            r.0 == next(self.world_size as int, self.rank as int),
            r.1 == previous(self.world_size as int, self.rank as int),
    {
        (
            (self.rank + 1) % self.world_size,
            (self.rank + self.world_size - 1) % self.world_size,
        )
    }

    /// What is exchanged at step `step` while sums are collected.
    pub fn scatter_step(&self, step: usize) -> (s: RingStep)
        requires
            self.wf(),
            step + 1 < self.world_size,
        ensures
            s.send == scatter_send(self.world_size as int, self.rank as int, step as int),
            s.recv == scatter_recv(self.world_size as int, self.rank as int, step as int),
    {
        RingStep {
            send: (self.rank + self.world_size - step) % self.world_size,
            recv: (self.rank + self.world_size - step - 1) % self.world_size,
        }
    }

    /// What is exchanged at step `step` while sums are handed round.
    pub fn gather_step(&self, step: usize) -> (s: RingStep)
        requires
            self.wf(),
            step + 1 < self.world_size,
        ensures
            s.send == gather_send(self.world_size as int, self.rank as int, step as int),
            s.recv == gather_recv(self.world_size as int, self.rank as int, step as int),
    {
        RingStep {
            send: (self.rank + 1 + (self.world_size - step)) % self.world_size,
            recv: (self.rank + (self.world_size - step)) % self.world_size,
        }
    }

    /// Where chunk `index` of a buffer of `len` numbers lies. The chunks follow
    /// each other and make up the buffer; what does not divide evenly goes,
    /// one each, to the first of them.
    pub fn chunk_range(&self, index: usize, len: usize) -> (r: (usize, usize))
        requires
            index < self.world_size,
        ensures
            r.0 == shard_start(len as int, index as int, self.world_size as int),
            r.1 == shard_start(len as int, index + 1, self.world_size as int),
            r.0 <= r.1 <= len,
    {
        proof {
            law_shards_cover(len as int, index as int, index as int, self.world_size as int);
        }
        match shard_bounds(len, index, self.world_size) {
            Ok(range) => range,
            Err(_) => (0, 0),
        }
    }
}

/// `x` brought back into the ring, from at most one round away.
pub open spec fn wrap(w: int, x: int) -> int {
    if x >= w {
        x - w
    } else if x < 0 {
        x + w
    } else {
        x
    }
}

proof fn lemma_wrap(w: int, x: int)
    requires
        w > 0,
        0 <= x < 2 * w,
    ensures
        x % w == wrap(w, x),
{
    if x < w {
        vstd::arithmetic::div_mod::lemma_small_mod(x as nat, w as nat);
    } else {
        vstd::arithmetic::div_mod::lemma_fundamental_div_mod_converse(x, w, 1, x - w);
    }
}

/// The machines whose numbers are summed in chunk `c` at machine `r` after `s`
/// steps.
pub open spec fn summed(w: int, r: int, c: int, s: nat) -> Set<int>
    decreases s,
{
    if s == 0 {
        set![r]
    } else {
        let before = summed(w, r, c, (s - 1) as nat);
        if scatter_recv(w, r, s - 1) == c {
            before.union(summed(w, previous(w, r), c, (s - 1) as nat))
        } else {
            before
        }
    }
}

/// The machines from `c` on, `d` of them further round.
spec fn from_on(w: int, c: int, d: int) -> Set<int> {
    Set::new(|x: int| 0 <= x < w && wrap(w, x - c) <= d)
}

proof fn lemma_summed(w: int, r: int, c: int, s: nat)
    requires
        w >= 2,
        0 <= r < w,
        0 <= c < w,
        s <= w - 1,
    ensures
        ({
            let d = wrap(w, r - c);
            summed(w, r, c, s) == if 1 <= d <= s {
                from_on(w, c, d)
            } else {
                set![r]
            }
        }),
    decreases s,
{
    let d = wrap(w, r - c);
    if s > 0 {
        let p = previous(w, r);
        lemma_wrap(w, r + w - 1);
        lemma_wrap(w, r + w - (s - 1) - 1);
        lemma_summed(w, r, c, (s - 1) as nat);
        lemma_summed(w, p, c, (s - 1) as nat);
        assert(scatter_recv(w, r, s - 1) == c <==> d == s);
        if d == s {
            let e = wrap(w, p - c);
            assert(e == d - 1);
            assert(e == 0 ==> p == c);
            if e == 0 {
                assert(set![p] =~= from_on(w, c, 0));
            }
            assert(set![r].union(from_on(w, c, d - 1)) =~= from_on(w, c, d));
        }
    }
}

/// Once sums were collected, each machine holds one chunk that all machines
/// are summed in: the one that it sends first when sums are handed round.
pub proof fn law_chunk_fully_summed(w: int, r: int)
    requires
        w >= 2,
        0 <= r < w,
    ensures
        summed(w, r, gather_send(w, r, 0), (w - 1) as nat) == Set::new(|x: int| 0 <= x < w),
{
    let c = gather_send(w, r, 0);
    assert(c == (r + 1) % w) by {
        lemma_wrap(w, r + 1);
        if r + 1 < w {
            lemma_wrap(w, r + 1 + w);
        } else {
            vstd::arithmetic::div_mod::lemma_fundamental_div_mod_converse(r + 1 + w, w, 2, 0);
        }
    }
    lemma_wrap(w, r + 1);
    lemma_summed(w, r, c, (w - 1) as nat);
    assert(from_on(w, c, w - 1) =~= Set::new(|x: int| 0 <= x < w));
}

/// Machine `r` holds the finished chunk `c` after `s` steps of handing round.
pub open spec fn holds(w: int, r: int, c: int, s: nat) -> bool
    decreases s,
{
    if s == 0 {
        c == next(w, r)
    } else {
        holds(w, r, c, (s - 1) as nat) || (gather_recv(w, r, s - 1) == c && holds(
            w,
            previous(w, r),
            c,
            (s - 1) as nat,
        ))
    }
}

proof fn lemma_holds(w: int, r: int, c: int, s: nat)
    requires
        w >= 2,
        0 <= r < w,
        0 <= c < w,
        s <= w - 1,
        wrap(w, wrap(w, r + 1) - c) <= s,
    ensures
        holds(w, r, c, s),
    decreases s,
{
    let e = wrap(w, wrap(w, r + 1) - c);
    lemma_wrap(w, r + 1);
    if s > 0 {
        if e < s {
            lemma_holds(w, r, c, (s - 1) as nat);
        } else {
            let p = previous(w, r);
            lemma_wrap(w, r + w - 1);
            lemma_wrap(w, r + w - (s - 1));
            assert(gather_recv(w, r, s - 1) == c);
            assert(wrap(w, p + 1) == r);
            assert(wrap(w, r - c) == e - 1);
            lemma_holds(w, p, c, (s - 1) as nat);
        }
    }
}

/// Once sums were handed round, every machine holds every finished chunk.
pub proof fn law_all_hold_all(w: int, r: int, c: int)
    requires
        w >= 2,
        0 <= r < w,
        0 <= c < w,
    ensures
        holds(w, r, c, (w - 1) as nat),
{
    lemma_holds(w, r, c, (w - 1) as nat);
}

/// Number `i` of a buffer of `len` numbers lies in chunk `c`.
pub open spec fn in_chunk(w: int, len: int, c: int, i: int) -> bool {
    shard_start(len, c, w) <= i < shard_start(len, c + 1, w)
}

/// Every number of the buffer is summed over all machines and reaches them
/// all: it lies in one chunk and in no other, some machine has all machines
/// summed in that chunk once sums were collected and holds it as finished, and
/// once sums were handed round every machine holds it.
pub proof fn law_every_number_summed(w: int, len: int, i: int)
    requires
        w >= 2,
        0 <= i < len,
    ensures
        exists|c: int|
            {
                &&& 0 <= c < w
                &&& #[trigger] in_chunk(w, len, c, i)
                &&& forall|d: int| 0 <= d < w && #[trigger] in_chunk(w, len, d, i) ==> d == c
                &&& summed(w, previous(w, c), c, (w - 1) as nat) == Set::new(
                    |x: int| 0 <= x < w,
                )
                &&& holds(w, previous(w, c), c, 0)
                &&& forall|r: int| 0 <= r < w ==> #[trigger] holds(w, r, c, (w - 1) as nat)
            },
{
    law_every_index_owned(len, w, i);
    let c = choose|c: int|
        0 <= c < w && #[trigger] shard_start(len, c, w) <= i < shard_start(len, c + 1, w);
    assert(in_chunk(w, len, c, i));
    assert forall|d: int| 0 <= d < w && #[trigger] in_chunk(w, len, d, i) implies d == c by {
        law_one_owner(len, w, c, d, i);
    }
    let r = previous(w, c);
    lemma_wrap(w, c + w - 1);
    lemma_wrap(w, r + 1);
    assert(next(w, r) == c);
    law_chunk_fully_summed(w, r);
    assert(gather_send(w, r, 0) == c) by {
        if r + 1 + w < 2 * w {
            lemma_wrap(w, r + 1 + w);
        } else {
            vstd::arithmetic::div_mod::lemma_fundamental_div_mod_converse(r + 1 + w, w, 2, 0);
        }
    }
    assert forall|q: int| 0 <= q < w implies #[trigger] holds(w, q, c, (w - 1) as nat) by {
        law_all_hold_all(w, q, c);
    }
}

/// Number `i`, which lies in chunk `c`, as machine `r` has it after `s` steps of
/// collecting sums. Row `r` of `start` is what machine `r` begins with.
pub open spec fn collected(start: Seq<Seq<int>>, r: int, c: int, i: int, s: nat) -> int
    decreases s,
{
    let w = start.len() as int;
    if s == 0 {
        start[r][i]
    } else {
        let before = collected(start, r, c, i, (s - 1) as nat);
        if scatter_recv(w, r, s - 1) == c {
            before + collected(start, previous(w, r), c, i, (s - 1) as nat)
        } else {
            before
        }
    }
}

/// The same number after `s` steps of handing sums round.
pub open spec fn handed_round(start: Seq<Seq<int>>, r: int, c: int, i: int, s: nat) -> int
    decreases s,
{
    let w = start.len() as int;
    if s == 0 {
        collected(start, r, c, i, (w - 1) as nat)
    } else if gather_recv(w, r, s - 1) == c {
        handed_round(start, previous(w, r), c, i, (s - 1) as nat)
    } else {
        handed_round(start, r, c, i, (s - 1) as nat)
    }
}

/// The chunk that a number lies in.
pub open spec fn chunk_of(w: int, len: int, i: int) -> int {
    choose|c: int| 0 <= c < w && #[trigger] in_chunk(w, len, c, i)
}

/// The machines' buffers once all steps were taken. A machine that is alone
/// takes none.
pub open spec fn all_reduced(start: Seq<Seq<int>>) -> Seq<Seq<int>> {
    let w = start.len() as int;
    if w <= 1 {
        start
    } else {
        Seq::new(
            start.len(),
            |r: int|
                Seq::new(
                    start[r].len(),
                    |i: int|
                        handed_round(
                            start,
                            r,
                            chunk_of(w, start[r].len() as int, i),
                            i,
                            (w - 1) as nat,
                        ),
                ),
        )
    }
}

/// The sum of number `i` over the machines from `a` up to `b`.
pub open spec fn sum_over(start: Seq<Seq<int>>, i: int, a: int, b: int) -> int
    decreases b - a,
{
    if b <= a {
        0
    } else {
        sum_over(start, i, a, b - 1) + start[b - 1][i]
    }
}

/// The sum over the machines from `c` on, `d` of them further round.
spec fn round_sum(start: Seq<Seq<int>>, i: int, c: int, d: int) -> int {
    let w = start.len() as int;
    if c + d < w {
        sum_over(start, i, c, c + d + 1)
    } else {
        sum_over(start, i, c, w) + sum_over(start, i, 0, c + d - w + 1)
    }
}

proof fn lemma_sum_over(start: Seq<Seq<int>>, i: int, a: int, m: int, b: int)
    requires
        a <= m <= b,
    ensures
        sum_over(start, i, a, m) + sum_over(start, i, m, b) == sum_over(start, i, a, b),
    decreases b - m,
{
    if m < b {
        lemma_sum_over(start, i, a, m, b - 1);
    }
}

proof fn lemma_collected(start: Seq<Seq<int>>, r: int, c: int, i: int, s: nat)
    requires
        start.len() >= 2,
        0 <= r < start.len(),
        0 <= c < start.len(),
        s <= start.len() - 1,
    ensures
        ({
            let d = wrap(start.len() as int, r - c);
            collected(start, r, c, i, s) == if 1 <= d <= s {
                round_sum(start, i, c, d)
            } else {
                start[r][i]
            }
        }),
    decreases s,
{
    let w = start.len() as int;
    let d = wrap(w, r - c);
    if s > 0 {
        let p = previous(w, r);
        lemma_wrap(w, r + w - 1);
        lemma_wrap(w, r + w - (s - 1) - 1);
        lemma_collected(start, r, c, i, (s - 1) as nat);
        lemma_collected(start, p, c, i, (s - 1) as nat);
        assert(scatter_recv(w, r, s - 1) == c <==> d == s);
        if d == s {
            assert(wrap(w, p - c) == d - 1);
            if d == 1 {
                assert(p == c);
                assert(sum_over(start, i, c, c + 1) == sum_over(start, i, c, c) + start[c][i]);
            }
            assert(round_sum(start, i, c, d) == round_sum(start, i, c, d - 1) + start[r][i]) by {
                if c + d == w {
                    assert(r == 0);
                    assert(sum_over(start, i, 0, 1) == sum_over(start, i, 0, 0) + start[0][i]);
                }
            }
        }
    }
}

proof fn lemma_handed_round(start: Seq<Seq<int>>, r: int, c: int, i: int, s: nat)
    requires
        start.len() >= 2,
        0 <= r < start.len(),
        0 <= c < start.len(),
        s <= start.len() - 1,
        wrap(start.len() as int, wrap(start.len() as int, r + 1) - c) <= s,
    ensures
        handed_round(start, r, c, i, s) == sum_over(start, i, 0, start.len() as int),
    decreases s,
{
    let w = start.len() as int;
    let e = wrap(w, wrap(w, r + 1) - c);
    if s == 0 {
        assert(wrap(w, r + 1) == c);
        assert(wrap(w, r - c) == w - 1);
        lemma_collected(start, r, c, i, (w - 1) as nat);
        lemma_sum_over(start, i, 0, c, w);
    } else {
        let p = previous(w, r);
        lemma_wrap(w, r + w - 1);
        lemma_wrap(w, r + w - (s - 1));
        if e < s {
            assert(gather_recv(w, r, s - 1) != c);
            lemma_handed_round(start, r, c, i, (s - 1) as nat);
        } else {
            assert(gather_recv(w, r, s - 1) == c);
            assert(wrap(w, p + 1) == r);
            assert(wrap(w, r - c) == e - 1);
            lemma_handed_round(start, p, c, i, (s - 1) as nat);
        }
    }
}

/// Every machine ends with the same buffer: at every place the sum of what all
/// machines had there, where sums are exact. A machine that is alone keeps what
/// it has.
pub proof fn law_all_reduce_sums(start: Seq<Seq<int>>, r: int, i: int)
    requires
        0 <= r < start.len(),
        0 <= i < start[r].len(),
        forall|x: int| 0 <= x < start.len() ==> (#[trigger] start[x]).len() == start[r].len(),
    ensures
        all_reduced(start).len() == start.len(),
        all_reduced(start)[r].len() == start[r].len(),
        all_reduced(start)[r][i] == sum_over(start, i, 0, start.len() as int),
        start.len() <= 1 ==> all_reduced(start) == start,
{
    let w = start.len() as int;
    if w == 1 {
        assert(sum_over(start, i, 0, 1) == sum_over(start, i, 0, 0) + start[0][i]);
    } else {
        let len = start[r].len() as int;
        law_every_number_summed(w, len, i);
        let c = chunk_of(w, len, i);
        assert(0 <= c < w && in_chunk(w, len, c, i));
        lemma_handed_round(start, r, c, i, (w - 1) as nat);
    }
}

/// What a machine sends is what the next one receives, at every step.
pub proof fn law_ring_agrees(w: int, r: int, s: int)
    requires
        w >= 2,
        0 <= r < w,
        0 <= s < w - 1,
    ensures
        scatter_send(w, r, s) == scatter_recv(w, next(w, r), s),
        gather_send(w, r, s) == gather_recv(w, next(w, r), s),
{
    lemma_wrap(w, r + 1);
    let n = next(w, r);
    lemma_wrap(w, r + w - s);
    lemma_wrap(w, n + w - s - 1);
    lemma_wrap(w, n + w - s);
    if r + 1 + w - s < 2 * w {
        lemma_wrap(w, r + 1 + w - s);
    } else {
        vstd::arithmetic::div_mod::lemma_fundamental_div_mod_converse(r + 1 + w - s, w, 2, 0);
    }
}

/// The numbers of a chunk as they go over the wire: the lowest byte first.
pub open spec fn wire(bits: Seq<u32>) -> Seq<u8>
    decreases bits.len(),
{
    if bits.len() == 0 {
        Seq::empty()
    } else {
        wire(bits.drop_last()) + word_bytes(bits.last())
    }
}

/// The bytes of one number.
pub open spec fn word_bytes(b: u32) -> Seq<u8> {
    let v = b as int;
    seq![
        (v % 256) as u8,
        (v / 256 % 256) as u8,
        (v / 65536 % 256) as u8,
        (v / 16777216) as u8,
    ]
}

/// The number that four bytes make.
pub open spec fn word(a: u8, b: u8, c: u8, d: u8) -> int {
    a + 256 * b + 65536 * c + 16777216 * d
}

/// Writes the numbers of a chunk, given by their bits.
pub fn write_chunk(bits: &[u32]) -> (out: Vec<u8>)
    ensures
        out@ == wire(bits@),
{
    let mut out: Vec<u8> = Vec::new();
    assert(out@ =~= wire(bits@.take(0)));
    let mut i: usize = 0;
    while i < bits.len()
        invariant
            i <= bits@.len(),
            out@ == wire(bits@.take(i as int)),
        decreases bits@.len() - i,
    {
        let v = bits[i];
        let ghost front = bits@.take(i + 1);
        assert(front.drop_last() =~= bits@.take(i as int));
        assert(front.last() == v);
        let ghost before = out@;
        out.push((v % 256) as u8);
        out.push((v / 256 % 256) as u8);
        out.push((v / 65536 % 256) as u8);
        out.push((v / 16777216) as u8);
        assert(out@ =~= before + word_bytes(v));
        i += 1;
    }
    assert(bits@.take(i as int) =~= bits@);
    out
}

/// Reads the numbers of a chunk. The bytes come in fours.
pub fn read_chunk(bytes: &[u8]) -> (out: Vec<u32>)
    requires
        bytes@.len() % 4 == 0,
    ensures
        out@.len() == bytes@.len() / 4,
        forall|i: int|
            0 <= i < out@.len() ==> #[trigger] out@[i] == word(
                bytes@[4 * i],
                bytes@[4 * i + 1],
                bytes@[4 * i + 2],
                bytes@[4 * i + 3],
            ),
{
    let mut out: Vec<u32> = Vec::new();
    let total: usize = bytes.len();
    let n: usize = total / 4;
    let mut i: usize = 0;
    while i < n
        invariant
            i <= n,
            4 * n == total,
            total == bytes@.len(),
            out@.len() == i,
            forall|k: int|
                0 <= k < i ==> #[trigger] out@[k] == word(
                    bytes@[4 * k],
                    bytes@[4 * k + 1],
                    bytes@[4 * k + 2],
                    bytes@[4 * k + 3],
                ),
        decreases n - i,
    {
        let at: usize = 4 * i;
        let v: u32 = bytes[at] as u32 + 256 * bytes[at + 1] as u32 + 65536 * bytes[at + 2] as u32
            + 16777216 * bytes[at + 3] as u32;
        out.push(v);
        i += 1;
    }
    out
}

proof fn lemma_wire(bits: Seq<u32>, i: int)
    requires
        0 <= i < bits.len(),
    ensures
        wire(bits).len() == 4 * bits.len(),
        wire(bits).subrange(4 * i, 4 * i + 4) == word_bytes(bits[i]),
    decreases bits.len(),
{
    let front = wire(bits.drop_last());
    if bits.len() == 1 {
        assert(bits.drop_last() =~= Seq::empty());
        assert(front =~= Seq::empty());
        assert(wire(bits).subrange(0, 4) =~= word_bytes(bits[0]));
    } else if i == bits.len() - 1 {
        lemma_wire(bits.drop_last(), i - 1);
        assert(wire(bits).subrange(4 * i, 4 * i + 4) =~= word_bytes(bits[i]));
    } else {
        lemma_wire(bits.drop_last(), i);
        assert(wire(bits).subrange(4 * i, 4 * i + 4) =~= front.subrange(4 * i, 4 * i + 4));
    }
}

/// What is read from the wire is what was written to it.
pub proof fn law_wire_reads_back(bits: Seq<u32>, i: int)
    requires
        0 <= i < bits.len(),
    ensures
        wire(bits).len() == 4 * bits.len(),
        word(
            wire(bits)[4 * i],
            wire(bits)[4 * i + 1],
            wire(bits)[4 * i + 2],
            wire(bits)[4 * i + 3],
        ) == bits[i],
{
    lemma_wire(bits, i);
    let four = wire(bits).subrange(4 * i, 4 * i + 4);
    assert(four[0] == wire(bits)[4 * i]);
    assert(four[1] == wire(bits)[4 * i + 1]);
    assert(four[2] == wire(bits)[4 * i + 2]);
    assert(four[3] == wire(bits)[4 * i + 3]);
}

/// A number is written with its lowest byte first, four bytes for each, one
/// number behind the other.
pub proof fn law_lowest_byte_first(bits: Seq<u32>, b: u32, x: u8, y: u8, z: u8, w: u8)
    ensures
        wire(seq![]) == Seq::<u8>::empty(),
        wire(bits.push(b)) == wire(bits) + seq![
            (b % 0x100) as u8,
            (b / 0x100 % 0x100) as u8,
            (b / 0x1_0000 % 0x100) as u8,
            (b / 0x100_0000) as u8,
        ],
        word(x, y, z, w) == x + 0x100 * y + 0x1_0000 * z + 0x100_0000 * w,
{
    assert(bits.push(b).drop_last() =~= bits);
}

/// Each machine of the ring sends to the one whose number follows, and the last
/// one to the first.
pub proof fn law_ring_closes(w: int, r: int)
    requires
        w >= 1,
        0 <= r < w,
    ensures
        r + 1 < w ==> next(w, r) == r + 1,
        r == w - 1 ==> next(w, r) == 0,
        previous(w, next(w, r)) == r,
        next(w, previous(w, r)) == r,
{
    lemma_wrap(w, r + 1);
    lemma_wrap(w, r + w - 1);
    let n = next(w, r);
    let p = previous(w, r);
    lemma_wrap(w, n + w - 1);
    lemma_wrap(w, p + 1);
}

} // verus!
