//! Which machine runs which layers.
use vstd::prelude::*;
use crate::floats::{total_rank_double, total_rank_of_double};
use crate::text::{chars_of, texts, Text};

verus! {

/// What a machine can do: the bits of double precision numbers.
#[derive(Debug, Clone, Copy, PartialEq, Eq, Structural)]
pub struct NodeCapability {
    pub total_memory_gb: u64,
    pub available_memory_gb: u64,
    pub cpu_gflops: u64,
}

/// The layers that one machine runs.
#[derive(Debug, Clone)]
pub struct ClusterPartition<S = String> {
    pub node_id: S,
    pub start_layer: usize,
    /// Exclusive.
    pub end_layer: usize,
}

impl View for ClusterPartition {
    type V = ClusterPartition<Text>;

    open spec fn view(&self) -> ClusterPartition<Text> {
        ClusterPartition {
            node_id: self.node_id@,
            start_layer: self.start_layer,
            end_layer: self.end_layer,
        }
    }
}

/// Partitions without their representation.
pub open spec fn laid_out(parts: Seq<ClusterPartition>) -> Seq<ClusterPartition<Text>> {
    parts.map_values(|p: ClusterPartition| p@)
}

/// `a` comes before `b` in the order of texts.
pub open spec fn precedes(a: Text, b: Text) -> bool
    decreases a.len(),
{
    if b.len() == 0 {
        false
    } else if a.len() == 0 {
        true
    } else if a[0] != b[0] {
        a[0] < b[0]
    } else {
        precedes(a.skip(1), b.skip(1))
    }
}

fn comes_before(a: &str, b: &str) -> (r: bool)
    ensures
        r == precedes(a@, b@),
{
    let x = chars_of(a);
    let y = chars_of(b);
    let mut i: usize = 0;
    assert(a@.skip(0) =~= a@);
    assert(b@.skip(0) =~= b@);
    while i < x.len() && i < y.len()
        invariant
            i <= x@.len(),
            i <= y@.len(),
            x@ == a@,
            y@ == b@,
            precedes(a@, b@) == precedes(a@.skip(i as int), b@.skip(i as int)),
        decreases x@.len() - i,
    {
        assert(a@.skip(i as int).skip(1) =~= a@.skip(i + 1));
        assert(b@.skip(i as int).skip(1) =~= b@.skip(i + 1));
        if x[i] != y[i] {
            return x[i] < y[i];
        }
        i += 1;
    }
    i < y.len()
}

/// Where `id` is put among `sorted`: behind all that it does not precede.
pub open spec fn id_slot(sorted: Seq<Text>, id: Text) -> int
    decreases sorted.len(),
{
    if sorted.len() == 0 {
        0
    } else if precedes(id, sorted.last()) {
        id_slot(sorted.drop_last(), id)
    } else {
        sorted.len() as int
    }
}

/// Where the machines of `ids` stand, in the order of their names.
pub open spec fn id_order(ids: Seq<Text>, n: nat) -> Seq<usize>
    decreases n,
{
    if n == 0 {
        Seq::empty()
    } else {
        let before = id_order(ids, (n - 1) as nat);
        before.insert(id_slot(picked(ids, before), ids[n - 1]), (n - 1) as usize)
    }
}

/// What stands at the given places.
pub open spec fn picked<A>(s: Seq<A>, places: Seq<usize>) -> Seq<A> {
    places.map_values(|p: usize| s[p as int])
}

fn find_id_slot(ids: &[String], places: &Vec<usize>, id: &str) -> (i: usize)
    requires
        forall|k: int| 0 <= k < places@.len() ==> (#[trigger] places@[k]) < ids@.len(),
    ensures
        i == id_slot(picked(texts(ids@), places@), id@),
        i <= places@.len(),
{
    let ghost sorted = picked(texts(ids@), places@);
    let mut i: usize = places.len();
    assert(sorted.take(i as int) =~= sorted);
    while i > 0
        invariant
            i <= places@.len(),
            sorted == picked(texts(ids@), places@),
            forall|k: int| 0 <= k < places@.len() ==> (#[trigger] places@[k]) < ids@.len(),
            id_slot(sorted, id@) == id_slot(sorted.take(i as int), id@),
        decreases i,
    {
        let p = places[i - 1];
        let ghost front = sorted.take(i as int);
        assert(front.last() == ids@[p as int]@);
        assert(front.drop_last() =~= sorted.take(i - 1));
        if !comes_before(id, &ids[p]) {
            return i;
        }
        i -= 1;
    }
    i
}

/// Puts machines in the order of their names, which makes the assignment of
/// layers the same however they are listed. The result says which machine
/// stands where.
pub fn order_nodes(ids: &[String]) -> (order: Vec<usize>)
    ensures
        order@ == id_order(texts(ids@), ids@.len()),
        order@.len() == ids@.len(),
        forall|k: int| 0 <= k < order@.len() ==> (#[trigger] order@[k]) < ids@.len(),
{
    let mut order: Vec<usize> = Vec::new();
    let mut i: usize = 0;
    while i < ids.len()
        invariant
            i <= ids@.len(),
            order@.len() == i,
            order@ == id_order(texts(ids@), i as nat),
            forall|k: int| 0 <= k < order@.len() ==> (#[trigger] order@[k]) < i,
        decreases ids@.len() - i,
    {
        assert(texts(ids@)[i as int] == ids@[i as int]@);
        let k = find_id_slot(ids, &order, &ids[i]);
        let ghost before = order@;
        order.insert(k, i);
        assert forall|j: int| 0 <= j < order@.len() implies (#[trigger] order@[j]) < i + 1 by {
            if j < k {
                assert(order@[j] == before[j]);
            } else if j > k {
                assert(order@[j] == before[j - 1]);
            }
        }
        i += 1;
    }
    order
}

proof fn lemma_precedes_total(a: Text, b: Text)
    ensures
        precedes(a, b) || precedes(b, a) || a == b,
        !(precedes(a, b) && precedes(b, a)),
    decreases a.len(),
{
    if a.len() > 0 && b.len() > 0 && a[0] == b[0] {
        lemma_precedes_total(a.skip(1), b.skip(1));
        if a.skip(1) == b.skip(1) {
            assert(a =~= seq![a[0]] + a.skip(1));
            assert(b =~= seq![b[0]] + b.skip(1));
        }
    } else if a.len() == 0 && b.len() == 0 {
        assert(a =~= b);
    }
}

proof fn lemma_precedes_chain(a: Text, b: Text, c: Text)
    requires
        !precedes(b, a),
        !precedes(c, b),
    ensures
        !precedes(c, a),
    decreases a.len(),
{
    if a.len() > 0 && b.len() > 0 && c.len() > 0 && a[0] == b[0] && b[0] == c[0] {
        lemma_precedes_chain(a.skip(1), b.skip(1), c.skip(1));
    }
}

/// Names in the order of texts.
pub open spec fn alphabetic(names: Seq<Text>) -> bool {
    forall|i: int, j: int|
        0 <= i <= j < names.len() ==> !precedes(#[trigger] names[j], #[trigger] names[i])
}

proof fn lemma_id_slot_splits(sorted: Seq<Text>, id: Text)
    requires
        alphabetic(sorted),
    ensures
        0 <= id_slot(sorted, id) <= sorted.len(),
        forall|i: int| 0 <= i < id_slot(sorted, id) ==> !precedes(id, #[trigger] sorted[i]),
        forall|i: int| id_slot(sorted, id) <= i < sorted.len() ==> precedes(id, #[trigger] sorted[i]),
    decreases sorted.len(),
{
    if sorted.len() > 0 && precedes(id, sorted.last()) {
        let rest = sorted.drop_last();
        assert(alphabetic(rest)) by {
            assert forall|i: int, j: int| 0 <= i <= j < rest.len() implies !precedes(
                #[trigger] rest[j],
                #[trigger] rest[i],
            ) by {
                assert(!precedes(sorted[j], sorted[i]));
            }
        }
        lemma_id_slot_splits(rest, id);
        assert forall|i: int| 0 <= i < id_slot(sorted, id) implies !precedes(
            id,
            #[trigger] sorted[i],
        ) by {
            assert(!precedes(id, rest[i]));
        }
        assert forall|i: int| id_slot(sorted, id) <= i < sorted.len() implies precedes(
            id,
            #[trigger] sorted[i],
        ) by {
            if i < rest.len() {
                assert(precedes(id, rest[i]));
            }
        }
    } else if sorted.len() > 0 {
        assert forall|i: int| 0 <= i < sorted.len() implies !precedes(id, #[trigger] sorted[i]) by {
            assert(!precedes(sorted[sorted.len() - 1], sorted[i]));
            lemma_precedes_chain(sorted[i], sorted.last(), id);
        }
    }
}

/// Machines are put in the order of their names.
pub proof fn law_nodes_alphabetic(ids: Seq<Text>, n: nat)
    requires
        n <= ids.len(),
        ids.len() <= usize::MAX,
    ensures
        alphabetic(picked(ids, id_order(ids, n))),
        id_order(ids, n).len() == n,
    decreases n,
{
    if n > 0 {
        let before = id_order(ids, (n - 1) as nat);
        law_nodes_alphabetic(ids, (n - 1) as nat);
        let sorted = picked(ids, before);
        let id = ids[n - 1];
        let k = id_slot(sorted, id);
        lemma_id_slot_splits(sorted, id);
        let out = picked(ids, id_order(ids, n));
        assert(out =~= sorted.insert(k, id));
        assert forall|i: int, j: int| 0 <= i <= j < out.len() implies !precedes(
            #[trigger] out[j],
            #[trigger] out[i],
        ) by {
            let a = if i < k {
                i
            } else {
                i - 1
            };
            let b = if j < k {
                j
            } else {
                j - 1
            };
            lemma_precedes_total(id, id);
            if i != k && j != k {
                assert(out[i] == sorted[a] && out[j] == sorted[b]);
                assert(!precedes(sorted[b], sorted[a]));
            } else if i == k && j != k {
                assert(out[j] == sorted[b]);
                assert(precedes(id, sorted[b]));
                lemma_precedes_total(id, sorted[b]);
            } else if j == k && i != k {
                assert(out[i] == sorted[a]);
                assert(!precedes(id, sorted[a]));
            }
        }
    }
}

/// Where a machine of this speed is put: behind all that are no slower.
pub open spec fn speed_slot(gflops: Seq<u64>, order: Seq<usize>, speed: u64) -> int
    decreases order.len(),
{
    if order.len() == 0 {
        0
    } else if total_rank_double(gflops[order.last() as int]) < total_rank_double(speed) {
        speed_slot(gflops, order.drop_last(), speed)
    } else {
        order.len() as int
    }
}

/// The first `n` machines, the fastest first.
pub open spec fn speed_order(gflops: Seq<u64>, n: nat) -> Seq<usize>
    decreases n,
{
    if n == 0 {
        Seq::empty()
    } else {
        let before = speed_order(gflops, (n - 1) as nat);
        before.insert(speed_slot(gflops, before, gflops[n - 1]), (n - 1) as usize)
    }
}

fn find_speed_slot(gflops: &[u64], order: &Vec<usize>, speed: u64) -> (i: usize)
    requires
        forall|k: int| 0 <= k < order@.len() ==> (#[trigger] order@[k]) < gflops@.len(),
    ensures
        i == speed_slot(gflops@, order@, speed),
        i <= order@.len(),
{
    let mut i: usize = order.len();
    assert(order@.take(i as int) =~= order@);
    while i > 0
        invariant
            i <= order@.len(),
            forall|k: int| 0 <= k < order@.len() ==> (#[trigger] order@[k]) < gflops@.len(),
            speed_slot(gflops@, order@, speed) == speed_slot(
                gflops@,
                order@.take(i as int),
                speed,
            ),
        decreases i,
    {
        let p = order[i - 1];
        assert(order@.take(i as int).drop_last() =~= order@.take(i - 1));
        if total_rank_of_double(gflops[p]) >= total_rank_of_double(speed) {
            return i;
        }
        i -= 1;
    }
    i
}

fn order_by_speed(gflops: &[u64]) -> (order: Vec<usize>)
    ensures
        order@ == speed_order(gflops@, gflops@.len()),
        order@.len() == gflops@.len(),
        forall|k: int| 0 <= k < order@.len() ==> (#[trigger] order@[k]) < gflops@.len(),
{
    let mut order: Vec<usize> = Vec::new();
    let mut i: usize = 0;
    while i < gflops.len()
        invariant
            i <= gflops@.len(),
            order@.len() == i,
            order@ == speed_order(gflops@, i as nat),
            forall|k: int| 0 <= k < order@.len() ==> (#[trigger] order@[k]) < i,
        decreases gflops@.len() - i,
    {
        let k = find_speed_slot(gflops, &order, gflops[i]);
        let ghost before = order@;
        order.insert(k, i);
        assert forall|j: int| 0 <= j < order@.len() implies (#[trigger] order@[j]) < i + 1 by {
            if j < k {
                assert(order@[j] == before[j]);
            } else if j > k {
                assert(order@[j] == before[j - 1]);
            }
        }
        i += 1;
    }
    order
}

/// The sum of shares.
pub open spec fn total(shares: Seq<usize>) -> nat
    decreases shares.len(),
{
    if shares.len() == 0 {
        0
    } else {
        total(shares.drop_last()) + shares.last() as nat
    }
}

/// How many of `left` layers the machine at place `p` of `n` gets when they are
/// dealt out in turn.
pub open spec fn dealt(left: int, n: int, p: int) -> int {
    left / n + (if p < left % n {
        1int
    } else {
        0
    })
}

/// The shares after the first `p` machines of `order` were dealt theirs.
pub open spec fn with_dealt(shares: Seq<usize>, order: Seq<usize>, left: int, p: nat) -> Seq<usize>
    decreases p,
{
    if p == 0 {
        shares
    } else {
        let before = with_dealt(shares, order, left, (p - 1) as nat);
        let i = order[p - 1] as int;
        before.update(i, (before[i] + dealt(left, order.len() as int, p - 1)) as usize)
    }
}

/// What the shares leave over.
pub open spec fn left_over(n_layers: int, shares: Seq<usize>) -> int {
    if n_layers > total(shares) {
        n_layers - total(shares)
    } else {
        0
    }
}

/// The layers of each machine: its share, and what is dealt to it of the rest,
/// the fastest machines first.
pub open spec fn allotted(n_layers: int, gflops: Seq<u64>, shares: Seq<usize>) -> Seq<usize> {
    let order = speed_order(gflops, gflops.len());
    with_dealt(shares, order, left_over(n_layers, shares), order.len())
}

/// Where the layers of the first `i` machines end.
pub open spec fn reached(n_layers: int, counts: Seq<usize>, i: nat) -> int
    decreases i,
{
    if i == 0 {
        0
    } else {
        let end = reached(n_layers, counts, (i - 1) as nat) + counts[i - 1];
        if end < n_layers {
            end
        } else {
            n_layers
        }
    }
}

/// The layers of the first `i` machines, one range behind the other. A machine
/// without layers has no range.
pub open spec fn ranges(n_layers: int, ids: Seq<Text>, counts: Seq<usize>, i: nat) -> Seq<
    ClusterPartition<Text>,
>
    decreases i,
{
    if i == 0 {
        Seq::empty()
    } else {
        let before = ranges(n_layers, ids, counts, (i - 1) as nat);
        let start = reached(n_layers, counts, (i - 1) as nat);
        let end = reached(n_layers, counts, i);
        if start < end {
            before.push(
                ClusterPartition {
                    node_id: ids[i - 1],
                    start_layer: start as usize,
                    end_layer: end as usize,
                },
            )
        } else {
            before
        }
    }
}

/// The layers of each machine, in the order of the list. Without machines
/// everything runs here.
pub open spec fn assignment(n_layers: int, ids: Seq<Text>, gflops: Seq<u64>, shares: Seq<usize>) -> Seq<
    ClusterPartition<Text>,
> {
    if ids.len() == 0 {
        seq![
            ClusterPartition {
                node_id: "local"@,
                start_layer: 0usize,
                end_layer: n_layers as usize,
            },
        ]
    } else {
        ranges(n_layers, ids, allotted(n_layers, gflops, shares), ids.len())
    }
}

proof fn lemma_total_update(shares: Seq<usize>, i: int, v: usize)
    requires
        0 <= i < shares.len(),
    ensures
        total(shares.update(i, v)) == total(shares) - shares[i] + v,
    decreases shares.len(),
{
    let rest = shares.drop_last();
    let changed = shares.update(i, v);
    if i == shares.len() - 1 {
        assert(changed.drop_last() =~= rest);
    } else {
        lemma_total_update(rest, i, v);
        assert(changed.drop_last() =~= rest.update(i, v));
    }
}

proof fn lemma_share_within(shares: Seq<usize>, i: int)
    requires
        0 <= i < shares.len(),
    ensures
        shares[i] <= total(shares),
    decreases shares.len(),
{
    if i < shares.len() - 1 {
        lemma_share_within(shares.drop_last(), i);
    }
}

/// What the first `p` places are dealt together.
pub open spec fn dealt_total(left: int, n: int, p: int) -> int {
    p * (left / n) + (if p < left % n {
        p
    } else {
        left % n
    })
}

proof fn lemma_with_dealt(shares: Seq<usize>, order: Seq<usize>, left: int, p: nat)
    requires
        left >= 0,
        order.len() > 0,
        p <= order.len(),
        order.len() == shares.len(),
        forall|k: int| 0 <= k < order.len() ==> (#[trigger] order[k]) < shares.len(),
        total(shares) + left <= usize::MAX,
    ensures
        with_dealt(shares, order, left, p).len() == shares.len(),
        total(with_dealt(shares, order, left, p)) == total(shares) + dealt_total(
            left,
            order.len() as int,
            p as int,
        ),
        dealt_total(left, order.len() as int, p as int) <= left,
        p == order.len() ==> dealt_total(left, order.len() as int, p as int) == left,
        p < order.len() ==> with_dealt(shares, order, left, p)[order[p as int] as int] + dealt(
            left,
            order.len() as int,
            p as int,
        ) <= usize::MAX,
    decreases p,
{
    let n = order.len() as int;
    let q = left / n;
    let r = left % n;
    assert(left == q * n + r && 0 <= r < n && q >= 0) by (nonlinear_arith)
        requires
            n > 0,
            left >= 0,
            q == left / n,
            r == left % n,
    ;
    assert(n * q == q * n) by (nonlinear_arith);
    assert((p + 1) * q == p * q + q) by (nonlinear_arith);
    assert(p * q <= n * q) by (nonlinear_arith)
        requires
            p <= n,
            q >= 0,
    ;
    assert(p < n ==> (p + 1) * q <= n * q) by (nonlinear_arith)
        requires
            q >= 0,
    ;
    let now = with_dealt(shares, order, left, p);
    if p == 0 {
        assert(0 * q == 0);
    } else {
        lemma_with_dealt(shares, order, left, (p - 1) as nat);
        let before = with_dealt(shares, order, left, (p - 1) as nat);
        let i = order[p - 1] as int;
        let v = (before[i] + dealt(left, n, p - 1)) as usize;
        lemma_total_update(before, i, v);
        assert((p - 1) * q == p * q - q) by (nonlinear_arith);
    }
    if p < n {
        lemma_share_within(now, order[p as int] as int);
    }
}

fn deal_out(shares: &[usize], order: &Vec<usize>, left: usize) -> (counts: Vec<usize>)
    requires
        order@.len() > 0,
        order@.len() == shares@.len(),
        forall|k: int| 0 <= k < order@.len() ==> (#[trigger] order@[k]) < shares@.len(),
        total(shares@) + left <= usize::MAX,
    ensures
        counts@ == with_dealt(shares@, order@, left as int, order@.len()),
        counts@.len() == shares@.len(),
{
    let n: usize = order.len();
    let mut counts: Vec<usize> = Vec::new();
    let mut i: usize = 0;
    while i < n
        invariant
            i <= n,
            n == shares@.len(),
            counts@ == shares@.take(i as int),
        decreases n - i,
    {
        counts.push(shares[i]);
        assert(shares@.take(i + 1) =~= shares@.take(i as int).push(shares@[i as int]));
        i += 1;
    }
    assert(shares@.take(n as int) =~= shares@);
    let each: usize = left / n;
    let more: usize = left % n;
    let mut p: usize = 0;
    while p < n
        invariant
            p <= n,
            n > 0,
            n == order@.len(),
            n == shares@.len(),
            each == left as int / n as int,
            more == left as int % n as int,
            forall|k: int| 0 <= k < order@.len() ==> (#[trigger] order@[k]) < shares@.len(),
            total(shares@) + left <= usize::MAX,
            counts@.len() == n,
            counts@ == with_dealt(shares@, order@, left as int, p as nat),
        decreases n - p,
    {
        proof {
            lemma_with_dealt(shares@, order@, left as int, p as nat);
        }
        let at = order[p];
        let extra: usize = if p < more {
            1
        } else {
            0
        };
        let v: usize = counts[at] + (each + extra);
        counts.set(at, v);
        p += 1;
    }
    counts
}

fn sum_of(shares: &[usize]) -> (n: usize)
    requires
        total(shares@) <= usize::MAX,
    ensures
        n == total(shares@),
{
    let mut sum: usize = 0;
    let mut i: usize = 0;
    assert(shares@.take(0) =~= Seq::<usize>::empty());
    while i < shares.len()
        invariant
            i <= shares@.len(),
            total(shares@) <= usize::MAX,
            sum == total(shares@.take(i as int)),
        decreases shares@.len() - i,
    {
        assert(shares@.take(i + 1).drop_last() =~= shares@.take(i as int));
        proof {
            lemma_total_prefix(shares@, i + 1);
        }
        sum = sum + shares[i];
        i += 1;
    }
    assert(shares@.take(i as int) =~= shares@);
    sum
}

proof fn lemma_total_prefix(shares: Seq<usize>, n: int)
    requires
        0 <= n <= shares.len(),
    ensures
        total(shares.take(n)) <= total(shares),
    decreases shares.len(),
{
    if n == shares.len() {
        assert(shares.take(n) =~= shares);
    } else {
        lemma_total_prefix(shares.drop_last(), n);
        assert(shares.drop_last().take(n) =~= shares.take(n));
    }
}

proof fn lemma_reached_bounds(n_layers: int, counts: Seq<usize>, i: nat)
    requires
        n_layers >= 0,
    ensures
        0 <= reached(n_layers, counts, i) <= n_layers,
        i > 0 ==> reached(n_layers, counts, (i - 1) as nat) <= reached(n_layers, counts, i),
    decreases i,
{
    if i > 0 {
        lemma_reached_bounds(n_layers, counts, (i - 1) as nat);
    }
}

/// Assigns a model's layers to machines, which stand in the order of their
/// names, with their speeds and with the whole layers that are their shares of
/// the model. What rounding leaves over goes to the fastest machines first.
pub fn partition_model(n_layers: usize, ids: &[String], gflops: &[u64], shares: &[usize]) -> (out: Vec<
    ClusterPartition,
>)
    requires
        ids@.len() == gflops@.len(),
        ids@.len() == shares@.len(),
        total(shares@) <= usize::MAX,
    ensures
        laid_out(out@) == assignment(n_layers as int, texts(ids@), gflops@, shares@),
{
    let mut out: Vec<ClusterPartition> = Vec::new();
    if ids.len() == 0 {
        out.push(
            ClusterPartition { node_id: "local".to_string(), start_layer: 0, end_layer: n_layers },
        );
        assert(laid_out(out@) =~= assignment(n_layers as int, texts(ids@), gflops@, shares@));
        return out;
    }
    let order = order_by_speed(gflops);
    let sum = sum_of(shares);
    let left: usize = if n_layers > sum {
        n_layers - sum
    } else {
        0
    };
    let counts = deal_out(shares, &order, left);
    assert(counts@ == allotted(n_layers as int, gflops@, shares@));
    let mut current: usize = 0;
    let mut i: usize = 0;
    assert(laid_out(out@) =~= Seq::<ClusterPartition<Text>>::empty());
    while i < ids.len()
        invariant
            i <= ids@.len(),
            counts@.len() == ids@.len(),
            current == reached(n_layers as int, counts@, i as nat),
            current <= n_layers,
            laid_out(out@) == ranges(n_layers as int, texts(ids@), counts@, i as nat),
        decreases ids@.len() - i,
    {
        proof {
            lemma_reached_bounds(n_layers as int, counts@, (i + 1) as nat);
        }
        assert(texts(ids@)[i as int] == ids@[i as int]@);
        let end: usize = if counts[i] < n_layers - current {
            current + counts[i]
        } else {
            n_layers
        };
        let ghost before = out@;
        if current < end {
            out.push(
                ClusterPartition {
                    node_id: ids[i].clone(),
                    start_layer: current,
                    end_layer: end,
                },
            );
            assert(laid_out(out@) =~= laid_out(before).push(
                ClusterPartition {
                    node_id: ids@[i as int]@,
                    start_layer: current,
                    end_layer: end,
                },
            ));
            current = end;
        }
        i += 1;
    }
    out
}

/// The machines' ranges are contiguous: the first begins with the first layer,
/// each begins where the one before ends, and the last ends at `end`.
pub open spec fn contiguous(parts: Seq<ClusterPartition<Text>>, end: int) -> bool {
    &&& parts.len() == 0 ==> end == 0
    &&& parts.len() > 0 ==> parts[0].start_layer == 0 && parts.last().end_layer == end
    &&& forall|i: int, j: int|
        0 <= i && j == i + 1 && j < parts.len() ==> (#[trigger] parts[i]).end_layer == (
        #[trigger] parts[j]).start_layer
    &&& forall|i: int| 0 <= i < parts.len() ==> (#[trigger] parts[i]).start_layer < parts[i].end_layer
}

proof fn lemma_ranges_contiguous(n_layers: int, ids: Seq<Text>, counts: Seq<usize>, i: nat)
    requires
        0 <= n_layers <= usize::MAX,
        i <= ids.len(),
        i <= counts.len(),
    ensures
        contiguous(ranges(n_layers, ids, counts, i), reached(n_layers, counts, i)),
    decreases i,
{
    if i > 0 {
        lemma_ranges_contiguous(n_layers, ids, counts, (i - 1) as nat);
        lemma_reached_bounds(n_layers, counts, i);
        lemma_reached_bounds(n_layers, counts, (i - 1) as nat);
        let before = ranges(n_layers, ids, counts, (i - 1) as nat);
        let now = ranges(n_layers, ids, counts, i);
        if reached(n_layers, counts, (i - 1) as nat) < reached(n_layers, counts, i) {
            assert forall|a: int, b: int| 0 <= a && b == a + 1 && b < now.len() implies (
            #[trigger] now[a]).end_layer == (#[trigger] now[b]).start_layer by {
                if b < before.len() {
                    assert(before[a].end_layer == before[b].start_layer);
                }
            }
            assert forall|a: int| 0 <= a < now.len() implies (#[trigger] now[a]).start_layer
                < now[a].end_layer by {
                if a < before.len() {
                    assert(before[a].start_layer < before[a].end_layer);
                }
            }
        }
    }
}

proof fn lemma_reached_is_total(n_layers: int, counts: Seq<usize>, i: nat)
    requires
        n_layers >= 0,
        i <= counts.len(),
    ensures
        reached(n_layers, counts, i) == if total(counts.take(i as int)) < n_layers {
            total(counts.take(i as int)) as int
        } else {
            n_layers
        },
    decreases i,
{
    if i == 0 {
        assert(counts.take(0) =~= Seq::<usize>::empty());
    } else {
        lemma_reached_is_total(n_layers, counts, (i - 1) as nat);
        assert(counts.take(i as int).drop_last() =~= counts.take(i - 1));
    }
}

proof fn lemma_speed_order_within(gflops: Seq<u64>, n: nat)
    requires
        n <= gflops.len(),
        gflops.len() <= usize::MAX,
    ensures
        speed_order(gflops, n).len() == n,
        forall|k: int| 0 <= k < n ==> (#[trigger] speed_order(gflops, n)[k]) < n,
    decreases n,
{
    if n > 0 {
        let before = speed_order(gflops, (n - 1) as nat);
        lemma_speed_order_within(gflops, (n - 1) as nat);
        lemma_speed_slot_bounds(gflops, before, gflops[n - 1]);
        let k = speed_slot(gflops, before, gflops[n - 1]);
        let now = speed_order(gflops, n);
        assert forall|j: int| 0 <= j < n implies (#[trigger] now[j]) < n by {
            if j < k {
                assert(now[j] == before[j]);
            } else if j > k {
                assert(now[j] == before[j - 1]);
            }
        }
    }
}

proof fn lemma_speed_slot_bounds(gflops: Seq<u64>, order: Seq<usize>, speed: u64)
    ensures
        0 <= speed_slot(gflops, order, speed) <= order.len(),
    decreases order.len(),
{
    if order.len() > 0 {
        lemma_speed_slot_bounds(gflops, order.drop_last(), speed);
    }
}

/// Every layer is assigned, to one machine only, as long as the shares do not
/// exceed the model.
pub proof fn law_all_layers_assigned(
    n_layers: int,
    ids: Seq<Text>,
    gflops: Seq<u64>,
    shares: Seq<usize>,
)
    requires
        0 < n_layers <= usize::MAX,
        ids.len() == gflops.len(),
        ids.len() == shares.len(),
        ids.len() <= usize::MAX,
        total(shares) <= n_layers,
    ensures
        contiguous(assignment(n_layers, ids, gflops, shares), n_layers),
{
    if ids.len() > 0 {
        let order = speed_order(gflops, gflops.len());
        lemma_speed_order_within(gflops, gflops.len());
        let left = left_over(n_layers, shares);
        lemma_with_dealt(shares, order, left, order.len());
        let counts = allotted(n_layers, gflops, shares);
        assert(total(counts) == n_layers);
        lemma_reached_is_total(n_layers, counts, ids.len());
        assert(counts.take(ids.len() as int) =~= counts);
        lemma_ranges_contiguous(n_layers, ids, counts, ids.len());
    }
}

/// What is left over goes to the front of the order of speeds first: nobody
/// there gets less than somebody behind.
pub proof fn law_fastest_dealt_first(left: int, n: int, p: int, q: int)
    requires
        n > 0,
        left >= 0,
        0 <= p <= q < n,
    ensures
        dealt(left, n, q) <= dealt(left, n, p) <= dealt(left, n, q) + 1,
{
}

proof fn lemma_speed_splits(gflops: Seq<u64>, order: Seq<usize>, speed: u64)
    requires
        forall|i: int, j: int|
            0 <= i <= j < order.len() ==> total_rank_double(gflops[#[trigger] order[i] as int])
                >= total_rank_double(gflops[#[trigger] order[j] as int]),
    ensures
        forall|i: int|
            0 <= i < speed_slot(gflops, order, speed) ==> total_rank_double(
                gflops[#[trigger] order[i] as int],
            ) >= total_rank_double(speed),
        forall|i: int|
            speed_slot(gflops, order, speed) <= i < order.len() ==> total_rank_double(
                gflops[#[trigger] order[i] as int],
            ) < total_rank_double(speed),
    decreases order.len(),
{
    if order.len() > 0 {
        let rest = order.drop_last();
        if total_rank_double(gflops[order.last() as int]) < total_rank_double(speed) {
            assert(forall|i: int| 0 <= i < rest.len() ==> rest[i] == order[i]);
            lemma_speed_splits(gflops, rest, speed);
            lemma_speed_slot_bounds(gflops, rest, speed);
            assert forall|i: int| 0 <= i < speed_slot(gflops, order, speed) implies total_rank_double(
                gflops[#[trigger] order[i] as int],
            ) >= total_rank_double(speed) by {
                assert(total_rank_double(gflops[rest[i] as int]) >= total_rank_double(speed));
            }
            assert forall|i: int|
                speed_slot(gflops, order, speed) <= i < order.len() implies total_rank_double(
                gflops[#[trigger] order[i] as int],
            ) < total_rank_double(speed) by {
                if i < rest.len() {
                    assert(total_rank_double(gflops[rest[i] as int]) < total_rank_double(speed));
                    assert(rest[i] == order[i]);
                } else {
                    assert(order[i] == order.last());
                }
            }
        } else {
            assert forall|i: int| 0 <= i < order.len() implies total_rank_double(
                gflops[#[trigger] order[i] as int],
            ) >= total_rank_double(speed) by {
                assert(total_rank_double(gflops[order[i] as int]) >= total_rank_double(
                    gflops[order[order.len() - 1] as int],
                ));
            }
        }
    }
}

/// In the order of speeds no machine stands behind a slower one.
pub proof fn law_speed_order_falls(gflops: Seq<u64>, n: nat)
    requires
        n <= gflops.len(),
        gflops.len() <= usize::MAX,
    ensures
        forall|i: int, j: int|
            0 <= i <= j < n ==> total_rank_double(
                gflops[#[trigger] speed_order(gflops, n)[i] as int],
            ) >= total_rank_double(gflops[#[trigger] speed_order(gflops, n)[j] as int]),
    decreases n,
{
    if n > 0 {
        let before = speed_order(gflops, (n - 1) as nat);
        let now = speed_order(gflops, n);
        let speed = gflops[n - 1];
        let k = speed_slot(gflops, before, speed);
        law_speed_order_falls(gflops, (n - 1) as nat);
        lemma_speed_order_within(gflops, (n - 1) as nat);
        lemma_speed_slot_bounds(gflops, before, speed);
        lemma_speed_splits(gflops, before, speed);
        assert forall|i: int, j: int| 0 <= i <= j < n implies total_rank_double(
            gflops[#[trigger] now[i] as int],
        ) >= total_rank_double(gflops[#[trigger] now[j] as int]) by {
            let a = if i < k {
                i
            } else {
                i - 1
            };
            let b = if j < k {
                j
            } else {
                j - 1
            };
            if i != k && j != k {
                assert(now[i] == before[a] && now[j] == before[b]);
            } else if i == k && j != k {
                assert(now[j] == before[b]);
            } else if j == k && i != k {
                assert(now[i] == before[a]);
            }
        }
    }
}

/// Names that rise in the order of texts.
pub open spec fn ascending(names: Seq<Text>) -> bool {
    forall|i: int, j: int|
        0 <= i < j < names.len() ==> precedes(#[trigger] names[i], #[trigger] names[j])
}

/// The machines of an assignment.
pub open spec fn machines(parts: Seq<ClusterPartition<Text>>) -> Seq<Text> {
    parts.map_values(|p: ClusterPartition<Text>| p.node_id)
}

proof fn lemma_id_order_places(ids: Seq<Text>, n: nat)
    requires
        n <= ids.len(),
        ids.len() <= usize::MAX,
    ensures
        id_order(ids, n).len() == n,
        forall|i: int| 0 <= i < n ==> (#[trigger] id_order(ids, n)[i]) < n,
        forall|i: int, j: int|
            0 <= i < j < n ==> #[trigger] id_order(ids, n)[i] != #[trigger] id_order(ids, n)[j],
    decreases n,
{
    if n > 0 {
        let before = id_order(ids, (n - 1) as nat);
        let now = id_order(ids, n);
        lemma_id_order_places(ids, (n - 1) as nat);
        law_nodes_alphabetic(ids, (n - 1) as nat);
        lemma_id_slot_splits(picked(ids, before), ids[n - 1]);
        let k = id_slot(picked(ids, before), ids[n - 1]);
        assert forall|i: int| 0 <= i < n implies (#[trigger] now[i]) < n by {
            if i != k {
                assert(now[i] == before[if i < k { i } else { i - 1 }]);
            }
        }
        assert forall|i: int, j: int| 0 <= i < j < n implies #[trigger] now[i] != #[trigger] now[j] by {
            let a = if i < k { i } else { i - 1 };
            let b = if j < k { j } else { j - 1 };
            if i != k {
                assert(now[i] == before[a]);
            }
            if j != k {
                assert(now[j] == before[b]);
            }
        }
    }
}

proof fn lemma_total_insert(shares: Seq<usize>, k: int, v: usize)
    requires
        0 <= k <= shares.len(),
    ensures
        total(shares.insert(k, v)) == total(shares) + v,
    decreases shares.len(),
{
    let now = shares.insert(k, v);
    if k == shares.len() {
        assert(now.drop_last() =~= shares);
    } else {
        lemma_total_insert(shares.drop_last(), k, v);
        assert(now.drop_last() =~= shares.drop_last().insert(k, v));
    }
}

/// Putting shares in the order of names does not change what they add up to.
proof fn lemma_total_picked(shares: Seq<usize>, ids: Seq<Text>, n: nat)
    requires
        n <= ids.len(),
        ids.len() == shares.len(),
        ids.len() <= usize::MAX,
    ensures
        total(picked(shares, id_order(ids, n))) == total(shares.take(n as int)),
    decreases n,
{
    if n == 0 {
        assert(picked(shares, id_order(ids, 0)) =~= Seq::<usize>::empty());
        assert(shares.take(0) =~= Seq::<usize>::empty());
    } else {
        let before = id_order(ids, (n - 1) as nat);
        lemma_total_picked(shares, ids, (n - 1) as nat);
        law_nodes_alphabetic(ids, (n - 1) as nat);
        lemma_id_slot_splits(picked(ids, before), ids[n - 1]);
        let k = id_slot(picked(ids, before), ids[n - 1]);
        assert(picked(shares, id_order(ids, n)) =~= picked(shares, before).insert(k, shares[n - 1]));
        lemma_total_insert(picked(shares, before), k, shares[n - 1]);
        assert(shares.take(n as int).drop_last() =~= shares.take(n - 1));
    }
}

/// Machines of different names, put in order, have rising names.
proof fn lemma_order_ascending(ids: Seq<Text>)
    requires
        ids.len() <= usize::MAX,
        ids.no_duplicates(),
    ensures
        ascending(picked(ids, id_order(ids, ids.len()))),
{
    let order = id_order(ids, ids.len());
    let sorted = picked(ids, order);
    law_nodes_alphabetic(ids, ids.len());
    lemma_id_order_places(ids, ids.len());
    assert forall|i: int, j: int| 0 <= i < j < sorted.len() implies precedes(
        #[trigger] sorted[i],
        #[trigger] sorted[j],
    ) by {
        assert(order[i] != order[j]);
        assert(!precedes(sorted[j], sorted[i]));
        lemma_precedes_total(sorted[i], sorted[j]);
    }
}

/// The machines of the ranges are those that the names list, in their order.
proof fn lemma_ranges_ascending(n_layers: int, ids: Seq<Text>, counts: Seq<usize>, i: nat)
    requires
        i <= ids.len(),
        ascending(ids),
    ensures
        ascending(machines(ranges(n_layers, ids, counts, i))),
        forall|a: int|
            0 <= a < ranges(n_layers, ids, counts, i).len() ==> ids.take(i as int).contains(
                (#[trigger] ranges(n_layers, ids, counts, i)[a]).node_id,
            ),
    decreases i,
{
    if i > 0 {
        lemma_ranges_ascending(n_layers, ids, counts, (i - 1) as nat);
        let before = ranges(n_layers, ids, counts, (i - 1) as nat);
        let now = ranges(n_layers, ids, counts, i);
        let front = ids.take(i - 1);
        let all = ids.take(i as int);
        assert forall|a: int| 0 <= a < now.len() implies all.contains((#[trigger] now[a]).node_id) by {
            if a < before.len() {
                assert(front.contains(before[a].node_id));
                let k = choose|k: int| 0 <= k < front.len() && front[k] == before[a].node_id;
                assert(all[k] == now[a].node_id);
            } else {
                assert(all[i - 1] == now[a].node_id);
            }
        }
        let names = machines(now);
        assert forall|a: int, b: int| 0 <= a < b < names.len() implies precedes(
            #[trigger] names[a],
            #[trigger] names[b],
        ) by {
            assert(machines(before)[a] == names[a]);
            if b < before.len() {
                assert(machines(before)[b] == names[b]);
            } else {
                assert(front.contains(before[a].node_id));
                let k = choose|k: int| 0 <= k < front.len() && front[k] == before[a].node_id;
                assert(precedes(ids[k], ids[i - 1]));
            }
        }
    }
}

/// Assigns a model's layers to machines that are listed in any order, each with
/// its speed and with the whole layers that are its share of the model. The
/// ranges follow the machines' names.
pub fn assign_layers(n_layers: usize, ids: &[String], gflops: &[u64], shares: &[usize]) -> (out: Vec<
    ClusterPartition,
>)
    requires
        ids@.len() == gflops@.len(),
        ids@.len() == shares@.len(),
        total(shares@) <= usize::MAX,
    ensures
        laid_out(out@) == assignment(
            n_layers as int,
            picked(texts(ids@), id_order(texts(ids@), ids@.len())),
            picked(gflops@, id_order(texts(ids@), ids@.len())),
            picked(shares@, id_order(texts(ids@), ids@.len())),
        ),
        texts(ids@).no_duplicates() ==> ascending(machines(laid_out(out@))),
{
    let order = order_nodes(ids);
    let mut named: Vec<String> = Vec::new();
    let mut speeds: Vec<u64> = Vec::new();
    let mut parts: Vec<usize> = Vec::new();
    let mut i: usize = 0;
    while i < order.len()
        invariant
            i <= order@.len(),
            ids@.len() == gflops@.len(),
            ids@.len() == shares@.len(),
            forall|k: int| 0 <= k < order@.len() ==> (#[trigger] order@[k]) < ids@.len(),
            texts(named@) == picked(texts(ids@), order@).take(i as int),
            speeds@ == picked(gflops@, order@).take(i as int),
            parts@ == picked(shares@, order@).take(i as int),
        decreases order@.len() - i,
    {
        let at = order[i];
        let ghost before = named@;
        named.push(ids[at].clone());
        speeds.push(gflops[at]);
        parts.push(shares[at]);
        proof {
            assert(texts(named@) =~= texts(before).push(ids@[at as int]@));
            let t = picked(texts(ids@), order@);
            assert(t.take(i + 1) =~= t.take(i as int).push(t[i as int]));
            let g = picked(gflops@, order@);
            assert(g.take(i + 1) =~= g.take(i as int).push(g[i as int]));
            let s = picked(shares@, order@);
            assert(s.take(i + 1) =~= s.take(i as int).push(s[i as int]));
        }
        i += 1;
    }
    proof {
        let t = picked(texts(ids@), order@);
        assert(t.take(i as int) =~= t);
        assert(speeds@ =~= picked(gflops@, order@));
        assert(parts@ =~= picked(shares@, order@));
        assert(texts(named@).len() == named@.len());
        lemma_total_picked(shares@, texts(ids@), ids@.len());
        assert(shares@.take(ids@.len() as int) =~= shares@);
        if texts(ids@).no_duplicates() {
            lemma_order_ascending(texts(ids@));
            if ids@.len() > 0 {
                lemma_ranges_ascending(
                    n_layers as int,
                    t,
                    allotted(n_layers as int, speeds@, parts@),
                    t.len(),
                );
            }
        }
    }
    partition_model(n_layers, &named, &speeds, &parts)
}

/// In the order of speeds every machine stands once.
pub proof fn law_speed_order_is_complete(gflops: Seq<u64>, n: nat)
    requires
        n <= gflops.len(),
        gflops.len() <= usize::MAX,
    ensures
        speed_order(gflops, n).len() == n,
        speed_order(gflops, n).no_duplicates(),
        forall|i: int|
            0 <= i < n ==> #[trigger] speed_order(gflops, n).contains(i as usize),
    decreases n,
{
    lemma_speed_order_within(gflops, n);
    if n > 0 {
        let before = speed_order(gflops, (n - 1) as nat);
        let now = speed_order(gflops, n);
        let speed = gflops[n - 1];
        let k = speed_slot(gflops, before, speed);
        law_speed_order_is_complete(gflops, (n - 1) as nat);
        lemma_speed_order_within(gflops, (n - 1) as nat);
        lemma_speed_slot_bounds(gflops, before, speed);
        assert(now[k] == (n - 1) as usize);
        assert forall|i: int, j: int| 0 <= i < j < now.len() implies now[i] != now[j] by {
            let a = if i < k {
                i
            } else {
                i - 1
            };
            let b = if j < k {
                j
            } else {
                j - 1
            };
            if i != k {
                assert(now[i] == before[a]);
            }
            if j != k {
                assert(now[j] == before[b]);
            }
        }
        assert forall|i: int| 0 <= i < n implies #[trigger] now.contains(i as usize) by {
            if i < n - 1 {
                assert(before.contains(i as usize));
                let p = before.index_of(i as usize);
                if p < k {
                    assert(now[p] == i as usize);
                } else {
                    assert(now[p + 1] == i as usize);
                }
            }
        }
    }
}

proof fn lemma_dealt_once(shares: Seq<usize>, order: Seq<usize>, left: int, p: nat, q: int)
    requires
        left >= 0,
        order.len() > 0,
        p <= order.len(),
        order.len() == shares.len(),
        order.no_duplicates(),
        forall|k: int| 0 <= k < order.len() ==> (#[trigger] order[k]) < shares.len(),
        total(shares) + left <= usize::MAX,
        0 <= q < order.len(),
    ensures
        with_dealt(shares, order, left, p)[order[q] as int] == shares[order[q] as int] + (if q < p {
            dealt(left, order.len() as int, q)
        } else {
            0
        }),
    decreases p,
{
    if p > 0 {
        let m = (p - 1) as nat;
        lemma_dealt_once(shares, order, left, m, q);
        lemma_dealt_once(shares, order, left, m, m as int);
        lemma_with_dealt(shares, order, left, m);
        assert(dealt(left, order.len() as int, m as int) >= 0) by {
            assert(left / order.len() as int >= 0) by (nonlinear_arith)
                requires
                    left >= 0,
                    order.len() > 0,
            ;
        }
        if q != m {
            assert(order[q] != order[m as int]);
        }
    }
}

/// A machine's layers are its share and what is dealt to it of what the shares
/// leave over: the whole part for everybody, and one more for as many of the
/// fastest as are left.
pub proof fn law_machines_get_their_share(
    n_layers: int,
    gflops: Seq<u64>,
    shares: Seq<usize>,
    p: int,
)
    requires
        0 <= n_layers <= usize::MAX,
        gflops.len() == shares.len(),
        gflops.len() <= usize::MAX,
        total(shares) <= n_layers,
        0 <= p < gflops.len(),
    ensures
        ({
            let i = speed_order(gflops, gflops.len())[p] as int;
            let left = n_layers - total(shares);
            let n = gflops.len() as int;
            allotted(n_layers, gflops, shares)[i] == shares[i] + left / n + (if p < left % n {
                1int
            } else {
                0
            })
        }),
{
    let order = speed_order(gflops, gflops.len());
    law_speed_order_is_complete(gflops, gflops.len());
    lemma_speed_order_within(gflops, gflops.len());
    lemma_dealt_once(shares, order, left_over(n_layers, shares), order.len(), p);
}

proof fn lemma_range_of(n_layers: int, ids: Seq<Text>, counts: Seq<usize>, n: nat, i: int)
    requires
        0 <= i < n <= ids.len(),
        ids.len() == counts.len(),
        0 <= n_layers <= usize::MAX,
        total(counts) <= n_layers,
        counts[i] > 0,
    ensures
        ranges(n_layers, ids, counts, n).contains(
            ClusterPartition {
                node_id: ids[i],
                start_layer: total(counts.take(i)) as usize,
                end_layer: total(counts.take(i + 1)) as usize,
            },
        ),
        total(counts.take(i + 1)) == total(counts.take(i)) + counts[i],
    decreases n,
{
    let own = ClusterPartition {
        node_id: ids[i],
        start_layer: total(counts.take(i)) as usize,
        end_layer: total(counts.take(i + 1)) as usize,
    };
    let now = ranges(n_layers, ids, counts, n);
    let before = ranges(n_layers, ids, counts, (n - 1) as nat);
    lemma_reached_is_total(n_layers, counts, n);
    lemma_reached_is_total(n_layers, counts, (n - 1) as nat);
    lemma_total_prefix(counts, i + 1);
    lemma_total_prefix(counts, i);
    assert(counts.take(i + 1).drop_last() =~= counts.take(i));
    if i == n - 1 {
        assert(now[before.len() as int] == own);
    } else {
        lemma_range_of(n_layers, ids, counts, (n - 1) as nat, i);
        let k = before.index_of(own);
        assert(now[k] == own);
    }
}

/// A machine that gets layers runs just as many as it gets, under its own
/// name, and they follow those of all the machines before it.
pub proof fn law_machines_run_their_layers(
    n_layers: int,
    ids: Seq<Text>,
    gflops: Seq<u64>,
    shares: Seq<usize>,
    i: int,
)
    requires
        0 < n_layers <= usize::MAX,
        ids.len() == gflops.len(),
        ids.len() == shares.len(),
        ids.len() <= usize::MAX,
        total(shares) <= n_layers,
        0 <= i < ids.len(),
        allotted(n_layers, gflops, shares)[i] > 0,
    ensures
        ({
            let counts = allotted(n_layers, gflops, shares);
            let start = total(counts.take(i));
            assignment(n_layers, ids, gflops, shares).contains(
                ClusterPartition {
                    node_id: ids[i],
                    start_layer: start as usize,
                    end_layer: (start + counts[i]) as usize,
                },
            )
        }),
{
    let order = speed_order(gflops, gflops.len());
    lemma_speed_order_within(gflops, gflops.len());
    lemma_with_dealt(shares, order, left_over(n_layers, shares), order.len());
    let counts = allotted(n_layers, gflops, shares);
    assert(total(counts) == n_layers);
    lemma_range_of(n_layers, ids, counts, ids.len(), i);
}

/// Without machines the whole model runs here.
pub proof fn law_alone(n_layers: int, gflops: Seq<u64>, shares: Seq<usize>)
    ensures
        assignment(n_layers, seq![], gflops, shares) == seq![
            ClusterPartition {
                node_id: "local"@,
                start_layer: 0usize,
                end_layer: n_layers as usize,
            },
        ],
{
}

/// Texts are ordered by the first character in which they differ; one that
/// only goes on behind another comes after it.
pub proof fn law_text_order(front: Text, c: char, x: Text, d: char, y: Text)
    ensures
        c < d ==> precedes(front.push(c) + x, front.push(d) + y) && !precedes(
            front.push(d) + y,
            front.push(c) + x,
        ),
        precedes(front, front.push(c) + x),
        !precedes(front.push(c) + x, front),
        !precedes(front, front),
    decreases front.len(),
{
    let (a, b) = (front.push(c) + x, front.push(d) + y);
    if front.len() > 0 {
        let rest = front.skip(1);
        law_text_order(rest, c, x, d, y);
        assert(a.skip(1) =~= rest.push(c) + x);
        assert(b.skip(1) =~= rest.push(d) + y);
        assert(a[0] == front[0] && b[0] == front[0]);
    } else {
        assert(a[0] == c && b[0] == d);
    }
}

} // verus!
