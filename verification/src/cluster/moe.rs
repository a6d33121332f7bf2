//! Routing tokens to experts.
use vstd::prelude::*;
use crate::floats::{
    above, is_above, law_above_is_greater, law_total_order_agrees, nan, total_rank, total_rank_of, value,
};

verus! {

/// Routes each token to the experts with the greatest gates.
#[derive(Debug, Clone, Copy, PartialEq, Eq, Structural)]
pub struct ExpertRouter {
    pub num_experts: usize,
    pub top_k: usize,
}

/// The tokens of one expert, with the bits of the weight of each.
#[derive(Debug, Clone)]
pub struct RoutedTokens<L = Vec<usize>, W = Vec<u32>> {
    pub expert_id: usize,
    pub token_indices: L,
    pub weights: W,
}

impl View for RoutedTokens {
    type V = RoutedTokens<Seq<usize>, Seq<u32>>;

    open spec fn view(&self) -> RoutedTokens<Seq<usize>, Seq<u32>> {
        RoutedTokens {
            expert_id: self.expert_id,
            token_indices: self.token_indices@,
            weights: self.weights@,
        }
    }
}

/// Why a batch cannot be routed.
#[derive(Debug, Clone, Copy, PartialEq, Eq, Structural)]
pub enum RouteError {
    /// The batch has more gates than can be counted.
    Overflow,
    /// There are fewer gates than the batch has.
    TooShort { required: usize, given: usize },
}

/// The gates of token `t`.
pub open spec fn row(gates: Seq<u32>, experts: int, t: int) -> Seq<u32> {
    gates.subrange(t * experts, t * experts + experts)
}

/// Expert `a` is preferred to `b`: its gate is greater, or it comes first among
/// equals.
pub open spec fn preferred(g: Seq<u32>, a: int, b: int) -> bool {
    total_rank(g[a]) > total_rank(g[b]) || (total_rank(g[a]) == total_rank(g[b]) && a < b)
}

/// How many of the first `n` experts are preferred to `e`.
pub open spec fn ahead(g: Seq<u32>, e: int, n: int) -> int
    decreases n,
{
    if n <= 0 {
        0
    } else {
        ahead(g, e, n - 1) + (if preferred(g, n - 1, e) {
            1int
        } else {
            0
        })
    }
}

/// A token with gates `g` goes to expert `e`: fewer than `top_k` are preferred
/// to it, and its gate is positive.
pub open spec fn chosen(g: Seq<u32>, top_k: int, e: int) -> bool {
    ahead(g, e, g.len() as int) < top_k && above(g[e], 0)
}

/// The first tokens of a batch that go to expert `e`.
pub open spec fn tokens_of(gates: Seq<u32>, experts: int, top_k: int, e: int, t: nat) -> Seq<usize>
    decreases t,
{
    if t == 0 {
        Seq::empty()
    } else {
        let before = tokens_of(gates, experts, top_k, e, (t - 1) as nat);
        if chosen(row(gates, experts, t - 1), top_k, e) {
            before.push((t - 1) as usize)
        } else {
            before
        }
    }
}

/// The weights with which they go to it.
pub open spec fn weights_of(gates: Seq<u32>, experts: int, top_k: int, e: int, t: nat) -> Seq<u32>
    decreases t,
{
    if t == 0 {
        Seq::empty()
    } else {
        let before = weights_of(gates, experts, top_k, e, (t - 1) as nat);
        if chosen(row(gates, experts, t - 1), top_k, e) {
            before.push(row(gates, experts, t - 1)[e])
        } else {
            before
        }
    }
}

/// The tokens of the first `e` experts, without the experts that have none.
pub open spec fn routed(gates: Seq<u32>, experts: int, top_k: int, tokens: nat, e: nat) -> Seq<
    RoutedTokens<Seq<usize>, Seq<u32>>,
>
    decreases e,
{
    if e == 0 {
        Seq::empty()
    } else {
        let before = routed(gates, experts, top_k, tokens, (e - 1) as nat);
        let own = tokens_of(gates, experts, top_k, e - 1, tokens);
        if own.len() > 0 {
            before.push(
                RoutedTokens {
                    expert_id: (e - 1) as usize,
                    token_indices: own,
                    weights: weights_of(gates, experts, top_k, e - 1, tokens),
                },
            )
        } else {
            before
        }
    }
}

/// Lists without their representation.
pub open spec fn lists(v: Seq<RoutedTokens>) -> Seq<RoutedTokens<Seq<usize>, Seq<u32>>> {
    v.map_values(|r: RoutedTokens| r@)
}

impl ExpertRouter {
    pub fn new(num_experts: usize, top_k: usize) -> (r: Self)
        ensures
            r.num_experts == num_experts,
            r.top_k == top_k,
    {
        ExpertRouter { num_experts, top_k }
    }

    /// Whether there are enough gates for the batch. They come over the
    /// network: a batch that is cut short must not be read past its end.
    pub fn check(&self, given: usize, num_tokens: usize) -> (r: Result<usize, RouteError>)
        ensures
            match r {
                Ok(n) => n == num_tokens * self.num_experts && n <= given,
                Err(RouteError::Overflow) => num_tokens * self.num_experts > usize::MAX,
                Err(RouteError::TooShort { required, given: g }) => required == num_tokens
                    * self.num_experts && g == given && given < required,
            },
    {
        match num_tokens.checked_mul(self.num_experts) {
            Some(required) => if given < required {
                Err(RouteError::TooShort { required, given })
            } else {
                Ok(required)
            },
            None => Err(RouteError::Overflow),
        }
    }

    fn goes_to(&self, gates: &[u32], t: usize, e: usize) -> (b: bool)
        requires
            e < self.num_experts,
            t * self.num_experts + self.num_experts <= gates@.len(),
        ensures
            b == chosen(
                row(gates@, self.num_experts as int, t as int),
                self.top_k as int,
                e as int,
            ),
    {
        let n: usize = self.num_experts;
        let total: usize = gates.len();
        let ghost g = row(gates@, n as int, t as int);
        let start: usize = t * n;
        assert(start + n <= total);
        assert(g[e as int] == gates@[start + e]);
        let own = total_rank_of(gates[start + e]);
        let mut count: usize = 0;
        let mut a: usize = 0;
        while a < n
            invariant
                a <= n,
                e < n,
                n == self.num_experts,
                total == gates@.len(),
                start == t * n,
                start + n <= total,
                g == row(gates@, n as int, t as int),
                own == total_rank(g[e as int]),
                count == ahead(g, e as int, a as int),
                count <= a,
            decreases n - a,
        {
            assert(g[a as int] == gates@[start + a]);
            let other = total_rank_of(gates[start + a]);
            if other > own || (other == own && a < e) {
                count += 1;
            }
            a += 1;
        }
        count < self.top_k && is_above(gates[start + e], 0)
    }

    fn tokens_for(&self, gates: &[u32], num_tokens: usize, e: usize) -> (r: (Vec<usize>, Vec<u32>))
        requires
            e < self.num_experts,
            num_tokens * self.num_experts <= gates@.len(),
        ensures
            r.0@ == tokens_of(
                gates@,
                self.num_experts as int,
                self.top_k as int,
                e as int,
                num_tokens as nat,
            ),
            r.1@ == weights_of(
                gates@,
                self.num_experts as int,
                self.top_k as int,
                e as int,
                num_tokens as nat,
            ),
    {
        let total: usize = gates.len();
        let mut tokens: Vec<usize> = Vec::new();
        let mut weights: Vec<u32> = Vec::new();
        let mut t: usize = 0;
        while t < num_tokens
            invariant
                t <= num_tokens,
                e < self.num_experts,
                total == gates@.len(),
                num_tokens * self.num_experts <= total,
                tokens@ == tokens_of(
                    gates@,
                    self.num_experts as int,
                    self.top_k as int,
                    e as int,
                    t as nat,
                ),
                weights@ == weights_of(
                    gates@,
                    self.num_experts as int,
                    self.top_k as int,
                    e as int,
                    t as nat,
                ),
            decreases num_tokens - t,
        {
            let n = self.num_experts;
            assert(t * n + n <= num_tokens * n) by (nonlinear_arith)
                requires
                    t + 1 <= num_tokens,
                    n >= 0,
            ;
            assert(t * n >= 0) by (nonlinear_arith)
                requires
                    t >= 0,
                    n >= 0,
            ;
            if self.goes_to(gates, t, e) {
                assert(row(gates@, n as int, t as int)[e as int] == gates@[t * n + e]);
                tokens.push(t);
                weights.push(gates[t * n + e]);
            }
            t += 1;
        }
        (tokens, weights)
    }

    /// Routes a batch, given the gates of its tokens one behind the other:
    /// each token goes, with its gate as weight, to the `top_k` experts with
    /// the greatest gates, as far as these are positive.
    pub fn route(&self, gates: &[u32], num_tokens: usize) -> (r: Result<Vec<RoutedTokens>, RouteError>)
        ensures
            match r {
                Ok(out) => num_tokens * self.num_experts <= gates@.len() && lists(out@) == routed(
                    gates@,
                    self.num_experts as int,
                    self.top_k as int,
                    num_tokens as nat,
                    self.num_experts as nat,
                ),
                Err(RouteError::Overflow) => num_tokens * self.num_experts > usize::MAX,
                Err(RouteError::TooShort { required, given }) => required == num_tokens
                    * self.num_experts && given == gates@.len() && given < required,
            },
    {
        if let Err(e) = self.check(gates.len(), num_tokens) {
            return Err(e);
        }
        let mut out: Vec<RoutedTokens> = Vec::new();
        assert(lists(out@) =~= Seq::<RoutedTokens<Seq<usize>, Seq<u32>>>::empty());
        let mut e: usize = 0;
        while e < self.num_experts
            invariant
                e <= self.num_experts,
                num_tokens * self.num_experts <= gates@.len(),
                lists(out@) == routed(
                    gates@,
                    self.num_experts as int,
                    self.top_k as int,
                    num_tokens as nat,
                    e as nat,
                ),
            decreases self.num_experts - e,
        {
            let (token_indices, weights) = self.tokens_for(gates, num_tokens, e);
            let ghost before = out@;
            if token_indices.len() > 0 {
                let r = RoutedTokens { expert_id: e, token_indices, weights };
                out.push(r);
                assert(lists(out@) =~= lists(before).push(r@));
            }
            e += 1;
        }
        Ok(out)
    }
}

proof fn lemma_ahead_bounds(g: Seq<u32>, e: int, n: int)
    requires
        n >= 0,
    ensures
        0 <= ahead(g, e, n) <= n,
    decreases n,
{
    if n > 0 {
        lemma_ahead_bounds(g, e, n - 1);
    }
}

proof fn lemma_ahead_orders(g: Seq<u32>, a: int, b: int, n: int)
    requires
        0 <= n <= g.len(),
        0 <= a < g.len(),
        0 <= b < g.len(),
        preferred(g, a, b),
    ensures
        ahead(g, a, n) <= ahead(g, b, n),
        a < n ==> ahead(g, a, n) < ahead(g, b, n),
    decreases n,
{
    if n > 0 {
        lemma_ahead_orders(g, a, b, n - 1);
    }
}

/// No two experts stand at the same place of a token's preferences.
proof fn lemma_places_differ(g: Seq<u32>, a: int, b: int)
    requires
        0 <= a < g.len(),
        0 <= b < g.len(),
        a != b,
    ensures
        ahead(g, a, g.len() as int) != ahead(g, b, g.len() as int),
{
    let n = g.len() as int;
    if preferred(g, a, b) {
        lemma_ahead_orders(g, a, b, n);
    } else {
        lemma_ahead_orders(g, b, a, n);
    }
}

/// Experts that a token goes to.
pub open spec fn experts_of(g: Seq<u32>, top_k: int) -> Set<int> {
    Set::new(|e: int| 0 <= e < g.len() && chosen(g, top_k, e))
}

/// A token goes to at most `top_k` experts.
pub proof fn law_at_most_top_k(g: Seq<u32>, top_k: nat)
    ensures
        experts_of(g, top_k as int).finite(),
        experts_of(g, top_k as int).len() <= top_k,
{
    let s = experts_of(g, top_k as int);
    let places = vstd::set_lib::set_int_range(0, top_k as int);
    let f = |e: int| ahead(g, e, g.len() as int);
    vstd::set_lib::lemma_int_range(0, g.len() as int);
    vstd::set_lib::lemma_int_range(0, top_k as int);
    assert(s.subset_of(vstd::set_lib::set_int_range(0, g.len() as int)));
    vstd::set_lib::lemma_len_subset(s, vstd::set_lib::set_int_range(0, g.len() as int));
    assert forall|e: int| #[trigger] s.contains(e) implies places.contains(f(e)) by {
        lemma_ahead_bounds(g, e, g.len() as int);
    }
    let image = s.map(f);
    assert(vstd::relations::injective_on(f, s)) by {
        assert forall|a: int, b: int|
            s.contains(a) && s.contains(b) && #[trigger] f(a) == #[trigger] f(b) implies a == b by {
            if a != b {
                lemma_places_differ(g, a, b);
            }
        }
    }
    vstd::set_lib::lemma_map_size(s, image, f);
    assert(image.subset_of(places));
    vstd::set_lib::lemma_len_subset(image, places);
}

/// Where all gates are positive numbers, a token goes to `top_k` experts, or to
/// all where there are no more.
pub proof fn law_exactly_top_k(g: Seq<u32>, top_k: nat)
    requires
        forall|e: int| 0 <= e < g.len() ==> above(#[trigger] g[e], 0),
    ensures
        experts_of(g, top_k as int).finite(),
        experts_of(g, top_k as int).len() == if top_k < g.len() {
            top_k
        } else {
            g.len()
        },
{
    let n = g.len() as int;
    let k = top_k as int;
    let all = vstd::set_lib::set_int_range(0, n);
    let s = experts_of(g, k);
    vstd::set_lib::lemma_int_range(0, n);
    law_at_most_top_k(g, top_k);
    if k >= n {
        assert forall|e: int| all.contains(e) implies s.contains(e) by {
            lemma_ahead_bounds(g, e, n);
            lemma_not_ahead_of_itself(g, e, n);
            assert(above(g[e], 0));
        }
        assert(s =~= all);
    } else {
        let rest = all.difference(s);
        let places = vstd::set_lib::set_int_range(k, n);
        let f = |e: int| ahead(g, e, n);
        vstd::set_lib::lemma_int_range(k, n);
        assert forall|e: int| #[trigger] rest.contains(e) implies places.contains(f(e)) by {
            lemma_ahead_bounds(g, e, n);
            lemma_not_ahead_of_itself(g, e, n);
            assert(above(g[e], 0));
        }
        let image = rest.map(f);
        assert(vstd::relations::injective_on(f, rest)) by {
            assert forall|a: int, b: int|
                rest.contains(a) && rest.contains(b) && #[trigger] f(a) == #[trigger] f(
                    b,
                ) implies a == b by {
                if a != b {
                    lemma_places_differ(g, a, b);
                }
            }
        }
        vstd::set_lib::lemma_map_size(rest, image, f);
        assert(image.subset_of(places));
        vstd::set_lib::lemma_len_subset(image, places);
        assert(all =~= s.union(rest));
        assert(s.disjoint(rest));
        vstd::set_lib::lemma_set_disjoint_lens(s, rest);
    }
}

/// No expert is preferred to itself, so not all are.
proof fn lemma_not_ahead_of_itself(g: Seq<u32>, e: int, n: int)
    requires
        0 <= e < n <= g.len(),
    ensures
        ahead(g, e, n) < n,
    decreases n,
{
    if e < n - 1 {
        lemma_not_ahead_of_itself(g, e, n - 1);
    } else {
        lemma_ahead_bounds(g, e, n - 1);
    }
}

/// A greater gate is preferred, and of equal ones that of the first expert.
pub proof fn law_preference(g: Seq<u32>, a: int, b: int)
    requires
        0 <= a < g.len(),
        0 <= b < g.len(),
    ensures
        !nan(g[a]) && !nan(g[b]) && value(g[a]) > value(g[b]) ==> preferred(g, a, b),
        g[a] == g[b] ==> (preferred(g, a, b) <==> a < b),
        preferred(g, a, b) ==> !preferred(g, b, a),
{
    law_above_is_greater(g[a], g[b]);
    law_total_order_agrees(g[a], g[b]);
}

/// An expert is given the tokens that chose it and no others, each once, in
/// their order, and each with its own gate for that expert.
pub proof fn law_tokens_and_weights(gates: Seq<u32>, experts: int, top_k: int, e: int, t: nat)
    requires
        0 <= e < experts,
        t <= usize::MAX,
        t * experts <= gates.len(),
    ensures
        ({
            let tokens = tokens_of(gates, experts, top_k, e, t);
            let weights = weights_of(gates, experts, top_k, e, t);
            &&& tokens.len() == weights.len()
            &&& forall|k: int|
                0 <= k < tokens.len() ==> (#[trigger] tokens[k]) < t && chosen(
                    gates.subrange(tokens[k] * experts, tokens[k] * experts + experts),
                    top_k,
                    e,
                ) && weights[k] == gates[tokens[k] * experts + e]
            &&& forall|i: int, j: int|
                0 <= i < j < tokens.len() ==> #[trigger] tokens[i] < #[trigger] tokens[j]
            &&& forall|u: int|
                0 <= u < t && chosen(#[trigger] row(gates, experts, u), top_k, e)
                    ==> tokens.contains(u as usize)
        }),
    decreases t,
{
    if t > 0 {
        let u = t - 1;
        assert(u * experts + experts == t * experts) by (nonlinear_arith)
            requires
                u == t - 1,
        ;
        assert(u * experts >= 0) by (nonlinear_arith)
            requires
                u >= 0,
                experts >= 0,
        ;
        law_tokens_and_weights(gates, experts, top_k, e, (t - 1) as nat);
        let before = tokens_of(gates, experts, top_k, e, (t - 1) as nat);
        let tokens = tokens_of(gates, experts, top_k, e, t);
        assert forall|x: int|
            0 <= x < t && chosen(#[trigger] row(gates, experts, x), top_k, e) implies tokens.contains(
            x as usize,
        ) by {
            if x < t - 1 {
                assert(before.contains(x as usize));
                let k = before.index_of(x as usize);
                assert(tokens[k] == x as usize);
            } else {
                assert(tokens[before.len() as int] == x as usize);
            }
        }
    }
}

/// A batch's routing lists every expert that some token chose, with its tokens
/// and weights, and no expert twice or without tokens.
pub proof fn law_routing(gates: Seq<u32>, experts: int, top_k: int, tokens: nat, e: nat)
    requires
        e <= usize::MAX,
    ensures
        ({
            let all = routed(gates, experts, top_k, tokens, e);
            &&& forall|k: int|
                0 <= k < all.len() ==> {
                    let r = #[trigger] all[k];
                    &&& r.expert_id < e
                    &&& r.token_indices.len() > 0
                    &&& r.token_indices == tokens_of(
                        gates,
                        experts,
                        top_k,
                        r.expert_id as int,
                        tokens,
                    )
                    &&& r.weights == weights_of(gates, experts, top_k, r.expert_id as int, tokens)
                }
            &&& forall|i: int, j: int|
                0 <= i < j < all.len() ==> (#[trigger] all[i]).expert_id < (#[trigger] all[j]).expert_id
            &&& forall|x: int|
                0 <= x < e && (#[trigger] tokens_of(gates, experts, top_k, x, tokens)).len() > 0
                    ==> exists|k: int| 0 <= k < all.len() && (#[trigger] all[k]).expert_id == x
        }),
    decreases e,
{
    if e > 0 {
        law_routing(gates, experts, top_k, tokens, (e - 1) as nat);
        let before = routed(gates, experts, top_k, tokens, (e - 1) as nat);
        let all = routed(gates, experts, top_k, tokens, e);
        assert forall|x: int|
            0 <= x < e && (#[trigger] tokens_of(gates, experts, top_k, x, tokens)).len()
                > 0 implies exists|k: int| 0 <= k < all.len() && (#[trigger] all[k]).expert_id == x by {
            if x < e - 1 {
                let k = choose|k: int|
                    0 <= k < before.len() && (#[trigger] before[k]).expert_id == x;
                assert(all[k].expert_id == x);
            } else {
                assert(all[before.len() as int].expert_id == x);
            }
        }
    }
}

/// The experts that a token goes to are its best ones: one that is preferred to
/// a chosen one is chosen too, if its gate is positive; and no gate that is not
/// positive is ever chosen.
pub proof fn law_best_are_chosen(g: Seq<u32>, top_k: int, a: int, b: int)
    requires
        0 <= a < g.len(),
        0 <= b < g.len(),
    ensures
        chosen(g, top_k, b) ==> !nan(g[b]) && value(g[b]) > 0,
        chosen(g, top_k, b) && preferred(g, a, b) && !nan(g[a]) && value(g[a]) > 0 ==> chosen(
            g,
            top_k,
            a,
        ),
{
    law_above_is_greater(g[a], 0);
    law_above_is_greater(g[b], 0);
    assert(value(0) == 0);
    if preferred(g, a, b) {
        lemma_ahead_orders(g, a, b, g.len() as int);
    }
}

} // verus!
