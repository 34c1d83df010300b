//! The Mallows preference model: rankings sampled at varying Kendall
//! tau distances from a central reference ranking.

use vstd::prelude::*;
use rand::rngs::StdRng;
use crate::ballot::{ids_distinct, Id, Ordinal};
use crate::candidate::Candidate;
use crate::outcome::has_candidate;
use crate::preference::Preference;
use crate::tally::position_by_id;
use crate::ranking::lemma_distinct_cover;
use crate::rng::{
    lemma_sum_weights_bounded, lemma_sum_weights_positive, rng_between, weighted_choice_new,
    weighted_choice_sample,
};

verus! {

/// The factorial.
pub open spec fn fact(n: nat) -> nat
    decreases n,
{
    if n == 0 {
        1
    } else {
        n * fact((n - 1) as nat)
    }
}

/// The number of permutations of `n` items with exactly `d` inversions.
/// There is no permutation of nothing, one permutation with no
/// inversion, and otherwise one for every way the first item can
/// contribute between zero and `n - 1` inversions.
pub open spec fn inv_count(n: nat, d: nat) -> nat
    decreases n, 1int, 0int,
{
    if n == 0 {
        0
    } else if d == 0 {
        1
    } else {
        inv_count_sum(n, d, if d < n - 1 {
            d
        } else {
            (n - 1) as nat
        })
    }
}

/// The partial sum `inv_count(n - 1, d) + ... + inv_count(n - 1, d - i)`.
pub open spec fn inv_count_sum(n: nat, d: nat, i: nat) -> nat
    recommends
        n >= 1,
        i <= d,
    decreases n, 0int, i as int,
{
    if n == 0 {
        0
    } else if i == 0 {
        inv_count((n - 1) as nat, d)
    } else {
        inv_count_sum(n, d, (i - 1) as nat) + inv_count((n - 1) as nat, (d - i) as nat)
    }
}

/// The partial sums are bounded by a factorial's worth of terms.
proof fn lemma_inv_count_sum_le(n: nat, d: nat, i: nat)
    requires
        n >= 1,
    ensures
        inv_count_sum(n, d, i) <= (i + 1) * fact((n - 1) as nat),
    decreases n, 0int, i as int,
{
    if i == 0 {
        lemma_inv_count_le_fact((n - 1) as nat, d);
        assert((0 + 1) * fact((n - 1) as nat) == fact((n - 1) as nat)) by (nonlinear_arith);
    } else {
        lemma_inv_count_sum_le(n, d, (i - 1) as nat);
        lemma_inv_count_le_fact((n - 1) as nat, (d - i) as nat);
        assert(i * fact((n - 1) as nat) + fact((n - 1) as nat) == (i + 1) * fact(
            (n - 1) as nat,
        )) by (nonlinear_arith);
    }
}

/// There are at most `n!` permutations of `n` items at any distance.
pub proof fn lemma_inv_count_le_fact(n: nat, d: nat)
    ensures
        inv_count(n, d) <= fact(n),
    decreases n, 1int, 0int,
{
    if n == 0 || d == 0 {
        assert(fact(n) >= 1) by {
            lemma_fact_positive(n);
        }
    } else {
        let i = if d < n - 1 {
            d
        } else {
            (n - 1) as nat
        };
        lemma_inv_count_sum_le(n, d, i);
        lemma_fact_positive((n - 1) as nat);
        assert((i + 1) * fact((n - 1) as nat) <= n * fact((n - 1) as nat)) by (nonlinear_arith)
            requires
                i + 1 <= n,
                fact((n - 1) as nat) >= 0,
        ;
    }
}

/// Factorials are positive.
proof fn lemma_fact_positive(n: nat)
    ensures
        fact(n) >= 1,
    decreases n,
{
    if n > 0 {
        lemma_fact_positive((n - 1) as nat);
        assert(n * fact((n - 1) as nat) >= 1) by (nonlinear_arith)
            requires
                n >= 1,
                fact((n - 1) as nat) >= 1,
        ;
    }
}

/// The factorial of twenty, by unfolding one step at a time.
proof fn lemma_fact_twenty()
    ensures
        fact(20) == 2432902008176640000,
{
    assert(fact(0) == 1);
    assert(fact(1) == 1);
    assert(fact(2) == 2);
    assert(fact(3) == 6);
    assert(fact(4) == 24);
    assert(fact(5) == 120);
    assert(fact(6) == 720);
    assert(fact(7) == 5040);
    assert(fact(8) == 40320);
    assert(fact(9) == 362880);
    assert(fact(10) == 3628800);
    assert(fact(11) == 39916800);
    assert(fact(12) == 479001600);
    assert(fact(13) == 6227020800);
    assert(fact(14) == 87178291200);
    assert(fact(15) == 1307674368000);
    assert(fact(16) == 20922789888000);
    assert(fact(17) == 355687428096000);
    assert(fact(18) == 6402373705728000);
    assert(fact(19) == 121645100408832000);
    assert(fact(20) == 2432902008176640000);
}

/// The number-of-permutations table for all sizes up to `n` and all
/// distances up to `max_d`, computed bottom-up. Sizes up to twenty keep
/// every entry within 64 bits.
#[verifier::loop_isolation(false)]
fn inversion_table(n: usize, max_d: usize) -> (t: Vec<Vec<u64>>)
    requires
        n <= 20,
        max_d <= 190,
    ensures
        t@.len() == n + 1,
        forall|r: int| 0 <= r <= n ==> (#[trigger] t@[r])@.len() == max_d + 1,
        forall|r: int, d: int|
            0 <= r <= n && 0 <= d <= max_d ==> (#[trigger] t@[r]@[d]) as nat == inv_count(
                r as nat,
                d as nat,
            ),
{
    proof {
        lemma_fact_twenty();
    }
    let mut t: Vec<Vec<u64>> = Vec::new();
    let mut r: usize = 0;
    while r <= n
        invariant
            r <= n + 1,
            t@.len() == r,
            forall|q: int| 0 <= q < r ==> (#[trigger] t@[q])@.len() == max_d + 1,
            forall|q: int, d: int|
                0 <= q < r && 0 <= d <= max_d ==> (#[trigger] t@[q]@[d]) as nat == inv_count(
                    q as nat,
                    d as nat,
                ),
        decreases n + 1 - r,
    {
        let mut row: Vec<u64> = Vec::new();
        let mut d: usize = 0;
        while d <= max_d
            invariant
                d <= max_d + 1,
                row@.len() == d,
                forall|e: int| 0 <= e < d ==> (#[trigger] row@[e]) as nat == inv_count(
                    r as nat,
                    e as nat,
                ),
            decreases max_d + 1 - d,
        {
            if r == 0 {
                row.push(0);
            } else if d == 0 {
                row.push(1);
            } else {
                let top = if d < r - 1 {
                    d
                } else {
                    r - 1
                };
                let mut acc: u64 = 0;
                let mut i: usize = 0;
                proof {
                    lemma_fact_monotonic(r as nat, 20);
                    assert(inv_count(r as nat, d as nat) == inv_count_sum(
                        r as nat,
                        d as nat,
                        top as nat,
                    ));
                    lemma_inv_count_le_fact(r as nat, d as nat);
                }
                while i <= top
                    invariant
                        i <= top + 1,
                        top <= d,
                        top < r,
                        i == 0 ==> acc == 0,
                        i > 0 ==> acc as nat == inv_count_sum(r as nat, d as nat, (i - 1) as nat),
                    decreases top + 1 - i,
                {
                    proof {
                        lemma_inv_count_sum_mono(r as nat, d as nat, i as nat, top as nat);
                        if i > 0 {
                            lemma_inv_count_sum_nondecreasing(r as nat, d as nat, i as nat);
                        }
                    }
                    acc = acc + t[r - 1][d - i];
                    i = i + 1;
                }
                row.push(acc);
            }
            d = d + 1;
        }
        t.push(row);
        r = r + 1;
    }
    t
}

/// The partial sums only grow.
proof fn lemma_inv_count_sum_nondecreasing(n: nat, d: nat, i: nat)
    requires
        n >= 1,
        i >= 1,
    ensures
        inv_count_sum(n, d, (i - 1) as nat) <= inv_count_sum(n, d, i),
{
}

/// The partial sums grow towards the full sum.
proof fn lemma_inv_count_sum_mono(n: nat, d: nat, i: nat, j: nat)
    requires
        n >= 1,
        i <= j,
    ensures
        inv_count_sum(n, d, i) <= inv_count_sum(n, d, j),
    decreases j - i,
{
    if i < j {
        lemma_inv_count_sum_mono(n, d, i, (j - 1) as nat);
        lemma_inv_count_sum_nondecreasing(n, d, j);
    }
}

/// Factorials only grow.
proof fn lemma_fact_monotonic(a: nat, b: nat)
    requires
        a <= b,
    ensures
        fact(a) <= fact(b),
    decreases b,
{
    if a < b {
        lemma_fact_monotonic(a, (b - 1) as nat);
        lemma_fact_positive((b - 1) as nat);
        assert(fact((b - 1) as nat) <= b * fact((b - 1) as nat)) by (nonlinear_arith)
            requires
                b >= 1,
                fact((b - 1) as nat) >= 0,
        ;
    }
}

/// The total number of inversions a decomposition vector allocates.
pub open spec fn lehmer_sum(v: Seq<usize>) -> nat
    decreases v.len(),
{
    if v.len() == 0 {
        0
    } else {
        lehmer_sum(v.drop_last()) + v.last() as nat
    }
}

/// Sample a decomposition vector that allocates exactly `k` inversions:
/// entry `i` holds the inversions contributed at position `i`, drawn
/// uniformly within the range that guarantees the remaining positions
/// can absorb the rest.
#[verifier::loop_isolation(false)]
fn sample_decomposition_vector(n: usize, k: usize, rng: &mut StdRng) -> (v: Vec<usize>)
    requires
        n <= 20,
        k <= n * (n - 1) / 2,
    ensures
        v@.len() == n,
        forall|i: int| 0 <= i < n ==> (#[trigger] v@[i]) + i < n,
        lehmer_sum(v@) == k,
{
    let mut v: Vec<usize> = Vec::new();
    let mut inv_left: usize = k;
    let mut i: usize = 0;
    while i < n
        invariant
            i <= n,
            v@.len() == i,
            forall|j: int| 0 <= j < i ==> (#[trigger] v@[j]) + j < n,
            lehmer_sum(v@) + inv_left == k,
            i < n ==> inv_left <= (n - i) * (n - i - 1) / 2,
            i == n ==> inv_left == 0,
        decreases n - i,
    {
        let slots_left = n - i - 1;
        proof {
            assert(slots_left * (slots_left - 1) <= 380) by (nonlinear_arith)
                requires
                    slots_left <= 20,
            ;
        }
        let cap = if slots_left > 0 {
            slots_left * (slots_left - 1) / 2
        } else {
            0
        };
        let min_value = if inv_left > cap {
            inv_left - cap
        } else {
            0
        };
        let max_value = if slots_left < inv_left {
            slots_left
        } else {
            inv_left
        };
        proof {
            assert((n - i) * (n - i - 1) / 2 == slots_left * (slots_left + 1) / 2)
                by (nonlinear_arith)
                requires
                    i < n,
                    slots_left == n - i - 1,
            ;
            if slots_left > 0 {
                assert(slots_left * (slots_left + 1) / 2 == cap + slots_left)
                    by (nonlinear_arith)
                    requires
                        cap == slots_left * (slots_left - 1) / 2,
                        slots_left >= 1,
                ;
            } else {
                assert(slots_left * (slots_left + 1) / 2 == 0) by (nonlinear_arith)
                    requires
                        slots_left == 0,
                ;
            }
            assert(inv_left <= cap + slots_left);
            assert(min_value <= max_value);
        }
        let invs = rng_between(rng, min_value, max_value);
        let ghost prev = v@;
        v.push(invs);
        proof {
            assert(v@.drop_last() =~= prev);
        }
        inv_left = inv_left - invs;
        i = i + 1;
    }
    v
}

/// The entries of the list that are smaller than `x`, in order.
pub open spec fn below(s: Seq<usize>, x: usize) -> Seq<usize>
    decreases s.len(),
{
    if s.len() == 0 {
        Seq::empty()
    } else {
        let rest = below(s.drop_last(), x);
        if s.last() < x {
            rest.push(s.last())
        } else {
            rest
        }
    }
}

/// The number of inversions of a list of positions: the pairs whose
/// earlier entry is the larger one.
pub open spec fn inversions(p: Seq<usize>) -> nat
    decreases p.len(),
{
    if p.len() == 0 {
        0
    } else {
        below(p.drop_first(), p.first()).len() + inversions(p.drop_first())
    }
}

/// `below` keeps exactly the smaller entries, without introducing
/// repetitions.
proof fn lemma_below_props(s: Seq<usize>, x: usize)
    ensures
        forall|y: usize| #![trigger below(s, x).contains(y)]
            below(s, x).contains(y) <==> s.contains(y) && y < x,
        s.no_duplicates() ==> below(s, x).no_duplicates(),
    decreases s.len(),
{
    if s.len() == 0 {
    } else {
        let head = s.drop_last();
        lemma_below_props(head, x);
        assert forall|y: usize| s.contains(y) implies head.contains(y) || y == s.last() by {
            let w = choose|i: int| 0 <= i < s.len() && s[i] == y;
            if w < s.len() - 1 {
                assert(head[w] == y);
            }
        }
        assert forall|y: usize| head.contains(y) implies s.contains(y) by {
            let w = choose|i: int| 0 <= i < head.len() && head[i] == y;
            assert(s[w] == y);
        }
        assert(s.contains(s.last()));
        let rest = below(head, x);
        let whole = below(s, x);
        assert forall|y: usize| #![trigger below(s, x).contains(y)]
            below(s, x).contains(y) <==> s.contains(y) && y < x by {
            assert(rest.contains(y) <==> head.contains(y) && y < x);
            if s.last() < x {
                if whole.contains(y) {
                    let w = choose|i: int| 0 <= i < whole.len() && whole[i] == y;
                    if w < rest.len() {
                        assert(rest[w] == y);
                    }
                }
                if s.contains(y) && y < x {
                    if head.contains(y) {
                        let w = choose|i: int| 0 <= i < rest.len() && rest[i] == y;
                        assert(whole[w] == y);
                    } else {
                        assert(whole[rest.len() as int] == s.last());
                    }
                }
            } else {
                if s.contains(y) && y < x {
                    assert(head.contains(y));
                }
            }
        }
        if s.no_duplicates() {
            assert(!head.contains(s.last()));
            if s.last() < x {
                assert(!rest.contains(s.last()));
                assert forall|i: int, j: int| 0 <= i < j < whole.len() implies whole[i]
                    != whole[j] by {
                    if j < rest.len() {
                        assert(whole[i] == rest[i] && whole[j] == rest[j]);
                    } else {
                        assert(whole[j] == s.last());
                        assert(rest.contains(rest[i]));
                        assert(whole[i] == rest[i]);
                    }
                }
            }
        }
    }
}

/// A list whose first `idx` entries are smaller than `x` and whose
/// later entries are larger has exactly `idx` entries below `x`.
proof fn lemma_below_split(s: Seq<usize>, x: usize, idx: int)
    requires
        0 <= idx <= s.len(),
        forall|a: int| 0 <= a < idx ==> s[a] < x,
        forall|a: int| idx <= a < s.len() ==> s[a] > x,
    ensures
        below(s, x).len() == idx,
    decreases s.len(),
{
    if s.len() > 0 {
        if idx == s.len() {
            lemma_below_split(s.drop_last(), x, idx - 1);
        } else {
            lemma_below_split(s.drop_last(), x, idx);
        }
    }
}

/// Two repetition-free lists with the same entries hold the same number
/// of entries below `x`.
proof fn lemma_below_same(s1: Seq<usize>, s2: Seq<usize>, x: usize)
    requires
        s1.no_duplicates(),
        s2.no_duplicates(),
        forall|y: usize| s1.contains(y) <==> s2.contains(y),
    ensures
        below(s1, x).len() == below(s2, x).len(),
{
    broadcast use vstd::seq_lib::seq_to_set_is_finite;

    lemma_below_props(s1, x);
    lemma_below_props(s2, x);
    below(s1, x).unique_seq_to_set();
    below(s2, x).unique_seq_to_set();
    assert(below(s1, x).to_set() =~= below(s2, x).to_set());
}

/// Allocating inversions position by position: the total over a suffix
/// is its first entry plus the total over the rest.
proof fn lemma_lehmer_sum_first(s: Seq<usize>)
    requires
        s.len() > 0,
    ensures
        lehmer_sum(s) == s[0] + lehmer_sum(s.drop_first()),
    decreases s.len(),
{
    if s.len() == 1 {
        assert(s.drop_first() =~= Seq::<usize>::empty());
        assert(s.drop_last() =~= Seq::<usize>::empty());
    } else {
        lemma_lehmer_sum_first(s.drop_last());
        assert(s.drop_last().drop_first() =~= s.drop_first().drop_last());
        assert(s.drop_first().last() == s.last());
    }
}

/// Build the permutation the decomposition suffix `v[i..]` selects out
/// of a strictly increasing pool of positions: component `i` removes
/// and prepends the entry at pool index `v[i]`, contributing exactly
/// `v[i]` inversions with the entries drawn after it.
#[verifier::loop_isolation(false)]
#[verifier::rlimit(100)]
#[verifier::spinoff_prover]
fn build_permutation(pool: Vec<usize>, v: &Vec<usize>, i: usize) -> (perm: Vec<usize>)
    requires
        i <= v@.len(),
        pool@.len() == v@.len() - i,
        forall|a: int, c: int| 0 <= a < c < pool@.len() ==> pool@[a] < pool@[c],
        forall|j: int| i <= j < v@.len() ==> (#[trigger] v@[j]) + j < v@.len(),
    ensures
        perm@.len() == pool@.len(),
        perm@.no_duplicates(),
        forall|k: int| 0 <= k < perm@.len() ==> pool@.contains(#[trigger] perm@[k]),
        forall|k: int| 0 <= k < pool@.len() ==> perm@.contains(#[trigger] pool@[k]),
        inversions(perm@) == lehmer_sum(v@.skip(i as int)),
    decreases v@.len() - i,
{
    if i == v.len() {
        proof {
            assert(v@.skip(i as int) =~= Seq::<usize>::empty());
        }
        Vec::new()
    } else {
        let idx = v[i];
        let ghost pool0 = pool@;
        let mut rest_pool = pool;
        let x = rest_pool.remove(idx);
        proof {
            assert forall|a: int, c: int| 0 <= a < c < rest_pool@.len() implies rest_pool@[a]
                < rest_pool@[c] by {
                if a < idx {
                    assert(rest_pool@[a] == pool0[a]);
                } else {
                    assert(rest_pool@[a] == pool0[a + 1]);
                }
                if c < idx {
                    assert(rest_pool@[c] == pool0[c]);
                } else {
                    assert(rest_pool@[c] == pool0[c + 1]);
                }
            }
        }
        let rest = build_permutation(rest_pool, v, i + 1);
        let mut perm = rest;
        perm.insert(0, x);
        proof {
            let tail = perm@.drop_first();
            assert(perm@.first() == x);
            assert(tail =~= perm@.subrange(1, perm@.len() as int));
            assert forall|k: int| 0 <= k < tail.len() implies tail[k] == rest@[k] by {}
            assert(tail =~= rest@);
            // the prepended entry is none of the later ones
            assert forall|k: int| 0 <= k < rest@.len() implies rest@[k] != x by {
                assert(rest_pool@.contains(rest@[k]));
                let c = choose|c: int| 0 <= c < rest_pool@.len() && rest_pool@[c] == rest@[k];
                if c < idx {
                    assert(rest_pool@[c] == pool0[c]);
                } else {
                    assert(rest_pool@[c] == pool0[c + 1]);
                }
            }
            assert forall|a: int, c: int| 0 <= a < c < perm@.len() implies perm@[a]
                != perm@[c] by {
                if a > 0 {
                    assert(perm@[a] == rest@[a - 1] && perm@[c] == rest@[c - 1]);
                } else {
                    assert(perm@[c] == rest@[c - 1]);
                    assert(rest@.contains(rest@[c - 1]));
                }
            }
            // the permutation holds exactly the pool's entries
            assert forall|k: int| 0 <= k < perm@.len() implies pool0.contains(
                #[trigger] perm@[k],
            ) by {
                if k == 0 {
                    assert(pool0[idx as int] == x);
                } else {
                    assert(rest_pool@.contains(perm@[k]));
                    let c = choose|c: int|
                        0 <= c < rest_pool@.len() && rest_pool@[c] == perm@[k];
                    if c < idx {
                        assert(pool0[c] == perm@[k]);
                    } else {
                        assert(pool0[c + 1] == perm@[k]);
                    }
                }
            }
            assert forall|k: int| 0 <= k < pool0.len() implies perm@.contains(
                #[trigger] pool0[k],
            ) by {
                if k == idx {
                    assert(perm@[0] == pool0[k]);
                } else {
                    if k < idx {
                        assert(rest_pool@[k] == pool0[k]);
                        assert(rest_pool@.contains(pool0[k]));
                    } else {
                        assert(rest_pool@[k - 1] == pool0[k]);
                        assert(rest_pool@.contains(pool0[k]));
                    }
                    assert(rest@.contains(pool0[k]));
                    let w = choose|w: int| 0 <= w < rest@.len() && rest@[w] == pool0[k];
                    assert(perm@[w + 1] == pool0[k]);
                }
            }
            // the prepended entry contributes exactly `idx` inversions
            assert forall|a: int| 0 <= a < idx implies rest_pool@[a] < x by {
                assert(rest_pool@[a] == pool0[a]);
            }
            assert forall|a: int| idx <= a < rest_pool@.len() implies rest_pool@[a] > x by {
                assert(rest_pool@[a] == pool0[a + 1]);
            }
            lemma_below_split(rest_pool@, x, idx as int);
            lemma_below_props(rest_pool@, x);
            lemma_below_props(rest@, x);
            assert forall|a: int, c: int| 0 <= a < c < rest_pool@.len() implies rest_pool@[a]
                != rest_pool@[c] by {}
            lemma_below_same(rest@, rest_pool@, x);
            assert(below(tail, x).len() == idx);
            lemma_lehmer_sum_first(v@.skip(i as int));
            assert(v@.skip(i as int)[0] == v@[i as int]);
            assert(v@.skip(i as int).drop_first() =~= v@.skip(i + 1));
            assert(inversions(perm@) == below(tail, x).len() + inversions(tail));
        }
        perm
    }
}

/// Convert a decomposition vector to a permutation of the positions
/// `0 .. n` whose inversion count is exactly the total the vector
/// allocates: component `i` removes and appends the entry at pool
/// index `v[i]` of the initially full ordered pool.
#[verifier::loop_isolation(false)]
fn decomposition_to_permutation(v: &Vec<usize>) -> (perm: Vec<usize>)
    requires
        forall|i: int| 0 <= i < v@.len() ==> (#[trigger] v@[i]) + i < v@.len(),
    ensures
        perm@.len() == v@.len(),
        perm@.no_duplicates(),
        forall|i: int| 0 <= i < perm@.len() ==> (#[trigger] perm@[i]) < v@.len(),
        inversions(perm@) == lehmer_sum(v@),
{
    let n = v.len();
    let mut pool: Vec<usize> = Vec::new();
    let mut p: usize = 0;
    while p < n
        invariant
            p <= n,
            pool@.len() == p,
            forall|a: int| 0 <= a < p ==> (#[trigger] pool@[a]) == a,
        decreases n - p,
    {
        pool.push(p);
        p = p + 1;
    }
    let ghost pool0 = pool@;
    let perm = build_permutation(pool, v, 0);
    proof {
        assert(v@.skip(0) =~= v@);
        assert forall|i: int| 0 <= i < perm@.len() implies (#[trigger] perm@[i]) < v@.len() by {
            assert(pool0.contains(perm@[i]));
            let w = choose|w: int| 0 <= w < pool0.len() && pool0[w] == perm@[i];
        }
    }
    perm
}

/// The Mallows model samples rankings clustered around a reference
/// ranking: a Kendall tau distance is drawn with weight proportional to
/// `inv_count(n, d) * decay[d]`, a permutation with exactly that many
/// inversions is drawn by sampling each decomposition entry uniformly
/// within its feasible range, and the permutation is applied to the
/// reference ranking.
///
/// The dispersion parameter enters as the `decay` table: entry `d`
/// holds the weight of distance `d` as a fixed-point fraction scaled by
/// two to the thirty-second power. For the classical model with
/// dispersion `phi`, entry `d` is `exp(-phi * d)` times that scale,
/// which callers compute; a constant table yields the uniform
/// distribution over all permutations.
pub struct Mallows {
    reference: Vec<Id>,
    decay: Vec<u64>,
}

impl Mallows {
    /// Instantiates a new Mallows preference model.
    pub fn new(reference: Vec<Id>, decay: Vec<u64>) -> (r: Self)
        ensures
            r.reference() == reference@,
            r.decay_table() == decay@,
    {
        Mallows { reference, decay }
    }

    /// The central reference ranking.
    pub closed spec fn reference(&self) -> Seq<Id> {
        self.reference@
    }

    /// The per-distance decay weights.
    pub closed spec fn decay_table(&self) -> Seq<u64> {
        self.decay@
    }
}

impl Preference<Ordinal> for Mallows {
    /// The reference ranking ranks exactly the candidates, of which
    /// there are between one and twenty; the decay table holds one
    /// fixed-point weight per possible distance, none above the scale,
    /// and gives distance zero a positive weight.
    open spec fn valid_for(&self, candidates: Seq<Candidate>) -> bool {
        &&& self.reference().no_duplicates()
        &&& self.reference().len() == candidates.len()
        &&& forall|k: int| 0 <= k < self.reference().len() ==> has_candidate(
            candidates,
            #[trigger] self.reference()[k],
        )
        &&& 1 <= candidates.len() <= 20
        &&& self.decay_table().len() == candidates.len() * (candidates.len() - 1) / 2 + 1
        &&& forall|d: int| 0 <= d < self.decay_table().len() ==> (
        #[trigger] self.decay_table()[d]) <= 0x1_0000_0000
        &&& self.decay_table()[0] > 0
    }

    fn fits(&self, candidates: &Vec<Candidate>) -> (r: bool) {
        let n = candidates.len();
        if n < 1 || n > 20 {
            return false;
        }
        if !ids_distinct(&self.reference) {
            return false;
        }
        if self.reference.len() != n {
            return false;
        }
        let mut k: usize = 0;
        while k < self.reference.len()
            invariant
                k <= self.reference().len(),
                forall|j: int| 0 <= j < k ==> has_candidate(
                    candidates@,
                    #[trigger] self.reference()[j],
                ),
            decreases self.reference().len() - k,
        {
            match position_by_id(candidates, self.reference[k]) {
                Option::Some(_) => {},
                Option::None => {
                    return false;
                },
            }
            k = k + 1;
        }
        proof {
            assert(n * (n - 1) <= 380) by (nonlinear_arith)
                requires
                    n <= 20,
            ;
        }
        if self.decay.len() != n * (n - 1) / 2 + 1 {
            return false;
        }
        let mut d: usize = 0;
        while d < self.decay.len()
            invariant
                d <= self.decay_table().len(),
                forall|j: int| 0 <= j < d ==> (#[trigger] self.decay_table()[j])
                    <= 0x1_0000_0000,
            decreases self.decay_table().len() - d,
        {
            if self.decay[d] > 0x1_0000_0000 {
                return false;
            }
            d = d + 1;
        }
        if self.decay[0] == 0 {
            return false;
        }
        true
    }

    /// The drawn ranking ranks exactly the reference ids.
    open spec fn draw_post(&self, candidates: Seq<Candidate>, b: Ordinal) -> bool {
        &&& b@.len() == self.reference().len()
        &&& forall|k: int| 0 <= k < b@.len() ==> self.reference().contains(#[trigger] b@[k])
        &&& forall|j: int| 0 <= j < self.reference().len() ==> b@.contains(
            #[trigger] self.reference()[j],
        )
    }

    /// A ranking of exactly the reference ids, at a sampled Kendall
    /// tau distance from the reference ranking.
    #[verifier::loop_isolation(false)]
    fn draw(&self, candidates: &Vec<Candidate>, rng: &mut StdRng) -> (b: Ordinal) {
        let n = self.reference.len();
        proof {
            assert(n * (n - 1) <= 380) by (nonlinear_arith)
                requires
                    n <= 20,
            ;
        }
        let max_inv = n * (n - 1) / 2;
        let table = inversion_table(n, max_inv);
        proof {
            lemma_fact_twenty();
        }
        // one weight per possible distance
        let mut ws: Vec<u128> = Vec::new();
        let mut d: usize = 0;
        while d <= max_inv
            invariant
                d <= max_inv + 1,
                ws@.len() == d,
                forall|e: int| 0 <= e < d ==> (#[trigger] ws@[e]) == inv_count(n as nat, e as nat)
                    * self.decay_table()[e],
                forall|e: int| 0 <= e < d ==> (#[trigger] ws@[e]) <= 0x1_0000_0000_0000_0000
                    * 0x1_0000_0000,
            decreases max_inv + 1 - d,
        {
            let count = table[n][d];
            let decay = self.decay[d];
            proof {
                lemma_inv_count_le_fact(n as nat, d as nat);
                lemma_fact_monotonic(n as nat, 20);
                assert((count as u128) * (decay as u128) <= 0x1_0000_0000_0000_0000
                    * 0x1_0000_0000) by (nonlinear_arith)
                    requires
                        count <= 0xffff_ffff_ffff_ffff,
                        decay <= 0x1_0000_0000,
                ;
            }
            ws.push((count as u128) * (decay as u128));
            d = d + 1;
        }
        proof {
            assert(inv_count(n as nat, 0) == 1);
            assert(ws@[0] == 1 * self.decay_table()[0]);
            lemma_sum_weights_positive(ws@);
            lemma_sum_weights_bounded(ws@, 0x1_0000_0000_0000_0000 * 0x1_0000_0000);
            assert(ws@.len() * (0x1_0000_0000_0000_0000 * 0x1_0000_0000) <= 191 * (
            0x1_0000_0000_0000_0000 * 0x1_0000_0000)) by (nonlinear_arith)
                requires
                    ws@.len() <= 191,
            ;
        }
        let choice = match weighted_choice_new(&ws) {
            Option::Some(w) => w,
            Option::None => {
                proof {
                    assert(false);
                }
                return Ordinal(Vec::new());
            },
        };
        let distance = weighted_choice_sample(&choice, rng);
        let v = sample_decomposition_vector(n, distance, rng);
        let perm = decomposition_to_permutation(&v);
        proof {
            // the drawn permutation carries exactly the sampled number
            // of inversions
            assert(inversions(perm@) == distance);
        }
        // apply the permutation to the reference ranking
        let mut out: Vec<Id> = Vec::new();
        let mut i: usize = 0;
        while i < n
            invariant
                i <= n,
                out@.len() == i,
                n == self.reference().len(),
                forall|a: int| 0 <= a < i ==> (#[trigger] out@[a]) == self.reference()[perm@[a]
                    as int],
            decreases n - i,
        {
            out.push(self.reference[perm[i]]);
            i = i + 1;
        }
        proof {
            assert forall|a: int, c: int| 0 <= a < c < out@.len() implies out@[a] != out@[c] by {
                assert(out@[a] == self.reference()[perm@[a] as int]);
                assert(out@[c] == self.reference()[perm@[c] as int]);
                assert(perm@[a] != perm@[c]);
            }
            assert forall|a: int| 0 <= a < out@.len() implies self.reference().contains(
                #[trigger] out@[a],
            ) by {
                assert(out@[a] == self.reference()[perm@[a] as int]);
            }
            lemma_distinct_cover(out@, self.reference());
        }
        Ordinal(out)
    }
}

} // verus!
