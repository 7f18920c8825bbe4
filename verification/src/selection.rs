use vstd::prelude::*;

use crate::protocol::ChampionStrategy;
use crate::text::{
    chars_of, decimal, decimal_chars, extend_chars, extend_str, lemma_text_less_irreflexive,
    lemma_text_less_total, lemma_text_less_transitive, pad_zeros, string_from_chars, text_less,
    text_less_exec, zero_padded,
};

verus! {

// ---------------------------------------------------------------------------
// Pareto frontier over (latency, cost, reliability)
// ---------------------------------------------------------------------------

/// The three objectives of a parameter candidate: lower latency and cost are
/// better, higher reliability is better. Costs are whole dollars.
#[derive(Clone, Copy, Debug)]
pub struct ParetoPoint {
    pub p95_ms: u32,
    pub monthly_cost_usd: u64,
    pub reliability: u8,
}

/// `a` dominates `b`: no worse in every objective and better in one.
pub open spec fn dominates_spec(a: ParetoPoint, b: ParetoPoint) -> bool {
    &&& a.p95_ms <= b.p95_ms
    &&& a.monthly_cost_usd <= b.monthly_cost_usd
    &&& a.reliability >= b.reliability
    &&& (a.p95_ms < b.p95_ms || a.monthly_cost_usd < b.monthly_cost_usd || a.reliability
        > b.reliability)
}

/// Whether `a` dominates `b`.
pub fn dominates(a: &ParetoPoint, b: &ParetoPoint) -> (r: bool)
    ensures
        r == dominates_spec(*a, *b),
{
    let non_worse = a.p95_ms <= b.p95_ms && a.monthly_cost_usd <= b.monthly_cost_usd
        && a.reliability >= b.reliability;
    let strictly_better = a.p95_ms < b.p95_ms || a.monthly_cost_usd < b.monthly_cost_usd
        || a.reliability > b.reliability;
    non_worse && strictly_better
}

/// Dominance is a strict order: irreflexive and transitive.
pub proof fn law_dominance_strict_order(a: ParetoPoint, b: ParetoPoint, c: ParetoPoint)
    ensures
        !dominates_spec(a, a),
        dominates_spec(a, b) && dominates_spec(b, c) ==> dominates_spec(a, c),
        dominates_spec(a, b) ==> !dominates_spec(b, a),
{
}

/// Candidate `i` is dominated by no candidate.
pub open spec fn undominated(pts: Seq<ParetoPoint>, i: int) -> bool {
    forall|j: int| 0 <= j < pts.len() ==> !dominates_spec(#[trigger] pts[j], pts[i])
}

/// Two candidates have the same objectives.
pub open spec fn same_objectives(a: ParetoPoint, b: ParetoPoint) -> bool {
    a.p95_ms == b.p95_ms && a.monthly_cost_usd == b.monthly_cost_usd && a.reliability
        == b.reliability
}

/// Frontier order: cheaper first, then faster, then more reliable.
pub open spec fn frontier_less(a: ParetoPoint, b: ParetoPoint) -> bool {
    a.monthly_cost_usd < b.monthly_cost_usd || (a.monthly_cost_usd == b.monthly_cost_usd && (
    a.p95_ms < b.p95_ms || (a.p95_ms == b.p95_ms && a.reliability > b.reliability)))
}

/// `f` is the Pareto frontier of `pts`, by index: every listed candidate is
/// undominated; every undominated candidate is listed, or an earlier one
/// with the same objectives is; objectives are never listed twice; and the
/// list runs in frontier order.
pub open spec fn is_frontier(pts: Seq<ParetoPoint>, f: Seq<usize>) -> bool {
    &&& forall|a: int| 0 <= a < f.len() ==> (#[trigger] f[a] as int) < pts.len()
    &&& forall|a: int| 0 <= a < f.len() ==> undominated(pts, #[trigger] f[a] as int)
    &&& forall|a: int, b: int|
        0 <= a < b < f.len() ==> frontier_less(pts[f[a] as int], pts[f[b] as int])
    &&& forall|i: int|
        0 <= i < pts.len() && undominated(pts, i) ==> exists|a: int|
            0 <= a < f.len() && (#[trigger] f[a] as int) <= i && same_objectives(
                pts[f[a] as int],
                pts[i],
            )
}

proof fn lemma_frontier_total(a: ParetoPoint, b: ParetoPoint)
    ensures
        same_objectives(a, b) || frontier_less(a, b) || frontier_less(b, a),
{
}

/// Frontier-ordered lists stay ordered when `x` goes in at a position
/// between smaller and larger entries.
proof fn lemma_insert_ordered(pts: Seq<ParetoPoint>, f: Seq<usize>, p: int, x: usize)
    requires
        0 <= p <= f.len(),
        (x as int) < pts.len(),
        forall|a: int| 0 <= a < f.len() ==> (#[trigger] f[a] as int) < pts.len(),
        forall|a: int, b: int|
            0 <= a < b < f.len() ==> frontier_less(pts[f[a] as int], pts[f[b] as int]),
        forall|a: int| 0 <= a < p ==> frontier_less(pts[#[trigger] f[a] as int], pts[x as int]),
        p < f.len() ==> frontier_less(pts[x as int], pts[f[p] as int]),
    ensures
        forall|a: int, b: int|
            0 <= a < b < f.insert(p, x).len() ==> frontier_less(
                pts[f.insert(p, x)[a] as int],
                pts[f.insert(p, x)[b] as int],
            ),
{
    let g = f.insert(p, x);
    assert forall|a: int, b: int| 0 <= a < b < g.len() implies frontier_less(
        pts[g[a] as int],
        pts[g[b] as int],
    ) by {
        if b < p {
            assert(g[a] == f[a] && g[b] == f[b]);
        } else if b == p {
            assert(g[a] == f[a]);
        } else if a < p {
            assert(g[a] == f[a] && g[b] == f[b - 1]);
            if b - 1 > p {
                assert(frontier_less(pts[f[p] as int], pts[f[b - 1] as int]));
            }
        } else if a == p {
            assert(g[b] == f[b - 1]);
            if b - 1 > p {
                assert(frontier_less(pts[f[p] as int], pts[f[b - 1] as int]));
            }
        } else {
            assert(g[a] == f[a - 1] && g[b] == f[b - 1]);
        }
    }
}

/// Inserting keeps every earlier entry, at the same or the next position.
proof fn lemma_insert_keeps(f: Seq<usize>, p: int, x: usize, a: int)
    requires
        0 <= p <= f.len(),
        0 <= a < f.len(),
    ensures
        a < p ==> f.insert(p, x)[a] == f[a],
        a >= p ==> f.insert(p, x)[a + 1] == f[a],
{
}

/// Whether no candidate dominates candidate `i`.
fn is_undominated(pts: &[ParetoPoint], i: usize) -> (r: bool)
    requires
        i < pts@.len(),
    ensures
        r == undominated(pts@, i as int),
{
    let mut j: usize = 0;
    while j < pts.len()
        invariant
            i < pts@.len(),
            j <= pts@.len(),
            forall|k: int| 0 <= k < j ==> !dominates_spec(#[trigger] pts@[k], pts@[i as int]),
        decreases pts.len() - j,
    {
        if dominates(&pts[j], &pts[i]) {
            assert(dominates_spec(pts@[j as int], pts@[i as int]));
            return false;
        }
        j = j + 1;
    }
    true
}

/// The frontier-ordered list `f` (indices below `x`), with `x` added unless
/// an entry with the same objectives is already there.
fn add_to_frontier(pts: &[ParetoPoint], f: &mut Vec<usize>, x: usize)
    requires
        x < pts@.len(),
        forall|a: int| 0 <= a < old(f)@.len() ==> (#[trigger] old(f)@[a] as int) < x,
        forall|a: int, b: int|
            0 <= a < b < old(f)@.len() ==> frontier_less(
                pts@[old(f)@[a] as int],
                pts@[old(f)@[b] as int],
            ),
    ensures
        forall|a: int| 0 <= a < final(f)@.len() ==> (#[trigger] final(f)@[a] as int) <= x,
        forall|a: int, b: int|
            0 <= a < b < final(f)@.len() ==> frontier_less(
                pts@[final(f)@[a] as int],
                pts@[final(f)@[b] as int],
            ),
        forall|a: int|
            0 <= a < final(f)@.len() ==> (#[trigger] final(f)@[a] == x || old(f)@.contains(
                final(f)@[a],
            )),
        exists|a: int|
            0 <= a < final(f)@.len() && same_objectives(
                pts@[#[trigger] final(f)@[a] as int],
                pts@[x as int],
            ),
        forall|b: int|
            0 <= b < old(f)@.len() ==> #[trigger] final(f)@.contains(old(f)@[b]),
{
    let mut p: usize = 0;
    while p < f.len()
        invariant
            p <= f@.len(),
            x < pts@.len(),
            forall|a: int| 0 <= a < f@.len() ==> (#[trigger] f@[a] as int) < x,
            forall|a: int| 0 <= a < p ==> frontier_less(pts@[#[trigger] f@[a] as int], pts@[x as int]),
        ensures
            p <= f@.len(),
            forall|a: int| 0 <= a < p ==> frontier_less(pts@[#[trigger] f@[a] as int], pts@[x as int]),
            p < f@.len() ==> !frontier_less(pts@[f@[p as int] as int], pts@[x as int]),
        decreases f@.len() - p,
    {
        let q = &pts[f[p]];
        let xp = &pts[x];
        let below = q.monthly_cost_usd < xp.monthly_cost_usd || (q.monthly_cost_usd
            == xp.monthly_cost_usd && (q.p95_ms < xp.p95_ms || (q.p95_ms == xp.p95_ms
            && q.reliability > xp.reliability)));
        if !below {
            break;
        }
        p = p + 1;
    }
    let same = p < f.len() && {
        let q = &pts[f[p]];
        q.p95_ms == pts[x].p95_ms && q.monthly_cost_usd == pts[x].monthly_cost_usd
            && q.reliability == pts[x].reliability
    };
    if same {
        assert(same_objectives(pts@[f@[p as int] as int], pts@[x as int]));
        assert forall|b: int| 0 <= b < f@.len() implies #[trigger] f@.contains(f@[b]) by {}
        assert forall|a: int| 0 <= a < f@.len() implies (#[trigger] f@[a] == x || f@.contains(f@[a])) by {}
    } else {
        proof {
            if p < f@.len() {
                lemma_frontier_total(pts@[f@[p as int] as int], pts@[x as int]);
            }
            lemma_insert_ordered(pts@, f@, p as int, x);
        }
        let ghost old_f = f@;
        f.insert(p, x);
        proof {
            assert(f@[p as int] == x);
            assert(same_objectives(pts@[f@[p as int] as int], pts@[x as int]));
            assert forall|a: int| 0 <= a < f@.len() implies (#[trigger] f@[a] as int) <= x && (f@[a] == x || old_f.contains(f@[a])) by {
                if a < p {
                    lemma_insert_keeps(old_f, p as int, x, a);
                    assert(old_f.contains(old_f[a]));
                } else if a > p {
                    lemma_insert_keeps(old_f, p as int, x, a - 1);
                    assert(old_f.contains(old_f[a - 1]));
                }
            }
            assert forall|b: int| 0 <= b < old_f.len() implies #[trigger] f@.contains(old_f[b]) by {
                lemma_insert_keeps(old_f, p as int, x, b);
                if b < p {
                    assert(f@[b] == old_f[b]);
                } else {
                    assert(f@[b + 1] == old_f[b]);
                }
            }
        }
    }
}

/// The Pareto frontier of the candidates: indices of the undominated ones,
/// one per distinct objective triple (the first such candidate), cheapest
/// first, then fastest, then most reliable.
pub fn pareto_frontier_indices(pts: &[ParetoPoint]) -> (f: Vec<usize>)
    ensures
        is_frontier(pts@, f@),
{
    let mut f: Vec<usize> = Vec::new();
    let mut i: usize = 0;
    while i < pts.len()
        invariant
            i <= pts@.len(),
            forall|a: int| 0 <= a < f@.len() ==> (#[trigger] f@[a] as int) < i,
            forall|a: int| 0 <= a < f@.len() ==> undominated(pts@, #[trigger] f@[a] as int),
            forall|a: int, b: int|
                0 <= a < b < f@.len() ==> frontier_less(pts@[f@[a] as int], pts@[f@[b] as int]),
            forall|k: int|
                0 <= k < i && undominated(pts@, k) ==> exists|a: int|
                    0 <= a < f@.len() && (#[trigger] f@[a] as int) <= k && same_objectives(
                        pts@[f@[a] as int],
                        pts@[k],
                    ),
        decreases pts.len() - i,
    {
        if is_undominated(pts, i) {
            let ghost old_f = f@;
            add_to_frontier(pts, &mut f, i);
            proof {
                assert forall|a: int| 0 <= a < f@.len() implies undominated(pts@, #[trigger] f@[a] as int) by {
                    if f@[a] != i {
                        let b = choose|b: int| 0 <= b < old_f.len() && old_f[b] == f@[a];
                        assert(undominated(pts@, old_f[b] as int));
                    }
                }
                assert forall|k: int|
                    0 <= k < i + 1 && undominated(pts@, k) implies exists|a: int|
                    0 <= a < f@.len() && (#[trigger] f@[a] as int) <= k && same_objectives(
                        pts@[f@[a] as int],
                        pts@[k],
                    ) by {
                    if k == i {
                        let a = choose|a: int|
                            0 <= a < f@.len() && same_objectives(pts@[#[trigger] f@[a] as int], pts@[i as int]);
                        assert((f@[a] as int) <= k);
                    } else {
                        let b = choose|b: int|
                            0 <= b < old_f.len() && (#[trigger] old_f[b] as int) <= k
                                && same_objectives(pts@[old_f[b] as int], pts@[k]);
                        assert(f@.contains(old_f[b]));
                        let a = choose|a: int| 0 <= a < f@.len() && f@[a] == old_f[b];
                        assert((f@[a] as int) <= k);
                    }
                }
            }
        }
        i = i + 1;
    }
    f
}

/// A frontier is never empty when there are candidates: some candidate is
/// always undominated.
pub proof fn law_frontier_nonempty(pts: Seq<ParetoPoint>, f: Seq<usize>)
    requires
        pts.len() > 0,
        is_frontier(pts, f),
    ensures
        f.len() > 0,
{
    // the candidate that is least in frontier order (first index among
    // equals) is undominated
    let m = least_index(pts, pts.len() as int);
    lemma_least_index(pts, pts.len() as int);
    lemma_least_undominated(pts, m);
    assert(0 <= m < pts.len() && undominated(pts, m));
    let a = choose|a: int|
        0 <= a < f.len() && (#[trigger] f[a] as int) <= m && same_objectives(pts[f[a] as int], pts[m]);
    assert(0 <= a < f.len());
}

/// Position of a frontier-least candidate among the first `n`.
pub open spec fn least_index(pts: Seq<ParetoPoint>, n: int) -> int
    decreases n,
{
    if n <= 1 {
        0
    } else {
        let m = least_index(pts, n - 1);
        if frontier_less(pts[n - 1], pts[m]) {
            n - 1
        } else {
            m
        }
    }
}

proof fn lemma_least_index(pts: Seq<ParetoPoint>, n: int)
    requires
        1 <= n <= pts.len(),
    ensures
        0 <= least_index(pts, n) < n,
        forall|j: int| 0 <= j < n ==> !frontier_less(#[trigger] pts[j], pts[least_index(pts, n)]),
    decreases n,
{
    if n > 1 {
        lemma_least_index(pts, n - 1);
        let m = least_index(pts, n - 1);
        assert forall|j: int| 0 <= j < n implies !frontier_less(#[trigger] pts[j], pts[least_index(pts, n)]) by {
            if frontier_less(pts[n - 1], pts[m]) {
                if j < n - 1 && frontier_less(pts[j], pts[n - 1]) {
                    assert(frontier_less(pts[j], pts[m]));
                }
            }
        }
    }
}

proof fn lemma_least_undominated(pts: Seq<ParetoPoint>, m: int)
    requires
        pts.len() > 0,
        m == least_index(pts, pts.len() as int),
    ensures
        undominated(pts, m),
{
    lemma_least_index(pts, pts.len() as int);
    assert forall|j: int| 0 <= j < pts.len() implies !dominates_spec(#[trigger] pts[j], pts[m]) by {
        if dominates_spec(pts[j], pts[m]) {
            assert(frontier_less(pts[j], pts[m]));
        }
    }
}

// ---------------------------------------------------------------------------
// Grouping the frontier
// ---------------------------------------------------------------------------

/// Groups of frontier plans.
#[derive(Clone, Copy, Debug, PartialEq, Eq, Structural)]
pub enum ProfileTag {
    LowCost,
    LowLatency,
    Balanced,
}

/// Least cost among the first `n` plans.
pub open spec fn min_cost(pts: Seq<ParetoPoint>, n: int) -> int
    decreases n,
{
    if n <= 1 {
        pts[0].monthly_cost_usd as int
    } else {
        let m = min_cost(pts, n - 1);
        if (pts[n - 1].monthly_cost_usd as int) < m { pts[n - 1].monthly_cost_usd as int } else { m }
    }
}

/// Greatest cost among the first `n` plans.
pub open spec fn max_cost(pts: Seq<ParetoPoint>, n: int) -> int
    decreases n,
{
    if n <= 1 {
        pts[0].monthly_cost_usd as int
    } else {
        let m = max_cost(pts, n - 1);
        if (pts[n - 1].monthly_cost_usd as int) > m { pts[n - 1].monthly_cost_usd as int } else { m }
    }
}

/// Least latency among the first `n` plans.
pub open spec fn min_latency(pts: Seq<ParetoPoint>, n: int) -> int
    decreases n,
{
    if n <= 1 {
        pts[0].p95_ms as int
    } else {
        let m = min_latency(pts, n - 1);
        if (pts[n - 1].p95_ms as int) < m { pts[n - 1].p95_ms as int } else { m }
    }
}

/// Greatest latency among the first `n` plans.
pub open spec fn max_latency(pts: Seq<ParetoPoint>, n: int) -> int
    decreases n,
{
    if n <= 1 {
        pts[0].p95_ms as int
    } else {
        let m = max_latency(pts, n - 1);
        if (pts[n - 1].p95_ms as int) > m { pts[n - 1].p95_ms as int } else { m }
    }
}

/// The group of a plan: low-cost when at most the middle cost and at least
/// the middle latency (rounded down), low-latency when above the middle cost
/// and below the middle latency, balanced otherwise.
pub open spec fn profile_tag_of(pts: Seq<ParetoPoint>, p: ParetoPoint) -> ProfileTag {
    let n = pts.len() as int;
    let cost_sum = min_cost(pts, n) + max_cost(pts, n);
    let lat_mid = (min_latency(pts, n) + max_latency(pts, n)) / 2;
    if 2 * p.monthly_cost_usd <= cost_sum && p.p95_ms >= lat_mid {
        ProfileTag::LowCost
    } else if 2 * p.monthly_cost_usd > cost_sum && p.p95_ms < lat_mid {
        ProfileTag::LowLatency
    } else {
        ProfileTag::Balanced
    }
}

proof fn lemma_extremes(pts: Seq<ParetoPoint>, n: int)
    requires
        1 <= n <= pts.len(),
    ensures
        forall|j: int|
            0 <= j < n ==> min_cost(pts, n) <= #[trigger] pts[j].monthly_cost_usd <= max_cost(
                pts,
                n,
            ),
        forall|j: int|
            0 <= j < n ==> min_latency(pts, n) <= #[trigger] pts[j].p95_ms <= max_latency(pts, n),
        exists|j: int| 0 <= j < n && #[trigger] pts[j].monthly_cost_usd == min_cost(pts, n),
        exists|j: int| 0 <= j < n && #[trigger] pts[j].monthly_cost_usd == max_cost(pts, n),
        exists|j: int| 0 <= j < n && #[trigger] pts[j].p95_ms == min_latency(pts, n),
        exists|j: int| 0 <= j < n && #[trigger] pts[j].p95_ms == max_latency(pts, n),
    decreases n,
{
    if n > 1 {
        lemma_extremes(pts, n - 1);
    } else {
        assert(pts[0].monthly_cost_usd == min_cost(pts, n));
        assert(pts[0].p95_ms == min_latency(pts, n));
    }
    let k = n - 1;
    if pts[k].monthly_cost_usd == min_cost(pts, n) {
    }
    if pts[k].monthly_cost_usd == max_cost(pts, n) {
    }
    if pts[k].p95_ms == min_latency(pts, n) {
    }
    if pts[k].p95_ms == max_latency(pts, n) {
    }
}

/// The groups follow the middles of the frontier. With `lo_c` and `hi_c`
/// the least and greatest cost of the plans, and `lo_l` and `hi_l` their
/// least and greatest latency: a plan is low-latency exactly when it costs
/// more than the middle cost `(lo_c + hi_c) / 2` and is faster than the
/// middle latency `(lo_l + hi_l) / 2` (rounded down); it is low-cost exactly
/// when it costs at most the middle cost and is not faster than the middle
/// latency; every other plan is balanced.
pub proof fn law_frontier_groups(
    pts: Seq<ParetoPoint>,
    p: ParetoPoint,
    lo_c: int,
    hi_c: int,
    lo_l: int,
    hi_l: int,
)
    requires
        pts.len() > 0,
        forall|j: int| 0 <= j < pts.len() ==> lo_c <= #[trigger] pts[j].monthly_cost_usd <= hi_c,
        forall|j: int| 0 <= j < pts.len() ==> lo_l <= #[trigger] pts[j].p95_ms <= hi_l,
        exists|j: int| 0 <= j < pts.len() && #[trigger] pts[j].monthly_cost_usd == lo_c,
        exists|j: int| 0 <= j < pts.len() && #[trigger] pts[j].monthly_cost_usd == hi_c,
        exists|j: int| 0 <= j < pts.len() && #[trigger] pts[j].p95_ms == lo_l,
        exists|j: int| 0 <= j < pts.len() && #[trigger] pts[j].p95_ms == hi_l,
    ensures
        (profile_tag_of(pts, p) == ProfileTag::LowLatency) <==> (2 * p.monthly_cost_usd > lo_c
            + hi_c && p.p95_ms < (lo_l + hi_l) / 2),
        (profile_tag_of(pts, p) == ProfileTag::LowCost) <==> (2 * p.monthly_cost_usd <= lo_c
            + hi_c && p.p95_ms >= (lo_l + hi_l) / 2),
        (profile_tag_of(pts, p) == ProfileTag::Balanced) <==> !((2 * p.monthly_cost_usd > lo_c
            + hi_c && p.p95_ms < (lo_l + hi_l) / 2) || (2 * p.monthly_cost_usd <= lo_c + hi_c
            && p.p95_ms >= (lo_l + hi_l) / 2)),
{
    let n = pts.len() as int;
    lemma_extremes(pts, n);
    let j1 = choose|j: int| 0 <= j < pts.len() && #[trigger] pts[j].monthly_cost_usd == lo_c;
    let j2 = choose|j: int| 0 <= j < pts.len() && #[trigger] pts[j].monthly_cost_usd == hi_c;
    let j3 = choose|j: int| 0 <= j < pts.len() && #[trigger] pts[j].p95_ms == lo_l;
    let j4 = choose|j: int| 0 <= j < pts.len() && #[trigger] pts[j].p95_ms == hi_l;
    let k1 = choose|j: int| 0 <= j < n && #[trigger] pts[j].monthly_cost_usd == min_cost(pts, n);
    let k2 = choose|j: int| 0 <= j < n && #[trigger] pts[j].monthly_cost_usd == max_cost(pts, n);
    let k3 = choose|j: int| 0 <= j < n && #[trigger] pts[j].p95_ms == min_latency(pts, n);
    let k4 = choose|j: int| 0 <= j < n && #[trigger] pts[j].p95_ms == max_latency(pts, n);
    assert(pts[j1].monthly_cost_usd >= min_cost(pts, n));
    assert(pts[k1].monthly_cost_usd >= lo_c);
    assert(pts[j2].monthly_cost_usd <= max_cost(pts, n));
    assert(pts[k2].monthly_cost_usd <= hi_c);
    assert(pts[j3].p95_ms >= min_latency(pts, n));
    assert(pts[k3].p95_ms >= lo_l);
    assert(pts[j4].p95_ms <= max_latency(pts, n));
    assert(pts[k4].p95_ms <= hi_l);
}

/// Every low-latency plan of a frontier is faster, and dearer, than every
/// low-cost plan of it.
pub proof fn law_groups_ordered(pts: Seq<ParetoPoint>, a: ParetoPoint, b: ParetoPoint)
    requires
        profile_tag_of(pts, a) == ProfileTag::LowLatency,
        profile_tag_of(pts, b) == ProfileTag::LowCost,
    ensures
        a.p95_ms < b.p95_ms,
        a.monthly_cost_usd > b.monthly_cost_usd,
{
}

fn extremes(pts: &[ParetoPoint]) -> (r: (u64, u64, u32, u32))
    requires
        pts@.len() > 0,
    ensures
        r.0 == min_cost(pts@, pts@.len() as int),
        r.1 == max_cost(pts@, pts@.len() as int),
        r.2 == min_latency(pts@, pts@.len() as int),
        r.3 == max_latency(pts@, pts@.len() as int),
{
    let mut lo_c = pts[0].monthly_cost_usd;
    let mut hi_c = pts[0].monthly_cost_usd;
    let mut lo_l = pts[0].p95_ms;
    let mut hi_l = pts[0].p95_ms;
    let mut i: usize = 1;
    while i < pts.len()
        invariant
            1 <= i <= pts@.len(),
            lo_c == min_cost(pts@, i as int),
            hi_c == max_cost(pts@, i as int),
            lo_l == min_latency(pts@, i as int),
            hi_l == max_latency(pts@, i as int),
        decreases pts.len() - i,
    {
        let p = &pts[i];
        if p.monthly_cost_usd < lo_c {
            lo_c = p.monthly_cost_usd;
        }
        if p.monthly_cost_usd > hi_c {
            hi_c = p.monthly_cost_usd;
        }
        if p.p95_ms < lo_l {
            lo_l = p.p95_ms;
        }
        if p.p95_ms > hi_l {
            hi_l = p.p95_ms;
        }
        i = i + 1;
    }
    (lo_c, hi_c, lo_l, hi_l)
}

/// Groups the plans of a frontier into low-cost, low-latency and balanced.
pub fn classify_frontier(pts: &[ParetoPoint]) -> (r: Result<Vec<ProfileTag>, String>)
    requires
        pts@.len() > 0 ==> min_latency(pts@, pts@.len() as int) + max_latency(
            pts@,
            pts@.len() as int,
        ) <= u32::MAX,
    ensures
        match r {
            Ok(tags) => pts@.len() > 0 && tags@.len() == pts@.len() && forall|i: int|
                0 <= i < pts@.len() ==> #[trigger] tags@[i] == profile_tag_of(pts@, pts@[i]),
            Err(e) => pts@.len() == 0 && e@ == "pareto frontier is empty"@,
        },
{
    if pts.len() == 0 {
        return Err(String::from_str("pareto frontier is empty"));
    }
    let (lo_c, hi_c, lo_l, hi_l) = extremes(pts);
    let cost_sum = lo_c as u128 + hi_c as u128;
    let lat_mid = (lo_l + hi_l) / 2;
    let mut tags: Vec<ProfileTag> = Vec::new();
    let mut i: usize = 0;
    while i < pts.len()
        invariant
            i <= pts@.len(),
            tags@.len() == i,
            cost_sum == min_cost(pts@, pts@.len() as int) + max_cost(pts@, pts@.len() as int),
            lat_mid == (min_latency(pts@, pts@.len() as int) + max_latency(pts@, pts@.len() as int))
                / 2,
            forall|k: int| 0 <= k < i ==> #[trigger] tags@[k] == profile_tag_of(pts@, pts@[k]),
        decreases pts.len() - i,
    {
        let c2 = 2 * (pts[i].monthly_cost_usd as u128);
        let l = pts[i].p95_ms;
        let tag = if c2 <= cost_sum && l >= lat_mid {
            ProfileTag::LowCost
        } else if c2 > cost_sum && l < lat_mid {
            ProfileTag::LowLatency
        } else {
            ProfileTag::Balanced
        };
        tags.push(tag);
        i = i + 1;
    }
    Ok(tags)
}

/// The tag text of a group.
pub fn profile_tag_name(t: ProfileTag) -> (s: &'static str)
    ensures
        s@ == match t {
            ProfileTag::LowCost => "low-cost"@,
            ProfileTag::LowLatency => "low-latency"@,
            ProfileTag::Balanced => "balanced"@,
        },
{
    match t {
        ProfileTag::LowCost => "low-cost",
        ProfileTag::LowLatency => "low-latency",
        ProfileTag::Balanced => "balanced",
    }
}

/// The scenarios a group suits, and the advice given with it.
pub fn profile_advice(t: ProfileTag) -> (r: (&'static str, &'static str))
    ensures
        r.0@ == match t {
            ProfileTag::LowCost => "冷数据归档、预算敏感业务"@,
            ProfileTag::LowLatency => "Web3 前端、交互密集型访问场景"@,
            ProfileTag::Balanced => "通用业务、阶段性扩容"@,
        },
        r.1@ == match t {
            ProfileTag::LowCost => "优先控制预算，若时延目标收紧可逐步提升 target_hot_percent。"@,
            ProfileTag::LowLatency => "优先保障时延，需同步设置成本阈值防止热层扩张过快。"@,
            ProfileTag::Balanced => "作为默认配置起点，按周观察访问热度再微调冷热占比。"@,
        },
{
    match t {
        ProfileTag::LowCost => (
            "冷数据归档、预算敏感业务",
            "优先控制预算，若时延目标收紧可逐步提升 target_hot_percent。",
        ),
        ProfileTag::LowLatency => (
            "Web3 前端、交互密集型访问场景",
            "优先保障时延，需同步设置成本阈值防止热层扩张过快。",
        ),
        ProfileTag::Balanced => (
            "通用业务、阶段性扩容",
            "作为默认配置起点，按周观察访问热度再微调冷热占比。",
        ),
    }
}

// ---------------------------------------------------------------------------
// Template champion ranking
// ---------------------------------------------------------------------------

/// One template's scores. The composite score is kept in hundredths.
pub struct RankEntry {
    pub template: String,
    pub composite_hundredths: i64,
    pub p95_ms: u32,
    pub monthly_cost_usd: u64,
    pub reliability: u8,
}

/// The ordering key of an entry under a strategy, smaller first: higher
/// composite score first; ties broken by the strategy's priorities (lower
/// cost, lower latency, higher reliability, in the strategy's order).
pub open spec fn rank_key(s: ChampionStrategy, e: RankEntry) -> (int, int, int, int) {
    let c = e.monthly_cost_usd as int;
    let l = e.p95_ms as int;
    let r = -(e.reliability as int);
    match s {
        ChampionStrategy::Balanced => (-(e.composite_hundredths as int), c, l, r),
        ChampionStrategy::CostFirst => (-(e.composite_hundredths as int), c, l, r),
        ChampionStrategy::LatencyFirst => (-(e.composite_hundredths as int), l, c, r),
        ChampionStrategy::ReliabilityFirst => (-(e.composite_hundredths as int), r, l, c),
    }
}

/// Lexicographic order of keys, then of template names.
pub open spec fn key_less(a: (int, int, int, int), an: Seq<char>, b: (int, int, int, int), bn: Seq<
    char,
>) -> bool {
    a.0 < b.0 || (a.0 == b.0 && (a.1 < b.1 || (a.1 == b.1 && (a.2 < b.2 || (a.2 == b.2 && (a.3
        < b.3 || (a.3 == b.3 && text_less(an, bn))))))))
}

/// Entry `a` ranks strictly before entry `b` under strategy `s`.
pub open spec fn champion_before(s: ChampionStrategy, a: RankEntry, b: RankEntry) -> bool {
    key_less(rank_key(s, a), a.template@, rank_key(s, b), b.template@)
}

/// Position `i` comes before position `j` in the ranking: it ranks strictly
/// before, or ranks the same and came first.
pub open spec fn ranked_before(s: ChampionStrategy, es: Seq<RankEntry>, i: int, j: int) -> bool {
    champion_before(s, es[i], es[j]) || (!champion_before(s, es[j], es[i]) && i < j)
}

/// `order` ranks every entry once, in ranking order.
pub open spec fn is_ranking(s: ChampionStrategy, es: Seq<RankEntry>, order: Seq<usize>) -> bool {
    &&& order.len() == es.len()
    &&& forall|a: int| 0 <= a < order.len() ==> (#[trigger] order[a] as int) < es.len()
    &&& forall|x: usize| (x as int) < es.len() ==> #[trigger] order.contains(x)
    &&& forall|a: int, b: int|
        0 <= a < b < order.len() ==> ranked_before(s, es, order[a] as int, order[b] as int)
}

proof fn lemma_champion_order(s: ChampionStrategy, a: RankEntry, b: RankEntry, c: RankEntry)
    ensures
        !champion_before(s, a, a),
        champion_before(s, a, b) && champion_before(s, b, c) ==> champion_before(s, a, c),
        champion_before(s, a, b) && !champion_before(s, c, b) ==> champion_before(s, a, c)
            || !champion_before(s, c, a),
        !champion_before(s, a, b) && !champion_before(s, b, a) && champion_before(s, b, c)
            ==> champion_before(s, a, c),
        !champion_before(s, a, b) && !champion_before(s, b, a) && champion_before(s, c, b)
            ==> champion_before(s, c, a),
        !champion_before(s, a, b) && !champion_before(s, b, a) && !champion_before(s, b, c)
            && !champion_before(s, c, b) ==> !champion_before(s, a, c) && !champion_before(s, c, a),
{
    lemma_text_less_irreflexive(a.template@);
    lemma_text_less_total(a.template@, b.template@);
    lemma_text_less_total(b.template@, c.template@);
    lemma_text_less_total(a.template@, c.template@);
    if text_less(a.template@, b.template@) && text_less(b.template@, c.template@) {
        lemma_text_less_transitive(a.template@, b.template@, c.template@);
    }
    if text_less(c.template@, b.template@) && text_less(b.template@, a.template@) {
        lemma_text_less_transitive(c.template@, b.template@, a.template@);
    }
    if text_less(b.template@, a.template@) && text_less(a.template@, c.template@) {
        lemma_text_less_transitive(b.template@, a.template@, c.template@);
    }
    if text_less(a.template@, c.template@) && text_less(c.template@, b.template@) {
        lemma_text_less_transitive(a.template@, c.template@, b.template@);
    }
    if text_less(c.template@, a.template@) && text_less(a.template@, b.template@) {
        lemma_text_less_transitive(c.template@, a.template@, b.template@);
    }
    if text_less(b.template@, c.template@) && text_less(c.template@, a.template@) {
        lemma_text_less_transitive(b.template@, c.template@, a.template@);
    }
    if text_less(a.template@, b.template@) {
        lemma_text_less_irreflexive(b.template@);
        if text_less(b.template@, a.template@) {
            lemma_text_less_transitive(a.template@, b.template@, a.template@);
        }
    }
    if text_less(b.template@, c.template@) && text_less(c.template@, b.template@) {
        lemma_text_less_transitive(b.template@, c.template@, b.template@);
        lemma_text_less_irreflexive(b.template@);
    }
    if text_less(a.template@, c.template@) && text_less(c.template@, a.template@) {
        lemma_text_less_transitive(a.template@, c.template@, a.template@);
    }
}

/// Whether entry `a` ranks strictly before entry `b`.
fn champion_before_exec(s: ChampionStrategy, a: &RankEntry, b: &RankEntry) -> (r: bool)
    ensures
        r == champion_before(s, *a, *b),
{
    if a.composite_hundredths != b.composite_hundredths {
        return a.composite_hundredths > b.composite_hundredths;
    }
    let (a1, a2, a3, b1, b2, b3): (i128, i128, i128, i128, i128, i128) = match s {
        ChampionStrategy::Balanced | ChampionStrategy::CostFirst => (
            a.monthly_cost_usd as i128,
            a.p95_ms as i128,
            -(a.reliability as i128),
            b.monthly_cost_usd as i128,
            b.p95_ms as i128,
            -(b.reliability as i128),
        ),
        ChampionStrategy::LatencyFirst => (
            a.p95_ms as i128,
            a.monthly_cost_usd as i128,
            -(a.reliability as i128),
            b.p95_ms as i128,
            b.monthly_cost_usd as i128,
            -(b.reliability as i128),
        ),
        ChampionStrategy::ReliabilityFirst => (
            -(a.reliability as i128),
            a.p95_ms as i128,
            a.monthly_cost_usd as i128,
            -(b.reliability as i128),
            b.p95_ms as i128,
            b.monthly_cost_usd as i128,
        ),
    };
    if a1 != b1 {
        return a1 < b1;
    }
    if a2 != b2 {
        return a2 < b2;
    }
    if a3 != b3 {
        return a3 < b3;
    }
    let an = chars_of(a.template.as_str());
    let bn = chars_of(b.template.as_str());
    text_less_exec(an.as_slice(), bn.as_slice())
}

/// Inserting `i` just before the first entry it ranks strictly before keeps
/// a ranking of earlier positions in ranking order.
proof fn lemma_rank_insert(
    s: ChampionStrategy,
    es: Seq<RankEntry>,
    order: Seq<usize>,
    p: int,
    i: usize,
)
    requires
        0 <= p <= order.len(),
        (i as int) < es.len(),
        forall|a: int| 0 <= a < order.len() ==> (#[trigger] order[a] as int) < i,
        forall|a: int, b: int|
            0 <= a < b < order.len() ==> ranked_before(s, es, order[a] as int, order[b] as int),
        forall|a: int|
            0 <= a < p ==> !champion_before(s, es[i as int], es[#[trigger] order[a] as int]),
        p < order.len() ==> champion_before(s, es[i as int], es[order[p] as int]),
    ensures
        forall|a: int, b: int|
            0 <= a < b < order.insert(p, i).len() ==> ranked_before(
                s,
                es,
                order.insert(p, i)[a] as int,
                order.insert(p, i)[b] as int,
            ),
{
    let g = order.insert(p, i);
    assert forall|a: int, b: int| 0 <= a < b < g.len() implies ranked_before(
        s,
        es,
        g[a] as int,
        g[b] as int,
    ) by {
        if b < p {
            assert(g[a] == order[a] && g[b] == order[b]);
        } else if b == p {
            assert(g[a] == order[a] && g[b] == i);
            assert((order[a] as int) < i);
        } else if a < p {
            assert(g[a] == order[a] && g[b] == order[b - 1]);
        } else if a == p {
            let y = order[b - 1] as int;
            let z = order[p] as int;
            assert(g[a] == i && g[b] == order[b - 1]);
            assert((y as int) < i);
            lemma_champion_order(s, es[i as int], es[z], es[y]);
            lemma_champion_order(s, es[y], es[z], es[i as int]);
            if b - 1 > p {
                assert(ranked_before(s, es, z, y));
            }
        } else {
            assert(g[a] == order[a - 1] && g[b] == order[b - 1]);
        }
    }
}

/// Ranks templates by composite score, breaking ties by the strategy's
/// priorities and then by template name; a stable sort.
pub fn rank_templates(entries: &[RankEntry], strategy: ChampionStrategy) -> (order: Vec<usize>)
    ensures
        is_ranking(strategy, entries@, order@),
{
    let mut order: Vec<usize> = Vec::new();
    let mut i: usize = 0;
    while i < entries.len()
        invariant
            i <= entries@.len(),
            order@.len() == i,
            forall|a: int| 0 <= a < order@.len() ==> (#[trigger] order@[a] as int) < i,
            forall|x: usize| x < i ==> #[trigger] order@.contains(x),
            forall|a: int, b: int|
                0 <= a < b < order@.len() ==> ranked_before(
                    strategy,
                    entries@,
                    order@[a] as int,
                    order@[b] as int,
                ),
        decreases entries.len() - i,
    {
        let mut p: usize = 0;
        while p < order.len()
            invariant
                p <= order@.len(),
                i < entries@.len(),
                order@.len() == i,
                forall|a: int| 0 <= a < order@.len() ==> (#[trigger] order@[a] as int) < i,
                forall|a: int| 0 <= a < p ==> !champion_before(strategy, entries@[i as int], entries@[#[trigger] order@[a] as int]),
            ensures
                p <= order@.len(),
                forall|a: int| 0 <= a < p ==> !champion_before(strategy, entries@[i as int], entries@[#[trigger] order@[a] as int]),
                p < order@.len() ==> champion_before(strategy, entries@[i as int], entries@[order@[p as int] as int]),
            decreases order@.len() - p,
        {
            if champion_before_exec(strategy, &entries[i], &entries[order[p]]) {
                break;
            }
            p = p + 1;
        }
        let ghost old_order = order@;
        let ghost es = entries@;
        order.insert(p, i);
        proof {
            lemma_rank_insert(strategy, es, old_order, p as int, i);
            assert forall|x: usize| x < i + 1 implies #[trigger] order@.contains(x) by {
                if x == i {
                    assert(order@[p as int] == i);
                } else {
                    assert(old_order.contains(x));
                    let a = choose|a: int| 0 <= a < old_order.len() && old_order[a] == x;
                    if a < p {
                        assert(order@[a] == x);
                    } else {
                        assert(order@[a + 1] == x);
                    }
                }
            }
        }
        i = i + 1;
    }
    order
}

/// An entry ranked before another has at least its composite score.
proof fn lemma_ranked_score(s: ChampionStrategy, es: Seq<RankEntry>, i: int, j: int)
    requires
        ranked_before(s, es, i, j),
    ensures
        es[i].composite_hundredths >= es[j].composite_hundredths,
        i != j,
{
    lemma_champion_order(s, es[i], es[i], es[i]);
}

/// In a ranking, no entry at or above position `a` scores below the one at
/// `a`, and none below it scores above; the first `a + 1` positions hold
/// distinct entries.
proof fn lemma_ranking_prefix(s: ChampionStrategy, es: Seq<RankEntry>, o: Seq<usize>, a: int)
    requires
        is_ranking(s, es, o),
        0 <= a < o.len(),
    ensures
        forall|p: int|
            0 <= p <= a ==> es[#[trigger] o[p] as int].composite_hundredths
                >= es[o[a] as int].composite_hundredths,
        forall|q: int|
            a <= q < o.len() ==> es[#[trigger] o[q] as int].composite_hundredths
                <= es[o[a] as int].composite_hundredths,
        o.take(a + 1).no_duplicates(),
{
    assert forall|p: int| 0 <= p <= a implies es[#[trigger] o[p] as int].composite_hundredths
        >= es[o[a] as int].composite_hundredths by {
        if p < a {
            lemma_ranked_score(s, es, o[p] as int, o[a] as int);
        }
    }
    assert forall|q: int| a <= q < o.len() implies es[#[trigger] o[q] as int].composite_hundredths
        <= es[o[a] as int].composite_hundredths by {
        if a < q {
            lemma_ranked_score(s, es, o[a] as int, o[q] as int);
        }
    }
    let t = o.take(a + 1);
    assert forall|p: int, r: int| 0 <= p < t.len() && 0 <= r < t.len() && p != r implies t[p]
        != t[r] by {
        if p < r {
            lemma_ranked_score(s, es, o[p] as int, o[r] as int);
        } else {
            lemma_ranked_score(s, es, o[r] as int, o[p] as int);
        }
    }
}

/// At every position, a ranking under `s1` scores no higher than one under
/// `s2`.
proof fn lemma_position_score_le(
    s1: ChampionStrategy,
    s2: ChampionStrategy,
    es: Seq<RankEntry>,
    o1: Seq<usize>,
    o2: Seq<usize>,
    a: int,
)
    requires
        is_ranking(s1, es, o1),
        is_ranking(s2, es, o2),
        0 <= a < es.len(),
    ensures
        es[o1[a] as int].composite_hundredths <= es[o2[a] as int].composite_hundredths,
{
    let v = es[o1[a] as int].composite_hundredths;
    if v > es[o2[a] as int].composite_hundredths {
        lemma_ranking_prefix(s1, es, o1, a);
        lemma_ranking_prefix(s2, es, o2, a);
        let top = o1.take(a + 1);
        let before = o2.take(a);
        top.unique_seq_to_set();
        before.lemma_cardinality_of_set();
        assert forall|x: usize| #[trigger] top.to_set().contains(x) implies before.to_set().contains(
            x,
        ) by {
            let p = choose|p: int| 0 <= p < top.len() && top[p] == x;
            assert(o1[p] == x);
            assert(es[x as int].composite_hundredths >= v);
            assert(o2.contains(x));
            let q = choose|q: int| 0 <= q < o2.len() && o2[q] == x;
            if q >= a {
                assert(es[o2[q] as int].composite_hundredths <= es[o2[a] as int].composite_hundredths);
            }
            assert(before[q] == x);
        }
        vstd::set_lib::lemma_len_subset(top.to_set(), before.to_set());
    }
}

/// The strategy only breaks ties: rankings of the same entries under any two
/// strategies have the same composite score at every position, so they
/// differ only in the order of entries whose scores are equal.
pub proof fn law_strategy_breaks_ties(
    s1: ChampionStrategy,
    s2: ChampionStrategy,
    es: Seq<RankEntry>,
    o1: Seq<usize>,
    o2: Seq<usize>,
)
    requires
        is_ranking(s1, es, o1),
        is_ranking(s2, es, o2),
    ensures
        forall|a: int|
            0 <= a < es.len() ==> es[#[trigger] o1[a] as int].composite_hundredths == es[o2[a] as int].composite_hundredths,
{
    assert forall|a: int| 0 <= a < es.len() implies es[#[trigger] o1[a] as int].composite_hundredths
        == es[o2[a] as int].composite_hundredths by {
        lemma_position_score_le(s1, s2, es, o1, o2, a);
        lemma_position_score_le(s2, s1, es, o2, o1, a);
    }
}

/// A score in hundredths written with two decimals (`{:.2}`).
pub open spec fn hundredths_text(h: nat) -> Seq<char> {
    decimal(h / 100) + "."@ + pad_zeros(decimal(h % 100), 2)
}

/// Why the champion wins, quoting its composite score.
pub open spec fn champion_reason_text(template: Seq<char>, h: nat) -> Seq<char> {
    template + " 在当前约束下综合得分最高（"@ + hundredths_text(h) + "），兼顾时延、成本和可靠性。"@
}

/// The explanation given for the champion template.
pub fn champion_reason(template: &str, composite_hundredths: i64) -> (r: String)
    requires
        composite_hundredths >= 0,
    ensures
        r@ == champion_reason_text(template@, composite_hundredths as nat),
{
    let h = composite_hundredths as u64;
    let mut v: Vec<char> = Vec::new();
    extend_str(&mut v, template);
    extend_str(&mut v, " 在当前约束下综合得分最高（");
    let a = decimal_chars(h / 100);
    extend_chars(&mut v, a.as_slice());
    extend_str(&mut v, ".");
    let b = decimal_chars(h % 100);
    let b = zero_padded(b.as_slice(), 2);
    extend_chars(&mut v, b.as_slice());
    extend_str(&mut v, "），兼顾时延、成本和可靠性。");
    string_from_chars(v.as_slice())
}

} // verus!
