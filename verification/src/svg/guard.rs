//! The guard's choices that are not measures: which entities a pass of the
//! guard weighs, which of those it sets aside within its budget, and how
//! the passes together stay within the guard's limit. What is large and
//! what is far -- diagonals, distances and the rest's box -- are measured
//! in floating point by the caller and handed over as rankings and flags.

use vstd::prelude::*;
use crate::svg::crop::LeftOutReason;

verus! {

/// How many of each ranking a pass over `m` remaining entities weighs
/// with `budget` entities left to set aside: a quarter of them at most,
/// and no more than the budget.
pub open spec fn pass_width(m: int, budget: int) -> int {
    if budget <= m / 4 {
        budget
    } else {
        m / 4
    }
}

/// The candidates, after the first `n` of the ranking by distance: the
/// `k` largest (`by_size`), then each of the `n` farthest not already
/// among them.
pub open spec fn candidates_after(by_size: Seq<usize>, by_distance: Seq<usize>, k: int, n: int) -> Seq<usize>
    decreases n,
{
    if n <= 0 {
        by_size.take(k)
    } else {
        let c = candidates_after(by_size, by_distance, k, n - 1);
        if c.contains(by_distance[n - 1]) {
            c
        } else {
            c.push(by_distance[n - 1])
        }
    }
}

/// The entities a pass weighs, out of `m` remaining ranked largest first
/// (`by_size`) and farthest first (`by_distance`): none when fewer than
/// four remain or the width is nought, otherwise the `k` largest and then
/// the `k` farthest not already among them, `k` the pass's width.
pub open spec fn candidates_of(budget: int, by_size: Seq<usize>, by_distance: Seq<usize>) -> Seq<usize> {
    let m = by_size.len() as int;
    let k = pass_width(m, budget);
    if m < 4 || k == 0 {
        Seq::empty()
    } else {
        candidates_after(by_size, by_distance, k, k)
    }
}

/// The candidates after `n` of the farthest come from the two rankings,
/// number no more than `k + n`, and hold no index twice when the largest
/// `k` do not.
proof fn lemma_candidates_after(by_size: Seq<usize>, by_distance: Seq<usize>, k: int, n: int)
    requires
        0 <= k <= by_size.len(),
        0 <= n <= by_distance.len(),
    ensures
        candidates_after(by_size, by_distance, k, n).len() <= k + n,
        forall|j: int|
            0 <= j < candidates_after(by_size, by_distance, k, n).len() ==> by_size.contains(
                #[trigger] candidates_after(by_size, by_distance, k, n)[j],
            ) || by_distance.contains(candidates_after(by_size, by_distance, k, n)[j]),
        (forall|a: int, b: int| 0 <= a < b < k ==> by_size[a] != by_size[b]) ==> (forall|a: int, b: int|
            0 <= a < b < candidates_after(by_size, by_distance, k, n).len() ==> #[trigger] candidates_after(
                by_size,
                by_distance,
                k,
                n,
            )[a] != #[trigger] candidates_after(by_size, by_distance, k, n)[b]),
    decreases n,
{
    if n > 0 {
        lemma_candidates_after(by_size, by_distance, k, n - 1);
        let c = candidates_after(by_size, by_distance, k, n - 1);
        assert(by_distance.contains(by_distance[n - 1]));
    } else {
        let c = by_size.take(k);
        assert forall|j: int| 0 <= j < c.len() implies by_size.contains(#[trigger] c[j]) || by_distance.contains(c[j]) by {
            assert(c[j] == by_size[j]);
        }
    }
}

/// No entry of `s` twice.
pub open spec fn distinct(s: Seq<usize>) -> bool {
    forall|a: int, b: int| 0 <= a < b < s.len() ==> #[trigger] s[a] != #[trigger] s[b]
}

/// The entities a pass of the guard weighs (see [`candidates_of`]):
/// `by_size` and `by_distance` rank the same remaining entities, largest
/// and farthest from their median centre first.
pub fn pass_candidates(budget: usize, by_size: &[usize], by_distance: &[usize]) -> (r: Vec<usize>)
    requires
        by_size@.len() == by_distance@.len(),
    ensures
        r@ == candidates_of(budget as int, by_size@, by_distance@),
        r@.len() <= 2 * pass_width(by_size@.len() as int, budget as int),
        forall|j: int| 0 <= j < r@.len() ==> by_size@.contains(#[trigger] r@[j]) || by_distance@.contains(r@[j]),
        distinct(by_size@) ==> distinct(r@),
{
    let m = by_size.len();
    let k = if budget <= m / 4 {
        budget
    } else {
        m / 4
    };
    let mut r: Vec<usize> = Vec::new();
    if m < 4 || k == 0 {
        return r;
    }
    let mut i: usize = 0;
    while i < k
        invariant
            k <= m / 4,
            m == by_size@.len(),
            i <= k,
            r@ == by_size@.take(i as int),
        decreases k - i,
    {
        r.push(by_size[i]);
        i = i + 1;
        assert(r@ =~= by_size@.take(i as int));
    }
    let mut j: usize = 0;
    while j < k
        invariant
            k <= m / 4,
            m == by_size@.len(),
            m == by_distance@.len(),
            j <= k,
            r@ == candidates_after(by_size@, by_distance@, k as int, j as int),
        decreases k - j,
    {
        let d = by_distance[j];
        let mut seen = false;
        let mut t: usize = 0;
        while t < r.len()
            invariant
                t <= r@.len(),
                seen == (exists|u: int| 0 <= u < t && r@[u] == d),
            decreases r@.len() - t,
        {
            if r[t] == d {
                seen = true;
            }
            t = t + 1;
        }
        if !seen {
            r.push(d);
        }
        j = j + 1;
    }
    proof {
        lemma_candidates_after(by_size@, by_distance@, k as int, k as int);
        if distinct(by_size@) {
            assert forall|a: int, b: int| 0 <= a < b < k implies by_size@[a] != by_size@[b] by {
                assert(by_size@[a] != by_size@[b]);
            }
        }
    }
    r
}

/// The positions (in the candidate list) of the scale outliers among the
/// first `n` of `size_order`, largest first.
pub open spec fn scale_positions(size_order: Seq<usize>, is_scale: Seq<bool>, n: int) -> Seq<usize>
    decreases n,
{
    if n <= 0 {
        Seq::empty()
    } else if is_scale[size_order[n - 1] as int] {
        scale_positions(size_order, is_scale, n - 1).push(size_order[n - 1])
    } else {
        scale_positions(size_order, is_scale, n - 1)
    }
}

/// The scale outliers a pass sets aside, largest first: those flagged,
/// cut to the budget.
pub open spec fn scale_kept(candidates: Seq<usize>, size_order: Seq<usize>, is_scale: Seq<bool>, budget: int) -> Seq<usize> {
    let all = scale_positions(size_order, is_scale, size_order.len() as int);
    let kept = if all.len() > budget {
        all.take(budget)
    } else {
        all
    };
    kept.map_values(|p: usize| candidates[p as int])
}

/// The far outliers among the first `n` candidates, in candidate order:
/// those flagged far that are not kept as scale outliers.
pub open spec fn far_found(candidates: Seq<usize>, is_far: Seq<bool>, scale: Seq<usize>, n: int) -> Seq<usize>
    decreases n,
{
    if n <= 0 {
        Seq::empty()
    } else if is_far[n - 1] && !scale.contains(candidates[n - 1]) {
        far_found(candidates, is_far, scale, n - 1).push(candidates[n - 1])
    } else {
        far_found(candidates, is_far, scale, n - 1)
    }
}

/// What a pass sets aside, of `m` remaining entities, with `budget` left:
/// nothing when fewer than three entities would be left as the rest once
/// the candidates are weighed; otherwise the scale outliers, largest first
/// and no more than the budget, then the far outliers -- only when there
/// are some, they fit the budget beside the scale outliers, and they are
/// no more than a fifth of the remaining entities.
pub open spec fn settled_of(
    m: int,
    budget: int,
    candidates: Seq<usize>,
    size_order: Seq<usize>,
    is_scale: Seq<bool>,
    is_far: Seq<bool>,
) -> Seq<(usize, LeftOutReason)> {
    if m - candidates.len() < 3 {
        Seq::empty()
    } else {
        let scale = scale_kept(candidates, size_order, is_scale, budget);
        let far = far_found(candidates, is_far, scale, candidates.len() as int);
        let set_scale = scale.map_values(|i: usize| (i, LeftOutReason::ScaleOutlier));
        if far.len() > 0 && far.len() + scale.len() <= budget && far.len() * 5 <= m {
            set_scale + far.map_values(|i: usize| (i, LeftOutReason::FarOutlier))
        } else {
            set_scale
        }
    }
}

/// The scale positions come from `size_order` and number no more than it.
proof fn lemma_scale_positions(size_order: Seq<usize>, is_scale: Seq<bool>, n: int)
    requires
        0 <= n <= size_order.len(),
    ensures
        scale_positions(size_order, is_scale, n).len() <= n,
        forall|j: int|
            0 <= j < scale_positions(size_order, is_scale, n).len() ==> size_order.contains(
                #[trigger] scale_positions(size_order, is_scale, n)[j],
            ),
    decreases n,
{
    if n > 0 {
        lemma_scale_positions(size_order, is_scale, n - 1);
        assert(size_order.contains(size_order[n - 1]));
    }
}

/// The far outliers are candidates, none kept as a scale outlier, and no
/// more than the candidates.
proof fn lemma_far_found(candidates: Seq<usize>, is_far: Seq<bool>, scale: Seq<usize>, n: int)
    requires
        0 <= n <= candidates.len(),
    ensures
        far_found(candidates, is_far, scale, n).len() <= n,
        forall|j: int|
            0 <= j < far_found(candidates, is_far, scale, n).len() ==> candidates.contains(
                #[trigger] far_found(candidates, is_far, scale, n)[j],
            ) && !scale.contains(far_found(candidates, is_far, scale, n)[j]),
    decreases n,
{
    if n > 0 {
        lemma_far_found(candidates, is_far, scale, n - 1);
        assert(candidates.contains(candidates[n - 1]));
    }
}

/// What one pass of the guard sets aside, given what it measured (see
/// [`settled_of`]): `m` entities remain, `budget` more may go;
/// `candidates` are the pass's candidates ([`pass_candidates`]);
/// `size_order` lists their positions largest first; `is_scale` and
/// `is_far` say, by position, which is over 20 of the rest's diagonals
/// across and which that far from the rest. A pass never sets aside more
/// than its budget, only its candidates, and never for lying outside the
/// view.
pub fn settle_outliers(
    m: usize,
    budget: usize,
    candidates: &[usize],
    size_order: &[usize],
    is_scale: &[bool],
    is_far: &[bool],
) -> (r: Vec<(usize, LeftOutReason)>)
    requires
        is_scale@.len() == candidates@.len(),
        is_far@.len() == candidates@.len(),
        forall|j: int| 0 <= j < size_order@.len() ==> (#[trigger] size_order@[j] as int) < candidates@.len(),
    ensures
        r@ == settled_of(m as int, budget as int, candidates@, size_order@, is_scale@, is_far@),
        r@.len() <= budget,
        forall|j: int|
            0 <= j < r@.len() ==> candidates@.contains((#[trigger] r@[j]).0) && r@[j].1 != LeftOutReason::OutsideView,
{
    let mut r: Vec<(usize, LeftOutReason)> = Vec::new();
    if candidates.len() > m || m - candidates.len() < 3 {
        return r;
    }
    // The scale outliers, largest first, cut to the budget.
    let ghost positions = scale_positions(size_order@, is_scale@, size_order@.len() as int);
    let mut all: Vec<usize> = Vec::new();
    let mut i: usize = 0;
    while i < size_order.len()
        invariant
            i <= size_order@.len(),
            is_scale@.len() == candidates@.len(),
            forall|j: int| 0 <= j < size_order@.len() ==> (#[trigger] size_order@[j] as int) < candidates@.len(),
            all@ == scale_positions(size_order@, is_scale@, i as int),
        decreases size_order@.len() - i,
    {
        if is_scale[size_order[i]] {
            all.push(size_order[i]);
        }
        i = i + 1;
    }
    proof {
        lemma_scale_positions(size_order@, is_scale@, size_order@.len() as int);
    }
    let kept_len = if all.len() > budget {
        budget
    } else {
        all.len()
    };
    let mut scale: Vec<usize> = Vec::new();
    let mut s: usize = 0;
    while s < kept_len
        invariant
            kept_len <= all@.len(),
            all@ == positions,
            positions == scale_positions(size_order@, is_scale@, size_order@.len() as int),
            forall|j: int| 0 <= j < positions.len() ==> size_order@.contains(#[trigger] positions[j]),
            forall|j: int| 0 <= j < size_order@.len() ==> (#[trigger] size_order@[j] as int) < candidates@.len(),
            s <= kept_len,
            scale@ == positions.take(s as int).map_values(|p: usize| candidates@[p as int]),
        decreases kept_len - s,
    {
        let p = all[s];
        assert(size_order@.contains(positions[s as int]));
        scale.push(candidates[p]);
        s = s + 1;
        assert(scale@ =~= positions.take(s as int).map_values(|p: usize| candidates@[p as int]));
    }
    let ghost scale_spec = scale_kept(candidates@, size_order@, is_scale@, budget as int);
    assert(positions.take(kept_len as int) =~= (if positions.len() > budget { positions.take(budget as int) } else { positions }));
    assert(scale@ =~= scale_spec);
    // The far outliers, in candidate order.
    let mut far: Vec<usize> = Vec::new();
    let mut c: usize = 0;
    while c < candidates.len()
        invariant
            c <= candidates@.len(),
            is_far@.len() == candidates@.len(),
            far@ == far_found(candidates@, is_far@, scale@, c as int),
        decreases candidates@.len() - c,
    {
        if is_far[c] {
            let id = candidates[c];
            let mut in_scale = false;
            let mut t: usize = 0;
            while t < scale.len()
                invariant
                    t <= scale@.len(),
                    in_scale == (exists|u: int| 0 <= u < t && scale@[u] == id),
                decreases scale@.len() - t,
            {
                if scale[t] == id {
                    in_scale = true;
                }
                t = t + 1;
            }
            if !in_scale {
                far.push(id);
            }
        }
        c = c + 1;
    }
    proof {
        lemma_far_found(candidates@, is_far@, scale@, candidates@.len() as int);
        assert forall|j: int| 0 <= j < scale@.len() implies candidates@.contains(#[trigger] scale@[j]) by {
            assert(size_order@.contains(positions[j]));
            let q = choose|q: int| 0 <= q < size_order@.len() && size_order@[q] == positions[j];
            assert((size_order@[q] as int) < candidates@.len());
            assert(scale@[j] == candidates@[positions[j] as int]);
        }
    }
    let mut k: usize = 0;
    while k < scale.len()
        invariant
            k <= scale@.len(),
            r@ == scale@.take(k as int).map_values(|i: usize| (i, LeftOutReason::ScaleOutlier)),
        decreases scale@.len() - k,
    {
        r.push((scale[k], LeftOutReason::ScaleOutlier));
        k = k + 1;
        assert(r@ =~= scale@.take(k as int).map_values(|i: usize| (i, LeftOutReason::ScaleOutlier)));
    }
    assert(scale@.take(scale@.len() as int) =~= scale@);
    let ghost set_scale = r@;
    if far.len() > 0 && far.len() <= budget && scale.len() <= budget - far.len() && far.len() <= m / 5 && far.len() * 5 <= m {
        let mut f: usize = 0;
        while f < far.len()
            invariant
                f <= far@.len(),
                r@ == set_scale + far@.take(f as int).map_values(|i: usize| (i, LeftOutReason::FarOutlier)),
            decreases far@.len() - f,
        {
            r.push((far[f], LeftOutReason::FarOutlier));
            f = f + 1;
            assert(r@ =~= set_scale + far@.take(f as int).map_values(|i: usize| (i, LeftOutReason::FarOutlier)));
        }
        assert(far@.take(far@.len() as int) =~= far@);
    }
    r
}

/// The scale positions after `n` of `size_order` are drawn from its first
/// `n`, in order, and hold none twice when it does not.
proof fn lemma_scale_positions_distinct(size_order: Seq<usize>, is_scale: Seq<bool>, n: int)
    requires
        0 <= n <= size_order.len(),
        distinct(size_order),
    ensures
        distinct(scale_positions(size_order, is_scale, n)),
        forall|j: int|
            0 <= j < scale_positions(size_order, is_scale, n).len() ==> exists|q: int|
                0 <= q < n && size_order[q] == #[trigger] scale_positions(size_order, is_scale, n)[j],
    decreases n,
{
    if n > 0 {
        lemma_scale_positions_distinct(size_order, is_scale, n - 1);
        let prev = scale_positions(size_order, is_scale, n - 1);
        let cur = scale_positions(size_order, is_scale, n);
        assert forall|j: int| 0 <= j < cur.len() implies exists|q: int| 0 <= q < n && size_order[q] == #[trigger] cur[j] by {
            if j < prev.len() {
                assert(cur[j] == prev[j]);
                let q = choose|q: int| 0 <= q < n - 1 && size_order[q] == prev[j];
                assert(0 <= q < n && size_order[q] == cur[j]);
            } else {
                assert(size_order[n - 1] == cur[j]);
            }
        }
        assert forall|a: int, b: int| 0 <= a < b < cur.len() implies #[trigger] cur[a] != #[trigger] cur[b] by {
            if b < prev.len() {
                assert(cur[a] == prev[a] && cur[b] == prev[b]);
            } else {
                assert(cur[a] == prev[a]);
                let q = choose|q: int| 0 <= q < n - 1 && size_order[q] == prev[a];
                assert(size_order[q] != size_order[n - 1]);
            }
        }
    }
}

/// The far outliers after `n` candidates are drawn from the first `n`,
/// and hold none twice when the candidates do not.
proof fn lemma_far_found_distinct(candidates: Seq<usize>, is_far: Seq<bool>, scale: Seq<usize>, n: int)
    requires
        0 <= n <= candidates.len(),
        distinct(candidates),
    ensures
        distinct(far_found(candidates, is_far, scale, n)),
        forall|j: int|
            0 <= j < far_found(candidates, is_far, scale, n).len() ==> exists|q: int|
                0 <= q < n && candidates[q] == #[trigger] far_found(candidates, is_far, scale, n)[j],
    decreases n,
{
    if n > 0 {
        lemma_far_found_distinct(candidates, is_far, scale, n - 1);
        let prev = far_found(candidates, is_far, scale, n - 1);
        let cur = far_found(candidates, is_far, scale, n);
        assert forall|j: int| 0 <= j < cur.len() implies exists|q: int| 0 <= q < n && candidates[q] == #[trigger] cur[j] by {
            if j < prev.len() {
                assert(cur[j] == prev[j]);
                let q = choose|q: int| 0 <= q < n - 1 && candidates[q] == prev[j];
                assert(0 <= q < n && candidates[q] == cur[j]);
            } else {
                assert(candidates[n - 1] == cur[j]);
            }
        }
        assert forall|a: int, b: int| 0 <= a < b < cur.len() implies #[trigger] cur[a] != #[trigger] cur[b] by {
            if b < prev.len() {
                assert(cur[a] == prev[a] && cur[b] == prev[b]);
            } else {
                assert(cur[a] == prev[a]);
                let q = choose|q: int| 0 <= q < n - 1 && candidates[q] == prev[a];
                assert(candidates[q] != candidates[n - 1]);
            }
        }
    }
}

/// The entities what a pass sets aside are about.
pub open spec fn set_aside_ids(r: Seq<(usize, LeftOutReason)>) -> Seq<usize> {
    r.map_values(|e: (usize, LeftOutReason)| e.0)
}

/// A pass sets each entity aside once at most: when its candidates are
/// distinct and `size_order` names each position once, no entity is both
/// a scale and a far outlier, nor either twice.
pub proof fn lemma_a_pass_sets_aside_each_entity_once(
    m: int,
    budget: int,
    candidates: Seq<usize>,
    size_order: Seq<usize>,
    is_scale: Seq<bool>,
    is_far: Seq<bool>,
)
    requires
        0 <= budget,
        distinct(candidates),
        distinct(size_order),
        forall|j: int| 0 <= j < size_order.len() ==> (#[trigger] size_order[j] as int) < candidates.len(),
    ensures
        distinct(set_aside_ids(settled_of(m, budget, candidates, size_order, is_scale, is_far))),
{
    let r = settled_of(m, budget, candidates, size_order, is_scale, is_far);
    if m - candidates.len() >= 3 {
        let all = scale_positions(size_order, is_scale, size_order.len() as int);
        lemma_scale_positions_distinct(size_order, is_scale, size_order.len() as int);
        let kept = if all.len() > budget { all.take(budget) } else { all };
        assert forall|a: int, b: int| 0 <= a < b < kept.len() implies #[trigger] kept[a] != #[trigger] kept[b] by {
            assert(kept[a] == all[a] && kept[b] == all[b]);
        }
        assert forall|j: int| 0 <= j < kept.len() implies (#[trigger] kept[j] as int) < candidates.len() by {
            assert(kept[j] == all[j]);
            let q = choose|q: int| 0 <= q < size_order.len() && size_order[q] == all[j];
        }
        let scale = scale_kept(candidates, size_order, is_scale, budget);
        assert(distinct(scale)) by {
            assert forall|a: int, b: int| 0 <= a < b < scale.len() implies #[trigger] scale[a] != #[trigger] scale[b] by {
                assert(kept[a] != kept[b]);
                assert(scale[a] == candidates[kept[a] as int]);
                assert(scale[b] == candidates[kept[b] as int]);
            }
        }
        let far = far_found(candidates, is_far, scale, candidates.len() as int);
        lemma_far_found_distinct(candidates, is_far, scale, candidates.len() as int);
        lemma_far_found(candidates, is_far, scale, candidates.len() as int);
        let ids = set_aside_ids(r);
        assert forall|a: int, b: int| 0 <= a < b < ids.len() implies #[trigger] ids[a] != #[trigger] ids[b] by {
            let ns = scale.len() as int;
            if b < ns {
                assert(ids[a] == scale[a] && ids[b] == scale[b]);
            } else if a >= ns {
                assert(ids[a] == far[a - ns] && ids[b] == far[b - ns]);
            } else {
                assert(ids[a] == scale[a] && ids[b] == far[b - ns]);
                assert(!scale.contains(far[b - ns]));
            }
        }
    }
}

/// How many more entities the guard may set aside once `taken` are, with
/// `limit` in all.
pub open spec fn budget_left(limit: int, taken: int) -> int {
    if taken >= limit {
        0
    } else {
        limit - taken
    }
}

/// How many more entities the guard may set aside once `taken` are, with
/// `limit` in all (see [`budget_left`]).
pub fn pass_budget(limit: usize, taken: usize) -> (r: usize)
    ensures
        r == budget_left(limit as int, taken as int),
{
    if taken >= limit {
        0
    } else {
        limit - taken
    }
}

/// Takes what a pass set aside, `found`, into what the guard sets aside,
/// `taken`, and says whether another pass is due: only when this one found
/// something and the limit is not reached. A pass kept within its budget
/// keeps the guard within its limit.
pub fn take_pass(taken: &mut Vec<(usize, LeftOutReason)>, found: Vec<(usize, LeftOutReason)>, limit: usize) -> (again: bool)
    requires
        old(taken)@.len() + found@.len() <= usize::MAX,
    ensures
        final(taken)@ == old(taken)@ + found@,
        again == (found@.len() > 0 && final(taken)@.len() < limit),
        old(taken)@.len() <= limit && found@.len() <= budget_left(limit as int, old(taken)@.len() as int)
            ==> final(taken)@.len() <= limit,
{
    let n = found.len();
    let mut i: usize = 0;
    let ghost start = taken@;
    while i < n
        invariant
            n == found@.len(),
            i <= n,
            taken@ == start + found@.take(i as int),
        decreases n - i,
    {
        taken.push(found[i]);
        i = i + 1;
        assert(taken@ =~= start + found@.take(i as int));
    }
    assert(found@.take(n as int) =~= found@);
    n > 0 && taken.len() < limit
}

/// What the guard set aside, `taken`, in the order of the entities: for
/// each index below `n`, its first entry.
pub open spec fn in_entity_order(n: int, taken: Seq<(usize, LeftOutReason)>) -> Seq<(usize, LeftOutReason)>
    decreases n,
{
    if n <= 0 {
        Seq::empty()
    } else {
        let prev = in_entity_order(n - 1, taken);
        if exists|k: int| 0 <= k < taken.len() && #[trigger] taken[k].0 == (n - 1) as usize {
            let k = choose|k: int|
                0 <= k < taken.len() && #[trigger] taken[k].0 == (n - 1) as usize && forall|j: int|
                    0 <= j < k ==> #[trigger] taken[j].0 != (n - 1) as usize;
            prev.push(taken[k])
        } else {
            prev
        }
    }
}

/// The indices below `n` the guard has not set aside, in order: what the
/// next pass weighs.
pub open spec fn remaining_of(n: int, taken: Seq<(usize, LeftOutReason)>) -> Seq<usize>
    decreases n,
{
    if n <= 0 {
        Seq::empty()
    } else if exists|k: int| 0 <= k < taken.len() && #[trigger] taken[k].0 == (n - 1) as usize {
        remaining_of(n - 1, taken)
    } else {
        remaining_of(n - 1, taken).push((n - 1) as usize)
    }
}

/// The indices below `n` the guard has not set aside, in order (see
/// [`remaining_of`]).
pub fn remaining_entities(n: usize, taken: &[(usize, LeftOutReason)]) -> (r: Vec<usize>)
    ensures
        r@ == remaining_of(n as int, taken@),
{
    let mut r: Vec<usize> = Vec::new();
    let mut i: usize = 0;
    while i < n
        invariant
            i <= n,
            r@ == remaining_of(i as int, taken@),
        decreases n - i,
    {
        if find_taken(taken, i).is_none() {
            r.push(i);
        }
        i = i + 1;
    }
    r
}

/// Where the first entry for index `i` stands in `taken`.
fn find_taken(taken: &[(usize, LeftOutReason)], i: usize) -> (r: Option<usize>)
    ensures
        match r {
            Some(k) => k < taken@.len() && taken@[k as int].0 == i && forall|j: int| 0 <= j < k ==> #[trigger] taken@[j].0 != i,
            None => !exists|k: int| 0 <= k < taken@.len() && #[trigger] taken@[k].0 == i,
        },
{
    let mut k: usize = 0;
    while k < taken.len()
        invariant
            k <= taken@.len(),
            forall|j: int| 0 <= j < k ==> #[trigger] taken@[j].0 != i,
        decreases taken@.len() - k,
    {
        if taken[k].0 == i {
            return Some(k);
        }
        k = k + 1;
    }
    None
}

/// What the guard set aside, in the order of the entities below `n` (see
/// [`in_entity_order`]).
pub fn set_aside_in_order(n: usize, taken: &[(usize, LeftOutReason)]) -> (r: Vec<(usize, LeftOutReason)>)
    ensures
        r@ == in_entity_order(n as int, taken@),
{
    let mut r: Vec<(usize, LeftOutReason)> = Vec::new();
    let mut i: usize = 0;
    while i < n
        invariant
            i <= n,
            r@ == in_entity_order(i as int, taken@),
        decreases n - i,
    {
        match find_taken(taken, i) {
            Some(k) => {
                proof {
                    let c = choose|c: int|
                        0 <= c < taken@.len() && #[trigger] taken@[c].0 == i && forall|j: int|
                            0 <= j < c ==> #[trigger] taken@[j].0 != i;
                    if c < k {
                        assert(taken@[c].0 != i);
                    } else if k < c {
                        assert(taken@[k as int].0 != i);
                    }
                }
                r.push(taken[k]);
            },
            None => {},
        }
        i = i + 1;
    }
    r
}

} // verus!
