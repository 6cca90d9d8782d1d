//! What a picture shows, and what its frame leaves out of it.

use vstd::prelude::*;

verus! {

/// Why an entity is not in the picture.
#[derive(Debug, Clone, Copy, PartialEq, Eq, PartialOrd, Ord, Structural)]
#[non_exhaustive]
pub enum LeftOutReason {
    /// The guard set it aside: its diagonal is over 20 times the rest of
    /// the drawing's. Not drawn.
    ScaleOutlier,
    /// The guard set it aside: it lies more than 20 of the rest's diagonals
    /// away from the rest. Not drawn.
    FarOutlier,
    /// Its extent does not reach the picture's viewBox. It is in the
    /// document all the same, outside what the viewBox shows.
    OutsideView,
}

/// Why a part is left out once the view is known: what the crop set it
/// aside for, if anything; otherwise outside the view when its extent
/// does not meet the view -- except a construction line, which reaches
/// every view.
pub open spec fn left_out_of(current: Option<LeftOutReason>, unbounded: bool, meets_view: bool) -> Option<LeftOutReason> {
    if current is None && !unbounded && !meets_view {
        Some(LeftOutReason::OutsideView)
    } else {
        current
    }
}

/// Why a part with a measured extent is left out of a picture whose view
/// is known: `current` is what the crop set it aside for, `unbounded`
/// whether it draws a construction line, `meets_view` whether its extent
/// meets the view.
pub fn view_left_out(current: Option<LeftOutReason>, unbounded: bool, meets_view: bool) -> (r: Option<LeftOutReason>)
    ensures
        r == left_out_of(current, unbounded, meets_view),
{
    if current.is_none() && !unbounded && !meets_view {
        Some(LeftOutReason::OutsideView)
    } else {
        current
    }
}

/// One top-level part, as the crop's marking reads it.
#[derive(Debug, Clone, Copy, PartialEq, Eq)]
pub struct CropPart {
    /// Whether it measured an extent.
    pub measured: bool,
    /// Whether it draws a construction line (a RAY, an XLINE, or a block
    /// reference holding one), which reaches every picture it crosses.
    pub unbounded: bool,
    /// Whether its extent meets the picture's view.
    pub meets_view: bool,
    /// Why the picture leaves it out, so far.
    pub left_out: Option<LeftOutReason>,
}

/// The indices, in order, of the first `n` parts that measured an extent:
/// the list the crop chooses over.
pub open spec fn measured_parts(parts: Seq<CropPart>, n: int) -> Seq<int>
    decreases n,
{
    if n <= 0 {
        Seq::empty()
    } else if parts[n - 1].measured {
        measured_parts(parts, n - 1).push(n - 1)
    } else {
        measured_parts(parts, n - 1)
    }
}

/// Why part `i` is left out once the first `n` of the crop's choices --
/// each a position in [`measured_parts`] and a reason -- are marked: the
/// last choice naming it, unless it draws a construction line.
pub open spec fn set_aside_after(
    parts: Seq<CropPart>,
    choices: Seq<(usize, LeftOutReason)>,
    n: int,
    i: int,
) -> Option<LeftOutReason>
    decreases n,
{
    if n <= 0 {
        parts[i].left_out
    } else {
        let (j, reason) = choices[n - 1];
        if measured_parts(parts, parts.len() as int)[j as int] == i && !parts[i].unbounded {
            Some(reason)
        } else {
            set_aside_after(parts, choices, n - 1, i)
        }
    }
}

/// The first `n` parts' positions in [`measured_parts`] lie below `n`,
/// in increasing order, and name exactly the parts that measured.
proof fn lemma_measured_parts(parts: Seq<CropPart>, n: int)
    requires
        0 <= n <= parts.len(),
    ensures
        measured_parts(parts, n).len() <= n,
        forall|k: int| 0 <= k < measured_parts(parts, n).len() ==> 0 <= #[trigger] measured_parts(parts, n)[k] < n,
        forall|k: int| 0 <= k < measured_parts(parts, n).len() ==> parts[#[trigger] measured_parts(parts, n)[k]].measured,
    decreases n,
{
    if n > 0 {
        lemma_measured_parts(parts, n - 1);
    }
}

/// The indices of the parts that measured an extent, in order.
fn measured_indices(parts: &Vec<CropPart>) -> (r: Vec<usize>)
    ensures
        r@.len() == measured_parts(parts@, parts@.len() as int).len(),
        forall|k: int| 0 <= k < r@.len() ==> #[trigger] r@[k] as int == measured_parts(parts@, parts@.len() as int)[k],
{
    let mut r: Vec<usize> = Vec::new();
    let mut i: usize = 0;
    while i < parts.len()
        invariant
            i <= parts@.len(),
            r@.len() == measured_parts(parts@, i as int).len(),
            forall|k: int| 0 <= k < r@.len() ==> #[trigger] r@[k] as int == measured_parts(parts@, i as int)[k],
        decreases parts@.len() - i,
    {
        if parts[i].measured {
            r.push(i);
        }
        i = i + 1;
    }
    r
}

/// Marks the parts the crop set aside: `choices` are its choices, each a
/// position in the list of the parts that measured an extent (in drawing
/// order) and the reason. A construction line is never set aside -- it
/// crosses whatever the frame is -- and a part named twice keeps the last
/// reason. Nothing else of any part changes.
pub fn mark_set_aside(parts: &mut Vec<CropPart>, choices: &[(usize, LeftOutReason)])
    requires
        forall|k: int| 0 <= k < choices@.len() ==> (#[trigger] choices@[k]).0 < measured_parts(old(parts)@, old(parts)@.len() as int).len(),
    ensures
        final(parts)@.len() == old(parts)@.len(),
        forall|i: int| 0 <= i < old(parts)@.len() ==> #[trigger] final(parts)@[i] == (CropPart {
            left_out: set_aside_after(old(parts)@, choices@, choices@.len() as int, i),
            ..old(parts)@[i]
        }),
{
    let ghost start = parts@;
    proof {
        lemma_measured_parts(start, start.len() as int);
    }
    let measured = measured_indices(parts);
    let mut k: usize = 0;
    while k < choices.len()
        invariant
            k <= choices@.len(),
            parts@.len() == start.len(),
            measured@.len() == measured_parts(start, start.len() as int).len(),
            forall|m: int| 0 <= m < measured@.len() ==> #[trigger] measured@[m] as int == measured_parts(start, start.len() as int)[m],
            forall|m: int| 0 <= m < measured@.len() ==> 0 <= #[trigger] measured_parts(start, start.len() as int)[m] < start.len(),
            forall|c: int| 0 <= c < choices@.len() ==> (#[trigger] choices@[c]).0 < measured@.len(),
            forall|i: int| 0 <= i < start.len() ==> #[trigger] parts@[i] == (CropPart {
                left_out: set_aside_after(start, choices@, k as int, i),
                ..start[i]
            }),
        decreases choices@.len() - k,
    {
        let (j, reason) = choices[k];
        let idx = measured[j];
        if !parts[idx].unbounded {
            let mut p = parts[idx];
            p.left_out = Some(reason);
            parts.set(idx, p);
        }
        k = k + 1;
    }
}

/// Marks, once the view is known, every measured part the crop did not
/// set aside whose extent does not meet the view as outside it (see
/// [`left_out_of`]), and lists every measured part the picture leaves
/// out, in drawing order.
pub fn mark_outside_view(parts: &mut Vec<CropPart>) -> (r: Vec<usize>)
    ensures
        final(parts)@.len() == old(parts)@.len(),
        forall|i: int| 0 <= i < old(parts)@.len() ==> #[trigger] final(parts)@[i] == (CropPart {
            left_out: if old(parts)@[i].measured {
                left_out_of(old(parts)@[i].left_out, old(parts)@[i].unbounded, old(parts)@[i].meets_view)
            } else {
                old(parts)@[i].left_out
            },
            ..old(parts)@[i]
        }),
        forall|k: int| 0 <= k < r@.len() ==> (#[trigger] r@[k]) < old(parts)@.len(),
        forall|j: int, k: int| 0 <= j < k < r@.len() ==> #[trigger] r@[j] < #[trigger] r@[k],
        forall|i: int|
            0 <= i < old(parts)@.len() ==> (r@.contains(i as usize) <==> (#[trigger] final(parts)@[i]).measured
                && final(parts)@[i].left_out is Some),
{
    let ghost start = parts@;
    let mut r: Vec<usize> = Vec::new();
    let mut i: usize = 0;
    while i < parts.len()
        invariant
            i <= start.len(),
            parts@.len() == start.len(),
            forall|m: int| 0 <= m < i ==> #[trigger] parts@[m] == (CropPart {
                left_out: if start[m].measured {
                    left_out_of(start[m].left_out, start[m].unbounded, start[m].meets_view)
                } else {
                    start[m].left_out
                },
                ..start[m]
            }),
            forall|m: int| i <= m < start.len() ==> #[trigger] parts@[m] == start[m],
            forall|k: int| 0 <= k < r@.len() ==> (#[trigger] r@[k]) < i,
            forall|j: int, k: int| 0 <= j < k < r@.len() ==> #[trigger] r@[j] < #[trigger] r@[k],
            forall|m: int|
                0 <= m < i ==> (r@.contains(m as usize) <==> (#[trigger] parts@[m]).measured && parts@[m].left_out is Some),
        decreases start.len() - i,
    {
        let ghost r_before = r@;
        let p = parts[i];
        if p.measured {
            let mut q = p;
            q.left_out = view_left_out(p.left_out, p.unbounded, p.meets_view);
            parts.set(i, q);
            if q.left_out.is_some() {
                r.push(i);
            }
        }
        proof {
            assert forall|m: int| 0 <= m < i + 1 implies (r@.contains(m as usize) <==> (#[trigger] parts@[m]).measured
                && parts@[m].left_out is Some) by {
                if m < i {
                    if r@.contains(m as usize) {
                        let k = choose|k: int| 0 <= k < r@.len() && r@[k] == m as usize;
                        assert(r_before[k] == m as usize);
                    }
                    if r_before.contains(m as usize) {
                        let k = choose|k: int| 0 <= k < r_before.len() && r_before[k] == m as usize;
                        assert(r@[k] == m as usize);
                    }
                } else {
                    if r@.contains(m as usize) {
                        let k = choose|k: int| 0 <= k < r@.len() && r@[k] == m as usize;
                        assert(k == r@.len() - 1);
                    }
                    if parts@[m].measured && parts@[m].left_out is Some {
                        assert(r@[r@.len() - 1] == i);
                    }
                }
            }
        }
        i = i + 1;
    }
    r
}

/// A construction line stays in every picture: one the crop's choices
/// name is not set aside, and once the view is known it is not outside
/// it -- the picture leaves it out only for a reason it had before either.
pub proof fn lemma_a_construction_line_is_never_left_out(
    parts: Seq<CropPart>,
    choices: Seq<(usize, LeftOutReason)>,
    n: int,
    i: int,
)
    requires
        0 <= i < parts.len(),
        parts[i].unbounded,
    ensures
        set_aside_after(parts, choices, n, i) == parts[i].left_out,
        left_out_of(parts[i].left_out, true, parts[i].meets_view) == parts[i].left_out,
    decreases n,
{
    if n > 0 {
        lemma_a_construction_line_is_never_left_out(parts, choices, n - 1, i);
    }
}

} // verus!
