//! A change set drawn on top of the drawing it changes: the redline.
//!
//! The document holds two layers: the drawing as it was, drawn as a plain
//! render draws it, and the changes, in one proposal colour -- what an entity
//! became (or the entity that was added), what was removed as a dashed
//! outline, and a revision cloud around every change. Nothing in the second
//! layer is guessed: a change whose counterpart is uncertain gets a cloud
//! and no geometry, and a change the picture cannot show is reported with
//! the reason rather than dropped.
//!
//! This module decides, change by change, what the second layer holds:
//! which parts of the two renders a change is about, which of them are
//! drawn, which extents its cloud is put around, and which changes cannot
//! be marked and why.

use vstd::prelude::*;

verus! {

/// What an overlay's picture frames.
#[derive(Debug, Clone, Copy, PartialEq, Eq, Structural)]
#[non_exhaustive]
pub enum OverlayFrame {
    /// The whole drawing, as a plain render frames it, grown to take in any
    /// change that reaches outside it.
    Drawing,
    /// The changes: every revision cloud, with as much of the drawing
    /// around them again as their box is wide. With nothing marked, the
    /// whole drawing.
    Changes,
}

impl Default for OverlayFrame {
    /// The whole drawing.
    fn default() -> (r: OverlayFrame)
        ensures
            r == OverlayFrame::Drawing,
    {
        OverlayFrame::Drawing
    }
}

/// The kind of change a mark shows: the change set's own kinds.
#[derive(Debug, Clone, Copy, PartialEq, Eq, Structural)]
pub enum MarkKind {
    Added,
    Removed,
    Modified,
    Unknown,
}

/// Why a change is not in the picture.
#[derive(Debug, Clone, Copy, PartialEq, Eq, Structural)]
#[non_exhaustive]
pub enum NotMarkedReason {
    /// The entity is not a top-level entity of the rendered space: it sits
    /// inside a block definition, or in a space the render did not draw.
    NotTopLevel,
    /// The render drew nothing for the entity in either state, so there is
    /// nothing to put a cloud around.
    NothingDrawn,
}

/// One change of a change set, by the reference IDs (values) of the
/// entities it is about.
#[derive(Debug, Clone)]
pub enum ChangeRef {
    /// An entity of the second state only.
    Added { id: u64 },
    /// An entity of the first state only.
    Removed { id: u64 },
    /// An entity changed; its counterpart in the second state, when the
    /// change set names one, else the same ID.
    Modified { id: u64, counterpart: Option<u64> },
    /// An entity whose counterpart is not decided: all its candidates.
    Unknown { id: u64, candidates: Vec<u64> },
}

impl ChangeRef {
    /// The entity the change is about.
    pub open spec fn id_of(&self) -> u64 {
        match self {
            ChangeRef::Added { id } => *id,
            ChangeRef::Removed { id } => *id,
            ChangeRef::Modified { id, .. } => *id,
            ChangeRef::Unknown { id, .. } => *id,
        }
    }

    /// The mark's kind.
    pub open spec fn kind_of(&self) -> MarkKind {
        match self {
            ChangeRef::Added { .. } => MarkKind::Added,
            ChangeRef::Removed { .. } => MarkKind::Removed,
            ChangeRef::Modified { .. } => MarkKind::Modified,
            ChangeRef::Unknown { .. } => MarkKind::Unknown,
        }
    }

    /// The entity the change has in the first state.
    pub open spec fn before_of(&self) -> Option<u64> {
        match self {
            ChangeRef::Added { .. } => None,
            ChangeRef::Removed { id } => Some(*id),
            ChangeRef::Modified { id, .. } => Some(*id),
            ChangeRef::Unknown { id, .. } => Some(*id),
        }
    }

    /// The entities it may have in the second state.
    pub open spec fn after_of(&self) -> Seq<u64> {
        match self {
            ChangeRef::Added { id } => seq![*id],
            ChangeRef::Removed { .. } => Seq::empty(),
            ChangeRef::Modified { id, counterpart } => seq![
                match counterpart {
                    Some(c) => *c,
                    None => *id,
                },
            ],
            ChangeRef::Unknown { candidates, .. } => candidates@,
        }
    }

    /// The entity the change is about.
    pub fn id(&self) -> (r: u64)
        ensures
            r == self.id_of(),
    {
        match self {
            ChangeRef::Added { id } => *id,
            ChangeRef::Removed { id } => *id,
            ChangeRef::Modified { id, .. } => *id,
            ChangeRef::Unknown { id, .. } => *id,
        }
    }
}

/// One top-level part of a render, as the overlay reads it.
#[derive(Debug, Clone, Copy)]
pub struct PartRef {
    /// Its entity's reference ID (value); for the model seen through a
    /// viewport, the viewport's.
    pub id: u64,
    /// Whether it wrote anything into the picture.
    pub drawn: bool,
    /// Whether it measured an extent.
    pub has_extent: bool,
    /// Whether it is the model seen through a viewport rather than an
    /// entity of the drawing.
    pub through_viewport: bool,
}

/// A part a cloud can be put around: it drew something, somewhere.
pub open spec fn shows(p: PartRef) -> bool {
    p.drawn && p.has_extent
}

/// The last of the first `n` parts that is the top-level part of the
/// entity `id`.
pub open spec fn last_top_level(parts: Seq<PartRef>, id: u64, n: int) -> Option<int>
    decreases n,
{
    if n <= 0 {
        None
    } else if !parts[n - 1].through_viewport && parts[n - 1].id == id {
        Some(n - 1)
    } else {
        last_top_level(parts, id, n - 1)
    }
}

/// The top-level part of the entity `id`: an entity of the drawing, the
/// last such part when there are several.
pub open spec fn top_level(parts: Seq<PartRef>, id: u64) -> Option<int> {
    last_top_level(parts, id, parts.len() as int)
}

/// The top-level parts of the entities `ids`, in their order, the ones
/// that have none left out.
pub open spec fn top_level_parts(ids: Seq<u64>, parts: Seq<PartRef>) -> Seq<int>
    decreases ids.len(),
{
    if ids.len() == 0 {
        Seq::empty()
    } else {
        let prev = top_level_parts(ids.drop_last(), parts);
        match top_level(parts, ids.last()) {
            Some(i) => prev.push(i),
            None => prev,
        }
    }
}

/// The parts among `idx` a cloud can be put around, in order.
pub open spec fn showing(idx: Seq<int>, parts: Seq<PartRef>) -> Seq<int>
    decreases idx.len(),
{
    if idx.len() == 0 {
        Seq::empty()
    } else {
        let prev = showing(idx.drop_last(), parts);
        if shows(parts[idx.last()]) {
            prev.push(idx.last())
        } else {
            prev
        }
    }
}

/// What the overlay decides for one change.
pub enum Outcome {
    /// Marked: a cloud around the extents of `before_part` and
    /// `after_parts`.
    Marked {
        /// The entity in the first state, when the first render has a
        /// top-level part for it.
        before: Option<u64>,
        /// The entity drawn from the second state: the first of its parts
        /// that drew something, for an added or modified entity.
        after: Option<u64>,
        /// The first render's part whose extent the cloud takes in.
        before_part: Option<int>,
        /// The second render's parts whose extents the cloud takes in.
        after_parts: Seq<int>,
    },
    /// Not marked, and why.
    NotMarked { reason: NotMarkedReason },
}

/// What the overlay decides for the change `c`, the first render's parts
/// being `b` and the second's `a`: not marked when neither render has a
/// top-level part for it, nor when none of those parts drew anything;
/// otherwise marked around every part that did.
pub open spec fn outcome(c: ChangeRef, b: Seq<PartRef>, a: Seq<PartRef>) -> Outcome {
    let before_part = match c.before_of() {
        Some(id) => top_level(b, id),
        None => None,
    };
    let after_parts = top_level_parts(c.after_of(), a);
    let before_shows = before_part matches Some(i) && shows(b[i]);
    let after_shown = showing(after_parts, a);
    if before_part is None && after_parts.len() == 0 {
        Outcome::NotMarked { reason: NotMarkedReason::NotTopLevel }
    } else if !before_shows && after_shown.len() == 0 {
        Outcome::NotMarked { reason: NotMarkedReason::NothingDrawn }
    } else {
        Outcome::Marked {
            before: if before_part is Some {
                c.before_of()
            } else {
                None
            },
            after: if (c.kind_of() == MarkKind::Added || c.kind_of() == MarkKind::Modified)
                && after_shown.len() > 0 {
                Some(a[after_shown[0]].id)
            } else {
                None
            },
            before_part: if before_shows {
                before_part
            } else {
                None
            },
            after_parts: after_shown,
        }
    }
}

/// One change the overlay marks.
#[derive(Debug, Clone)]
pub struct MarkPlan {
    /// The change's index in the change set.
    pub entry: usize,
    pub kind: MarkKind,
    /// The entity in the first state, when the change has one there.
    pub before: Option<u64>,
    /// The entity drawn from the second state, when there is one that
    /// could be drawn. `None` for an unknown change, whose counterpart is
    /// not decided and is never drawn.
    pub after: Option<u64>,
    /// The part of the first render whose extent the cloud takes in.
    pub before_part: Option<usize>,
    /// The parts of the second render whose extents the cloud takes in.
    pub after_parts: Vec<usize>,
}

/// One change the overlay could not mark.
#[derive(Debug, Clone)]
pub struct NotMarked {
    /// The change's index in the change set.
    pub entry: usize,
    pub kind: MarkKind,
    /// The entity the change is about.
    pub id: u64,
    pub reason: NotMarkedReason,
}

/// What the overlay's change layer holds.
#[derive(Debug, Clone)]
pub struct OverlayPlan {
    /// Every change marked, in change-set order.
    pub marked: Vec<MarkPlan>,
    /// Every change not marked, in change-set order, with the reason.
    pub not_marked: Vec<NotMarked>,
    /// Which parts of the second render the change layer draws, by index.
    pub drawn_after: Vec<bool>,
    /// Which parts of the first render the change layer draws dashed, as
    /// removed, by index.
    pub drawn_before: Vec<bool>,
}

/// The change `entry`, marked as `o` says, as `m` holds it.
pub open spec fn holds_mark(m: MarkPlan, entry: int, c: ChangeRef, o: Outcome) -> bool {
    &&& o matches Outcome::Marked { before, after, before_part, after_parts }
    &&& m.entry == entry
    &&& m.kind == c.kind_of()
    &&& m.before == before
    &&& m.after == after
    &&& match m.before_part {
        Some(i) => before_part == Some(i as int),
        None => before_part is None,
    }
    &&& m.after_parts@.len() == after_parts.len()
    &&& forall|k: int| 0 <= k < after_parts.len() ==> #[trigger] m.after_parts@[k] == after_parts[k]
}

/// The change `entry`, not marked as `o` says, as `n` holds it.
pub open spec fn holds_not_marked(n: NotMarked, entry: int, c: ChangeRef, o: Outcome) -> bool {
    &&& o matches Outcome::NotMarked { reason }
    &&& n.entry == entry
    &&& n.kind == c.kind_of()
    &&& n.id == c.id_of()
    &&& n.reason == reason
}

/// The indices, in order, of the first `n` changes whose outcome is a
/// mark (or, with `!marked`, is not).
pub open spec fn entries(changes: Seq<ChangeRef>, b: Seq<PartRef>, a: Seq<PartRef>, n: int, marked: bool) -> Seq<int>
    decreases n,
{
    if n <= 0 {
        Seq::empty()
    } else {
        let prev = entries(changes, b, a, n - 1, marked);
        if (outcome(changes[n - 1], b, a) is Marked) == marked {
            prev.push(n - 1)
        } else {
            prev
        }
    }
}

/// Whether, after the first `n` changes, the change layer draws part `i` of
/// the second render: the first part that drew something of an added or
/// modified change.
pub open spec fn draws_after(changes: Seq<ChangeRef>, b: Seq<PartRef>, a: Seq<PartRef>, n: int, i: int) -> bool {
    exists|e: int|
        0 <= e < n && {
            let o = #[trigger] outcome(changes[e], b, a);
            &&& o matches Outcome::Marked { after_parts, .. }
            &&& (changes[e].kind_of() == MarkKind::Added || changes[e].kind_of() == MarkKind::Modified)
            &&& after_parts.len() > 0
            &&& after_parts[0] == i
        }
}

/// Whether, after the first `n` changes, the change layer draws part `i` of
/// the first render dashed: the part of a removed entity, when it drew
/// something.
pub open spec fn draws_before(changes: Seq<ChangeRef>, b: Seq<PartRef>, a: Seq<PartRef>, n: int, i: int) -> bool {
    exists|e: int|
        0 <= e < n && {
            let o = #[trigger] outcome(changes[e], b, a);
            &&& o matches Outcome::Marked { before_part, .. }
            &&& changes[e].kind_of() == MarkKind::Removed
            &&& before_part == Some(i)
        }
}

/// `p` is what [`plan_overlay`] makes of `changes` over renders whose
/// parts are `b` and `a`: every change's mark or reason, in change-set
/// order, and which parts each layer draws.
pub open spec fn is_plan_of(p: OverlayPlan, changes: Seq<ChangeRef>, b: Seq<PartRef>, a: Seq<PartRef>) -> bool {
    &&& p.marked@.len() == entries(changes, b, a, changes.len() as int, true).len()
    &&& forall|k: int| 0 <= k < p.marked@.len() ==> {
        let e = #[trigger] entries(changes, b, a, changes.len() as int, true)[k];
        holds_mark(p.marked@[k], e, changes[e], outcome(changes[e], b, a))
    }
    &&& p.not_marked@.len() == entries(changes, b, a, changes.len() as int, false).len()
    &&& forall|k: int| 0 <= k < p.not_marked@.len() ==> {
        let e = #[trigger] entries(changes, b, a, changes.len() as int, false)[k];
        holds_not_marked(p.not_marked@[k], e, changes[e], outcome(changes[e], b, a))
    }
    &&& p.drawn_after@.len() == a.len()
    &&& forall|i: int| 0 <= i < a.len() ==> #[trigger] p.drawn_after@[i] == draws_after(changes, b, a, changes.len() as int, i)
    &&& p.drawn_before@.len() == b.len()
    &&& forall|i: int| 0 <= i < b.len() ==> #[trigger] p.drawn_before@[i] == draws_before(changes, b, a, changes.len() as int, i)
}

/// The top-level part of the entity `id` (see [`top_level`]).
fn find_top_level(parts: &[PartRef], id: u64) -> (r: Option<usize>)
    ensures
        match r {
            Some(i) => top_level(parts@, id) == Some(i as int),
            None => top_level(parts@, id) is None,
        },
{
    let mut n = parts.len();
    while n > 0
        invariant
            n <= parts@.len(),
            top_level(parts@, id) == last_top_level(parts@, id, n as int),
        decreases n,
    {
        if !parts[n - 1].through_viewport && parts[n - 1].id == id {
            return Some(n - 1);
        }
        n = n - 1;
    }
    None
}

/// `v` read as integers.
pub open spec fn ints(v: Seq<usize>) -> Seq<int> {
    v.map_values(|x: usize| x as int)
}

/// The top-level parts of the entities `ids` (see [`top_level_parts`]).
fn find_top_level_parts(ids: &[u64], parts: &[PartRef]) -> (r: Vec<usize>)
    ensures
        ints(r@) == top_level_parts(ids@, parts@),
        forall|k: int| 0 <= k < r@.len() ==> #[trigger] r@[k] < parts@.len(),
{
    let mut r: Vec<usize> = Vec::new();
    let mut i: usize = 0;
    while i < ids.len()
        invariant
            i <= ids@.len(),
            ints(r@) == top_level_parts(ids@.take(i as int), parts@),
            forall|k: int| 0 <= k < r@.len() ==> #[trigger] r@[k] < parts@.len(),
        decreases ids@.len() - i,
    {
        assert(ids@.take(i + 1).drop_last() =~= ids@.take(i as int));
        if let Some(p) = find_top_level(parts, ids[i]) {
            proof {
                lemma_top_level_in_range(parts@, ids@[i as int], parts@.len() as int);
            }
            r.push(p);
            assert(ints(r@) =~= top_level_parts(ids@.take(i as int), parts@).push(p as int));
        }
        i = i + 1;
    }
    assert(ids@.take(ids@.len() as int) =~= ids@);
    r
}

/// The parts among `idx` a cloud can be put around (see [`showing`]).
fn find_showing(idx: &[usize], parts: &[PartRef]) -> (r: Vec<usize>)
    requires
        forall|k: int| 0 <= k < idx@.len() ==> #[trigger] idx@[k] < parts@.len(),
    ensures
        ints(r@) == showing(ints(idx@), parts@),
        forall|k: int| 0 <= k < r@.len() ==> #[trigger] r@[k] < parts@.len(),
{
    let mut r: Vec<usize> = Vec::new();
    let mut i: usize = 0;
    while i < idx.len()
        invariant
            i <= idx@.len(),
            forall|k: int| 0 <= k < idx@.len() ==> #[trigger] idx@[k] < parts@.len(),
            ints(r@) == showing(ints(idx@.take(i as int)), parts@),
            forall|k: int| 0 <= k < r@.len() ==> #[trigger] r@[k] < parts@.len(),
        decreases idx@.len() - i,
    {
        assert(ints(idx@.take(i + 1)).drop_last() =~= ints(idx@.take(i as int)));
        assert(ints(idx@.take(i + 1)).last() == idx@[i as int] as int);
        let p = idx[i];
        if parts[p].drawn && parts[p].has_extent {
            r.push(p);
            assert(ints(r@) =~= showing(ints(idx@.take(i as int)), parts@).push(p as int));
        }
        i = i + 1;
    }
    assert(idx@.take(idx@.len() as int) =~= idx@);
    r
}

/// A top-level part found is a part.
proof fn lemma_top_level_in_range(parts: Seq<PartRef>, id: u64, n: int)
    requires
        n <= parts.len(),
    ensures
        last_top_level(parts, id, n) matches Some(i) ==> 0 <= i < n,
    decreases n,
{
    if n > 0 {
        lemma_top_level_in_range(parts, id, n - 1);
    }
}

/// The change `c`, its outcome decided (see [`outcome`]): the mark, or why
/// there is none.
fn decide(entry: usize, c: &ChangeRef, before: &[PartRef], after: &[PartRef]) -> (r: Result<
    MarkPlan,
    NotMarked,
>)
    ensures
        match r {
            Ok(m) => holds_mark(m, entry as int, *c, outcome(*c, before@, after@)),
            Err(n) => holds_not_marked(n, entry as int, *c, outcome(*c, before@, after@)),
        },
        r matches Ok(m) ==> (m.before_part matches Some(i) ==> i < before@.len()),
        r matches Ok(m) ==> forall|k: int| 0 <= k < m.after_parts@.len() ==> #[trigger] m.after_parts@[k] < after@.len(),
{
    let (kind, id, before_id) = match c {
        ChangeRef::Added { id } => (MarkKind::Added, *id, None),
        ChangeRef::Removed { id } => (MarkKind::Removed, *id, Some(*id)),
        ChangeRef::Modified { id, .. } => (MarkKind::Modified, *id, Some(*id)),
        ChangeRef::Unknown { id, .. } => (MarkKind::Unknown, *id, Some(*id)),
    };
    let after_ids: Vec<u64> = match c {
        ChangeRef::Added { id } => vec![*id],
        ChangeRef::Removed { .. } => Vec::new(),
        ChangeRef::Modified { id, counterpart } => vec![
            match counterpart {
                Some(x) => *x,
                None => *id,
            },
        ],
        ChangeRef::Unknown { candidates, .. } => candidates.clone(),
    };
    assert(after_ids@ =~= c.after_of());
    let before_part = match before_id {
        Some(b) => find_top_level(before, b),
        None => None,
    };
    proof {
        if let Some(b) = before_id {
            lemma_top_level_in_range(before@, b, before@.len() as int);
        }
    }
    let after_parts = find_top_level_parts(after_ids.as_slice(), after);
    let shown = find_showing(after_parts.as_slice(), after);
    let before_shows = match before_part {
        Some(i) => before[i].drawn && before[i].has_extent,
        None => false,
    };
    if before_part.is_none() && after_parts.len() == 0 {
        return Err(NotMarked { entry, kind, id, reason: NotMarkedReason::NotTopLevel });
    }
    if !before_shows && shown.len() == 0 {
        return Err(NotMarked { entry, kind, id, reason: NotMarkedReason::NothingDrawn });
    }
    let after_id = if (matches!(kind, MarkKind::Added) || matches!(kind, MarkKind::Modified))
        && shown.len() > 0 {
        Some(after[shown[0]].id)
    } else {
        None
    };
    let mark = MarkPlan {
        entry,
        kind,
        before: if before_part.is_some() {
            before_id
        } else {
            None
        },
        after: after_id,
        before_part: if before_shows {
            before_part
        } else {
            None
        },
        after_parts: shown,
    };
    Ok(mark)
}

/// `n` flags, all false.
fn no_flags(n: usize) -> (r: Vec<bool>)
    ensures
        r@.len() == n,
        forall|i: int| 0 <= i < n ==> !#[trigger] r@[i],
{
    let mut r: Vec<bool> = Vec::new();
    while r.len() < n
        invariant
            r@.len() <= n,
            forall|i: int| 0 <= i < r@.len() ==> !#[trigger] r@[i],
        decreases n - r@.len(),
    {
        r.push(false);
    }
    r
}

/// What the change layer of an overlay holds, change by change (see
/// [`outcome`]): every change in `changes` either marked, with the parts
/// of the first render (`before`) and the second (`after`) its cloud is put
/// around, or reported with the reason it is not -- never left out; and
/// which parts each layer draws.
pub fn plan_overlay(changes: &[ChangeRef], before: &[PartRef], after: &[PartRef]) -> (p: OverlayPlan)
    ensures
        p.marked@.len() == entries(changes@, before@, after@, changes@.len() as int, true).len(),
        forall|k: int| 0 <= k < p.marked@.len() ==> {
            let e = #[trigger] entries(changes@, before@, after@, changes@.len() as int, true)[k];
            holds_mark(p.marked@[k], e, changes@[e], outcome(changes@[e], before@, after@))
        },
        p.not_marked@.len() == entries(changes@, before@, after@, changes@.len() as int, false).len(),
        forall|k: int| 0 <= k < p.not_marked@.len() ==> {
            let e = #[trigger] entries(changes@, before@, after@, changes@.len() as int, false)[k];
            holds_not_marked(p.not_marked@[k], e, changes@[e], outcome(changes@[e], before@, after@))
        },
        p.drawn_after@.len() == after@.len(),
        forall|i: int| 0 <= i < after@.len() ==> #[trigger] p.drawn_after@[i] == draws_after(changes@, before@, after@, changes@.len() as int, i),
        p.drawn_before@.len() == before@.len(),
        forall|i: int| 0 <= i < before@.len() ==> #[trigger] p.drawn_before@[i] == draws_before(changes@, before@, after@, changes@.len() as int, i),
        is_plan_of(p, changes@, before@, after@),
{
    let ghost cs = changes@;
    let ghost b = before@;
    let ghost a = after@;
    let mut marked: Vec<MarkPlan> = Vec::new();
    let mut not_marked: Vec<NotMarked> = Vec::new();
    let mut drawn_after = no_flags(after.len());
    let mut drawn_before = no_flags(before.len());
    let mut e: usize = 0;
    while e < changes.len()
        invariant
            e <= cs.len(),
            cs == changes@, b == before@, a == after@,
            marked@.len() == entries(cs, b, a, e as int, true).len(),
            forall|k: int| 0 <= k < marked@.len() ==> {
                let x = #[trigger] entries(cs, b, a, e as int, true)[k];
                holds_mark(marked@[k], x, cs[x], outcome(cs[x], b, a))
            },
            not_marked@.len() == entries(cs, b, a, e as int, false).len(),
            forall|k: int| 0 <= k < not_marked@.len() ==> {
                let x = #[trigger] entries(cs, b, a, e as int, false)[k];
                holds_not_marked(not_marked@[k], x, cs[x], outcome(cs[x], b, a))
            },
            drawn_after@.len() == a.len(),
            forall|i: int| 0 <= i < a.len() ==> #[trigger] drawn_after@[i] == draws_after(cs, b, a, e as int, i),
            drawn_before@.len() == b.len(),
            forall|i: int| 0 <= i < b.len() ==> #[trigger] drawn_before@[i] == draws_before(cs, b, a, e as int, i),
        decreases cs.len() - e,
    {
        let ghost o = outcome(cs[e as int], b, a);
        let ghost before_after = drawn_after@;
        let ghost before_before = drawn_before@;
        match decide(e, &changes[e], before, after) {
            Ok(m) => {
                let kind = m.kind;
                if (matches!(kind, MarkKind::Added) || matches!(kind, MarkKind::Modified)) && m.after_parts.len() > 0 {
                    let i = m.after_parts[0];
                    drawn_after.set(i, true);
                }
                if matches!(kind, MarkKind::Removed) {
                    if let Some(i) = m.before_part {
                        drawn_before.set(i, true);
                    }
                }
                marked.push(m);
            },
            Err(n) => {
                not_marked.push(n);
            },
        }
        proof {
            assert forall|i: int| 0 <= i < a.len() implies #[trigger] drawn_after@[i] == draws_after(cs, b, a, e + 1, i) by {
                if draws_after(cs, b, a, e as int, i) {
                    let w = choose|w: int| 0 <= w < e && {
                        let o = #[trigger] outcome(cs[w], b, a);
                        &&& o matches Outcome::Marked { after_parts, .. }
                        &&& (cs[w].kind_of() == MarkKind::Added || cs[w].kind_of() == MarkKind::Modified)
                        &&& after_parts.len() > 0
                        &&& after_parts[0] == i
                    };
                    assert(0 <= w < e + 1 && outcome(cs[w], b, a) == outcome(cs[w], b, a));
                }
                if draws_after(cs, b, a, e + 1, i) && !draws_after(cs, b, a, e as int, i) {
                    let w = choose|w: int| 0 <= w < e + 1 && {
                        let o = #[trigger] outcome(cs[w], b, a);
                        &&& o matches Outcome::Marked { after_parts, .. }
                        &&& (cs[w].kind_of() == MarkKind::Added || cs[w].kind_of() == MarkKind::Modified)
                        &&& after_parts.len() > 0
                        &&& after_parts[0] == i
                    };
                    if w < e {
                        assert(false);
                    }
                }
            }
            assert forall|i: int| 0 <= i < b.len() implies #[trigger] drawn_before@[i] == draws_before(cs, b, a, e + 1, i) by {
                if draws_before(cs, b, a, e as int, i) {
                    let w = choose|w: int| 0 <= w < e && {
                        let o = #[trigger] outcome(cs[w], b, a);
                        &&& o matches Outcome::Marked { before_part, .. }
                        &&& cs[w].kind_of() == MarkKind::Removed
                        &&& before_part == Some(i)
                    };
                    assert(0 <= w < e + 1 && outcome(cs[w], b, a) == outcome(cs[w], b, a));
                }
                if draws_before(cs, b, a, e + 1, i) && !draws_before(cs, b, a, e as int, i) {
                    let w = choose|w: int| 0 <= w < e + 1 && {
                        let o = #[trigger] outcome(cs[w], b, a);
                        &&& o matches Outcome::Marked { before_part, .. }
                        &&& cs[w].kind_of() == MarkKind::Removed
                        &&& before_part == Some(i)
                    };
                    if w < e {
                        assert(false);
                    }
                }
            }
        }
        e = e + 1;
    }
    OverlayPlan { marked, not_marked, drawn_after, drawn_before }
}


/// What [`entries`] holds after the first `n` changes: indices below `n`,
/// in increasing order, each one exactly when that change's outcome is (or,
/// with `!marked`, is not) a mark.
proof fn lemma_entries(changes: Seq<ChangeRef>, b: Seq<PartRef>, a: Seq<PartRef>, n: int, marked: bool)
    requires
        0 <= n <= changes.len(),
    ensures
        entries(changes, b, a, n, marked).len() <= n,
        forall|k: int|
            0 <= k < entries(changes, b, a, n, marked).len() ==> 0 <= #[trigger] entries(changes, b, a, n, marked)[k] < n,
        forall|j: int, k: int|
            0 <= j < k < entries(changes, b, a, n, marked).len() ==> #[trigger] entries(changes, b, a, n, marked)[j]
                < #[trigger] entries(changes, b, a, n, marked)[k],
        forall|e: int|
            0 <= e < n ==> (#[trigger] entries(changes, b, a, n, marked).contains(e) <==> ((outcome(changes[e], b, a) is Marked)
                == marked)),
    decreases n,
{
    if n > 0 {
        lemma_entries(changes, b, a, n - 1, marked);
        let prev = entries(changes, b, a, n - 1, marked);
        let cur = entries(changes, b, a, n, marked);
        assert forall|e: int| 0 <= e < n implies (#[trigger] cur.contains(e) <==> ((outcome(changes[e], b, a) is Marked)
            == marked)) by {
            if e < n - 1 {
                if cur.contains(e) {
                    let k = choose|k: int| 0 <= k < cur.len() && cur[k] == e;
                    if k < prev.len() {
                        assert(prev[k] == e);
                    }
                }
                if prev.contains(e) {
                    let k = choose|k: int| 0 <= k < prev.len() && prev[k] == e;
                    assert(cur[k] == e);
                }
            } else {
                if (outcome(changes[e], b, a) is Marked) == marked {
                    assert(cur[cur.len() - 1] == e);
                } else if cur.contains(e) {
                    let k = choose|k: int| 0 <= k < cur.len() && cur[k] == e;
                    assert(prev[k] == e);
                }
            }
        }
    }
}

/// Every change is reported, once: after the first `n` changes, the
/// overlay's marks and its list of changes not marked together hold each
/// index below `n` exactly once -- in the marks when its outcome is a mark,
/// in the other list when it is not -- and each list is in change-set
/// order. A change the picture cannot show is named, never dropped.
pub proof fn lemma_every_change_is_reported_once(changes: Seq<ChangeRef>, b: Seq<PartRef>, a: Seq<PartRef>, n: int)
    requires
        0 <= n <= changes.len(),
    ensures
        entries(changes, b, a, n, true).len() + entries(changes, b, a, n, false).len() == n,
        forall|e: int|
            0 <= e < n ==> (#[trigger] entries(changes, b, a, n, true).contains(e) <==> outcome(changes[e], b, a) is Marked),
        forall|e: int|
            0 <= e < n ==> (#[trigger] entries(changes, b, a, n, false).contains(e) <==> !(outcome(changes[e], b, a) is Marked)),
        forall|j: int, k: int|
            0 <= j < k < entries(changes, b, a, n, true).len() ==> #[trigger] entries(changes, b, a, n, true)[j]
                < #[trigger] entries(changes, b, a, n, true)[k],
        forall|j: int, k: int|
            0 <= j < k < entries(changes, b, a, n, false).len() ==> #[trigger] entries(changes, b, a, n, false)[j]
                < #[trigger] entries(changes, b, a, n, false)[k],
    decreases n,
{
    lemma_entries(changes, b, a, n, true);
    lemma_entries(changes, b, a, n, false);
    if n > 0 {
        lemma_every_change_is_reported_once(changes, b, a, n - 1);
    }
}

/// Nothing in the change layer is guessed: a change whose counterpart is
/// not decided is clouded but never drawn -- its mark names no entity
/// drawn from the second state, and no part of either render is drawn
/// for it, while a change the layer does draw from is one that says what
/// to draw: an added or modified entity from the second state, a removed
/// one from the first.
pub proof fn lemma_an_undecided_change_draws_no_geometry(changes: Seq<ChangeRef>, b: Seq<PartRef>, a: Seq<PartRef>, n: int, i: int)
    requires
        0 <= n <= changes.len(),
    ensures
        forall|e: int|
            0 <= e < n && changes[e].kind_of() == MarkKind::Unknown ==> (#[trigger] outcome(changes[e], b, a) matches Outcome::Marked {
                after,
                ..
            } ==> after is None),
        draws_after(changes, b, a, n, i) ==> exists|e: int|
            0 <= e < n && (changes[e].kind_of() == MarkKind::Added || changes[e].kind_of() == MarkKind::Modified)
                && #[trigger] outcome(changes[e], b, a) is Marked,
        draws_before(changes, b, a, n, i) ==> exists|e: int|
            0 <= e < n && changes[e].kind_of() == MarkKind::Removed && #[trigger] outcome(changes[e], b, a) is Marked,
{
}

/// A plan reports every change once: the entries of its marks and of its
/// changes not marked are together exactly `0..n` for a change set of `n`
/// changes, each once -- in the marks when the change's outcome is a mark
/// -- and each list is in change-set order; and no mark of a change whose
/// counterpart is undecided names an entity drawn from the second state.
pub proof fn lemma_a_plan_reports_every_change_once(
    p: OverlayPlan,
    changes: Seq<ChangeRef>,
    b: Seq<PartRef>,
    a: Seq<PartRef>,
)
    requires
        is_plan_of(p, changes, b, a),
    ensures
        p.marked@.len() + p.not_marked@.len() == changes.len(),
        forall|e: int|
            0 <= e < changes.len() ==> ((exists|k: int| 0 <= k < p.marked@.len() && #[trigger] p.marked@[k].entry == e)
                <==> outcome(changes[e], b, a) is Marked),
        forall|e: int|
            0 <= e < changes.len() ==> ((exists|k: int| 0 <= k < p.not_marked@.len() && #[trigger] p.not_marked@[k].entry == e)
                <==> !(outcome(changes[e], b, a) is Marked)),
        forall|j: int, k: int| 0 <= j < k < p.marked@.len() ==> #[trigger] p.marked@[j].entry < #[trigger] p.marked@[k].entry,
        forall|j: int, k: int|
            0 <= j < k < p.not_marked@.len() ==> #[trigger] p.not_marked@[j].entry < #[trigger] p.not_marked@[k].entry,
        forall|k: int| 0 <= k < p.marked@.len() && (#[trigger] p.marked@[k]).kind == MarkKind::Unknown ==> p.marked@[k].after is None,
{
    let n = changes.len() as int;
    lemma_every_change_is_reported_once(changes, b, a, n);
    lemma_entries(changes, b, a, n, true);
    lemma_entries(changes, b, a, n, false);
    let em = entries(changes, b, a, n, true);
    let en = entries(changes, b, a, n, false);
    assert forall|k: int| 0 <= k < p.marked@.len() implies #[trigger] p.marked@[k].entry == em[k] by {
        assert(holds_mark(p.marked@[k], em[k], changes[em[k]], outcome(changes[em[k]], b, a)));
    }
    assert forall|k: int| 0 <= k < p.not_marked@.len() implies #[trigger] p.not_marked@[k].entry == en[k] by {
        assert(holds_not_marked(p.not_marked@[k], en[k], changes[en[k]], outcome(changes[en[k]], b, a)));
    }
    assert forall|e: int| 0 <= e < n implies ((exists|k: int| 0 <= k < p.marked@.len() && #[trigger] p.marked@[k].entry
        == e) <==> outcome(changes[e], b, a) is Marked) by {
        if outcome(changes[e], b, a) is Marked {
            assert(em.contains(e));
            let k = choose|k: int| 0 <= k < em.len() && em[k] == e;
            assert(p.marked@[k].entry == e);
        }
        if exists|k: int| 0 <= k < p.marked@.len() && #[trigger] p.marked@[k].entry == e {
            let k = choose|k: int| 0 <= k < p.marked@.len() && #[trigger] p.marked@[k].entry == e;
            assert(em[k] == e);
            assert(em.contains(e));
        }
    }
    assert forall|e: int| 0 <= e < n implies ((exists|k: int| 0 <= k < p.not_marked@.len() && #[trigger] p.not_marked@[k].entry
        == e) <==> !(outcome(changes[e], b, a) is Marked)) by {
        if !(outcome(changes[e], b, a) is Marked) {
            assert(en.contains(e));
            let k = choose|k: int| 0 <= k < en.len() && en[k] == e;
            assert(p.not_marked@[k].entry == e);
        }
        if exists|k: int| 0 <= k < p.not_marked@.len() && #[trigger] p.not_marked@[k].entry == e {
            let k = choose|k: int| 0 <= k < p.not_marked@.len() && #[trigger] p.not_marked@[k].entry == e;
            assert(en[k] == e);
            assert(en.contains(e));
        }
    }
    assert forall|j: int, k: int| 0 <= j < k < p.marked@.len() implies #[trigger] p.marked@[j].entry
        < #[trigger] p.marked@[k].entry by {
        assert(em[j] < em[k]);
    }
    assert forall|j: int, k: int| 0 <= j < k < p.not_marked@.len() implies #[trigger] p.not_marked@[j].entry
        < #[trigger] p.not_marked@[k].entry by {
        assert(en[j] < en[k]);
    }
    assert forall|k: int| 0 <= k < p.marked@.len() && (#[trigger] p.marked@[k]).kind == MarkKind::Unknown implies p.marked@[k].after
        is None by {
        assert(holds_mark(p.marked@[k], em[k], changes[em[k]], outcome(changes[em[k]], b, a)));
    }
}

/// The last matching part below `n` is the one `last_top_level` finds.
proof fn lemma_last_top_level_is(parts: Seq<PartRef>, id: u64, n: int, j: int)
    requires
        0 <= j < n <= parts.len(),
        parts[j].id == id,
        !parts[j].through_viewport,
        forall|i: int| j < i < n ==> !(parts[i].id == id && !(#[trigger] parts[i]).through_viewport),
    ensures
        last_top_level(parts, id, n) == Some(j),
    decreases n,
{
    if n - 1 > j {
        assert(!(parts[n - 1].id == id && !parts[n - 1].through_viewport));
        lemma_last_top_level_is(parts, id, n - 1, j);
    }
}

/// An entity of `ids` whose top-level part is `j` has `j` among the
/// top-level parts of `ids`.
proof fn lemma_top_level_parts_has(ids: Seq<u64>, parts: Seq<PartRef>, c: u64, j: int)
    requires
        ids.contains(c),
        top_level(parts, c) == Some(j),
    ensures
        top_level_parts(ids, parts).contains(j),
    decreases ids.len(),
{
    let prev = top_level_parts(ids.drop_last(), parts);
    if ids.last() == c {
        assert(top_level_parts(ids, parts) == prev.push(j));
        assert(top_level_parts(ids, parts)[prev.len() as int] == j);
    } else {
        let q = choose|q: int| 0 <= q < ids.len() && ids[q] == c;
        assert(ids.drop_last()[q] == c);
        lemma_top_level_parts_has(ids.drop_last(), parts, c, j);
        let k = choose|k: int| 0 <= k < prev.len() && prev[k] == j;
        match top_level(parts, ids.last()) {
            Some(i) => assert(top_level_parts(ids, parts)[k] == j),
            None => {},
        }
    }
}

/// A part among `idx` that drew something is among those showing.
proof fn lemma_showing_has(idx: Seq<int>, parts: Seq<PartRef>, j: int)
    requires
        idx.contains(j),
        shows(parts[j]),
    ensures
        showing(idx, parts).contains(j),
    decreases idx.len(),
{
    let prev = showing(idx.drop_last(), parts);
    if idx.last() == j {
        assert(showing(idx, parts)[prev.len() as int] == j);
    } else {
        let q = choose|q: int| 0 <= q < idx.len() && idx[q] == j;
        assert(idx.drop_last()[q] == j);
        lemma_showing_has(idx.drop_last(), parts, j);
        let k = choose|k: int| 0 <= k < prev.len() && prev[k] == j;
        if shows(parts[idx.last()]) {
            assert(showing(idx, parts)[k] == j);
        }
    }
}

/// A change whose counterpart is undecided is clouded around every one of
/// its candidates that drew something: when a candidate's top-level part
/// in the second render (the last part that is that entity, not the model
/// seen through a viewport) drew something with an extent, the change is
/// marked, and that part is among those its cloud is put around.
pub proof fn lemma_an_undecided_change_is_clouded_around_every_drawn_candidate(
    p: OverlayPlan,
    changes: Seq<ChangeRef>,
    b: Seq<PartRef>,
    a: Seq<PartRef>,
    e: int,
    c: u64,
    j: int,
)
    requires
        is_plan_of(p, changes, b, a),
        0 <= e < changes.len(),
        changes[e] matches ChangeRef::Unknown { candidates, .. } && candidates@.contains(c),
        0 <= j < a.len(),
        a[j].id == c,
        !a[j].through_viewport,
        a[j].drawn,
        a[j].has_extent,
        forall|i: int| j < i < a.len() ==> !(a[i].id == c && !(#[trigger] a[i]).through_viewport),
    ensures
        exists|k: int| 0 <= k < p.marked@.len() && #[trigger] p.marked@[k].entry == e && p.marked@[k].after_parts@.contains(
            j as usize,
        ),
{
    let ch = changes[e];
    lemma_last_top_level_is(a, c, a.len() as int, j);
    let after_parts = top_level_parts(ch.after_of(), a);
    lemma_top_level_parts_has(ch.after_of(), a, c, j);
    lemma_showing_has(after_parts, a, j);
    let shown = showing(after_parts, a);
    assert(shown.len() > 0);
    let o = outcome(ch, b, a);
    assert(o is Marked);
    let n = changes.len() as int;
    lemma_every_change_is_reported_once(changes, b, a, n);
    lemma_entries(changes, b, a, n, true);
    let em = entries(changes, b, a, n, true);
    assert(em.contains(e));
    let k = choose|k: int| 0 <= k < em.len() && em[k] == e;
    assert(holds_mark(p.marked@[k], em[k], changes[em[k]], outcome(changes[em[k]], b, a)));
    let q = choose|q: int| 0 <= q < shown.len() && shown[q] == j;
    assert(p.marked@[k].after_parts@[q] == j);
    assert(p.marked@[k].after_parts@.contains(j as usize));
}

} // verus!
