//! The rules an SVG render of a drawing is written with.

pub mod blocks;
pub mod crop;
pub mod defs;
pub mod format;
pub mod guard;
pub mod justify;
pub mod overlay;
pub mod polyline;
pub mod scene;
pub mod select;
pub mod sheet;
pub mod text_codes;
pub mod visibility;

use vstd::prelude::*;
use crate::chars::string_of;

verus! {

/// Which of a drawing's spaces to render.
#[derive(Debug, Clone, Copy, PartialEq, Eq, Structural)]
#[non_exhaustive]
pub enum Space {
    /// The drawing itself.
    Model,
    /// Sheet layouts: borders, title blocks.
    Paper,
    /// Everything, in one document.
    All,
}

/// What `str::to_uppercase` makes of a string: each character's Unicode
/// upper-case mapping.
pub uninterp spec fn uppercase(s: Seq<char>) -> Seq<char>;

/// `str::to_uppercase`: the contract claims only that the result is what
/// [`uppercase`] names for the same string.
#[verifier::external_body]
fn to_uppercase(s: &str) -> (r: String)
    ensures
        r@ == uppercase(s@),
{
    s.to_uppercase()
}

/// The block record of model space.
pub open spec fn model_space_name() -> Seq<char> {
    seq!['*', 'M', 'O', 'D', 'E', 'L', '_', 'S', 'P', 'A', 'C', 'E']
}

/// What the block records of paper space start with (`*PAPER_SPACE`,
/// `*PAPER_SPACE0`, ...).
pub open spec fn paper_space_prefix() -> Seq<char> {
    seq!['*', 'P', 'A', 'P', 'E', 'R', '_', 'S', 'P', 'A', 'C', 'E']
}

/// The space a block record whose name, in upper case, is `upper` holds:
/// model space's `*MODEL_SPACE`, or one of paper space's `*PAPER_SPACE...`;
/// any other block belongs to neither.
pub open spec fn space_of_upper(upper: Seq<char>) -> Option<Space> {
    if upper == model_space_name() {
        Some(Space::Model)
    } else if upper.len() >= 12 && upper.take(12) == paper_space_prefix() {
        Some(Space::Paper)
    } else {
        None
    }
}

/// The space a block record of this name holds, compared without regard
/// to case (see [`space_of_upper`]).
pub open spec fn space_of_block(name: Seq<char>) -> Option<Space> {
    space_of_upper(uppercase(name))
}

/// Whether `s` is `target`.
fn chars_equal(s: &[char], target: &[char]) -> (r: bool)
    ensures
        r == (s@ == target@),
{
    if s.len() != target.len() {
        return false;
    }
    let mut i: usize = 0;
    while i < s.len()
        invariant
            i <= s@.len(),
            s@.len() == target@.len(),
            forall|k: int| 0 <= k < i ==> s@[k] == target@[k],
        decreases s@.len() - i,
    {
        if s[i] != target[i] {
            return false;
        }
        i = i + 1;
    }
    assert(s@ =~= target@);
    true
}

/// The space the block record whose name, in upper case, is `upper`
/// holds: [`Space::Model`] for `*MODEL_SPACE`, [`Space::Paper`] for a name
/// starting `*PAPER_SPACE`, `None` for any other block.
pub fn space_of_upper_name(upper: &str) -> (r: Option<Space>)
    ensures
        r == space_of_upper(upper@),
{
    let upper = crate::chars::chars_of(upper);
    let model = ['*', 'M', 'O', 'D', 'E', 'L', '_', 'S', 'P', 'A', 'C', 'E'];
    let paper = ['*', 'P', 'A', 'P', 'E', 'R', '_', 'S', 'P', 'A', 'C', 'E'];
    assert(model@ =~= model_space_name());
    assert(paper@ =~= paper_space_prefix());
    if chars_equal(upper.as_slice(), model.as_slice()) {
        Some(Space::Model)
    } else if upper.len() >= 12 && chars_equal(&upper.as_slice()[0..12], paper.as_slice()) {
        Some(Space::Paper)
    } else {
        None
    }
}

/// The space the block record `name` holds, its name compared without
/// regard to case: [`Space::Model`] for `*MODEL_SPACE`, [`Space::Paper`]
/// for a name starting `*PAPER_SPACE`, `None` for any other block. A
/// render of one space draws the top-level entities the blocks of that
/// space own.
pub fn block_space(name: &str) -> (r: Option<Space>)
    ensures
        r == space_of_block(name@),
{
    space_of_upper_name(to_uppercase(name).as_str())
}

/// How many points a hatch boundary draws an arc edge (or a bulged
/// polyline segment) through.
pub const ARC_SEGMENTS: usize = 12;

/// How many points a hatch boundary draws an ellipse edge through.
pub const ELLIPSE_SEGMENTS: usize = 16;

/// One edge of a hatch boundary, as the count of points reads it.
#[derive(Debug, Clone, Copy, PartialEq, Eq)]
pub enum EdgeShape {
    Line,
    Arc,
    Ellipse,
    /// A spline edge, drawn through its control points.
    Spline { control_points: usize },
}

/// One boundary path of a hatch, as the count of points reads it.
#[derive(Debug, Clone, PartialEq, Eq)]
pub enum BoundaryShape {
    /// A polyline path: for each vertex, whether the segment it starts is
    /// bulged (drawn as an arc).
    Polyline { bulged: Vec<bool> },
    /// A path of edges.
    Edges { edges: Vec<EdgeShape> },
}

/// What an entity is drawn with, as far as the cap on points counts it:
/// the lengths of the arrays a file can make arbitrarily long.
#[derive(Debug, Clone, PartialEq, Eq)]
pub enum PointShape {
    /// A fixed-shape entity, or a block reference, whose expansion the
    /// other caps bound.
    Fixed,
    /// A polyline's, a leader's or a wipeout's vertices.
    Vertices { count: usize },
    /// A spline's fit points and control points.
    Spline { fit_points: usize, control_points: usize },
    /// A multileader's lines, each by its number of vertices.
    MultiLeader { lines: Vec<usize> },
    /// An MLINE's vertices, and the number of offsets its style defines
    /// when the model holds the style.
    MLine { vertices: usize, style_offsets: Option<usize> },
    /// A 3D solid's, region's or mesh's wireframe edges.
    Wireframe { edges: usize },
    /// A hatch's boundary paths; whether it is filled (solid or gradient,
    /// drawn once) rather than patterned; and its pattern lines.
    Hatch { boundaries: Vec<BoundaryShape>, filled: bool, pattern_lines: usize },
}

/// `a + b`, held at `usize::MAX`.
pub open spec fn sat_add(a: int, b: int) -> int {
    if a + b > usize::MAX {
        usize::MAX as int
    } else {
        a + b
    }
}

/// `a * b`, held at `usize::MAX`.
pub open spec fn sat_mul(a: int, b: int) -> int {
    if a * b > usize::MAX {
        usize::MAX as int
    } else {
        a * b
    }
}

/// The sum of `xs`.
pub open spec fn sum(xs: Seq<int>) -> int
    decreases xs.len(),
{
    if xs.len() == 0 {
        0
    } else {
        sum(xs.drop_last()) + xs.last()
    }
}

/// The points one edge is drawn through.
pub open spec fn edge_points(e: EdgeShape) -> int {
    match e {
        EdgeShape::Line => 1,
        EdgeShape::Arc => ARC_SEGMENTS as int,
        EdgeShape::Ellipse => ELLIPSE_SEGMENTS as int,
        EdgeShape::Spline { control_points } => control_points as int,
    }
}

/// The points one boundary path is drawn through: a vertex of a polyline
/// path is one, or as many as an arc edge when its segment is bulged.
pub open spec fn boundary_points(b: BoundaryShape) -> int {
    match b {
        BoundaryShape::Polyline { bulged } => sum(
            bulged@.map_values(|g: bool| if g { ARC_SEGMENTS as int } else { 1int }),
        ),
        BoundaryShape::Edges { edges } => sum(edges@.map_values(|e: EdgeShape| edge_points(e))),
    }
}

/// The points all the boundary paths are drawn through.
pub open spec fn boundaries_points(bs: Seq<BoundaryShape>) -> int {
    sum(bs.map_values(|b: BoundaryShape| boundary_points(b)))
}

/// How many points from the file an entity would be drawn with -- the
/// count the cap on points bounds. Sums of lengths are exact; where the
/// count multiplies or adds two lengths it is held at `usize::MAX`. A
/// hatch's boundary is drawn once for its outline and once more for every
/// pattern line that tiles it (once in all when it is filled).
pub open spec fn point_count_of(shape: PointShape) -> int {
    match shape {
        PointShape::Fixed => 0,
        PointShape::Vertices { count } => count as int,
        PointShape::Spline { fit_points, control_points } => sat_add(fit_points as int, control_points as int),
        PointShape::MultiLeader { lines } => sum(lines@.map_values(|n: usize| n as int)),
        PointShape::MLine { vertices, style_offsets } => sat_mul(
            vertices as int,
            match style_offsets {
                None => 1,
                Some(k) => if k >= 1 {
                    k as int
                } else {
                    1
                },
            },
        ),
        PointShape::Wireframe { edges } => edges as int,
        PointShape::Hatch { boundaries, filled, pattern_lines } => sat_mul(
            boundaries_points(boundaries@),
            if filled {
                1
            } else {
                1 + pattern_lines
            },
        ),
    }
}

/// Whether the exact sums [`point_count_of`] takes fit in a `usize`.
pub open spec fn sums_fit(shape: PointShape) -> bool {
    match shape {
        PointShape::MultiLeader { lines } => sum(lines@.map_values(|n: usize| n as int)) <= usize::MAX,
        PointShape::Hatch { boundaries, pattern_lines, .. } => {
            &&& boundaries_points(boundaries@) <= usize::MAX
            &&& pattern_lines < usize::MAX
            &&& forall|k: int| 0 <= k < boundaries@.len() ==> #[trigger] boundary_points(boundaries@[k]) <= usize::MAX
        },
        _ => true,
    }
}

/// A sum of non-negative terms is at least any of its prefixes' sums.
proof fn lemma_sum_prefix(xs: Seq<int>, n: int)
    requires
        0 <= n <= xs.len(),
        forall|k: int| 0 <= k < xs.len() ==> #[trigger] xs[k] >= 0,
    ensures
        0 <= sum(xs.take(n)) <= sum(xs),
    decreases xs.len() - n,
{
    if n < xs.len() {
        lemma_sum_prefix(xs, n + 1);
        assert(xs.take(n + 1).drop_last() =~= xs.take(n));
        assert(sum(xs.take(n + 1)) == sum(xs.take(n)) + xs[n]);
        lemma_sum_nonneg(xs.take(n));
    } else {
        assert(xs.take(n) =~= xs);
        lemma_sum_nonneg(xs);
    }
}

/// A sum of non-negative terms is non-negative.
proof fn lemma_sum_nonneg(xs: Seq<int>)
    requires
        forall|k: int| 0 <= k < xs.len() ==> #[trigger] xs[k] >= 0,
    ensures
        sum(xs) >= 0,
    decreases xs.len(),
{
    if xs.len() > 0 {
        lemma_sum_nonneg(xs.drop_last());
    }
}

/// The points a boundary path is drawn through.
fn boundary_point_count(b: &BoundaryShape) -> (r: usize)
    requires
        boundary_points(*b) <= usize::MAX,
    ensures
        r == boundary_points(*b),
{
    match b {
        BoundaryShape::Polyline { bulged } => {
            let ghost xs = bulged@.map_values(|g: bool| if g { ARC_SEGMENTS as int } else { 1int });
            let mut total: usize = 0;
            let mut i: usize = 0;
            while i < bulged.len()
                invariant
                    i <= bulged@.len(),
                    xs == bulged@.map_values(|g: bool| if g { ARC_SEGMENTS as int } else { 1int }),
                    sum(xs) <= usize::MAX,
                    total == sum(xs.take(i as int)),
                decreases bulged@.len() - i,
            {
                proof {
                    assert(xs.take(i + 1).drop_last() =~= xs.take(i as int));
                    lemma_sum_prefix(xs, i + 1);
                }
                total = total + if bulged[i] { ARC_SEGMENTS } else { 1 };
                i = i + 1;
            }
            assert(xs.take(xs.len() as int) =~= xs);
            total
        },
        BoundaryShape::Edges { edges } => {
            let ghost xs = edges@.map_values(|e: EdgeShape| edge_points(e));
            let mut total: usize = 0;
            let mut i: usize = 0;
            while i < edges.len()
                invariant
                    i <= edges@.len(),
                    xs == edges@.map_values(|e: EdgeShape| edge_points(e)),
                    sum(xs) <= usize::MAX,
                    total == sum(xs.take(i as int)),
                decreases edges@.len() - i,
            {
                proof {
                    assert(xs.take(i + 1).drop_last() =~= xs.take(i as int));
                    lemma_sum_prefix(xs, i + 1);
                }
                let n = match edges[i] {
                    EdgeShape::Line => 1,
                    EdgeShape::Arc => ARC_SEGMENTS,
                    EdgeShape::Ellipse => ELLIPSE_SEGMENTS,
                    EdgeShape::Spline { control_points } => control_points,
                };
                total = total + n;
                i = i + 1;
            }
            assert(xs.take(xs.len() as int) =~= xs);
            total
        },
    }
}

/// `a * b`, held at `usize::MAX`.
fn saturating_mul(a: usize, b: usize) -> (r: usize)
    ensures
        r == sat_mul(a as int, b as int),
{
    if b != 0 && a > usize::MAX / b {
        proof {
            lemma_mul_past(a as int, b as int, usize::MAX as int);
        }
        usize::MAX
    } else {
        proof {
            lemma_mul_within(a as int, b as int, usize::MAX as int);
        }
        a * b
    }
}

/// Past the quotient, the product is past the bound.
proof fn lemma_mul_past(a: int, b: int, m: int)
    by (nonlinear_arith)
    requires
        b > 0,
        m >= 0,
        a > m / b,
    ensures
        a * b > m,
{
}

/// Within the quotient, the product is within the bound.
proof fn lemma_mul_within(a: int, b: int, m: int)
    by (nonlinear_arith)
    requires
        a >= 0,
        b >= 0,
        m >= 0,
        b == 0 || a <= m / b,
    ensures
        a * b <= m,
{
}

/// The sum of `xs`.
fn sum_of(xs: &[usize]) -> (r: usize)
    requires
        sum(xs@.map_values(|n: usize| n as int)) <= usize::MAX,
    ensures
        r == sum(xs@.map_values(|n: usize| n as int)),
{
    let ghost ys = xs@.map_values(|n: usize| n as int);
    let mut total: usize = 0;
    let mut i: usize = 0;
    while i < xs.len()
        invariant
            i <= xs@.len(),
            ys == xs@.map_values(|n: usize| n as int),
            sum(ys) <= usize::MAX,
            total == sum(ys.take(i as int)),
        decreases xs@.len() - i,
    {
        proof {
            assert(ys.take(i + 1).drop_last() =~= ys.take(i as int));
            lemma_sum_prefix(ys, i + 1);
        }
        total = total + xs[i];
        i = i + 1;
    }
    assert(ys.take(ys.len() as int) =~= ys);
    total
}

/// How many points from the file an entity of this shape would be drawn
/// with: the count the cap on points bounds (see [`point_count_of`]).
pub fn drawn_point_count(shape: &PointShape) -> (r: usize)
    requires
        sums_fit(*shape),
    ensures
        r == point_count_of(*shape),
{
    match shape {
        PointShape::Fixed => 0,
        PointShape::Vertices { count } => *count,
        PointShape::Spline { fit_points, control_points } => fit_points.saturating_add(*control_points),
        PointShape::MultiLeader { lines } => sum_of(lines.as_slice()),
        PointShape::MLine { vertices, style_offsets } => {
            let lines = match style_offsets {
                None => 1,
                Some(k) => if *k >= 1 {
                    *k
                } else {
                    1
                },
            };
            saturating_mul(*vertices, lines)
        },
        PointShape::Wireframe { edges } => *edges,
        PointShape::Hatch { boundaries, filled, pattern_lines } => {
            let ghost xs = boundaries@.map_values(|b: BoundaryShape| boundary_points(b));
            let mut total: usize = 0;
            let mut i: usize = 0;
            while i < boundaries.len()
                invariant
                    i <= boundaries@.len(),
                    xs == boundaries@.map_values(|b: BoundaryShape| boundary_points(b)),
                    sum(xs) <= usize::MAX,
                    forall|k: int| 0 <= k < boundaries@.len() ==> #[trigger] boundary_points(boundaries@[k]) <= usize::MAX,
                    total == sum(xs.take(i as int)),
                decreases boundaries@.len() - i,
            {
                proof {
                    assert(xs.take(i + 1).drop_last() =~= xs.take(i as int));
                    assert forall|k: int| 0 <= k < xs.len() implies #[trigger] xs[k] >= 0 by {
                        lemma_boundary_points_nonneg(boundaries@[k]);
                    }
                    lemma_sum_prefix(xs, i + 1);
                }
                total = total + boundary_point_count(&boundaries[i]);
                i = i + 1;
            }
            assert(xs.take(xs.len() as int) =~= xs);
            let paths = if *filled {
                1
            } else {
                1 + *pattern_lines
            };
            saturating_mul(total, paths)
        },
    }
}

/// A boundary is drawn through no fewer than no points.
proof fn lemma_boundary_points_nonneg(b: BoundaryShape)
    ensures
        boundary_points(b) >= 0,
{
    match b {
        BoundaryShape::Polyline { bulged } => {
            lemma_sum_nonneg(bulged@.map_values(|g: bool| if g { ARC_SEGMENTS as int } else { 1int }));
        },
        BoundaryShape::Edges { edges } => {
            let xs = edges@.map_values(|e: EdgeShape| edge_points(e));
            assert forall|k: int| 0 <= k < xs.len() implies #[trigger] xs[k] >= 0 by {
                assert(xs[k] == edge_points(edges@[k]));
            }
            lemma_sum_nonneg(xs);
        },
    }
}

// --- stroke widths left open ---------------------------------------------

/// The marker a stroke-width placeholder starts with: `@@SW@@`, then the
/// cumulative scale of the block reference it stands in, then `@@`.
pub open spec fn width_marker() -> Seq<char> {
    seq!['@', '@', 'S', 'W', '@', '@']
}

/// What closes a placeholder.
pub open spec fn width_close() -> Seq<char> {
    seq!['@', '@']
}

/// Whether `pat` occurs in `s` at `i`.
pub open spec fn occurs_at(s: Seq<char>, pat: Seq<char>, i: int) -> bool {
    0 <= i && i + pat.len() <= s.len() && s.subrange(i, i + pat.len()) == pat
}

/// The first index at or after `from` where `pat` occurs in `s`.
pub open spec fn find_seq(s: Seq<char>, pat: Seq<char>, from: int) -> Option<int>
    decreases s.len() - from,
{
    if from < 0 || from + pat.len() > s.len() {
        None
    } else if occurs_at(s, pat, from) {
        Some(from)
    } else if from >= s.len() {
        None
    } else {
        find_seq(s, pat, from + 1)
    }
}

/// A piece of a drawing body whose stroke widths are still open.
#[derive(Debug, Clone, PartialEq, Eq)]
pub enum BodyPiece {
    /// Written as it is.
    Text(String),
    /// A stroke width still to be resolved: the cumulative scale it is
    /// divided by, as the placeholder wrote it.
    StrokeWidth(String),
}

/// A [`BodyPiece`] as characters: `(true, scale)` for a stroke width,
/// `(false, text)` for text.
pub open spec fn piece_view(p: BodyPiece) -> (bool, Seq<char>) {
    match p {
        BodyPiece::Text(t) => (false, t@),
        BodyPiece::StrokeWidth(w) => (true, w@),
    }
}

/// The pieces the body `s` is read into: the text before each
/// `@@SW@@<scale>@@` placeholder, then the placeholder's scale; a
/// placeholder that does not close, and whatever follows it, is text as
/// written.
pub open spec fn pieces_of(s: Seq<char>) -> Seq<(bool, Seq<char>)>
    decreases s.len(),
{
    match find_seq(s, width_marker(), 0) {
        None => seq![(false, s)],
        Some(start) => {
            let after = s.skip(start + 6);
            match find_seq(after, width_close(), 0) {
                None => seq![(false, s)],
                Some(end) => {
                    if 0 <= start && 0 <= end && end + 2 <= after.len() && start + 6 <= s.len() {
                        seq![(false, s.take(start)), (true, after.take(end))] + pieces_of(
                            after.skip(end + 2),
                        )
                    } else {
                        seq![(false, s)]
                    }
                },
            }
        },
    }
}

/// The body the pieces `ps` write, each stroke width as its placeholder.
pub open spec fn written(ps: Seq<(bool, Seq<char>)>) -> Seq<char>
    decreases ps.len(),
{
    if ps.len() == 0 {
        Seq::empty()
    } else {
        let (w, t) = ps[0];
        (if w {
            width_marker() + t + width_close()
        } else {
            t
        }) + written(ps.drop_first())
    }
}

/// Where `find_seq` lands, when it lands.
proof fn lemma_find_seq(s: Seq<char>, pat: Seq<char>, from: int)
    requires
        0 <= from,
    ensures
        find_seq(s, pat, from) matches Some(i) ==> from <= i && occurs_at(s, pat, i),
    decreases s.len() - from,
{
    if from + pat.len() <= s.len() && !occurs_at(s, pat, from) && from < s.len() {
        lemma_find_seq(s, pat, from + 1);
    }
}

/// Reading a body into pieces loses nothing: writing the pieces back, each
/// stroke width as its placeholder, gives the body.
pub proof fn lemma_pieces_write_the_body(s: Seq<char>)
    ensures
        written(pieces_of(s)) == s,
    decreases s.len(),
{
    assert(written(Seq::<(bool, Seq<char>)>::empty()) == Seq::<char>::empty());
    assert(seq![(false, s)].drop_first() =~= Seq::<(bool, Seq<char>)>::empty());
    match find_seq(s, width_marker(), 0) {
        None => {
            assert(written(seq![(false, s)]) =~= s);
        },
        Some(start) => {
            lemma_find_seq(s, width_marker(), 0);
            let after = s.skip(start + 6);
            match find_seq(after, width_close(), 0) {
                None => {
                    assert(written(seq![(false, s)]) =~= s);
                },
                Some(end) => {
                    lemma_find_seq(after, width_close(), 0);
                    if 0 <= start && 0 <= end && end + 2 <= after.len() && start + 6 <= s.len() {
                        let rest = after.skip(end + 2);
                        lemma_pieces_write_the_body(rest);
                        let ps = seq![(false, s.take(start)), (true, after.take(end))] + pieces_of(rest);
                        assert(ps.drop_first().drop_first() =~= pieces_of(rest));
                        assert(written(ps) == s.take(start) + written(ps.drop_first()));
                        assert(written(ps.drop_first()) == width_marker() + after.take(end) + width_close() + written(pieces_of(rest)));
                        assert(s.subrange(start, start + 6) == width_marker());
                        assert(after.subrange(end, end + 2) == width_close());
                        assert(s =~= s.take(start) + width_marker() + after.take(end) + width_close() + rest);
                    } else {
                        assert(written(seq![(false, s)]) =~= s);
                    }
                },
            }
        },
    }
}

/// Whether `pat` occurs in `s` at `i`.
fn occurs(s: &[char], pat: &[char], i: usize) -> (r: bool)
    ensures
        r == occurs_at(s@, pat@, i as int),
{
    let n = s.len();
    if i > n || pat.len() > n - i {
        return false;
    }
    let mut k: usize = 0;
    while k < pat.len()
        invariant
            k <= pat@.len(),
            n == s@.len(),
            i + pat@.len() <= n,
            forall|j: int| 0 <= j < k ==> s@[i + j] == pat@[j],
        decreases pat@.len() - k,
    {
        if s[i + k] != pat[k] {
            assert(s@.subrange(i as int, i + pat@.len())[k as int] != pat@[k as int]);
            return false;
        }
        k = k + 1;
    }
    assert(s@.subrange(i as int, i + pat@.len()) =~= pat@);
    true
}

/// The first index where `pat` occurs in `s`.
fn find_pattern(s: &[char], pat: &[char]) -> (r: Option<usize>)
    ensures
        match r {
            Some(i) => find_seq(s@, pat@, 0) == Some(i as int),
            None => find_seq(s@, pat@, 0) is None,
        },
{
    let n = s.len();
    let mut i: usize = 0;
    while i <= n && pat.len() <= n - i
        invariant
            n == s@.len(),
            find_seq(s@, pat@, 0) == find_seq(s@, pat@, i as int),
        decreases n + 1 - i,
    {
        if occurs(s, pat, i) {
            return Some(i);
        }
        if i >= n {
            return None;
        }
        i = i + 1;
    }
    None
}

/// Reads a drawing body into the text between its stroke-width
/// placeholders and each placeholder's scale (see [`pieces_of`]): the
/// width a block reference's strokes are drawn at depends on the final
/// viewBox, so it is filled in -- the effective stroke width divided by
/// the scale -- only once every entity has been walked.
pub fn stroke_width_pieces(body: &str) -> (r: Vec<BodyPiece>)
    ensures
        r@.map_values(|p: BodyPiece| piece_view(p)) == pieces_of(body@),
{
    let chars = crate::chars::chars_of(body);
    let marker = ['@', '@', 'S', 'W', '@', '@'];
    let close = ['@', '@'];
    assert(marker@ =~= width_marker());
    assert(close@ =~= width_close());
    let mut out: Vec<BodyPiece> = Vec::new();
    let mut rest: &[char] = chars.as_slice();
    loop
        invariant
            marker@ == width_marker(),
            close@ == width_close(),
            out@.map_values(|p: BodyPiece| piece_view(p)) + pieces_of(rest@) == pieces_of(body@),
        decreases rest@.len(),
    {
        let ghost before = out@.map_values(|p: BodyPiece| piece_view(p));
        match find_pattern(rest, marker.as_slice()) {
            None => {
                out.push(BodyPiece::Text(string_of(rest)));
                assert(out@.map_values(|p: BodyPiece| piece_view(p)) =~= before + pieces_of(rest@));
                return out;
            },
            Some(start) => {
                proof {
                    lemma_find_seq(rest@, width_marker(), 0);
                }
                let rlen = rest.len();
                assert(start + 6 <= rlen);
                let after = &rest[start + 6..rlen];
                assert(after@ =~= rest@.skip(start + 6));
                match find_pattern(after, close.as_slice()) {
                    None => {
                        out.push(BodyPiece::Text(string_of(rest)));
                        assert(out@.map_values(|p: BodyPiece| piece_view(p)) =~= before + pieces_of(rest@));
                        return out;
                    },
                    Some(end) => {
                        proof {
                            lemma_find_seq(after@, width_close(), 0);
                        }
                        let text = &rest[0..start];
                        let scale = &after[0..end];
                        assert(text@ =~= rest@.take(start as int));
                        assert(scale@ =~= after@.take(end as int));
                        out.push(BodyPiece::Text(string_of(text)));
                        out.push(BodyPiece::StrokeWidth(string_of(scale)));
                        let alen = after.len();
                        assert(end + 2 <= alen);
                        let next = &after[end + 2..alen];
                        assert(next@ =~= after@.skip(end + 2));
                        assert(out@.map_values(|p: BodyPiece| piece_view(p)) =~= before + seq![(false, rest@.take(start as int)), (true, after@.take(end as int))]);
                        assert(pieces_of(rest@) == seq![(false, rest@.take(start as int)), (true, after@.take(end as int))] + pieces_of(next@));
                        assert(out@.map_values(|p: BodyPiece| piece_view(p)) + pieces_of(next@) =~= before + pieces_of(rest@));
                        rest = next;
                    },
                }
            },
        }
    }
}

} // verus!
