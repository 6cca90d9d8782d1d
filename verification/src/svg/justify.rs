//! How a drawing's text hangs off the point it is placed at: the file's
//! justification of a single-line text (DXF 72/73 with its alignment point,
//! DXF 11), and the attachment point of an MTEXT block, read into which
//! point the text is drawn from, which end of its baseline is there, and
//! where the baseline lies.

use vstd::prelude::*;

verus! {

/// A single-line text's horizontal justification (DXF 72).
#[derive(Debug, Clone, Copy, PartialEq, Eq, Structural)]
pub enum Horizontal {
    /// Starts at its start point.
    Left,
    /// Centred on its alignment point.
    Center,
    /// Ends at its alignment point.
    Right,
    /// Fills the baseline from its start point to its alignment point, its
    /// height scaled with its width.
    Aligned,
    /// Centred on its alignment point, horizontally and vertically.
    Middle,
    /// Fills the baseline from its start point to its alignment point at
    /// its own height.
    Fit,
}

/// A single-line text's vertical justification (DXF 73).
#[derive(Debug, Clone, Copy, PartialEq, Eq, Structural)]
pub enum Vertical {
    Baseline,
    Bottom,
    Middle,
    Top,
}

/// Which end of a text's baseline is at the point it is drawn from: SVG's
/// `text-anchor`.
#[derive(Debug, Clone, Copy, PartialEq, Eq, Structural)]
pub enum TextAnchor {
    Start,
    Middle,
    End,
}

impl TextAnchor {
    /// The value of SVG's `text-anchor` attribute.
    pub open spec fn attribute(self) -> Seq<char> {
        match self {
            TextAnchor::Start => "start"@,
            TextAnchor::Middle => "middle"@,
            TextAnchor::End => "end"@,
        }
    }

    /// The value of SVG's `text-anchor` attribute.
    pub fn as_str(&self) -> (r: &'static str)
        ensures
            r@ == self.attribute(),
    {
        match self {
            TextAnchor::Start => "start",
            TextAnchor::Middle => "middle",
            TextAnchor::End => "end",
        }
    }
}

/// The point a single-line text is drawn from.
#[derive(Debug, Clone, Copy, PartialEq, Eq, Structural)]
pub enum AnchorPoint {
    /// Its start point.
    Start,
    /// Its alignment point.
    Alignment,
    /// Halfway between its start point and its alignment point.
    Between,
}

/// How far a text's baseline lies below the point it is drawn from.
#[derive(Debug, Clone, Copy, PartialEq, Eq, Structural)]
pub enum BaselineDrop {
    /// On the point.
    Baseline,
    /// Half a text height below: centred on the point.
    HalfHeight,
    /// A text height below: hung from the top of its capitals.
    Height,
    /// Above the point by the descender: standing on its descenders.
    Descender,
}

/// How a single-line text hangs off its points: where it is drawn from,
/// which end of its baseline is there, and where its baseline lies.
#[derive(Debug, Clone, Copy, PartialEq, Eq, Structural)]
pub struct Justified {
    pub point: AnchorPoint,
    pub anchor: TextAnchor,
    pub drop: BaselineDrop,
}

/// The file's justification as SVG draws it. A text whose file states no
/// alignment point is drawn from its start point, left and on the
/// baseline: nothing is guessed. Otherwise, horizontally, left starts at
/// the alignment point, centre and middle centre on it, right ends on it,
/// and aligned and fit -- which fill the baseline between the two points
/// by stretching to a width only the font's metrics give -- are centred
/// between them; vertically, a middle text (or any text justified middle)
/// is centred on the point, a top one hangs from it, a bottom one stands
/// on its descenders above it, and a baseline one sits on it.
pub open spec fn justified_of(has_alignment: bool, h: Horizontal, v: Vertical) -> Justified {
    if !has_alignment {
        Justified { point: AnchorPoint::Start, anchor: TextAnchor::Start, drop: BaselineDrop::Baseline }
    } else {
        Justified {
            point: match h {
                Horizontal::Aligned | Horizontal::Fit => AnchorPoint::Between,
                _ => AnchorPoint::Alignment,
            },
            anchor: match h {
                Horizontal::Left => TextAnchor::Start,
                Horizontal::Right => TextAnchor::End,
                _ => TextAnchor::Middle,
            },
            drop: if h == Horizontal::Middle || v == Vertical::Middle {
                BaselineDrop::HalfHeight
            } else {
                match v {
                    Vertical::Top => BaselineDrop::Height,
                    Vertical::Bottom => BaselineDrop::Descender,
                    _ => BaselineDrop::Baseline,
                }
            },
        }
    }
}

/// How a single-line text justified `h` and `v` hangs off its points
/// (see [`justified_of`]); `has_alignment` is whether its file states an
/// alignment point.
pub fn justify(has_alignment: bool, h: Horizontal, v: Vertical) -> (r: Justified)
    ensures
        r == justified_of(has_alignment, h, v),
{
    if !has_alignment {
        return Justified { point: AnchorPoint::Start, anchor: TextAnchor::Start, drop: BaselineDrop::Baseline };
    }
    let point = match h {
        Horizontal::Aligned | Horizontal::Fit => AnchorPoint::Between,
        _ => AnchorPoint::Alignment,
    };
    let anchor = match h {
        Horizontal::Left => TextAnchor::Start,
        Horizontal::Right => TextAnchor::End,
        _ => TextAnchor::Middle,
    };
    let drop = match (h, v) {
        (Horizontal::Middle, _) | (_, Vertical::Middle) => BaselineDrop::HalfHeight,
        (_, Vertical::Top) => BaselineDrop::Height,
        (_, Vertical::Bottom) => BaselineDrop::Descender,
        (_, Vertical::Baseline) => BaselineDrop::Baseline,
    };
    Justified { point, anchor, drop }
}

/// Which of its nine points an MTEXT block is placed by (DXF 71).
#[derive(Debug, Clone, Copy, PartialEq, Eq, Structural)]
pub enum Attachment {
    TopLeft,
    TopCenter,
    TopRight,
    MiddleLeft,
    MiddleCenter,
    MiddleRight,
    BottomLeft,
    BottomCenter,
    BottomRight,
}

/// Where an MTEXT block's insertion point is along its height.
#[derive(Debug, Clone, Copy, PartialEq, Eq, Structural)]
pub enum Row {
    /// At the block's top: the first line hangs from it.
    Top,
    /// Halfway down the block.
    Middle,
    /// At the block's bottom.
    Bottom,
}

/// How an MTEXT block hangs off its insertion point: which end of its
/// lines is there, which row of the block it is, and how many line
/// spacings the block reaches below its first line.
#[derive(Debug, Clone, Copy, PartialEq, Eq, Structural)]
pub struct Placement {
    pub anchor: TextAnchor,
    pub row: Row,
    pub spacings: usize,
}

/// The placement of a block of `lines` lines attached by `attachment`: the
/// column gives the anchor and the row where the block lies; a file that
/// states no attachment keeps the insertion point as the first line's
/// baseline, left-anchored. The block reaches one line spacing below its
/// first line for every further line.
pub open spec fn placement_of(attachment: Option<Attachment>, lines: usize) -> Placement {
    let spacings = if lines >= 1 { (lines - 1) as usize } else { 0usize };
    match attachment {
        None => Placement { anchor: TextAnchor::Start, row: Row::Top, spacings },
        Some(a) => Placement {
            anchor: match a {
                Attachment::TopLeft | Attachment::MiddleLeft | Attachment::BottomLeft => TextAnchor::Start,
                Attachment::TopCenter | Attachment::MiddleCenter | Attachment::BottomCenter => TextAnchor::Middle,
                _ => TextAnchor::End,
            },
            row: match a {
                Attachment::TopLeft | Attachment::TopCenter | Attachment::TopRight => Row::Top,
                Attachment::MiddleLeft | Attachment::MiddleCenter | Attachment::MiddleRight => Row::Middle,
                _ => Row::Bottom,
            },
            spacings,
        },
    }
}

/// How an MTEXT block of `lines` lines attached by `attachment` hangs off
/// its insertion point (see [`placement_of`]).
pub fn mtext_placement(attachment: Option<Attachment>, lines: usize) -> (r: Placement)
    ensures
        r == placement_of(attachment, lines),
{
    let spacings = lines.saturating_sub(1);
    match attachment {
        None => Placement { anchor: TextAnchor::Start, row: Row::Top, spacings },
        Some(a) => {
            let anchor = match a {
                Attachment::TopLeft | Attachment::MiddleLeft | Attachment::BottomLeft => TextAnchor::Start,
                Attachment::TopCenter | Attachment::MiddleCenter | Attachment::BottomCenter => TextAnchor::Middle,
                Attachment::TopRight | Attachment::MiddleRight | Attachment::BottomRight => TextAnchor::End,
            };
            let row = match a {
                Attachment::TopLeft | Attachment::TopCenter | Attachment::TopRight => Row::Top,
                Attachment::MiddleLeft | Attachment::MiddleCenter | Attachment::MiddleRight => Row::Middle,
                Attachment::BottomLeft | Attachment::BottomCenter | Attachment::BottomRight => Row::Bottom,
            };
            Placement { anchor, row, spacings }
        },
    }
}

/// Whether `a` and `b` are in the same column of the block: both on its
/// left, both centred, or both on its right.
pub open spec fn same_column(a: Attachment, b: Attachment) -> bool {
    let left = |x: Attachment|
        x == Attachment::TopLeft || x == Attachment::MiddleLeft || x == Attachment::BottomLeft;
    let center = |x: Attachment|
        x == Attachment::TopCenter || x == Attachment::MiddleCenter || x == Attachment::BottomCenter;
    let right = |x: Attachment|
        x == Attachment::TopRight || x == Attachment::MiddleRight || x == Attachment::BottomRight;
    (left(a) && left(b)) || (center(a) && center(b)) || (right(a) && right(b))
}

/// Whether `a` and `b` are in the same row of the block.
pub open spec fn same_row(a: Attachment, b: Attachment) -> bool {
    let top = |x: Attachment| x == Attachment::TopLeft || x == Attachment::TopCenter || x == Attachment::TopRight;
    let middle = |x: Attachment|
        x == Attachment::MiddleLeft || x == Attachment::MiddleCenter || x == Attachment::MiddleRight;
    let bottom = |x: Attachment|
        x == Attachment::BottomLeft || x == Attachment::BottomCenter || x == Attachment::BottomRight;
    (top(a) && top(b)) || (middle(a) && middle(b)) || (bottom(a) && bottom(b))
}

/// An MTEXT block's anchor is its attachment's column, and its row is its
/// attachment's row: the left column starts at the insertion point, the
/// centre column is centred on it and the right column ends on it,
/// whatever the row; the top row hangs from it, the middle row is centred
/// on it and the bottom row stands on it, whatever the column. The number
/// of lines changes neither.
pub proof fn lemma_an_mtext_block_hangs_by_its_column_and_row(a: Attachment, b: Attachment, lines: usize, other: usize)
    ensures
        same_column(a, b) ==> placement_of(Some(a), lines).anchor == placement_of(Some(b), other).anchor,
        same_row(a, b) ==> placement_of(Some(a), lines).row == placement_of(Some(b), other).row,
        placement_of(Some(Attachment::TopLeft), lines).anchor == TextAnchor::Start,
        placement_of(Some(Attachment::TopCenter), lines).anchor == TextAnchor::Middle,
        placement_of(Some(Attachment::TopRight), lines).anchor == TextAnchor::End,
        placement_of(Some(Attachment::TopLeft), lines).row == Row::Top,
        placement_of(Some(Attachment::MiddleLeft), lines).row == Row::Middle,
        placement_of(Some(Attachment::BottomLeft), lines).row == Row::Bottom,
{
}

} // verus!
