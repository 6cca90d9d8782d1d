//! A paper layout drawn as its sheet: which layouts have one.

use vstd::prelude::*;
use crate::svg::{block_space, space_of_block, Space};

verus! {

/// Why a layout has no sheet to draw.
#[derive(Debug, Clone, Copy, PartialEq, Eq, Structural)]
#[non_exhaustive]
pub enum LayoutError {
    /// The model holds no layout by that name.
    NotFound,
    /// The layout is the model tab, which is not a sheet: render model
    /// space instead.
    ModelLayout,
    /// The layout's block -- its paper space -- is not in the model: the
    /// reference did not resolve, or it names a block the model does not
    /// hold.
    BlockNotHeld,
}

impl LayoutError {
    /// What the error says.
    pub open spec fn message_of(&self) -> Seq<char> {
        match self {
            LayoutError::NotFound => "the drawing has no layout of that name"@,
            LayoutError::ModelLayout => "the layout is the model tab, not a sheet"@,
            LayoutError::BlockNotHeld => "the layout's paper space block is not in the model"@,
        }
    }

    /// What the error says, as a sentence for a person.
    pub fn message(&self) -> (r: &'static str)
        ensures
            r@ == self.message_of(),
    {
        match self {
            LayoutError::NotFound => "the drawing has no layout of that name",
            LayoutError::ModelLayout => "the layout is the model tab, not a sheet",
            LayoutError::BlockNotHeld => "the layout's paper space block is not in the model",
        }
    }
}

/// Where a layout's sheet -- the paper its render frames -- comes from.
#[derive(Debug, Clone, Copy, PartialEq, Eq, Structural)]
#[non_exhaustive]
pub enum SheetSource {
    /// The layout's limits, which AutoCAD keeps equal to the paper's
    /// placement.
    Limits,
    /// The paper its plot settings describe.
    PlotSettings,
}

/// Whether a layout can be drawn as its sheet, and if not why, checked in
/// this order: the model holds no layout of that name (`found`); its block
/// is not in the model (`block` is the name of the block record it
/// resolves to, when the model holds it); the block is model space.
pub open spec fn sheet_check_of(found: bool, block: Option<Seq<char>>) -> Result<(), LayoutError> {
    if !found {
        Err(LayoutError::NotFound)
    } else if block is None {
        Err(LayoutError::BlockNotHeld)
    } else if space_of_block(block->0) == Some(Space::Model) {
        Err(LayoutError::ModelLayout)
    } else {
        Ok(())
    }
}

/// Whether a layout can be drawn as its sheet: `found` whether the model
/// holds a layout of that name, `block` the name of the block record its
/// paper space resolves to when the model holds one.
pub fn sheet_check(found: bool, block: Option<&str>) -> (r: Result<(), LayoutError>)
    ensures
        r == sheet_check_of(
            found,
            match block {
                Some(b) => Some(b@),
                None => None,
            },
        ),
{
    if !found {
        return Err(LayoutError::NotFound);
    }
    match block {
        None => Err(LayoutError::BlockNotHeld),
        Some(name) => match block_space(name) {
            Some(Space::Model) => Err(LayoutError::ModelLayout),
            _ => Ok(()),
        },
    }
}

} // verus!
