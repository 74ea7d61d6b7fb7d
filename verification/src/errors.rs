//! The validation failures that pattern parsing and construction can report.

use vstd::prelude::*;

verus! {

/// Every way that building a plot from pattern text can fail.
///
/// All variants are local validation failures: parsing either returns one of
/// these or a fully validated value, and never panics.
#[derive(Clone, Copy, Debug, PartialEq, Eq, Structural)]
pub enum PlotError {
    /// A character of the pattern text is not one of `o`, `-`, `x`.
    InvalidSymbol(char),
    /// A layer's flattened cell count disagrees with its width times height,
    /// which can only happen when its rows have unequal lengths.
    PointCountMismatch,
    /// More than one origin cell appears in a single layer.
    MultipleOrigins,
    /// A layer's width disagrees with the plot's declared horizontal space.
    XSpaceMismatch,
    /// A layer's height disagrees with the plot's declared vertical space.
    YSpaceMismatch,
    /// Appending the layer would exceed the plot's declared layer count.
    LayerOverflow,
    /// The first layer of a plot carries no origin cell to anchor indexing.
    MissingOrigin,
}

/// The message text that belongs to each failure.
pub open spec fn message_of(e: PlotError) -> Seq<char> {
    match e {
        PlotError::InvalidSymbol(c) => "Invalid point type: "@.push(c),
        PlotError::PointCountMismatch => "Point count does not match space."@,
        PlotError::MultipleOrigins => "More than one origin found."@,
        PlotError::XSpaceMismatch => "X space does not match."@,
        PlotError::YSpaceMismatch => "Y space does not match."@,
        PlotError::LayerOverflow => "Cannot add another layer, it would exceed Z-space."@,
        PlotError::MissingOrigin => "First layer must have an origin."@,
    }
}

/// Relies on String::push: appends exactly the given character.
#[verifier::external_body]
fn push_char(s: &mut String, c: char)
    ensures
        final(s)@ == old(s)@.push(c),
{
    s.push(c)
}

impl PlotError {
    /// The human-readable message for this failure.
    pub fn message(&self) -> (r: String)
        ensures
            r@ == message_of(*self),
    {
        match self {
            PlotError::InvalidSymbol(c) => {
                let mut s = String::from_str("Invalid point type: ");
                push_char(&mut s, *c);
                s
            },
            PlotError::PointCountMismatch => String::from_str("Point count does not match space."),
            PlotError::MultipleOrigins => String::from_str("More than one origin found."),
            PlotError::XSpaceMismatch => String::from_str("X space does not match."),
            PlotError::YSpaceMismatch => String::from_str("Y space does not match."),
            PlotError::LayerOverflow => String::from_str(
                "Cannot add another layer, it would exceed Z-space.",
            ),
            PlotError::MissingOrigin => String::from_str("First layer must have an origin."),
        }
    }
}

} // verus!
