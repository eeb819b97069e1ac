//! Element-level enums of the PPTD AST.

use vstd::prelude::*;

verus! {

/// Writing direction of a text box.
#[derive(Debug, Clone, Copy, PartialEq, Eq)]
pub enum TextDirection {
    Horizontal,
    Vertical,
}

/// Auto-fit mode of a text box (`a:bodyPr` child).
#[derive(Debug, Clone, Copy, PartialEq, Eq)]
pub enum TextAutofit {
    /// `spAutoFit`: resize the shape to fit the text.
    FitShape,
    /// `normAutofit`: shrink the font to fit the fixed shape.
    FitText,
    /// `noAutofit`: neither the shape nor the font is adjusted.
    Fixed,
}

/// Arrow head of a line end.
#[derive(Debug, Clone, Copy, PartialEq, Eq)]
pub enum ArrowType {
    Arrow,
    Stealth,
    Diamond,
    Oval,
}

/// Connection curve of a line element.
#[derive(Debug, Clone, Copy, PartialEq, Eq)]
pub enum LineCurve {
    /// Sharp joins.
    Sharp,
    /// Rounded joins.
    Round,
    /// Bezier smooth curve.
    Smooth,
}

} // verus!
