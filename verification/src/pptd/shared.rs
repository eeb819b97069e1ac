//! Small value types shared across the PPTD AST.

use vstd::prelude::*;

use crate::text::{chars_of, string_of};

verus! {

/// A color: opaque HEX6 (`#RRGGBB`), alpha HEX8 (`#RRGGBBAA`) or a theme
/// reference such as `$primary`.
#[derive(Debug, Clone, PartialEq, Eq, Hash)]
pub struct Color(pub String);

impl Color {
    /// True when the value is a theme reference such as `$primary`.
    pub fn is_theme_ref(&self) -> (r: bool)
        ensures
            r == (self.0@.len() > 0 && self.0@[0] == '$'),
    {
        let cs = chars_of(self.0.as_str());
        cs.len() > 0 && cs[0] == '$'
    }

    /// The theme key for a reference, e.g. `"primary"` for `"$primary"`.
    pub fn theme_key(&self) -> (r: Option<String>)
        ensures
            match r {
                Some(k) => self.0@.len() > 0 && self.0@[0] == '$' && k@ == self.0@.skip(1),
                None => !(self.0@.len() > 0 && self.0@[0] == '$'),
            },
    {
        let cs = chars_of(self.0.as_str());
        if cs.len() > 0 && cs[0] == '$' {
            let mut key: Vec<char> = Vec::new();
            let mut i: usize = 1;
            while i < cs.len()
                invariant
                    1 <= i <= cs.len(),
                    key@ == cs@.subrange(1, i as int),
                decreases cs.len() - i,
            {
                key.push(cs[i]);
                i = i + 1;
            }
            assert(key@ =~= cs@.skip(1));
            Some(string_of(&key))
        } else {
            None
        }
    }
}

/// A font family: one family for everything, or distinct Latin / EA fonts.
#[derive(Debug, Clone, PartialEq)]
pub enum FontFamily {
    /// Chinese and English use the same font uniformly.
    Single(String),
    /// Explicit Latin and East Asian families.
    Bilingual { latin: String, ea: String },
}

/// Horizontal text alignment.
#[derive(Debug, Clone, Copy, PartialEq, Eq, Structural, Default)]
pub enum HorizontalAlign {
    #[default]
    Left,
    Center,
    Right,
    Justify,
    Distributed,
}

/// Vertical text alignment.
#[derive(Debug, Clone, Copy, PartialEq, Eq, Default)]
pub enum VerticalAlign {
    #[default]
    Top,
    Middle,
    Bottom,
}

/// Text alignment `[horizontal, vertical]`.
#[derive(Debug, Clone, Copy, PartialEq, Eq, Default)]
pub struct Alignment {
    pub horizontal: HorizontalAlign,
    pub vertical: VerticalAlign,
}

/// Line style used for borders, grid lines, chart lines, ...
#[derive(Debug, Clone, Copy, PartialEq, Eq)]
pub enum LineStyle {
    Solid,
    Dash,
    Dot,
}

/// Gradient orientation.
#[derive(Debug, Clone, Copy, PartialEq, Eq)]
pub enum GradientType {
    Linear,
    Radial,
}

/// How an image fill adapts to its container.
#[derive(Debug, Clone, Copy, PartialEq, Eq, Default)]
pub enum ImageFitMode {
    /// Stretch to fill; may distort.
    Fill,
    /// Fit completely; may leave blank space.
    Contain,
    /// Fill and keep aspect ratio; may crop.
    #[default]
    Cover,
}

/// The fit of an image fill.
#[derive(Debug, Clone, Copy, PartialEq, Eq)]
pub struct ImageFit {
    pub mode: ImageFitMode,
}

} // verus!
