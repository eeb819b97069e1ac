//! Theme types of the PPTD AST.

use vstd::prelude::*;

verus! {

/// A custom font loaded from a Google Fonts CSS URL.
#[derive(Debug, Clone, PartialEq)]
pub struct CustomFont {
    pub family: String,
    pub src: String,
}

} // verus!
