//! Chart `encode` types of the PPTD AST.

use vstd::prelude::*;

verus! {

/// Two-column `encode` used by the Cartesian series kinds (`x` + `y`).
#[derive(Debug, Clone, PartialEq)]
pub struct XyEncode {
    pub x: String,
    pub y: String,
}

/// `encode` for pie charts (`category` + `value`).
#[derive(Debug, Clone, PartialEq)]
pub struct CategoryValueEncode {
    pub category: String,
    pub value: String,
}

} // verus!
