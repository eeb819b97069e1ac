//! The PPTD document model: the parts of the AST that carry no geometry.

pub mod animation;
pub mod chart;
pub mod duplicates;
pub mod elements;
pub mod shared;
pub mod theme;
pub mod validate;
