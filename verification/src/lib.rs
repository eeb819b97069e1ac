//! SlideForge — edit and build PPTX presentations from the PPTD language.

pub mod cli;
pub mod error;
pub mod hash;
pub mod pptd;
pub mod pptx;
pub mod text;
