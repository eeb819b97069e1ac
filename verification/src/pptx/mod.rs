//! The OOXML / OPC output pipeline: PPTD AST → `.pptx` package.

pub mod base64;
pub mod body_text;
pub mod group_tree;
pub mod ns;
pub mod opc;
pub mod part_paths;
pub mod icon;
pub mod import;
pub mod import_tree;
pub mod master;
pub mod media;
pub mod package;
pub mod rel_kind;
pub mod rels;
pub mod scheme;
pub mod render;
pub mod rich;
pub mod svg_path;
pub mod theme;
pub mod tx_body;
pub mod writer;
pub mod xml;
pub mod xml_tree;
