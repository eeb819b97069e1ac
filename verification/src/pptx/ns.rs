//! XML namespaces used by the generated parts.

use vstd::prelude::*;

verus! {

pub const PRESENTATIONML: &'static str = "http://schemas.openxmlformats.org/presentationml/2006/main";

pub const DRAWINGML: &'static str = "http://schemas.openxmlformats.org/drawingml/2006/main";

pub const RELATIONSHIPS: &'static str = "http://schemas.openxmlformats.org/officeDocument/2006/relationships";

pub const CONTENT_TYPES: &'static str = "http://schemas.openxmlformats.org/package/2006/content-types";

pub const PACKAGE_REL: &'static str = "http://schemas.openxmlformats.org/package/2006/relationships";

pub const CORE_PROPS: &'static str = "http://schemas.openxmlformats.org/package/2006/metadata/core-properties";

pub const DC: &'static str = "http://purl.org/dc/elements/1.1/";

pub const DCTERMS: &'static str = "http://purl.org/dc/terms/";

pub const DCMITYPE: &'static str = "http://purl.org/dc/dcmitype/";

pub const XSI: &'static str = "http://www.w3.org/2001/XMLSchema-instance";

/// Namespace of the SlideForge round-trip extensions (`pptd:icon`).
pub const PPTD: &'static str = "urn:slideforge:pptd";

} // verus!
