//! The OPC package model: every part a `.pptx` contains.
//!
//! A minimal editable PPTX produced from PPTD needs roughly:
//!
//! ```text
//! [Content_Types].xml            — content-type registry
//! _rels/.rels                    — package-level relationships
//! docProps/core.xml              — title, dates, ...
//! ppt/presentation.xml           — slide list + slide size + transitions
//! ppt/_rels/presentation.xml.rels— presentation → slides/masters/theme
//! ppt/theme/theme1.xml           — colors/fonts/effects (from PPTD theme)
//! ppt/slideMasters/slideMaster1.xml, ppt/slideLayouts/slideLayout1.xml
//! ppt/slides/slideN.xml          — one per page (sld > cSld > spTree)
//! ppt/slides/_rels/slideN.xml.rels
//! ppt/media/...                  — images
//! ```

use vstd::prelude::*;

use crate::text::{decimal, push_str, usize_to_string};

verus! {

/// A content type handled by the writer.
#[derive(Debug, Clone, Copy, PartialEq, Eq, Structural)]
pub enum ContentType {
    Presentation,
    Slide,
    SlideMaster,
    SlideLayout,
    Theme,
    CoreProperties,
    ImagePng,
    ImageJpeg,
}

/// The `Content-Type` value of each content type.
pub open spec fn mime_spec(ct: ContentType) -> Seq<char> {
    match ct {
        ContentType::Presentation =>
            "application/vnd.openxmlformats-officedocument.presentationml.presentation.main+xml"@,
        ContentType::Slide => "application/vnd.openxmlformats-officedocument.presentationml.slide+xml"@,
        ContentType::SlideMaster =>
            "application/vnd.openxmlformats-officedocument.presentationml.slideMaster+xml"@,
        ContentType::SlideLayout =>
            "application/vnd.openxmlformats-officedocument.presentationml.slideLayout+xml"@,
        ContentType::Theme => "application/vnd.openxmlformats-officedocument.theme+xml"@,
        ContentType::CoreProperties => "application/vnd.openxmlformats-package.core-properties+xml"@,
        ContentType::ImagePng => "image/png"@,
        ContentType::ImageJpeg => "image/jpeg"@,
    }
}

impl ContentType {
    /// The `Content-Type` header used in `[Content_Types].xml`.
    pub fn mime(&self) -> (m: &'static str)
        ensures
            m@ == mime_spec(*self),
    {
        match self {
            ContentType::Presentation => {
                "application/vnd.openxmlformats-officedocument.presentationml.presentation.main+xml"
            },
            ContentType::Slide => {
                "application/vnd.openxmlformats-officedocument.presentationml.slide+xml"
            },
            ContentType::SlideMaster => {
                "application/vnd.openxmlformats-officedocument.presentationml.slideMaster+xml"
            },
            ContentType::SlideLayout => {
                "application/vnd.openxmlformats-officedocument.presentationml.slideLayout+xml"
            },
            ContentType::Theme => "application/vnd.openxmlformats-officedocument.theme+xml",
            ContentType::CoreProperties => {
                "application/vnd.openxmlformats-package.core-properties+xml"
            },
            ContentType::ImagePng => "image/png",
            ContentType::ImageJpeg => "image/jpeg",
        }
    }
}

/// Canonical part paths inside the OPC package (indexes are 1-based).
#[derive(Debug, Clone, Copy, PartialEq, Eq, Structural)]
pub enum Part {
    ContentTypes,
    RootRelationships,
    CoreProperties,
    Presentation,
    PresentationRelationships,
    Theme { index: usize },
    SlideMaster { index: usize },
    SlideLayout { index: usize },
    Slide { index: usize },
}

/// The archive path of each part.
pub open spec fn part_path_spec(p: Part) -> Seq<char> {
    match p {
        Part::ContentTypes => "[Content_Types].xml"@,
        Part::RootRelationships => "_rels/.rels"@,
        Part::CoreProperties => "docProps/core.xml"@,
        Part::Presentation => "ppt/presentation.xml"@,
        Part::PresentationRelationships => "ppt/_rels/presentation.xml.rels"@,
        Part::Theme { index } => "ppt/theme/theme"@ + decimal(index as nat) + ".xml"@,
        Part::SlideMaster { index } => "ppt/slideMasters/slideMaster"@ + decimal(index as nat)
            + ".xml"@,
        Part::SlideLayout { index } => "ppt/slideLayouts/slideLayout"@ + decimal(index as nat)
            + ".xml"@,
        Part::Slide { index } => "ppt/slides/slide"@ + decimal(index as nat) + ".xml"@,
    }
}

/// The content type each typed part declares.
pub open spec fn part_content_type_spec(p: Part) -> ContentType {
    match p {
        Part::CoreProperties => ContentType::CoreProperties,
        Part::Slide { .. } => ContentType::Slide,
        Part::SlideMaster { .. } => ContentType::SlideMaster,
        Part::SlideLayout { .. } => ContentType::SlideLayout,
        Part::Theme { .. } => ContentType::Theme,
        _ => ContentType::Presentation,
    }
}

/// Whether a part declares a content type of its own.
pub open spec fn part_is_typed(p: Part) -> bool {
    !(p is ContentTypes) && !(p is RootRelationships)
}

fn numbered_path(prefix: &str, index: usize) -> (s: String)
    ensures
        s@ == prefix@ + decimal(index as nat) + ".xml"@,
{
    let mut s = String::new();
    push_str(&mut s, prefix);
    let digits = usize_to_string(index);
    push_str(&mut s, digits.as_str());
    push_str(&mut s, ".xml");
    s
}

impl Part {
    /// The part name (path) as written into the ZIP archive.
    pub fn path(&self) -> (s: String)
        ensures
            s@ == part_path_spec(*self),
    {
        match self {
            Part::ContentTypes => String::from_str("[Content_Types].xml"),
            Part::RootRelationships => String::from_str("_rels/.rels"),
            Part::CoreProperties => String::from_str("docProps/core.xml"),
            Part::Presentation => String::from_str("ppt/presentation.xml"),
            Part::PresentationRelationships => String::from_str("ppt/_rels/presentation.xml.rels"),
            Part::Theme { index } => numbered_path("ppt/theme/theme", *index),
            Part::SlideMaster { index } => numbered_path("ppt/slideMasters/slideMaster", *index),
            Part::SlideLayout { index } => numbered_path("ppt/slideLayouts/slideLayout", *index),
            Part::Slide { index } => numbered_path("ppt/slides/slide", *index),
        }
    }

    /// The content type this part declares in `[Content_Types].xml`.
    /// The content-types part and the root relationships carry none.
    pub fn content_type(&self) -> (ct: ContentType)
        requires
            part_is_typed(*self),
        ensures
            ct == part_content_type_spec(*self),
    {
        match self {
            Part::CoreProperties => ContentType::CoreProperties,
            Part::Slide { .. } => ContentType::Slide,
            Part::SlideMaster { .. } => ContentType::SlideMaster,
            Part::SlideLayout { .. } => ContentType::SlideLayout,
            Part::Theme { .. } => ContentType::Theme,
            _ => ContentType::Presentation,
        }
    }
}

/// One file of the package: its archive path, its declared content type
/// (`None` for parts covered by a `Default` entry) and its bytes.
pub struct PackageEntry {
    pub path: String,
    pub content_type: Option<ContentType>,
    pub data: Vec<u8>,
}

impl PackageEntry {
    /// A part with its own `Override` content type.
    pub fn typed(path: String, content_type: ContentType, data: Vec<u8>) -> (e: Self)
        ensures
            e.path == path,
            e.content_type == Some(content_type),
            e.data == data,
    {
        PackageEntry { path, content_type: Some(content_type), data }
    }

    /// A part covered by a `Default` extension entry (or untyped).
    pub fn opaque(path: String, data: Vec<u8>) -> (e: Self)
        ensures
            e.path == path,
            e.content_type.is_none(),
            e.data == data,
    {
        PackageEntry { path, content_type: None, data }
    }
}

} // verus!
