use slideforge::cli::{count_by_key, tally_summary};
use slideforge::error::Error;
use slideforge::pptx::media::{path_extension, sniff_size, ImageSize, MediaRegistry};
use slideforge::pptx::opc::{content_types_xml, rels_xml, Rel};
use slideforge::pptx::package::{ContentType, PackageEntry, Part};
use slideforge::pptx::rel_kind;

fn png(width: u32, height: u32) -> Vec<u8> {
    let mut d = vec![0x89, b'P', b'N', b'G', 0x0D, 0x0A, 0x1A, 0x0A, 0, 0, 0, 13, b'I', b'H', b'D', b'R'];
    d.extend_from_slice(&width.to_be_bytes());
    d.extend_from_slice(&height.to_be_bytes());
    d.extend_from_slice(&[8, 6, 0, 0, 0]);
    d
}

fn jpeg(width: u16, height: u16) -> Vec<u8> {
    let mut d = vec![0xFF, 0xD8];
    // An APP0 segment to skip, then a baseline frame header.
    d.extend_from_slice(&[0xFF, 0xE0, 0x00, 0x04, 0x00, 0x00]);
    d.extend_from_slice(&[0xFF, 0xC0, 0x00, 0x0B, 0x08]);
    d.extend_from_slice(&height.to_be_bytes());
    d.extend_from_slice(&width.to_be_bytes());
    d.extend_from_slice(&[0x01, 0x01, 0x11, 0x00]);
    d
}

#[test]
fn sniffs_png_and_jpeg_sizes() {
    assert_eq!(sniff_size(&png(640, 480)), Some(ImageSize { width: 640, height: 480 }));
    assert_eq!(sniff_size(&jpeg(300, 200)), Some(ImageSize { width: 300, height: 200 }));
    assert_eq!(sniff_size(b"GIF89a"), None);
    assert_eq!(sniff_size(&[0xFF, 0xD8, 0xFF, 0xD9]), None);
}

#[test]
fn registry_numbers_and_deduplicates_media() {
    let mut reg = MediaRegistry::new("/deck");
    assert_eq!(reg.root_dir(), "/deck");
    assert_eq!(reg.register("img/a.PNG", png(1, 2)).unwrap(), 0);
    assert_eq!(reg.register("img/b.jpg", jpeg(3, 4)).unwrap(), 1);
    assert_eq!(reg.register("img/a.PNG", Vec::new()).unwrap(), 0);
    assert_eq!(reg.lookup("img/b.jpg"), Some(1));
    assert_eq!(reg.lookup("img/c.jpg"), None);
    let first = reg.part(0);
    assert_eq!(first.package_path, "ppt/media/image1.png");
    assert_eq!(first.content_type, ContentType::ImagePng);
    assert_eq!(first.size, ImageSize { width: 1, height: 2 });
    assert_eq!(reg.part(1).package_path, "ppt/media/image2.jpg");
    assert_eq!(reg.extensions(), vec!["png".to_string(), "jpg".to_string()]);
    assert_eq!(reg.into_parts().len(), 2);
}

#[test]
fn registry_rejects_unusable_media() {
    let mut reg = MediaRegistry::new(".");
    match reg.register("img/noext", png(1, 1)) {
        Err(Error::Unsupported(m)) => {
            assert_eq!(m, "media `img/noext` has no image extension (png/jpg/jpeg)")
        }
        other => panic!("unexpected {other:?}"),
    }
    match reg.register("a.gif", png(1, 1)) {
        Err(Error::Unsupported(m)) => assert_eq!(
            m,
            "media `a.gif` uses unsupported image extension `gif` (png/jpg/jpeg)"
        ),
        other => panic!("unexpected {other:?}"),
    }
    match reg.register("a.png", b"not an image".to_vec()) {
        Err(Error::Unsupported(m)) => assert_eq!(m, "media `a.png` is not a readable PNG/JPEG image"),
        other => panic!("unexpected {other:?}"),
    }
    assert!(reg.extensions().is_empty());
}

#[test]
fn path_extensions() {
    assert_eq!(path_extension("a/b.c/d.PNG").as_deref(), Some("PNG"));
    assert_eq!(path_extension("a/.hidden"), None);
    assert_eq!(path_extension("a/b"), None);
    assert_eq!(path_extension(".."), None);
    assert_eq!(path_extension("x.tar.gz").as_deref(), Some("gz"));
}

#[test]
fn rels_document() {
    let rels = vec![
        Rel::new("rId1", rel_kind::SLIDE_LAYOUT, "../slideLayouts/slideLayout1.xml"),
        Rel::new("rId2", rel_kind::IMAGE, "../media/image1.png"),
    ];
    let xml = rels_xml(&rels);
    assert_eq!(
        xml,
        "<?xml version=\"1.0\" encoding=\"UTF-8\" standalone=\"yes\"?>\n\
         <Relationships xmlns=\"http://schemas.openxmlformats.org/package/2006/relationships\">\n\
         \x20\x20<Relationship Id=\"rId1\" Type=\"http://schemas.openxmlformats.org/officeDocument/2006/relationships/slideLayout\" Target=\"../slideLayouts/slideLayout1.xml\"/>\n\
         \x20\x20<Relationship Id=\"rId2\" Type=\"http://schemas.openxmlformats.org/officeDocument/2006/relationships/image\" Target=\"../media/image1.png\"/>\n\
         </Relationships>\n"
    );
}

#[test]
fn content_types_cover_every_typed_part() {
    let entries = vec![
        PackageEntry::typed(Part::Presentation.path(), ContentType::Presentation, vec![]),
        PackageEntry::typed(Part::Slide { index: 1 }.path(), ContentType::Slide, vec![]),
        PackageEntry::typed(Part::Theme { index: 1 }.path(), ContentType::Theme, vec![]),
        PackageEntry::typed(Part::SlideMaster { index: 1 }.path(), ContentType::SlideMaster, vec![]),
        PackageEntry::typed(Part::SlideLayout { index: 1 }.path(), ContentType::SlideLayout, vec![]),
        PackageEntry::typed(Part::CoreProperties.path(), ContentType::CoreProperties, vec![]),
        PackageEntry::opaque("_rels/.rels".to_string(), vec![]),
    ];
    let xml = content_types_xml(&entries, &["png".to_string()]);
    assert!(xml.contains("<Default Extension=\"png\" ContentType=\"image/png\"/>"), "png Default content type missing");
    for (part, ct) in [
        ("/ppt/presentation.xml", "presentationml.presentation.main+xml"),
        ("/ppt/slides/slide1.xml", "presentationml.slide+xml"),
        ("/ppt/theme/theme1.xml", "officedocument.theme+xml"),
        ("/ppt/slideMasters/slideMaster1.xml", "presentationml.slideMaster+xml"),
        ("/ppt/slideLayouts/slideLayout1.xml", "presentationml.slideLayout+xml"),
        ("/docProps/core.xml", "core-properties+xml"),
    ] {
        let name = format!("<Override PartName=\"{part}\"");
        assert!(
            xml.lines().any(|l| l.contains(&name) && l.contains(ct)),
            "content type for {part} missing or wrong"
        );
    }
    assert!(!xml.contains("_rels/.rels\""));
}

#[test]
fn part_paths() {
    assert_eq!(Part::SlideLayout { index: 12 }.path(), "ppt/slideLayouts/slideLayout12.xml");
    assert_eq!(Part::ContentTypes.path(), "[Content_Types].xml");
    assert_eq!(Part::CoreProperties.content_type(), ContentType::CoreProperties);
    assert_eq!(ContentType::ImageJpeg.mime(), "image/jpeg");
}

#[test]
fn tallies_are_sorted_and_counted() {
    let keys: Vec<String> = ["text", "shape", "text", "line", "text", "shape"]
        .iter()
        .map(|s| s.to_string())
        .collect();
    let tally = count_by_key(&keys);
    assert_eq!(
        tally,
        vec![
            ("line".to_string(), 1),
            ("shape".to_string(), 2),
            ("text".to_string(), 3),
        ]
    );
    assert_eq!(tally_summary(&tally), "1x line, 2x shape, 3x text");
    assert!(count_by_key(&Vec::new()).is_empty());
    assert_eq!(tally_summary(&Vec::new()), "");
}

#[test]
fn media_are_listed_once_in_order_of_first_use() {
    let srcs: Vec<String> = ["b.png", "a.jpg", "b.png", "c.png", "a.jpg"].iter().map(|s| s.to_string()).collect();
    assert_eq!(
        slideforge::pptx::media::media_in_first_use(&srcs),
        vec!["b.png".to_string(), "a.jpg".to_string(), "c.png".to_string()]
    );
    assert!(slideforge::pptx::media::media_in_first_use(&Vec::new()).is_empty());
}
