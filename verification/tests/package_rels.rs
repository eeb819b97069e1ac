use slideforge::error::Error;
use slideforge::pptx::rels::{
    first_target_of_kind, office_document_target, presentation_slides, rel_map, slide_rels, PackageRel,
    RelMap,
};

fn rel(id: &str, kind: &str, target: &str) -> PackageRel {
    PackageRel { id: id.to_string(), kind: kind.to_string(), target: target.to_string() }
}

const OD: &str = "http://schemas.openxmlformats.org/officeDocument/2006/relationships";

fn invalid(r: Result<Vec<String>, Error>) -> String {
    match r {
        Err(Error::Invalid(m)) => m,
        other => panic!("expected an invalid-document error, got {other:?}"),
    }
}

#[test]
fn main_part_comes_from_the_office_document_relationship() {
    let rels = vec![
        rel("rId2", "http://schemas.openxmlformats.org/package/2006/relationships/metadata/core-properties", "docProps/core.xml"),
        rel("rId1", &format!("{OD}/officeDocument"), "ppt/presentation.xml"),
    ];
    assert_eq!(office_document_target(&rels).unwrap(), "ppt/presentation.xml");
    match office_document_target(&rels[..1]) {
        Err(Error::Invalid(m)) => {
            assert_eq!(m, "package has no officeDocument relationship in _rels/.rels")
        }
        other => panic!("unexpected {other:?}"),
    }
}

#[test]
fn slide_relationships_resolve_against_the_slide() {
    let rels = vec![
        rel("rId2", &format!("{OD}/image"), "../media/image1.png"),
        rel("rId1", &format!("{OD}/slideLayout"), "../slideLayouts/slideLayout2.xml"),
        rel("rId3", &format!("{OD}/slideLayout"), "../slideLayouts/slideLayout3.xml"),
    ];
    let (map, layout) = slide_rels("ppt/slides/slide1.xml", &rels);
    assert_eq!(layout.as_deref(), Some("ppt/slideLayouts/slideLayout2.xml"));
    assert_eq!(map.get("rId2"), Some("ppt/media/image1.png"));
    assert_eq!(map.get("rId9"), None);
    assert_eq!(
        first_target_of_kind("ppt/slides/slide1.xml", &rels, "/image").as_deref(),
        Some("ppt/media/image1.png")
    );
    assert_eq!(first_target_of_kind("ppt/slides/slide1.xml", &rels, "/theme"), None);
}

#[test]
fn later_relationship_with_the_same_id_wins() {
    let rels = vec![rel("rId1", "a", "one.xml"), rel("rId1", "b", "two.xml")];
    let map = rel_map("ppt/x.xml", &rels);
    assert_eq!(map.get("rId1"), Some("ppt/two.xml"));
    let mut m = RelMap::new();
    m.insert("k".to_string(), "v".to_string());
    m.insert("k".to_string(), "w".to_string());
    assert_eq!(m.get("k"), Some("w"));
}

#[test]
fn slides_follow_the_slide_id_list() {
    let rels = vec![
        rel("rId2", &format!("{OD}/slide"), "slides/slide1.xml"),
        rel("rId3", &format!("{OD}/slide"), "slides/slide2.xml"),
    ];
    let ids = vec![Some("rId3".to_string()), Some("rId2".to_string())];
    let slides = presentation_slides("ppt/presentation.xml", Some(&ids), &rels).unwrap();
    assert_eq!(slides, vec!["ppt/slides/slide2.xml".to_string(), "ppt/slides/slide1.xml".to_string()]);
}

#[test]
fn slide_list_errors() {
    let rels = vec![rel("rId2", &format!("{OD}/slide"), "slides/slide1.xml")];
    assert_eq!(
        invalid(presentation_slides("ppt/presentation.xml", None, &rels)),
        "presentation.xml has no p:sldIdLst"
    );
    let missing = vec![Some("rId2".to_string()), None];
    assert_eq!(
        invalid(presentation_slides("ppt/presentation.xml", Some(&missing), &rels)),
        "p:sldId missing r:id"
    );
    let unknown = vec![Some("rId9".to_string())];
    assert_eq!(
        invalid(presentation_slides("ppt/presentation.xml", Some(&unknown), &rels)),
        "slide rId rId9 not in presentation rels"
    );
    assert_eq!(presentation_slides("ppt/presentation.xml", Some(&[]), &rels).unwrap().len(), 0);
}
