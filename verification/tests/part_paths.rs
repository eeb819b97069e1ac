use slideforge::pptx::import::{rels_part, resolve_target};
use slideforge::pptx::part_paths::{layout_number, layout_part_path, media_rel_id, slide_part_path};
use slideforge::pptx::writer::{layout_rels, master_rels, presentation_rels, slide_rels};

#[test]
fn slides_follow_their_declared_layout() {
    let keys = vec!["cover".to_string(), "content".to_string(), "end".to_string()];
    assert_eq!(layout_number(&keys, Some("cover")), 1);
    assert_eq!(layout_number(&keys, Some("end")), 3);
    assert_eq!(layout_number(&keys, Some("missing")), 1);
    assert_eq!(layout_number(&keys, None), 1);
    assert_eq!(layout_number(&Vec::new(), Some("cover")), 1);
}

#[test]
fn written_relationships_resolve_to_written_parts() {
    assert_eq!(slide_part_path(3), "ppt/slides/slide3.xml");
    assert_eq!(layout_part_path(2), "ppt/slideLayouts/slideLayout2.xml");
    assert_eq!(rels_part(&slide_part_path(3)), "ppt/slides/_rels/slide3.xml.rels");

    let pres = presentation_rels(2);
    let resolved: Vec<String> = pres
        .iter()
        .map(|r| resolve_target("ppt/presentation.xml", &r.target))
        .collect();
    assert_eq!(
        resolved,
        vec![
            "ppt/slideMasters/slideMaster1.xml",
            "ppt/theme/theme1.xml",
            "ppt/slides/slide1.xml",
            "ppt/slides/slide2.xml",
        ]
    );

    let master: Vec<String> = master_rels(2)
        .iter()
        .map(|r| resolve_target("ppt/slideMasters/slideMaster1.xml", &r.target))
        .collect();
    assert_eq!(
        master,
        vec![
            "ppt/theme/theme1.xml",
            "ppt/slideLayouts/slideLayout1.xml",
            "ppt/slideLayouts/slideLayout2.xml",
        ]
    );

    let media = vec!["ppt/media/image1.png".to_string(), "ppt/media/image2.jpeg".to_string()];
    let slide: Vec<String> = slide_rels(2, &media)
        .iter()
        .map(|r| resolve_target(&slide_part_path(1), &r.target))
        .collect();
    assert_eq!(
        slide,
        vec!["ppt/slideLayouts/slideLayout2.xml", "ppt/media/image1.png", "ppt/media/image2.jpeg"]
    );

    let layout: Vec<String> = layout_rels(&media)
        .iter()
        .map(|r| resolve_target(&layout_part_path(1), &r.target))
        .collect();
    assert_eq!(
        layout,
        vec!["ppt/slideMasters/slideMaster1.xml", "ppt/media/image1.png", "ppt/media/image2.jpeg"]
    );
}

#[test]
fn images_embed_the_relationship_of_their_own_media() {
    let used = vec!["img/a.png".to_string(), "img/b.jpg".to_string()];
    assert_eq!(media_rel_id(&used, "img/a.png").as_deref(), Some("rId2"));
    assert_eq!(media_rel_id(&used, "img/b.jpg").as_deref(), Some("rId3"));
    assert_eq!(media_rel_id(&used, "img/c.png"), None);
    let paths = vec!["ppt/media/image1.png".to_string(), "ppt/media/image2.jpg".to_string()];
    let rels = slide_rels(1, &paths);
    let rel = rels.iter().find(|r| r.id == "rId3").expect("media relationship");
    assert_eq!(resolve_target(&slide_part_path(1), &rel.target), "ppt/media/image2.jpg");
}
