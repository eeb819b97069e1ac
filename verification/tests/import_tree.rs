use slideforge::pptx::import_tree::{
    cnv_name, core_title, para_pieces, paragraph_align, ParaPiece, fill_color_source, graphic_uri, inherited_placeholder, latin_typeface, master_style_levels, rpr_flag, missing_xfrm_reason, package_rels_of, ph_key, scheme_child_rgb,
    slide_id_refs, slide_shape_tree, sp_icon, sp_placeholder, sp_tree_child, SpTreeChild,
};
use slideforge::error::Error;
use slideforge::pptd::shared::HorizontalAlign;
use slideforge::pptx::xml_tree::{attr, children, first, first_descendant, parse_part, text, XmlChild, XmlNode};

fn el(name: &str, attrs: &[(&str, &str)], kids: Vec<XmlChild>) -> XmlNode {
    XmlNode {
        name: name.to_string(),
        attributes: attrs.iter().map(|(k, v)| (k.to_string(), v.to_string())).collect(),
        children: kids,
    }
}

fn e(node: XmlNode) -> XmlChild {
    XmlChild::Element(node)
}

fn t(s: &str) -> XmlChild {
    XmlChild::Text(s.to_string())
}

#[test]
fn tree_readers_find_children_attributes_and_text() {
    let root = el(
        "root",
        &[("a", "1"), ("a", "2")],
        vec![t("x"), e(el("b", &[], vec![])), e(el("c", &[], vec![t("y")])), e(el("b", &[("k", "v")], vec![])), t("z")],
    );
    assert_eq!(attr(&root, "a"), Some("1"));
    assert_eq!(attr(&root, "missing"), None);
    assert_eq!(children(&root, "b").len(), 2);
    assert_eq!(attr(children(&root, "b")[1], "k"), Some("v"));
    assert!(first(&root, "b").unwrap().attributes.is_empty());
    assert_eq!(text(&root).as_deref(), Some("xz"));
    let mixed = el(
        "t",
        &[],
        vec![
            t("a"),
            XmlChild::Comment("skip".to_string()),
            XmlChild::CData("<b>".to_string()),
            XmlChild::Instruction("pi".to_string(), None),
        ],
    );
    assert_eq!(text(&mixed).as_deref(), Some("a<b>"));
    assert_eq!(text(first(&root, "c").unwrap()).as_deref(), Some("y"));
    assert_eq!(text(first(&root, "b").unwrap()), None);
}

#[test]
fn descendant_search_is_breadth_first() {
    // <a><x id="near"/><b><x id="deep"/></b></a>
    let root = el(
        "a",
        &[],
        vec![
            e(el("x", &[("id", "near")], vec![])),
            e(el("b", &[], vec![e(el("x", &[("id", "deep")], vec![]))])),
        ],
    );
    assert_eq!(attr(first_descendant(&root, "x").unwrap(), "id"), Some("near"));
    // Within a level, document order decides; a deeper match waits.
    let nested = el(
        "a",
        &[],
        vec![
            e(el("p", &[], vec![e(el("q", &[], vec![e(el("x", &[("id", "3")], vec![]))]))])),
            e(el("p", &[], vec![e(el("x", &[("id", "2a")], vec![])), e(el("x", &[("id", "2b")], vec![]))])),
        ],
    );
    assert_eq!(attr(first_descendant(&nested, "x").unwrap(), "id"), Some("2a"));
    assert!(first_descendant(&root, "none").is_none());
}

#[test]
fn slide_ids_follow_the_list_order() {
    let pres = el(
        "presentation",
        &[],
        vec![e(el(
            "sldIdLst",
            &[],
            vec![e(el("sldId", &[("id", "rId3")], vec![])), e(el("sldId", &[], vec![])), e(el("sldId", &[("id", "rId2")], vec![]))],
        ))],
    );
    assert_eq!(
        slide_id_refs(&pres),
        Some(vec![Some("rId3".to_string()), None, Some("rId2".to_string())])
    );
    assert_eq!(slide_id_refs(&el("presentation", &[], vec![])), None);
}

#[test]
fn relationship_parts_read_every_relationship() {
    let root = el(
        "Relationships",
        &[],
        vec![
            e(el("Relationship", &[("Id", "rId1"), ("Type", "t/slide"), ("Target", "slides/slide1.xml")], vec![])),
            t("\n"),
            e(el("Relationship", &[("Id", "rId2")], vec![])),
        ],
    );
    let rels = package_rels_of(&root);
    assert_eq!(rels.len(), 2);
    assert_eq!(rels[0].target, "slides/slide1.xml");
    assert_eq!(rels[1].kind, "");
}

#[test]
fn placeholder_keys_default_to_body() {
    assert_eq!(ph_key(&el("ph", &[("idx", "1")], vec![])), ("body".to_string(), Some("1".to_string())));
    assert_eq!(ph_key(&el("ph", &[("type", "title")], vec![])), ("title".to_string(), None));
}

#[test]
fn scheme_children_prefer_srgb_over_system_colors() {
    let both = el(
        "dk1",
        &[],
        vec![e(el("sysClr", &[("lastClr", "000000")], vec![])), e(el("srgbClr", &[("val", "112233")], vec![]))],
    );
    assert_eq!(scheme_child_rgb(&both).as_deref(), Some("112233"));
    let sys = el("lt1", &[], vec![e(el("sysClr", &[("val", "window"), ("lastClr", "FFFFFF")], vec![]))]);
    assert_eq!(scheme_child_rgb(&sys).as_deref(), Some("FFFFFF"));
    assert_eq!(scheme_child_rgb(&el("dk2", &[], vec![])), None);
}

fn frame(uri: &str, named: bool) -> XmlNode {
    let mut kids = vec![e(el(
        "graphic",
        &[],
        vec![e(el("graphicData", &[("uri", uri)], vec![]))],
    ))];
    if named {
        kids.insert(
            0,
            e(el("nvGraphicFramePr", &[], vec![e(el("cNvPr", &[("id", "4"), ("name", "Chart 3")], vec![]))])),
        );
    }
    el("graphicFrame", &[], kids)
}

#[test]
fn shape_tree_children_are_dispatched_by_name() {
    assert_eq!(sp_tree_child(&el("sp", &[], vec![])), SpTreeChild::Shape);
    assert_eq!(sp_tree_child(&el("pic", &[], vec![])), SpTreeChild::Picture);
    assert_eq!(sp_tree_child(&el("cxnSp", &[], vec![])), SpTreeChild::Connector);
    assert_eq!(sp_tree_child(&el("grpSp", &[], vec![])), SpTreeChild::Group);
    assert_eq!(sp_tree_child(&el("extLst", &[], vec![])), SpTreeChild::Ignored);
    let chart = frame("http://schemas.openxmlformats.org/drawingml/2006/chart", true);
    assert_eq!(graphic_uri(&chart), Some("http://schemas.openxmlformats.org/drawingml/2006/chart"));
    assert_eq!(cnv_name(&chart).as_deref(), Some("Chart 3"));
    assert_eq!(
        sp_tree_child(&chart),
        SpTreeChild::Skipped {
            name: "Chart 3".to_string(),
            reason: "chart elements are not representable in PPTD".to_string()
        }
    );
    assert_eq!(
        sp_tree_child(&frame("urn:x/table", false)),
        SpTreeChild::Skipped {
            name: "graphicFrame".to_string(),
            reason: "table elements are not representable in PPTD".to_string()
        }
    );
    assert_eq!(
        sp_tree_child(&el("oleObj", &[], vec![])),
        SpTreeChild::Skipped { name: "oleObj".to_string(), reason: "embedded objects are not supported".to_string() }
    );
}

#[test]
fn shapes_expose_their_placeholder_and_icon() {
    let icon = el("icon", &[], vec![t("payload")]);
    let nv_pr = el(
        "nvPr",
        &[],
        vec![
            e(el("ph", &[("type", "title")], vec![])),
            e(el(
                "extLst",
                &[],
                vec![
                    e(el("ext", &[("uri", "{other}")], vec![e(el("icon", &[], vec![t("wrong")]))])),
                    e(el("ext", &[("uri", "{F5677B7D-0D2A-4D9B-9A5C-6D8D7D0E5A5D}")], vec![e(icon)])),
                ],
            )),
        ],
    );
    let sp = el("sp", &[], vec![e(el("nvSpPr", &[], vec![e(nv_pr)]))]);
    assert_eq!(attr(sp_placeholder(&sp).unwrap(), "type"), Some("title"));
    assert_eq!(text(sp_icon(&sp).unwrap()).as_deref(), Some("payload"));
    assert!(sp_placeholder(&el("sp", &[], vec![])).is_none());
    assert_eq!(missing_xfrm_reason(false), "shape has no a:xfrm");
}

#[test]
fn core_title_is_trimmed_and_never_empty() {
    let core = el("coreProperties", &[], vec![e(el("title", &[], vec![t("  Q3 "), t("plan ")]))]);
    assert_eq!(core_title(&core).as_deref(), Some("Q3 plan"));
    let blank = el("coreProperties", &[], vec![e(el("title", &[], vec![t("   ")]))]);
    assert_eq!(core_title(&blank), None);
    assert_eq!(core_title(&el("coreProperties", &[], vec![])), None);
}

#[test]
fn run_flags_parse_as_u8_and_latin_faces_must_be_named() {
    let rpr = el(
        "rPr",
        &[("b", "1"), ("i", "0"), ("u", "+7"), ("x", "256"), ("y", "-1"), ("z", "")],
        vec![e(el("latin", &[("typeface", "Inter")], vec![]))],
    );
    assert_eq!(rpr_flag(&rpr, "b"), Some(true));
    assert_eq!(rpr_flag(&rpr, "i"), Some(false));
    assert_eq!(rpr_flag(&rpr, "u"), Some(true));
    assert_eq!(rpr_flag(&rpr, "x"), None);
    assert_eq!(rpr_flag(&rpr, "y"), None);
    assert_eq!(rpr_flag(&rpr, "z"), None);
    assert_eq!(rpr_flag(&rpr, "missing"), None);
    assert_eq!(latin_typeface(&rpr), Some("Inter"));
    let blank = el("rPr", &[], vec![e(el("latin", &[("typeface", "")], vec![]))]);
    assert_eq!(latin_typeface(&blank), None);
}

#[test]
fn fill_colors_come_from_the_first_color_source() {
    let slots = vec![("accent1".to_string(), "4F81BD".to_string())];
    let srgb = el("solidFill", &[], vec![e(el("srgbClr", &[("val", "ff0000")], vec![]))]);
    let (rgb, node) = fill_color_source(&srgb, &slots).unwrap();
    assert_eq!(rgb, "ff0000");
    assert_eq!(node.unwrap().name, "srgbClr");
    let scheme = el("solidFill", &[], vec![e(el("schemeClr", &[("val", "accent1")], vec![]))]);
    assert_eq!(fill_color_source(&scheme, &slots).unwrap().0, "4F81BD");
    let unknown = el("solidFill", &[], vec![e(el("schemeClr", &[("val", "accent9")], vec![]))]);
    assert!(fill_color_source(&unknown, &slots).is_none());
    let window = el("solidFill", &[], vec![e(el("sysClr", &[("val", "window")], vec![]))]);
    let (rgb, node) = fill_color_source(&window, &slots).unwrap();
    assert_eq!(rgb, "FFFFFF");
    assert!(node.is_none());
    let preset = el("solidFill", &[], vec![e(el("prstClr", &[("val", "black")], vec![]))]);
    assert_eq!(fill_color_source(&preset, &slots).unwrap().0, "000000");
}

#[test]
fn slides_need_a_shape_tree() {
    let ok = el("sld", &[], vec![e(el("cSld", &[], vec![e(el("spTree", &[], vec![]))]))]);
    assert_eq!(slide_shape_tree(&ok, "ppt/slides/slide1.xml").unwrap().name, "spTree");
    match slide_shape_tree(&el("sld", &[], vec![]), "ppt/slides/slide2.xml") {
        Err(Error::Invalid(m)) => assert_eq!(m, "slide part ppt/slides/slide2.xml has no p:cSld"),
        _ => panic!("expected an error"),
    }
    match slide_shape_tree(&el("sld", &[], vec![e(el("cSld", &[], vec![]))]), "s.xml") {
        Err(Error::Invalid(m)) => assert_eq!(m, "slide part s.xml has no p:spTree"),
        _ => panic!("expected an error"),
    }
}

#[test]
fn master_styles_are_read_at_level_one_in_order() {
    let lvl = |n: &str| e(el("lvl1pPr", &[("algn", n)], vec![]));
    let master = el(
        "sldMaster",
        &[],
        vec![e(el(
            "txStyles",
            &[],
            vec![
                e(el("otherStyle", &[], vec![lvl("o")])),
                e(el("titleStyle", &[], vec![lvl("t")])),
                e(el("bodyStyle", &[], vec![])),
            ],
        ))],
    );
    let levels = master_style_levels(&master);
    assert_eq!(levels.len(), 2);
    assert_eq!(levels[0].0, "title");
    assert_eq!(attr(levels[0].1, "algn"), Some("t"));
    assert_eq!(levels[1].0, "other");
    assert!(master_style_levels(&el("sldMaster", &[], vec![])).is_empty());
}

#[test]
fn placeholders_inherit_by_type_and_index_then_by_type() {
    let k = |t: &str, i: Option<&str>| (t.to_string(), i.map(str::to_string));
    let keys = vec![k("body", None), k("body", Some("2")), k("title", None)];
    assert_eq!(inherited_placeholder(&keys, &k("body", Some("2"))), Some(1));
    assert_eq!(inherited_placeholder(&keys, &k("body", Some("7"))), Some(0));
    assert_eq!(inherited_placeholder(&keys, &k("title", Some("1"))), Some(2));
    assert_eq!(inherited_placeholder(&keys, &k("pic", None)), None);
}

#[test]
fn parts_parse_into_the_library_tree() {
    let n = parse_part("a.xml", br#"<a><x id="near"/><b><x id="deep"/><!--c--><![CDATA[<z>]]></b>hi</a>"#).unwrap();
    assert_eq!(n.name, "a");
    assert_eq!(attr(first_descendant(&n, "x").unwrap(), "id"), Some("near"));
    assert_eq!(text(&n).as_deref(), Some("hi"));
    let b = first(&n, "b").unwrap();
    assert!(matches!(&b.children[1], XmlChild::Comment(c) if c == "c"));
    assert_eq!(text(b).as_deref(), Some("<z>"));
    let prefixed = parse_part("s.xml", br#"<p:sld xmlns:p="urn:p" xmlns:r="urn:r"><p:cSld r:id="rId1"/></p:sld>"#).unwrap();
    assert_eq!(prefixed.name, "sld");
    assert_eq!(attr(first(&prefixed, "cSld").unwrap(), "id"), Some("rId1"));
    match parse_part("ppt/bad.xml", b"<a>") {
        Err(Error::Invalid(m)) => assert!(m.starts_with("parse XML in ppt/bad.xml: ")),
        _ => panic!("expected a parse error"),
    }
}

#[test]
fn paragraphs_split_into_runs_breaks_and_fields() {
    let p = el(
        "p",
        &[],
        vec![
            e(el("pPr", &[("algn", "ctr")], vec![])),
            e(el("r", &[], vec![e(el("rPr", &[("b", "1")], vec![])), e(el("t", &[], vec![t("Hi")]))])),
            e(el("br", &[], vec![])),
            e(el("fld", &[], vec![e(el("t", &[], vec![t("3")]))])),
            e(el("r", &[], vec![])),
            e(el("endParaRPr", &[], vec![])),
        ],
    );
    let pieces = para_pieces(&p);
    assert_eq!(pieces.len(), 4);
    match &pieces[0] {
        ParaPiece::Run(text, Some(rpr)) => {
            assert_eq!(text, "Hi");
            assert_eq!(attr(rpr, "b"), Some("1"));
        }
        other => panic!("unexpected {other:?}"),
    }
    assert!(matches!(pieces[1], ParaPiece::Break));
    assert!(matches!(&pieces[2], ParaPiece::Field(t) if t == "3"));
    assert!(matches!(&pieces[3], ParaPiece::Run(t, None) if t.is_empty()));
    assert_eq!(paragraph_align(first(&p, "pPr").unwrap()), Some(HorizontalAlign::Center));
    assert_eq!(paragraph_align(&el("pPr", &[("algn", "l")], vec![])), Some(HorizontalAlign::Left));
    assert_eq!(paragraph_align(&el("pPr", &[], vec![])), None);
}
