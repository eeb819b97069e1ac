use slideforge::pptx::scheme::{scheme_slot_colors, theme_colors_from_scheme};
use slideforge::pptx::master::{slide_master_xml, TxStyle};
use slideforge::pptd::shared::FontFamily;
use slideforge::pptx::theme::{build_color_slots, default_fonts, lookup_color, theme_xml, ColorSlots};
use slideforge::pptx::opc::Rel;
use slideforge::pptx::writer::{
    core_properties_xml, group_prolog, layout_rels, master_rels, presentation_rels, presentation_xml,
    rel_target, root_rels, slide_layout_xml, slide_rels,
};
use slideforge::pptx::xml::Xml;

fn colors(pairs: &[(&str, &str)]) -> Vec<(String, String)> {
    pairs.iter().map(|(k, v)| (k.to_string(), v.to_string())).collect()
}

fn slots(s: &ColorSlots) -> Vec<String> {
    (0..12).map(|i| s.slot(i).to_string()).collect()
}

fn count(haystack: &str, needle: &str) -> usize {
    haystack.matches(needle).count()
}

const OFFICE: [&str; 12] = [
    "FFFFFF", "000000", "1F497D", "EEECE1", "4F81BD", "C0504D", "9BBB59", "8064A2", "4BACC6",
    "F79646", "0000FF", "800080",
];

#[test]
fn default_palette_without_colors() {
    let s = build_color_slots(&[]);
    assert_eq!(slots(&s), OFFICE.iter().map(|c| c.to_string()).collect::<Vec<_>>());
    assert_eq!(slots(&ColorSlots::default()), slots(&s));
}

#[test]
fn semantic_keys_then_leftovers_in_order() {
    let c = colors(&[
        ("brand", "#112233"),
        ("PRIMARY", "#2563eb"),
        ("text", "#000000"),
        ("extra", "#445566AA"),
        ("bad", "$primary"),
    ]);
    let s = slots(&build_color_slots(&c));
    // text → dk1, primary (any case) → accent1.
    assert_eq!(s[0], "000000");
    assert_eq!(s[4], "2563EB");
    // Leftovers fill the free accent slots in walk order: accent2, accent3, accent4.
    assert_eq!(s[5], "112233");
    assert_eq!(s[6], "445566");
    // A value that is no hex color keeps the Office value of its slot.
    assert_eq!(s[7], "8064A2");
    // dk1's partners keep their Office values.
    assert_eq!(&s[1..4], &OFFICE[1..4]);
    assert_eq!(&s[8..], &OFFICE[8..]);
}

#[test]
fn leftovers_stop_when_every_accent_slot_is_taken() {
    let many: Vec<(String, String)> = (0..20)
        .map(|i| (format!("k{i}"), format!("#{:06X}", i)))
        .collect();
    let s = slots(&build_color_slots(&many));
    for (i, v) in s.iter().enumerate() {
        if (4..10).contains(&i) {
            assert_eq!(v, &format!("{:06X}", i - 4));
        } else {
            assert_eq!(v, OFFICE[i]);
        }
    }
}

#[test]
fn a_lone_brand_color_takes_accent1() {
    let s = slots(&build_color_slots(&colors(&[("brand", "#123456")])));
    assert_eq!(s[4], "123456");
    assert_eq!(&s[0..4], &OFFICE[0..4]);
}

#[test]
fn lookup_prefers_the_exact_key() {
    let c = colors(&[("Primary", "#111111"), ("primary", "#222222")]);
    assert_eq!(lookup_color(&c, "primary").map(|s| s.as_str()), Some("#222222"));
    assert_eq!(lookup_color(&c, "PRIMARY").map(|s| s.as_str()), Some("#111111"));
    assert_eq!(lookup_color(&c, "secondary"), None);
}

#[test]
fn theme_colors_are_six_hex_digits_without_hash() {
    let xml = theme_xml(&colors(&[("primary", "#2563EB"), ("x", "#abc")]), "MiSans", "MiSans");
    assert!(xml.contains("2563EB"), "theme primary color missing");
    for part in xml.split("<a:srgbClr val=\"").skip(1) {
        let val = &part[..part.find('"').unwrap()];
        assert!(
            val.len() == 6 && val.chars().all(|c| c.is_ascii_hexdigit()),
            "srgbClr val `{val}` must be exactly six hex digits, no '#'"
        );
    }
}

#[test]
fn complex_script_font_is_not_empty() {
    let xml = theme_xml(&[], "Inter", "Noto Sans SC");
    assert!(!xml.contains("<a:cs typeface=\"\"/>"));
    assert_eq!(count(&xml, "<a:cs typeface=\"Inter\"/>"), 2);
    assert_eq!(count(&xml, "<a:ea typeface=\"Noto Sans SC\"/>"), 2);
}

#[test]
fn background_style_list_has_three_entries() {
    let xml = theme_xml(&[], "MiSans", "MiSans");
    let start = xml.find("<a:bgFillStyleLst>").unwrap();
    let end = xml.find("</a:bgFillStyleLst>").unwrap();
    let list = &xml[start..end];
    // Direct children sit two levels below the theme elements.
    let children = list
        .lines()
        .filter(|l| l.starts_with("        <") && !l.starts_with("         ") && !l.starts_with("        </"))
        .count();
    assert!(children >= 3, "a:bgFillStyleLst should ship three background fills");
}

#[test]
fn theme_part_shape() {
    let xml = theme_xml(&[], "MiSans", "MiSans");
    assert!(xml.starts_with(
        "<?xml version=\"1.0\" encoding=\"UTF-8\" standalone=\"yes\"?>\n<a:theme xmlns:a=\"http://schemas.openxmlformats.org/drawingml/2006/main\" name=\"SlideForge\">\n  <a:themeElements>\n    <a:clrScheme name=\"SlideForge\">\n      <a:dk1>\n        <a:srgbClr val=\"FFFFFF\"/>\n      </a:dk1>\n"
    ));
    assert!(xml.ends_with("  <a:objectDefaults/>\n  <a:extraClrSchemeLst/>\n</a:theme>\n"));
    assert_eq!(count(&xml, "<a:ln w="), 3);
    assert_eq!(count(&xml, "<a:effectStyle>"), 3);
    assert_eq!(count(&xml, "<a:outerShdw "), 1);
    assert_eq!(count(&xml, "<a:gs pos="), 12);
}

#[test]
fn default_font_pair() {
    assert_eq!(default_fonts(None), ("MiSans".to_string(), "MiSans".to_string()));
    let single = FontFamily::Single("Inter".to_string());
    assert_eq!(default_fonts(Some(&single)), ("Inter".to_string(), "Inter".to_string()));
    let pair = FontFamily::Bilingual {
        latin: "Inter".to_string(),
        ea: "HarmonyOS Sans".to_string(),
    };
    assert_eq!(default_fonts(Some(&pair)), ("Inter".to_string(), "HarmonyOS Sans".to_string()));
}

#[test]
fn clr_map_overrides_use_master_mapping() {
    let xml = slide_layout_xml();
    assert!(xml.contains("  <p:clrMapOvr>\n    <a:masterClrMapping/>\n  </p:clrMapOvr>\n"));
}

#[test]
fn blank_layout_part() {
    let xml = slide_layout_xml();
    assert!(xml.contains("<p:sldLayout xmlns:p=\"http://schemas.openxmlformats.org/presentationml/2006/main\" xmlns:a=\"http://schemas.openxmlformats.org/drawingml/2006/main\" xmlns:r=\"http://schemas.openxmlformats.org/officeDocument/2006/relationships\" type=\"blank\" preserve=\"1\">\n"));
    assert!(xml.contains("    <p:spTree>\n      <p:nvGrpSpPr>\n        <p:cNvPr id=\"1\" name=\"\"/>\n"));
}

#[test]
fn group_prolog_lines() {
    let mut x = Xml::new();
    group_prolog(&mut x);
    let text = x.into_string();
    let body = text.split_once("?>\n").unwrap().1;
    assert_eq!(
        body,
        "<p:nvGrpSpPr>\n  <p:cNvPr id=\"1\" name=\"\"/>\n  <p:cNvGrpSpPr/>\n  <p:nvPr/>\n</p:nvGrpSpPr>\n\
         <p:grpSpPr>\n  <a:xfrm>\n    <a:off x=\"0\" y=\"0\"/>\n    <a:ext cx=\"0\" cy=\"0\"/>\n    <a:chOff x=\"0\" y=\"0\"/>\n    <a:chExt cx=\"0\" cy=\"0\"/>\n  </a:xfrm>\n</p:grpSpPr>\n"
    );
}

#[test]
fn presentation_lists_slides_from_id_256() {
    let xml = presentation_xml(2, "12192000", "6858000");
    assert!(xml.contains("    <p:sldId id=\"256\" r:id=\"rId3\"/>\n    <p:sldId id=\"257\" r:id=\"rId4\"/>\n"));
    assert!(xml.contains("  <p:sldSz cx=\"12192000\" cy=\"6858000\"/>\n"));
    assert!(xml.contains("<p:sldMasterId id=\"2147483648\" r:id=\"rId1\"/>"));
    let empty = presentation_xml(0, "1", "1");
    assert!(empty.contains("  <p:sldIdLst>\n  </p:sldIdLst>\n"));
}

#[test]
fn core_properties_carry_title_and_fixed_time() {
    let xml = core_properties_xml(Some("Q3 & Q4"));
    assert!(xml.contains("  <dc:title>Q3 &amp; Q4</dc:title>\n"));
    assert!(xml.contains("  <dcterms:modified xsi:type=\"dcterms:W3CDTF\">1970-01-01T00:00:00Z</dcterms:modified>\n"));
    let untitled = core_properties_xml(None);
    assert!(!untitled.contains("dc:title"));
}

#[test]
fn media_targets_are_relative_to_the_slide_dir() {
    assert_eq!(rel_target("ppt/media/image1.png"), "../media/image1.png");
    assert_eq!(rel_target("media/x.png"), "../media/x.png");
    assert_eq!(rel_target(""), "../");
}

#[test]
fn relationship_sets() {
    let view = |rs: Vec<Rel>| -> Vec<(String, String, String)> {
        rs.into_iter().map(|r| (r.id, r.kind.rsplit('/').next().unwrap().to_string(), r.target)).collect()
    };
    let s = |a: &str, b: &str, c: &str| (a.to_string(), b.to_string(), c.to_string());
    assert_eq!(
        view(presentation_rels(2)),
        vec![
            s("rId1", "slideMaster", "slideMasters/slideMaster1.xml"),
            s("rId2", "theme", "theme/theme1.xml"),
            s("rId3", "slide", "slides/slide1.xml"),
            s("rId4", "slide", "slides/slide2.xml"),
        ]
    );
    assert_eq!(
        view(root_rels()),
        vec![s("rId1", "officeDocument", "ppt/presentation.xml"), s("rId2", "core-properties", "docProps/core.xml")]
    );
    assert_eq!(
        view(master_rels(0)),
        vec![s("rId1", "theme", "../theme/theme1.xml"), s("rId2", "slideLayout", "../slideLayouts/slideLayout1.xml")]
    );
    assert_eq!(
        view(master_rels(2)),
        vec![
            s("rId1", "theme", "../theme/theme1.xml"),
            s("rId2", "slideLayout", "../slideLayouts/slideLayout1.xml"),
            s("rId3", "slideLayout", "../slideLayouts/slideLayout2.xml"),
        ]
    );
    let media = vec!["ppt/media/image1.png".to_string(), "ppt/media/image2.jpg".to_string()];
    assert_eq!(
        view(slide_rels(3, &media)),
        vec![
            s("rId1", "slideLayout", "../slideLayouts/slideLayout3.xml"),
            s("rId2", "image", "../media/image1.png"),
            s("rId3", "image", "../media/image2.jpg"),
        ]
    );
    assert_eq!(
        view(layout_rels(&Vec::new())),
        vec![s("rId1", "slideMaster", "../slideMasters/slideMaster1.xml")]
    );
}

#[test]
fn slide_master_lists_layouts_and_text_styles() {
    let title = TxStyle {
        line_spacing: Some(90000),
        space_before: Some(1200),
        size: Some(3600),
        color: Some("#1F2937".to_string()),
        font: Some("Inter".to_string()),
    };
    let xml = slide_master_xml(2, Some(&title), None, None);
    assert!(xml.contains("<p:sldLayoutId id=\"2147483649\" r:id=\"rId2\"/>"));
    assert!(xml.contains("<p:sldLayoutId id=\"2147483650\" r:id=\"rId3\"/>"));
    assert!(!xml.contains("rId4") && !xml.contains("r:id=\"rId1\""));
    assert!(xml.contains("<p:clrMap bg1=\"lt1\" tx1=\"dk1\" bg2=\"lt2\" tx2=\"dk2\""));
    assert!(xml.contains("<a:spcPct val=\"90000\"/>"));
    assert!(xml.contains("<a:spcPts val=\"1200\"/>"));
    assert!(xml.contains("<a:defRPr sz=\"3600\">"));
    assert!(xml.contains("<a:srgbClr val=\"1F2937\"/>"));
    assert!(xml.contains("<a:latin typeface=\"Inter\"/>"));
    assert!(xml.contains("<a:cs typeface=\"Inter\"/>"));
    // Body and other styles fall back to 18pt in the scheme text color.
    assert_eq!(xml.matches("<a:defRPr sz=\"1800\">").count(), 2);
    assert_eq!(xml.matches("<a:schemeClr val=\"tx1\"/>").count(), 2);
    assert!(xml.contains("<a:srgbClr val=\"FFFFFF\"/>"));
}

#[test]
fn slide_master_without_styles_uses_defaults() {
    let xml = slide_master_xml(1, None, None, None);
    assert!(xml.contains("<p:titleStyle>"));
    assert!(xml.contains("<a:defRPr sz=\"4400\">"));
    assert!(!xml.contains("a:lnSpc"));
    assert!(!xml.contains("a:latin"));
}

const SLOT_NAMES: [&str; 12] = [
    "dk1", "lt1", "dk2", "lt2", "accent1", "accent2", "accent3", "accent4", "accent5", "accent6",
    "hlink", "folHlink",
];

#[test]
fn theme_colors_survive_build_and_convert() {
    let slots = build_color_slots(&colors(&[
        ("primary", "#2563eb"),
        ("text", "#111827CC"),
        ("brand", "#FF0000"),
    ]));
    let scheme: Vec<(String, String)> = SLOT_NAMES
        .iter()
        .enumerate()
        .map(|(i, n)| (n.to_string(), slots.slot(i).to_string()))
        .collect();
    let back = theme_colors_from_scheme(&scheme);
    assert_eq!(back.len(), 12);
    assert_eq!(back[0], ("text".to_string(), "#111827".to_string()));
    assert_eq!(back[4], ("primary".to_string(), "#2563EB".to_string()));
    // The leftover color takes the first free accent slot, `accent2`.
    assert_eq!(back[5], ("secondary".to_string(), "#FF0000".to_string()));
    assert_eq!(back[1], ("background".to_string(), "#000000".to_string()));
    assert_eq!(back[11].0, "folHlink");
}

#[test]
fn undefined_scheme_slots_give_no_theme_color() {
    let scheme = vec![
        ("accent1".to_string(), "ABCDEF".to_string()),
        ("bg1".to_string(), "FFFFFF".to_string()),
    ];
    assert_eq!(
        theme_colors_from_scheme(&scheme),
        vec![("primary".to_string(), "#ABCDEF".to_string())]
    );
    assert!(theme_colors_from_scheme(&[]).is_empty());
}

#[test]
fn scheme_slots_are_upper_cased_and_aliased() {
    let child = |n: &str, v: Option<&str>| (n.to_string(), v.map(String::from));
    let children = vec![
        child("dk1", Some("000000")),
        child("lt1", Some("ffffff")),
        child("dk2", Some("1f497d")),
        child("lt2", Some("EEECE1")),
        child("accent1", None),
        child("accent1", Some("4f81bd")),
    ];
    let slots = scheme_slot_colors(&children);
    let get = |k: &str| slots.iter().find(|(n, _)| n == k).map(|(_, v)| v.clone());
    assert_eq!(get("lt1").as_deref(), Some("FFFFFF"));
    assert_eq!(get("accent1").as_deref(), Some("4F81BD"));
    assert_eq!(get("bg1").as_deref(), Some("FFFFFF"));
    assert_eq!(get("tx1").as_deref(), Some("000000"));
    assert_eq!(get("bg2").as_deref(), Some("EEECE1"));
    assert_eq!(get("tx2").as_deref(), Some("1F497D"));
    assert_eq!(slots.iter().filter(|(n, _)| n == "accent1").count(), 1);
    let colors = theme_colors_from_scheme(&slots);
    assert!(colors.contains(&("primary".to_string(), "#4F81BD".to_string())));
    assert!(colors.contains(&("background".to_string(), "#FFFFFF".to_string())));
}

#[test]
fn schemes_missing_a_base_slot_get_no_aliases() {
    let children = vec![("dk1".to_string(), Some("000000".to_string())), ("lt1".to_string(), Some("FFFFFF".to_string()))];
    let slots = scheme_slot_colors(&children);
    assert_eq!(slots.len(), 2);
}

#[test]
fn theme_colors_survive_through_the_imported_slot_map() {
    let slots = build_color_slots(&colors(&[
        ("primary", "#2563eb"),
        ("text", "#111827CC"),
        ("brand", "#FF0000"),
    ]));
    let children: Vec<(String, Option<String>)> = SLOT_NAMES
        .iter()
        .enumerate()
        .map(|(i, n)| (n.to_string(), Some(slots.slot(i).to_string())))
        .collect();
    let back = theme_colors_from_scheme(&scheme_slot_colors(&children));
    assert_eq!(back.len(), 12);
    assert_eq!(back[0], ("text".to_string(), "#111827".to_string()));
    assert_eq!(back[5], ("secondary".to_string(), "#FF0000".to_string()));
    assert_eq!(back[4], ("primary".to_string(), "#2563EB".to_string()));
}

#[test]
fn slide_parts_close_in_schema_order() {
    let mut x = Xml::new();
    slideforge::pptx::writer::open_slide(&mut x);
    slideforge::pptx::writer::open_shape_tree(&mut x);
    slideforge::pptx::writer::close_slide(&mut x);
    let out = x.into_string();
    let c_sld = out.find("</p:cSld>").expect("cSld");
    let clr = out.find("<p:clrMapOvr>").expect("clrMapOvr");
    let tr = out.find("<p:transition spd=\"med\">").expect("transition");
    assert!(c_sld < clr && clr < tr);
    assert!(out.contains("<p:sld xmlns:p="));
    assert!(out.contains("xmlns:pptd=\"urn:slideforge:pptd\""));
    assert!(out.ends_with("</p:sld>\n"));
}
