use slideforge::pptd::elements::TextAutofit;
use slideforge::pptd::shared::{FontFamily, HorizontalAlign, VerticalAlign};
use slideforge::pptx::tx_body::{
    alpha_val, carried_body_attrs, emit_tx_body, TxContent, TxLook, TxPara, TxRun,
};
use slideforge::pptx::xml::Xml;

fn look() -> TxLook {
    TxLook {
        l_ins: 91440,
        r_ins: 91440,
        t_ins: 45720,
        b_ins: 45720,
        wrap: true,
        anchor: VerticalAlign::Top,
        autofit: None,
        align: None,
        line_pct: None,
        line_pts: None,
        list_margin: None,
        list_indent: None,
        bullet_char: None,
        bullet_font: None,
        size: None,
        end_size: None,
        color: None,
        family: None,
        bold: None,
        italic: None,
        body_extras: Vec::new(),
    }
}

fn run(text: &str) -> TxRun {
    TxRun {
        text: text.to_string(),
        styled: false,
        size: None,
        end_size: None,
        color: None,
        family: None,
        bold: None,
        italic: None,
    }
}

fn write(look: &TxLook, content: &TxContent, colors: Option<&[(String, String)]>) -> String {
    let mut x = Xml::new();
    emit_tx_body(&mut x, colors, look, content);
    x.into_string()
}

#[test]
fn empty_placeholder_writes_a_bare_body() {
    let mut l = look();
    l.anchor = VerticalAlign::Middle;
    let out = write(&l, &TxContent::EmptyPlaceholder, None);
    assert_eq!(
        out,
        "<?xml version=\"1.0\" encoding=\"UTF-8\" standalone=\"yes\"?>\n\
         <p:txBody>\n  <a:bodyPr anchor=\"ctr\" wrap=\"square\"/>\n  <a:lstStyle/>\n  <a:p/>\n</p:txBody>\n"
    );
}

#[test]
fn plain_text_is_one_paragraph_per_line_in_the_box_style() {
    let mut l = look();
    l.align = Some(HorizontalAlign::Center);
    l.autofit = Some(TextAutofit::FitText);
    l.line_pct = Some(120000);
    l.size = Some("2400".to_string());
    l.bold = Some(true);
    l.color = Some("#FF000080".to_string());
    l.family = Some(FontFamily::Bilingual { latin: "Inter".to_string(), ea: "MiSans".to_string() });
    let out = write(&l, &TxContent::Plain("one\ntwo & three".to_string()), None);
    assert!(out.contains(
        "<a:bodyPr lIns=\"91440\" rIns=\"91440\" tIns=\"45720\" bIns=\"45720\" wrap=\"square\" rtlCol=\"0\" anchor=\"t\">"
    ));
    assert!(out.contains("<a:normAutofit/>"));
    assert_eq!(out.matches("<a:p>").count(), 2);
    assert_eq!(out.matches("<a:pPr algn=\"ctr\">").count(), 2);
    assert_eq!(out.matches("<a:spcPct val=\"120000\"/>").count(), 2);
    assert!(out.contains("<a:rPr lang=\"en-US\" sz=\"2400\" noProof=\"1\" b=\"1\">"));
    assert!(out.contains("<a:srgbClr val=\"FF0000\">"));
    assert!(out.contains("<a:alpha val=\"50196\"/>"));
    assert!(out.contains("<a:latin typeface=\"Inter\"/>"));
    assert!(out.contains("<a:ea typeface=\"MiSans\"/>"));
    assert!(out.contains("two &amp; three"));
    assert_eq!(out.matches("<a:endParaRPr lang=\"en-US\" sz=\"2400\" noProof=\"1\"/>").count(), 2);
}

#[test]
fn plain_text_defaults_to_black_18pt_misans_left() {
    let out = write(&look(), &TxContent::Plain("x".to_string()), None);
    assert!(out.contains("<a:pPr algn=\"l\">"));
    assert!(out.contains("<a:rPr lang=\"en-US\" sz=\"1800\" noProof=\"1\">"));
    assert!(out.contains("<a:srgbClr val=\"000000\">"));
    assert!(out.contains("<a:latin typeface=\"MiSans\"/>"));
    assert!(!out.contains("<a:lnSpc>"));
}

#[test]
fn rich_runs_style_themselves_only_when_tagged() {
    let mut l = look();
    l.size = Some("2000".to_string());
    l.end_size = Some("2000".to_string());
    l.color = Some("$primary".to_string());
    l.line_pts = Some(3000);
    let mut tagged = run("big");
    tagged.styled = true;
    tagged.size = Some("3200".to_string());
    tagged.end_size = Some("3200".to_string());
    tagged.italic = Some(true);
    tagged.family = Some("Inter".to_string());
    let mut untagged = run("plain");
    untagged.size = Some("999".to_string());
    untagged.end_size = Some("999".to_string());
    let para = TxPara {
        align: Some("r".to_string()),
        line_pct: None,
        line_pts: None,
        space_before: Some(600),
        runs: vec![untagged, tagged],
    };
    let empty = TxPara { align: None, line_pct: Some(90000), line_pts: None, space_before: None, runs: vec![] };
    let colors = vec![("primary".to_string(), "#2563EB".to_string())];
    let out = write(&l, &TxContent::Rich(vec![para, empty]), Some(&colors));
    // The untagged run takes the box's size even though it carries one.
    assert!(out.contains("<a:rPr lang=\"en-US\" sz=\"2000\" noProof=\"1\">"));
    assert!(out.contains("<a:rPr lang=\"en-US\" sz=\"3200\" noProof=\"1\" i=\"1\">"));
    assert!(out.contains("<a:latin typeface=\"Inter\"/>"));
    assert_eq!(out.matches("<a:srgbClr val=\"2563EB\">").count(), 2);
    assert!(out.contains("<a:pPr algn=\"r\">"));
    assert!(out.contains("<a:spcPts val=\"3000\"/>"));
    assert!(out.contains("<a:spcBef>"));
    assert!(out.contains("<a:spcPts val=\"600\"/>"));
    // The end size comes from the first run that carries one, tagged or not.
    assert!(out.contains("<a:endParaRPr lang=\"en-US\" sz=\"999\" noProof=\"1\"/>"));
    // A paragraph without runs has no line spacing and no end properties.
    assert!(!out.contains("<a:spcPct val=\"90000\"/>"));
    assert_eq!(out.matches("<a:endParaRPr").count(), 1);
    assert!(out.contains("<a:pPr algn=\"l\">"));
}

#[test]
fn unresolved_theme_colors_fall_back_to_black() {
    let mut l = look();
    l.color = Some("$missing".to_string());
    let out = write(&l, &TxContent::Plain("x".to_string()), None);
    assert!(out.contains("<a:srgbClr val=\"000000\">"));
}

#[test]
fn bullets_and_list_indents_are_written() {
    let mut l = look();
    l.bullet_char = Some("•".to_string());
    l.bullet_font = Some("Arial".to_string());
    l.list_margin = Some(342900);
    l.list_indent = Some(-342900);
    let out = write(&l, &TxContent::Plain("item".to_string()), None);
    assert!(out.contains("<a:pPr algn=\"l\" marL=\"342900\" indent=\"-342900\">"));
    assert!(out.contains("<a:buFont typeface=\"Arial\"/>"));
    assert!(out.contains("<a:buChar char=\"•\"/>"));
}

#[test]
fn alpha_values_match_the_share_of_255() {
    for a in 0..=255u8 {
        let expected = ((a as f64 / 255.0) * 100000.0).round() as u64;
        assert_eq!(alpha_val(a), expected, "alpha byte {a}");
    }
}

#[test]
fn imported_body_attributes_are_written_back_verbatim() {
    let mut l = look();
    l.body_extras = vec![
        ("anchorCtr".to_string(), "0".to_string()),
        ("vertOverflow".to_string(), "overflow".to_string()),
    ];
    let out = write(&l, &TxContent::Plain("x".to_string()), None);
    assert!(out.contains(
        "<a:bodyPr lIns=\"91440\" rIns=\"91440\" tIns=\"45720\" bIns=\"45720\" wrap=\"square\" rtlCol=\"0\" anchor=\"t\" anchorCtr=\"0\" vertOverflow=\"overflow\">"
    ));
}

#[test]
fn only_unknown_body_attributes_are_carried_over() {
    let attrs: Vec<(String, String)> = [
        ("anchor", "ctr"),
        ("vertOverflow", "clip"),
        ("lIns", "0"),
        ("vert", "eaVert"),
        ("numCol", "2"),
    ]
    .iter()
    .map(|(k, v)| (k.to_string(), v.to_string()))
    .collect();
    assert_eq!(
        carried_body_attrs(&attrs),
        vec![
            ("vertOverflow".to_string(), "clip".to_string()),
            ("numCol".to_string(), "2".to_string())
        ]
    );
}

#[test]
fn text_elements_hold_only_their_escaped_text() {
    let mut x = Xml::new();
    x.text_elem("a:t", "Hi & bye");
    let expected = format!("{}<a:t>Hi &amp; bye</a:t>\n", Xml::new().into_string());
    assert_eq!(x.into_string(), expected);
}

#[test]
fn point_line_spacing_wins_over_percentage() {
    let mut l = look();
    l.line_pct = Some(150000);
    l.line_pts = Some(3000);
    let out = write(&l, &TxContent::Plain("a\nb".to_string()), None);
    assert_eq!(out.matches("<a:lnSpc>\n").count(), 2);
    assert_eq!(out.matches("<a:spcPts val=\"3000\"/>").count(), 2);
    assert!(!out.contains("a:spcPct"));
}
