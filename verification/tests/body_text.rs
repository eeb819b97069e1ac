use slideforge::pptd::elements::{TextAutofit, TextDirection};
use slideforge::pptd::shared::{Alignment, HorizontalAlign, VerticalAlign};
use slideforge::pptx::body_text::{body_props, body_text, box_alignment, ImportLine, ImportRun, TextLook};

fn look(
    color: Option<&str>,
    size: Option<&str>,
    family: Option<&str>,
    bold: Option<bool>,
    italic: Option<bool>,
) -> TextLook {
    TextLook {
        color: color.map(String::from),
        size: size.map(String::from),
        family: family.map(String::from),
        bold,
        italic,
    }
}

fn run(look: Option<TextLook>, text: &str) -> ImportRun {
    ImportRun {
        look,
        text: text.to_string(),
    }
}

fn line(runs: Vec<ImportRun>) -> ImportLine {
    ImportLine {
        align: None,
        line_height: None,
        margin_top: None,
        runs,
    }
}

fn title_look() -> TextLook {
    look(Some("#112233"), Some("28"), Some("Arial"), Some(true), None)
}

#[test]
fn alike_paragraphs_become_plain_lines() {
    let lines = vec![
        line(vec![run(Some(title_look()), "First")]),
        line(vec![run(Some(title_look()), "Second")]),
    ];
    let body = body_text(&lines).expect("text");
    assert!(body.uniform);
    assert_eq!(body.text, "First\nSecond");
}

#[test]
fn trailing_blank_paragraphs_are_dropped() {
    let lines = vec![
        line(vec![run(Some(title_look()), "Only")]),
        line(vec![run(None, "")]),
        line(vec![run(Some(title_look()), ""), run(None, "")]),
    ];
    let body = body_text(&lines).expect("text");
    assert!(body.uniform);
    assert_eq!(body.text, "Only");
}

#[test]
fn bodies_without_text_have_none() {
    assert!(body_text(&Vec::new()).is_none());
    let blank = vec![line(vec![run(None, "")]), line(vec![run(None, "")])];
    assert!(body_text(&blank).is_none());
    let spaces = vec![line(vec![run(None, "   ")]), line(vec![run(None, " \t")])];
    assert!(body_text(&spaces).is_none());
}

#[test]
fn differing_paragraphs_become_markup() {
    let small = look(None, Some("12"), None, Some(false), Some(true));
    let mut first = line(vec![run(Some(title_look()), "Title")]);
    first.align = Some(HorizontalAlign::Center);
    first.line_height = Some("1.5".to_string());
    let mut second = line(vec![
        run(Some(title_look()), "x<y"),
        run(Some(small), "big"),
        run(None, "\n"),
        run(Some(title_look()), ""),
    ]);
    second.margin_top = Some("6".to_string());
    let body = body_text(&vec![first, second]).expect("text");
    assert!(!body.uniform);
    assert_eq!(
        body.text,
        "<p style=\"text-align:center; line-height:1.5\">Title</p>\
         <p style=\"margin-top:6px\">x&lt;y<em><span style=\"font-size:12px; \
         font-weight:400; font-style:italic\">big</span></em> </p>"
    );
}

#[test]
fn bold_runs_against_a_plain_box_are_wrapped_in_strong() {
    let plain = look(None, None, None, None, None);
    let red = look(Some("#FF0000"), None, None, Some(true), None);
    let lines = vec![line(vec![run(Some(plain), "a & b "), run(Some(red), "c")])];
    let body = body_text(&lines).expect("text");
    assert!(!body.uniform);
    assert_eq!(
        body.text,
        "<p>a &amp; b <strong><span style=\"color:#FF0000; font-weight:bold\">c</span></strong></p>"
    );
}

#[test]
fn a_box_styled_run_holding_a_newline_keeps_its_span() {
    let base = look(None, Some("18"), Some("Inter"), None, None);
    let lines = vec![line(vec![run(Some(base.clone()), "a"), run(Some(base), "b\nc")])];
    let body = body_text(&lines).expect("text");
    assert!(!body.uniform);
    assert_eq!(
        body.text,
        "<p>a<span style=\"font-size:18px; font-family:Inter\">b\nc</span></p>"
    );
}

#[test]
fn a_paragraph_with_its_own_spacing_is_not_plain() {
    let mut second = line(vec![run(Some(title_look()), "Two")]);
    second.margin_top = Some("4.5".to_string());
    let lines = vec![line(vec![run(Some(title_look()), "One")]), second];
    let body = body_text(&lines).expect("text");
    assert!(!body.uniform);
    assert_eq!(body.text, "<p>One</p><p style=\"margin-top:4.5px\">Two</p>");
}

#[test]
fn body_properties_are_read_from_their_attributes() {
    let p = body_props(Some("ctr"), Some("none"), Some("eaVert"), false, true, true);
    assert_eq!(p.anchor, Some(VerticalAlign::Middle));
    assert_eq!(p.wrap, Some(false));
    assert_eq!(p.direction, Some(TextDirection::Vertical));
    assert_eq!(p.autofit, Some(TextAutofit::FitText));
    let q = body_props(Some("just"), Some("square"), Some("horz"), false, false, true);
    assert_eq!(q.anchor, Some(VerticalAlign::Top));
    assert_eq!(q.wrap, Some(true));
    assert_eq!(q.direction, None);
    assert_eq!(q.autofit, Some(TextAutofit::Fixed));
    let none = body_props(None, None, None, false, false, false);
    assert_eq!(none.anchor, None);
    assert_eq!(none.autofit, None);
}

#[test]
fn box_alignment_combines_paragraph_and_anchor() {
    assert_eq!(
        box_alignment(Some(HorizontalAlign::Right), None),
        Some(Alignment { horizontal: HorizontalAlign::Right, vertical: VerticalAlign::Top })
    );
    assert_eq!(
        box_alignment(None, Some(VerticalAlign::Bottom)),
        Some(Alignment { horizontal: HorizontalAlign::Left, vertical: VerticalAlign::Bottom })
    );
    assert_eq!(box_alignment(None, None), None);
}
