use slideforge::pptx::rich::{is_float_text, parse_rich, parse_runs, rich_text_closed, RichRun};

fn texts(runs: &[RichRun]) -> Vec<String> {
    runs.iter().map(|r| r.text.clone()).collect()
}

#[test]
fn plain_text_yields_one_paragraph_per_line() {
    let paras = parse_rich("Hello\n\n  \nWorld &amp; co");
    assert_eq!(paras.len(), 2);
    assert_eq!(texts(&paras[0].runs), vec!["Hello".to_string()]);
    assert_eq!(texts(&paras[1].runs), vec!["World & co".to_string()]);
    assert!(paras.iter().all(|p| p.align.is_none() && !p.runs[0].style.styled));
}

#[test]
fn paragraph_style_is_read() {
    let paras =
        parse_rich("<p style=\"text-align:center; line-height:1.5\">Hi <strong>there</strong></p>");
    assert_eq!(paras.len(), 1);
    let p = &paras[0];
    assert_eq!(p.align, Some("ctr"));
    assert_eq!(p.line_height.as_deref(), Some("1.5"));
    assert_eq!(p.line_height_px, None);
    assert_eq!(texts(&p.runs), vec!["Hi ".to_string(), "there".to_string()]);
    assert_eq!(p.runs[1].style.bold, Some(true));
    assert!(p.runs[1].style.styled);
    assert!(!p.runs[0].style.styled);
}

#[test]
fn pixel_line_height_and_margin() {
    let paras = parse_rich("<p style=\"line-height:24px; margin-top: 6px\">x</p><p>y</p>");
    assert_eq!(paras.len(), 2);
    assert_eq!(paras[0].line_height, None);
    assert_eq!(paras[0].line_height_px.as_deref(), Some("24"));
    assert_eq!(paras[0].margin_top_px.as_deref(), Some("6"));
    assert_eq!(texts(&paras[1].runs), vec!["y".to_string()]);
}

#[test]
fn text_around_paragraphs_becomes_plain_paragraphs() {
    let paras = parse_rich("intro\n<p>a</p>tail");
    assert_eq!(paras.len(), 3);
    assert_eq!(texts(&paras[0].runs), vec!["intro".to_string()]);
    assert_eq!(texts(&paras[1].runs), vec!["a".to_string()]);
    assert_eq!(texts(&paras[2].runs), vec!["tail".to_string()]);
}

#[test]
fn unclosed_paragraph_runs_to_the_end() {
    let paras = parse_rich("<p>open");
    assert_eq!(paras.len(), 1);
    assert_eq!(texts(&paras[0].runs), vec!["open".to_string()]);
}

#[test]
fn span_style_sets_run_style() {
    let runs = parse_runs("<span style=\"font-size:24px; color:#f00; font-weight:700\">A</span>B");
    assert_eq!(runs.len(), 2);
    assert_eq!(runs[0].text, "A");
    assert_eq!(runs[0].style.size.as_deref(), Some("24"));
    assert_eq!(runs[0].style.color.as_deref(), Some("#f00"));
    assert_eq!(runs[0].style.bold, Some(true));
    assert!(runs[0].style.styled);
    assert_eq!(runs[1].text, "B");
    assert!(!runs[1].style.styled);
}

#[test]
fn unreadable_font_size_is_dropped() {
    let runs = parse_runs("<span style=\"font-size:big\">A</span>");
    assert_eq!(runs.len(), 1);
    assert_eq!(runs[0].style.size, None);
    assert!(!runs[0].style.styled);
}

#[test]
fn same_looking_runs_are_merged() {
    let runs = parse_runs("a<span>b</span>c");
    assert_eq!(texts(&runs), vec!["abc".to_string()]);
}

#[test]
fn closing_strong_keeps_the_run_styled() {
    let runs = parse_runs("a<strong>b</strong>c");
    assert_eq!(texts(&runs), vec!["a".to_string(), "b".to_string(), "c".to_string()]);
    assert_eq!(runs[2].style.bold, None);
    assert!(runs[2].style.styled);
}

#[test]
fn breaks_entities_and_unknown_tags() {
    assert_eq!(texts(&parse_runs("a<br/>b")), vec!["a\nb".to_string()]);
    assert_eq!(texts(&parse_runs("x &lt;y&gt;")), vec!["x <y>".to_string()]);
    assert_eq!(texts(&parse_runs("<u>y")), vec!["<u>y".to_string()]);
    assert_eq!(texts(&parse_runs("ab<u>y")), vec!["ab<u>y".to_string()]);
    assert_eq!(texts(&parse_runs("a<b")), vec!["a<b".to_string()]);
    assert_eq!(texts(&parse_runs("<em>i</em>")), vec!["i".to_string()]);
}

#[test]
fn float_grammar() {
    for ok in ["1.5", ".5", "5.", "1e3", "1E-3", "+2", "inf", "-NaN", "Infinity", "007"] {
        assert!(is_float_text(ok), "{ok}");
    }
    for bad in ["", ".", "abc", "1e", " 1", "1.2.3", "e5", "--1", "1px"] {
        assert!(!is_float_text(bad), "{bad}");
    }
}

#[test]
fn paragraph_tags_must_close() {
    assert!(!rich_text_closed("<p"));
    assert!(!rich_text_closed("<p>a</p><p style=\"x\""));
    assert!(rich_text_closed("<p>a</p>"));
    assert!(rich_text_closed("no tags at all"));
}
