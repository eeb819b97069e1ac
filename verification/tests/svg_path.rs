use slideforge::error::Error;
use slideforge::pptx::svg_path::{emit_path_children, parse, Parser, PathOp, Seg};
use slideforge::pptx::xml::Xml;

fn op(ops: &[PathOp], i: usize) -> (char, bool, Vec<&str>) {
    let o = &ops[i];
    (o.command, o.relative, o.numbers.iter().map(|s| s.as_str()).collect())
}

fn message(err: Error) -> String {
    match err {
        Error::Invalid(m) => m,
        other => panic!("expected Invalid, got {other:?}"),
    }
}

#[test]
fn parses_absolute_commands() {
    let ops = parse("M0 0L10 0L10 10z").unwrap();
    assert_eq!(ops.len(), 4);
    assert_eq!(op(&ops, 0), ('M', false, vec!["0", "0"]));
    assert_eq!(op(&ops, 1), ('L', false, vec!["10", "0"]));
    assert_eq!(op(&ops, 2), ('L', false, vec!["10", "10"]));
    assert_eq!(op(&ops, 3), ('Z', true, vec![]));
}

#[test]
fn parses_relative_and_implicit_commands() {
    // m ... c ... l ... z — like the mobile-screen glyph
    let ops = parse("m16 64c0-35 29-64 64-64l224 0v0l-224 0c-35 0-64 29-64 64z").unwrap();
    assert_eq!(op(&ops, 0), ('M', true, vec!["16", "64"]));
    assert_eq!(op(&ops, 1), ('C', true, vec!["0", "-35", "29", "-64", "64", "-64"]), "first relative c");
    assert_eq!(op(&ops, 2), ('L', true, vec!["224", "0"]), "relative l");
    assert_eq!(ops.last().map(|o| o.command), Some('Z'));
}

#[test]
fn invalid_command_is_rejected() {
    assert!(parse("M0 0X10 10").is_err());
}

#[test]
fn unsupported_command_names_the_letter_in_upper_case() {
    let err = parse("M0 0x10 10").unwrap_err();
    assert_eq!(message(err), "unsupported SVG path command `X`");
}

#[test]
fn incomplete_groups_are_malformed() {
    let err = parse("M0 0L10").unwrap_err();
    assert_eq!(message(err), "malformed SVG path `M0 0L10`");
    let err = parse("M").unwrap_err();
    assert_eq!(message(err), "malformed SVG path `M`");
    let err = parse("M0 0C1 2 3").unwrap_err();
    assert_eq!(message(err), "malformed SVG path `M0 0C1 2 3`");
}

#[test]
fn paths_without_operations_are_empty() {
    let err = parse("").unwrap_err();
    assert_eq!(message(err), "empty SVG path ``");
    let err = parse("  ,, ").unwrap_err();
    assert_eq!(message(err), "empty SVG path `  ,, `");
    let err = parse("12 34").unwrap_err();
    assert_eq!(message(err), "empty SVG path `12 34`");
}

#[test]
fn implicit_repetition_after_moveto_is_lineto() {
    let ops = parse("M1 2 3 4 5 6").unwrap();
    assert_eq!(op(&ops, 0), ('M', false, vec!["1", "2"]));
    assert_eq!(op(&ops, 1), ('L', false, vec!["3", "4"]));
    assert_eq!(op(&ops, 2), ('L', false, vec!["5", "6"]));
}

#[test]
fn number_forms() {
    let ops = parse("M.5-.5L1e3,2E-2 3. 4H+7V-8.25A1 2 0 1 0 3 4").unwrap();
    assert_eq!(op(&ops, 0), ('M', false, vec![".5", "-.5"]));
    assert_eq!(op(&ops, 1), ('L', false, vec!["1e3", "2E-2"]));
    assert_eq!(op(&ops, 2), ('L', false, vec!["3.", "4"]));
    assert_eq!(op(&ops, 3), ('H', false, vec!["+7"]));
    assert_eq!(op(&ops, 4), ('V', false, vec!["-8.25"]));
    assert_eq!(op(&ops, 5), ('A', false, vec!["1", "2", "0", "1", "0", "3", "4"]));
}

#[test]
fn parsing_stops_quietly_at_other_characters() {
    let ops = parse("M0 0L1 1#L2 2").unwrap();
    assert_eq!(ops.len(), 2);
}

#[test]
fn parser_steps() {
    let mut p = Parser::new("  , M 12.5e1x");
    assert!(!p.peek_number());
    assert_eq!(p.next_letter(), Some('M'));
    assert!(p.peek_number());
    assert_eq!(p.consume_digits(), 2);
    assert_eq!(p.next_number(), Some(".5e1".to_string()));
    assert_eq!(p.next_number(), None);
    assert_eq!(p.next_letter(), Some('x'));
    assert_eq!(p.next_letter(), None);
}

#[test]
fn emits_path_children() {
    let mut x = Xml::new();
    let segs = [
        Seg::MoveTo((0, -1)),
        Seg::LineTo((10, 0)),
        Seg::Cubic([(1, 2), (3, 4), (5, 6)]),
        Seg::Quad([(7, 8), (9, 10)]),
        Seg::Close,
    ];
    emit_path_children(&mut x, &segs);
    let text = x.into_string();
    let body = text.split_once("?>\n").unwrap().1;
    assert_eq!(
        body,
        "<a:moveTo>\n  <a:pt x=\"0\" y=\"-1\"/>\n</a:moveTo>\n\
         <a:lnTo>\n  <a:pt x=\"10\" y=\"0\"/>\n</a:lnTo>\n\
         <a:cubicBezTo>\n  <a:pt x=\"1\" y=\"2\"/>\n  <a:pt x=\"3\" y=\"4\"/>\n  <a:pt x=\"5\" y=\"6\"/>\n</a:cubicBezTo>\n\
         <a:quadBezTo>\n  <a:pt x=\"7\" y=\"8\"/>\n  <a:pt x=\"9\" y=\"10\"/>\n</a:quadBezTo>\n\
         <a:close/>\n"
    );
}
