use slideforge::pptd::validate::{
    validate_project, ChartFacts, Diagnostic, ElementFacts, ElementKind, PageFacts, SeriesFacts,
    SeriesKind, TableFacts, ThemeKeys,
};

fn element(id: &str, kind: ElementKind) -> ElementFacts {
    ElementFacts {
        element_id: id.to_string(),
        degenerate_bounds: None,
        bad_opacity: None,
        kind,
        color_refs: Vec::new(),
    }
}

fn page(elements: Vec<ElementFacts>) -> PageFacts {
    PageFacts {
        layout: None,
        elements,
        animation_targets: None,
    }
}

fn theme() -> ThemeKeys {
    ThemeKeys {
        text_styles: vec!["title".to_string(), "body".to_string()],
        table_styles: vec!["default".to_string()],
        colors: vec!["Primary".to_string()],
    }
}

fn messages(issues: &[Diagnostic]) -> Vec<String> {
    issues.iter().map(|d| d.to_text()).collect()
}

fn chart(cols: &[&str], rows: &[usize], series: Vec<SeriesFacts>) -> ElementKind {
    ElementKind::Chart(ChartFacts {
        series,
        cols: cols.iter().map(|c| c.to_string()).collect(),
        row_lens: rows.to_vec(),
    })
}

fn bar(x: &str, y: &str) -> SeriesFacts {
    SeriesFacts {
        kind: SeriesKind::Bar,
        encode_columns: vec![x.to_string(), y.to_string()],
    }
}

#[test]
fn valid_fixture_has_no_issues() {
    let pages = vec![
        page(vec![
            element("title", ElementKind::Text { style: Some("$title".to_string()) }),
            element("box", ElementKind::Other),
        ]),
        page(vec![
            element("sales", chart(&["month", "value"], &[2, 2], vec![bar("month", "value")])),
            element(
                "grid",
                ElementKind::Table(TableFacts {
                    style_ref: Some("$default".to_string()),
                    ratio_findings: vec![],
                    column_count: 2,
                    row_heights_len: 2,
                    row_lens: vec![2, 1],
                }),
            ),
        ]),
    ];
    let issues = validate_project(None, &pages, Some(&theme()), &Vec::new());
    assert!(issues.is_empty(), "demo fixture should be clean: {:?}", messages(&issues));
}

#[test]
fn duplicate_element_id_is_reported() {
    let pages = vec![page(vec![element("a", ElementKind::Other), element("a", ElementKind::Other)])];
    let issues = validate_project(None, &pages, Some(&theme()), &Vec::new());
    assert!(
        issues.iter().any(|d| d.message.contains("duplicate elementId")),
        "expected a duplicate-elementId finding, got {issues:?}"
    );
    assert_eq!(messages(&issues), vec!["page 1: duplicate elementId `a`".to_string()]);
}

#[test]
fn non_positive_bounds_are_reported() {
    let mut e = element("z", ElementKind::Other);
    e.degenerate_bounds = Some("Bounds { x: 0.0, y: 0.0, width: 0.0, height: 10.0 }".to_string());
    let issues = validate_project(None, &vec![page(vec![e])], None, &Vec::new());
    assert!(
        issues.iter().any(|d| d.message.contains("positive width and height")),
        "expected a bounds finding, got {issues:?}"
    );
}

#[test]
fn missing_theme_reference_is_reported() {
    let e = element("t", ElementKind::Text { style: Some("$nope".to_string()) });
    let issues = validate_project(None, &vec![page(vec![e])], Some(&theme()), &Vec::new());
    assert!(
        issues.iter().any(|d| d.message.contains("theme.textStyles")),
        "expected a style-reference finding, got {issues:?}"
    );
    assert_eq!(
        messages(&issues),
        vec!["page 1: style `$nope` is not defined in theme.textStyles (text `t`)".to_string()]
    );
}

#[test]
fn style_reference_without_theme_is_reported() {
    let e = element("t", ElementKind::Text { style: Some("$$title".to_string()) });
    let with_theme = validate_project(None, &vec![page(vec![e.clone()])], Some(&theme()), &Vec::new());
    assert!(with_theme.is_empty());
    let without = validate_project(None, &vec![page(vec![e])], None, &Vec::new());
    assert_eq!(without.len(), 1);
}

#[test]
fn chart_row_length_mismatch_is_reported() {
    let e = element("c", chart(&["a", "b"], &[2, 3], vec![bar("a", "b")]));
    let issues = validate_project(None, &vec![page(vec![e])], None, &Vec::new());
    assert!(
        issues.iter().any(|d| d.message.contains("row 1 has 3 cells, expected 2")),
        "expected a row-length finding, got {issues:?}"
    );
}

#[test]
fn chart_findings_in_order() {
    let e = element("c", chart(&["a", "", "a"], &[3], vec![]));
    let issues = validate_project(None, &vec![page(vec![e])], None, &Vec::new());
    assert_eq!(
        messages(&issues),
        vec![
            "page 1: chart `c` must define at least one series".to_string(),
            "page 1: chart `c` has an empty column name".to_string(),
            "page 1: chart `c` has duplicate column `a`".to_string(),
        ]
    );
    let e = element(
        "c",
        chart(
            &["x"],
            &[],
            vec![SeriesFacts {
                kind: SeriesKind::Pie,
                encode_columns: vec!["x".to_string(), "v".to_string()],
            }],
        ),
    );
    let issues = validate_project(None, &vec![page(vec![e])], None, &Vec::new());
    assert_eq!(
        messages(&issues),
        vec!["page 1: chart `c` pie series references unknown column `v`".to_string()]
    );
}

#[test]
fn table_ratio_sum_mismatch_is_reported() {
    let t = TableFacts {
        style_ref: Some("$missing".to_string()),
        ratio_findings: vec!["table `t` columnWidths must sum to 1, got 0.9".to_string()],
        column_count: 2,
        row_heights_len: 1,
        row_lens: vec![3, 2],
    };
    let issues = validate_project(None, &vec![page(vec![element("t", ElementKind::Table(t))])], Some(&theme()), &Vec::new());
    assert!(
        issues.iter().any(|d| d.message.contains("columnWidths must sum to 1")),
        "expected a ratio-sum finding, got {issues:?}"
    );
    assert_eq!(
        messages(&issues),
        vec![
            "page 1: table style `$missing` is not defined in theme.tableStyles (`t`)".to_string(),
            "page 1: table `t` columnWidths must sum to 1, got 0.9".to_string(),
            "page 1: table `t` has 2 rows of data but 1 rowHeights".to_string(),
            "page 1: table `t` row 0 has 3 cells but the table only has 2 columns (merged cells should be omitted)"
                .to_string(),
        ]
    );
}

#[test]
fn animation_must_reference_existing_element() {
    let mut p = page(vec![element("a", ElementKind::Other)]);
    p.animation_targets = Some(vec!["a".to_string(), "ghost".to_string()]);
    let issues = validate_project(None, &vec![p], None, &Vec::new());
    assert!(
        issues.iter().any(|d| d.message.contains("references unknown elementId")),
        "expected an animation-target finding, got {issues:?}"
    );
    assert_eq!(
        messages(&issues),
        vec!["page 1: animation references unknown elementId `ghost`".to_string()]
    );
}

#[test]
fn size_and_page_numbers() {
    let mut e = element("o", ElementKind::Other);
    e.bad_opacity = Some("1.5".to_string());
    let pages = vec![page(vec![]), page(vec![e])];
    let issues = validate_project(Some(&"Size { width: 0.0, height: 540.0 }".to_string()), &pages, None, &Vec::new());
    assert_eq!(
        messages(&issues),
        vec![
            "size must be positive and finite, got Size { width: 0.0, height: 540.0 }".to_string(),
            "page 2: element `o` opacity must be in [0, 1], got 1.5".to_string(),
        ]
    );
    assert_eq!(issues[0].page, None);
    assert_eq!(issues[1].page, Some(2));
}

#[test]
fn flags_dangling_layout_reference() {
    let mut p = page(vec![]);
    p.layout = Some("nope".to_string());
    let issues = validate_project(None, &vec![p], None, &vec!["cover".to_string()]);
    assert!(
        issues.iter().any(|d| d.message.contains("not defined in presentation.layouts")),
        "expected dangling-layout diagnostic, got {issues:?}"
    );
    assert_eq!(issues[0].to_text(), "page 1: layout `nope` is not defined in presentation.layouts");
}

#[test]
fn accepts_valid_layout_reference() {
    let mut p = page(vec![]);
    p.layout = Some("cover".to_string());
    let issues = validate_project(None, &vec![p], None, &vec!["cover".to_string()]);
    assert!(issues.is_empty(), "valid layout ref must not warn, got {issues:?}");
}

#[test]
fn layout_reference_without_declared_layouts_is_reported() {
    let mut p = page(vec![]);
    p.layout = Some("cover".to_string());
    let issues = validate_project(None, &vec![p], None, &Vec::new());
    assert_eq!(issues.len(), 1);
}

#[test]
fn undefined_theme_colors_are_reported() {
    let mut shape = element("s1", ElementKind::Other);
    shape.color_refs = vec!["$nope".to_string(), "$primary".to_string(), "#FF0000".to_string()];
    let issues = validate_project(None, &vec![page(vec![shape.clone()])], Some(&theme()), &vec![]);
    assert_eq!(issues.len(), 1);
    assert_eq!(issues[0].page, Some(1));
    assert_eq!(issues[0].message, "color `$nope` is not defined in theme.colors (`s1`)");
    let untethered = validate_project(None, &vec![page(vec![shape])], None, &vec![]);
    assert_eq!(untethered.len(), 2);
    assert_eq!(untethered[1].message, "color `$primary` is not defined in theme.colors (`s1`)");
}

#[test]
fn an_id_on_three_elements_gives_two_duplicate_findings() {
    let els = vec![
        element("a", ElementKind::Other),
        element("a", ElementKind::Other),
        element("b", ElementKind::Other),
        element("a", ElementKind::Other),
    ];
    let issues = validate_project(None, &vec![page(els)], Some(&theme()), &vec![]);
    let dups: Vec<&Diagnostic> = issues.iter().filter(|d| d.message == "duplicate elementId `a`").collect();
    assert_eq!(dups.len(), 2);
    assert!(dups.iter().all(|d| d.page == Some(1)));
}
