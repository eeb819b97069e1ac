use slideforge::pptx::group_tree::{is_descendant, sp_tree_steps, TreeStep};

fn ids(v: &[Option<&str>]) -> Vec<Option<String>> {
    v.iter().map(|o| o.map(String::from)).collect()
}

fn groups(v: &[(&str, Option<&str>)]) -> Vec<(String, Option<String>)> {
    v.iter().map(|(g, p)| (g.to_string(), p.map(String::from))).collect()
}

fn el(index: usize, grouped: bool) -> TreeStep {
    TreeStep::Element { index, grouped }
}

fn open(g: &str) -> TreeStep {
    TreeStep::Open(g.to_string())
}

#[test]
fn ungrouped_elements_are_written_in_place() {
    let steps = sp_tree_steps(&ids(&[None, None]), &Vec::new());
    assert_eq!(steps, vec![el(0, false), el(1, false)]);
}

#[test]
fn a_run_of_members_becomes_one_group() {
    let steps = sp_tree_steps(
        &ids(&[None, Some("grp1"), Some("grp1"), None]),
        &groups(&[("grp1", None)]),
    );
    assert_eq!(
        steps,
        vec![el(0, false), open("grp1"), el(1, true), el(2, true), TreeStep::Close, el(3, false)]
    );
}

#[test]
fn nested_groups_recurse_inside_their_parent() {
    let steps = sp_tree_steps(
        &ids(&[Some("grp1"), Some("grp2"), Some("grp2"), Some("grp1")]),
        &groups(&[("grp1", None), ("grp2", Some("grp1"))]),
    );
    assert_eq!(
        steps,
        vec![
            open("grp1"),
            el(0, true),
            open("grp2"),
            el(1, true),
            el(2, true),
            TreeStep::Close,
            el(3, true),
            TreeStep::Close,
        ]
    );
}

#[test]
fn members_of_an_orphan_nested_group_fall_back_to_flat_rendering() {
    // grp2's parent was skipped: it has no place at the top of the tree.
    let steps = sp_tree_steps(
        &ids(&[Some("grp2"), Some("grp2")]),
        &groups(&[("grp2", Some("grp1"))]),
    );
    assert_eq!(steps, vec![el(0, false), el(1, false)]);
}

#[test]
fn non_contiguous_members_form_separate_runs() {
    let steps = sp_tree_steps(
        &ids(&[Some("grp1"), None, Some("grp1")]),
        &groups(&[("grp1", None)]),
    );
    assert_eq!(
        steps,
        vec![
            open("grp1"),
            el(0, true),
            TreeStep::Close,
            el(1, false),
            open("grp1"),
            el(2, true),
            TreeStep::Close,
        ]
    );
}

#[test]
fn descendants_follow_parent_links() {
    let gs = groups(&[("a", None), ("b", Some("a")), ("c", Some("b"))]);
    assert!(is_descendant(&gs, "c", "a"));
    assert!(is_descendant(&gs, "b", "a"));
    assert!(!is_descendant(&gs, "a", "c"));
    assert!(!is_descendant(&gs, "missing", "a"));
    // A cycle that never meets the ancestor ends after as many steps as
    // there are groups.
    let cyclic = groups(&[("x", Some("y")), ("y", Some("x"))]);
    assert!(!is_descendant(&cyclic, "x", "z"));
    assert!(is_descendant(&cyclic, "x", "x"));
}
