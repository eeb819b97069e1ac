//! The shape tree of a slide rebuilt from the flat element list: runs of
//! consecutive members of a top-level group (and of its descendant groups)
//! become a `<p:grpSp>`, nested groups recurse inside their parent, and
//! everything else is written in place.

use vstd::prelude::*;

use crate::text::str_eq;

verus! {

/// The group entries of a page: each group's id and its parent's id.
pub open spec fn group_views(groups: Seq<(String, Option<String>)>) -> Seq<(Seq<char>, Option<Seq<char>>)> {
    groups.map_values(|g: (String, Option<String>)| (g.0@, opt_view(g.1)))
}

pub open spec fn opt_view(o: Option<String>) -> Option<Seq<char>> {
    match o {
        Some(s) => Some(s@),
        None => None,
    }
}

/// The element's group ids.
pub open spec fn id_views(ids: Seq<Option<String>>) -> Seq<Option<Seq<char>>> {
    ids.map_values(|o: Option<String>| opt_view(o))
}

/// The entry of group `id` from position `k` on: `Some(parent)` for the
/// first entry with that id, `None` when there is none.
pub open spec fn lookup_from(groups: Seq<(Seq<char>, Option<Seq<char>>)>, id: Seq<char>, k: int) -> Option<Option<Seq<char>>>
    decreases groups.len() - k,
{
    if k < 0 || k >= groups.len() {
        None
    } else if groups[k].0 == id {
        Some(groups[k].1)
    } else {
        lookup_from(groups, id, k + 1)
    }
}

pub open spec fn lookup(groups: Seq<(Seq<char>, Option<Seq<char>>)>, id: Seq<char>) -> Option<Option<Seq<char>>> {
    lookup_from(groups, id, 0)
}

/// Whether `anc` is met walking up the parents of group `id`, within
/// `fuel` steps.
pub open spec fn descends(groups: Seq<(Seq<char>, Option<Seq<char>>)>, id: Seq<char>, anc: Seq<char>, fuel: nat) -> bool
    decreases fuel,
{
    if fuel == 0 {
        false
    } else {
        match lookup(groups, id) {
            Some(Some(p)) => p == anc || descends(groups, p, anc, (fuel - 1) as nat),
            _ => false,
        }
    }
}

/// Whether group `id` lies below group `anc`. A parent chain that reaches
/// `anc` at all does so within as many steps as there are groups.
pub open spec fn is_descendant_spec(groups: Seq<(Seq<char>, Option<Seq<char>>)>, id: Seq<char>, anc: Seq<char>) -> bool {
    descends(groups, id, anc, groups.len())
}

/// A top-level group: one with an entry and no parent.
pub open spec fn is_top(groups: Seq<(Seq<char>, Option<Seq<char>>)>, g: Seq<char>) -> bool {
    lookup(groups, g) == Some(None::<Seq<char>>)
}

/// Whether element `j` belongs to group `g` or to a group below it.
pub open spec fn in_group(ids: Seq<Option<Seq<char>>>, groups: Seq<(Seq<char>, Option<Seq<char>>)>, j: int, g: Seq<char>) -> bool {
    match ids[j] {
        Some(id) => id == g || is_descendant_spec(groups, id, g),
        None => false,
    }
}

/// The end of the run of consecutive members of group `g` (and of the
/// groups below it) that starts at `j`.
pub open spec fn span_end(ids: Seq<Option<Seq<char>>>, groups: Seq<(Seq<char>, Option<Seq<char>>)>, j: int, g: Seq<char>) -> int
    decreases ids.len() - j,
{
    if 0 <= j < ids.len() && in_group(ids, groups, j, g) {
        span_end(ids, groups, j + 1, g)
    } else {
        j
    }
}

pub proof fn lemma_span_end_bounds(ids: Seq<Option<Seq<char>>>, groups: Seq<(Seq<char>, Option<Seq<char>>)>, j: int, g: Seq<char>)
    requires
        0 <= j <= ids.len(),
    ensures
        j <= span_end(ids, groups, j, g) <= ids.len(),
        j < ids.len() && ids[j] == Some(g) ==> span_end(ids, groups, j, g) > j,
        forall|k: int| j <= k < span_end(ids, groups, j, g) ==> in_group(ids, groups, k, g),
    decreases ids.len() - j,
{
    if j < ids.len() && in_group(ids, groups, j, g) {
        lemma_span_end_bounds(ids, groups, j + 1, g);
    }
}

/// One step of writing the shape tree: an element (`grouped` when it is
/// a direct member of the group open around it, and so placed by its
/// position inside the group), the opening of a group, or its closing.
pub enum TreeStepV {
    Element(int, bool),
    Open(Seq<char>),
    Close,
}

/// The steps for the elements from `i` on inside the open group `g`,
/// up to the end `e` of the group's run: direct members in place, a run
/// of a group below it as that group's own opening, members and closing.
/// The members of a group below `g` are members of `g` as well, so a
/// nested run never reaches past `e`; the bound only says so.
pub open spec fn inner_steps(
    ids: Seq<Option<Seq<char>>>,
    groups: Seq<(Seq<char>, Option<Seq<char>>)>,
    g: Seq<char>,
    i: int,
    e: int,
) -> Seq<TreeStepV>
    decreases ids.len() - i, if 0 <= i < ids.len() && ids[i] == Some(g) {
        0int
    } else {
        1int
    },
{
    if i < 0 || i >= e || i >= ids.len() {
        Seq::empty()
    } else {
        match ids[i] {
            Some(c) => if c == g {
                seq![TreeStepV::Element(i, true)] + inner_steps(ids, groups, g, i + 1, e)
            } else {
                proof {
                    lemma_span_end_bounds(ids, groups, i, c);
                }
                let se = span_end(ids, groups, i, c);
                let ne = if se < e {
                    se
                } else {
                    e
                };
                seq![TreeStepV::Open(c)] + inner_steps(ids, groups, c, i, ne) + seq![TreeStepV::Close]
                    + inner_steps(ids, groups, g, ne, e)
            },
            None => seq![TreeStepV::Element(i, false)] + inner_steps(ids, groups, g, i + 1, e),
        }
    }
}

/// The steps for the elements from `i` on at the top of the tree: an
/// element of a top-level group starts that group's run; any other
/// element (ungrouped, or in a group without a place at the top) is
/// written in place.
pub open spec fn top_steps(ids: Seq<Option<Seq<char>>>, groups: Seq<(Seq<char>, Option<Seq<char>>)>, i: int) -> Seq<
    TreeStepV,
>
    decreases ids.len() - i,
{
    if i < 0 || i >= ids.len() {
        Seq::empty()
    } else {
        match ids[i] {
            Some(g) => if is_top(groups, g) {
                proof {
                    lemma_span_end_bounds(ids, groups, i, g);
                }
                let e = span_end(ids, groups, i, g);
                seq![TreeStepV::Open(g)] + inner_steps(ids, groups, g, i, e) + seq![TreeStepV::Close]
                    + top_steps(ids, groups, e)
            } else {
                seq![TreeStepV::Element(i, false)] + top_steps(ids, groups, i + 1)
            },
            None => seq![TreeStepV::Element(i, false)] + top_steps(ids, groups, i + 1),
        }
    }
}

/// One step of writing the shape tree.
#[derive(Debug, Clone, PartialEq)]
pub enum TreeStep {
    /// Write element `index`; `grouped` when it is a direct member of the
    /// group open around it.
    Element { index: usize, grouped: bool },
    /// Open the group with this id.
    Open(String),
    /// Close the innermost open group.
    Close,
}

impl View for TreeStep {
    type V = TreeStepV;

    open spec fn view(&self) -> TreeStepV {
        match self {
            TreeStep::Element { index, grouped } => TreeStepV::Element(*index as int, *grouped),
            TreeStep::Open(g) => TreeStepV::Open(g@),
            TreeStep::Close => TreeStepV::Close,
        }
    }
}

pub open spec fn steps_view(s: Seq<TreeStep>) -> Seq<TreeStepV> {
    s.map_values(|t: TreeStep| t@)
}

fn push_step(out: &mut Vec<TreeStep>, t: TreeStep)
    ensures
        steps_view(final(out)@) == steps_view(old(out)@).push(t@),
{
    let ghost before = out@;
    out.push(t);
    assert(steps_view(out@) =~= steps_view(before).push(t@));
}

/// The position of the entry of group `id`.
fn find_group(groups: &Vec<(String, Option<String>)>, id: &str) -> (r: Option<usize>)
    ensures
        match r {
            Some(k) => k < groups.len() && lookup(group_views(groups@), id@) == Some(opt_view(groups@[k as int].1)),
            None => lookup(group_views(groups@), id@) is None,
        },
{
    let ghost gs = group_views(groups@);
    let mut k: usize = 0;
    while k < groups.len()
        invariant
            k <= groups.len(),
            gs == group_views(groups@),
            lookup(gs, id@) == lookup_from(gs, id@, k as int),
        decreases groups.len() - k,
    {
        assert(gs[k as int] == (groups@[k as int].0@, opt_view(groups@[k as int].1)));
        if str_eq(groups[k].0.as_str(), id) {
            return Some(k);
        }
        k = k + 1;
    }
    None
}

/// Whether group `id` lies below group `anc`: its parent, or its parent's
/// parent, and so on, is `anc`.
pub fn is_descendant(groups: &Vec<(String, Option<String>)>, id: &str, anc: &str) -> (r: bool)
    ensures
        r == is_descendant_spec(group_views(groups@), id@, anc@),
{
    let ghost gs = group_views(groups@);
    let mut cur = id.to_string();
    let mut fuel: usize = groups.len();
    while fuel > 0
        invariant
            gs == group_views(groups@),
            descends(gs, id@, anc@, groups.len() as nat) == descends(gs, cur@, anc@, fuel as nat),
        decreases fuel,
    {
        match find_group(groups, cur.as_str()) {
            Some(k) => match &groups[k].1 {
                Some(p) => {
                    if str_eq(p.as_str(), anc) {
                        return true;
                    }
                    cur = p.clone();
                    fuel = fuel - 1;
                },
                None => {
                    return false;
                },
            },
            None => {
                return false;
            },
        }
    }
    false
}

fn in_group_at(ids: &Vec<Option<String>>, groups: &Vec<(String, Option<String>)>, j: usize, g: &str) -> (r: bool)
    requires
        j < ids.len(),
    ensures
        r == in_group(id_views(ids@), group_views(groups@), j as int, g@),
{
    match &ids[j] {
        Some(id) => str_eq(id.as_str(), g) || is_descendant(groups, id.as_str(), g),
        None => false,
    }
}

/// The end of the run of members of group `g` starting at `j`.
fn run_end(ids: &Vec<Option<String>>, groups: &Vec<(String, Option<String>)>, j: usize, g: &str) -> (r: usize)
    requires
        j <= ids.len(),
    ensures
        r as int == span_end(id_views(ids@), group_views(groups@), j as int, g@),
{
    let ghost iv = id_views(ids@);
    let ghost gs = group_views(groups@);
    let mut k = j;
    while k < ids.len() && in_group_at(ids, groups, k, g)
        invariant
            j <= k <= ids.len(),
            iv == id_views(ids@),
            gs == group_views(groups@),
            span_end(iv, gs, j as int, g@) == span_end(iv, gs, k as int, g@),
        decreases ids.len() - k,
    {
        k = k + 1;
    }
    k
}

fn same_id(o: &Option<String>, g: &str) -> (r: bool)
    ensures
        r == (opt_view(*o) == Some(g@)),
{
    match o {
        Some(s) => str_eq(s.as_str(), g),
        None => false,
    }
}

/// Appends the steps for the elements from `i` on inside the open group
/// `g`, up to `e`.
fn push_inner(
    ids: &Vec<Option<String>>,
    groups: &Vec<(String, Option<String>)>,
    g: &str,
    i: usize,
    e: usize,
    out: &mut Vec<TreeStep>,
)
    requires
        e <= ids.len(),
    ensures
        steps_view(final(out)@) == steps_view(old(out)@) + inner_steps(
            id_views(ids@),
            group_views(groups@),
            g@,
            i as int,
            e as int,
        ),
    decreases ids.len() - i, if i < ids.len() && id_views(ids@)[i as int] == Some(g@) {
        0int
    } else {
        1int
    },
{
    let ghost iv = id_views(ids@);
    let ghost gs = group_views(groups@);
    let ghost start = steps_view(out@);
    if i >= e || i >= ids.len() {
        assert(steps_view(out@) =~= start + inner_steps(iv, gs, g@, i as int, e as int));
        return;
    }
    assert(iv[i as int] == opt_view(ids@[i as int]));
    match &ids[i] {
        Some(c) => {
            if str_eq(c.as_str(), g) {
                push_step(out, TreeStep::Element { index: i, grouped: true });
                push_inner(ids, groups, g, i + 1, e, out);
                assert(steps_view(out@) =~= start + inner_steps(iv, gs, g@, i as int, e as int));
            } else {
                proof {
                    lemma_span_end_bounds(iv, gs, i as int, c@);
                }
                let se = run_end(ids, groups, i, c.as_str());
                let ne = if se < e {
                    se
                } else {
                    e
                };
                let opened = c.clone();
                push_step(out, TreeStep::Open(opened));
                push_inner(ids, groups, c.as_str(), i, ne, out);
                push_step(out, TreeStep::Close);
                push_inner(ids, groups, g, ne, e, out);
                assert(steps_view(out@) =~= start + inner_steps(iv, gs, g@, i as int, e as int));
            }
        },
        None => {
            push_step(out, TreeStep::Element { index: i, grouped: false });
            push_inner(ids, groups, g, i + 1, e, out);
            assert(steps_view(out@) =~= start + inner_steps(iv, gs, g@, i as int, e as int));
        },
    }
}

fn top_group(groups: &Vec<(String, Option<String>)>, g: &str) -> (r: bool)
    ensures
        r == is_top(group_views(groups@), g@),
{
    match find_group(groups, g) {
        Some(k) => groups[k].1.is_none(),
        None => false,
    }
}

/// The steps that write a slide's shape tree from its elements' group
/// ids (`ids`, in element order) and the page's groups (id and parent).
pub fn sp_tree_steps(ids: &Vec<Option<String>>, groups: &Vec<(String, Option<String>)>) -> (r: Vec<TreeStep>)
    ensures
        steps_view(r@) == top_steps(id_views(ids@), group_views(groups@), 0),
{
    let ghost iv = id_views(ids@);
    let ghost gs = group_views(groups@);
    let mut out: Vec<TreeStep> = Vec::new();
    let mut i: usize = 0;
    assert(steps_view(out@) + top_steps(iv, gs, 0) =~= top_steps(iv, gs, 0));
    while i < ids.len()
        invariant
            i <= ids.len(),
            iv == id_views(ids@),
            gs == group_views(groups@),
            steps_view(out@) + top_steps(iv, gs, i as int) == top_steps(iv, gs, 0),
        decreases ids.len() - i,
    {
        let ghost before = steps_view(out@);
        assert(iv[i as int] == opt_view(ids@[i as int]));
        match &ids[i] {
            Some(g) => {
                if top_group(groups, g.as_str()) {
                    proof {
                        lemma_span_end_bounds(iv, gs, i as int, g@);
                    }
                    let e = run_end(ids, groups, i, g.as_str());
                    let opened = g.clone();
                    push_step(&mut out, TreeStep::Open(opened));
                    push_inner(ids, groups, g.as_str(), i, e, &mut out);
                    push_step(&mut out, TreeStep::Close);
                    assert(steps_view(out@) + top_steps(iv, gs, e as int) =~= before + top_steps(iv, gs, i as int));
                    i = e;
                } else {
                    push_step(&mut out, TreeStep::Element { index: i, grouped: false });
                    assert(steps_view(out@) + top_steps(iv, gs, i + 1) =~= before + top_steps(iv, gs, i as int));
                    i = i + 1;
                }
            },
            None => {
                push_step(&mut out, TreeStep::Element { index: i, grouped: false });
                assert(steps_view(out@) + top_steps(iv, gs, i + 1) =~= before + top_steps(iv, gs, i as int));
                i = i + 1;
            },
        }
    }
    assert(top_steps(iv, gs, i as int) =~= Seq::<TreeStepV>::empty());
    assert(steps_view(out@) =~= top_steps(iv, gs, 0));
    out
}

// ---------------------------------------------------------------------------
// Laws
// ---------------------------------------------------------------------------

/// The element indices of the steps, in order.
pub open spec fn step_indices(s: Seq<TreeStepV>) -> Seq<int>
    decreases s.len(),
{
    if s.len() == 0 {
        Seq::empty()
    } else {
        let p = step_indices(s.drop_last());
        match s.last() {
            TreeStepV::Element(k, _) => p.push(k),
            _ => p,
        }
    }
}

/// `a, a + 1, ..., b - 1`.
pub open spec fn index_range(a: int, b: int) -> Seq<int> {
    Seq::new((b - a) as nat, |k: int| a + k)
}

proof fn lemma_indices_concat(a: Seq<TreeStepV>, b: Seq<TreeStepV>)
    ensures
        step_indices(a + b) == step_indices(a) + step_indices(b),
    decreases b.len(),
{
    if b.len() == 0 {
        assert(a + b =~= a);
        assert(step_indices(a) + step_indices(b) =~= step_indices(a));
    } else {
        lemma_indices_concat(a, b.drop_last());
        assert((a + b).drop_last() =~= a + b.drop_last());
        assert((a + b).last() == b.last());
        match b.last() {
            TreeStepV::Element(k, _) => {
                assert((step_indices(a) + step_indices(b.drop_last())).push(k) =~= step_indices(a)
                    + step_indices(b.drop_last()).push(k));
            },
            _ => {},
        }
    }
}

proof fn lemma_indices_one(t: TreeStepV)
    ensures
        step_indices(seq![t]) == match t {
            TreeStepV::Element(k, _) => seq![k],
            _ => Seq::<int>::empty(),
        },
{
    assert(seq![t].drop_last() =~= Seq::<TreeStepV>::empty());
    assert(seq![t].last() == t);
    assert(step_indices(Seq::<TreeStepV>::empty()) == Seq::<int>::empty());
    match t {
        TreeStepV::Element(k, _) => {
            assert(step_indices(seq![t]) == step_indices(Seq::<TreeStepV>::empty()).push(k));
            assert(Seq::<int>::empty().push(k) =~= seq![k]);
        },
        _ => {},
    }
}

proof fn lemma_range_split(a: int, m: int, b: int)
    requires
        a <= m <= b,
    ensures
        index_range(a, b) == index_range(a, m) + index_range(m, b),
{
    assert(index_range(a, b) =~= index_range(a, m) + index_range(m, b));
}

proof fn lemma_range_cons(a: int, b: int)
    requires
        a < b,
    ensures
        index_range(a, b) == seq![a] + index_range(a + 1, b),
{
    assert(index_range(a, b) =~= seq![a] + index_range(a + 1, b));
}

proof fn lemma_inner_indices(
    ids: Seq<Option<Seq<char>>>,
    groups: Seq<(Seq<char>, Option<Seq<char>>)>,
    g: Seq<char>,
    i: int,
    e: int,
)
    requires
        0 <= i <= e <= ids.len(),
    ensures
        step_indices(inner_steps(ids, groups, g, i, e)) == index_range(i, e),
    decreases ids.len() - i, if 0 <= i < ids.len() && ids[i] == Some(g) {
        0int
    } else {
        1int
    },
{
    if i >= e {
        assert(index_range(i, e) =~= Seq::<int>::empty());
    } else {
        match ids[i] {
            Some(c) => if c == g {
                lemma_inner_indices(ids, groups, g, i + 1, e);
                lemma_indices_concat(seq![TreeStepV::Element(i, true)], inner_steps(ids, groups, g, i + 1, e));
                lemma_indices_one(TreeStepV::Element(i, true));
                lemma_range_cons(i, e);
            } else {
                lemma_span_end_bounds(ids, groups, i, c);
                let se = span_end(ids, groups, i, c);
                let ne = if se < e {
                    se
                } else {
                    e
                };
                lemma_inner_indices(ids, groups, c, i, ne);
                lemma_inner_indices(ids, groups, g, ne, e);
                let a = seq![TreeStepV::Open(c)];
                let b = inner_steps(ids, groups, c, i, ne);
                let cl = seq![TreeStepV::Close];
                let d = inner_steps(ids, groups, g, ne, e);
                lemma_indices_concat(a, b);
                lemma_indices_concat(a + b, cl);
                lemma_indices_concat(a + b + cl, d);
                lemma_indices_one(TreeStepV::Open(c));
                lemma_indices_one(TreeStepV::Close);
                lemma_range_split(i, ne, e);
                assert(Seq::<int>::empty() + index_range(i, ne) + Seq::<int>::empty() + index_range(ne, e)
                    =~= index_range(i, e));
            },
            None => {
                lemma_inner_indices(ids, groups, g, i + 1, e);
                lemma_indices_concat(seq![TreeStepV::Element(i, false)], inner_steps(ids, groups, g, i + 1, e));
                lemma_indices_one(TreeStepV::Element(i, false));
                lemma_range_cons(i, e);
            },
        }
    }
}

proof fn lemma_top_indices(ids: Seq<Option<Seq<char>>>, groups: Seq<(Seq<char>, Option<Seq<char>>)>, i: int)
    requires
        0 <= i <= ids.len(),
    ensures
        step_indices(top_steps(ids, groups, i)) == index_range(i, ids.len() as int),
    decreases ids.len() - i,
{
    if i >= ids.len() {
        assert(index_range(i, ids.len() as int) =~= Seq::<int>::empty());
    } else {
        let n = ids.len() as int;
        let single = match ids[i] {
            Some(g) => !is_top(groups, g),
            None => true,
        };
        if single {
            lemma_top_indices(ids, groups, i + 1);
            lemma_indices_concat(seq![TreeStepV::Element(i, false)], top_steps(ids, groups, i + 1));
            lemma_indices_one(TreeStepV::Element(i, false));
            lemma_range_cons(i, n);
        } else {
            let g = ids[i]->Some_0;
            lemma_span_end_bounds(ids, groups, i, g);
            let e = span_end(ids, groups, i, g);
            lemma_inner_indices(ids, groups, g, i, e);
            lemma_top_indices(ids, groups, e);
            let a = seq![TreeStepV::Open(g)];
            let b = inner_steps(ids, groups, g, i, e);
            let cl = seq![TreeStepV::Close];
            let d = top_steps(ids, groups, e);
            lemma_indices_concat(a, b);
            lemma_indices_concat(a + b, cl);
            lemma_indices_concat(a + b + cl, d);
            lemma_indices_one(TreeStepV::Open(g));
            lemma_indices_one(TreeStepV::Close);
            lemma_range_split(i, e, n);
            assert(Seq::<int>::empty() + index_range(i, e) + Seq::<int>::empty() + index_range(e, n)
                =~= index_range(i, n));
        }
    }
}

/// Grouping never drops, repeats or reorders an element: the elements
/// written into a slide's shape tree are all of its elements, each once,
/// in the order of the page's element list (its z-order).
pub proof fn lemma_tree_keeps_every_element_in_order(
    ids: Seq<Option<Seq<char>>>,
    groups: Seq<(Seq<char>, Option<Seq<char>>)>,
)
    ensures
        step_indices(top_steps(ids, groups, 0)) == index_range(0, ids.len() as int),
{
    lemma_top_indices(ids, groups, 0);
}

/// The groups open after the steps, starting from the open groups `st`.
pub open spec fn stack_after(st: Seq<Seq<char>>, s: Seq<TreeStepV>) -> Seq<Seq<char>>
    decreases s.len(),
{
    if s.len() == 0 {
        st
    } else {
        let p = stack_after(st, s.drop_last());
        match s.last() {
            TreeStepV::Open(g) => p.push(g),
            TreeStepV::Close => p.drop_last(),
            TreeStepV::Element(_, _) => p,
        }
    }
}

/// Each step is sound where it stands: a closing has a group to close,
/// and an element is marked `grouped` exactly when the innermost open
/// group is its own group.
pub open spec fn steps_sound(ids: Seq<Option<Seq<char>>>, st: Seq<Seq<char>>, s: Seq<TreeStepV>) -> bool {
    forall|k: int|
        0 <= k < s.len() ==> {
            let open = stack_after(st, #[trigger] s.take(k));
            match s[k] {
                TreeStepV::Close => open.len() > 0,
                TreeStepV::Element(j, grouped) => grouped == (open.len() > 0 && 0 <= j < ids.len() && ids[j]
                    == Some(open.last())),
                TreeStepV::Open(_) => true,
            }
        }
}

proof fn lemma_stack_concat(st: Seq<Seq<char>>, a: Seq<TreeStepV>, b: Seq<TreeStepV>)
    ensures
        stack_after(st, a + b) == stack_after(stack_after(st, a), b),
    decreases b.len(),
{
    if b.len() == 0 {
        assert(a + b =~= a);
    } else {
        lemma_stack_concat(st, a, b.drop_last());
        assert((a + b).drop_last() =~= a + b.drop_last());
        assert((a + b).last() == b.last());
    }
}

proof fn lemma_sound_concat(ids: Seq<Option<Seq<char>>>, st: Seq<Seq<char>>, a: Seq<TreeStepV>, b: Seq<TreeStepV>)
    requires
        steps_sound(ids, st, a),
        steps_sound(ids, stack_after(st, a), b),
    ensures
        steps_sound(ids, st, a + b),
{
    let ab = a + b;
    assert forall|k: int| 0 <= k < ab.len() implies {
        let open = stack_after(st, #[trigger] ab.take(k));
        match ab[k] {
            TreeStepV::Close => open.len() > 0,
            TreeStepV::Element(j, grouped) => grouped == (open.len() > 0 && 0 <= j < ids.len() && ids[j]
                == Some(open.last())),
            TreeStepV::Open(_) => true,
        }
    } by {
        if k < a.len() {
            assert(ab.take(k) =~= a.take(k));
            assert(ab[k] == a[k]);
        } else {
            let kb = k - a.len();
            assert(ab.take(k) =~= a + b.take(kb));
            lemma_stack_concat(st, a, b.take(kb));
            assert(ab[k] == b[kb]);
            assert(b.take(kb) == b.take(kb));
        }
    }
}

proof fn lemma_sound_one(ids: Seq<Option<Seq<char>>>, st: Seq<Seq<char>>, t: TreeStepV)
    requires
        match t {
            TreeStepV::Close => st.len() > 0,
            TreeStepV::Element(j, grouped) => grouped == (st.len() > 0 && 0 <= j < ids.len() && ids[j] == Some(
                st.last(),
            )),
            TreeStepV::Open(_) => true,
        },
    ensures
        steps_sound(ids, st, seq![t]),
        stack_after(st, seq![t]) == match t {
            TreeStepV::Open(g) => st.push(g),
            TreeStepV::Close => st.drop_last(),
            TreeStepV::Element(_, _) => st,
        },
{
    assert(seq![t].drop_last() =~= Seq::<TreeStepV>::empty());
    assert(seq![t].last() == t);
    assert(stack_after(st, Seq::<TreeStepV>::empty()) == st);
    assert forall|k: int| 0 <= k < 1 implies {
        let open = stack_after(st, #[trigger] seq![t].take(k));
        match seq![t][k] {
            TreeStepV::Close => open.len() > 0,
            TreeStepV::Element(j, grouped) => grouped == (open.len() > 0 && 0 <= j < ids.len() && ids[j]
                == Some(open.last())),
            TreeStepV::Open(_) => true,
        }
    } by {
        assert(seq![t].take(0) =~= Seq::<TreeStepV>::empty());
        assert(seq![t][0] == t);
    }
}

/// A group's opening, its steps and its closing leave the open groups as
/// they were.
proof fn lemma_sound_wrap(ids: Seq<Option<Seq<char>>>, st: Seq<Seq<char>>, c: Seq<char>, x: Seq<TreeStepV>)
    requires
        steps_sound(ids, st.push(c), x),
        stack_after(st.push(c), x) == st.push(c),
    ensures
        steps_sound(ids, st, seq![TreeStepV::Open(c)] + x + seq![TreeStepV::Close]),
        stack_after(st, seq![TreeStepV::Open(c)] + x + seq![TreeStepV::Close]) == st,
{
    lemma_sound_one(ids, st, TreeStepV::Open(c));
    lemma_sound_concat(ids, st, seq![TreeStepV::Open(c)], x);
    lemma_stack_concat(st, seq![TreeStepV::Open(c)], x);
    lemma_sound_one(ids, st.push(c), TreeStepV::Close);
    lemma_sound_concat(ids, st, seq![TreeStepV::Open(c)] + x, seq![TreeStepV::Close]);
    lemma_stack_concat(st, seq![TreeStepV::Open(c)] + x, seq![TreeStepV::Close]);
    assert(st.push(c).drop_last() =~= st);
}

proof fn lemma_sound_empty(ids: Seq<Option<Seq<char>>>, st: Seq<Seq<char>>)
    ensures
        steps_sound(ids, st, Seq::empty()),
        stack_after(st, Seq::empty()) == st,
{
}

proof fn lemma_inner_sound(
    ids: Seq<Option<Seq<char>>>,
    groups: Seq<(Seq<char>, Option<Seq<char>>)>,
    st: Seq<Seq<char>>,
    g: Seq<char>,
    i: int,
    e: int,
)
    requires
        0 <= i <= e <= ids.len(),
        st.len() > 0,
        st.last() == g,
    ensures
        steps_sound(ids, st, inner_steps(ids, groups, g, i, e)),
        stack_after(st, inner_steps(ids, groups, g, i, e)) == st,
    decreases ids.len() - i, if 0 <= i < ids.len() && ids[i] == Some(g) {
        0int
    } else {
        1int
    },
{
    if i >= e {
        lemma_sound_empty(ids, st);
    } else {
        match ids[i] {
            Some(c) => if c == g {
                let t = TreeStepV::Element(i, true);
                lemma_sound_one(ids, st, t);
                lemma_inner_sound(ids, groups, st, g, i + 1, e);
                lemma_sound_concat(ids, st, seq![t], inner_steps(ids, groups, g, i + 1, e));
                lemma_stack_concat(st, seq![t], inner_steps(ids, groups, g, i + 1, e));
            } else {
                lemma_span_end_bounds(ids, groups, i, c);
                let se = span_end(ids, groups, i, c);
                let ne = if se < e {
                    se
                } else {
                    e
                };
                let x = inner_steps(ids, groups, c, i, ne);
                let w = seq![TreeStepV::Open(c)] + x + seq![TreeStepV::Close];
                let d = inner_steps(ids, groups, g, ne, e);
                lemma_inner_sound(ids, groups, st.push(c), c, i, ne);
                lemma_sound_wrap(ids, st, c, x);
                lemma_inner_sound(ids, groups, st, g, ne, e);
                lemma_sound_concat(ids, st, w, d);
                lemma_stack_concat(st, w, d);
            },
            None => {
                let t = TreeStepV::Element(i, false);
                lemma_sound_one(ids, st, t);
                lemma_inner_sound(ids, groups, st, g, i + 1, e);
                lemma_sound_concat(ids, st, seq![t], inner_steps(ids, groups, g, i + 1, e));
                lemma_stack_concat(st, seq![t], inner_steps(ids, groups, g, i + 1, e));
            },
        }
    }
}

proof fn lemma_top_sound(ids: Seq<Option<Seq<char>>>, groups: Seq<(Seq<char>, Option<Seq<char>>)>, i: int)
    requires
        0 <= i <= ids.len(),
    ensures
        steps_sound(ids, Seq::empty(), top_steps(ids, groups, i)),
        stack_after(Seq::empty(), top_steps(ids, groups, i)) == Seq::<Seq<char>>::empty(),
    decreases ids.len() - i,
{
    let st = Seq::<Seq<char>>::empty();
    if i >= ids.len() {
        lemma_sound_empty(ids, st);
    } else {
        let single = match ids[i] {
            Some(g) => !is_top(groups, g),
            None => true,
        };
        if single {
            let t = TreeStepV::Element(i, false);
            lemma_sound_one(ids, st, t);
            lemma_top_sound(ids, groups, i + 1);
            lemma_sound_concat(ids, st, seq![t], top_steps(ids, groups, i + 1));
            lemma_stack_concat(st, seq![t], top_steps(ids, groups, i + 1));
        } else {
            let g = ids[i]->Some_0;
            lemma_span_end_bounds(ids, groups, i, g);
            let e = span_end(ids, groups, i, g);
            let x = inner_steps(ids, groups, g, i, e);
            let w = seq![TreeStepV::Open(g)] + x + seq![TreeStepV::Close];
            let d = top_steps(ids, groups, e);
            lemma_inner_sound(ids, groups, st.push(g), g, i, e);
            lemma_sound_wrap(ids, st, g, x);
            lemma_top_sound(ids, groups, e);
            lemma_sound_concat(ids, st, w, d);
            lemma_stack_concat(st, w, d);
        }
    }
}

/// The shape tree is well nested, and each element sits where the
/// extension puts it: every group opened is closed again, nothing is
/// closed that was not opened, and an element is written as a direct
/// member (placed by its position inside the group) exactly when the
/// innermost open group is its own group.
pub proof fn lemma_tree_is_well_nested(ids: Seq<Option<Seq<char>>>, groups: Seq<(Seq<char>, Option<Seq<char>>)>)
    ensures
        steps_sound(ids, Seq::empty(), top_steps(ids, groups, 0)),
        stack_after(Seq::empty(), top_steps(ids, groups, 0)) == Seq::<Seq<char>>::empty(),
{
    lemma_top_sound(ids, groups, 0);
}

} // verus!
