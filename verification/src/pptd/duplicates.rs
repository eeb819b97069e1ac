//! How many duplicate-id findings validation reports: every element after
//! the first with a given id gets exactly one, and nothing else in the
//! output reads like one.

use vstd::prelude::*;

use super::validate::{
    animation_diags, chart_col_diags, chart_diags, chart_row_diags, color_ref_diags, color_refs_diags,
    duplicate_count, element_diags, element_step, elements_diags, id_count, id_seen, layout_diags, messages_on,
    page_diags, pages_diags, series_col_diags, series_diags, table_diags, table_row_diags, text_style_diags,
    ChartFacts, ElementFacts, ElementKind, PageFacts, SeriesFacts, TableFacts, ThemeKeys,
};

verus! {

/// The message of a duplicate id.
pub open spec fn dup_msg(x: Seq<char>) -> Seq<char> {
    "duplicate elementId `"@ + x + "`"@
}

/// How many findings are on `page` with message `msg`.
pub open spec fn count_findings(ds: Seq<(Option<nat>, Seq<char>)>, page: Option<nat>, msg: Seq<char>) -> nat
    decreases ds.len(),
{
    if ds.len() == 0 {
        0
    } else {
        count_findings(ds.drop_last(), page, msg) + if ds.last() == (page, msg) {
            1nat
        } else {
            0nat
        }
    }
}

/// Every finding is on `page`, and, when `strict`, none has the message
/// of a duplicate `x`.
pub open spec fn on_page(ds: Seq<(Option<nat>, Seq<char>)>, page: nat, x: Seq<char>, strict: bool) -> bool {
    forall|j: int| 0 <= j < ds.len() ==> (#[trigger] ds[j]).0 == Some(page) && (strict ==> ds[j].1 != dup_msg(x))
}

proof fn lemma_count_concat(a: Seq<(Option<nat>, Seq<char>)>, b: Seq<(Option<nat>, Seq<char>)>, page: Option<nat>, msg: Seq<char>)
    ensures
        count_findings(a + b, page, msg) == count_findings(a, page, msg) + count_findings(b, page, msg),
    decreases b.len(),
{
    if b.len() == 0 {
        assert(a + b =~= a);
    } else {
        lemma_count_concat(a, b.drop_last(), page, msg);
        assert((a + b).drop_last() =~= a + b.drop_last());
        assert((a + b).last() == b.last());
    }
}

proof fn lemma_count_none(ds: Seq<(Option<nat>, Seq<char>)>, page: Option<nat>, msg: Seq<char>)
    requires
        forall|j: int| 0 <= j < ds.len() ==> #[trigger] ds[j] != (page, msg),
    ensures
        count_findings(ds, page, msg) == 0,
    decreases ds.len(),
{
    if ds.len() > 0 {
        assert forall|j: int| 0 <= j < ds.drop_last().len() implies #[trigger] ds.drop_last()[j] != (page, msg) by {
            assert(ds.drop_last()[j] == ds[j]);
        }
        lemma_count_none(ds.drop_last(), page, msg);
        assert(ds.last() == ds[ds.len() - 1]);
    }
}

proof fn lemma_on_page_concat(
    a: Seq<(Option<nat>, Seq<char>)>,
    b: Seq<(Option<nat>, Seq<char>)>,
    page: nat,
    x: Seq<char>,
    strict: bool,
)
    requires
        on_page(a, page, x, strict),
        on_page(b, page, x, strict),
    ensures
        on_page(a + b, page, x, strict),
{
    assert forall|j: int| 0 <= j < (a + b).len() implies (#[trigger] (a + b)[j]).0 == Some(page) && (strict ==> (a
        + b)[j].1 != dup_msg(x)) by {
        if j < a.len() {
            assert((a + b)[j] == a[j]);
        } else {
            assert((a + b)[j] == b[j - a.len()]);
        }
    }
}

/// Every finding is on `page` and its message starts with a character
/// other than `d`.
pub open spec fn plain_on(ds: Seq<(Option<nat>, Seq<char>)>, page: nat) -> bool {
    forall|j: int|
        0 <= j < ds.len() ==> (#[trigger] ds[j]).0 == Some(page) && ds[j].1.len() > 0 && ds[j].1[0] != 'd'
}

proof fn lemma_plain_concat(a: Seq<(Option<nat>, Seq<char>)>, b: Seq<(Option<nat>, Seq<char>)>, page: nat)
    requires
        plain_on(a, page),
        plain_on(b, page),
    ensures
        plain_on(a + b, page),
{
    assert forall|j: int| 0 <= j < (a + b).len() implies (#[trigger] (a + b)[j]).0 == Some(page) && (a + b)[j].1.len()
        > 0 && (a + b)[j].1[0] != 'd' by {
        if j < a.len() {
            assert((a + b)[j] == a[j]);
        } else {
            assert((a + b)[j] == b[j - a.len()]);
        }
    }
}

/// Findings that do not start with `d` are no duplicate findings.
proof fn lemma_plain_on_page(ds: Seq<(Option<nat>, Seq<char>)>, page: nat, x: Seq<char>, strict: bool)
    requires
        plain_on(ds, page),
    ensures
        on_page(ds, page, x, strict),
{
    reveal_strlit("duplicate elementId `");
    assert(dup_msg(x)[0] == 'd');
}

proof fn lemma_when_plain(cond: bool, page: nat, msg: Seq<char>)
    requires
        msg.len() > 0,
        msg[0] != 'd',
    ensures
        plain_on(crate::pptd::validate::when(cond, page, msg), page),
{
}

proof fn lemma_table_rows(page: nat, id: Seq<char>, rows: Seq<usize>, columns: nat, n: nat)
    ensures
        plain_on(table_row_diags(page, id, rows, columns, n), page),
    decreases n,
{
    if n > 0 {
        reveal_strlit("table `");
        lemma_table_rows(page, id, rows, columns, (n - 1) as nat);
        let prev = table_row_diags(page, id, rows, columns, (n - 1) as nat);
        let all = table_row_diags(page, id, rows, columns, n);
        assert forall|j: int| 0 <= j < all.len() implies (#[trigger] all[j]).0 == Some(page) && all[j].1.len() > 0
            && all[j].1[0] != 'd' by {
            if j < prev.len() {
                assert(all[j] == prev[j]);
            }
        }
    }
}

proof fn lemma_chart_cols(page: nat, id: Seq<char>, cols: Seq<String>, n: nat)
    ensures
        plain_on(chart_col_diags(page, id, cols, n), page),
    decreases n,
{
    if n > 0 {
        reveal_strlit("chart `");
        lemma_chart_cols(page, id, cols, (n - 1) as nat);
        let prev = chart_col_diags(page, id, cols, (n - 1) as nat);
        let all = chart_col_diags(page, id, cols, n);
        assert forall|j: int| 0 <= j < all.len() implies (#[trigger] all[j]).0 == Some(page) && all[j].1.len() > 0
            && all[j].1[0] != 'd' by {
            if j < prev.len() {
                assert(all[j] == prev[j]);
            }
        }
    }
}

proof fn lemma_chart_rows(page: nat, id: Seq<char>, rows: Seq<usize>, cols: nat, n: nat)
    ensures
        plain_on(chart_row_diags(page, id, rows, cols, n), page),
    decreases n,
{
    if n > 0 {
        reveal_strlit("chart `");
        lemma_chart_rows(page, id, rows, cols, (n - 1) as nat);
        let prev = chart_row_diags(page, id, rows, cols, (n - 1) as nat);
        let all = chart_row_diags(page, id, rows, cols, n);
        assert forall|j: int| 0 <= j < all.len() implies (#[trigger] all[j]).0 == Some(page) && all[j].1.len() > 0
            && all[j].1[0] != 'd' by {
            if j < prev.len() {
                assert(all[j] == prev[j]);
            }
        }
    }
}

proof fn lemma_series_cols(page: nat, id: Seq<char>, cols: Seq<String>, sf: SeriesFacts, n: nat)
    ensures
        plain_on(series_col_diags(page, id, cols, sf, n), page),
    decreases n,
{
    if n > 0 {
        reveal_strlit("chart `");
        lemma_series_cols(page, id, cols, sf, (n - 1) as nat);
        let prev = series_col_diags(page, id, cols, sf, (n - 1) as nat);
        let all = series_col_diags(page, id, cols, sf, n);
        assert forall|j: int| 0 <= j < all.len() implies (#[trigger] all[j]).0 == Some(page) && all[j].1.len() > 0
            && all[j].1[0] != 'd' by {
            if j < prev.len() {
                assert(all[j] == prev[j]);
            }
        }
    }
}

proof fn lemma_series(page: nat, id: Seq<char>, cols: Seq<String>, series: Seq<SeriesFacts>, n: nat)
    ensures
        plain_on(series_diags(page, id, cols, series, n), page),
    decreases n,
{
    if n > 0 {
        lemma_series(page, id, cols, series, (n - 1) as nat);
        lemma_series_cols(page, id, cols, series[n - 1], series[n - 1].encode_columns@.len());
        lemma_plain_concat(
            series_diags(page, id, cols, series, (n - 1) as nat),
            series_col_diags(page, id, cols, series[n - 1], series[n - 1].encode_columns@.len()),
            page,
        );
    }
}

proof fn lemma_chart(page: nat, id: Seq<char>, c: ChartFacts)
    ensures
        plain_on(chart_diags(page, id, c), page),
{
    reveal_strlit("chart `");
    let msg = "chart `"@ + id + "` must define at least one series"@;
    let head = crate::pptd::validate::when(c.series@.len() == 0, page, msg);
    assert(msg[0] == 'c');
    lemma_when_plain(c.series@.len() == 0, page, msg);
    lemma_chart_cols(page, id, c.cols@, c.cols@.len());
    lemma_chart_rows(page, id, c.row_lens@, c.cols@.len(), c.row_lens@.len());
    lemma_series(page, id, c.cols@, c.series@, c.series@.len());
    let a = chart_col_diags(page, id, c.cols@, c.cols@.len());
    let b = chart_row_diags(page, id, c.row_lens@, c.cols@.len(), c.row_lens@.len());
    let d = series_diags(page, id, c.cols@, c.series@, c.series@.len());
    lemma_plain_concat(head, a, page);
    lemma_plain_concat(head + a, b, page);
    lemma_plain_concat(head + a + b, d, page);
}

proof fn lemma_text_style(theme: Option<ThemeKeys>, page: nat, style: Option<String>, context: Seq<char>)
    ensures
        plain_on(text_style_diags(theme, page, style, context), page),
{
    reveal_strlit("style `");
    let all = text_style_diags(theme, page, style, context);
    assert forall|j: int| 0 <= j < all.len() implies (#[trigger] all[j]).0 == Some(page) && all[j].1.len() > 0
        && all[j].1[0] != 'd' by {
    }
}

/// No table ratio finding among the elements reads as the duplicate
/// message of `x`.
pub open spec fn ratio_findings_differ(elements: Seq<ElementFacts>, x: Seq<char>) -> bool {
    forall|k: int, m: int|
        0 <= k < elements.len() && elements[k].kind is Table && 0 <= m < elements[k].kind->Table_0.ratio_findings@.len()
            ==> (#[trigger] elements[k].kind->Table_0.ratio_findings@[m])@ != dup_msg(x)
}

proof fn lemma_table(theme: Option<ThemeKeys>, page: nat, id: Seq<char>, t: TableFacts, x: Seq<char>, strict: bool)
    requires
        strict ==> forall|m: int| 0 <= m < t.ratio_findings@.len() ==> (#[trigger] t.ratio_findings@[m])@ != dup_msg(x),
    ensures
        on_page(table_diags(theme, page, id, t), page, x, strict),
{
    reveal_strlit("table style `");
    reveal_strlit("table `");
    let all = table_diags(theme, page, id, t);
    let ratios = messages_on(page, t.ratio_findings@);
    let style = match t.style_ref {
        None => Seq::empty(),
        Some(st) => {
            let resolved = match theme {
                Some(th) => crate::pptd::validate::has_key(th.table_styles@, crate::pptd::validate::trim_dollars(st@)),
                None => false,
            };
            crate::pptd::validate::when(
                !resolved,
                page,
                "table style `"@ + st@ + "` is not defined in theme.tableStyles (`"@ + id + "`)"@,
            )
        },
    };
    let count = crate::pptd::validate::when(
        t.row_lens@.len() != t.row_heights_len,
        page,
        "table `"@ + id + "` has "@ + crate::text::decimal(t.row_lens@.len()) + " rows of data but "@
            + crate::text::decimal(t.row_heights_len as nat) + " rowHeights"@,
    );
    let rows = table_row_diags(page, id, t.row_lens@, t.column_count as nat, t.row_lens@.len());
    assert(all == style + ratios + count + rows);
    assert(plain_on(style, page)) by {
        assert forall|j: int| 0 <= j < style.len() implies (#[trigger] style[j]).0 == Some(page) && style[j].1.len() > 0
            && style[j].1[0] != 'd' by {
        }
    }
    assert(plain_on(count, page)) by {
        assert forall|j: int| 0 <= j < count.len() implies (#[trigger] count[j]).0 == Some(page) && count[j].1.len() > 0
            && count[j].1[0] != 'd' by {
        }
    }
    assert(on_page(ratios, page, x, strict)) by {
        assert forall|j: int| 0 <= j < ratios.len() implies (#[trigger] ratios[j]).0 == Some(page) && (strict
            ==> ratios[j].1 != dup_msg(x)) by {
            assert(ratios[j] == (Some(page), t.ratio_findings@[j]@));
        }
    }
    lemma_table_rows(page, id, t.row_lens@, t.column_count as nat, t.row_lens@.len());
    lemma_plain_on_page(style, page, x, strict);
    lemma_plain_on_page(count, page, x, strict);
    lemma_plain_on_page(rows, page, x, strict);
    lemma_on_page_concat(style, ratios, page, x, strict);
    lemma_on_page_concat(style + ratios, count, page, x, strict);
    lemma_on_page_concat(style + ratios + count, rows, page, x, strict);
}

proof fn lemma_element(theme: Option<ThemeKeys>, page: nat, e: ElementFacts, x: Seq<char>, strict: bool)
    requires
        strict && e.kind is Table ==> forall|m: int|
            0 <= m < e.kind->Table_0.ratio_findings@.len() ==> (#[trigger] e.kind->Table_0.ratio_findings@[m])@ != dup_msg(x),
    ensures
        on_page(element_diags(theme, page, e), page, x, strict),
{
    match e.kind {
        ElementKind::Text { style } => {
            lemma_text_style(theme, page, style, "text `"@ + e.element_id@ + "`"@);
            lemma_plain_on_page(element_diags(theme, page, e), page, x, strict);
        },
        ElementKind::Table(t) => {
            lemma_table(theme, page, e.element_id@, t, x, strict);
        },
        ElementKind::Chart(c) => {
            lemma_chart(page, e.element_id@, c);
            lemma_plain_on_page(element_diags(theme, page, e), page, x, strict);
        },
        ElementKind::Other => {},
    }
}

proof fn lemma_color_refs(theme: Option<ThemeKeys>, page: nat, id: Seq<char>, refs: Seq<String>, n: nat)
    ensures
        plain_on(color_refs_diags(theme, page, id, refs, n), page),
    decreases n,
{
    if n > 0 {
        reveal_strlit("color `");
        lemma_color_refs(theme, page, id, refs, (n - 1) as nat);
        let prev = color_refs_diags(theme, page, id, refs, (n - 1) as nat);
        let last = color_ref_diags(theme, page, id, refs[n - 1]@);
        assert(plain_on(last, page)) by {
            assert forall|j: int| 0 <= j < last.len() implies (#[trigger] last[j]).0 == Some(page) && last[j].1.len()
                > 0 && last[j].1[0] != 'd' by {
            }
        }
        lemma_plain_concat(prev, last, page);
    }
}

proof fn lemma_animations(page: nat, elements: Seq<ElementFacts>, targets: Seq<String>, n: nat)
    ensures
        plain_on(animation_diags(page, elements, targets, n), page),
    decreases n,
{
    if n > 0 {
        reveal_strlit("animation references unknown elementId `");
        lemma_animations(page, elements, targets, (n - 1) as nat);
        let prev = animation_diags(page, elements, targets, (n - 1) as nat);
        let all = animation_diags(page, elements, targets, n);
        assert forall|j: int| 0 <= j < all.len() implies (#[trigger] all[j]).0 == Some(page) && all[j].1.len() > 0
            && all[j].1[0] != 'd' by {
            if j < prev.len() {
                assert(all[j] == prev[j]);
            }
        }
    }
}

proof fn lemma_layout(layouts: Seq<String>, page: nat, layout: Option<String>)
    ensures
        plain_on(layout_diags(layouts, page, layout), page),
{
    reveal_strlit("layout `");
    let all = layout_diags(layouts, page, layout);
    assert forall|j: int| 0 <= j < all.len() implies (#[trigger] all[j]).0 == Some(page) && all[j].1.len() > 0
        && all[j].1[0] != 'd' by {
    }
}

proof fn lemma_dup_msg_injective(a: Seq<char>, b: Seq<char>)
    requires
        dup_msg(a) == dup_msg(b),
    ensures
        a == b,
{
    reveal_strlit("duplicate elementId `");
    reveal_strlit("`");
    let p = "duplicate elementId `"@;
    assert(dup_msg(a).len() == p.len() + a.len() + 1);
    assert(a.len() == b.len());
    assert(dup_msg(a).subrange(p.len() as int, (p.len() + a.len()) as int) =~= a);
    assert(dup_msg(b).subrange(p.len() as int, (p.len() + b.len()) as int) =~= b);
}

/// The findings of element `n - 1` after its duplicate check.
spec fn step_rest(theme: Option<ThemeKeys>, page: nat, e: ElementFacts) -> Seq<(Option<nat>, Seq<char>)> {
    let id = e.element_id@;
    (match e.degenerate_bounds {
        Some(b) => seq![(Some(page), "element `"@ + id + "` must have positive width and height, got "@ + b@)],
        None => Seq::empty(),
    }) + (match e.bad_opacity {
        Some(o) => seq![(Some(page), "element `"@ + id + "` opacity must be in [0, 1], got "@ + o@)],
        None => Seq::empty(),
    }) + element_diags(theme, page, e) + color_refs_diags(theme, page, id, e.color_refs@, e.color_refs@.len())
}

proof fn lemma_step_rest(theme: Option<ThemeKeys>, page: nat, e: ElementFacts, x: Seq<char>, strict: bool)
    requires
        strict && e.kind is Table ==> forall|m: int|
            0 <= m < e.kind->Table_0.ratio_findings@.len() ==> (#[trigger] e.kind->Table_0.ratio_findings@[m])@ != dup_msg(x),
    ensures
        on_page(step_rest(theme, page, e), page, x, strict),
{
    reveal_strlit("element `");
    let id = e.element_id@;
    let deg = match e.degenerate_bounds {
        Some(b) => seq![(Some(page), "element `"@ + id + "` must have positive width and height, got "@ + b@)],
        None => Seq::<(Option<nat>, Seq<char>)>::empty(),
    };
    let opa = match e.bad_opacity {
        Some(o) => seq![(Some(page), "element `"@ + id + "` opacity must be in [0, 1], got "@ + o@)],
        None => Seq::<(Option<nat>, Seq<char>)>::empty(),
    };
    assert(plain_on(deg, page)) by {
        assert forall|j: int| 0 <= j < deg.len() implies (#[trigger] deg[j]).0 == Some(page) && deg[j].1.len() > 0
            && deg[j].1[0] != 'd' by {
        }
    }
    assert(plain_on(opa, page)) by {
        assert forall|j: int| 0 <= j < opa.len() implies (#[trigger] opa[j]).0 == Some(page) && opa[j].1.len() > 0
            && opa[j].1[0] != 'd' by {
        }
    }
    let cr = color_refs_diags(theme, page, id, e.color_refs@, e.color_refs@.len());
    lemma_color_refs(theme, page, id, e.color_refs@, e.color_refs@.len());
    lemma_plain_on_page(deg, page, x, strict);
    lemma_plain_on_page(opa, page, x, strict);
    lemma_plain_on_page(cr, page, x, strict);
    lemma_element(theme, page, e, x, strict);
    let ed = element_diags(theme, page, e);
    lemma_on_page_concat(deg, opa, page, x, strict);
    lemma_on_page_concat(deg + opa, ed, page, x, strict);
    lemma_on_page_concat(deg + opa + ed, cr, page, x, strict);
}

proof fn lemma_step(theme: Option<ThemeKeys>, page: nat, els: Seq<ElementFacts>, n: nat, x: Seq<char>, strict: bool)
    requires
        1 <= n <= els.len(),
        strict && els[n - 1].kind is Table ==> forall|m: int|
            0 <= m < els[n - 1].kind->Table_0.ratio_findings@.len() ==> (#[trigger] els[n
                - 1].kind->Table_0.ratio_findings@[m])@ != dup_msg(x),
    ensures
        strict ==> count_findings(element_step(theme, page, els, n), Some(page), dup_msg(x)) == (if els[n
            - 1].element_id@ == x && id_seen(els, n - 1, x) {
            1nat
        } else {
            0nat
        }),
        forall|j: int| 0 <= j < element_step(theme, page, els, n).len() ==> (#[trigger] element_step(theme, page, els, n)[j]).0 == Some(page),
{
    let e = els[n - 1];
    let id = e.element_id@;
    let w = crate::pptd::validate::when(id_seen(els, n - 1, id), page, dup_msg(id));
    let rest = step_rest(theme, page, e);
    assert(element_step(theme, page, els, n) == w + rest);
    lemma_step_rest(theme, page, e, x, strict);
    let all = w + rest;
    assert forall|j: int| 0 <= j < all.len() implies (#[trigger] all[j]).0 == Some(page) by {
        if j < w.len() {
            assert(all[j] == w[j]);
        } else {
            assert(all[j] == rest[j - w.len()]);
        }
    }
    if strict {
        assert forall|j: int| 0 <= j < rest.len() implies #[trigger] rest[j] != (Some(page), dup_msg(x)) by {
        }
        lemma_count_none(rest, Some(page), dup_msg(x));
        lemma_count_concat(w, rest, Some(page), dup_msg(x));
        assert(count_findings(Seq::<(Option<nat>, Seq<char>)>::empty(), Some(page), dup_msg(x)) == 0);
        if id_seen(els, n - 1, id) {
            assert(w == seq![(Some(page), dup_msg(id))]);
            assert(w.drop_last() =~= Seq::<(Option<nat>, Seq<char>)>::empty());
            assert(w.last() == (Some(page), dup_msg(id)));
            if dup_msg(id) == dup_msg(x) {
                lemma_dup_msg_injective(id, x);
                assert(count_findings(w, Some(page), dup_msg(x)) == 1);
            } else {
                assert(count_findings(w, Some(page), dup_msg(x)) == 0);
                assert(id != x);
            }
        } else {
            assert(w =~= Seq::<(Option<nat>, Seq<char>)>::empty());
            assert(count_findings(w, Some(page), dup_msg(x)) == 0);
            if id == x {
                assert(!id_seen(els, n - 1, x));
            }
        }
    }
}

proof fn lemma_elements(theme: Option<ThemeKeys>, page: nat, els: Seq<ElementFacts>, n: nat, x: Seq<char>, strict: bool)
    requires
        n <= els.len(),
        strict ==> ratio_findings_differ(els, x),
    ensures
        strict ==> count_findings(elements_diags(theme, page, els, n), Some(page), dup_msg(x)) == duplicate_count(els, n, x),
        forall|j: int| 0 <= j < elements_diags(theme, page, els, n).len() ==> (#[trigger] elements_diags(theme, page, els, n)[j]).0 == Some(page),
    decreases n,
{
    if n > 0 {
        lemma_elements(theme, page, els, (n - 1) as nat, x, strict);
        if strict && els[n - 1].kind is Table {
            assert forall|m: int| 0 <= m < els[n - 1].kind->Table_0.ratio_findings@.len() implies (#[trigger] els[n
                - 1].kind->Table_0.ratio_findings@[m])@ != dup_msg(x) by {
                assert(ratio_findings_differ(els, x));
                assert(els[n - 1].kind->Table_0.ratio_findings@[m] == els[(n - 1) as int].kind->Table_0.ratio_findings@[m]);
            }
        }
        lemma_step(theme, page, els, n, x, strict);
        let prev = elements_diags(theme, page, els, (n - 1) as nat);
        let step = element_step(theme, page, els, n);
        assert(elements_diags(theme, page, els, n) == prev + step);
        lemma_count_concat(prev, step, Some(page), dup_msg(x));
        let all = prev + step;
        assert forall|j: int| 0 <= j < all.len() implies (#[trigger] all[j]).0 == Some(page) by {
            if j < prev.len() {
                assert(all[j] == prev[j]);
            } else {
                assert(all[j] == step[j - prev.len()]);
            }
        }
    }
}

proof fn lemma_page(theme: Option<ThemeKeys>, layouts: Seq<String>, page: nat, p: PageFacts, x: Seq<char>, strict: bool)
    requires
        strict ==> ratio_findings_differ(p.elements@, x),
    ensures
        strict ==> count_findings(page_diags(theme, layouts, page, p), Some(page), dup_msg(x)) == duplicate_count(
            p.elements@,
            p.elements@.len(),
            x,
        ),
        forall|j: int| 0 <= j < page_diags(theme, layouts, page, p).len() ==> (#[trigger] page_diags(theme, layouts, page, p)[j]).0 == Some(page),
{
    let a = layout_diags(layouts, page, p.layout);
    let b = elements_diags(theme, page, p.elements@, p.elements@.len());
    let c = match p.animation_targets {
        Some(ts) => animation_diags(page, p.elements@, ts@, ts@.len()),
        None => Seq::empty(),
    };
    assert(page_diags(theme, layouts, page, p) == a + b + c);
    lemma_layout(layouts, page, p.layout);
    match p.animation_targets {
        Some(ts) => lemma_animations(page, p.elements@, ts@, ts@.len()),
        None => {},
    }
    assert(plain_on(c, page));
    lemma_elements(theme, page, p.elements@, p.elements@.len(), x, strict);
    lemma_plain_on_page(a, page, x, true);
    lemma_plain_on_page(c, page, x, true);
    assert forall|j: int| 0 <= j < a.len() implies #[trigger] a[j] != (Some(page), dup_msg(x)) by {}
    assert forall|j: int| 0 <= j < c.len() implies #[trigger] c[j] != (Some(page), dup_msg(x)) by {}
    lemma_count_none(a, Some(page), dup_msg(x));
    lemma_count_none(c, Some(page), dup_msg(x));
    lemma_count_concat(a, b, Some(page), dup_msg(x));
    lemma_count_concat(a + b, c, Some(page), dup_msg(x));
    let all = a + b + c;
    assert forall|j: int| 0 <= j < all.len() implies (#[trigger] all[j]).0 == Some(page) by {
        if j < a.len() {
            assert(all[j] == a[j]);
        } else if j < a.len() + b.len() {
            assert(all[j] == b[j - a.len()]);
        } else {
            assert(all[j] == c[j - a.len() - b.len()]);
        }
    }
}

proof fn lemma_pages(theme: Option<ThemeKeys>, layouts: Seq<String>, pages: Seq<PageFacts>, n: nat, i: int, x: Seq<char>)
    requires
        n <= pages.len(),
        0 <= i < pages.len(),
        ratio_findings_differ(pages[i].elements@, x),
    ensures
        count_findings(pages_diags(theme, layouts, pages, n), Some((i + 1) as nat), dup_msg(x)) == if i < n {
            duplicate_count(pages[i].elements@, pages[i].elements@.len(), x)
        } else {
            0
        },
    decreases n,
{
    if n > 0 {
        lemma_pages(theme, layouts, pages, (n - 1) as nat, i, x);
        let prev = pages_diags(theme, layouts, pages, (n - 1) as nat);
        let pd = page_diags(theme, layouts, n, pages[n - 1]);
        lemma_count_concat(prev, pd, Some((i + 1) as nat), dup_msg(x));
        if i == n - 1 {
            lemma_page(theme, layouts, n, pages[n - 1], x, true);
        } else {
            lemma_page(theme, layouts, n, pages[n - 1], x, false);
            assert forall|j: int| 0 <= j < pd.len() implies #[trigger] pd[j] != (Some((i + 1) as nat), dup_msg(x)) by {
                assert(pd[j].0 == Some(n));
            }
            lemma_count_none(pd, Some((i + 1) as nat), dup_msg(x));
        }
    }
}

/// Validation reports a shared id exactly as often as it repeats: when
/// `m >= 1` elements of page `i` (zero-based) have the id `x`, the output
/// of [`super::validate::validate_project`] holds exactly `m - 1`
/// findings ``duplicate elementId `x` `` on page `i + 1`, and none when no
/// element has that id. (A table ratio finding on that page that reads
/// exactly like that message would be counted too, so such inputs are
/// left out.)
pub proof fn lemma_duplicate_findings_in_output(
    size_finding: Option<Seq<char>>,
    theme: Option<ThemeKeys>,
    layouts: Seq<String>,
    pages: Seq<PageFacts>,
    i: int,
    x: Seq<char>,
)
    requires
        0 <= i < pages.len(),
        ratio_findings_differ(pages[i].elements@, x),
    ensures
        ({
            let out = (match size_finding {
                Some(s) => seq![(None::<nat>, "size must be positive and finite, got "@ + s)],
                None => Seq::empty(),
            }) + pages_diags(theme, layouts, pages, pages.len());
            let m = id_count(pages[i].elements@, pages[i].elements@.len(), x);
            count_findings(out, Some((i + 1) as nat), dup_msg(x)) == if m > 0 {
                (m - 1) as nat
            } else {
                0
            }
        }),
{
    let head = match size_finding {
        Some(s) => seq![(None::<nat>, "size must be positive and finite, got "@ + s)],
        None => Seq::<(Option<nat>, Seq<char>)>::empty(),
    };
    assert forall|j: int| 0 <= j < head.len() implies #[trigger] head[j] != (Some((i + 1) as nat), dup_msg(x)) by {}
    lemma_count_none(head, Some((i + 1) as nat), dup_msg(x));
    lemma_pages(theme, layouts, pages, pages.len(), i, x);
    lemma_count_concat(head, pages_diags(theme, layouts, pages, pages.len()), Some((i + 1) as nat), dup_msg(x));
    super::validate::lemma_duplicate_ids_reported(theme, 1, pages[i].elements@, x);
}

} // verus!
