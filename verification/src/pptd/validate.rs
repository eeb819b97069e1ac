//! Semantic validation of a parsed deck, beyond what deserialization
//! enforces: unique element ids, resolvable theme references, animation
//! targets, and coherent table and chart data. Findings are reported as
//! [`Diagnostic`]s rather than fatal errors, so `slideforge check` can list
//! every issue in one pass.
//!
//! The checks read a plain summary of the deck ([`PageFacts`] and friends).
//! The numeric range checks (positive finite sizes, opacity in `[0, 1]`,
//! ratios summing to one) are made where the numbers live; their findings
//! arrive here already worded, in the order they are reported.

use vstd::prelude::*;

use crate::text::{chars_of, decimal, lower_seq, lowercase, push_str, str_eq, usize_to_string};

verus! {

/// A single validation finding.
#[derive(Debug, Clone, PartialEq)]
pub struct Diagnostic {
    /// One-based page index if the finding belongs to a page.
    pub page: Option<usize>,
    /// Human-readable description.
    pub message: String,
}

/// A finding as (page, message) text.
pub open spec fn diag_view(d: Diagnostic) -> (Option<nat>, Seq<char>) {
    (
        match d.page {
            Some(p) => Some(p as nat),
            None => None,
        },
        d.message@,
    )
}

/// The findings as (page, message) text.
pub open spec fn diag_views(ds: Seq<Diagnostic>) -> Seq<(Option<nat>, Seq<char>)> {
    ds.map_values(|d: Diagnostic| diag_view(d))
}

impl Diagnostic {
    /// The finding as one line: `page N: message`, or the message alone.
    pub fn to_text(&self) -> (r: String)
        ensures
            r@ == match self.page {
                Some(p) => "page "@ + decimal(p as nat) + ": "@ + self.message@,
                None => self.message@,
            },
    {
        match self.page {
            Some(p) => {
                let mut out = String::from_str("page ");
                let n = usize_to_string(p);
                push_str(&mut out, n.as_str());
                push_str(&mut out, ": ");
                push_str(&mut out, self.message.as_str());
                out
            },
            None => self.message.clone(),
        }
    }
}

/// Record a finding for the zero-based page `page`.
pub fn diag(out: &mut Vec<Diagnostic>, page: usize, message: String)
    requires
        page < usize::MAX,
    ensures
        diag_views(final(out)@) == diag_views(old(out)@).push((Some((page + 1) as nat), message@)),
{
    let ghost before = out@;
    out.push(Diagnostic { page: Some(page + 1), message });
    assert(diag_views(out@) =~= diag_views(before).push((Some((page + 1) as nat), message@)));
}

/// The kind of a chart series.
#[derive(Debug, Clone, Copy, PartialEq, Eq)]
pub enum SeriesKind {
    Bar,
    Line,
    Area,
    Pie,
    Scatter,
}

/// The series type as written in PPTD.
pub open spec fn series_type_name(k: SeriesKind) -> Seq<char> {
    match k {
        SeriesKind::Bar => "bar"@,
        SeriesKind::Line => "line"@,
        SeriesKind::Area => "area"@,
        SeriesKind::Pie => "pie"@,
        SeriesKind::Scatter => "scatter"@,
    }
}

impl SeriesKind {
    /// The series type as written in PPTD.
    pub fn kind_name(&self) -> (r: &'static str)
        ensures
            r@ == series_type_name(*self),
    {
        match self {
            SeriesKind::Bar => "bar",
            SeriesKind::Line => "line",
            SeriesKind::Area => "area",
            SeriesKind::Pie => "pie",
            SeriesKind::Scatter => "scatter",
        }
    }
}

/// What validation reads of a chart series: its kind and the column names
/// its `encode` references (`x`/`y`, or `category`/`value` for pies).
#[derive(Debug, Clone, PartialEq)]
pub struct SeriesFacts {
    pub kind: SeriesKind,
    pub encode_columns: Vec<String>,
}

/// What validation reads of a chart: its series, its dataset column names
/// and the number of cells in each data row.
#[derive(Debug, Clone, PartialEq)]
pub struct ChartFacts {
    pub series: Vec<SeriesFacts>,
    pub cols: Vec<String>,
    pub row_lens: Vec<usize>,
}

/// What validation reads of a table.
#[derive(Debug, Clone, PartialEq)]
pub struct TableFacts {
    /// The `$key` reference of `style`, when the style is a reference.
    pub style_ref: Option<String>,
    /// Findings about `columnWidths` and then `rowHeights`.
    pub ratio_findings: Vec<String>,
    /// Number of entries in `columnWidths`.
    pub column_count: usize,
    /// Number of entries in `rowHeights`.
    pub row_heights_len: usize,
    /// Number of cells in each data row.
    pub row_lens: Vec<usize>,
}

/// The element-specific part of an element's summary.
#[derive(Debug, Clone, PartialEq)]
pub enum ElementKind {
    /// A text box with its `style` reference, if any.
    Text { style: Option<String> },
    Table(TableFacts),
    Chart(ChartFacts),
    /// Shapes, lines, images and icons: nothing element-specific to check.
    Other,
}

/// What validation reads of one element.
#[derive(Debug, Clone, PartialEq)]
pub struct ElementFacts {
    pub element_id: String,
    /// The element's bounds as text when they are degenerate.
    pub degenerate_bounds: Option<String>,
    /// The element's opacity as text when it is outside `[0, 1]`.
    pub bad_opacity: Option<String>,
    pub kind: ElementKind,
    /// Every color value the element holds (fills, borders, shadows,
    /// gradient stops, text and cell colors), in order; those that start
    /// with `$` are theme color references.
    pub color_refs: Vec<String>,
}

/// What validation reads of one page.
#[derive(Debug, Clone, PartialEq)]
pub struct PageFacts {
    /// The key of the layout the page uses, if any.
    pub layout: Option<String>,
    pub elements: Vec<ElementFacts>,
    /// The `elementId` of each animation, when the page has animations.
    pub animation_targets: Option<Vec<String>>,
}

/// The keys of the theme's style registries.
#[derive(Debug, Clone, PartialEq)]
pub struct ThemeKeys {
    pub text_styles: Vec<String>,
    pub table_styles: Vec<String>,
    /// The keys of `theme.colors`.
    pub colors: Vec<String>,
}

/// `s` without its leading `$` characters.
pub open spec fn trim_dollars(s: Seq<char>) -> Seq<char>
    decreases s.len(),
{
    if s.len() > 0 && s[0] == '$' {
        trim_dollars(s.skip(1))
    } else {
        s
    }
}

/// Whether `key` is one of `keys`.
pub open spec fn has_key(keys: Seq<String>, key: Seq<char>) -> bool {
    exists|i: int| 0 <= i < keys.len() && keys[i]@ == key
}

/// Whether `key` is one of `keys`, ignoring ASCII case.
pub open spec fn has_color_key(keys: Seq<String>, key: Seq<char>) -> bool {
    exists|i: int| 0 <= i < keys.len() && lower_seq(keys[i]@) == lower_seq(key)
}

/// The check of one color value of element `id`: a `$key` reference must
/// name a theme color (ignoring ASCII case); other values are not
/// references.
pub open spec fn color_ref_diags(theme: Option<ThemeKeys>, page: nat, id: Seq<char>, c: Seq<char>) -> Seq<(Option<nat>, Seq<char>)> {
    if c.len() > 0 && c[0] == '$' {
        let resolved = match theme {
            Some(t) => has_color_key(t.colors@, c.skip(1)),
            None => false,
        };
        when(!resolved, page, "color `"@ + c + "` is not defined in theme.colors (`"@ + id + "`)"@)
    } else {
        Seq::empty()
    }
}

/// The checks of the first `n` color values of element `id`.
pub open spec fn color_refs_diags(theme: Option<ThemeKeys>, page: nat, id: Seq<char>, refs: Seq<String>, n: nat) -> Seq<(Option<nat>, Seq<char>)>
    decreases n,
{
    if n == 0 {
        Seq::empty()
    } else {
        color_refs_diags(theme, page, id, refs, (n - 1) as nat) + color_ref_diags(theme, page, id, refs[n - 1]@)
    }
}

/// Whether `key` is one of the first `n` names.
pub open spec fn seen_before(names: Seq<String>, n: int, key: Seq<char>) -> bool {
    exists|i: int| 0 <= i < n && names[i]@ == key
}

/// A one-finding sequence when `cond` holds.
pub open spec fn when(cond: bool, page: nat, msg: Seq<char>) -> Seq<(Option<nat>, Seq<char>)> {
    if cond {
        seq![(Some(page), msg)]
    } else {
        Seq::empty()
    }
}

/// The check of a text style reference.
pub open spec fn text_style_diags(theme: Option<ThemeKeys>, page: nat, style: Option<String>, context: Seq<char>) -> Seq<(Option<nat>, Seq<char>)> {
    match style {
        None => Seq::empty(),
        Some(st) => {
            let resolved = match theme {
                Some(t) => has_key(t.text_styles@, trim_dollars(st@)),
                None => false,
            };
            when(
                !resolved,
                page,
                "style `"@ + st@ + "` is not defined in theme.textStyles ("@ + context + ")"@,
            )
        },
    }
}

/// Findings for the rows of a table, from row `i` on.
pub open spec fn table_row_diags(page: nat, id: Seq<char>, rows: Seq<usize>, columns: nat, n: nat) -> Seq<(Option<nat>, Seq<char>)>
    decreases n,
{
    if n == 0 {
        Seq::empty()
    } else {
        table_row_diags(page, id, rows, columns, (n - 1) as nat) + when(
            rows[n - 1] > columns,
            page,
            "table `"@ + id + "` row "@ + decimal((n - 1) as nat) + " has "@ + decimal(
                rows[n - 1] as nat,
            ) + " cells but the table only has "@ + decimal(columns)
                + " columns (merged cells should be omitted)"@,
        )
    }
}

/// The given messages as findings of page `page`.
pub open spec fn messages_on(page: nat, msgs: Seq<String>) -> Seq<(Option<nat>, Seq<char>)> {
    msgs.map_values(|m: String| (Some(page), m@))
}

/// The checks of a table.
pub open spec fn table_diags(theme: Option<ThemeKeys>, page: nat, id: Seq<char>, t: TableFacts) -> Seq<(Option<nat>, Seq<char>)> {
    let style = match t.style_ref {
        None => Seq::empty(),
        Some(st) => {
            let resolved = match theme {
                Some(th) => has_key(th.table_styles@, trim_dollars(st@)),
                None => false,
            };
            when(
                !resolved,
                page,
                "table style `"@ + st@ + "` is not defined in theme.tableStyles (`"@ + id + "`)"@,
            )
        },
    };
    style + messages_on(page, t.ratio_findings@) + when(
        t.row_lens@.len() != t.row_heights_len,
        page,
        "table `"@ + id + "` has "@ + decimal(t.row_lens@.len()) + " rows of data but "@ + decimal(
            t.row_heights_len as nat,
        ) + " rowHeights"@,
    ) + table_row_diags(page, id, t.row_lens@, t.column_count as nat, t.row_lens@.len())
}

/// Findings for the first `n` dataset columns of a chart.
pub open spec fn chart_col_diags(page: nat, id: Seq<char>, cols: Seq<String>, n: nat) -> Seq<(Option<nat>, Seq<char>)>
    decreases n,
{
    if n == 0 {
        Seq::empty()
    } else {
        let col = cols[n - 1]@;
        chart_col_diags(page, id, cols, (n - 1) as nat) + when(
            col.len() == 0,
            page,
            "chart `"@ + id + "` has an empty column name"@,
        ) + when(
            seen_before(cols, n - 1, col),
            page,
            "chart `"@ + id + "` has duplicate column `"@ + col + "`"@,
        )
    }
}

/// Findings for the first `n` data rows of a chart.
pub open spec fn chart_row_diags(page: nat, id: Seq<char>, rows: Seq<usize>, cols: nat, n: nat) -> Seq<(Option<nat>, Seq<char>)>
    decreases n,
{
    if n == 0 {
        Seq::empty()
    } else {
        chart_row_diags(page, id, rows, cols, (n - 1) as nat) + when(
            rows[n - 1] != cols,
            page,
            "chart `"@ + id + "` row "@ + decimal((n - 1) as nat) + " has "@ + decimal(
                rows[n - 1] as nat,
            ) + " cells, expected "@ + decimal(cols),
        )
    }
}

/// Findings for the first `n` encode columns of one series.
pub open spec fn series_col_diags(page: nat, id: Seq<char>, cols: Seq<String>, s: SeriesFacts, n: nat) -> Seq<(Option<nat>, Seq<char>)>
    decreases n,
{
    if n == 0 {
        Seq::empty()
    } else {
        let col = s.encode_columns@[n - 1]@;
        series_col_diags(page, id, cols, s, (n - 1) as nat) + when(
            !has_key(cols, col),
            page,
            "chart `"@ + id + "` "@ + series_type_name(s.kind) + " series references unknown column `"@
                + col + "`"@,
        )
    }
}

/// Findings for the first `n` series of a chart.
pub open spec fn series_diags(page: nat, id: Seq<char>, cols: Seq<String>, series: Seq<SeriesFacts>, n: nat) -> Seq<(Option<nat>, Seq<char>)>
    decreases n,
{
    if n == 0 {
        Seq::empty()
    } else {
        series_diags(page, id, cols, series, (n - 1) as nat) + series_col_diags(
            page,
            id,
            cols,
            series[n - 1],
            series[n - 1].encode_columns@.len(),
        )
    }
}

/// The checks of a chart.
pub open spec fn chart_diags(page: nat, id: Seq<char>, c: ChartFacts) -> Seq<(Option<nat>, Seq<char>)> {
    when(c.series@.len() == 0, page, "chart `"@ + id + "` must define at least one series"@)
        + chart_col_diags(page, id, c.cols@, c.cols@.len()) + chart_row_diags(
        page,
        id,
        c.row_lens@,
        c.cols@.len(),
        c.row_lens@.len(),
    ) + series_diags(page, id, c.cols@, c.series@, c.series@.len())
}

/// The element-specific checks.
pub open spec fn element_diags(theme: Option<ThemeKeys>, page: nat, e: ElementFacts) -> Seq<(Option<nat>, Seq<char>)> {
    match e.kind {
        ElementKind::Text { style } => text_style_diags(theme, page, style, "text `"@ + e.element_id@ + "`"@),
        ElementKind::Table(t) => table_diags(theme, page, e.element_id@, t),
        ElementKind::Chart(c) => chart_diags(page, e.element_id@, c),
        ElementKind::Other => Seq::empty(),
    }
}

/// Whether the id is one of the first `n` elements' ids.
pub open spec fn id_seen(elements: Seq<ElementFacts>, n: int, id: Seq<char>) -> bool {
    exists|i: int| 0 <= i < n && elements[i].element_id@ == id
}

/// The checks of element `n - 1` of a page, given the ones before it.
pub open spec fn element_step(theme: Option<ThemeKeys>, page: nat, elements: Seq<ElementFacts>, n: nat) -> Seq<(Option<nat>, Seq<char>)> {
    let e = elements[n - 1];
    let id = e.element_id@;
    when(id_seen(elements, n - 1, id), page, "duplicate elementId `"@ + id + "`"@) + match e.degenerate_bounds {
        Some(b) => seq![
            (Some(page), "element `"@ + id + "` must have positive width and height, got "@ + b@),
        ],
        None => Seq::empty(),
    } + match e.bad_opacity {
        Some(o) => seq![(Some(page), "element `"@ + id + "` opacity must be in [0, 1], got "@ + o@)],
        None => Seq::empty(),
    } + element_diags(theme, page, e) + color_refs_diags(theme, page, id, e.color_refs@, e.color_refs@.len())
}

/// The checks of the first `n` elements of a page.
pub open spec fn elements_diags(theme: Option<ThemeKeys>, page: nat, elements: Seq<ElementFacts>, n: nat) -> Seq<(Option<nat>, Seq<char>)>
    decreases n,
{
    if n == 0 {
        Seq::empty()
    } else {
        elements_diags(theme, page, elements, (n - 1) as nat) + element_step(theme, page, elements, n)
    }
}

/// The checks of the first `n` animations of a page.
pub open spec fn animation_diags(page: nat, elements: Seq<ElementFacts>, targets: Seq<String>, n: nat) -> Seq<(Option<nat>, Seq<char>)>
    decreases n,
{
    if n == 0 {
        Seq::empty()
    } else {
        let t = targets[n - 1]@;
        animation_diags(page, elements, targets, (n - 1) as nat) + when(
            !id_seen(elements, elements.len() as int, t),
            page,
            "animation references unknown elementId `"@ + t + "`"@,
        )
    }
}

/// The check of a page's layout reference against the declared layout
/// keys.
pub open spec fn layout_diags(layouts: Seq<String>, page: nat, layout: Option<String>) -> Seq<(Option<nat>, Seq<char>)> {
    match layout {
        None => Seq::empty(),
        Some(k) => when(
            !has_key(layouts, k@),
            page,
            "layout `"@ + k@ + "` is not defined in presentation.layouts"@,
        ),
    }
}

/// The checks of a page; `page` is one-based.
pub open spec fn page_diags(theme: Option<ThemeKeys>, layouts: Seq<String>, page: nat, p: PageFacts) -> Seq<(Option<nat>, Seq<char>)> {
    layout_diags(layouts, page, p.layout) + elements_diags(theme, page, p.elements@, p.elements@.len()) + match p.animation_targets {
        Some(ts) => animation_diags(page, p.elements@, ts@, ts@.len()),
        None => Seq::empty(),
    }
}

/// The checks of the first `n` pages.
pub open spec fn pages_diags(theme: Option<ThemeKeys>, layouts: Seq<String>, pages: Seq<PageFacts>, n: nat) -> Seq<(Option<nat>, Seq<char>)>
    decreases n,
{
    if n == 0 {
        Seq::empty()
    } else {
        pages_diags(theme, layouts, pages, (n - 1) as nat) + page_diags(theme, layouts, n, pages[n - 1])
    }
}

/// How many of the first `n` elements have the id `x`.
pub open spec fn id_count(elements: Seq<ElementFacts>, n: nat, x: Seq<char>) -> nat
    decreases n,
{
    if n == 0 {
        0
    } else {
        id_count(elements, (n - 1) as nat, x) + if elements[n - 1].element_id@ == x {
            1nat
        } else {
            0nat
        }
    }
}

/// How many of the first `n` elements have the id `x` and get the
/// duplicate finding (an earlier element has the same id).
pub open spec fn duplicate_count(elements: Seq<ElementFacts>, n: nat, x: Seq<char>) -> nat
    decreases n,
{
    if n == 0 {
        0
    } else {
        duplicate_count(elements, (n - 1) as nat, x) + if elements[n - 1].element_id@ == x && id_seen(
            elements,
            n - 1,
            x,
        ) {
            1nat
        } else {
            0nat
        }
    }
}

proof fn lemma_id_seen_count(elements: Seq<ElementFacts>, n: nat, x: Seq<char>)
    requires
        n <= elements.len(),
    ensures
        id_seen(elements, n as int, x) <==> id_count(elements, n, x) > 0,
    decreases n,
{
    if n > 0 {
        lemma_id_seen_count(elements, (n - 1) as nat, x);
        if id_seen(elements, n - 1, x) {
            let i = choose|i: int| 0 <= i < n - 1 && elements[i].element_id@ == x;
            assert(id_seen(elements, n as int, x));
        }
        if elements[n - 1].element_id@ == x {
            assert(id_seen(elements, n as int, x));
        }
        if id_seen(elements, n as int, x) {
            let i = choose|i: int| 0 <= i < n && elements[i].element_id@ == x;
            if i < n - 1 {
                assert(id_seen(elements, n - 1, x));
            }
        }
    }
}

/// An id that `m >= 1` elements of a page share gets exactly `m - 1`
/// duplicate findings, one for every element after the first with that
/// id; each such element's findings start with
/// ``duplicate elementId `x` ``.
pub proof fn lemma_duplicate_ids_reported(
    theme: Option<ThemeKeys>,
    page: nat,
    elements: Seq<ElementFacts>,
    x: Seq<char>,
)
    ensures
        id_count(elements, elements.len(), x) > 0 ==> duplicate_count(elements, elements.len(), x) == id_count(
            elements,
            elements.len(),
            x,
        ) - 1,
        id_count(elements, elements.len(), x) == 0 ==> duplicate_count(elements, elements.len(), x) == 0,
        forall|k: int|
            0 <= k < elements.len() && elements[k].element_id@ == x && id_seen(elements, k, x) ==> (#[trigger] element_step(
                theme,
                page,
                elements,
                (k + 1) as nat,
            ))[0] == (Some(page), "duplicate elementId `"@ + x + "`"@),
{
    lemma_duplicate_count(elements, elements.len(), x);
    assert forall|k: int|
        0 <= k < elements.len() && elements[k].element_id@ == x && id_seen(elements, k, x) implies (#[trigger] element_step(
            theme,
            page,
            elements,
            (k + 1) as nat,
        ))[0] == (Some(page), "duplicate elementId `"@ + x + "`"@) by {
        assert(((k + 1) as nat - 1) as int == k);
    }
}

proof fn lemma_duplicate_count(elements: Seq<ElementFacts>, n: nat, x: Seq<char>)
    requires
        n <= elements.len(),
    ensures
        id_count(elements, n, x) > 0 ==> duplicate_count(elements, n, x) == id_count(elements, n, x) - 1,
        id_count(elements, n, x) == 0 ==> duplicate_count(elements, n, x) == 0,
    decreases n,
{
    if n > 0 {
        lemma_duplicate_count(elements, (n - 1) as nat, x);
        lemma_id_seen_count(elements, (n - 1) as nat, x);
    }
}

/// A text element's own finding is the check of its style: none without
/// a style; with a style `s`, one finding
/// ``style `s` is not defined in theme.textStyles (text `id`)`` exactly
/// when there is no theme or its text styles have no key `s` without its
/// leading `$`s.
pub proof fn lemma_text_style_reported(theme: Option<ThemeKeys>, page: nat, e: ElementFacts)
    requires
        e.kind is Text,
    ensures
        element_diags(theme, page, e) == (match e.kind->style {
            None => Seq::<(Option<nat>, Seq<char>)>::empty(),
            Some(st) => if theme is Some && has_key(theme->0.text_styles@, trim_dollars(st@)) {
                Seq::empty()
            } else {
                seq![
                    (
                        Some(page),
                        "style `"@ + st@ + "` is not defined in theme.textStyles (text `"@ + e.element_id@ + "`)"@,
                    ),
                ]
            },
        }),
{
    match e.kind->style {
        None => {},
        Some(st) => {
            assert("style `"@ + st@ + "` is not defined in theme.textStyles ("@ + ("text `"@ + e.element_id@
                + "`"@) + ")"@ =~= "style `"@ + st@ + "` is not defined in theme.textStyles (text `"@
                + e.element_id@ + "`)"@) by {
                reveal_strlit("` is not defined in theme.textStyles (");
                reveal_strlit("` is not defined in theme.textStyles (text `");
                reveal_strlit("text `");
                reveal_strlit("`");
                reveal_strlit(")");
                reveal_strlit("`)");
            }
        },
    }
}

fn trimmed_key(s: &str) -> (r: String)
    ensures
        r@ == trim_dollars(s@),
{
    let cs = chars_of(s);
    let mut i: usize = 0;
    assert(cs@.skip(0) =~= cs@);
    while i < cs.len() && cs[i] == '$'
        invariant
            i <= cs@.len(),
            cs@ == s@,
            trim_dollars(s@) == trim_dollars(cs@.skip(i as int)),
        decreases cs.len() - i,
    {
        assert(cs@.skip(i as int).skip(1) =~= cs@.skip(i + 1));
        i = i + 1;
    }
    let rest = crate::text::suffix_chars(&cs, i);
    crate::text::string_of(&rest)
}

fn contains_key(keys: &Vec<String>, key: &str) -> (r: bool)
    ensures
        r == has_key(keys@, key@),
{
    let mut i: usize = 0;
    while i < keys.len()
        invariant
            i <= keys@.len(),
            forall|k: int| 0 <= k < i ==> keys@[k]@ != key@,
        decreases keys.len() - i,
    {
        if str_eq(keys[i].as_str(), key) {
            return true;
        }
        i = i + 1;
    }
    false
}

fn seen_in(names: &Vec<String>, n: usize, key: &str) -> (r: bool)
    requires
        n <= names@.len(),
    ensures
        r == seen_before(names@, n as int, key@),
{
    let mut i: usize = 0;
    while i < n
        invariant
            i <= n <= names@.len(),
            forall|k: int| 0 <= k < i ==> names@[k]@ != key@,
        decreases n - i,
    {
        if str_eq(names[i].as_str(), key) {
            return true;
        }
        i = i + 1;
    }
    false
}

fn id_seen_in(elements: &Vec<ElementFacts>, n: usize, id: &str) -> (r: bool)
    requires
        n <= elements@.len(),
    ensures
        r == id_seen(elements@, n as int, id@),
{
    let mut i: usize = 0;
    while i < n
        invariant
            i <= n <= elements@.len(),
            forall|k: int| 0 <= k < i ==> elements@[k].element_id@ != id@,
        decreases n - i,
    {
        if str_eq(elements[i].element_id.as_str(), id) {
            return true;
        }
        i = i + 1;
    }
    false
}

fn has_color_key_in(keys: &Vec<String>, key: &str) -> (r: bool)
    ensures
        r == has_color_key(keys@, key@),
{
    let folded = lowercase(key);
    let mut i: usize = 0;
    while i < keys.len()
        invariant
            i <= keys@.len(),
            folded@ == lower_seq(key@),
            forall|k: int| 0 <= k < i ==> lower_seq(keys@[k]@) != lower_seq(key@),
        decreases keys.len() - i,
    {
        let k = lowercase(keys[i].as_str());
        if str_eq(k.as_str(), folded.as_str()) {
            return true;
        }
        i = i + 1;
    }
    false
}

/// Check every `$key` color reference of element `id` against the theme
/// colors.
fn check_color_refs(theme: Option<&ThemeKeys>, id: &str, refs: &Vec<String>, page_idx: usize, out: &mut Vec<Diagnostic>)
    requires
        page_idx < usize::MAX,
    ensures
        diag_views(final(out)@) == diag_views(old(out)@) + color_refs_diags(
            theme_opt(theme),
            (page_idx + 1) as nat,
            id@,
            refs@,
            refs@.len(),
        ),
{
    let ghost before = diag_views(out@);
    let ghost pg = (page_idx + 1) as nat;
    let mut i: usize = 0;
    while i < refs.len()
        invariant
            i <= refs@.len(),
            page_idx < usize::MAX,
            pg == page_idx + 1,
            diag_views(out@) == before + color_refs_diags(theme_opt(theme), pg, id@, refs@, i as nat),
        decreases refs.len() - i,
    {
        let c = refs[i].as_str();
        let cs = chars_of(c);
        if cs.len() > 0 && cs[0] == '$' {
            let rest = crate::text::suffix_chars(&cs, 1);
            let key = crate::text::string_of(&rest);
            assert(key@ =~= c@.skip(1));
            let resolved = match theme {
                Some(t) => has_color_key_in(&t.colors, key.as_str()),
                None => false,
            };
            let mut m = String::from_str("color `");
            push_str(&mut m, c);
            push_str(&mut m, "` is not defined in theme.colors (`");
            push_str(&mut m, id);
            push_str(&mut m, "`)");
            report(out, !resolved, page_idx, m);
        }
        i = i + 1;
        assert(diag_views(out@) =~= before + color_refs_diags(theme_opt(theme), pg, id@, refs@, i as nat));
    }
}

/// Record a finding for the zero-based page `page_idx` when `cond` holds.
fn report(out: &mut Vec<Diagnostic>, cond: bool, page_idx: usize, message: String)
    requires
        page_idx < usize::MAX,
    ensures
        diag_views(final(out)@) == diag_views(old(out)@) + when(cond, (page_idx + 1) as nat, message@),
{
    let ghost before = out@;
    if cond {
        diag(out, page_idx, message);
    }
    assert(diag_views(out@) =~= diag_views(before) + when(cond, (page_idx + 1) as nat, message@));
}

/// Check a text style reference of zero-based page `page_idx`: with a
/// style `s` whose key (without leading `$`s) the theme's text styles lack,
/// or without a theme, append ``style `s` is not defined in
/// theme.textStyles (context)``; without a style, append nothing.
pub fn check_text_style_ref(theme: Option<&ThemeKeys>, style: Option<&String>, page_idx: usize, out: &mut Vec<Diagnostic>, context: String)
    requires
        page_idx < usize::MAX,
    ensures
        diag_views(final(out)@) == diag_views(old(out)@) + text_style_diags(
            match theme {
                Some(t) => Some(*t),
                None => None,
            },
            (page_idx + 1) as nat,
            match style {
                Some(s) => Some(*s),
                None => None,
            },
            context@,
        ),
{
    let ghost before = out@;
    match style {
        Some(st) => {
            let key = trimmed_key(st.as_str());
            let resolved = match theme {
                Some(t) => contains_key(&t.text_styles, key.as_str()),
                None => false,
            };
            let mut m = String::from_str("style `");
            push_str(&mut m, st.as_str());
            push_str(&mut m, "` is not defined in theme.textStyles (");
            push_str(&mut m, context.as_str());
            push_str(&mut m, ")");
            report(out, !resolved, page_idx, m);
        },
        None => {
            assert(diag_views(out@) =~= diag_views(before) + Seq::<(Option<nat>, Seq<char>)>::empty());
        },
    }
}

/// The theme keys, by value.
pub open spec fn theme_opt(theme: Option<&ThemeKeys>) -> Option<ThemeKeys> {
    match theme {
        Some(t) => Some(*t),
        None => None,
    }
}

fn validate_table(page_idx: usize, id: &String, t: &TableFacts, theme: Option<&ThemeKeys>, out: &mut Vec<Diagnostic>)
    requires
        page_idx < usize::MAX,
    ensures
        diag_views(final(out)@) == diag_views(old(out)@) + table_diags(
            theme_opt(theme),
            (page_idx + 1) as nat,
            id@,
            *t,
        ),
{
    let ghost page = (page_idx + 1) as nat;
    let ghost before = diag_views(out@);
    match &t.style_ref {
        Some(st) => {
            let key = trimmed_key(st.as_str());
            let resolved = match theme {
                Some(th) => contains_key(&th.table_styles, key.as_str()),
                None => false,
            };
            let mut m = String::from_str("table style `");
            push_str(&mut m, st.as_str());
            push_str(&mut m, "` is not defined in theme.tableStyles (`");
            push_str(&mut m, id.as_str());
            push_str(&mut m, "`)");
            report(out, !resolved, page_idx, m);
        },
        None => {},
    }
    let ghost after_style = diag_views(out@);
    let mut i: usize = 0;
    while i < t.ratio_findings.len()
        invariant
            i <= t.ratio_findings@.len(),
            page_idx < usize::MAX,
            page == page_idx + 1,
            diag_views(out@) == after_style + messages_on(page, t.ratio_findings@.take(i as int)),
        decreases t.ratio_findings.len() - i,
    {
        let ghost b = out@;
        diag(out, page_idx, t.ratio_findings[i].clone());
        assert(messages_on(page, t.ratio_findings@.take(i + 1)) =~= messages_on(page, t.ratio_findings@.take(i as int)).push(
            (Some(page), t.ratio_findings@[i as int]@),
        ));
        assert(diag_views(out@) =~= after_style + messages_on(page, t.ratio_findings@.take(i + 1)));
        i = i + 1;
    }
    assert(t.ratio_findings@.take(i as int) =~= t.ratio_findings@);
    let rows = t.row_lens.len();
    let mut m = String::from_str("table `");
    push_str(&mut m, id.as_str());
    push_str(&mut m, "` has ");
    let a = usize_to_string(rows);
    push_str(&mut m, a.as_str());
    push_str(&mut m, " rows of data but ");
    let b = usize_to_string(t.row_heights_len);
    push_str(&mut m, b.as_str());
    push_str(&mut m, " rowHeights");
    report(out, rows != t.row_heights_len, page_idx, m);
    let ghost after_count = diag_views(out@);
    let mut r: usize = 0;
    while r < rows
        invariant
            r <= rows,
            rows == t.row_lens@.len(),
            page_idx < usize::MAX,
            page == page_idx + 1,
            diag_views(out@) == after_count + table_row_diags(page, id@, t.row_lens@, t.column_count as nat, r as nat),
        decreases rows - r,
    {
        let len = t.row_lens[r];
        let mut m = String::from_str("table `");
        push_str(&mut m, id.as_str());
        push_str(&mut m, "` row ");
        let a = usize_to_string(r);
        push_str(&mut m, a.as_str());
        push_str(&mut m, " has ");
        let b = usize_to_string(len);
        push_str(&mut m, b.as_str());
        push_str(&mut m, " cells but the table only has ");
        let c = usize_to_string(t.column_count);
        push_str(&mut m, c.as_str());
        push_str(&mut m, " columns (merged cells should be omitted)");
        let ghost b4 = diag_views(out@);
        report(out, len > t.column_count, page_idx, m);
        r = r + 1;
        assert(diag_views(out@) =~= after_count + table_row_diags(page, id@, t.row_lens@, t.column_count as nat, r as nat));
    }
    assert(diag_views(out@) =~= before + table_diags(theme_opt(theme), page, id@, *t));
}

fn validate_chart(page_idx: usize, id: &String, c: &ChartFacts, out: &mut Vec<Diagnostic>)
    requires
        page_idx < usize::MAX,
    ensures
        diag_views(final(out)@) == diag_views(old(out)@) + chart_diags((page_idx + 1) as nat, id@, *c),
{
    let ghost page = (page_idx + 1) as nat;
    let ghost before = diag_views(out@);
    let mut m = String::from_str("chart `");
    push_str(&mut m, id.as_str());
    push_str(&mut m, "` must define at least one series");
    report(out, c.series.len() == 0, page_idx, m);
    let ghost after_series = diag_views(out@);
    let ncols = c.cols.len();
    let mut i: usize = 0;
    while i < ncols
        invariant
            i <= ncols,
            ncols == c.cols@.len(),
            page_idx < usize::MAX,
            page == page_idx + 1,
            diag_views(out@) == after_series + chart_col_diags(page, id@, c.cols@, i as nat),
        decreases ncols - i,
    {
        let col = &c.cols[i];
        let mut m1 = String::from_str("chart `");
        push_str(&mut m1, id.as_str());
        push_str(&mut m1, "` has an empty column name");
        report(out, crate::text::is_empty_text(col.as_str()), page_idx, m1);
        let dup = seen_in(&c.cols, i, col.as_str());
        let mut m2 = String::from_str("chart `");
        push_str(&mut m2, id.as_str());
        push_str(&mut m2, "` has duplicate column `");
        push_str(&mut m2, col.as_str());
        push_str(&mut m2, "`");
        report(out, dup, page_idx, m2);
        i = i + 1;
        assert(diag_views(out@) =~= after_series + chart_col_diags(page, id@, c.cols@, i as nat));
    }
    let ghost after_cols = diag_views(out@);
    let nrows = c.row_lens.len();
    let mut r: usize = 0;
    while r < nrows
        invariant
            r <= nrows,
            nrows == c.row_lens@.len(),
            ncols == c.cols@.len(),
            page_idx < usize::MAX,
            page == page_idx + 1,
            diag_views(out@) == after_cols + chart_row_diags(page, id@, c.row_lens@, ncols as nat, r as nat),
        decreases nrows - r,
    {
        let len = c.row_lens[r];
        let mut m = String::from_str("chart `");
        push_str(&mut m, id.as_str());
        push_str(&mut m, "` row ");
        let a = usize_to_string(r);
        push_str(&mut m, a.as_str());
        push_str(&mut m, " has ");
        let b = usize_to_string(len);
        push_str(&mut m, b.as_str());
        push_str(&mut m, " cells, expected ");
        let d = usize_to_string(ncols);
        push_str(&mut m, d.as_str());
        report(out, len != ncols, page_idx, m);
        r = r + 1;
        assert(diag_views(out@) =~= after_cols + chart_row_diags(page, id@, c.row_lens@, ncols as nat, r as nat));
    }
    let ghost after_rows = diag_views(out@);
    let nseries = c.series.len();
    let mut k: usize = 0;
    while k < nseries
        invariant
            k <= nseries,
            nseries == c.series@.len(),
            page_idx < usize::MAX,
            page == page_idx + 1,
            diag_views(out@) == after_rows + series_diags(page, id@, c.cols@, c.series@, k as nat),
        decreases nseries - k,
    {
        let series = &c.series[k];
        let ghost b4 = diag_views(out@);
        let mut j: usize = 0;
        while j < series.encode_columns.len()
            invariant
                j <= series.encode_columns@.len(),
                page_idx < usize::MAX,
                page == page_idx + 1,
                diag_views(out@) == b4 + series_col_diags(page, id@, c.cols@, *series, j as nat),
            decreases series.encode_columns.len() - j,
        {
            let col = &series.encode_columns[j];
            let known = contains_key(&c.cols, col.as_str());
            let mut m = String::from_str("chart `");
            push_str(&mut m, id.as_str());
            push_str(&mut m, "` ");
            push_str(&mut m, series.kind.kind_name());
            push_str(&mut m, " series references unknown column `");
            push_str(&mut m, col.as_str());
            push_str(&mut m, "`");
            report(out, !known, page_idx, m);
            j = j + 1;
            assert(diag_views(out@) =~= b4 + series_col_diags(page, id@, c.cols@, *series, j as nat));
        }
        k = k + 1;
        assert(diag_views(out@) =~= after_rows + series_diags(page, id@, c.cols@, c.series@, k as nat));
    }
    assert(diag_views(out@) =~= before + chart_diags(page, id@, *c));
}

fn validate_element(page_idx: usize, element: &ElementFacts, theme: Option<&ThemeKeys>, out: &mut Vec<Diagnostic>)
    requires
        page_idx < usize::MAX,
    ensures
        diag_views(final(out)@) == diag_views(old(out)@) + element_diags(
            theme_opt(theme),
            (page_idx + 1) as nat,
            *element,
        ),
{
    let ghost before = diag_views(out@);
    match &element.kind {
        ElementKind::Text { style } => {
            let mut context = String::from_str("text `");
            push_str(&mut context, element.element_id.as_str());
            push_str(&mut context, "`");
            let st = match style {
                Some(s) => Some(s),
                None => None,
            };
            check_text_style_ref(theme, st, page_idx, out, context);
        },
        ElementKind::Table(t) => validate_table(page_idx, &element.element_id, t, theme, out),
        ElementKind::Chart(c) => validate_chart(page_idx, &element.element_id, c, out),
        ElementKind::Other => {
            assert(diag_views(out@) =~= before + Seq::<(Option<nat>, Seq<char>)>::empty());
        },
    }
}

/// Check element `i` of a page and append its findings.
fn check_element(theme: Option<&ThemeKeys>, elements: &Vec<ElementFacts>, i: usize, page_idx: usize, out: &mut Vec<Diagnostic>)
    requires
        i < elements@.len(),
        page_idx < usize::MAX,
    ensures
        diag_views(final(out)@) == diag_views(old(out)@) + element_step(
            theme_opt(theme),
            (page_idx + 1) as nat,
            elements@,
            (i + 1) as nat,
        ),
{
    let ghost start = diag_views(out@);
    let element = &elements[i];
    let id = element.element_id.as_str();
    let dup = id_seen_in(elements, i, id);
    let mut m = String::from_str("duplicate elementId `");
    push_str(&mut m, id);
    push_str(&mut m, "`");
    report(out, dup, page_idx, m);
    match &element.degenerate_bounds {
        Some(b) => {
            let mut m = String::from_str("element `");
            push_str(&mut m, id);
            push_str(&mut m, "` must have positive width and height, got ");
            push_str(&mut m, b.as_str());
            diag(out, page_idx, m);
        },
        None => {},
    }
    match &element.bad_opacity {
        Some(o) => {
            let mut m = String::from_str("element `");
            push_str(&mut m, id);
            push_str(&mut m, "` opacity must be in [0, 1], got ");
            push_str(&mut m, o.as_str());
            diag(out, page_idx, m);
        },
        None => {},
    }
    validate_element(page_idx, element, theme, out);
    check_color_refs(theme, id, &element.color_refs, page_idx, out);
    assert(((i + 1) as nat - 1) as int == i as int);
    assert(diag_views(out@) =~= start + element_step(theme_opt(theme), (page_idx + 1) as nat, elements@, (i + 1) as nat));
}

/// Check one page (zero-based `page_idx`) against the theme and the
/// declared layout keys, and append its findings.
pub fn validate_page(
    theme: Option<&ThemeKeys>,
    layouts: &Vec<String>,
    page_idx: usize,
    page: &PageFacts,
    out: &mut Vec<Diagnostic>,
)
    requires
        page_idx < usize::MAX,
    ensures
        diag_views(final(out)@) == diag_views(old(out)@) + page_diags(
            theme_opt(theme),
            layouts@,
            (page_idx + 1) as nat,
            *page,
        ),
{
    let ghost pg = (page_idx + 1) as nat;
    let ghost start = diag_views(out@);
    match &page.layout {
        Some(k) => {
            let known = contains_key(layouts, k.as_str());
            let mut m = String::from_str("layout `");
            push_str(&mut m, k.as_str());
            push_str(&mut m, "` is not defined in presentation.layouts");
            report(out, !known, page_idx, m);
        },
        None => {},
    }
    let ghost before = diag_views(out@);
    assert(before =~= start + layout_diags(layouts@, pg, page.layout));
    let n = page.elements.len();
    let mut i: usize = 0;
    while i < n
        invariant
            i <= n,
            n == page.elements@.len(),
            page_idx < usize::MAX,
            pg == page_idx + 1,
            diag_views(out@) == before + elements_diags(theme_opt(theme), pg, page.elements@, i as nat),
        decreases n - i,
    {
        check_element(theme, &page.elements, i, page_idx, out);
        i = i + 1;
        assert(diag_views(out@) =~= before + elements_diags(theme_opt(theme), pg, page.elements@, i as nat));
    }
    let ghost after_elements = diag_views(out@);
    match &page.animation_targets {
        Some(targets) => {
            let mut k: usize = 0;
            while k < targets.len()
                invariant
                    k <= targets@.len(),
                    n == page.elements@.len(),
                    page_idx < usize::MAX,
                    pg == page_idx + 1,
                    diag_views(out@) == after_elements + animation_diags(pg, page.elements@, targets@, k as nat),
                decreases targets.len() - k,
            {
                let t = targets[k].as_str();
                let known = id_seen_in(&page.elements, n, t);
                let mut m = String::from_str("animation references unknown elementId `");
                push_str(&mut m, t);
                push_str(&mut m, "`");
                report(out, !known, page_idx, m);
                k = k + 1;
                assert(diag_views(out@) =~= after_elements + animation_diags(pg, page.elements@, targets@, k as nat));
            }
        },
        None => {},
    }
    assert(diag_views(out@) =~= start + page_diags(theme_opt(theme), layouts@, pg, *page));
}

/// Run every check over the deck; an empty result means "valid". The size
/// finding, when present, is the deck size as text when it is not positive
/// and finite; `layouts` are the keys of the declared slide layouts.
pub fn validate_project(
    size_finding: Option<&String>,
    pages: &Vec<PageFacts>,
    theme: Option<&ThemeKeys>,
    layouts: &Vec<String>,
) -> (r: Vec<Diagnostic>)
    requires
        pages@.len() < usize::MAX,
    ensures
        diag_views(r@) == (match size_finding {
            Some(s) => seq![(None::<nat>, "size must be positive and finite, got "@ + s@)],
            None => Seq::empty(),
        }) + pages_diags(theme_opt(theme), layouts@, pages@, pages@.len()),
{
    let mut out: Vec<Diagnostic> = Vec::new();
    match size_finding {
        Some(s) => {
            let mut m = String::from_str("size must be positive and finite, got ");
            push_str(&mut m, s.as_str());
            out.push(Diagnostic { page: None, message: m });
        },
        None => {},
    }
    let ghost head = diag_views(out@);
    let mut i: usize = 0;
    while i < pages.len()
        invariant
            i <= pages@.len(),
            pages@.len() < usize::MAX,
            diag_views(out@) == head + pages_diags(theme_opt(theme), layouts@, pages@, i as nat),
        decreases pages.len() - i,
    {
        validate_page(theme, layouts, i, &pages[i], &mut out);
        i = i + 1;
        assert(diag_views(out@) =~= head + pages_diags(theme_opt(theme), layouts@, pages@, i as nat));
    }
    out
}

} // verus!
