//! The `p:txBody` of a text box: body properties, then one `a:p` per line
//! of plain text or per paragraph of rich text, each run carrying its
//! size, weight, slant, color and fonts with the box's style filling in
//! what the run leaves open.
//!
//! Lengths arrive in EMU, spacing and line heights in the DrawingML units
//! they are written in, and font sizes as the text of their hundredths of
//! a point.

use vstd::prelude::*;

use super::theme::{
    default_fonts, resolve_color, resolve_spec, theme_color_views,
};
use super::xml::{attr_views, Xml, XmlEvent};
use crate::pptd::elements::TextAutofit;
use crate::pptd::shared::{Color, FontFamily, HorizontalAlign, VerticalAlign};
use crate::text::{
    char_views, chars_of, str_eq, decimal, i64_to_string, int_text, split_chars, split_on, string_of, u64_to_string,
};

verus! {

/// The effective style of a text box.
pub struct TxLook {
    /// Insets in EMU: left, right, top, bottom.
    pub l_ins: i64,
    pub r_ins: i64,
    pub t_ins: i64,
    pub b_ins: i64,
    /// Whether lines wrap inside the box.
    pub wrap: bool,
    pub anchor: VerticalAlign,
    pub autofit: Option<TextAutofit>,
    pub align: Option<HorizontalAlign>,
    /// Line spacing in thousandths of a percent, or in hundredths of a
    /// point.
    pub line_pct: Option<u64>,
    pub line_pts: Option<u64>,
    /// List margin and first-line indent in EMU.
    pub list_margin: Option<i64>,
    pub list_indent: Option<i64>,
    pub bullet_char: Option<String>,
    pub bullet_font: Option<String>,
    /// The font size in hundredths of a point, as a run writes it.
    pub size: Option<String>,
    /// The font size in hundredths of a point, as the end of a rich
    /// paragraph writes it.
    pub end_size: Option<String>,
    pub color: Option<String>,
    pub family: Option<FontFamily>,
    pub bold: Option<bool>,
    pub italic: Option<bool>,
    /// Further `a:bodyPr` attributes carried over verbatim from an
    /// imported box.
    pub body_extras: Vec<(String, String)>,
}

/// A run of rich text with its own style (`styled` when a tag set any).
pub struct TxRun {
    pub text: String,
    pub styled: bool,
    pub size: Option<String>,
    pub end_size: Option<String>,
    pub color: Option<String>,
    pub family: Option<String>,
    pub bold: Option<bool>,
    pub italic: Option<bool>,
}

/// A paragraph of rich text: its alignment keyword, its own line
/// spacing, the spacing before it (hundredths of a point) and its runs.
pub struct TxPara {
    pub align: Option<String>,
    pub line_pct: Option<u64>,
    pub line_pts: Option<u64>,
    pub space_before: Option<u64>,
    pub runs: Vec<TxRun>,
}

/// What a text box holds.
pub enum TxContent {
    /// A placeholder with no text of its own: the renderer shows its
    /// prompt.
    EmptyPlaceholder,
    /// Plain text, one paragraph per line.
    Plain(String),
    /// Rich text paragraphs.
    Rich(Vec<TxPara>),
}

pub open spec fn text_of(o: Option<String>) -> Option<Seq<char>> {
    match o {
        Some(s) => Some(s@),
        None => None,
    }
}

// ---------------------------------------------------------------------------
// Small pieces
// ---------------------------------------------------------------------------

pub open spec fn leaf0(name: Seq<char>) -> XmlEvent {
    XmlEvent::Leaf(name, seq![])
}

pub open spec fn open_plain(name: Seq<char>) -> XmlEvent {
    XmlEvent::Open(name, seq![])
}

/// The `algn` keyword of a horizontal alignment (left when none).
pub open spec fn algn_spec(a: Option<HorizontalAlign>) -> Seq<char> {
    match a {
        Some(HorizontalAlign::Center) => "ctr"@,
        Some(HorizontalAlign::Right) => "r"@,
        Some(HorizontalAlign::Justify) => "just"@,
        Some(HorizontalAlign::Distributed) => "dist"@,
        _ => "l"@,
    }
}

fn algn_of(a: Option<HorizontalAlign>) -> (r: &'static str)
    ensures
        r@ == algn_spec(a),
{
    match a {
        Some(HorizontalAlign::Center) => "ctr",
        Some(HorizontalAlign::Right) => "r",
        Some(HorizontalAlign::Justify) => "just",
        Some(HorizontalAlign::Distributed) => "dist",
        _ => "l",
    }
}

pub open spec fn anchor_spec(a: VerticalAlign) -> Seq<char> {
    match a {
        VerticalAlign::Top => "t"@,
        VerticalAlign::Middle => "ctr"@,
        VerticalAlign::Bottom => "b"@,
    }
}

fn anchor_of(a: VerticalAlign) -> (r: &'static str)
    ensures
        r@ == anchor_spec(a),
{
    match a {
        VerticalAlign::Top => "t",
        VerticalAlign::Middle => "ctr",
        VerticalAlign::Bottom => "b",
    }
}

/// The paragraph properties' attributes: the alignment, then the list
/// margin and indent where the style sets them.
pub open spec fn ppr_attrs(algn: Seq<char>, look: TxLook) -> Seq<(Seq<char>, Seq<char>)> {
    seq![("algn"@, algn)] + (match look.list_margin {
        Some(m) => seq![("marL"@, int_text(m as int))],
        None => Seq::empty(),
    }) + (match look.list_indent {
        Some(i) => seq![("indent"@, int_text(i as int))],
        None => Seq::empty(),
    })
}

/// `a:lnSpc` in points when a point value is set (it wins over a
/// percentage), else in percent when a percentage is set.
pub open spec fn line_spacing_events(pct: Option<u64>, pts: Option<u64>) -> Seq<XmlEvent> {
    match pts {
        Some(v) => seq![
            open_plain("a:lnSpc"@),
            XmlEvent::Leaf("a:spcPts"@, seq![("val"@, decimal(v as nat))]),
            XmlEvent::Close("a:lnSpc"@),
        ],
        None => match pct {
            Some(v) => seq![
                open_plain("a:lnSpc"@),
                XmlEvent::Leaf("a:spcPct"@, seq![("val"@, decimal(v as nat))]),
                XmlEvent::Close("a:lnSpc"@),
            ],
            None => Seq::empty(),
        },
    }
}

/// The bullet of a list style: its font where set, then its character;
/// nothing without a bullet character.
pub open spec fn bullet_events(look: TxLook) -> Seq<XmlEvent> {
    match look.bullet_char {
        None => Seq::empty(),
        Some(ch) => (match look.bullet_font {
            Some(tf) => seq![XmlEvent::Leaf("a:buFont"@, seq![("typeface"@, tf@)])],
            None => Seq::empty(),
        }) + seq![XmlEvent::Leaf("a:buChar"@, seq![("char"@, ch@)])],
    }
}

/// The `a:alpha` value of an alpha byte: the byte's share of 255 in
/// thousandths of a percent, rounded half up.
pub open spec fn alpha_val_spec(a: u8) -> nat {
    ((2 * (a as nat) * 100000 + 255) / 510) as nat
}

/// The `a:alpha` value of an alpha byte.
pub fn alpha_val(a: u8) -> (r: u64)
    ensures
        r as nat == alpha_val_spec(a),
{
    let a64 = a as u64;
    (2 * a64 * 100000 + 255) / 510
}

/// A solid fill of an RGB color with an optional alpha byte.
pub open spec fn solid_fill_events(rgb: Seq<char>, alpha: Option<u8>) -> Seq<XmlEvent> {
    seq![open_plain("a:solidFill"@), XmlEvent::Open("a:srgbClr"@, seq![("val"@, rgb)])] + (match alpha {
        Some(a) => seq![XmlEvent::Leaf("a:alpha"@, seq![("val"@, decimal(alpha_val_spec(a)))])],
        None => Seq::empty(),
    }) + seq![XmlEvent::Close("a:srgbClr"@), XmlEvent::Close("a:solidFill"@)]
}

// ---------------------------------------------------------------------------
// Runs
// ---------------------------------------------------------------------------

/// The size a run writes: its own, else the box's, else 18 pt.
pub open spec fn run_size(look: TxLook, run: Option<TxRun>) -> Seq<char> {
    let own = match run {
        Some(r) => text_of(r.size),
        None => None,
    };
    match own {
        Some(v) => v,
        None => match text_of(look.size) {
            Some(v) => v,
            None => "1800"@,
        },
    }
}

/// The box's Latin and East Asian fonts (`MiSans` when it names none).
pub open spec fn look_fonts(look: TxLook) -> (Seq<char>, Seq<char>) {
    match look.family {
        Some(FontFamily::Single(n)) => (n@, n@),
        Some(FontFamily::Bilingual { latin, ea }) => (latin@, ea@),
        None => ("MiSans"@, "MiSans"@),
    }
}

/// The fonts a run writes: its own family for both scripts, else the
/// box's.
pub open spec fn run_fonts(look: TxLook, run: Option<TxRun>) -> (Seq<char>, Seq<char>) {
    match run {
        Some(r) => match r.family {
            Some(f) => (f@, f@),
            None => look_fonts(look),
        },
        None => look_fonts(look),
    }
}

/// The color a run is written in: its own, else the box's, else black.
pub open spec fn run_color(look: TxLook, run: Option<TxRun>) -> Seq<char> {
    let own = match run {
        Some(r) => text_of(r.color),
        None => None,
    };
    match own {
        Some(v) => v,
        None => match text_of(look.color) {
            Some(v) => v,
            None => "#000000"@,
        },
    }
}

/// A run's color resolved against the theme; black when it does not
/// resolve.
pub open spec fn run_rgb(colors: Option<Seq<(Seq<char>, Seq<char>)>>, look: TxLook, run: Option<TxRun>) -> (Seq<char>, Option<u8>) {
    match resolve_spec(colors, run_color(look, run)) {
        Ok((rgb, a)) => (rgb, a),
        Err(_) => ("000000"@, None),
    }
}

/// Whether a run is bold: its own setting, else the box's.
pub open spec fn run_bold(look: TxLook, run: Option<TxRun>) -> bool {
    match run {
        Some(r) => match r.bold {
            Some(b) => b,
            None => look.bold == Some(true),
        },
        None => look.bold == Some(true),
    }
}

pub open spec fn run_italic(look: TxLook, run: Option<TxRun>) -> bool {
    match run {
        Some(r) => match r.italic {
            Some(b) => b,
            None => look.italic == Some(true),
        },
        None => look.italic == Some(true),
    }
}

/// The run properties' attributes.
pub open spec fn rpr_attrs(look: TxLook, run: Option<TxRun>) -> Seq<(Seq<char>, Seq<char>)> {
    seq![("lang"@, "en-US"@), ("sz"@, run_size(look, run)), ("noProof"@, "1"@)] + (if run_bold(look, run) {
        seq![("b"@, "1"@)]
    } else {
        Seq::empty()
    }) + (if run_italic(look, run) {
        seq![("i"@, "1"@)]
    } else {
        Seq::empty()
    })
}

/// One run: its properties (size, weight, slant, fill, fonts) and text.
pub open spec fn run_events(
    colors: Option<Seq<(Seq<char>, Seq<char>)>>,
    look: TxLook,
    run: Option<TxRun>,
    text: Seq<char>,
) -> Seq<XmlEvent> {
    let (rgb, alpha) = run_rgb(colors, look, run);
    let (latin, ea) = run_fonts(look, run);
    seq![open_plain("a:r"@), XmlEvent::Open("a:rPr"@, rpr_attrs(look, run))] + solid_fill_events(rgb, alpha)
        + seq![
        XmlEvent::Leaf("a:latin"@, seq![("typeface"@, latin)]),
        XmlEvent::Leaf("a:ea"@, seq![("typeface"@, ea)]),
        XmlEvent::Close("a:rPr"@),
        XmlEvent::TextElem("a:t"@, seq![], text),
        XmlEvent::Close("a:r"@),
    ]
}

fn own_text(o: &Option<String>) -> (r: Option<&str>)
    ensures
        match r {
            Some(v) => text_of(*o) == Some(v@),
            None => text_of(*o) is None,
        },
{
    match o {
        Some(s) => Some(s.as_str()),
        None => None,
    }
}

fn size_of_run<'a>(look: &'a TxLook, run: Option<&'a TxRun>) -> (r: &'a str)
    ensures
        r@ == run_size(*look, match run {
            Some(r) => Some(*r),
            None => None,
        }),
{
    let own = match run {
        Some(r) => own_text(&r.size),
        None => None,
    };
    match own {
        Some(v) => v,
        None => match own_text(&look.size) {
            Some(v) => v,
            None => "1800",
        },
    }
}

fn color_of_run(look: &TxLook, run: Option<&TxRun>) -> (r: String)
    ensures
        r@ == run_color(*look, match run {
            Some(r) => Some(*r),
            None => None,
        }),
{
    let own = match run {
        Some(r) => own_text(&r.color),
        None => None,
    };
    match own {
        Some(v) => v.to_string(),
        None => match own_text(&look.color) {
            Some(v) => v.to_string(),
            None => "#000000".to_string(),
        },
    }
}

fn fonts_of_run(look: &TxLook, run: Option<&TxRun>) -> (r: (String, String))
    ensures
        (r.0@, r.1@) == run_fonts(*look, match run {
            Some(r) => Some(*r),
            None => None,
        }),
{
    match run {
        Some(r) => match &r.family {
            Some(f) => {
                return (f.clone(), f.clone());
            },
            None => {},
        },
        None => {},
    }
    default_fonts(look.family.as_ref())
}

fn push_attr<'a>(attrs: &mut Vec<(&'a str, &'a str)>, k: &'a str, v: &'a str)
    ensures
        attr_views(final(attrs)@) == attr_views(old(attrs)@).push((k@, v@)),
{
    let ghost before = attrs@;
    attrs.push((k, v));
    assert(attr_views(attrs@) =~= attr_views(before).push((k@, v@)));
}

fn emit_solid_fill(x: &mut Xml, rgb: &str, alpha: Option<u8>)
    requires
        old(x).depth() + 2 < usize::MAX,
    ensures
        final(x).events() == old(x).events() + solid_fill_events(rgb@, alpha),
        final(x).depth() == old(x).depth(),
        final(x).head() == old(x).head(),
{
    let ghost e0 = x.events();
    x.open("a:solidFill");
    x.open_with("a:srgbClr", "val", rgb);
    if let Some(a) = alpha {
        let v = u64_to_string(alpha_val(a));
        x.leaf_with("a:alpha", "val", v.as_str());
    }
    x.end("a:srgbClr");
    x.end("a:solidFill");
    assert(x.events() =~= e0 + solid_fill_events(rgb@, alpha));
}

/// Write one run.
#[verifier::spinoff_prover]
#[verifier::rlimit(40)]
fn emit_run(x: &mut Xml, colors: Option<&[(String, String)]>, look: &TxLook, run: Option<&TxRun>, text: &str)
    requires
        old(x).depth() + 4 < usize::MAX,
    ensures
        final(x).events() == old(x).events() + run_events(theme_color_views(colors), *look, match run {
            Some(r) => Some(*r),
            None => None,
        }, text@),
        final(x).depth() == old(x).depth(),
        final(x).head() == old(x).head(),
{
    let ghost e0 = x.events();
    let ghost rv = match run {
        Some(r) => Some(*r),
        None => None,
    };
    let sz = size_of_run(look, run);
    let bold = match run {
        Some(r) => match r.bold {
            Some(b) => b,
            None => look.bold == Some(true),
        },
        None => look.bold == Some(true),
    };
    let italic = match run {
        Some(r) => match r.italic {
            Some(b) => b,
            None => look.italic == Some(true),
        },
        None => look.italic == Some(true),
    };
    let mut attrs: Vec<(&str, &str)> = Vec::new();
    push_attr(&mut attrs, "lang", "en-US");
    push_attr(&mut attrs, "sz", sz);
    push_attr(&mut attrs, "noProof", "1");
    if bold {
        push_attr(&mut attrs, "b", "1");
    }
    if italic {
        push_attr(&mut attrs, "i", "1");
    }
    assert(attr_views(attrs@) =~= rpr_attrs(*look, rv));
    x.open("a:r");
    x.start("a:rPr", attrs.as_slice());
    let color = Color(color_of_run(look, run));
    let (rgb, alpha) = match resolve_color(colors, &color) {
        Ok(v) => (v.rgb, v.alpha),
        Err(_) => ("000000".to_string(), None),
    };
    assert((rgb@, alpha) == run_rgb(theme_color_views(colors), *look, rv));
    emit_solid_fill(x, rgb.as_str(), alpha);
    let (latin, ea) = fonts_of_run(look, run);
    x.leaf_with("a:latin", "typeface", latin.as_str());
    x.leaf_with("a:ea", "typeface", ea.as_str());
    x.end("a:rPr");
    x.text_elem("a:t", text);
    x.end("a:r");
    assert(x.events() =~= e0 + run_events(theme_color_views(colors), *look, rv, text@));
}

// ---------------------------------------------------------------------------
// Paragraphs
// ---------------------------------------------------------------------------

/// The paragraph properties: alignment, list margin and indent, line
/// spacing, spacing before, bullet.
pub open spec fn ppr_events(
    algn: Seq<char>,
    look: TxLook,
    pct: Option<u64>,
    pts: Option<u64>,
    before: Option<u64>,
) -> Seq<XmlEvent> {
    seq![XmlEvent::Open("a:pPr"@, ppr_attrs(algn, look))] + line_spacing_events(pct, pts) + space_before_events(
        before,
    ) + bullet_events(look) + seq![XmlEvent::Close("a:pPr"@)]
}

/// The end-of-paragraph properties with a size.
pub open spec fn end_ppr_event(size: Seq<char>) -> XmlEvent {
    XmlEvent::Leaf("a:endParaRPr"@, seq![("lang"@, "en-US"@), ("sz"@, size), ("noProof"@, "1"@)])
}

/// One line of plain text: a paragraph in the box's style with a single
/// run.
pub open spec fn plain_para_events(colors: Option<Seq<(Seq<char>, Seq<char>)>>, look: TxLook, line: Seq<char>) -> Seq<
    XmlEvent,
> {
    seq![open_plain("a:p"@)] + ppr_events(algn_spec(look.align), look, look.line_pct, look.line_pts, None)
        + run_events(colors, look, None, line) + seq![end_ppr_event(run_size(look, None)), XmlEvent::Close("a:p"@)]
}

pub open spec fn plain_paras_events(colors: Option<Seq<(Seq<char>, Seq<char>)>>, look: TxLook, lines: Seq<Seq<char>>) -> Seq<
    XmlEvent,
>
    decreases lines.len(),
{
    if lines.len() == 0 {
        Seq::empty()
    } else {
        plain_paras_events(colors, look, lines.drop_last()) + plain_para_events(colors, look, lines.last())
    }
}

/// A run as it styles itself: only when a tag set something.
pub open spec fn styled_run(r: TxRun) -> Option<TxRun> {
    if r.styled {
        Some(r)
    } else {
        None
    }
}

pub open spec fn runs_events(colors: Option<Seq<(Seq<char>, Seq<char>)>>, look: TxLook, runs: Seq<TxRun>) -> Seq<XmlEvent>
    decreases runs.len(),
{
    if runs.len() == 0 {
        Seq::empty()
    } else {
        runs_events(colors, look, runs.drop_last()) + run_events(
            colors,
            look,
            styled_run(runs.last()),
            runs.last().text@,
        )
    }
}

/// The size the end of a rich paragraph writes: that of its first run
/// with a size, else the box's, else 18 pt.
pub open spec fn first_end_size(runs: Seq<TxRun>, k: int) -> Option<Seq<char>>
    decreases runs.len() - k,
{
    if k < 0 || k >= runs.len() {
        None
    } else {
        match runs[k].end_size {
            Some(v) => Some(v@),
            None => first_end_size(runs, k + 1),
        }
    }
}

pub open spec fn end_size_spec(look: TxLook, runs: Seq<TxRun>) -> Seq<char> {
    match first_end_size(runs, 0) {
        Some(v) => v,
        None => match text_of(look.end_size) {
            Some(v) => v,
            None => "1800"@,
        },
    }
}

/// The alignment keyword of a rich paragraph: its own, else the box's.
pub open spec fn rich_algn(look: TxLook, p: TxPara) -> Seq<char> {
    match p.align {
        Some(a) => a@,
        None => algn_spec(look.align),
    }
}

/// One rich paragraph: its properties (line spacing only when it has
/// runs, its own before the box's), its runs, and its end properties
/// when it has runs.
pub open spec fn rich_para_events(colors: Option<Seq<(Seq<char>, Seq<char>)>>, look: TxLook, p: TxPara) -> Seq<XmlEvent> {
    let has_runs = p.runs@.len() > 0;
    let pct = if has_runs {
        match p.line_pct {
            Some(v) => Some(v),
            None => look.line_pct,
        }
    } else {
        None
    };
    let pts = if has_runs {
        match p.line_pts {
            Some(v) => Some(v),
            None => look.line_pts,
        }
    } else {
        None
    };
    seq![open_plain("a:p"@)] + ppr_events(rich_algn(look, p), look, pct, pts, p.space_before) + runs_events(
        colors,
        look,
        p.runs@,
    ) + (if has_runs {
        seq![end_ppr_event(end_size_spec(look, p.runs@))]
    } else {
        Seq::empty()
    }) + seq![XmlEvent::Close("a:p"@)]
}

pub open spec fn rich_paras_events(colors: Option<Seq<(Seq<char>, Seq<char>)>>, look: TxLook, ps: Seq<TxPara>) -> Seq<XmlEvent>
    decreases ps.len(),
{
    if ps.len() == 0 {
        Seq::empty()
    } else {
        rich_paras_events(colors, look, ps.drop_last()) + rich_para_events(colors, look, ps.last())
    }
}

fn emit_line_spacing(x: &mut Xml, pct: Option<u64>, pts: Option<u64>)
    requires
        old(x).depth() + 2 < usize::MAX,
    ensures
        final(x).events() == old(x).events() + line_spacing_events(pct, pts),
        final(x).depth() == old(x).depth(),
        final(x).head() == old(x).head(),
{
    let ghost e1 = x.events();
    match pts {
        Some(v) => {
            let t = u64_to_string(v);
            x.open("a:lnSpc");
            x.leaf_with("a:spcPts", "val", t.as_str());
            x.end("a:lnSpc");
        },
        None => match pct {
            Some(v) => {
                let t = u64_to_string(v);
                x.open("a:lnSpc");
                x.leaf_with("a:spcPct", "val", t.as_str());
                x.end("a:lnSpc");
            },
            None => {},
        },
    }
    assert(x.events() =~= e1 + line_spacing_events(pct, pts));
}

pub open spec fn space_before_events(before: Option<u64>) -> Seq<XmlEvent> {
    match before {
        Some(v) => seq![
            open_plain("a:spcBef"@),
            XmlEvent::Leaf("a:spcPts"@, seq![("val"@, decimal(v as nat))]),
            XmlEvent::Close("a:spcBef"@),
        ],
        None => Seq::empty(),
    }
}

fn emit_space_before(x: &mut Xml, before: Option<u64>)
    requires
        old(x).depth() + 2 < usize::MAX,
    ensures
        final(x).events() == old(x).events() + space_before_events(before),
        final(x).depth() == old(x).depth(),
        final(x).head() == old(x).head(),
{
    let ghost e1 = x.events();
    if let Some(v) = before {
        let t = u64_to_string(v);
        x.open("a:spcBef");
        x.leaf_with("a:spcPts", "val", t.as_str());
        x.end("a:spcBef");
    }
    assert(x.events() =~= e1 + space_before_events(before));
}

fn emit_bullets(x: &mut Xml, look: &TxLook)
    ensures
        final(x).events() == old(x).events() + bullet_events(*look),
        final(x).depth() == old(x).depth(),
        final(x).head() == old(x).head(),
{
    let ghost e1 = x.events();
    if let Some(ch) = &look.bullet_char {
        if let Some(tf) = &look.bullet_font {
            x.leaf_with("a:buFont", "typeface", tf.as_str());
        }
        x.leaf_with("a:buChar", "char", ch.as_str());
    }
    assert(x.events() =~= e1 + bullet_events(*look));
}

fn emit_ppr(x: &mut Xml, algn: &str, look: &TxLook, pct: Option<u64>, pts: Option<u64>, before: Option<u64>)
    requires
        old(x).depth() + 3 < usize::MAX,
    ensures
        final(x).events() == old(x).events() + ppr_events(algn@, *look, pct, pts, before),
        final(x).depth() == old(x).depth(),
        final(x).head() == old(x).head(),
{
    let ghost e0 = x.events();
    let mar = match look.list_margin {
        Some(m) => Some(i64_to_string(m)),
        None => None,
    };
    let ind = match look.list_indent {
        Some(i) => Some(i64_to_string(i)),
        None => None,
    };
    let mut attrs: Vec<(&str, &str)> = Vec::new();
    push_attr(&mut attrs, "algn", algn);
    if let Some(m) = &mar {
        push_attr(&mut attrs, "marL", m.as_str());
    }
    if let Some(i) = &ind {
        push_attr(&mut attrs, "indent", i.as_str());
    }
    assert(attr_views(attrs@) =~= ppr_attrs(algn@, *look));
    x.start("a:pPr", attrs.as_slice());
    emit_line_spacing(x, pct, pts);
    emit_space_before(x, before);
    emit_bullets(x, look);
    x.end("a:pPr");
    assert(x.events() =~= e0 + ppr_events(algn@, *look, pct, pts, before));
}

fn emit_end_ppr(x: &mut Xml, size: &str)
    ensures
        final(x).events() == old(x).events().push(end_ppr_event(size@)),
        final(x).depth() == old(x).depth(),
        final(x).head() == old(x).head(),
{
    let attrs = [("lang", "en-US"), ("sz", size), ("noProof", "1")];
    assert(attr_views(attrs@) =~= seq![("lang"@, "en-US"@), ("sz"@, size@), ("noProof"@, "1"@)]);
    x.leaf("a:endParaRPr", &attrs);
}

#[verifier::spinoff_prover]
fn emit_plain_para(x: &mut Xml, colors: Option<&[(String, String)]>, look: &TxLook, line: &str)
    requires
        old(x).depth() + 6 < usize::MAX,
    ensures
        final(x).events() == old(x).events() + plain_para_events(theme_color_views(colors), *look, line@),
        final(x).depth() == old(x).depth(),
        final(x).head() == old(x).head(),
{
    let ghost e0 = x.events();
    x.open("a:p");
    emit_ppr(x, algn_of(look.align), look, look.line_pct, look.line_pts, None);
    emit_run(x, colors, look, None, line);
    let sz = size_of_run(look, None);
    emit_end_ppr(x, sz);
    x.end("a:p");
    assert(x.events() =~= e0 + plain_para_events(theme_color_views(colors), *look, line@));
}

fn end_size_of<'a>(look: &'a TxLook, runs: &'a Vec<TxRun>) -> (r: &'a str)
    ensures
        r@ == end_size_spec(*look, runs@),
{
    let mut k: usize = 0;
    while k < runs.len()
        invariant
            k <= runs.len(),
            first_end_size(runs@, 0) == first_end_size(runs@, k as int),
        decreases runs.len() - k,
    {
        if let Some(v) = &runs[k].end_size {
            return v.as_str();
        }
        k = k + 1;
    }
    match own_text(&look.end_size) {
        Some(v) => v,
        None => "1800",
    }
}

#[verifier::spinoff_prover]
#[verifier::rlimit(40)]
fn emit_rich_para(x: &mut Xml, colors: Option<&[(String, String)]>, look: &TxLook, p: &TxPara)
    requires
        old(x).depth() + 6 < usize::MAX,
    ensures
        final(x).events() == old(x).events() + rich_para_events(theme_color_views(colors), *look, *p),
        final(x).depth() == old(x).depth(),
        final(x).head() == old(x).head(),
{
    let ghost e0 = x.events();
    let ghost cv = theme_color_views(colors);
    let has_runs = p.runs.len() > 0;
    let pct = if has_runs {
        match p.line_pct {
            Some(v) => Some(v),
            None => look.line_pct,
        }
    } else {
        None
    };
    let pts = if has_runs {
        match p.line_pts {
            Some(v) => Some(v),
            None => look.line_pts,
        }
    } else {
        None
    };
    let algn: &str = match &p.align {
        Some(a) => a.as_str(),
        None => algn_of(look.align),
    };
    x.open("a:p");
    emit_ppr(x, algn, look, pct, pts, p.space_before);
    let ghost e1 = x.events();
    let mut k: usize = 0;
    while k < p.runs.len()
        invariant
            k <= p.runs.len(),
            x.depth() == old(x).depth() + 1,
            old(x).depth() + 6 < usize::MAX,
            x.head() == old(x).head(),
            cv == theme_color_views(colors),
            x.events() == e1 + runs_events(cv, *look, p.runs@.take(k as int)),
        decreases p.runs.len() - k,
    {
        let r = &p.runs[k];
        let own: Option<&TxRun> = if r.styled {
            Some(r)
        } else {
            None
        };
        emit_run(x, colors, look, own, r.text.as_str());
        assert(p.runs@.take(k + 1).drop_last() =~= p.runs@.take(k as int));
        k = k + 1;
    }
    assert(p.runs@.take(k as int) =~= p.runs@);
    if has_runs {
        let sz = end_size_of(look, &p.runs);
        emit_end_ppr(x, sz);
    }
    x.end("a:p");
    assert(x.events() =~= e0 + rich_para_events(cv, *look, *p));
}

// ---------------------------------------------------------------------------
// The body
// ---------------------------------------------------------------------------

/// Attribute pairs as text.
pub open spec fn pair_views(ps: Seq<(String, String)>) -> Seq<(Seq<char>, Seq<char>)> {
    ps.map_values(|p: (String, String)| (p.0@, p.1@))
}

/// The body properties: insets, wrapping, columns, anchor, then the
/// carried-over attributes in their order.
pub open spec fn body_pr_attrs(look: TxLook) -> Seq<(Seq<char>, Seq<char>)> {
    seq![
        ("lIns"@, int_text(look.l_ins as int)),
        ("rIns"@, int_text(look.r_ins as int)),
        ("tIns"@, int_text(look.t_ins as int)),
        ("bIns"@, int_text(look.b_ins as int)),
        ("wrap"@, if look.wrap {
            "square"@
        } else {
            "none"@
        }),
        ("rtlCol"@, "0"@),
        ("anchor"@, anchor_spec(look.anchor)),
    ] + pair_views(look.body_extras@)
}

pub open spec fn autofit_events(a: Option<TextAutofit>) -> Seq<XmlEvent> {
    match a {
        Some(TextAutofit::FitShape) => seq![leaf0("a:spAutoFit"@)],
        Some(TextAutofit::FitText) => seq![leaf0("a:normAutofit"@)],
        Some(TextAutofit::Fixed) => seq![leaf0("a:noAutofit"@)],
        None => Seq::empty(),
    }
}

/// The opening of a text body with its body properties and empty list
/// style.
pub open spec fn body_head_events(look: TxLook) -> Seq<XmlEvent> {
    seq![open_plain("p:txBody"@), XmlEvent::Open("a:bodyPr"@, body_pr_attrs(look))] + autofit_events(look.autofit)
        + seq![XmlEvent::Close("a:bodyPr"@), leaf0("a:lstStyle"@)]
}

/// The text body of a box: for a placeholder without text, bare body
/// properties and one empty paragraph, so the renderer shows the
/// placeholder's prompt; for plain text, one paragraph per line; for
/// rich text, one per paragraph.
pub open spec fn tx_body_events(colors: Option<Seq<(Seq<char>, Seq<char>)>>, look: TxLook, content: TxContent) -> Seq<
    XmlEvent,
> {
    match content {
        TxContent::EmptyPlaceholder => seq![
            open_plain("p:txBody"@),
            XmlEvent::Leaf("a:bodyPr"@, seq![("anchor"@, anchor_spec(look.anchor)), ("wrap"@, "square"@)]),
            leaf0("a:lstStyle"@),
            leaf0("a:p"@),
            XmlEvent::Close("p:txBody"@),
        ],
        TxContent::Plain(t) => body_head_events(look) + plain_paras_events(colors, look, split_on(t@, '\n'))
            + seq![XmlEvent::Close("p:txBody"@)],
        TxContent::Rich(ps) => body_head_events(look) + rich_paras_events(colors, look, ps@) + seq![
            XmlEvent::Close("p:txBody"@),
        ],
    }
}

fn emit_body_head(x: &mut Xml, look: &TxLook)
    requires
        old(x).depth() + 2 < usize::MAX,
    ensures
        final(x).events() == old(x).events() + body_head_events(*look),
        final(x).depth() == old(x).depth() + 1,
        final(x).head() == old(x).head(),
{
    let ghost e0 = x.events();
    let l = i64_to_string(look.l_ins);
    let r = i64_to_string(look.r_ins);
    let t = i64_to_string(look.t_ins);
    let b = i64_to_string(look.b_ins);
    let wrap = if look.wrap {
        "square"
    } else {
        "none"
    };
    let mut attrs: Vec<(&str, &str)> = Vec::new();
    push_attr(&mut attrs, "lIns", l.as_str());
    push_attr(&mut attrs, "rIns", r.as_str());
    push_attr(&mut attrs, "tIns", t.as_str());
    push_attr(&mut attrs, "bIns", b.as_str());
    push_attr(&mut attrs, "wrap", wrap);
    push_attr(&mut attrs, "rtlCol", "0");
    push_attr(&mut attrs, "anchor", anchor_of(look.anchor));
    let ghost head = attr_views(attrs@);
    let mut k: usize = 0;
    while k < look.body_extras.len()
        invariant
            k <= look.body_extras.len(),
            attr_views(attrs@) == head + pair_views(look.body_extras@.take(k as int)),
        decreases look.body_extras.len() - k,
    {
        let (key, value) = &look.body_extras[k];
        push_attr(&mut attrs, key.as_str(), value.as_str());
        assert(pair_views(look.body_extras@.take(k + 1)) =~= pair_views(look.body_extras@.take(k as int)).push(
            (key@, value@),
        ));
        k = k + 1;
    }
    assert(look.body_extras@.take(k as int) =~= look.body_extras@);
    assert(attr_views(attrs@) =~= body_pr_attrs(*look));
    x.open("p:txBody");
    x.start("a:bodyPr", attrs.as_slice());
    match look.autofit {
        Some(TextAutofit::FitShape) => x.empty("a:spAutoFit"),
        Some(TextAutofit::FitText) => x.empty("a:normAutofit"),
        Some(TextAutofit::Fixed) => x.empty("a:noAutofit"),
        None => {},
    }
    x.end("a:bodyPr");
    x.empty("a:lstStyle");
    assert(x.events() =~= e0 + body_head_events(*look));
}

/// Write the text body of a box.
pub fn emit_tx_body(x: &mut Xml, colors: Option<&[(String, String)]>, look: &TxLook, content: &TxContent)
    requires
        old(x).depth() + 8 < usize::MAX,
    ensures
        final(x).events() == old(x).events() + tx_body_events(theme_color_views(colors), *look, *content),
        final(x).depth() == old(x).depth(),
        final(x).head() == old(x).head(),
{
    let ghost e0 = x.events();
    let ghost cv = theme_color_views(colors);
    match content {
        TxContent::EmptyPlaceholder => {
            let attrs = [("anchor", anchor_of(look.anchor)), ("wrap", "square")];
            assert(attr_views(attrs@) =~= seq![("anchor"@, anchor_spec(look.anchor)), ("wrap"@, "square"@)]);
            x.open("p:txBody");
            x.leaf("a:bodyPr", &attrs);
            x.empty("a:lstStyle");
            x.empty("a:p");
            x.end("p:txBody");
            assert(x.events() =~= e0 + tx_body_events(cv, *look, *content));
        },
        TxContent::Plain(text) => {
            emit_body_head(x, look);
            let ghost e1 = x.events();
            let lines = split_chars(&chars_of(text.as_str()), '\n');
            let ghost ls = char_views(lines@);
            let mut k: usize = 0;
            while k < lines.len()
                invariant
                    k <= lines.len(),
                    ls == char_views(lines@),
                    ls == split_on(text@, '\n'),
                    x.depth() == old(x).depth() + 1,
                    old(x).depth() + 8 < usize::MAX,
                    x.head() == old(x).head(),
                    cv == theme_color_views(colors),
                    x.events() == e1 + plain_paras_events(cv, *look, ls.take(k as int)),
                decreases lines.len() - k,
            {
                let line = string_of(&lines[k]);
                assert(line@ == ls[k as int]);
                emit_plain_para(x, colors, look, line.as_str());
                assert(ls.take(k + 1).drop_last() =~= ls.take(k as int));
                k = k + 1;
            }
            assert(ls.take(k as int) =~= ls);
            x.end("p:txBody");
            assert(x.events() =~= e0 + tx_body_events(cv, *look, *content));
        },
        TxContent::Rich(paras) => {
            emit_body_head(x, look);
            let ghost e1 = x.events();
            let mut k: usize = 0;
            while k < paras.len()
                invariant
                    k <= paras.len(),
                    x.depth() == old(x).depth() + 1,
                    old(x).depth() + 8 < usize::MAX,
                    x.head() == old(x).head(),
                    cv == theme_color_views(colors),
                    x.events() == e1 + rich_paras_events(cv, *look, paras@.take(k as int)),
                decreases paras.len() - k,
            {
                emit_rich_para(x, colors, look, &paras[k]);
                assert(paras@.take(k + 1).drop_last() =~= paras@.take(k as int));
                k = k + 1;
            }
            assert(paras@.take(k as int) =~= paras@);
            x.end("p:txBody");
            assert(x.events() =~= e0 + tx_body_events(cv, *look, *content));
        },
    }
}

// ---------------------------------------------------------------------------
// Carried-over body attributes
// ---------------------------------------------------------------------------

/// The `a:bodyPr` attributes that the importer reads into fields of their
/// own: insets, wrapping, columns direction, anchor and text direction.
pub open spec fn known_body_attr(k: Seq<char>) -> bool {
    k == "lIns"@ || k == "tIns"@ || k == "rIns"@ || k == "bIns"@ || k == "wrap"@ || k == "rtlCol"@ || k
        == "anchor"@ || k == "vert"@
}

/// The attributes an imported box carries over verbatim: all but the
/// known ones, in their order.
pub open spec fn carried_spec(attrs: Seq<(Seq<char>, Seq<char>)>) -> Seq<(Seq<char>, Seq<char>)>
    decreases attrs.len(),
{
    if attrs.len() == 0 {
        Seq::empty()
    } else {
        carried_spec(attrs.drop_last()) + if known_body_attr(attrs.last().0) {
            Seq::empty()
        } else {
            seq![attrs.last()]
        }
    }
}

fn is_known_body_attr(k: &str) -> (r: bool)
    ensures
        r == known_body_attr(k@),
{
    str_eq(k, "lIns") || str_eq(k, "tIns") || str_eq(k, "rIns") || str_eq(k, "bIns") || str_eq(k, "wrap")
        || str_eq(k, "rtlCol") || str_eq(k, "anchor") || str_eq(k, "vert")
}

/// The `a:bodyPr` attributes an imported box carries over verbatim.
pub fn carried_body_attrs(attrs: &Vec<(String, String)>) -> (r: Vec<(String, String)>)
    ensures
        pair_views(r@) == carried_spec(pair_views(attrs@)),
{
    let ghost all = pair_views(attrs@);
    let mut r: Vec<(String, String)> = Vec::new();
    let mut k: usize = 0;
    assert(pair_views(r@) =~= carried_spec(all.take(0)));
    while k < attrs.len()
        invariant
            k <= attrs.len(),
            all == pair_views(attrs@),
            pair_views(r@) == carried_spec(all.take(k as int)),
        decreases attrs.len() - k,
    {
        let (key, value) = &attrs[k];
        assert(all.take(k + 1).drop_last() =~= all.take(k as int));
        assert(all.take(k + 1).last() == (key@, value@));
        if !is_known_body_attr(key.as_str()) {
            let ghost before = r@;
            r.push((key.clone(), value.clone()));
            assert(pair_views(r@) =~= pair_views(before).push((key@, value@)));
        }
        assert(pair_views(r@) =~= carried_spec(all.take(k + 1)));
        k = k + 1;
    }
    assert(all.take(k as int) =~= all);
    r
}

proof fn lemma_carried_concat(a: Seq<(Seq<char>, Seq<char>)>, b: Seq<(Seq<char>, Seq<char>)>)
    ensures
        carried_spec(a + b) == carried_spec(a) + carried_spec(b),
    decreases b.len(),
{
    if b.len() == 0 {
        assert(a + b =~= a);
        assert(carried_spec(a) + carried_spec(b) =~= carried_spec(a));
    } else {
        lemma_carried_concat(a, b.drop_last());
        assert((a + b).drop_last() =~= a + b.drop_last());
        assert((a + b).last() == b.last());
        assert(carried_spec(a) + carried_spec(b.drop_last()) + (if known_body_attr(b.last().0) {
            Seq::empty()
        } else {
            seq![b.last()]
        }) =~= carried_spec(a) + carried_spec(b));
    }
}

proof fn lemma_carried_unknown(attrs: Seq<(Seq<char>, Seq<char>)>)
    requires
        forall|i: int| 0 <= i < attrs.len() ==> !known_body_attr(#[trigger] attrs[i].0),
    ensures
        carried_spec(attrs) == attrs,
    decreases attrs.len(),
{
    if attrs.len() > 0 {
        lemma_carried_unknown(attrs.drop_last());
        assert(!known_body_attr(attrs[attrs.len() - 1].0));
        assert(attrs.drop_last().push(attrs.last()) =~= attrs);
    } else {
        assert(attrs =~= Seq::<(Seq<char>, Seq<char>)>::empty());
    }
}

/// Carried-over body attributes survive a build and an import: from the
/// body properties written for a box, the importer carries over exactly
/// the box's extra attributes, in their order, whenever none of them is
/// one the importer reads into a field of its own.
pub proof fn lemma_body_extras_round_trip(look: TxLook)
    requires
        forall|i: int|
            0 <= i < look.body_extras@.len() ==> !known_body_attr(#[trigger] look.body_extras@[i].0@),
    ensures
        carried_spec(body_pr_attrs(look)) == pair_views(look.body_extras@),
{
    let std = body_pr_attrs(look).take(7);
    let extras = pair_views(look.body_extras@);
    assert(body_pr_attrs(look) =~= std + extras);
    lemma_carried_concat(std, extras);
    assert(carried_spec(std) =~= Seq::<(Seq<char>, Seq<char>)>::empty()) by {
        reveal_with_fuel(carried_spec, 8);
    }
    assert forall|i: int| 0 <= i < extras.len() implies !known_body_attr(#[trigger] extras[i].0) by {
        assert(extras[i].0 == look.body_extras@[i].0@);
    }
    lemma_carried_unknown(extras);
}

} // verus!
