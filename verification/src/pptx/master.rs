//! The synthesized slide master: a white background, the standard color
//! map, one entry per slide layout, and the deck's title / body / other
//! text styles, which placeholder shapes inherit through the OOXML chain.

use vstd::prelude::*;

use super::theme::opt_text;
use super::writer::{group_prolog, group_prolog_events, leaf2, open0, pml_root_attrs};
use super::xml::{attr_views, prolog, render_events, Xml, XmlEvent};
use crate::text::{chars_of, decimal, push_str, string_of, suffix_chars, u64_to_string, usize_to_string};

verus! {

/// The paragraph defaults of one master text style, in DrawingML units:
/// line spacing in thousandths of a percent (`spcPct`), space before in
/// hundredths of a point (`spcPts`), the run size in hundredths of a
/// point, a color and a single font family.
#[derive(Debug, Clone, PartialEq)]
pub struct TxStyle {
    pub line_spacing: Option<u64>,
    pub space_before: Option<u64>,
    pub size: Option<u64>,
    pub color: Option<String>,
    pub font: Option<String>,
}

/// The values of a [`TxStyle`].
pub struct TxStyleV {
    pub line_spacing: Option<u64>,
    pub space_before: Option<u64>,
    pub size: Option<u64>,
    pub color: Option<Seq<char>>,
    pub font: Option<Seq<char>>,
}

impl View for TxStyle {
    type V = TxStyleV;

    open spec fn view(&self) -> TxStyleV {
        TxStyleV {
            line_spacing: self.line_spacing,
            space_before: self.space_before,
            size: self.size,
            color: opt_text(self.color),
            font: opt_text(self.font),
        }
    }
}

pub open spec fn style_view(s: Option<&TxStyle>) -> Option<TxStyleV> {
    match s {
        Some(t) => Some(t@),
        None => None,
    }
}

/// `s` without its leading `#` characters.
pub open spec fn trim_hashes(s: Seq<char>) -> Seq<char>
    decreases s.len(),
{
    if s.len() > 0 && s[0] == '#' {
        trim_hashes(s.skip(1))
    } else {
        s
    }
}

/// A solid fill of one color element.
pub open spec fn solid_fill_events(color: XmlEvent) -> Seq<XmlEvent> {
    seq![open0("a:solidFill"@), color, XmlEvent::Close("a:solidFill"@)]
}

/// `name` wrapping `child` in one element with a single `val` attribute.
pub open spec fn val_child_events(name: Seq<char>, child: Seq<char>, val: Seq<char>) -> Seq<XmlEvent> {
    seq![open0(name), XmlEvent::Leaf(child, seq![("val"@, val)]), XmlEvent::Close(name)]
}

/// A `val` child wrapped in `name` when `v` is set.
pub open spec fn opt_val_events(name: Seq<char>, child: Seq<char>, v: Option<u64>) -> Seq<XmlEvent> {
    match v {
        Some(n) => val_child_events(name, child, decimal(n as nat)),
        None => Seq::empty(),
    }
}

/// The color of a text style: the given RGB value without its `#`, or the
/// scheme's `tx1`.
pub open spec fn color_event(color: Option<Seq<char>>) -> XmlEvent {
    match color {
        Some(c) => XmlEvent::Leaf("a:srgbClr"@, seq![("val"@, trim_hashes(c))]),
        None => XmlEvent::Leaf("a:schemeClr"@, seq![("val"@, "tx1"@)]),
    }
}

/// The Latin, East Asian and complex-script typefaces of a font family.
pub open spec fn font_events(font: Option<Seq<char>>) -> Seq<XmlEvent> {
    match font {
        Some(f) => seq![
            XmlEvent::Leaf("a:latin"@, seq![("typeface"@, f)]),
            XmlEvent::Leaf("a:ea"@, seq![("typeface"@, f)]),
            XmlEvent::Leaf("a:cs"@, seq![("typeface"@, f)]),
        ],
        None => Seq::empty(),
    }
}

/// The default run properties of a text style.
pub open spec fn def_rpr_events(sz: Seq<char>, color: Option<Seq<char>>, font: Option<Seq<char>>) -> Seq<XmlEvent> {
    seq![XmlEvent::Open("a:defRPr"@, seq![("sz"@, sz)])] + solid_fill_events(color_event(color))
        + font_events(font) + seq![XmlEvent::Close("a:defRPr"@)]
}

pub open spec fn style_line_spacing(style: Option<TxStyleV>) -> Option<u64> {
    match style {
        Some(s) => s.line_spacing,
        None => None,
    }
}

pub open spec fn style_space_before(style: Option<TxStyleV>) -> Option<u64> {
    match style {
        Some(s) => s.space_before,
        None => None,
    }
}

/// The run size of a style in hundredths of a point, or `fallback_sz`.
pub open spec fn style_size(style: Option<TxStyleV>, fallback_sz: Seq<char>) -> Seq<char> {
    match style {
        Some(s) => match s.size {
            Some(v) => decimal(v as nat),
            None => fallback_sz,
        },
        None => fallback_sz,
    }
}

pub open spec fn style_color(style: Option<TxStyleV>) -> Option<Seq<char>> {
    match style {
        Some(s) => s.color,
        None => None,
    }
}

pub open spec fn style_font(style: Option<TxStyleV>) -> Option<Seq<char>> {
    match style {
        Some(s) => s.font,
        None => None,
    }
}

/// The events of one `p:txStyles` entry: its first-level paragraph
/// defaults, taken from `style` where it sets them; the run size falls
/// back to `fallback_sz` and the color to the scheme's `tx1`.
pub open spec fn tx_style_events(name: Seq<char>, style: Option<TxStyleV>, fallback_sz: Seq<char>) -> Seq<XmlEvent> {
    seq![open0(name), open0("a:lvl1pPr"@)]
        + opt_val_events("a:lnSpc"@, "a:spcPct"@, style_line_spacing(style))
        + opt_val_events("a:spcBef"@, "a:spcPts"@, style_space_before(style))
        + def_rpr_events(style_size(style, fallback_sz), style_color(style), style_font(style))
        + seq![XmlEvent::Close("a:lvl1pPr"@), XmlEvent::Close(name)]
}

fn trim_hashes_of(s: &str) -> (r: String)
    ensures
        r@ == trim_hashes(s@),
{
    let cs = chars_of(s);
    let mut i: usize = 0;
    assert(cs@.skip(0) =~= cs@);
    while i < cs.len() && cs[i] == '#'
        invariant
            i <= cs@.len(),
            trim_hashes(cs@) == trim_hashes(cs@.skip(i as int)),
            cs@ == s@,
        decreases cs.len() - i,
    {
        assert(cs@.skip(i as int).skip(1) =~= cs@.skip(i + 1));
        i = i + 1;
    }
    string_of(&suffix_chars(&cs, i))
}

fn emit_opt_val(x: &mut Xml, name: &str, child: &str, v: Option<u64>)
    requires
        old(x).depth() < usize::MAX,
    ensures
        final(x).events() == old(x).events() + opt_val_events(name@, child@, v),
        final(x).depth() == old(x).depth(),
        final(x).head() == old(x).head(),
{
    let ghost e0 = x.events();
    if let Some(n) = v {
        let val = u64_to_string(n);
        x.open(name);
        x.leaf_with(child, "val", val.as_str());
        x.end(name);
    }
    assert(x.events() =~= e0 + opt_val_events(name@, child@, v));
}

fn emit_def_rpr(x: &mut Xml, sz: &str, color: Option<&String>, font: Option<&String>)
    requires
        old(x).depth() + 2 < usize::MAX,
    ensures
        final(x).events() == old(x).events() + def_rpr_events(
            sz@,
            match color {
                Some(c) => Some(c@),
                None => None,
            },
            match font {
                Some(f) => Some(f@),
                None => None,
            },
        ),
        final(x).depth() == old(x).depth(),
        final(x).head() == old(x).head(),
{
    let ghost e0 = x.events();
    let ghost cv = match color {
        Some(c) => Some(c@),
        None => None::<Seq<char>>,
    };
    let ghost fv = match font {
        Some(f) => Some(f@),
        None => None::<Seq<char>>,
    };
    x.open_with("a:defRPr", "sz", sz);
    x.open("a:solidFill");
    match color {
        Some(c) => {
            let hex = trim_hashes_of(c.as_str());
            x.leaf_with("a:srgbClr", "val", hex.as_str());
        },
        None => {
            x.leaf_with("a:schemeClr", "val", "tx1");
        },
    }
    x.end("a:solidFill");
    let ghost e1 = x.events();
    assert(e1 =~= e0 + seq![XmlEvent::Open("a:defRPr"@, seq![("sz"@, sz@)])] + solid_fill_events(color_event(cv)));
    if let Some(f) = font {
        x.leaf_with("a:latin", "typeface", f.as_str());
        x.leaf_with("a:ea", "typeface", f.as_str());
        x.leaf_with("a:cs", "typeface", f.as_str());
    }
    assert(x.events() =~= e1 + font_events(fv));
    x.end("a:defRPr");
    assert(x.events() =~= e0 + def_rpr_events(sz@, cv, fv));
}

/// Emit one `p:txStyles` paragraph style (`p:titleStyle`, `p:bodyStyle`
/// or `p:otherStyle`).
pub fn emit_tx_style(x: &mut Xml, name: &str, style: Option<&TxStyle>, fallback_sz: &str)
    requires
        old(x).depth() + 4 < usize::MAX,
    ensures
        final(x).events() == old(x).events() + tx_style_events(name@, style_view(style), fallback_sz@),
        final(x).depth() == old(x).depth(),
        final(x).head() == old(x).head(),
{
    let ghost st = style_view(style);
    let ghost e0 = x.events();
    x.open(name);
    x.open("a:lvl1pPr");
    let (line_spacing, space_before, size, color, font) = match style {
        Some(s) => (s.line_spacing, s.space_before, s.size, s.color.as_ref(), s.font.as_ref()),
        None => (None, None, None, None, None),
    };
    assert(line_spacing == style_line_spacing(st));
    assert(space_before == style_space_before(st));
    emit_opt_val(x, "a:lnSpc", "a:spcPct", line_spacing);
    emit_opt_val(x, "a:spcBef", "a:spcPts", space_before);
    let sz = match size {
        Some(v) => u64_to_string(v),
        None => String::from_str(fallback_sz),
    };
    assert(sz@ == style_size(st, fallback_sz@));
    emit_def_rpr(x, sz.as_str(), color, font);
    x.end("a:lvl1pPr");
    x.end(name);
    assert(x.events() =~= e0 + tx_style_events(name@, st, fallback_sz@));
}

/// The attributes of the standard color map.
pub open spec fn clr_map_attrs() -> Seq<(Seq<char>, Seq<char>)> {
    seq![
        ("bg1"@, "lt1"@),
        ("tx1"@, "dk1"@),
        ("bg2"@, "lt2"@),
        ("tx2"@, "dk2"@),
        ("accent1"@, "accent1"@),
        ("accent2"@, "accent2"@),
        ("accent3"@, "accent3"@),
        ("accent4"@, "accent4"@),
        ("accent5"@, "accent5"@),
        ("accent6"@, "accent6"@),
        ("hlink"@, "hlink"@),
        ("folHlink"@, "folHlink"@),
    ]
}

/// The entry of the `i`-th slide layout (one-based): id `2147483648 + i`,
/// relationship `rId{i+1}` (the master's `rId1` is its theme).
pub open spec fn layout_id_event(i: nat) -> XmlEvent {
    leaf2("p:sldLayoutId"@, "id"@, decimal(2147483648 + i), "r:id"@, "rId"@ + decimal(i + 1))
}

/// The layout list for `count` layouts.
pub open spec fn layout_id_events(count: nat) -> Seq<XmlEvent>
    decreases count,
{
    if count == 0 {
        Seq::empty()
    } else {
        layout_id_events((count - 1) as nat).push(layout_id_event(count))
    }
}

/// The slide master for `layout_count` layouts and the deck's title, body
/// and other text styles.
pub open spec fn slide_master_events(
    layout_count: nat,
    title: Option<TxStyleV>,
    body: Option<TxStyleV>,
    other: Option<TxStyleV>,
) -> Seq<XmlEvent> {
    seq![
        XmlEvent::Open("p:sldMaster"@, pml_root_attrs()),
        open0("p:cSld"@),
        open0("p:bg"@),
        open0("p:bgPr"@),
    ] + solid_fill_events(XmlEvent::Leaf("a:srgbClr"@, seq![("val"@, "FFFFFF"@)])) + seq![
        XmlEvent::Leaf("a:effectLst"@, seq![]),
        XmlEvent::Close("p:bgPr"@),
        XmlEvent::Close("p:bg"@),
        open0("p:spTree"@),
    ] + group_prolog_events() + seq![
        XmlEvent::Close("p:spTree"@),
        XmlEvent::Close("p:cSld"@),
        XmlEvent::Leaf("p:clrMap"@, clr_map_attrs()),
        open0("p:sldLayoutIdLst"@),
    ] + layout_id_events(layout_count) + seq![
        XmlEvent::Close("p:sldLayoutIdLst"@),
        open0("p:txStyles"@),
    ] + tx_style_events("p:titleStyle"@, title, "4400"@) + tx_style_events("p:bodyStyle"@, body, "1800"@)
        + tx_style_events("p:otherStyle"@, other, "1800"@) + seq![
        XmlEvent::Close("p:txStyles"@),
        XmlEvent::Close("p:sldMaster"@),
    ]
}

/// `ppt/slideMasters/slideMaster1.xml`.
pub fn slide_master_xml(
    layout_count: usize,
    title: Option<&TxStyle>,
    body: Option<&TxStyle>,
    other: Option<&TxStyle>,
) -> (r: String)
    requires
        layout_count + 2147483648 <= usize::MAX,
    ensures
        r@ == prolog() + render_events(
            0,
            slide_master_events(layout_count as nat, style_view(title), style_view(body), style_view(other)),
        ),
{
    let mut x = Xml::new();
    let attrs = [
        ("xmlns:p", super::ns::PRESENTATIONML),
        ("xmlns:a", super::ns::DRAWINGML),
        ("xmlns:r", super::ns::RELATIONSHIPS),
    ];
    assert(attr_views(attrs@) =~= pml_root_attrs());
    x.start("p:sldMaster", &attrs);
    x.open("p:cSld");
    x.open("p:bg");
    x.open("p:bgPr");
    x.open("a:solidFill");
    x.leaf_with("a:srgbClr", "val", "FFFFFF");
    x.end("a:solidFill");
    x.empty("a:effectLst");
    x.end("p:bgPr");
    x.end("p:bg");
    x.open("p:spTree");
    group_prolog(&mut x);
    x.end("p:spTree");
    x.end("p:cSld");
    let clr = [
        ("bg1", "lt1"),
        ("tx1", "dk1"),
        ("bg2", "lt2"),
        ("tx2", "dk2"),
        ("accent1", "accent1"),
        ("accent2", "accent2"),
        ("accent3", "accent3"),
        ("accent4", "accent4"),
        ("accent5", "accent5"),
        ("accent6", "accent6"),
        ("hlink", "hlink"),
        ("folHlink", "folHlink"),
    ];
    assert(attr_views(clr@) =~= clr_map_attrs());
    x.leaf("p:clrMap", &clr);
    x.open("p:sldLayoutIdLst");
    let ghost head = x.events();
    let mut i: usize = 1;
    while i <= layout_count
        invariant
            1 <= i <= layout_count + 1,
            layout_count + 2147483648 <= usize::MAX,
            x.depth() == 2,
            x.head() == prolog(),
            x.events() == head + layout_id_events((i - 1) as nat),
        decreases layout_count + 1 - i,
    {
        let id = usize_to_string(2147483648 + i);
        let mut rid = String::from_str("rId");
        let number = usize_to_string(i + 1);
        push_str(&mut rid, number.as_str());
        proof {
            reveal_strlit("rId");
        }
        x.leaf_with2("p:sldLayoutId", "id", id.as_str(), "r:id", rid.as_str());
        assert(rid@ =~= "rId"@ + decimal((i + 1) as nat));
        assert(x.events() =~= head + layout_id_events(i as nat));
        i = i + 1;
    }
    x.end("p:sldLayoutIdLst");
    x.open("p:txStyles");
    emit_tx_style(&mut x, "p:titleStyle", title, "4400");
    emit_tx_style(&mut x, "p:bodyStyle", body, "1800");
    emit_tx_style(&mut x, "p:otherStyle", other, "1800");
    x.end("p:txStyles");
    x.end("p:sldMaster");
    assert(x.events() =~= slide_master_events(
        layout_count as nat,
        style_view(title),
        style_view(body),
        style_view(other),
    ));
    x.into_string()
}

} // verus!
