//! Fixed parts and fragments of the OPC package written for every deck.
//!
//! PPTD is a flat model (no masters / layouts); OOXML requires every slide
//! to hang off a slideLayout → slideMaster chain, so a minimal compliant
//! skeleton is synthesized. The parts built here carry no style.

use vstd::prelude::*;

use super::ns;
use super::opc::Rel;
use super::rel_kind;
use super::xml::{attr_views, prolog, render_events, Xml, XmlEvent};
use crate::text::{chars_of, decimal, push_char, push_str, usize_to_string};

verus! {

/// An element opening without attributes.
pub open spec fn open0(name: Seq<char>) -> XmlEvent {
    XmlEvent::Open(name, seq![])
}

/// A self-closing element with two attributes.
pub open spec fn leaf2(name: Seq<char>, k1: Seq<char>, v1: Seq<char>, k2: Seq<char>, v2: Seq<char>) -> XmlEvent {
    XmlEvent::Leaf(name, seq![(k1, v1), (k2, v2)])
}

/// The `nvGrpSpPr`/`grpSpPr` pair required at the start of every `p:spTree`.
pub open spec fn group_prolog_events() -> Seq<XmlEvent> {
    seq![
        open0("p:nvGrpSpPr"@),
        leaf2("p:cNvPr"@, "id"@, "1"@, "name"@, ""@),
        XmlEvent::Leaf("p:cNvGrpSpPr"@, seq![]),
        XmlEvent::Leaf("p:nvPr"@, seq![]),
        XmlEvent::Close("p:nvGrpSpPr"@),
        open0("p:grpSpPr"@),
        open0("a:xfrm"@),
        leaf2("a:off"@, "x"@, "0"@, "y"@, "0"@),
        leaf2("a:ext"@, "cx"@, "0"@, "cy"@, "0"@),
        leaf2("a:chOff"@, "x"@, "0"@, "y"@, "0"@),
        leaf2("a:chExt"@, "cx"@, "0"@, "cy"@, "0"@),
        XmlEvent::Close("a:xfrm"@),
        XmlEvent::Close("p:grpSpPr"@),
    ]
}

/// Write the `nvGrpSpPr`/`grpSpPr` pair that starts every `p:spTree`.
pub fn group_prolog(x: &mut Xml)
    requires
        old(x).depth() + 1 < usize::MAX,
    ensures
        final(x).events() == old(x).events() + group_prolog_events(),
        final(x).depth() == old(x).depth(),
        final(x).head() == old(x).head(),
{
    let ghost e0 = x.events();
    x.open("p:nvGrpSpPr");
    x.leaf_with2("p:cNvPr", "id", "1", "name", "");
    x.empty("p:cNvGrpSpPr");
    x.empty("p:nvPr");
    x.end("p:nvGrpSpPr");
    x.open("p:grpSpPr");
    x.open("a:xfrm");
    x.leaf_with2("a:off", "x", "0", "y", "0");
    x.leaf_with2("a:ext", "cx", "0", "cy", "0");
    x.leaf_with2("a:chOff", "x", "0", "y", "0");
    x.leaf_with2("a:chExt", "cx", "0", "cy", "0");
    x.end("a:xfrm");
    x.end("p:grpSpPr");
    assert(x.events() =~= e0 + group_prolog_events());
}

/// The root attributes shared by the slide-level parts.
pub open spec fn pml_root_attrs() -> Seq<(Seq<char>, Seq<char>)> {
    seq![
        ("xmlns:p"@, ns::PRESENTATIONML@),
        ("xmlns:a"@, ns::DRAWINGML@),
        ("xmlns:r"@, ns::RELATIONSHIPS@),
    ]
}

/// The synthesized blank layout every slide without a declared layout uses.
pub open spec fn slide_layout_events() -> Seq<XmlEvent> {
    seq![
        XmlEvent::Open("p:sldLayout"@, pml_root_attrs() + seq![("type"@, "blank"@), ("preserve"@, "1"@)]),
        XmlEvent::Open("p:cSld"@, seq![("name"@, "Blank"@)]),
        open0("p:spTree"@),
    ] + group_prolog_events() + seq![
        XmlEvent::Close("p:spTree"@),
        XmlEvent::Close("p:cSld"@),
        open0("p:clrMapOvr"@),
        XmlEvent::Leaf("a:masterClrMapping"@, seq![]),
        XmlEvent::Close("p:clrMapOvr"@),
        XmlEvent::Close("p:sldLayout"@),
    ]
}

/// The blank slide layout part.
pub fn slide_layout_xml() -> (r: String)
    ensures
        r@ == prolog() + render_events(0, slide_layout_events()),
{
    let mut x = Xml::new();
    let attrs = [
        ("xmlns:p", ns::PRESENTATIONML),
        ("xmlns:a", ns::DRAWINGML),
        ("xmlns:r", ns::RELATIONSHIPS),
        ("type", "blank"),
        ("preserve", "1"),
    ];
    assert(attr_views(attrs@) =~= pml_root_attrs() + seq![("type"@, "blank"@), ("preserve"@, "1"@)]);
    x.start("p:sldLayout", &attrs);
    x.open_with("p:cSld", "name", "Blank");
    x.open("p:spTree");
    group_prolog(&mut x);
    x.end("p:spTree");
    x.end("p:cSld");
    x.open("p:clrMapOvr");
    x.empty("a:masterClrMapping");
    x.end("p:clrMapOvr");
    x.end("p:sldLayout");
    assert(x.events() =~= slide_layout_events());
    x.into_string()
}

/// The slide entry of the `n`-th page (zero-based): id `256 + n`,
/// relationship `rId{n + 3}`.
pub open spec fn slide_id_event(n: int) -> XmlEvent {
    leaf2("p:sldId"@, "id"@, decimal((256 + n) as nat), "r:id"@, "rId"@ + decimal((n + 3) as nat))
}

/// The slide list for `count` pages.
pub open spec fn slide_id_events(count: nat) -> Seq<XmlEvent>
    decreases count,
{
    if count == 0 {
        Seq::empty()
    } else {
        slide_id_events((count - 1) as nat).push(slide_id_event(count - 1))
    }
}

/// The presentation part for `page_count` slides of size `cx` × `cy` EMU.
pub open spec fn presentation_events(page_count: nat, cx: Seq<char>, cy: Seq<char>) -> Seq<XmlEvent> {
    seq![
        XmlEvent::Open("p:presentation"@, pml_root_attrs()),
        open0("p:sldMasterIdLst"@),
        leaf2("p:sldMasterId"@, "id"@, "2147483648"@, "r:id"@, "rId1"@),
        XmlEvent::Close("p:sldMasterIdLst"@),
        open0("p:sldIdLst"@),
    ] + slide_id_events(page_count) + seq![
        XmlEvent::Close("p:sldIdLst"@),
        leaf2("p:sldSz"@, "cx"@, cx, "cy"@, cy),
        leaf2("p:notesSz"@, "cx"@, "6858000"@, "cy"@, "9144000"@),
        XmlEvent::Close("p:presentation"@),
    ]
}

/// `ppt/presentation.xml`: the master, one slide entry per page, and the
/// slide size (`cx`/`cy`, already in EMU).
pub fn presentation_xml(page_count: usize, cx: &str, cy: &str) -> (r: String)
    requires
        page_count + 256 <= usize::MAX,
    ensures
        r@ == prolog() + render_events(0, presentation_events(page_count as nat, cx@, cy@)),
{
    let mut x = Xml::new();
    let attrs = [
        ("xmlns:p", ns::PRESENTATIONML),
        ("xmlns:a", ns::DRAWINGML),
        ("xmlns:r", ns::RELATIONSHIPS),
    ];
    assert(attr_views(attrs@) =~= pml_root_attrs());
    x.start("p:presentation", &attrs);
    x.open("p:sldMasterIdLst");
    x.leaf_with2("p:sldMasterId", "id", "2147483648", "r:id", "rId1");
    x.end("p:sldMasterIdLst");
    x.open("p:sldIdLst");
    let ghost head = x.events();
    let mut i: usize = 0;
    while i < page_count
        invariant
            i <= page_count,
            page_count + 256 <= usize::MAX,
            x.depth() == 2,
            x.head() == prolog(),
            x.events() == head + slide_id_events(i as nat),
        decreases page_count - i,
    {
        let slide_id = usize_to_string(256 + i);
        let mut r_id = String::from_str("rId");
        let number = usize_to_string(i + 3);
        push_str(&mut r_id, number.as_str());
        proof {
            reveal_strlit("rId");
        }
        x.leaf_with2("p:sldId", "id", slide_id.as_str(), "r:id", r_id.as_str());
        assert(r_id@ =~= "rId"@ + decimal((i + 3) as nat));
        i = i + 1;
        assert(x.events() =~= head + slide_id_events(i as nat));
    }
    x.end("p:sldIdLst");
    x.leaf_with2("p:sldSz", "cx", cx, "cy", cy);
    x.leaf_with2("p:notesSz", "cx", "6858000", "cy", "9144000");
    x.end("p:presentation");
    assert(x.events() =~= presentation_events(page_count as nat, cx@, cy@));
    x.into_string()
}

/// The fixed modification time written into every deck (builds carry no
/// clock).
pub open spec fn core_properties_events(title: Option<Seq<char>>) -> Seq<XmlEvent> {
    seq![
        XmlEvent::Open(
            "cp:coreProperties"@,
            seq![
                ("xmlns:cp"@, ns::CORE_PROPS@),
                ("xmlns:dc"@, ns::DC@),
                ("xmlns:dcterms"@, ns::DCTERMS@),
                ("xmlns:dcmitype"@, ns::DCMITYPE@),
                ("xmlns:xsi"@, ns::XSI@),
            ],
        ),
    ] + (match title {
        Some(t) => seq![XmlEvent::TextElem("dc:title"@, seq![], t)],
        None => Seq::empty(),
    }) + seq![
        XmlEvent::TextElem(
            "dcterms:modified"@,
            seq![("xsi:type"@, "dcterms:W3CDTF"@)],
            "1970-01-01T00:00:00Z"@,
        ),
        XmlEvent::Close("cp:coreProperties"@),
    ]
}

/// `docProps/core.xml` with the deck title, if any.
pub fn core_properties_xml(title: Option<&str>) -> (r: String)
    ensures
        r@ == prolog() + render_events(
            0,
            core_properties_events(
                match title {
                    Some(t) => Some(t@),
                    None => None,
                },
            ),
        ),
{
    let mut x = Xml::new();
    let attrs = [
        ("xmlns:cp", ns::CORE_PROPS),
        ("xmlns:dc", ns::DC),
        ("xmlns:dcterms", ns::DCTERMS),
        ("xmlns:dcmitype", ns::DCMITYPE),
        ("xmlns:xsi", ns::XSI),
    ];
    assert(attr_views(attrs@) =~= seq![
        ("xmlns:cp"@, ns::CORE_PROPS@),
        ("xmlns:dc"@, ns::DC@),
        ("xmlns:dcterms"@, ns::DCTERMS@),
        ("xmlns:dcmitype"@, ns::DCMITYPE@),
        ("xmlns:xsi"@, ns::XSI@),
    ]);
    x.start("cp:coreProperties", &attrs);
    if let Some(title) = title {
        x.text_elem("dc:title", title);
    }
    let stamp_attrs = [("xsi:type", "dcterms:W3CDTF")];
    assert(attr_views(stamp_attrs@) =~= seq![("xsi:type"@, "dcterms:W3CDTF"@)]);
    x.inline_text("dcterms:modified", &stamp_attrs, "1970-01-01T00:00:00Z");
    x.end("cp:coreProperties");
    assert(x.events() =~= core_properties_events(
        match title {
            Some(t) => Some(t@),
            None => None,
        },
    ));
    x.into_string()
}

/// A media part's target relative to a slide or layout part directory:
/// `../` followed by the package path without its `ppt/` prefix.
pub open spec fn rel_target_spec(package_path: Seq<char>) -> Seq<char> {
    if package_path.len() >= 4 && package_path.take(4) == "ppt/"@ {
        "../"@ + package_path.skip(4)
    } else {
        "../"@ + package_path
    }
}

/// A media part's target path relative to a slide/layout part dir.
pub fn rel_target(package_path: &str) -> (r: String)
    ensures
        r@ == rel_target_spec(package_path@),
{
    proof {
        reveal_strlit("ppt/");
        reveal_strlit("../");
    }
    let cs = chars_of(package_path);
    let mut out = String::from_str("../");
    let strip = cs.len() >= 4 && cs[0] == 'p' && cs[1] == 'p' && cs[2] == 't' && cs[3] == '/';
    assert(strip == (package_path@.len() >= 4 && package_path@.take(4) == "ppt/"@)) by {
        if package_path@.len() >= 4 && package_path@.take(4) == "ppt/"@ {
            assert(package_path@.take(4)[0] == 'p');
            assert(package_path@.take(4)[1] == 'p');
            assert(package_path@.take(4)[2] == 't');
            assert(package_path@.take(4)[3] == '/');
        }
        if strip {
            assert(package_path@.take(4) =~= "ppt/"@);
        }
    }
    let mut i: usize = if strip {
        4
    } else {
        0
    };
    let start = i;
    while i < cs.len()
        invariant
            start <= i <= cs.len(),
            cs@ == package_path@,
            out@ == "../"@ + cs@.subrange(start as int, i as int),
        decreases cs.len() - i,
    {
        push_char(&mut out, cs[i]);
        assert(cs@.subrange(start as int, i + 1) =~= cs@.subrange(start as int, i as int).push(cs@[i as int]));
        i = i + 1;
    }
    assert(cs@.subrange(start as int, cs.len() as int) =~= cs@.skip(start as int));
    assert(cs@.skip(0) =~= cs@);
    out
}

// ---------------------------------------------------------------------------
// Relationships
// ---------------------------------------------------------------------------

/// A relationship as (id, type, target) text.
pub open spec fn rel_view(r: Rel) -> (Seq<char>, Seq<char>, Seq<char>) {
    (r.id@, r.kind@, r.target@)
}

/// Relationships as text.
pub open spec fn rel_views(rs: Seq<Rel>) -> Seq<(Seq<char>, Seq<char>, Seq<char>)> {
    rs.map_values(|r: Rel| rel_view(r))
}

/// `rId{n}`.
pub open spec fn rid(n: nat) -> Seq<char> {
    "rId"@ + decimal(n)
}

/// `prefix{n}suffix`, e.g. a numbered part path.
pub open spec fn numbered(prefix: Seq<char>, n: nat, suffix: Seq<char>) -> Seq<char> {
    prefix + decimal(n) + suffix
}

fn rid_text(n: usize) -> (r: String)
    ensures
        r@ == rid(n as nat),
{
    let mut r = String::from_str("rId");
    let d = usize_to_string(n);
    push_str(&mut r, d.as_str());
    r
}

fn numbered_text(prefix: &str, n: usize, suffix: &str) -> (r: String)
    ensures
        r@ == numbered(prefix@, n as nat, suffix@),
{
    let mut r = String::from_str(prefix);
    let d = usize_to_string(n);
    push_str(&mut r, d.as_str());
    push_str(&mut r, suffix);
    r
}

/// The package root relationships: the presentation and the core
/// properties.
pub open spec fn root_rels_spec() -> Seq<(Seq<char>, Seq<char>, Seq<char>)> {
    seq![
        ("rId1"@, rel_kind::OFFICE_DOCUMENT@, "ppt/presentation.xml"@),
        ("rId2"@, rel_kind::CORE_PROPERTIES@, "docProps/core.xml"@),
    ]
}

/// The relationships of `_rels/.rels`.
pub fn root_rels() -> (r: Vec<Rel>)
    ensures
        rel_views(r@) == root_rels_spec(),
{
    let r = vec![
        Rel::new("rId1", rel_kind::OFFICE_DOCUMENT, "ppt/presentation.xml"),
        Rel::new("rId2", rel_kind::CORE_PROPERTIES, "docProps/core.xml"),
    ];
    assert(rel_views(r@) =~= root_rels_spec());
    r
}

/// The relationship of the `i`-th slide (one-based) from the presentation.
pub open spec fn presentation_slide_rel(i: nat) -> (Seq<char>, Seq<char>, Seq<char>) {
    (rid(i + 2), rel_kind::SLIDE@, numbered("slides/slide"@, i, ".xml"@))
}

/// The presentation's relationships to its first `n` slides.
pub open spec fn presentation_slide_rels(n: nat) -> Seq<(Seq<char>, Seq<char>, Seq<char>)>
    decreases n,
{
    if n == 0 {
        Seq::empty()
    } else {
        presentation_slide_rels((n - 1) as nat).push(presentation_slide_rel(n))
    }
}

/// The presentation relationships: the master (`rId1`), the theme
/// (`rId2`), then one per slide in page order.
pub open spec fn presentation_rels_spec(page_count: nat) -> Seq<(Seq<char>, Seq<char>, Seq<char>)> {
    seq![
        ("rId1"@, rel_kind::SLIDE_MASTER@, "slideMasters/slideMaster1.xml"@),
        ("rId2"@, rel_kind::THEME@, "theme/theme1.xml"@),
    ] + presentation_slide_rels(page_count)
}

/// The relationships of `ppt/_rels/presentation.xml.rels`.
pub fn presentation_rels(page_count: usize) -> (r: Vec<Rel>)
    requires
        page_count + 2 <= usize::MAX,
    ensures
        rel_views(r@) == presentation_rels_spec(page_count as nat),
{
    let mut r = vec![
        Rel::new("rId1", rel_kind::SLIDE_MASTER, "slideMasters/slideMaster1.xml"),
        Rel::new("rId2", rel_kind::THEME, "theme/theme1.xml"),
    ];
    let ghost head = rel_views(r@);
    let mut i: usize = 1;
    while i <= page_count
        invariant
            1 <= i <= page_count + 1,
            page_count + 2 <= usize::MAX,
            rel_views(r@) == head + presentation_slide_rels((i - 1) as nat),
        decreases page_count + 1 - i,
    {
        let id = rid_text(i + 2);
        let target = numbered_text("slides/slide", i, ".xml");
        let ghost before = r@;
        r.push(Rel::new(id.as_str(), rel_kind::SLIDE, target.as_str()));
        assert(rel_views(r@) =~= rel_views(before).push(presentation_slide_rel(i as nat)));
        i = i + 1;
    }
    assert(head =~= seq![
        ("rId1"@, rel_kind::SLIDE_MASTER@, "slideMasters/slideMaster1.xml"@),
        ("rId2"@, rel_kind::THEME@, "theme/theme1.xml"@),
    ]);
    r
}

/// The master's relationships to its first `n` layouts: layout `i` is
/// `rId{i+1}`, after the theme's `rId1`.
pub open spec fn master_layout_rels(n: nat) -> Seq<(Seq<char>, Seq<char>, Seq<char>)>
    decreases n,
{
    if n == 0 {
        Seq::empty()
    } else {
        master_layout_rels((n - 1) as nat).push(
            (rid(n + 1), rel_kind::SLIDE_LAYOUT@, numbered("../slideLayouts/slideLayout"@, n, ".xml"@)),
        )
    }
}

/// The master relationships: the theme as `rId1`, then one per declared
/// layout from `rId2` on, or the blank layout when the deck declares none.
pub open spec fn master_rels_spec(layouts: nat) -> Seq<(Seq<char>, Seq<char>, Seq<char>)> {
    seq![("rId1"@, rel_kind::THEME@, "../theme/theme1.xml"@)] + if layouts == 0 {
        seq![("rId2"@, rel_kind::SLIDE_LAYOUT@, "../slideLayouts/slideLayout1.xml"@)]
    } else {
        master_layout_rels(layouts)
    }
}

/// The relationships of `ppt/slideMasters/_rels/slideMaster1.xml.rels` for
/// a deck declaring `layouts` layouts.
pub fn master_rels(layouts: usize) -> (r: Vec<Rel>)
    requires
        layouts + 1 <= usize::MAX,
    ensures
        rel_views(r@) == master_rels_spec(layouts as nat),
{
    let mut r: Vec<Rel> = Vec::new();
    r.push(Rel::new("rId1", rel_kind::THEME, "../theme/theme1.xml"));
    let ghost head = rel_views(r@);
    assert(head =~= seq![("rId1"@, rel_kind::THEME@, "../theme/theme1.xml"@)]);
    if layouts == 0 {
        r.push(Rel::new("rId2", rel_kind::SLIDE_LAYOUT, "../slideLayouts/slideLayout1.xml"));
        assert(rel_views(r@) =~= master_rels_spec(0));
        return r;
    }
    let mut i: usize = 1;
    assert(rel_views(r@) =~= head + master_layout_rels(0));
    while i <= layouts
        invariant
            1 <= i <= layouts + 1,
            layouts + 1 <= usize::MAX,
            head == seq![("rId1"@, rel_kind::THEME@, "../theme/theme1.xml"@)],
            rel_views(r@) == head + master_layout_rels((i - 1) as nat),
        decreases layouts + 1 - i,
    {
        let id = rid_text(i + 1);
        let target = numbered_text("../slideLayouts/slideLayout", i, ".xml");
        let ghost before = r@;
        r.push(Rel::new(id.as_str(), rel_kind::SLIDE_LAYOUT, target.as_str()));
        assert(rel_views(r@) =~= rel_views(before).push(
            (rid((i + 1) as nat), rel_kind::SLIDE_LAYOUT@, numbered("../slideLayouts/slideLayout"@, i as nat, ".xml"@)),
        ));
        i = i + 1;
    }
    r
}

/// The media relationships of a slide or layout: `rId2` onwards, one per
/// media part in order of first use.
pub open spec fn media_rels(paths: Seq<String>, n: nat) -> Seq<(Seq<char>, Seq<char>, Seq<char>)>
    decreases n,
{
    if n == 0 {
        Seq::empty()
    } else {
        media_rels(paths, (n - 1) as nat).push(
            (rid(n + 1), rel_kind::IMAGE@, rel_target_spec(paths[n - 1]@)),
        )
    }
}

/// A part's relationships: `rId1` to `first` (its layout or master), then
/// its media.
pub open spec fn part_rels_spec(first_kind: Seq<char>, first: Seq<char>, media: Seq<String>) -> Seq<(Seq<char>, Seq<char>, Seq<char>)> {
    seq![("rId1"@, first_kind, first)] + media_rels(media, media.len())
}

fn part_rels(first_kind: &'static str, first: &str, media: &Vec<String>) -> (r: Vec<Rel>)
    requires
        media@.len() + 1 <= usize::MAX,
    ensures
        rel_views(r@) == part_rels_spec(first_kind@, first@, media@),
{
    let mut r = vec![Rel::new("rId1", first_kind, first)];
    let ghost head = rel_views(r@);
    let mut i: usize = 0;
    while i < media.len()
        invariant
            i <= media@.len(),
            media@.len() + 1 <= usize::MAX,
            rel_views(r@) == head + media_rels(media@, i as nat),
        decreases media.len() - i,
    {
        let id = rid_text(i + 2);
        let target = rel_target(media[i].as_str());
        let ghost before = r@;
        r.push(Rel::new(id.as_str(), rel_kind::IMAGE, target.as_str()));
        assert(rel_views(r@) =~= rel_views(before).push((rid((i + 2) as nat), rel_kind::IMAGE@, rel_target_spec(media@[i as int]@))));
        i = i + 1;
    }
    assert(head =~= seq![("rId1"@, first_kind@, first@)]);
    r
}

/// The relationships of a slide: its layout (`slideLayout{layout}.xml`)
/// and the media parts at `media` (package paths, in order of first use).
pub fn slide_rels(layout: usize, media: &Vec<String>) -> (r: Vec<Rel>)
    requires
        media@.len() + 1 <= usize::MAX,
    ensures
        rel_views(r@) == part_rels_spec(
            rel_kind::SLIDE_LAYOUT@,
            numbered("../slideLayouts/slideLayout"@, layout as nat, ".xml"@),
            media@,
        ),
{
    let target = numbered_text("../slideLayouts/slideLayout", layout, ".xml");
    part_rels(rel_kind::SLIDE_LAYOUT, target.as_str(), media)
}

/// The relationships of a layout: its master and its own media parts.
pub fn layout_rels(media: &Vec<String>) -> (r: Vec<Rel>)
    requires
        media@.len() + 1 <= usize::MAX,
    ensures
        rel_views(r@) == part_rels_spec(rel_kind::SLIDE_MASTER@, "../slideMasters/slideMaster1.xml"@, media@),
{
    part_rels(rel_kind::SLIDE_MASTER, "../slideMasters/slideMaster1.xml", media)
}

pub(crate) proof fn lemma_presentation_slide_rels(n: nat, i: int)
    requires
        0 <= i < n,
    ensures
        presentation_slide_rels(n).len() == n,
        presentation_slide_rels(n)[i] == presentation_slide_rel((i + 1) as nat),
    decreases n,
{
    if i < n - 1 {
        lemma_presentation_slide_rels((n - 1) as nat, i);
    }
    lemma_presentation_slide_rels_len((n - 1) as nat);
}

pub(crate) proof fn lemma_presentation_slide_rels_len(n: nat)
    ensures
        presentation_slide_rels(n).len() == n,
    decreases n,
{
    if n > 0 {
        lemma_presentation_slide_rels_len((n - 1) as nat);
    }
}

proof fn lemma_slide_id_events(n: nat, i: int)
    requires
        0 <= i < n,
    ensures
        slide_id_events(n).len() == n,
        slide_id_events(n)[i] == slide_id_event(i),
    decreases n,
{
    if i < n - 1 {
        lemma_slide_id_events((n - 1) as nat, i);
    }
    lemma_slide_id_events_len((n - 1) as nat);
}

proof fn lemma_slide_id_events_len(n: nat)
    ensures
        slide_id_events(n).len() == n,
    decreases n,
{
    if n > 0 {
        lemma_slide_id_events_len((n - 1) as nat);
    }
}

/// Every slide listed in `presentation.xml` refers, by its `r:id`, to the
/// presentation relationship that targets that slide's part: the `i`-th
/// listed slide (zero-based) and the relationship at position `i + 2`
/// share the id `rId{i + 3}`, and the relationship targets
/// `slides/slide{i + 1}.xml`.
pub proof fn lemma_slide_ids_match_rels(page_count: nat, i: int)
    requires
        0 <= i < page_count,
    ensures
        presentation_rels_spec(page_count).len() == page_count + 2,
        slide_id_event(i) == leaf2(
            "p:sldId"@,
            "id"@,
            decimal((256 + i) as nat),
            "r:id"@,
            presentation_rels_spec(page_count)[i + 2].0,
        ),
        presentation_rels_spec(page_count)[i + 2].1 == rel_kind::SLIDE@,
        presentation_rels_spec(page_count)[i + 2].2 == numbered("slides/slide"@, (i + 1) as nat, ".xml"@),
        slide_id_events(page_count)[i] == slide_id_event(i),
{
    lemma_presentation_slide_rels(page_count, i);
    lemma_slide_id_events(page_count, i);
    let rels = presentation_rels_spec(page_count);
    assert(rels[i + 2] == presentation_slide_rels(page_count)[i]);
    assert(rid(((i + 1) + 2) as nat) == "rId"@ + decimal((i + 3) as nat));
}

// ---------------------------------------------------------------------------
// Slide and layout parts
// ---------------------------------------------------------------------------

/// The opening of a slide part: the root with its namespaces, then the
/// common slide data.
pub open spec fn slide_open_events() -> Seq<XmlEvent> {
    seq![
        XmlEvent::Open("p:sld"@, pml_root_attrs() + seq![("xmlns:pptd"@, ns::PPTD@)]),
        open0("p:cSld"@),
    ]
}

/// The opening of a declared layout part.
pub open spec fn layout_open_events() -> Seq<XmlEvent> {
    seq![
        XmlEvent::Open("p:sldLayout"@, pml_root_attrs() + seq![("type"@, "blank"@), ("preserve"@, "1"@)]),
        XmlEvent::Open("p:cSld"@, seq![("name"@, "Slide Layout"@)]),
    ]
}

/// The shape tree's opening and its group prolog.
pub open spec fn shape_tree_open_events() -> Seq<XmlEvent> {
    seq![open0("p:spTree"@)] + group_prolog_events()
}

/// The color mapping override that follows the common slide data.
pub open spec fn clr_map_ovr_events() -> Seq<XmlEvent> {
    seq![
        open0("p:clrMapOvr"@),
        XmlEvent::Leaf("a:masterClrMapping"@, seq![]),
        XmlEvent::Close("p:clrMapOvr"@),
    ]
}

/// The closing of a slide part, in schema order: the shape tree and the
/// common slide data close, then come the color mapping override and the
/// transition.
pub open spec fn slide_close_events() -> Seq<XmlEvent> {
    seq![XmlEvent::Close("p:spTree"@), XmlEvent::Close("p:cSld"@)] + clr_map_ovr_events() + seq![
        XmlEvent::Open("p:transition"@, seq![("spd"@, "med"@)]),
        XmlEvent::Leaf("p:fade"@, seq![]),
        XmlEvent::Close("p:transition"@),
        XmlEvent::Close("p:sld"@),
    ]
}

/// The closing of a declared layout part.
pub open spec fn layout_close_events() -> Seq<XmlEvent> {
    seq![XmlEvent::Close("p:spTree"@), XmlEvent::Close("p:cSld"@)] + clr_map_ovr_events() + seq![
        XmlEvent::Close("p:sldLayout"@),
    ]
}

/// Open a slide part (its background, if any, comes next).
pub fn open_slide(x: &mut Xml)
    requires
        old(x).depth() + 2 < usize::MAX,
    ensures
        final(x).events() == old(x).events() + slide_open_events(),
        final(x).depth() == old(x).depth() + 2,
        final(x).head() == old(x).head(),
{
    let ghost e0 = x.events();
    let attrs = [
        ("xmlns:p", ns::PRESENTATIONML),
        ("xmlns:a", ns::DRAWINGML),
        ("xmlns:r", ns::RELATIONSHIPS),
        ("xmlns:pptd", ns::PPTD),
    ];
    assert(attr_views(attrs@) =~= pml_root_attrs() + seq![("xmlns:pptd"@, ns::PPTD@)]);
    x.start("p:sld", &attrs);
    x.open("p:cSld");
    assert(x.events() =~= e0 + slide_open_events());
}

/// Open a declared layout part (its background, if any, comes next).
pub fn open_layout(x: &mut Xml)
    requires
        old(x).depth() + 2 < usize::MAX,
    ensures
        final(x).events() == old(x).events() + layout_open_events(),
        final(x).depth() == old(x).depth() + 2,
        final(x).head() == old(x).head(),
{
    let ghost e0 = x.events();
    let attrs = [
        ("xmlns:p", ns::PRESENTATIONML),
        ("xmlns:a", ns::DRAWINGML),
        ("xmlns:r", ns::RELATIONSHIPS),
        ("type", "blank"),
        ("preserve", "1"),
    ];
    assert(attr_views(attrs@) =~= pml_root_attrs() + seq![("type"@, "blank"@), ("preserve"@, "1"@)]);
    x.start("p:sldLayout", &attrs);
    x.open_with("p:cSld", "name", "Slide Layout");
    assert(x.events() =~= e0 + layout_open_events());
}

/// Open the shape tree with its group prolog.
pub fn open_shape_tree(x: &mut Xml)
    requires
        old(x).depth() + 3 < usize::MAX,
    ensures
        final(x).events() == old(x).events() + shape_tree_open_events(),
        final(x).depth() == old(x).depth() + 1,
        final(x).head() == old(x).head(),
{
    let ghost e0 = x.events();
    x.open("p:spTree");
    group_prolog(x);
    assert(x.events() =~= e0 + shape_tree_open_events());
}

fn emit_clr_map_ovr(x: &mut Xml)
    requires
        old(x).depth() + 1 < usize::MAX,
    ensures
        final(x).events() == old(x).events() + clr_map_ovr_events(),
        final(x).depth() == old(x).depth(),
        final(x).head() == old(x).head(),
{
    let ghost e0 = x.events();
    x.open("p:clrMapOvr");
    x.empty("a:masterClrMapping");
    x.end("p:clrMapOvr");
    assert(x.events() =~= e0 + clr_map_ovr_events());
}

/// Close a slide part opened by [`open_slide`] and [`open_shape_tree`].
pub fn close_slide(x: &mut Xml)
    requires
        3 <= old(x).depth() < usize::MAX,
    ensures
        final(x).events() == old(x).events() + slide_close_events(),
        final(x).depth() == old(x).depth() - 3,
        final(x).head() == old(x).head(),
{
    let ghost e0 = x.events();
    x.end("p:spTree");
    x.end("p:cSld");
    emit_clr_map_ovr(x);
    x.open_with("p:transition", "spd", "med");
    x.empty("p:fade");
    x.end("p:transition");
    x.end("p:sld");
    assert(x.events() =~= e0 + slide_close_events());
}

/// Close a layout part opened by [`open_layout`] and [`open_shape_tree`].
pub fn close_layout(x: &mut Xml)
    requires
        3 <= old(x).depth() < usize::MAX,
    ensures
        final(x).events() == old(x).events() + layout_close_events(),
        final(x).depth() == old(x).depth() - 3,
        final(x).head() == old(x).head(),
{
    let ghost e0 = x.events();
    x.end("p:spTree");
    x.end("p:cSld");
    emit_clr_map_ovr(x);
    x.end("p:sldLayout");
    assert(x.events() =~= e0 + layout_close_events());
}

} // verus!
