//! Import rules that read a parsed part: the slide list of the
//! presentation, placeholder keys, scheme colors, shape names, graphic
//! frame kinds, the dispatch of a shape tree child and the deck title.

use vstd::prelude::*;

use super::import::{preset_color_hex, preset_color_spec};
use super::rels::PackageRel;
use crate::error::Error;
use crate::pptd::shared::HorizontalAlign;
use super::tx_body::algn_spec;
use super::xml_tree::{
    attr, attr_spec, children, descendant_named, first, first_descendant, first_named, named_children, text,
    text_spec, XmlChild, XmlNode,
};
use crate::text::{chars_of, push_str, str_eq, string_of, trim, trim_chars};

verus! {

/// The `r:id` of every `p:sldId` under `p:sldIdLst`, in order (attributes
/// go by local name, so `r:id` is `id`); `None` without a `p:sldIdLst`.
pub open spec fn slide_id_refs_spec(pres: XmlNode) -> Option<Seq<Option<Seq<char>>>> {
    match first_named(pres.children@, "sldIdLst"@) {
        None => None,
        Some(list) => {
            let ids = named_children(list.children@, "sldId"@);
            Some(Seq::new(ids.len(), |i: int| attr_spec(ids[i].attributes@, "id"@)))
        },
    }
}

/// The view of a list of optional texts.
pub open spec fn opt_texts(v: Seq<Option<String>>) -> Seq<Option<Seq<char>>> {
    v.map_values(
        |o: Option<String>|
            match o {
                Some(s) => Some(s@),
                None => None,
            },
    )
}

/// The relationship ids of the presentation's slides, in slide order.
pub fn slide_id_refs(pres: &XmlNode) -> (r: Option<Vec<Option<String>>>)
    ensures
        match r {
            Some(v) => slide_id_refs_spec(*pres) == Some(opt_texts(v@)),
            None => slide_id_refs_spec(*pres) is None,
        },
{
    let list = match first(pres, "sldIdLst") {
        Some(l) => l,
        None => return None,
    };
    let ids = children(list, "sldId");
    let ghost idv = ids@.map_values(|n: &XmlNode| *n);
    let mut out: Vec<Option<String>> = Vec::new();
    let mut i: usize = 0;
    while i < ids.len()
        invariant
            i <= ids@.len(),
            idv == ids@.map_values(|n: &XmlNode| *n),
            out@.len() == i,
            forall|k: int| 0 <= k < i ==> opt_texts(out@)[k] == attr_spec(idv[k].attributes@, "id"@),
        decreases ids.len() - i,
    {
        assert(idv[i as int] == *ids@[i as int]);
        let v = match attr(ids[i], "id") {
            Some(s) => Some(string_of(&chars_of(s))),
            None => None,
        };
        let ghost prev = out@;
        out.push(v);
        assert forall|k: int| 0 <= k < i + 1 implies opt_texts(out@)[k] == attr_spec(idv[k].attributes@, "id"@) by {
            if k < i {
                assert(out@[k] == prev[k]);
                assert(opt_texts(prev)[k] == attr_spec(idv[k].attributes@, "id"@));
            }
        }
        i = i + 1;
    }
    assert(opt_texts(out@) =~= Seq::new(idv.len(), |k: int| attr_spec(idv[k].attributes@, "id"@)));
    Some(out)
}

/// An attribute's value, or empty text when it is absent.
pub open spec fn attr_or_empty(el: XmlNode, key: Seq<char>) -> Seq<char> {
    match attr_spec(el.attributes@, key) {
        Some(v) => v,
        None => Seq::empty(),
    }
}

/// The relationships of a relationship part: one per `Relationship`
/// child of the root, in order, with its `Id`, `Type` and `Target` (empty
/// when absent).
pub fn package_rels_of(root: &XmlNode) -> (r: Vec<PackageRel>)
    ensures
        r@.len() == named_children(root.children@, "Relationship"@).len(),
        forall|i: int|
            0 <= i < r@.len() ==> {
                let el = named_children(root.children@, "Relationship"@)[i];
                &&& (#[trigger] r@[i]).id@ == attr_or_empty(el, "Id"@)
                &&& r@[i].kind@ == attr_or_empty(el, "Type"@)
                &&& r@[i].target@ == attr_or_empty(el, "Target"@)
            },
{
    let rels = children(root, "Relationship");
    let ghost rv = rels@.map_values(|n: &XmlNode| *n);
    let mut out: Vec<PackageRel> = Vec::new();
    let mut i: usize = 0;
    while i < rels.len()
        invariant
            i <= rels@.len(),
            rv == rels@.map_values(|n: &XmlNode| *n),
            rv == named_children(root.children@, "Relationship"@),
            out@.len() == i,
            forall|k: int|
                0 <= k < i ==> {
                    &&& (#[trigger] out@[k]).id@ == attr_or_empty(rv[k], "Id"@)
                    &&& out@[k].kind@ == attr_or_empty(rv[k], "Type"@)
                    &&& out@[k].target@ == attr_or_empty(rv[k], "Target"@)
                },
        decreases rels.len() - i,
    {
        let el = rels[i];
        assert(rv[i as int] == *el);
        let id = owned_or_empty(attr(el, "Id"));
        let kind = owned_or_empty(attr(el, "Type"));
        let target = owned_or_empty(attr(el, "Target"));
        out.push(PackageRel { id, kind, target });
        i = i + 1;
    }
    out
}

fn owned_or_empty(s: Option<&str>) -> (r: String)
    ensures
        r@ == (match s {
            Some(t) => t@,
            None => Seq::empty(),
        }),
{
    match s {
        Some(t) => string_of(&chars_of(t)),
        None => String::new(),
    }
}

/// The key of a placeholder (`p:ph`): its `type` (`body` when absent) and
/// its `idx`, if any.
pub fn ph_key(ph: &XmlNode) -> (r: (String, Option<String>))
    ensures
        r.0@ == (match attr_spec(ph.attributes@, "type"@) {
            Some(t) => t,
            None => "body"@,
        }),
        match r.1 {
            Some(i) => attr_spec(ph.attributes@, "idx"@) == Some(i@),
            None => attr_spec(ph.attributes@, "idx"@) is None,
        },
{
    let kind = match attr(ph, "type") {
        Some(t) => string_of(&chars_of(t)),
        None => String::from_str("body"),
    };
    let idx = match attr(ph, "idx") {
        Some(i) => Some(string_of(&chars_of(i))),
        None => None,
    };
    (kind, idx)
}

/// The RGB value of a color scheme child: the `val` of its first
/// `a:srgbClr` when it has one, else the `lastClr` of its first `a:sysClr`.
pub open spec fn scheme_child_rgb_spec(el: XmlNode) -> Option<Seq<char>> {
    match first_named(el.children@, "srgbClr"@) {
        Some(s) => attr_spec(s.attributes@, "val"@),
        None => match first_named(el.children@, "sysClr"@) {
            Some(s) => attr_spec(s.attributes@, "lastClr"@),
            None => None,
        },
    }
}

fn owned(s: Option<&str>) -> (r: Option<String>)
    ensures
        match r {
            Some(v) => s matches Some(t) && v@ == t@,
            None => s is None,
        },
{
    match s {
        Some(t) => Some(string_of(&chars_of(t))),
        None => None,
    }
}

/// The RGB value of a color scheme child (see [`scheme_child_rgb_spec`]).
pub fn scheme_child_rgb(el: &XmlNode) -> (r: Option<String>)
    ensures
        match r {
            Some(v) => scheme_child_rgb_spec(*el) == Some(v@),
            None => scheme_child_rgb_spec(*el) is None,
        },
{
    match first(el, "srgbClr") {
        Some(s) => owned(attr(s, "val")),
        None => match first(el, "sysClr") {
            Some(s) => owned(attr(s, "lastClr")),
            None => None,
        },
    }
}

/// Whether a name starts with `nv` and ends with `Pr` (a non-visual
/// properties element such as `p:nvSpPr`).
pub open spec fn is_nv_props(name: Seq<char>) -> bool {
    name.len() >= 2 && name[0] == 'n' && name[1] == 'v' && name[name.len() - 2] == 'P' && name[name.len()
        - 1] == 'r'
}

/// The first element child whose name is a non-visual properties name.
pub open spec fn first_nv(cs: Seq<XmlChild>) -> Option<XmlNode>
    decreases cs.len(),
{
    if cs.len() == 0 {
        None
    } else {
        match cs[0] {
            XmlChild::Element(n) => if is_nv_props(n.name@) {
                Some(n)
            } else {
                first_nv(cs.skip(1))
            },
            _ => first_nv(cs.skip(1)),
        }
    }
}

/// The `name` of a shape's `p:cNvPr`: the non-visual properties element is
/// a child literally named `nv*Pr`, else the first child named `nv…Pr`.
pub open spec fn cnv_name_spec(el: XmlNode) -> Option<Seq<char>> {
    let nv = match first_named(el.children@, "nv*Pr"@) {
        Some(n) => Some(n),
        None => first_nv(el.children@),
    };
    match nv {
        None => None,
        Some(n) => match first_named(n.children@, "cNvPr"@) {
            Some(p) => attr_spec(p.attributes@, "name"@),
            None => None,
        },
    }
}

fn nv_name(name: &str) -> (r: bool)
    ensures
        r == is_nv_props(name@),
{
    let cs = chars_of(name);
    let n = cs.len();
    n >= 2 && cs[0] == 'n' && cs[1] == 'v' && cs[n - 2] == 'P' && cs[n - 1] == 'r'
}

fn find_nv(el: &XmlNode) -> (r: Option<&XmlNode>)
    ensures
        match r {
            Some(n) => first_nv(el.children@) == Some(*n),
            None => first_nv(el.children@) is None,
        },
{
    let ghost cs = el.children@;
    let mut i: usize = 0;
    assert(cs.skip(0) =~= cs);
    while i < el.children.len()
        invariant
            i <= cs.len(),
            cs == el.children@,
            first_nv(cs) == first_nv(cs.skip(i as int)),
        decreases cs.len() - i,
    {
        assert(cs.skip(i as int)[0] == cs[i as int]);
        assert(cs.skip(i as int).skip(1) =~= cs.skip(i + 1));
        match &el.children[i] {
            XmlChild::Element(n) => {
                if nv_name(n.name.as_str()) {
                    return Some(n);
                }
            },
            _ => {},
        }
        i = i + 1;
    }
    assert(cs.skip(i as int) =~= Seq::<XmlChild>::empty());
    None
}

/// The name of a shape (see [`cnv_name_spec`]).
pub fn cnv_name(el: &XmlNode) -> (r: Option<String>)
    ensures
        match r {
            Some(v) => cnv_name_spec(*el) == Some(v@),
            None => cnv_name_spec(*el) is None,
        },
{
    let nv = match first(el, "nv*Pr") {
        Some(n) => Some(n),
        None => find_nv(el),
    };
    match nv {
        None => None,
        Some(n) => match first(n, "cNvPr") {
            Some(p) => owned(attr(p, "name")),
            None => None,
        },
    }
}

/// The `uri` of a graphic frame's `a:graphic/a:graphicData`.
pub open spec fn graphic_uri_spec(el: XmlNode) -> Option<Seq<char>> {
    match first_named(el.children@, "graphic"@) {
        None => None,
        Some(g) => match first_named(g.children@, "graphicData"@) {
            None => None,
            Some(d) => attr_spec(d.attributes@, "uri"@),
        },
    }
}

/// The `uri` of a graphic frame's data.
pub fn graphic_uri(el: &XmlNode) -> (r: Option<&str>)
    ensures
        match r {
            Some(v) => graphic_uri_spec(*el) == Some(v@),
            None => graphic_uri_spec(*el) is None,
        },
{
    let graphic = match first(el, "graphic") {
        Some(g) => g,
        None => return None,
    };
    let data = match first(graphic, "graphicData") {
        Some(d) => d,
        None => return None,
    };
    attr(data, "uri")
}

/// Whether `pat` occurs in `s`.
pub open spec fn contains_text(s: Seq<char>, pat: Seq<char>) -> bool {
    exists|i: int| 0 <= i && i + pat.len() <= s.len() && #[trigger] s.subrange(i, i + pat.len()) == pat
}

fn contains_str(s: &str, pat: &str) -> (r: bool)
    ensures
        r == contains_text(s@, pat@),
{
    let cs = chars_of(s);
    let ps = chars_of(pat);
    if ps.len() > cs.len() {
        return false;
    }
    let last = cs.len() - ps.len();
    let mut i: usize = 0;
    while i <= last
        invariant
            cs@ == s@,
            ps@ == pat@,
            ps.len() <= cs.len(),
            last == cs.len() - ps.len(),
            i <= last + 1,
            forall|k: int| 0 <= k < i ==> #[trigger] s@.subrange(k, k + pat@.len()) != pat@,
        decreases last + 1 - i,
    {
        let mut j: usize = 0;
        while j < ps.len() && cs[i + j] == ps[j]
            invariant
                j <= ps.len(),
                i + ps.len() <= cs.len(),
                cs@ == s@,
                ps@ == pat@,
                forall|m: int| 0 <= m < j ==> cs@[i + m] == ps@[m],
            decreases ps.len() - j,
        {
            j = j + 1;
        }
        if j == ps.len() {
            assert(s@.subrange(i as int, i + pat@.len()) =~= pat@);
            return true;
        }
        assert(s@.subrange(i as int, i + pat@.len())[j as int] != pat@[j as int]);
        i = i + 1;
    }
    assert forall|k: int| 0 <= k && k + pat@.len() <= s@.len() implies #[trigger] s@.subrange(k, k + pat@.len()) != pat@ by {
        assert(k < i);
    }
    false
}

/// What the importer does with one child of a shape tree.
#[derive(Debug, PartialEq)]
pub enum SpTreeChild {
    /// `p:sp`: a shape or text box.
    Shape,
    /// `p:pic`: a picture.
    Picture,
    /// `p:cxnSp`: a connector.
    Connector,
    /// `p:grpSp`: a group, flattened into its members.
    Group,
    /// An element that PPTD cannot hold: it is reported as skipped under
    /// this name, for this reason.
    Skipped { name: String, reason: String },
    /// Anything else, left out silently.
    Ignored,
}

/// The kind a graphic frame's data `uri` names.
pub open spec fn frame_kind(uri: Seq<char>) -> Seq<char> {
    if contains_text(uri, "/chart"@) {
        "chart"@
    } else if contains_text(uri, "/table"@) {
        "table"@
    } else {
        "graphicFrame"@
    }
}

/// The name reported for a skipped element: its shape name, else the
/// element's own name.
pub open spec fn skip_name(el: XmlNode, fallback: Seq<char>) -> Seq<char> {
    match cnv_name_spec(el) {
        Some(n) => n,
        None => fallback,
    }
}

/// The dispatch of a shape tree child by its element name.
pub open spec fn sp_tree_child_spec(el: XmlNode) -> (int, Seq<char>, Seq<char>) {
    let n = el.name@;
    if n == "sp"@ {
        (0, Seq::empty(), Seq::empty())
    } else if n == "pic"@ {
        (1, Seq::empty(), Seq::empty())
    } else if n == "cxnSp"@ {
        (2, Seq::empty(), Seq::empty())
    } else if n == "grpSp"@ {
        (3, Seq::empty(), Seq::empty())
    } else if n == "graphicFrame"@ {
        let uri = match graphic_uri_spec(el) {
            Some(u) => u,
            None => Seq::empty(),
        };
        (4, skip_name(el, "graphicFrame"@), frame_kind(uri) + " elements are not representable in PPTD"@)
    } else if n == "oleObj"@ {
        (4, skip_name(el, "oleObj"@), "embedded objects are not supported"@)
    } else {
        (5, Seq::empty(), Seq::empty())
    }
}

/// The dispatch of a value, in the form of [`sp_tree_child_spec`].
pub open spec fn child_code(c: SpTreeChild) -> (int, Seq<char>, Seq<char>) {
    match c {
        SpTreeChild::Shape => (0, Seq::empty(), Seq::empty()),
        SpTreeChild::Picture => (1, Seq::empty(), Seq::empty()),
        SpTreeChild::Connector => (2, Seq::empty(), Seq::empty()),
        SpTreeChild::Group => (3, Seq::empty(), Seq::empty()),
        SpTreeChild::Skipped { name, reason } => (4, name@, reason@),
        SpTreeChild::Ignored => (5, Seq::empty(), Seq::empty()),
    }
}

/// What the importer does with one child of a shape tree: shapes,
/// pictures, connectors and groups are mapped; a graphic frame (chart,
/// table or other) and an embedded object are reported as skipped; any
/// other element is left out.
pub fn sp_tree_child(el: &XmlNode) -> (r: SpTreeChild)
    ensures
        child_code(r) == sp_tree_child_spec(*el),
{
    let n = el.name.as_str();
    if str_eq(n, "sp") {
        SpTreeChild::Shape
    } else if str_eq(n, "pic") {
        SpTreeChild::Picture
    } else if str_eq(n, "cxnSp") {
        SpTreeChild::Connector
    } else if str_eq(n, "grpSp") {
        SpTreeChild::Group
    } else if str_eq(n, "graphicFrame") {
        let name = match cnv_name(el) {
            Some(v) => v,
            None => String::from_str("graphicFrame"),
        };
        let uri = match graphic_uri(el) {
            Some(u) => u,
            None => "",
        };
        proof {
            reveal_strlit("");
        }
        let kind = if contains_str(uri, "/chart") {
            "chart"
        } else if contains_str(uri, "/table") {
            "table"
        } else {
            "graphicFrame"
        };
        let mut reason = String::from_str(kind);
        push_str(&mut reason, " elements are not representable in PPTD");
        assert(name@ == skip_name(*el, "graphicFrame"@));
        assert(uri@ == (match graphic_uri_spec(*el) {
            Some(u) => u,
            None => Seq::empty(),
        }));
        assert(kind@ == frame_kind(uri@));
        SpTreeChild::Skipped { name, reason }
    } else if str_eq(n, "oleObj") {
        let name = match cnv_name(el) {
            Some(v) => v,
            None => String::from_str("oleObj"),
        };
        SpTreeChild::Skipped { name, reason: String::from_str("embedded objects are not supported") }
    } else {
        SpTreeChild::Ignored
    }
}

/// The deck title from `docProps/core.xml`: the text of the first
/// `dc:title`, trimmed, when that is not empty.
pub open spec fn core_title_spec(core: XmlNode) -> Option<Seq<char>> {
    match first_named(core.children@, "title"@) {
        None => None,
        Some(t) => match text_spec(t.children@) {
            None => None,
            Some(s) => if trim(s).len() > 0 {
                Some(trim(s))
            } else {
                None
            },
        },
    }
}

/// The deck title (see [`core_title_spec`]).
pub fn core_title(core: &XmlNode) -> (r: Option<String>)
    ensures
        match r {
            Some(v) => core_title_spec(*core) == Some(v@),
            None => core_title_spec(*core) is None,
        },
{
    let t = match first(core, "title") {
        Some(t) => t,
        None => return None,
    };
    let s = match text(t) {
        Some(s) => s,
        None => return None,
    };
    let trimmed = trim_chars(&chars_of(s.as_str()));
    if trimmed.len() > 0 {
        Some(string_of(&trimmed))
    } else {
        None
    }
}

/// The `uri` of the extension that carries a PPTD icon.
pub open spec fn icon_ext_uri() -> Seq<char> {
    "{F5677B7D-0D2A-4D9B-9A5C-6D8D7D0E5A5D}"@
}

/// A shape's placeholder element: `p:nvSpPr/p:nvPr/p:ph`.
pub open spec fn sp_placeholder_spec(el: XmlNode) -> Option<XmlNode> {
    match first_named(el.children@, "nvSpPr"@) {
        None => None,
        Some(nv) => match first_named(nv.children@, "nvPr"@) {
            None => None,
            Some(p) => first_named(p.children@, "ph"@),
        },
    }
}

/// A shape's placeholder element, if it is a placeholder.
pub fn sp_placeholder(el: &XmlNode) -> (r: Option<&XmlNode>)
    ensures
        match r {
            Some(p) => sp_placeholder_spec(*el) == Some(*p),
            None => sp_placeholder_spec(*el) is None,
        },
{
    let nv = match first(el, "nvSpPr") {
        Some(n) => n,
        None => return None,
    };
    let p = match first(nv, "nvPr") {
        Some(p) => p,
        None => return None,
    };
    first(p, "ph")
}

/// The first of the extensions whose `uri` is `uri`.
pub open spec fn ext_with_uri(exts: Seq<XmlNode>, uri: Seq<char>) -> Option<XmlNode>
    decreases exts.len(),
{
    if exts.len() == 0 {
        None
    } else if attr_spec(exts[0].attributes@, "uri"@) == Some(uri) {
        Some(exts[0])
    } else {
        ext_with_uri(exts.skip(1), uri)
    }
}

/// A shape's PPTD icon element: the `icon` child of the first
/// `p:nvSpPr/p:nvPr/a:extLst/a:ext` whose `uri` is the PPTD icon
/// extension's.
pub open spec fn sp_icon_spec(el: XmlNode) -> Option<XmlNode> {
    match first_named(el.children@, "nvSpPr"@) {
        None => None,
        Some(nv) => match first_named(nv.children@, "nvPr"@) {
            None => None,
            Some(p) => match first_named(p.children@, "extLst"@) {
                None => None,
                Some(lst) => match ext_with_uri(named_children(lst.children@, "ext"@), icon_ext_uri()) {
                    None => None,
                    Some(ext) => first_named(ext.children@, "icon"@),
                },
            },
        },
    }
}

/// A shape's PPTD icon element, if it carries one.
pub fn sp_icon(el: &XmlNode) -> (r: Option<&XmlNode>)
    ensures
        match r {
            Some(i) => sp_icon_spec(*el) == Some(*i),
            None => sp_icon_spec(*el) is None,
        },
{
    let nv = match first(el, "nvSpPr") {
        Some(n) => n,
        None => return None,
    };
    let p = match first(nv, "nvPr") {
        Some(p) => p,
        None => return None,
    };
    let lst = match first(p, "extLst") {
        Some(l) => l,
        None => return None,
    };
    let exts = children(lst, "ext");
    let ghost ev = exts@.map_values(|n: &XmlNode| *n);
    let mut i: usize = 0;
    assert(ev.skip(0) =~= ev);
    while i < exts.len()
        invariant
            i <= exts@.len(),
            ev == exts@.map_values(|n: &XmlNode| *n),
            first_named(el.children@, "nvSpPr"@) == Some(*nv),
            first_named(nv.children@, "nvPr"@) == Some(*p),
            first_named(p.children@, "extLst"@) == Some(*lst),
            ev == named_children(lst.children@, "ext"@),
            ext_with_uri(ev, icon_ext_uri()) == ext_with_uri(ev.skip(i as int), icon_ext_uri()),
        decreases exts.len() - i,
    {
        assert(ev.skip(i as int)[0] == *exts@[i as int]);
        assert(ev.skip(i as int).skip(1) =~= ev.skip(i + 1));
        let matches = match attr(exts[i], "uri") {
            Some(u) => str_eq(u, "{F5677B7D-0D2A-4D9B-9A5C-6D8D7D0E5A5D}"),
            None => false,
        };
        if matches {
            assert(attr_spec(ev.skip(i as int)[0].attributes@, "uri"@) == Some(icon_ext_uri()));
            assert(ext_with_uri(ev.skip(i as int), icon_ext_uri()) == Some(*exts@[i as int]));
            assert(first_named(el.children@, "nvSpPr"@) == Some(*nv));
            assert(first_named(nv.children@, "nvPr"@) == Some(*p));
            assert(first_named(p.children@, "extLst"@) == Some(*lst));
            assert(ev == named_children(lst.children@, "ext"@));
            assert(sp_icon_spec(*el) == first_named(exts@[i as int].children@, "icon"@));
            return first(exts[i], "icon");
        }
        i = i + 1;
    }
    assert(ev.skip(i as int) =~= Seq::<XmlNode>::empty());
    None
}

/// Why a shape without its own `a:xfrm` and without a layout placeholder
/// to inherit one from is skipped.
pub fn missing_xfrm_reason(is_placeholder: bool) -> (r: &'static str)
    ensures
        r@ == (if is_placeholder {
            "placeholder has no a:xfrm and no matching layout placeholder"@
        } else {
            "shape has no a:xfrm"@
        }),
{
    if is_placeholder {
        "placeholder has no a:xfrm and no matching layout placeholder"
    } else {
        "shape has no a:xfrm"
    }
}

/// The value of the first pair whose key is `key`.
fn pair_lookup<'a>(pairs: &'a [(String, String)], key: &str) -> (r: Option<&'a String>)
    ensures
        match r {
            Some(v) => attr_spec(pairs@, key@) == Some(v@),
            None => attr_spec(pairs@, key@) is None,
        },
{
    let ghost a = pairs@;
    let mut i: usize = 0;
    assert(a.skip(0) =~= a);
    while i < pairs.len()
        invariant
            i <= a.len(),
            a == pairs@,
            attr_spec(a, key@) == attr_spec(a.skip(i as int), key@),
        decreases a.len() - i,
    {
        assert(a.skip(i as int)[0] == a[i as int]);
        assert(a.skip(i as int).skip(1) =~= a.skip(i + 1));
        if str_eq(pairs[i].0.as_str(), key) {
            return Some(&pairs[i].1);
        }
        i = i + 1;
    }
    assert(a.skip(i as int) =~= Seq::<(String, String)>::empty());
    None
}

/// Where the color of a fill-like element comes from: the RGB hex text
/// before any color modifiers, and the color element whose modifiers
/// (`a:tint`, `a:shade`, `a:alpha`, …) apply to it (none for a system color
/// named without a last color).
pub open spec fn fill_color_spec(el: XmlNode, slots: Seq<(String, String)>) -> Option<(Seq<char>, Option<XmlNode>)> {
    match descendant_named(el, "srgbClr"@) {
        Some(n) => match attr_spec(n.attributes@, "val"@) {
            Some(v) => Some((v, Some(n))),
            None => None,
        },
        None => match descendant_named(el, "schemeClr"@) {
            Some(n) => match attr_spec(n.attributes@, "val"@) {
                Some(slot) => match attr_spec(slots, slot) {
                    Some(rgb) => Some((rgb, Some(n))),
                    None => None,
                },
                None => None,
            },
            None => match descendant_named(el, "sysClr"@) {
                Some(n) => match attr_spec(n.attributes@, "lastClr"@) {
                    Some(h) => Some((h, Some(n))),
                    None => match attr_spec(n.attributes@, "val"@) {
                        Some(v) => Some((if v == "window"@ { "FFFFFF"@ } else { "000000"@ }, None)),
                        None => None,
                    },
                },
                None => match descendant_named(el, "prstClr"@) {
                    Some(n) => match attr_spec(n.attributes@, "val"@) {
                        Some(v) => Some((preset_color_spec(v), Some(n))),
                        None => None,
                    },
                    None => None,
                },
            },
        },
    }
}

/// The view of a color source.
pub open spec fn color_source_view(r: Option<(String, Option<&XmlNode>)>) -> Option<(Seq<char>, Option<XmlNode>)> {
    match r {
        Some((rgb, node)) => Some((
            rgb@,
            match node {
                Some(n) => Some(*n),
                None => None,
            },
        )),
        None => None,
    }
}

/// Where the color of a fill-like element comes from, by the theme's slot
/// colors (see [`fill_color_spec`]): a direct `a:srgbClr`, else a theme
/// `a:schemeClr` slot, else a system color, else a preset color, each the
/// first met in a last-first depth-first walk.
pub fn fill_color_source<'a>(el: &'a XmlNode, slots: &[(String, String)]) -> (r: Option<(String, Option<&'a XmlNode>)>)
    ensures
        color_source_view(r) == fill_color_spec(*el, slots@),
{
    if let Some(n) = first_descendant(el, "srgbClr") {
        return match attr(n, "val") {
            Some(v) => Some((string_of(&chars_of(v)), Some(n))),
            None => None,
        };
    }
    if let Some(n) = first_descendant(el, "schemeClr") {
        return match attr(n, "val") {
            Some(slot) => match pair_lookup(slots, slot) {
                Some(rgb) => Some((rgb.clone(), Some(n))),
                None => None,
            },
            None => None,
        };
    }
    if let Some(n) = first_descendant(el, "sysClr") {
        return match attr(n, "lastClr") {
            Some(h) => Some((string_of(&chars_of(h)), Some(n))),
            None => match attr(n, "val") {
                Some(v) => {
                    let hex = if str_eq(v, "window") {
                        "FFFFFF"
                    } else {
                        "000000"
                    };
                    Some((String::from_str(hex), None))
                },
                None => None,
            },
        };
    }
    if let Some(n) = first_descendant(el, "prstClr") {
        return match attr(n, "val") {
            Some(v) => Some((String::from_str(preset_color_hex(v)), Some(n))),
            None => None,
        };
    }
    None
}

/// The value of a run of ASCII digits.
pub open spec fn digits_value(t: Seq<char>) -> nat
    decreases t.len(),
{
    if t.len() == 0 {
        0
    } else {
        digits_value(t.drop_last()) * 10 + (t.last() as nat - '0' as nat) as nat
    }
}

/// A text without its leading `+`, if it has one.
pub open spec fn unsigned_part(s: Seq<char>) -> Seq<char> {
    if s.len() > 0 && s[0] == '+' {
        s.skip(1)
    } else {
        s
    }
}

/// Every character is an ASCII digit.
pub open spec fn all_digits(t: Seq<char>) -> bool {
    forall|i: int| 0 <= i < t.len() ==> '0' <= #[trigger] t[i] && t[i] <= '9'
}

/// `text.parse::<u8>()`: an optional `+`, then one or more ASCII digits
/// whose value is below 256.
pub open spec fn u8_value(s: Seq<char>) -> Option<nat> {
    let t = unsigned_part(s);
    if t.len() > 0 && all_digits(t) && digits_value(t) < 256 {
        Some(digits_value(t))
    } else {
        None
    }
}

proof fn lemma_digits_grow(t: Seq<char>, n: int)
    requires
        0 <= n <= t.len(),
        all_digits(t),
    ensures
        digits_value(t.take(n)) <= digits_value(t),
    decreases t.len() - n,
{
    if n < t.len() {
        lemma_digits_grow(t, n + 1);
        assert(t.take(n + 1).drop_last() =~= t.take(n));
    } else {
        assert(t.take(n) =~= t);
    }
}

fn parse_u8(s: &str) -> (r: Option<u8>)
    ensures
        match r {
            Some(v) => u8_value(s@) == Some(v as nat),
            None => u8_value(s@) is None,
        },
{
    let cs = chars_of(s);
    let start: usize = if cs.len() > 0 && cs[0] == '+' {
        1
    } else {
        0
    };
    let ghost t = unsigned_part(s@);
    assert(t =~= cs@.skip(start as int));
    if cs.len() == start {
        return None;
    }
    let mut v: u32 = 0;
    let mut i: usize = start;
    while i < cs.len()
        invariant
            start <= i <= cs.len(),
            cs@ == s@,
            t == cs@.skip(start as int),
            t == unsigned_part(s@),
            forall|k: int| 0 <= k < i - start ==> '0' <= #[trigger] t[k] && t[k] <= '9',
            v as nat == digits_value(t.take(i - start)),
            v < 256,
        decreases cs.len() - i,
    {
        let c = cs[i];
        assert(t[i - start] == c);
        if !('0' <= c && c <= '9') {
            assert(!all_digits(t));
            assert(u8_value(s@) is None);
            return None;
        }
        let ghost prefix = t.take(i + 1 - start);
        assert(prefix.drop_last() =~= t.take(i - start));
        assert(prefix.last() == c);
        assert(digits_value(prefix) == digits_value(t.take(i - start)) * 10 + (c as nat - '0' as nat));
        v = v * 10 + (c as u32 - '0' as u32);
        i = i + 1;
        assert(v as nat == digits_value(t.take(i - start)));
        if v >= 256 {
            proof {
                if all_digits(t) {
                    lemma_digits_grow(t, i - start);
                }
            }
            assert(u8_value(s@) is None);
            return None;
        }
    }
    assert(t.take(i - start) =~= t);
    Some(v as u8)
}

/// A run property flag such as `b` or `i`: its value parsed as `u8`, true
/// when not 0; absent when the attribute is absent or not a `u8`.
pub open spec fn rpr_flag_spec(rpr: XmlNode, key: Seq<char>) -> Option<bool> {
    match attr_spec(rpr.attributes@, key) {
        Some(v) => match u8_value(v) {
            Some(n) => Some(n != 0),
            None => None,
        },
        None => None,
    }
}

/// A run property flag (see [`rpr_flag_spec`]).
pub fn rpr_flag(rpr: &XmlNode, key: &str) -> (r: Option<bool>)
    ensures
        r == rpr_flag_spec(*rpr, key@),
{
    match attr(rpr, key) {
        Some(v) => match parse_u8(v) {
            Some(n) => Some(n != 0),
            None => None,
        },
        None => None,
    }
}

/// The `typeface` of a run's `a:latin`, when it is not empty.
pub open spec fn latin_typeface_spec(rpr: XmlNode) -> Option<Seq<char>> {
    match first_named(rpr.children@, "latin"@) {
        Some(l) => match attr_spec(l.attributes@, "typeface"@) {
            Some(tf) => if tf.len() > 0 {
                Some(tf)
            } else {
                None
            },
            None => None,
        },
        None => None,
    }
}

/// The `typeface` of a run's `a:latin`, when it is not empty.
pub fn latin_typeface(rpr: &XmlNode) -> (r: Option<&str>)
    ensures
        match r {
            Some(v) => latin_typeface_spec(*rpr) == Some(v@),
            None => latin_typeface_spec(*rpr) is None,
        },
{
    match first(rpr, "latin") {
        Some(l) => match attr(l, "typeface") {
            Some(tf) => if crate::text::is_empty_text(tf) {
                None
            } else {
                Some(tf)
            },
            None => None,
        },
        None => None,
    }
}

/// A slide's shape tree: `p:cSld/p:spTree`; an error names the part and
/// the missing element.
pub fn slide_shape_tree<'a>(slide: &'a XmlNode, part: &str) -> (r: Result<&'a XmlNode, Error>)
    ensures
        match first_named(slide.children@, "cSld"@) {
            None => r matches Err(Error::Invalid(m)) && m@ == "slide part "@ + part@ + " has no p:cSld"@,
            Some(c) => match first_named(c.children@, "spTree"@) {
                None => r matches Err(Error::Invalid(m)) && m@ == "slide part "@ + part@ + " has no p:spTree"@,
                Some(t) => r matches Ok(tree) && *tree == t,
            },
        },
{
    let c_sld = match first(slide, "cSld") {
        Some(c) => c,
        None => {
            let mut m = String::from_str("slide part ");
            push_str(&mut m, part);
            push_str(&mut m, " has no p:cSld");
            return Err(Error::Invalid(m));
        },
    };
    match first(c_sld, "spTree") {
        Some(t) => Ok(t),
        None => {
            let mut m = String::from_str("slide part ");
            push_str(&mut m, part);
            push_str(&mut m, " has no p:spTree");
            Err(Error::Invalid(m))
        },
    }
}

/// The `a:lvl1pPr` of one master text style (`titleStyle`, …) under
/// `p:txStyles`.
pub open spec fn style_level_spec(master: XmlNode, style: Seq<char>) -> Option<XmlNode> {
    match first_named(master.children@, "txStyles"@) {
        None => None,
        Some(tx) => match first_named(tx.children@, style) {
            None => None,
            Some(st) => first_named(st.children@, "lvl1pPr"@),
        },
    }
}

/// The first-level paragraph properties of the master's text styles, as
/// (style key, `a:lvl1pPr`): `title` from `p:titleStyle`, `body` from
/// `p:bodyStyle`, `other` from `p:otherStyle`, in that order, each when
/// present.
pub fn master_style_levels<'a>(master: &'a XmlNode) -> (r: Vec<(&'static str, &'a XmlNode)>)
    ensures
        r@.map_values(|p: (&'static str, &'a XmlNode)| (p.0@, *p.1)) == (match style_level_spec(
            *master,
            "titleStyle"@,
        ) {
            Some(l) => seq![("title"@, l)],
            None => Seq::empty(),
        }) + (match style_level_spec(*master, "bodyStyle"@) {
            Some(l) => seq![("body"@, l)],
            None => Seq::empty(),
        }) + (match style_level_spec(*master, "otherStyle"@) {
            Some(l) => seq![("other"@, l)],
            None => Seq::empty(),
        }),
{
    let mut out: Vec<(&'static str, &'a XmlNode)> = Vec::new();
    let tx = match first(master, "txStyles") {
        Some(t) => t,
        None => {
            assert(out@.map_values(|p: (&'static str, &'a XmlNode)| (p.0@, *p.1)) =~= Seq::empty());
            return out;
        },
    };
    let ghost v0 = out@.map_values(|p: (&'static str, &'a XmlNode)| (p.0@, *p.1));
    if let Some(st) = first(tx, "titleStyle") {
        if let Some(l) = first(st, "lvl1pPr") {
            out.push(("title", l));
        }
    }
    let ghost v1 = out@.map_values(|p: (&'static str, &'a XmlNode)| (p.0@, *p.1));
    assert(v1 =~= v0 + (match style_level_spec(*master, "titleStyle"@) {
        Some(l) => seq![("title"@, l)],
        None => Seq::empty(),
    }));
    if let Some(st) = first(tx, "bodyStyle") {
        if let Some(l) = first(st, "lvl1pPr") {
            out.push(("body", l));
        }
    }
    let ghost v2 = out@.map_values(|p: (&'static str, &'a XmlNode)| (p.0@, *p.1));
    assert(v2 =~= v1 + (match style_level_spec(*master, "bodyStyle"@) {
        Some(l) => seq![("body"@, l)],
        None => Seq::empty(),
    }));
    if let Some(st) = first(tx, "otherStyle") {
        if let Some(l) = first(st, "lvl1pPr") {
            out.push(("other", l));
        }
    }
    let ghost v3 = out@.map_values(|p: (&'static str, &'a XmlNode)| (p.0@, *p.1));
    assert(v3 =~= v2 + (match style_level_spec(*master, "otherStyle"@) {
        Some(l) => seq![("other"@, l)],
        None => Seq::empty(),
    }));
    assert(v0 =~= Seq::empty());
    out
}

/// The view of a placeholder key.
pub open spec fn ph_key_view(k: (String, Option<String>)) -> (Seq<char>, Option<Seq<char>>) {
    (
        k.0@,
        match k.1 {
            Some(i) => Some(i@),
            None => None,
        },
    )
}

/// The first position of `key` among the keys.
pub open spec fn key_position(keys: Seq<(Seq<char>, Option<Seq<char>>)>, key: (Seq<char>, Option<Seq<char>>)) -> Option<int>
    decreases keys.len(),
{
    if keys.len() == 0 {
        None
    } else {
        match key_position(keys.drop_last(), key) {
            Some(i) => Some(i),
            None => if keys.last() == key {
                Some(keys.len() - 1)
            } else {
                None
            },
        }
    }
}

/// The layout placeholder a slide placeholder inherits from: the one with
/// the same type and index, else the one of the same type without an
/// index.
pub open spec fn inherited_placeholder_spec(
    keys: Seq<(Seq<char>, Option<Seq<char>>)>,
    key: (Seq<char>, Option<Seq<char>>),
) -> Option<int> {
    match key_position(keys, key) {
        Some(i) => Some(i),
        None => key_position(keys, (key.0, None)),
    }
}

fn same_index(a: &Option<String>, b: Option<&str>) -> (r: bool)
    ensures
        r == ((match *a {
            Some(x) => Some(x@),
            None => None::<Seq<char>>,
        }) == (match b {
            Some(y) => Some(y@),
            None => None::<Seq<char>>,
        })),
{
    match (a, b) {
        (Some(x), Some(y)) => str_eq(x.as_str(), y),
        (None, None) => true,
        _ => false,
    }
}

fn find_key(keys: &[(String, Option<String>)], kind: &str, idx: Option<&str>) -> (r: Option<usize>)
    ensures
        r == (match key_position(
            keys@.map_values(|k: (String, Option<String>)| ph_key_view(k)),
            (
                kind@,
                match idx {
                    Some(i) => Some(i@),
                    None => None,
                },
            ),
        ) {
            Some(i) => Some(i as usize),
            None => None,
        }),
{
    let ghost kv = keys@.map_values(|k: (String, Option<String>)| ph_key_view(k));
    let ghost target = (
        kind@,
        match idx {
            Some(i) => Some(i@),
            None => None::<Seq<char>>,
        },
    );
    let mut i: usize = 0;
    while i < keys.len()
        invariant
            i <= keys@.len(),
            kv == keys@.map_values(|k: (String, Option<String>)| ph_key_view(k)),
            target == (
                kind@,
                match idx {
                    Some(i) => Some(i@),
                    None => None::<Seq<char>>,
                },
            ),
            key_position(kv.take(i as int), target) is None,
        decreases keys.len() - i,
    {
        assert(kv.take(i + 1).drop_last() =~= kv.take(i as int));
        assert(kv.take(i + 1).last() == ph_key_view(keys@[i as int]));
        let same_idx = same_index(&keys[i].1, idx);
        if str_eq(keys[i].0.as_str(), kind) && same_idx {
            assert(kv.take(i + 1).last() == target);
            proof {
                lemma_position_prefix(kv, i as int, target);
            }
            return Some(i);
        }
        i = i + 1;
    }
    assert(kv.take(i as int) =~= kv);
    None
}

proof fn lemma_position_prefix(
    kv: Seq<(Seq<char>, Option<Seq<char>>)>,
    i: int,
    target: (Seq<char>, Option<Seq<char>>),
)
    requires
        0 <= i < kv.len(),
        key_position(kv.take(i), target) is None,
        kv[i] == target,
    ensures
        key_position(kv, target) == Some(i),
    decreases kv.len(),
{
    if kv.len() > i + 1 {
        assert(kv.drop_last().take(i) =~= kv.take(i));
        lemma_position_prefix(kv.drop_last(), i, target);
    } else {
        assert(kv.drop_last() =~= kv.take(i));
    }
}

/// The position of the layout placeholder a slide placeholder inherits
/// from, among the layout's placeholder keys (see
/// [`inherited_placeholder_spec`]).
pub fn inherited_placeholder(keys: &[(String, Option<String>)], key: &(String, Option<String>)) -> (r: Option<usize>)
    ensures
        r == (match inherited_placeholder_spec(
            keys@.map_values(|k: (String, Option<String>)| ph_key_view(k)),
            ph_key_view(*key),
        ) {
            Some(i) => Some(i as usize),
            None => None,
        }),
{
    let idx: Option<&str> = match &key.1 {
        Some(i) => Some(i.as_str()),
        None => None,
    };
    match find_key(keys, key.0.as_str(), idx) {
        Some(i) => Some(i),
        None => find_key(keys, key.0.as_str(), None),
    }
}

/// A paragraph's `algn` as an alignment: `ctr`, `r`, `just` and `dist`
/// by name, any other value left; none without the attribute.
pub open spec fn paragraph_align_spec(p_pr: XmlNode) -> Option<HorizontalAlign> {
    match attr_spec(p_pr.attributes@, "algn"@) {
        None => None,
        Some(a) => Some(
            if a == "ctr"@ {
                HorizontalAlign::Center
            } else if a == "r"@ {
                HorizontalAlign::Right
            } else if a == "just"@ {
                HorizontalAlign::Justify
            } else if a == "dist"@ {
                HorizontalAlign::Distributed
            } else {
                HorizontalAlign::Left
            },
        ),
    }
}

/// A paragraph's alignment (see [`paragraph_align_spec`]).
pub fn paragraph_align(p_pr: &XmlNode) -> (r: Option<HorizontalAlign>)
    ensures
        r == paragraph_align_spec(*p_pr),
{
    match attr(p_pr, "algn") {
        None => None,
        Some(a) => Some(
            if str_eq(a, "ctr") {
                HorizontalAlign::Center
            } else if str_eq(a, "r") {
                HorizontalAlign::Right
            } else if str_eq(a, "just") {
                HorizontalAlign::Justify
            } else if str_eq(a, "dist") {
                HorizontalAlign::Distributed
            } else {
                HorizontalAlign::Left
            },
        ),
    }
}

/// One piece of a paragraph: a run with its text and its `a:rPr`, a line
/// break, or a field with its text.
#[derive(Debug)]
pub enum ParaPiece<'a> {
    Run(String, Option<&'a XmlNode>),
    Break,
    Field(String),
}

/// The text of a run or field: the text of its `a:t`, empty without one.
pub open spec fn piece_text(el: XmlNode) -> Seq<char> {
    match first_named(el.children@, "t"@) {
        Some(t) => match text_spec(t.children@) {
            Some(s) => s,
            None => Seq::empty(),
        },
        None => Seq::empty(),
    }
}

/// A piece as text: (kind, text, run properties): kind 0 a run, 1 a break,
/// 2 a field.
pub open spec fn piece_view<'a>(p: ParaPiece<'a>) -> (int, Seq<char>, Option<XmlNode>) {
    match p {
        ParaPiece::Run(t, r) => (0, t@, match r {
            Some(n) => Some(*n),
            None => None,
        }),
        ParaPiece::Break => (1, Seq::empty(), None),
        ParaPiece::Field(t) => (2, t@, None),
    }
}

/// The pieces of a paragraph's children: `a:r` runs, `a:br` breaks and
/// `a:fld` fields, in order; other children are left out.
pub open spec fn para_pieces_spec(cs: Seq<XmlChild>) -> Seq<(int, Seq<char>, Option<XmlNode>)>
    decreases cs.len(),
{
    if cs.len() == 0 {
        Seq::empty()
    } else {
        let rest = para_pieces_spec(cs.drop_last());
        match cs.last() {
            XmlChild::Element(n) => if n.name@ == "r"@ {
                rest.push((0, piece_text(n), first_named(n.children@, "rPr"@)))
            } else if n.name@ == "br"@ {
                rest.push((1, Seq::empty(), None))
            } else if n.name@ == "fld"@ {
                rest.push((2, piece_text(n), None))
            } else {
                rest
            },
            _ => rest,
        }
    }
}

fn piece_text_of(el: &XmlNode) -> (r: String)
    ensures
        r@ == piece_text(*el),
{
    match first(el, "t") {
        Some(t) => match text(t) {
            Some(s) => s,
            None => String::new(),
        },
        None => String::new(),
    }
}

/// The pieces of a paragraph (see [`para_pieces_spec`]).
pub fn para_pieces<'a>(p: &'a XmlNode) -> (r: Vec<ParaPiece<'a>>)
    ensures
        r@.map_values(|x: ParaPiece<'a>| piece_view(x)) == para_pieces_spec(p.children@),
{
    let ghost cs = p.children@;
    let mut out: Vec<ParaPiece<'a>> = Vec::new();
    let mut i: usize = 0;
    while i < p.children.len()
        invariant
            i <= cs.len(),
            cs == p.children@,
            out@.map_values(|x: ParaPiece<'a>| piece_view(x)) == para_pieces_spec(cs.take(i as int)),
        decreases cs.len() - i,
    {
        assert(cs.take(i + 1).drop_last() =~= cs.take(i as int));
        assert(cs.take(i + 1).last() == cs[i as int]);
        let ghost before = out@;
        match &p.children[i] {
            XmlChild::Element(n) => {
                if str_eq(n.name.as_str(), "r") {
                    let t = piece_text_of(n);
                    out.push(ParaPiece::Run(t, first(n, "rPr")));
                } else if str_eq(n.name.as_str(), "br") {
                    out.push(ParaPiece::Break);
                } else if str_eq(n.name.as_str(), "fld") {
                    let t = piece_text_of(n);
                    out.push(ParaPiece::Field(t));
                }
                assert(out@.map_values(|x: ParaPiece<'a>| piece_view(x)) =~= para_pieces_spec(cs.take(i + 1)));
            },
            _ => {},
        }
        i = i + 1;
    }
    assert(cs.take(i as int) =~= cs);
    out
}

proof fn lemma_keywords_differ()
    ensures
        "l"@ != "ctr"@,
        "l"@ != "r"@,
        "l"@ != "just"@,
        "l"@ != "dist"@,
        "ctr"@ != "r"@,
        "ctr"@ != "just"@,
        "ctr"@ != "dist"@,
        "r"@ != "just"@,
        "r"@ != "dist"@,
        "just"@ != "dist"@,
{
    reveal_strlit("l");
    reveal_strlit("ctr");
    reveal_strlit("r");
    reveal_strlit("just");
    reveal_strlit("dist");
    assert("l"@[0] != "r"@[0]);
    assert("just"@[0] != "dist"@[0]);
    assert("l"@.len() != "ctr"@.len());
    assert("l"@.len() != "just"@.len());
    assert("l"@.len() != "dist"@.len());
    assert("ctr"@.len() != "r"@.len());
    assert("ctr"@.len() != "just"@.len());
    assert("ctr"@.len() != "dist"@.len());
    assert("r"@.len() != "just"@.len());
    assert("r"@.len() != "dist"@.len());
}

/// Importing a paragraph's `algn` undoes writing it: the keyword the
/// build writes for an alignment reads back as that alignment. So the
/// build gives distinct alignments distinct keywords, and the keywords are
/// DrawingML's: `l`, `ctr`, `r`, `just` and `dist` (`l` without an
/// alignment); reading `r` gives right and `just` gives justify.
pub proof fn lemma_alignment_round_trip(a: HorizontalAlign, p_pr: XmlNode)
    requires
        attr_spec(p_pr.attributes@, "algn"@) == Some(algn_spec(Some(a))),
    ensures
        paragraph_align_spec(p_pr) == Some(a),
{
    lemma_keywords_differ();
    reveal_strlit("l");
    reveal_strlit("ctr");
    reveal_strlit("r");
    reveal_strlit("just");
    reveal_strlit("dist");
}

/// The keywords the build writes: distinct alignments get distinct
/// keywords, each is DrawingML's, and no alignment is written as left.
pub proof fn lemma_alignment_keywords(a: HorizontalAlign, b: HorizontalAlign)
    ensures
        a != b ==> algn_spec(Some(a)) != algn_spec(Some(b)),
        algn_spec(None) == "l"@,
        algn_spec(Some(HorizontalAlign::Left)) == "l"@,
        algn_spec(Some(HorizontalAlign::Center)) == "ctr"@,
        algn_spec(Some(HorizontalAlign::Right)) == "r"@,
        algn_spec(Some(HorizontalAlign::Justify)) == "just"@,
        algn_spec(Some(HorizontalAlign::Distributed)) == "dist"@,
{
    lemma_keywords_differ();
    reveal_strlit("l");
    reveal_strlit("ctr");
    reveal_strlit("r");
    reveal_strlit("just");
    reveal_strlit("dist");
    if a != b {
        let x = algn_spec(Some(a));
        let y = algn_spec(Some(b));
        assert(x.len() != y.len() || x[0] != y[0]);
    }
}

/// Reading the DrawingML keywords: `r` is right and `just` is justify,
/// `ctr` center and `dist` distributed, and `l` left.
pub proof fn lemma_alignment_read(p_pr: XmlNode)
    ensures
        attr_spec(p_pr.attributes@, "algn"@) == Some("r"@) ==> paragraph_align_spec(p_pr) == Some(HorizontalAlign::Right),
        attr_spec(p_pr.attributes@, "algn"@) == Some("just"@) ==> paragraph_align_spec(p_pr) == Some(
            HorizontalAlign::Justify,
        ),
        attr_spec(p_pr.attributes@, "algn"@) == Some("ctr"@) ==> paragraph_align_spec(p_pr) == Some(
            HorizontalAlign::Center,
        ),
        attr_spec(p_pr.attributes@, "algn"@) == Some("dist"@) ==> paragraph_align_spec(p_pr) == Some(
            HorizontalAlign::Distributed,
        ),
        attr_spec(p_pr.attributes@, "algn"@) == Some("l"@) ==> paragraph_align_spec(p_pr) == Some(HorizontalAlign::Left),
{
    lemma_keywords_differ();
    reveal_strlit("l");
    reveal_strlit("ctr");
    reveal_strlit("r");
    reveal_strlit("just");
    reveal_strlit("dist");
}

} // verus!
