//! A parsed XML part as the importer reads it: elements with their local
//! names, attributes and children, and the readings of the tree that the
//! import rules are made of.

use vstd::prelude::*;

use crate::error::Error;
use crate::text::{push_str, str_eq};

verus! {

/// One child of an element, as the parser gives it: an element, text, a
/// CDATA section, a comment, or a processing instruction (target and
/// data).
#[derive(Debug)]
pub enum XmlChild {
    Element(XmlNode),
    Text(String),
    CData(String),
    Comment(String),
    Instruction(String, Option<String>),
}

/// An element: its local name (without the namespace prefix), its
/// attributes by local name, and its children in document order.
#[derive(Debug)]
pub struct XmlNode {
    pub name: String,
    pub attributes: Vec<(String, String)>,
    pub children: Vec<XmlChild>,
}

impl XmlChild {
    /// The element, for an element child.
    pub fn as_element(&self) -> (r: Option<&XmlNode>)
        ensures
            r == (match self {
                XmlChild::Element(n) => Some(n),
                _ => None::<&XmlNode>,
            }),
    {
        match self {
            XmlChild::Element(n) => Some(n),
            _ => None,
        }
    }
}

/// The value of the first attribute named `key`.
pub open spec fn attr_spec(attrs: Seq<(String, String)>, key: Seq<char>) -> Option<Seq<char>>
    decreases attrs.len(),
{
    if attrs.len() == 0 {
        None
    } else if attrs[0].0@ == key {
        Some(attrs[0].1@)
    } else {
        attr_spec(attrs.skip(1), key)
    }
}

/// The value of the attribute `key` of `el`.
pub fn attr<'a>(el: &'a XmlNode, key: &str) -> (r: Option<&'a str>)
    ensures
        match r {
            Some(v) => attr_spec(el.attributes@, key@) == Some(v@),
            None => attr_spec(el.attributes@, key@) is None,
        },
{
    let ghost a = el.attributes@;
    let mut i: usize = 0;
    assert(a.skip(0) =~= a);
    while i < el.attributes.len()
        invariant
            i <= a.len(),
            a == el.attributes@,
            attr_spec(a, key@) == attr_spec(a.skip(i as int), key@),
        decreases a.len() - i,
    {
        assert(a.skip(i as int)[0] == a[i as int]);
        assert(a.skip(i as int).skip(1) =~= a.skip(i + 1));
        if str_eq(el.attributes[i].0.as_str(), key) {
            return Some(el.attributes[i].1.as_str());
        }
        i = i + 1;
    }
    assert(a.skip(i as int) =~= Seq::<(String, String)>::empty());
    None
}

/// The element children named `name`, in order.
pub open spec fn named_children(cs: Seq<XmlChild>, name: Seq<char>) -> Seq<XmlNode>
    decreases cs.len(),
{
    if cs.len() == 0 {
        Seq::empty()
    } else {
        let rest = named_children(cs.drop_last(), name);
        match cs.last() {
            XmlChild::Element(n) => if n.name@ == name {
                rest.push(n)
            } else {
                rest
            },
            _ => rest,
        }
    }
}

/// The element children of `el` named `name`, in order.
pub fn children<'a>(el: &'a XmlNode, name: &str) -> (r: Vec<&'a XmlNode>)
    ensures
        r@.map_values(|n: &XmlNode| *n) == named_children(el.children@, name@),
{
    let ghost cs = el.children@;
    let mut out: Vec<&'a XmlNode> = Vec::new();
    let mut i: usize = 0;
    while i < el.children.len()
        invariant
            i <= cs.len(),
            cs == el.children@,
            out@.map_values(|n: &XmlNode| *n) == named_children(cs.take(i as int), name@),
        decreases cs.len() - i,
    {
        assert(cs.take(i + 1).drop_last() =~= cs.take(i as int));
        assert(cs.take(i + 1).last() == cs[i as int]);
        let ghost before = out@;
        match &el.children[i] {
            XmlChild::Element(n) => {
                if str_eq(n.name.as_str(), name) {
                    out.push(n);
                    assert(out@.map_values(|n: &XmlNode| *n) =~= before.map_values(|n: &XmlNode| *n).push(*n));
                }
            },
            _ => {},
        }
        i = i + 1;
    }
    assert(cs.take(i as int) =~= cs);
    out
}

/// The first element child named `name`.
pub open spec fn first_named(cs: Seq<XmlChild>, name: Seq<char>) -> Option<XmlNode>
    decreases cs.len(),
{
    if cs.len() == 0 {
        None
    } else {
        match cs[0] {
            XmlChild::Element(n) => if n.name@ == name {
                Some(n)
            } else {
                first_named(cs.skip(1), name)
            },
            _ => first_named(cs.skip(1), name),
        }
    }
}

/// The first element child of `el` named `name`.
pub fn first<'a>(el: &'a XmlNode, name: &str) -> (r: Option<&'a XmlNode>)
    ensures
        match r {
            Some(n) => first_named(el.children@, name@) == Some(*n),
            None => first_named(el.children@, name@) is None,
        },
{
    let ghost cs = el.children@;
    let mut i: usize = 0;
    assert(cs.skip(0) =~= cs);
    while i < el.children.len()
        invariant
            i <= cs.len(),
            cs == el.children@,
            first_named(cs, name@) == first_named(cs.skip(i as int), name@),
        decreases cs.len() - i,
    {
        assert(cs.skip(i as int)[0] == cs[i as int]);
        assert(cs.skip(i as int).skip(1) =~= cs.skip(i + 1));
        match &el.children[i] {
            XmlChild::Element(n) => {
                if str_eq(n.name.as_str(), name) {
                    return Some(n);
                }
            },
            _ => {},
        }
        i = i + 1;
    }
    assert(cs.skip(i as int) =~= Seq::<XmlChild>::empty());
    None
}

/// The element children, in document order.
pub open spec fn element_children(cs: Seq<XmlChild>) -> Seq<XmlNode>
    decreases cs.len(),
{
    if cs.len() == 0 {
        Seq::empty()
    } else {
        let rest = element_children(cs.drop_last());
        match cs.last() {
            XmlChild::Element(n) => rest.push(n),
            _ => rest,
        }
    }
}

/// The next level of a breadth-first walk: the element children of every
/// node of the level, in order.
pub open spec fn next_level(level: Seq<XmlNode>) -> Seq<XmlNode>
    decreases level.len(),
{
    if level.len() == 0 {
        Seq::empty()
    } else {
        next_level(level.drop_last()) + element_children(level.last().children@)
    }
}

/// The first node of a level named `name`.
pub open spec fn first_in_level(level: Seq<XmlNode>, name: Seq<char>) -> Option<XmlNode>
    decreases level.len(),
{
    if level.len() == 0 {
        None
    } else if level[0].name@ == name {
        Some(level[0])
    } else {
        first_in_level(level.skip(1), name)
    }
}

/// How deep the elements among the children go.
pub open spec fn forest_height(cs: Seq<XmlChild>) -> nat
    decreases cs,
{
    if cs.len() == 0 {
        0
    } else {
        let h = forest_height(cs.drop_last());
        let t = match cs.last() {
            XmlChild::Element(n) => 1 + forest_height(n.children@),
            _ => 0,
        };
        if h >= t {
            h
        } else {
            t
        }
    }
}

/// How deep the nodes of a level go.
pub open spec fn level_height(level: Seq<XmlNode>) -> nat
    decreases level.len(),
{
    if level.len() == 0 {
        0
    } else {
        let h = level_height(level.drop_last());
        let t = 1 + forest_height(level.last().children@);
        if h >= t {
            h
        } else {
            t
        }
    }
}

/// A breadth-first search from a level, for at most `fuel` levels.
pub open spec fn level_search(level: Seq<XmlNode>, name: Seq<char>, fuel: nat) -> Option<XmlNode>
    decreases fuel,
{
    if fuel == 0 || level.len() == 0 {
        None
    } else {
        match first_in_level(level, name) {
            Some(n) => Some(n),
            None => level_search(next_level(level), name, (fuel - 1) as nat),
        }
    }
}

/// The first descendant of `el` named `name` in a breadth-first walk:
/// the children in document order, then the grandchildren in document
/// order, and so on.
pub open spec fn descendant_named(el: XmlNode, name: Seq<char>) -> Option<XmlNode> {
    level_search(element_children(el.children@), name, forest_height(el.children@))
}

proof fn lemma_children_height(cs: Seq<XmlChild>)
    ensures
        level_height(element_children(cs)) <= forest_height(cs),
    decreases cs.len(),
{
    if cs.len() > 0 {
        lemma_children_height(cs.drop_last());
        match cs.last() {
            XmlChild::Element(n) => {
                assert(element_children(cs).drop_last() =~= element_children(cs.drop_last()));
            },
            _ => {},
        }
    }
}

proof fn lemma_concat_height(a: Seq<XmlNode>, b: Seq<XmlNode>)
    ensures
        level_height(a + b) <= (if level_height(a) >= level_height(b) {
            level_height(a)
        } else {
            level_height(b)
        }),
    decreases b.len(),
{
    if b.len() == 0 {
        assert(a + b =~= a);
    } else {
        lemma_concat_height(a, b.drop_last());
        assert((a + b).drop_last() =~= a + b.drop_last());
        assert((a + b).last() == b.last());
    }
}

proof fn lemma_next_level_height(level: Seq<XmlNode>)
    requires
        level.len() > 0,
    ensures
        level_height(next_level(level)) + 1 <= level_height(level),
    decreases level.len(),
{
    let init = level.drop_last();
    lemma_children_height(level.last().children@);
    lemma_concat_height(next_level(init), element_children(level.last().children@));
    if init.len() > 0 {
        lemma_next_level_height(init);
    }
}

fn element_children_of<'a>(el: &'a XmlNode) -> (r: Vec<&'a XmlNode>)
    ensures
        r@.map_values(|n: &XmlNode| *n) == element_children(el.children@),
{
    let ghost cs = el.children@;
    let mut out: Vec<&'a XmlNode> = Vec::new();
    let mut i: usize = 0;
    while i < el.children.len()
        invariant
            i <= cs.len(),
            cs == el.children@,
            out@.map_values(|n: &XmlNode| *n) == element_children(cs.take(i as int)),
        decreases cs.len() - i,
    {
        assert(cs.take(i + 1).drop_last() =~= cs.take(i as int));
        assert(cs.take(i + 1).last() == cs[i as int]);
        let ghost before = out@;
        match &el.children[i] {
            XmlChild::Element(n) => {
                out.push(n);
                assert(out@.map_values(|n: &XmlNode| *n) =~= before.map_values(|n: &XmlNode| *n).push(*n));
            },
            _ => {},
        }
        i = i + 1;
    }
    assert(cs.take(i as int) =~= cs);
    out
}

/// The first descendant of `el` named `name` in a breadth-first walk
/// (see [`descendant_named`]).
pub fn first_descendant<'a>(el: &'a XmlNode, name: &str) -> (r: Option<&'a XmlNode>)
    ensures
        match r {
            Some(d) => descendant_named(*el, name@) == Some(*d),
            None => descendant_named(*el, name@) is None,
        },
{
    let mut level = element_children_of(el);
    let ghost mut fuel: nat = forest_height(el.children@);
    proof {
        lemma_children_height(el.children@);
    }
    while level.len() > 0
        invariant
            level_search(level@.map_values(|n: &XmlNode| *n), name@, fuel) == descendant_named(*el, name@),
            level_height(level@.map_values(|n: &XmlNode| *n)) <= fuel,
        decreases fuel,
    {
        let ghost lv = level@.map_values(|n: &XmlNode| *n);
        assert(lv[0] == *level@[0]);
        assert(level_height(lv) >= 1) by {
            assert(level_height(lv) >= 1 + forest_height(lv.last().children@));
        }
        let mut k: usize = 0;
        assert(lv.skip(0) =~= lv);
        while k < level.len()
            invariant
                k <= lv.len(),
                lv == level@.map_values(|n: &XmlNode| *n),
                lv.len() > 0,
                fuel >= 1,
                level_search(lv, name@, fuel) == descendant_named(*el, name@),
                first_in_level(lv, name@) == first_in_level(lv.skip(k as int), name@),
            decreases lv.len() - k,
        {
            assert(lv.skip(k as int)[0] == *level@[k as int]);
            assert(lv.skip(k as int).skip(1) =~= lv.skip(k + 1));
            if str_eq(level[k].name.as_str(), name) {
                return Some(level[k]);
            }
            k = k + 1;
        }
        assert(lv.skip(k as int) =~= Seq::<XmlNode>::empty());
        let mut next: Vec<&'a XmlNode> = Vec::new();
        let mut m: usize = 0;
        while m < level.len()
            invariant
                m <= lv.len(),
                lv == level@.map_values(|n: &XmlNode| *n),
                next@.map_values(|n: &XmlNode| *n) == next_level(lv.take(m as int)),
            decreases lv.len() - m,
        {
            let kids = element_children_of(level[m]);
            assert(lv.take(m + 1).drop_last() =~= lv.take(m as int));
            assert(lv.take(m + 1).last() == *level@[m as int]);
            let ghost base = next@.map_values(|n: &XmlNode| *n);
            let mut j: usize = 0;
            while j < kids.len()
                invariant
                    j <= kids@.len(),
                    next@.map_values(|n: &XmlNode| *n) == base + kids@.map_values(|n: &XmlNode| *n).take(j as int),
                decreases kids.len() - j,
            {
                let ghost before = next@;
                next.push(kids[j]);
                assert(next@ =~= before.push(kids@[j as int]));
                assert(next@.map_values(|n: &XmlNode| *n) =~= before.map_values(|n: &XmlNode| *n).push(*kids@[j as int]));
                assert(kids@.map_values(|n: &XmlNode| *n).take(j + 1) =~= kids@.map_values(|n: &XmlNode| *n).take(
                    j as int,
                ).push(*kids@[j as int]));
                assert(next@.map_values(|n: &XmlNode| *n) =~= base + kids@.map_values(|n: &XmlNode| *n).take(j + 1));
                j = j + 1;
            }
            assert(kids@.map_values(|n: &XmlNode| *n).take(j as int) =~= kids@.map_values(|n: &XmlNode| *n));
            m = m + 1;
        }
        assert(lv.take(m as int) =~= lv);
        proof {
            lemma_next_level_height(lv);
        }
        level = next;
        proof {
            fuel = (fuel - 1) as nat;
        }
    }
    None
}

/// The text and CDATA children of an element, joined; none when it has
/// neither.
pub open spec fn text_spec(cs: Seq<XmlChild>) -> Option<Seq<char>>
    decreases cs.len(),
{
    if cs.len() == 0 {
        None
    } else {
        let rest = text_spec(cs.drop_last());
        match cs.last() {
            XmlChild::Text(t) => match rest {
                Some(r) => Some(r + t@),
                None => Some(t@),
            },
            XmlChild::CData(t) => match rest {
                Some(r) => Some(r + t@),
                None => Some(t@),
            },
            _ => rest,
        }
    }
}

/// The text content of `el`: its text and CDATA children joined, if it
/// has any.
pub fn text(el: &XmlNode) -> (r: Option<String>)
    ensures
        match r {
            Some(t) => text_spec(el.children@) == Some(t@),
            None => text_spec(el.children@) is None,
        },
{
    let ghost cs = el.children@;
    let mut out: Option<String> = None;
    let mut i: usize = 0;
    while i < el.children.len()
        invariant
            i <= cs.len(),
            cs == el.children@,
            match out {
                Some(t) => text_spec(cs.take(i as int)) == Some(t@),
                None => text_spec(cs.take(i as int)) is None,
            },
        decreases cs.len() - i,
    {
        assert(cs.take(i + 1).drop_last() =~= cs.take(i as int));
        assert(cs.take(i + 1).last() == cs[i as int]);
        let piece: Option<&String> = match &el.children[i] {
            XmlChild::Text(t) => Some(t),
            XmlChild::CData(t) => Some(t),
            _ => None,
        };
        match piece {
            Some(t) => {
                out = match out {
                    Some(mut acc) => {
                        push_str(&mut acc, t.as_str());
                        Some(acc)
                    },
                    None => Some(t.clone()),
                };
            },
            None => {},
        }
        i = i + 1;
    }
    assert(cs.take(i as int) =~= cs);
    out
}

// ---------------------------------------------------------------------------
// Parsing a part
// ---------------------------------------------------------------------------

#[verifier::external_type_specification]
#[verifier::external_body]
pub struct ExXmlElement(xmltree::Element);

/// A child of a parsed element, as text.
pub enum XmlChildV {
    Element(XmlNodeV),
    Text(Seq<char>),
    CData(Seq<char>),
    Comment(Seq<char>),
    Instruction(Seq<char>, Option<Seq<char>>),
}

/// A parsed element as text: its local name, its attributes by local
/// name, and its children in document order.
pub struct XmlNodeV {
    pub name: Seq<char>,
    pub attributes: Map<Seq<char>, Seq<char>>,
    pub children: Seq<XmlChildV>,
}

/// Attribute pairs as a map.
pub open spec fn attr_map(attrs: Seq<(String, String)>) -> Map<Seq<char>, Seq<char>>
    decreases attrs.len(),
{
    if attrs.len() == 0 {
        Map::empty()
    } else {
        attr_map(attrs.drop_last()).insert(attrs.last().0@, attrs.last().1@)
    }
}

/// The view of an element.
pub open spec fn node_view(n: XmlNode) -> XmlNodeV
    decreases n,
{
    XmlNodeV { name: n.name@, attributes: attr_map(n.attributes@), children: children_view(n.children@) }
}

/// The views of children, in order.
pub open spec fn children_view(cs: Seq<XmlChild>) -> Seq<XmlChildV>
    decreases cs,
{
    if cs.len() == 0 {
        Seq::empty()
    } else {
        children_view(cs.drop_last()).push(child_view(cs.last()))
    }
}

/// The view of a child.
pub open spec fn child_view(c: XmlChild) -> XmlChildV
    decreases c,
{
    match c {
        XmlChild::Element(n) => XmlChildV::Element(node_view(n)),
        XmlChild::Text(t) => XmlChildV::Text(t@),
        XmlChild::CData(t) => XmlChildV::CData(t@),
        XmlChild::Comment(t) => XmlChildV::Comment(t@),
        XmlChild::Instruction(t, d) => XmlChildV::Instruction(
            t@,
            match d {
                Some(x) => Some(x@),
                None => None,
            },
        ),
    }
}

/// What `xmltree::Element::parse` makes of a part's bytes: the root
/// element, or the text of its parse error.
pub uninterp spec fn parsed_xml(bytes: Seq<u8>) -> Result<XmlNodeV, Seq<char>>;

/// One parsed element in the library's form, child for child.
#[verifier::external_body]
fn element_tree(e: xmltree::Element) -> XmlNode {
    let children = e.children.into_iter().map(|c| match c {
        xmltree::XMLNode::Element(x) => XmlChild::Element(element_tree(x)),
        xmltree::XMLNode::Text(t) => XmlChild::Text(t),
        xmltree::XMLNode::CData(t) => XmlChild::CData(t),
        xmltree::XMLNode::Comment(t) => XmlChild::Comment(t),
        xmltree::XMLNode::ProcessingInstruction(t, d) => XmlChild::Instruction(t, d),
    });
    XmlNode { name: e.name, attributes: e.attributes.into_iter().collect(), children: children.collect() }
}

/// `xmltree::Element::parse` on a part's bytes, with the default parser
/// configuration: the root element converted child for child, or the
/// `Display` text of the parse error. The result is named
/// [`parsed_xml`] of the bytes. xmltree keeps attributes in a `HashMap`,
/// so only the set of attributes is stated, not the order in which they
/// come out.
#[verifier::external_body]
fn parse_xml(bytes: &[u8]) -> (r: Result<XmlNode, String>)
    ensures
        match r {
            Ok(n) => parsed_xml(bytes@) == Ok::<XmlNodeV, Seq<char>>(node_view(n)),
            Err(e) => parsed_xml(bytes@) == Err::<XmlNodeV, Seq<char>>(e@),
        },
{
    match xmltree::Element::parse(bytes) {
        Ok(root) => Ok(element_tree(root)),
        Err(e) => Err(e.to_string()),
    }
}

/// Parse a part of the package from its bytes; a parse error names the
/// part: ``parse XML in {part}: {error}``.
pub fn parse_part(part: &str, bytes: &[u8]) -> (r: Result<XmlNode, Error>)
    ensures
        match parsed_xml(bytes@) {
            Ok(v) => r matches Ok(n) && node_view(n) == v,
            Err(e) => r matches Err(Error::Invalid(m)) && m@ == "parse XML in "@ + part@ + ": "@ + e,
        },
{
    match parse_xml(bytes) {
        Ok(n) => Ok(n),
        Err(e) => {
            let mut m = String::from_str("parse XML in ");
            push_str(&mut m, part);
            push_str(&mut m, ": ");
            push_str(&mut m, e.as_str());
            Err(Error::Invalid(m))
        },
    }
}

} // verus!
