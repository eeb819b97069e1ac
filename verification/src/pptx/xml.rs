//! A tiny indenting XML writer for the OOXML parts.
//!
//! OOXML parts are regular, so a small builder with escaping is easier to
//! audit than a full XML library.

use vstd::prelude::*;

use crate::text::{chars_of, push_char, push_str};

verus! {

/// The escaped form of one character (XML 1.0 predefined entities).
pub open spec fn escape_char(c: char) -> Seq<char> {
    if c == '&' {
        seq!['&', 'a', 'm', 'p', ';']
    } else if c == '<' {
        seq!['&', 'l', 't', ';']
    } else if c == '>' {
        seq!['&', 'g', 't', ';']
    } else if c == '"' {
        seq!['&', 'q', 'u', 'o', 't', ';']
    } else if c == '\'' {
        seq!['&', 'a', 'p', 'o', 's', ';']
    } else {
        seq![c]
    }
}

/// `s` with every character replaced by its escaped form.
pub open spec fn escape_spec(s: Seq<char>) -> Seq<char>
    decreases s.len(),
{
    if s.len() == 0 {
        Seq::empty()
    } else {
        escape_spec(s.drop_last()) + escape_char(s.last())
    }
}

/// Escape text/attribute content per XML 1.0.
pub fn escape(text: &str) -> (out: String)
    ensures
        out@ == escape_spec(text@),
{
    let cs = chars_of(text);
    let mut out = String::new();
    let mut i: usize = 0;
    while i < cs.len()
        invariant
            cs@ == text@,
            i <= cs.len(),
            out@ == escape_spec(cs@.take(i as int)),
        decreases cs.len() - i,
    {
        let c = cs[i];
        proof {
            reveal_strlit("&amp;");
            reveal_strlit("&lt;");
            reveal_strlit("&gt;");
            reveal_strlit("&quot;");
            reveal_strlit("&apos;");
        }
        if c == '&' {
            push_str(&mut out, "&amp;");
        } else if c == '<' {
            push_str(&mut out, "&lt;");
        } else if c == '>' {
            push_str(&mut out, "&gt;");
        } else if c == '"' {
            push_str(&mut out, "&quot;");
        } else if c == '\'' {
            push_str(&mut out, "&apos;");
        } else {
            push_char(&mut out, c);
        }
        assert(cs@.take(i + 1).drop_last() =~= cs@.take(i as int));
        i = i + 1;
    }
    assert(cs@.take(i as int) =~= cs@);
    out
}

/// Two spaces per nesting level.
pub open spec fn indent_spec(n: nat) -> Seq<char>
    decreases n,
{
    if n == 0 {
        Seq::empty()
    } else {
        indent_spec((n - 1) as nat) + seq![' ', ' ']
    }
}

/// One attribute: ` key="escaped value"`.
pub open spec fn attr_text(key: Seq<char>, value: Seq<char>) -> Seq<char> {
    seq![' '] + key + seq!['=', '"'] + escape_spec(value) + seq!['"']
}

/// The attributes of an element, every one as ` key="escaped value"`, in order.
pub open spec fn attrs_spec(attrs: Seq<(Seq<char>, Seq<char>)>) -> Seq<char>
    decreases attrs.len(),
{
    if attrs.len() == 0 {
        Seq::empty()
    } else {
        attrs_spec(attrs.drop_last()) + attr_text(attrs.last().0, attrs.last().1)
    }
}

/// The character views of an attribute list.
pub open spec fn attr_views(attrs: Seq<(&str, &str)>) -> Seq<(Seq<char>, Seq<char>)> {
    attrs.map_values(|p: (&str, &str)| (p.0@, p.1@))
}

/// The XML prolog every document starts with.
pub open spec fn prolog() -> Seq<char> {
    "<?xml version=\"1.0\" encoding=\"UTF-8\" standalone=\"yes\"?>\n"@
}

/// The text of an opening tag at the given depth (without the line break).
pub open spec fn open_tag(depth: nat, name: Seq<char>, attrs: Seq<(Seq<char>, Seq<char>)>) -> Seq<char> {
    indent_spec(depth) + seq!['<'] + name + attrs_spec(attrs) + seq!['>']
}

/// The line of a closing tag at the given depth.
pub open spec fn close_line(depth: nat, name: Seq<char>) -> Seq<char> {
    indent_spec(depth) + seq!['<', '/'] + name + seq!['>', '\n']
}

/// The line of an element holding only escaped text, at the given depth.
pub open spec fn text_elem_line(
    depth: nat,
    name: Seq<char>,
    attrs: Seq<(Seq<char>, Seq<char>)>,
    text: Seq<char>,
) -> Seq<char> {
    indent_spec(depth) + seq!['<'] + name + attrs_spec(attrs) + seq!['>'] + escape_spec(text) + seq!['<', '/'] + name + seq![
        '>',
        '\n',
    ]
}

/// The line of a self-closing element at the given depth.
pub open spec fn leaf_line(depth: nat, name: Seq<char>, attrs: Seq<(Seq<char>, Seq<char>)>) -> Seq<char> {
    indent_spec(depth) + seq!['<'] + name + attrs_spec(attrs) + seq!['/', '>', '\n']
}

/// One step of writing a document.
pub enum XmlEvent {
    /// An opening tag with its attributes.
    Open(Seq<char>, Seq<(Seq<char>, Seq<char>)>),
    /// A closing tag.
    Close(Seq<char>),
    /// A self-closing element with its attributes.
    Leaf(Seq<char>, Seq<(Seq<char>, Seq<char>)>),
    /// Text content (escaped when written).
    Text(Seq<char>),
    /// An element with attributes whose only content is the escaped text,
    /// on one line.
    TextElem(Seq<char>, Seq<(Seq<char>, Seq<char>)>, Seq<char>),
}

/// Nesting depth after the events, starting from `d`.
pub open spec fn depth_after(d: nat, events: Seq<XmlEvent>) -> nat
    decreases events.len(),
{
    if events.len() == 0 {
        d
    } else {
        let prev = depth_after(d, events.drop_last());
        match events.last() {
            XmlEvent::Open(_, _) => prev + 1,
            XmlEvent::Close(_) => if prev > 0 {
                (prev - 1) as nat
            } else {
                0
            },
            _ => prev,
        }
    }
}

/// The text one event adds at nesting depth `d`.
pub open spec fn event_text(d: nat, e: XmlEvent) -> Seq<char> {
    match e {
        XmlEvent::Open(name, attrs) => open_tag(d, name, attrs) + seq!['\n'],
        XmlEvent::Close(name) => close_line(if d > 0 { (d - 1) as nat } else { 0 }, name),
        XmlEvent::Leaf(name, attrs) => leaf_line(d, name, attrs),
        XmlEvent::Text(t) => escape_spec(t),
        XmlEvent::TextElem(name, attrs, t) => text_elem_line(d, name, attrs, t),
    }
}

/// The text of the events written from depth `d`.
pub open spec fn render_events(d: nat, events: Seq<XmlEvent>) -> Seq<char>
    decreases events.len(),
{
    if events.len() == 0 {
        Seq::empty()
    } else {
        render_events(d, events.drop_last()) + event_text(
            depth_after(d, events.drop_last()),
            events.last(),
        )
    }
}

/// Rendering a sequence of events written after another.
pub proof fn lemma_render_events_append(d: nat, a: Seq<XmlEvent>, b: Seq<XmlEvent>)
    ensures
        render_events(d, a + b) == render_events(d, a) + render_events(depth_after(d, a), b),
        depth_after(d, a + b) == depth_after(depth_after(d, a), b),
    decreases b.len(),
{
    if b.len() == 0 {
        assert(a + b =~= a);
        assert(render_events(d, a) + Seq::<char>::empty() =~= render_events(d, a));
    } else {
        lemma_render_events_append(d, a, b.drop_last());
        assert((a + b).drop_last() =~= a + b.drop_last());
        assert((a + b).last() == b.last());
    }
}

/// An XML element tree as the writer's calls build it.
pub enum XmlTree {
    /// An element opened with its attributes, its children, then closed.
    Node(Seq<char>, Seq<(Seq<char>, Seq<char>)>, Seq<XmlTree>),
    /// A self-closing element.
    Leaf(Seq<char>, Seq<(Seq<char>, Seq<char>)>),
    /// Text content.
    Text(Seq<char>),
    /// An element holding only text, on one line.
    TextElem(Seq<char>, Seq<(Seq<char>, Seq<char>)>, Seq<char>),
}

/// The writer calls that build a tree, as events.
pub open spec fn tree_events(t: XmlTree) -> Seq<XmlEvent>
    decreases t,
{
    match t {
        XmlTree::Node(name, attrs, children) => seq![XmlEvent::Open(name, attrs)] + forest_events(children)
            + seq![XmlEvent::Close(name)],
        XmlTree::Leaf(name, attrs) => seq![XmlEvent::Leaf(name, attrs)],
        XmlTree::Text(text) => seq![XmlEvent::Text(text)],
        XmlTree::TextElem(name, attrs, text) => seq![XmlEvent::TextElem(name, attrs, text)],
    }
}

/// The writer calls that build a sequence of sibling trees, in order.
pub open spec fn forest_events(ts: Seq<XmlTree>) -> Seq<XmlEvent>
    decreases ts,
{
    if ts.len() == 0 {
        Seq::empty()
    } else {
        forest_events(ts.drop_last()) + tree_events(ts.last())
    }
}

/// The text of a tree at nesting depth `d`: an element's opening tag on
/// its own line, its children one level deeper, and its closing tag at
/// its own depth.
pub open spec fn tree_text(d: nat, t: XmlTree) -> Seq<char>
    decreases t,
{
    match t {
        XmlTree::Node(name, attrs, children) => open_tag(d, name, attrs) + seq!['\n'] + forest_text(d + 1, children)
            + close_line(d, name),
        XmlTree::Leaf(name, attrs) => leaf_line(d, name, attrs),
        XmlTree::Text(text) => escape_spec(text),
        XmlTree::TextElem(name, attrs, text) => text_elem_line(d, name, attrs, text),
    }
}

/// The text of sibling trees at depth `d`.
pub open spec fn forest_text(d: nat, ts: Seq<XmlTree>) -> Seq<char>
    decreases ts,
{
    if ts.len() == 0 {
        Seq::empty()
    } else {
        forest_text(d, ts.drop_last()) + tree_text(d, ts.last())
    }
}

proof fn lemma_single_event(d: nat, e: XmlEvent)
    ensures
        render_events(d, seq![e]) == event_text(d, e),
        depth_after(d, seq![e]) == depth_after(d, Seq::<XmlEvent>::empty().push(e)),
{
    let one = seq![e];
    assert(one.drop_last() =~= Seq::<XmlEvent>::empty());
    assert(one.last() == e);
    assert(render_events(d, Seq::<XmlEvent>::empty()) == Seq::<char>::empty());
    assert(depth_after(d, Seq::<XmlEvent>::empty()) == d);
    assert(Seq::<char>::empty() + event_text(d, e) =~= event_text(d, e));
    assert(one =~= Seq::<XmlEvent>::empty().push(e));
}

/// Writing a tree's calls from depth `d` writes the tree's text and ends
/// at depth `d` again.
pub proof fn lemma_tree_written(d: nat, t: XmlTree)
    ensures
        render_events(d, tree_events(t)) == tree_text(d, t),
        depth_after(d, tree_events(t)) == d,
    decreases t,
{
    match t {
        XmlTree::Node(name, attrs, children) => {
            let open = seq![XmlEvent::Open(name, attrs)];
            let inner = forest_events(children);
            let close = seq![XmlEvent::Close(name)];
            lemma_forest_written(d + 1, children);
            lemma_single_event(d, XmlEvent::Open(name, attrs));
            assert(open.drop_last() =~= Seq::<XmlEvent>::empty());
            assert(depth_after(d, open) == d + 1);
            lemma_render_events_append(d, open, inner);
            lemma_single_event(d + 1, XmlEvent::Close(name));
            assert(close.drop_last() =~= Seq::<XmlEvent>::empty());
            lemma_render_events_append(d, open + inner, close);
            assert(tree_events(t) =~= open + inner + close);
        },
        XmlTree::Leaf(name, attrs) => {
            lemma_single_event(d, XmlEvent::Leaf(name, attrs));
        },
        XmlTree::Text(text) => {
            lemma_single_event(d, XmlEvent::Text(text));
        },
        XmlTree::TextElem(name, attrs, text) => {
            lemma_single_event(d, XmlEvent::TextElem(name, attrs, text));
        },
    }
}

/// Writing sibling trees' calls from depth `d` writes their texts in turn
/// and ends at depth `d` again.
pub proof fn lemma_forest_written(d: nat, ts: Seq<XmlTree>)
    ensures
        render_events(d, forest_events(ts)) == forest_text(d, ts),
        depth_after(d, forest_events(ts)) == d,
    decreases ts,
{
    if ts.len() > 0 {
        lemma_forest_written(d, ts.drop_last());
        lemma_tree_written(d, ts.last());
        lemma_render_events_append(d, forest_events(ts.drop_last()), tree_events(ts.last()));
    }
}

/// A document whose writer calls build one tree is the XML prolog
/// followed by that tree's text: every element's closing tag matches its
/// opening tag, children sit one level deeper, and the depth returns to 0.
pub proof fn lemma_document_is_one_tree(t: XmlTree)
    ensures
        prolog() + render_events(0, tree_events(t)) == prolog() + tree_text(0, t),
        depth_after(0, tree_events(t)) == 0,
{
    lemma_tree_written(0, t);
}

/// A minimal XML writer producing one document (with prolog) in memory.
pub struct Xml {
    buf: String,
    indent: usize,
    head: Ghost<Seq<char>>,
    log: Ghost<Seq<XmlEvent>>,
}

impl Xml {
    /// The text is the document head followed by the rendering of the
    /// events written so far, and the depth is what they leave open.
    #[verifier::type_invariant]
    closed spec fn wf(self) -> bool {
        &&& self.buf@ == self.head@ + render_events(0, self.log@)
        &&& self.indent == depth_after(0, self.log@)
    }

    /// The text the document started with.
    pub closed spec fn head(self) -> Seq<char> {
        self.head@
    }

    /// A writer with no text at all, used while a method rebuilds `self`.
    fn placeholder() -> (x: Self)
        ensures
            x.events() == Seq::<XmlEvent>::empty(),
            x.head() == Seq::<char>::empty(),
            x.content() == Seq::<char>::empty(),
            x.depth() == 0,
    {
        Xml { buf: String::new(), indent: 0, head: Ghost(Seq::empty()), log: Ghost(Seq::empty()) }
    }

    /// The text written so far.
    pub closed spec fn content(self) -> Seq<char> {
        self.buf@
    }

    /// The number of elements currently open.
    pub closed spec fn depth(self) -> nat {
        self.indent as nat
    }

    /// The events written so far.
    pub closed spec fn events(self) -> Seq<XmlEvent> {
        self.log@
    }

    /// Create a writer that already carries the XML prolog.
    pub fn new() -> (x: Self)
        ensures
            x.content() == prolog(),
            x.depth() == 0,
            x.events() == Seq::<XmlEvent>::empty(),
            x.head() == prolog(),
    {
        let buf = String::from_str("<?xml version=\"1.0\" encoding=\"UTF-8\" standalone=\"yes\"?>\n");
        let ghost head = buf@;
        let x = Xml { buf, indent: 0, head: Ghost(head), log: Ghost(Seq::empty()) };
        assert(x.buf@ =~= x.head@ + render_events(0, x.log@));
        x
    }

    /// Open an element with attributes (may be empty).
    pub fn start(&mut self, name: &str, attrs: &[(&str, &str)])
        requires
            old(self).depth() < usize::MAX,
        ensures
            final(self).content() == old(self).content() + open_tag(old(self).depth(), name@, attr_views(attrs@))
                + seq!['\n'],
            final(self).depth() == old(self).depth() + 1,
            final(self).events() == old(self).events().push(XmlEvent::Open(name@, attr_views(attrs@))),
            final(self).head() == old(self).head(),
    {
        proof {
            use_type_invariant(&*self);
        }
        let ghost events = self.log@.push(XmlEvent::Open(name@, attr_views(attrs@)));
        let mut me = Xml::placeholder();
        std::mem::swap(&mut me, self);
        proof {
            use_type_invariant(&me);
        }
        let Xml { buf, indent: level, head, log } = me;
        let mut buf = buf;
        push_open(&mut buf, level, name, attrs);
        push_char(&mut buf, '\n');
        assert(events.drop_last() =~= log@);
        assert(buf@ =~= head@ + render_events(0, events));
        *self = Xml { buf, indent: level + 1, head, log: Ghost(events) };
    }

    /// Close an element opened by [`Xml::start`].
    pub fn end(&mut self, name: &str)
        requires
            old(self).depth() > 0,
        ensures
            final(self).depth() == old(self).depth() - 1,
            final(self).content() == old(self).content() + close_line(final(self).depth(), name@),
            final(self).events() == old(self).events().push(XmlEvent::Close(name@)),
            final(self).head() == old(self).head(),
    {
        proof {
            use_type_invariant(&*self);
            reveal_strlit("</");
            reveal_strlit(">\n");
        }
        let ghost events = self.log@.push(XmlEvent::Close(name@));
        let mut me = Xml::placeholder();
        std::mem::swap(&mut me, self);
        proof {
            use_type_invariant(&me);
        }
        let Xml { buf, indent: level, head, log } = me;
        let mut buf = buf;
        let indent = level - 1;
        write_indent(&mut buf, indent);
        push_str(&mut buf, "</");
        push_str(&mut buf, name);
        push_str(&mut buf, ">\n");
        assert(events.drop_last() =~= log@);
        assert(buf@ =~= head@ + render_events(0, events));
        *self = Xml { buf, indent, head, log: Ghost(events) };
    }

    /// A self-closing element.
    pub fn leaf(&mut self, name: &str, attrs: &[(&str, &str)])
        ensures
            final(self).depth() == old(self).depth(),
            final(self).content() == old(self).content() + leaf_line(old(self).depth(), name@, attr_views(attrs@)),
            final(self).events() == old(self).events().push(XmlEvent::Leaf(name@, attr_views(attrs@))),
            final(self).head() == old(self).head(),
    {
        proof {
            use_type_invariant(&*self);
            reveal_strlit("/>\n");
        }
        let ghost events = self.log@.push(XmlEvent::Leaf(name@, attr_views(attrs@)));
        let mut me = Xml::placeholder();
        std::mem::swap(&mut me, self);
        proof {
            use_type_invariant(&me);
        }
        let Xml { buf, indent: level, head, log } = me;
        let mut buf = buf;
        write_indent(&mut buf, level);
        push_char(&mut buf, '<');
        push_str(&mut buf, name);
        write_attrs(&mut buf, attrs);
        push_str(&mut buf, "/>\n");
        assert(events.drop_last() =~= log@);
        assert(buf@ =~= head@ + render_events(0, events));
        *self = Xml { buf, indent: level, head, log: Ghost(events) };
    }

    /// Escaped text content (no line break or indentation around it).
    pub fn text(&mut self, text: &str)
        ensures
            final(self).depth() == old(self).depth(),
            final(self).content() == old(self).content() + escape_spec(text@),
            final(self).events() == old(self).events().push(XmlEvent::Text(text@)),
            final(self).head() == old(self).head(),
    {
        proof {
            use_type_invariant(&*self);
        }
        let ghost events = self.log@.push(XmlEvent::Text(text@));
        let mut me = Xml::placeholder();
        std::mem::swap(&mut me, self);
        proof {
            use_type_invariant(&me);
        }
        let Xml { buf, indent: level, head, log } = me;
        let mut buf = buf;
        let escaped = escape(text);
        push_str(&mut buf, escaped.as_str());
        assert(events.drop_last() =~= log@);
        assert(buf@ =~= head@ + render_events(0, events));
        *self = Xml { buf, indent: level, head, log: Ghost(events) };
    }

    /// `name` with attributes, containing the escaped `text` as its only
    /// content, on one line: `<name key="value">escaped text</name>`.
    pub fn inline_text(&mut self, name: &str, attrs: &[(&str, &str)], text: &str)
        ensures
            final(self).depth() == old(self).depth(),
            final(self).content() == old(self).content() + text_elem_line(
                old(self).depth(),
                name@,
                attr_views(attrs@),
                text@,
            ),
            final(self).events() == old(self).events().push(
                XmlEvent::TextElem(name@, attr_views(attrs@), text@),
            ),
            final(self).head() == old(self).head(),
    {
        proof {
            use_type_invariant(&*self);
            reveal_strlit("</");
            reveal_strlit(">\n");
        }
        let ghost events = self.log@.push(XmlEvent::TextElem(name@, attr_views(attrs@), text@));
        let mut me = Xml::placeholder();
        std::mem::swap(&mut me, self);
        proof {
            use_type_invariant(&me);
        }
        let Xml { buf, indent: level, head, log } = me;
        let mut buf = buf;
        write_indent(&mut buf, level);
        push_char(&mut buf, '<');
        push_str(&mut buf, name);
        write_attrs(&mut buf, attrs);
        push_char(&mut buf, '>');
        let escaped = escape(text);
        push_str(&mut buf, escaped.as_str());
        push_str(&mut buf, "</");
        push_str(&mut buf, name);
        push_str(&mut buf, ">\n");
        assert(events.drop_last() =~= log@);
        assert(buf@ =~= head@ + render_events(0, events));
        *self = Xml { buf, indent: level, head, log: Ghost(events) };
    }

    /// `name` containing the escaped `text` as its only content, on one line:
    /// `<name>escaped text</name>`.
    pub fn text_elem(&mut self, name: &str, text: &str)
        ensures
            final(self).depth() == old(self).depth(),
            final(self).content() == old(self).content() + text_elem_line(
                old(self).depth(),
                name@,
                seq![],
                text@,
            ),
            final(self).events() == old(self).events().push(XmlEvent::TextElem(name@, seq![], text@)),
            final(self).head() == old(self).head(),
    {
        let no_attrs: [(&str, &str); 0] = [];
        assert(attr_views(no_attrs@) =~= Seq::<(Seq<char>, Seq<char>)>::empty());
        self.inline_text(name, &no_attrs, text);
    }


    /// Open an element without attributes.
    pub fn open(&mut self, name: &str)
        requires
            old(self).depth() < usize::MAX,
        ensures
            final(self).depth() == old(self).depth() + 1,
            final(self).events() == old(self).events().push(XmlEvent::Open(name@, seq![])),
            final(self).head() == old(self).head(),
    {
        let no_attrs: [(&str, &str); 0] = [];
        assert(attr_views(no_attrs@) =~= Seq::<(Seq<char>, Seq<char>)>::empty());
        self.start(name, &no_attrs);
    }

    /// Open an element with one attribute.
    pub fn open_with(&mut self, name: &str, key: &str, value: &str)
        requires
            old(self).depth() < usize::MAX,
        ensures
            final(self).depth() == old(self).depth() + 1,
            final(self).events() == old(self).events().push(
                XmlEvent::Open(name@, seq![(key@, value@)]),
            ),
            final(self).head() == old(self).head(),
    {
        let attrs = [(key, value)];
        assert(attr_views(attrs@) =~= seq![(key@, value@)]);
        self.start(name, &attrs);
    }

    /// A self-closing element without attributes.
    pub fn empty(&mut self, name: &str)
        ensures
            final(self).depth() == old(self).depth(),
            final(self).events() == old(self).events().push(XmlEvent::Leaf(name@, seq![])),
            final(self).head() == old(self).head(),
    {
        let no_attrs: [(&str, &str); 0] = [];
        assert(attr_views(no_attrs@) =~= Seq::<(Seq<char>, Seq<char>)>::empty());
        self.leaf(name, &no_attrs);
    }

    /// A self-closing element with one attribute.
    pub fn leaf_with(&mut self, name: &str, key: &str, value: &str)
        ensures
            final(self).depth() == old(self).depth(),
            final(self).events() == old(self).events().push(
                XmlEvent::Leaf(name@, seq![(key@, value@)]),
            ),
            final(self).head() == old(self).head(),
    {
        let attrs = [(key, value)];
        assert(attr_views(attrs@) =~= seq![(key@, value@)]);
        self.leaf(name, &attrs);
    }

    /// A self-closing element with two attributes.
    pub fn leaf_with2(&mut self, name: &str, k1: &str, v1: &str, k2: &str, v2: &str)
        ensures
            final(self).depth() == old(self).depth(),
            final(self).events() == old(self).events().push(
                XmlEvent::Leaf(name@, seq![(k1@, v1@), (k2@, v2@)]),
            ),
            final(self).head() == old(self).head(),
    {
        let attrs = [(k1, v1), (k2, v2)];
        assert(attr_views(attrs@) =~= seq![(k1@, v1@), (k2@, v2@)]);
        self.leaf(name, &attrs);
    }

    /// Emit the document and return the final string.
    pub fn into_string(self) -> (s: String)
        ensures
            s@ == self.content(),
            s@ == self.head() + render_events(0, self.events()),
    {
        proof {
            use_type_invariant(&self);
        }
        self.buf
    }
}

fn write_attrs(buf: &mut String, attrs: &[(&str, &str)])
    ensures
        final(buf)@ == old(buf)@ + attrs_spec(attr_views(attrs@)),
{
    let ghost start = buf@;
    let mut i: usize = 0;
    while i < attrs.len()
        invariant
            i <= attrs@.len(),
            buf@ == start + attrs_spec(attr_views(attrs@.take(i as int))),
        decreases attrs.len() - i,
    {
        proof {
            reveal_strlit("=\"");
        }
        let (key, value) = attrs[i];
        push_char(buf, ' ');
        push_str(buf, key);
        push_str(buf, "=\"");
        let escaped = escape(value);
        push_str(buf, escaped.as_str());
        push_char(buf, '"');
        let ghost a = attr_views(attrs@.take(i + 1));
        assert(a.drop_last() =~= attr_views(attrs@.take(i as int)));
        assert(buf@ =~= start + attrs_spec(a));
        i = i + 1;
    }
    assert(attrs@.take(i as int) =~= attrs@);
}

fn push_open(buf: &mut String, indent: usize, name: &str, attrs: &[(&str, &str)])
    ensures
        final(buf)@ == old(buf)@ + open_tag(indent as nat, name@, attr_views(attrs@)),
{
    write_indent(buf, indent);
    push_char(buf, '<');
    push_str(buf, name);
    write_attrs(buf, attrs);
    push_char(buf, '>');
}

fn write_indent(buf: &mut String, indent: usize)
    ensures
        final(buf)@ == old(buf)@ + indent_spec(indent as nat),
{
    let ghost start = buf@;
    let mut i: usize = 0;
    while i < indent
        invariant
            i <= indent,
            buf@ == start + indent_spec(i as nat),
        decreases indent - i,
    {
        proof {
            reveal_strlit("  ");
        }
        push_str(buf, "  ");
        i = i + 1;
        assert(buf@ =~= start + indent_spec(i as nat)) by {
            assert(indent_spec(i as nat) == indent_spec((i - 1) as nat) + seq![' ', ' ']);
        }
    }
}

} // verus!
