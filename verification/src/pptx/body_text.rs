//! The text of an imported text body: plain lines where every paragraph
//! looks alike, PPTD rich-text markup (`<p style>`, `<span style>`,
//! `<strong>`, `<em>`) where they differ.
//!
//! Numbers (font sizes, line heights, paragraph spacing) arrive here as the
//! text they are written with.

use vstd::prelude::*;

use super::import::{css_align, css_align_spec};
use super::rich::{same_flag, same_text};
use super::theme::opt_text;
use crate::pptd::elements::{TextAutofit, TextDirection};
use crate::pptd::shared::{Alignment, HorizontalAlign, VerticalAlign};
use crate::text::{chars_of, is_empty_text, push_char, push_str, str_eq, trim, trim_chars};

verus! {

/// The look of an imported run: its color, its font size in pixels (as
/// text), its single font family, bold and italic.
#[derive(Debug, Clone, PartialEq)]
pub struct TextLook {
    pub color: Option<String>,
    pub size: Option<String>,
    pub family: Option<String>,
    pub bold: Option<bool>,
    pub italic: Option<bool>,
}

pub struct TextLookV {
    pub color: Option<Seq<char>>,
    pub size: Option<Seq<char>>,
    pub family: Option<Seq<char>>,
    pub bold: Option<bool>,
    pub italic: Option<bool>,
}

impl View for TextLook {
    type V = TextLookV;

    open spec fn view(&self) -> TextLookV {
        TextLookV {
            color: opt_text(self.color),
            size: opt_text(self.size),
            family: opt_text(self.family),
            bold: self.bold,
            italic: self.italic,
        }
    }
}

pub open spec fn look_view(o: Option<TextLook>) -> Option<TextLookV> {
    match o {
        Some(l) => Some(l@),
        None => None,
    }
}

/// One run of a paragraph: its look (none for line breaks and fields) and
/// its text.
#[derive(Debug, Clone, PartialEq)]
pub struct ImportRun {
    pub look: Option<TextLook>,
    pub text: String,
}

pub struct ImportRunV {
    pub look: Option<TextLookV>,
    pub text: Seq<char>,
}

impl View for ImportRun {
    type V = ImportRunV;

    open spec fn view(&self) -> ImportRunV {
        ImportRunV { look: look_view(self.look), text: self.text@ }
    }
}

/// One paragraph: alignment, line height (a multiple, as text), spacing
/// before it (pixels, as text) and its runs.
#[derive(Debug, Clone, PartialEq)]
pub struct ImportLine {
    pub align: Option<HorizontalAlign>,
    pub line_height: Option<String>,
    pub margin_top: Option<String>,
    pub runs: Vec<ImportRun>,
}

pub struct ImportLineV {
    pub align: Option<HorizontalAlign>,
    pub line_height: Option<Seq<char>>,
    pub margin_top: Option<Seq<char>>,
    pub runs: Seq<ImportRunV>,
}

pub open spec fn runs_view(rs: Seq<ImportRun>) -> Seq<ImportRunV> {
    rs.map_values(|r: ImportRun| r@)
}

impl View for ImportLine {
    type V = ImportLineV;

    open spec fn view(&self) -> ImportLineV {
        ImportLineV {
            align: self.align,
            line_height: opt_text(self.line_height),
            margin_top: opt_text(self.margin_top),
            runs: runs_view(self.runs@),
        }
    }
}

pub open spec fn lines_view(ls: Seq<ImportLine>) -> Seq<ImportLineV> {
    ls.map_values(|l: ImportLine| l@)
}

pub open spec fn texts_view(ts: Seq<String>) -> Seq<Seq<char>> {
    ts.map_values(|t: String| t@)
}

// ---------------------------------------------------------------------------
// Text helpers
// ---------------------------------------------------------------------------

/// The markup form of one character: `&`, `<` and `>` become entities.
pub open spec fn escape_markup_char(c: char) -> Seq<char> {
    if c == '&' {
        "&amp;"@
    } else if c == '<' {
        "&lt;"@
    } else if c == '>' {
        "&gt;"@
    } else {
        seq![c]
    }
}

/// `t` with `&`, `<` and `>` written as entities.
pub open spec fn escape_markup_spec(t: Seq<char>) -> Seq<char>
    decreases t.len(),
{
    if t.len() == 0 {
        Seq::empty()
    } else {
        escape_markup_spec(t.drop_last()) + escape_markup_char(t.last())
    }
}

/// The pieces joined with `sep` between neighbours.
pub open spec fn join_with(parts: Seq<Seq<char>>, sep: Seq<char>) -> Seq<char>
    decreases parts.len(),
{
    if parts.len() == 0 {
        Seq::empty()
    } else if parts.len() == 1 {
        parts[0]
    } else {
        join_with(parts.drop_last(), sep) + sep + parts.last()
    }
}

/// Appends the markup form of `t`.
fn push_escaped(out: &mut String, t: &str)
    ensures
        final(out)@ == old(out)@ + escape_markup_spec(t@),
{
    let cs = chars_of(t);
    let ghost start = out@;
    let mut i: usize = 0;
    while i < cs.len()
        invariant
            i <= cs.len(),
            cs@ == t@,
            out@ == start + escape_markup_spec(cs@.take(i as int)),
        decreases cs.len() - i,
    {
        let c = cs[i];
        if c == '&' {
            push_str(out, "&amp;");
        } else if c == '<' {
            push_str(out, "&lt;");
        } else if c == '>' {
            push_str(out, "&gt;");
        } else {
            push_char(out, c);
        }
        assert(cs@.take(i + 1).drop_last() =~= cs@.take(i as int));
        i = i + 1;
    }
    assert(cs@.take(i as int) =~= t@);
}

/// The pieces joined with `sep`.
fn join_parts(parts: &Vec<String>, sep: &str) -> (r: String)
    ensures
        r@ == join_with(texts_view(parts@), sep@),
{
    let ghost all = texts_view(parts@);
    let mut r = String::new();
    let mut i: usize = 0;
    while i < parts.len()
        invariant
            i <= parts.len(),
            all == texts_view(parts@),
            r@ == join_with(all.take(i as int), sep@),
        decreases parts.len() - i,
    {
        if i > 0 {
            push_str(&mut r, sep);
        }
        push_str(&mut r, parts[i].as_str());
        assert(all.take(i + 1).drop_last() =~= all.take(i as int));
        assert(r@ =~= join_with(all.take(i + 1), sep@));
        i = i + 1;
    }
    assert(all.take(i as int) =~= all);
    r
}

fn contains_newline(t: &str) -> (r: bool)
    ensures
        r == t@.contains('\n'),
{
    let cs = chars_of(t);
    let mut i: usize = 0;
    while i < cs.len()
        invariant
            i <= cs.len(),
            cs@ == t@,
            forall|j: int| 0 <= j < i ==> cs@[j] != '\n',
        decreases cs.len() - i,
    {
        if cs[i] == '\n' {
            return true;
        }
        i = i + 1;
    }
    false
}

fn is_line_break(t: &str) -> (r: bool)
    ensures
        r == (t@ == seq!['\n']),
{
    let cs = chars_of(t);
    let r = cs.len() == 1 && cs[0] == '\n';
    assert(r ==> cs@ =~= seq!['\n']);
    r
}

// ---------------------------------------------------------------------------
// Markup of one paragraph
// ---------------------------------------------------------------------------

pub open spec fn bold_of(o: Option<TextLookV>) -> Option<bool> {
    match o {
        Some(l) => l.bold,
        None => None,
    }
}

pub open spec fn italic_of(o: Option<TextLookV>) -> Option<bool> {
    match o {
        Some(l) => l.italic,
        None => None,
    }
}

/// A one-piece list for a present value, an empty one otherwise.
pub open spec fn opt_part(o: Option<Seq<char>>) -> Seq<Seq<char>> {
    match o {
        Some(x) => seq![x],
        None => Seq::empty(),
    }
}

/// The CSS declarations of a paragraph's `style`.
pub open spec fn line_parts_spec(l: ImportLineV) -> Seq<Seq<char>> {
    opt_part(
        match l.align {
            Some(a) => Some("text-align:"@ + css_align_spec(a)),
            None => None,
        },
    ) + opt_part(
        match l.line_height {
            Some(v) => Some("line-height:"@ + v),
            None => None,
        },
    ) + opt_part(
        match l.margin_top {
            Some(v) => Some("margin-top:"@ + v + "px"@),
            None => None,
        },
    )
}

/// The `style` attribute of a paragraph tag, empty without declarations.
pub open spec fn style_attr_spec(parts: Seq<Seq<char>>) -> Seq<char> {
    if parts.len() == 0 {
        Seq::empty()
    } else {
        " style=\""@ + join_with(parts, "; "@) + "\""@
    }
}

/// The CSS declarations of a run that departs from the box's look: its
/// size, color and family where it has them, and its weight and slant
/// where they differ from the box's.
pub open spec fn span_parts_spec(st: Option<TextLookV>, base: Option<TextLookV>) -> Seq<Seq<char>> {
    let (size, color, family) = match st {
        Some(l) => (l.size, l.color, l.family),
        None => (None, None, None),
    };
    opt_part(
        match size {
            Some(v) => Some("font-size:"@ + v + "px"@),
            None => None,
        },
    ) + opt_part(
        match color {
            Some(v) => Some("color:"@ + v),
            None => None,
        },
    ) + opt_part(
        match family {
            Some(v) => Some("font-family:"@ + v),
            None => None,
        },
    ) + (if bold_of(st) != bold_of(base) {
        seq![
            "font-weight:"@ + (if bold_of(st) == Some(true) {
                "bold"@
            } else {
                "400"@
            }),
        ]
    } else {
        Seq::empty()
    }) + (if italic_of(st) != italic_of(base) {
        seq![
            "font-style:"@ + (if italic_of(st) == Some(true) {
                "italic"@
            } else {
                "normal"@
            }),
        ]
    } else {
        Seq::empty()
    })
}

/// The markup of one run inside a paragraph whose box look is `base`:
/// nothing for an empty run, the escaped text where the run looks like
/// the box, a space for a lone line break, and otherwise the text wrapped
/// in a `span` carrying its declarations, then in `em` and `strong` where
/// it is italic or bold.
pub open spec fn run_markup_spec(base: Option<TextLookV>, r: ImportRunV) -> Seq<char> {
    if r.text.len() == 0 {
        Seq::empty()
    } else if r.look == base && (r.look is None || !r.text.contains('\n')) {
        escape_markup_spec(r.text)
    } else if r.text == seq!['\n'] {
        seq![' ']
    } else {
        let parts = span_parts_spec(r.look, base);
        let inner = escape_markup_spec(r.text);
        let spanned = if parts.len() == 0 {
            inner
        } else {
            "<span style=\""@ + join_with(parts, "; "@) + "\">"@ + inner + "</span>"@
        };
        let slanted = if italic_of(r.look) == Some(true) {
            "<em>"@ + spanned + "</em>"@
        } else {
            spanned
        };
        if bold_of(r.look) == Some(true) {
            "<strong>"@ + slanted + "</strong>"@
        } else {
            slanted
        }
    }
}

pub open spec fn runs_markup_spec(base: Option<TextLookV>, rs: Seq<ImportRunV>) -> Seq<char>
    decreases rs.len(),
{
    if rs.len() == 0 {
        Seq::empty()
    } else {
        runs_markup_spec(base, rs.drop_last()) + run_markup_spec(base, rs.last())
    }
}

/// `<p style="...">runs</p>` for one paragraph.
pub open spec fn line_markup_spec(base: Option<TextLookV>, l: ImportLineV) -> Seq<char> {
    "<p"@ + style_attr_spec(line_parts_spec(l)) + ">"@ + runs_markup_spec(base, l.runs) + "</p>"@
}

pub open spec fn lines_markup_spec(base: Option<TextLookV>, ls: Seq<ImportLineV>) -> Seq<char>
    decreases ls.len(),
{
    if ls.len() == 0 {
        Seq::empty()
    } else {
        lines_markup_spec(base, ls.drop_last()) + line_markup_spec(base, ls.last())
    }
}

fn push_texts(v: &mut Vec<String>, t: String)
    ensures
        texts_view(final(v)@) == texts_view(old(v)@).push(t@),
{
    let ghost before = v@;
    v.push(t);
    assert(texts_view(v@) =~= texts_view(before).push(t@));
}

fn look_size(o: &Option<TextLook>) -> (r: Option<String>)
    ensures
        opt_text(r) == match look_view(*o) {
            Some(l) => l.size,
            None => None,
        },
{
    match o {
        Some(l) => match &l.size {
            Some(v) => Some(v.clone()),
            None => None,
        },
        None => None,
    }
}

fn look_color(o: &Option<TextLook>) -> (r: Option<String>)
    ensures
        opt_text(r) == match look_view(*o) {
            Some(l) => l.color,
            None => None,
        },
{
    match o {
        Some(l) => match &l.color {
            Some(v) => Some(v.clone()),
            None => None,
        },
        None => None,
    }
}

fn look_family(o: &Option<TextLook>) -> (r: Option<String>)
    ensures
        opt_text(r) == match look_view(*o) {
            Some(l) => l.family,
            None => None,
        },
{
    match o {
        Some(l) => match &l.family {
            Some(v) => Some(v.clone()),
            None => None,
        },
        None => None,
    }
}

fn copy_look(o: &Option<TextLook>) -> (r: Option<TextLook>)
    ensures
        look_view(r) == look_view(*o),
{
    match o {
        Some(l) => Some(
            TextLook {
                color: look_color(o),
                size: look_size(o),
                family: look_family(o),
                bold: l.bold,
                italic: l.italic,
            },
        ),
        None => None,
    }
}

fn look_bold(o: &Option<TextLook>) -> (r: Option<bool>)
    ensures
        r == bold_of(look_view(*o)),
{
    match o {
        Some(l) => l.bold,
        None => None,
    }
}

fn look_italic(o: &Option<TextLook>) -> (r: Option<bool>)
    ensures
        r == italic_of(look_view(*o)),
{
    match o {
        Some(l) => l.italic,
        None => None,
    }
}

fn same_look(a: &Option<TextLook>, b: &Option<TextLook>) -> (r: bool)
    ensures
        r == (look_view(*a) == look_view(*b)),
{
    match (a, b) {
        (Some(x), Some(y)) => same_text(&x.color, &y.color) && same_text(&x.size, &y.size)
            && same_text(&x.family, &y.family) && same_flag(x.bold, y.bold) && same_flag(
            x.italic,
            y.italic,
        ),
        (None, None) => true,
        _ => false,
    }
}

/// `prefix` followed by `v` (and `suffix`), as one declaration.
fn declaration(prefix: &str, v: &str, suffix: &str) -> (r: String)
    ensures
        r@ == prefix@ + v@ + suffix@,
{
    let mut r = String::new();
    push_str(&mut r, prefix);
    push_str(&mut r, v);
    push_str(&mut r, suffix);
    r
}

fn line_parts(l: &ImportLine) -> (r: Vec<String>)
    ensures
        texts_view(r@) == line_parts_spec(l@),
{
    let mut r: Vec<String> = Vec::new();
    assert(texts_view(r@) =~= Seq::<Seq<char>>::empty());
    if let Some(a) = l.align {
        push_texts(&mut r, declaration("text-align:", css_align(a), ""));
    }
    if let Some(v) = &l.line_height {
        push_texts(&mut r, declaration("line-height:", v.as_str(), ""));
    }
    if let Some(v) = &l.margin_top {
        push_texts(&mut r, declaration("margin-top:", v.as_str(), "px"));
    }
    proof {
        assert(""@ =~= Seq::<char>::empty()) by {
            reveal_strlit("");
        }
    }
    assert(texts_view(r@) =~= line_parts_spec(l@));
    r
}

fn span_parts(st: &Option<TextLook>, base: &Option<TextLook>) -> (r: Vec<String>)
    ensures
        texts_view(r@) == span_parts_spec(look_view(*st), look_view(*base)),
{
    let mut r: Vec<String> = Vec::new();
    assert(texts_view(r@) =~= Seq::<Seq<char>>::empty());
    if let Some(v) = look_size(st) {
        push_texts(&mut r, declaration("font-size:", v.as_str(), "px"));
    }
    if let Some(v) = look_color(st) {
        push_texts(&mut r, declaration("color:", v.as_str(), ""));
    }
    if let Some(v) = look_family(st) {
        push_texts(&mut r, declaration("font-family:", v.as_str(), ""));
    }
    let bold = look_bold(st);
    if !same_flag(bold, look_bold(base)) {
        let w = if bold == Some(true) {
            "bold"
        } else {
            "400"
        };
        push_texts(&mut r, declaration("font-weight:", w, ""));
    }
    let italic = look_italic(st);
    if !same_flag(italic, look_italic(base)) {
        let w = if italic == Some(true) {
            "italic"
        } else {
            "normal"
        };
        push_texts(&mut r, declaration("font-style:", w, ""));
    }
    proof {
        assert(""@ =~= Seq::<char>::empty()) by {
            reveal_strlit("");
        }
    }
    assert(texts_view(r@) =~= span_parts_spec(look_view(*st), look_view(*base)));
    r
}

fn push_run(out: &mut String, base: &Option<TextLook>, r: &ImportRun)
    ensures
        final(out)@ == old(out)@ + run_markup_spec(look_view(*base), r@),
{
    let ghost start = out@;
    if is_empty_text(r.text.as_str()) {
        assert(r@.text.len() == 0);
        assert(out@ =~= start + run_markup_spec(look_view(*base), r@));
        return;
    }
    if same_look(&r.look, base) && (r.look.is_none() || !contains_newline(r.text.as_str())) {
        push_escaped(out, r.text.as_str());
        return;
    }
    if is_line_break(r.text.as_str()) {
        push_char(out, ' ');
        return;
    }
    let parts = span_parts(&r.look, base);
    let bold = look_bold(&r.look) == Some(true);
    let italic = look_italic(&r.look) == Some(true);
    if bold {
        push_str(out, "<strong>");
    }
    if italic {
        push_str(out, "<em>");
    }
    if parts.len() > 0 {
        push_str(out, "<span style=\"");
        let joined = join_parts(&parts, "; ");
        push_str(out, joined.as_str());
        push_str(out, "\">");
    }
    push_escaped(out, r.text.as_str());
    if parts.len() > 0 {
        push_str(out, "</span>");
    }
    if italic {
        push_str(out, "</em>");
    }
    if bold {
        push_str(out, "</strong>");
    }
    assert(out@ =~= start + run_markup_spec(look_view(*base), r@));
}

fn push_line(out: &mut String, base: &Option<TextLook>, l: &ImportLine)
    ensures
        final(out)@ == old(out)@ + line_markup_spec(look_view(*base), l@),
{
    let ghost start = out@;
    let ghost runs = l@.runs;
    push_str(out, "<p");
    let parts = line_parts(l);
    if parts.len() > 0 {
        push_str(out, " style=\"");
        let joined = join_parts(&parts, "; ");
        push_str(out, joined.as_str());
        push_str(out, "\"");
    }
    push_str(out, ">");
    let ghost head = out@;
    proof {
        assert(line_parts_spec(l@).len() == parts@.len());
        assert(head =~= start + "<p"@ + style_attr_spec(line_parts_spec(l@)) + ">"@);
    }
    let mut i: usize = 0;
    while i < l.runs.len()
        invariant
            i <= l.runs.len(),
            runs == runs_view(l.runs@),
            out@ == head + runs_markup_spec(look_view(*base), runs.take(i as int)),
        decreases l.runs.len() - i,
    {
        push_run(out, base, &l.runs[i]);
        assert(runs.take(i + 1).drop_last() =~= runs.take(i as int));
        assert(runs[i as int] == l.runs@[i as int]@);
        i = i + 1;
    }
    assert(runs.take(i as int) =~= runs);
    push_str(out, "</p>");
    assert(out@ =~= start + line_markup_spec(look_view(*base), l@));
}

// ---------------------------------------------------------------------------
// The whole body
// ---------------------------------------------------------------------------

/// A paragraph all of whose runs are empty.
pub open spec fn blank_line(l: ImportLineV) -> bool {
    forall|j: int| 0 <= j < l.runs.len() ==> (#[trigger] l.runs[j]).text.len() == 0
}

/// How many paragraphs remain once trailing blank ones are dropped.
pub open spec fn kept_count(ls: Seq<ImportLineV>) -> nat
    decreases ls.len(),
{
    if ls.len() > 0 && blank_line(ls.last()) {
        kept_count(ls.drop_last())
    } else {
        ls.len()
    }
}

/// The look of the box: that of the first run of the first paragraph.
pub open spec fn first_look(ls: Seq<ImportLineV>) -> Option<TextLookV> {
    if ls.len() > 0 && ls[0].runs.len() > 0 {
        ls[0].runs[0].look
    } else {
        None
    }
}

/// Paragraph `i` is a single run that looks like the box and shares the
/// first paragraph's alignment and line height, with no spacing before it.
pub open spec fn plain_line(ls: Seq<ImportLineV>, i: int) -> bool {
    &&& ls[i].runs.len() == 1
    &&& ls[i].align == ls[0].align
    &&& ls[i].line_height == ls[0].line_height
    &&& ls[i].margin_top is None
    &&& ls[i].runs[0].look == first_look(ls)
}

/// Every paragraph is plain: the box is written as plain text.
pub open spec fn uniform_spec(ls: Seq<ImportLineV>) -> bool {
    forall|i: int| 0 <= i < ls.len() ==> plain_line(ls, i)
}

/// The text of each paragraph's first run.
pub open spec fn first_texts(ls: Seq<ImportLineV>) -> Seq<Seq<char>> {
    ls.map_values(|l: ImportLineV| l.runs[0].text)
}

/// The text of a box and whether it is plain.
pub struct BodyTextV {
    pub text: Seq<char>,
    pub uniform: bool,
}

/// What the paragraphs of a text body become: trailing blank paragraphs
/// are dropped; a body with nothing left, or with nothing but whitespace
/// in its text, has no text; a body whose paragraphs are all plain is
/// their texts, one per line; any other body is rich-text markup, one
/// `<p>` per paragraph, judged against the look of its first run.
pub open spec fn body_text_spec(ls: Seq<ImportLineV>) -> Option<BodyTextV> {
    let kept = ls.take(kept_count(ls) as int);
    if kept.len() == 0 {
        None
    } else {
        let uniform = uniform_spec(kept);
        let text = if uniform {
            join_with(first_texts(kept), seq!['\n'])
        } else {
            lines_markup_spec(first_look(kept), kept)
        };
        if trim(text).len() == 0 {
            None
        } else {
            Some(BodyTextV { text, uniform })
        }
    }
}

/// The text of an imported text body.
#[derive(Debug, Clone, PartialEq)]
pub struct BodyText {
    pub text: String,
    /// True when the text is plain lines rather than markup.
    pub uniform: bool,
}

impl View for BodyText {
    type V = BodyTextV;

    open spec fn view(&self) -> BodyTextV {
        BodyTextV { text: self.text@, uniform: self.uniform }
    }
}

fn line_blank(l: &ImportLine) -> (r: bool)
    ensures
        r == blank_line(l@),
{
    let mut i: usize = 0;
    while i < l.runs.len()
        invariant
            i <= l.runs.len(),
            forall|j: int| 0 <= j < i ==> (#[trigger] l@.runs[j]).text.len() == 0,
        decreases l.runs.len() - i,
    {
        if !is_empty_text(l.runs[i].text.as_str()) {
            assert(l@.runs[i as int] == l.runs@[i as int]@);
            return false;
        }
        assert(l@.runs[i as int] == l.runs@[i as int]@);
        i = i + 1;
    }
    true
}

proof fn lemma_kept_count_le(ls: Seq<ImportLineV>)
    ensures
        kept_count(ls) <= ls.len(),
    decreases ls.len(),
{
    if ls.len() > 0 && blank_line(ls.last()) {
        lemma_kept_count_le(ls.drop_last());
    }
}

/// Turn the paragraphs of a text body into the text of its box: plain
/// lines when every paragraph is a single run looking like the first,
/// rich-text markup otherwise; `None` for a body without text.
pub fn body_text(lines: &Vec<ImportLine>) -> (r: Option<BodyText>)
    ensures
        match r {
            Some(b) => body_text_spec(lines_view(lines@)) == Some(b@),
            None => body_text_spec(lines_view(lines@)) is None,
        },
{
    let ghost all = lines_view(lines@);
    let mut n = lines.len();
    assert(all.take(n as int) =~= all);
    while n > 0 && line_blank(&lines[n - 1])
        invariant
            n <= lines.len(),
            all == lines_view(lines@),
            kept_count(all) == kept_count(all.take(n as int)),
        decreases n,
    {
        assert(all.take(n as int).drop_last() =~= all.take(n - 1));
        n = n - 1;
    }
    proof {
        lemma_kept_count_le(all);
        if n > 0 {
            assert(all.take(n as int).last() == all[n - 1]);
        }
    }
    let ghost kept = all.take(n as int);
    assert(kept_count(all) == n);
    if n == 0 {
        return None;
    }
    let base: Option<TextLook> = if lines[0].runs.len() > 0 {
        copy_look(&lines[0].runs[0].look)
    } else {
        None
    };
    proof {
        assert(kept[0] == lines@[0]@);
        if lines@[0].runs.len() > 0 {
            assert(kept[0].runs[0] == lines@[0].runs@[0]@);
        }
    }
    assert(look_view(base) == first_look(kept));
    // Plain when every kept paragraph is plain.
    let mut uniform = true;
    let mut i: usize = 0;
    while i < n
        invariant
            i <= n <= lines.len(),
            kept == lines_view(lines@).take(n as int),
            look_view(base) == first_look(kept),
            uniform == (forall|j: int| 0 <= j < i ==> plain_line(kept, j)),
        decreases n - i,
    {
        let l = &lines[i];
        let first = &lines[0];
        let ok = l.runs.len() == 1 && same_align(l.align, first.align) && same_text(
            &l.line_height,
            &first.line_height,
        ) && l.margin_top.is_none() && same_look(&l.runs[0].look, &base);
        proof {
            assert(kept[i as int] == lines@[i as int]@);
            assert(kept[0] == lines@[0]@);
            if l.runs.len() == 1 {
                assert(kept[i as int].runs[0] == lines@[i as int].runs@[0]@);
            }
        }
        proof {
            assert(ok == plain_line(kept, i as int));
        }
        uniform = uniform && ok;
        i = i + 1;
        assert(uniform == (forall|j: int| 0 <= j < i ==> plain_line(kept, j))) by {
            if uniform {
                assert forall|j: int| 0 <= j < i implies plain_line(kept, j) by {
                    if j < i - 1 {
                    }
                }
            }
        }
    }
    let mut text = String::new();
    if uniform {
        let mut k: usize = 0;
        while k < n
            invariant
                k <= n <= lines.len(),
                kept == lines_view(lines@).take(n as int),
                uniform_spec(kept),
                text@ == join_with(first_texts(kept).take(k as int), seq!['\n']),
            decreases n - k,
        {
            if k > 0 {
                push_char(&mut text, '\n');
            }
            proof {
                assert(plain_line(kept, k as int));
                assert(kept[k as int] == lines@[k as int]@);
                assert(kept[k as int].runs[0] == lines@[k as int].runs@[0]@);
            }
            push_str(&mut text, lines[k].runs[0].text.as_str());
            assert(first_texts(kept).take(k + 1).drop_last() =~= first_texts(kept).take(k as int));
            assert(text@ =~= join_with(first_texts(kept).take(k + 1), seq!['\n']));
            k = k + 1;
        }
        assert(first_texts(kept).take(n as int) =~= first_texts(kept));
    } else {
        let mut k: usize = 0;
        while k < n
            invariant
                k <= n <= lines.len(),
                kept == lines_view(lines@).take(n as int),
                look_view(base) == first_look(kept),
                text@ == lines_markup_spec(first_look(kept), kept.take(k as int)),
            decreases n - k,
        {
            push_line(&mut text, &base, &lines[k]);
            assert(kept.take(k + 1).drop_last() =~= kept.take(k as int));
            assert(kept[k as int] == lines@[k as int]@);
            k = k + 1;
        }
        assert(kept.take(n as int) =~= kept);
    }
    let trimmed = trim_chars(&chars_of(text.as_str()));
    if trimmed.len() == 0 {
        None
    } else {
        Some(BodyText { text, uniform })
    }
}

fn same_align(a: Option<HorizontalAlign>, b: Option<HorizontalAlign>) -> (r: bool)
    ensures
        r == (a == b),
{
    match (a, b) {
        (Some(x), Some(y)) => x == y,
        (None, None) => true,
        _ => false,
    }
}

// ---------------------------------------------------------------------------
// Body properties
// ---------------------------------------------------------------------------

/// What an imported box's `a:bodyPr` says besides its insets.
#[derive(Debug, Clone, Copy, PartialEq, Eq)]
pub struct BodyProps {
    pub anchor: Option<VerticalAlign>,
    pub wrap: Option<bool>,
    pub direction: Option<TextDirection>,
    pub autofit: Option<TextAutofit>,
}

/// The vertical anchor of an `anchor` value: `t`, `ctr`, `b`, and top for
/// anything else.
pub open spec fn anchor_of_spec(a: Seq<char>) -> VerticalAlign {
    if a == "ctr"@ {
        VerticalAlign::Middle
    } else if a == "b"@ {
        VerticalAlign::Bottom
    } else {
        VerticalAlign::Top
    }
}

/// The reading of `a:bodyPr`: its anchor; whether it wraps (`wrap` other
/// than `none`); vertical text for `eaVert`, `vert` and `vert270` (and no
/// direction otherwise); and the first of `spAutoFit`, `normAutofit`,
/// `noAutofit` among its children.
pub open spec fn body_props_spec(
    anchor: Option<Seq<char>>,
    wrap: Option<Seq<char>>,
    vert: Option<Seq<char>>,
    sp_auto_fit: bool,
    norm_autofit: bool,
    no_autofit: bool,
) -> BodyProps {
    BodyProps {
        anchor: match anchor {
            Some(a) => Some(anchor_of_spec(a)),
            None => None,
        },
        wrap: match wrap {
            Some(w) => Some(w != "none"@),
            None => None,
        },
        direction: match vert {
            Some(v) => if v == "eaVert"@ || v == "vert"@ || v == "vert270"@ {
                Some(TextDirection::Vertical)
            } else {
                None
            },
            None => None,
        },
        autofit: if sp_auto_fit {
            Some(TextAutofit::FitShape)
        } else if norm_autofit {
            Some(TextAutofit::FitText)
        } else if no_autofit {
            Some(TextAutofit::Fixed)
        } else {
            None
        },
    }
}

/// Read the attributes and auto-fit children of an imported `a:bodyPr`.
pub fn body_props(
    anchor: Option<&str>,
    wrap: Option<&str>,
    vert: Option<&str>,
    sp_auto_fit: bool,
    norm_autofit: bool,
    no_autofit: bool,
) -> (r: BodyProps)
    ensures
        r == body_props_spec(
            match anchor {
                Some(a) => Some(a@),
                None => None,
            },
            match wrap {
                Some(w) => Some(w@),
                None => None,
            },
            match vert {
                Some(v) => Some(v@),
                None => None,
            },
            sp_auto_fit,
            norm_autofit,
            no_autofit,
        ),
{
    let anchor = match anchor {
        Some(a) => Some(
            if str_eq(a, "ctr") {
                VerticalAlign::Middle
            } else if str_eq(a, "b") {
                VerticalAlign::Bottom
            } else {
                VerticalAlign::Top
            },
        ),
        None => None,
    };
    let wrap = match wrap {
        Some(w) => Some(!str_eq(w, "none")),
        None => None,
    };
    let direction = match vert {
        Some(v) => if str_eq(v, "eaVert") || str_eq(v, "vert") || str_eq(v, "vert270") {
            Some(TextDirection::Vertical)
        } else {
            None
        },
        None => None,
    };
    let autofit = if sp_auto_fit {
        Some(TextAutofit::FitShape)
    } else if norm_autofit {
        Some(TextAutofit::FitText)
    } else if no_autofit {
        Some(TextAutofit::Fixed)
    } else {
        None
    };
    BodyProps { anchor, wrap, direction, autofit }
}

/// The alignment of an imported box: the first paragraph's horizontal
/// alignment with the box's anchor (top when none), or, without a
/// paragraph alignment, left with the anchor; none when neither is set.
pub open spec fn box_alignment_spec(align: Option<HorizontalAlign>, anchor: Option<VerticalAlign>) -> Option<Alignment> {
    match (align, anchor) {
        (Some(h), v) => Some(
            Alignment {
                horizontal: h,
                vertical: match v {
                    Some(x) => x,
                    None => VerticalAlign::Top,
                },
            },
        ),
        (None, Some(v)) => Some(Alignment { horizontal: HorizontalAlign::Left, vertical: v }),
        (None, None) => None,
    }
}

/// The alignment of an imported box.
pub fn box_alignment(align: Option<HorizontalAlign>, anchor: Option<VerticalAlign>) -> (r: Option<Alignment>)
    ensures
        r == box_alignment_spec(align, anchor),
{
    match (align, anchor) {
        (Some(h), v) => Some(
            Alignment {
                horizontal: h,
                vertical: match v {
                    Some(x) => x,
                    None => VerticalAlign::Top,
                },
            },
        ),
        (None, Some(v)) => Some(Alignment { horizontal: HorizontalAlign::Left, vertical: v }),
        (None, None) => None,
    }
}

} // verus!
