//! The rich-text markup of PPTD text boxes: `<p style>` paragraphs holding
//! `<span style>` / `<strong>` / `<em>` runs and `<br>` breaks. Plain text
//! (no tags) yields one paragraph per line.
//!
//! Numeric CSS values (`font-size:24px`, `line-height:1.5`) are kept as the
//! text of the number; a value is present only when that text reads as a
//! floating-point number.

use vstd::prelude::*;

use super::render::{
    css_align, css_align_spec, css_pairs, css_pairs_spec, css_value, css_value_spec, pair_views,
    unescape_spec, unescape_xml,
};
use super::theme::opt_text;
use crate::text::{
    push_str, char_views, chars_of, lower_seq, lowercase, prefix_chars, split_chars, split_on, str_eq,
    string_of, suffix_chars, trim, trim_chars,
};

verus! {

// ---------------------------------------------------------------------
// Searching
// ---------------------------------------------------------------------

/// Whether `pat` occurs in `s` at position `j`.
pub open spec fn matches_at(s: Seq<char>, pat: Seq<char>, j: int) -> bool {
    0 <= j && j + pat.len() <= s.len() && s.subrange(j, j + pat.len()) == pat
}

/// Position of the first occurrence of `pat` in `s`, or the length of `s`
/// when there is none (`str::find`).
pub open spec fn find_pat(s: Seq<char>, pat: Seq<char>) -> nat
    decreases s.len(),
{
    if s.len() < pat.len() || pat.len() == 0 {
        s.len()
    } else if s.take(pat.len() as int) == pat {
        0
    } else {
        1 + find_pat(s.skip(1), pat)
    }
}

/// Position of the first `c` in `s`, or the length of `s`.
pub open spec fn find_char(s: Seq<char>, c: char) -> nat {
    find_pat(s, seq![c])
}

pub proof fn lemma_find_pat(s: Seq<char>, pat: Seq<char>, k: int)
    requires
        pat.len() > 0,
        0 <= k,
        forall|j: int| 0 <= j < k ==> !matches_at(s, pat, j),
        matches_at(s, pat, k) || k + pat.len() > s.len(),
    ensures
        find_pat(s, pat) == if matches_at(s, pat, k) { k } else { s.len() as int },
    decreases k,
{
    if s.len() < pat.len() {
    } else if s.take(pat.len() as int) == pat {
        assert(matches_at(s, pat, 0));
    } else {
        assert(!matches_at(s, pat, 0));
        let t = s.skip(1);
        assert forall|j: int| 0 <= j < k - 1 implies !matches_at(t, pat, j) by {
            assert(!matches_at(s, pat, j + 1));
            if j + pat.len() <= t.len() {
                assert(t.subrange(j, j + pat.len()) =~= s.subrange(j + 1, j + 1 + pat.len()));
            }
        }
        if k - 1 + pat.len() <= t.len() {
            assert(t.subrange(k - 1, k - 1 + pat.len()) =~= s.subrange(k, k + pat.len()));
        }
        lemma_find_pat(t, pat, k - 1);
    }
}

/// Whether `pat` occurs in `cs` at position `i`.
fn matches_here(cs: &Vec<char>, i: usize, pat: &Vec<char>) -> (r: bool)
    requires
        i <= cs@.len(),
        pat@.len() <= cs@.len() - i,
    ensures
        r == (cs@.subrange(i as int, i + pat@.len()) == pat@),
{
    let n = cs.len();
    let mut k: usize = 0;
    while k < pat.len()
        invariant
            n == cs@.len(),
            k <= pat@.len(),
            i <= cs@.len(),
            pat@.len() <= cs@.len() - i,
            forall|j: int| 0 <= j < k ==> cs@[i + j] == pat@[j],
        decreases pat.len() - k,
    {
        if cs[i + k] != pat[k] {
            assert(cs@.subrange(i as int, i + pat@.len())[k as int] == cs@[i + k]);
            return false;
        }
        k = k + 1;
    }
    assert(cs@.subrange(i as int, i + pat@.len()) =~= pat@);
    true
}

/// Absolute position of the first `pat` in `cs[from..to]`, or `to`.
fn find_pat_in(cs: &Vec<char>, from: usize, to: usize, pat: &Vec<char>) -> (r: usize)
    requires
        from <= to <= cs@.len(),
        pat@.len() > 0,
    ensures
        r == from + find_pat(cs@.subrange(from as int, to as int), pat@),
        from <= r <= to,
        r < to ==> pat@.len() <= to - r && cs@.subrange(r as int, r + pat@.len()) == pat@,
{
    let ghost s = cs@.subrange(from as int, to as int);
    let m = pat.len();
    let mut i: usize = from;
    while m <= to - i
        invariant
            from <= i <= to <= cs@.len(),
            m == pat@.len(),
            m > 0,
            s == cs@.subrange(from as int, to as int),
            forall|j: int| 0 <= j < i - from ==> !matches_at(s, pat@, j),
        decreases to - i,
    {
        let hit = matches_here(cs, i, pat);
        assert(s.subrange(i - from, i - from + m) =~= cs@.subrange(i as int, i + m));
        if hit {
            proof {
                lemma_find_pat(s, pat@, i - from);
            }
            return i;
        }
        i = i + 1;
    }
    proof {
        lemma_find_pat(s, pat@, i - from);
    }
    to
}

/// Absolute position of the first `c` in `cs[from..to]`, or `to`.
fn find_char_in(cs: &Vec<char>, from: usize, to: usize, c: char) -> (r: usize)
    requires
        from <= to <= cs@.len(),
    ensures
        r == from + find_char(cs@.subrange(from as int, to as int), c),
        from <= r <= to,
        r < to ==> cs@[r as int] == c,
{
    let pat = vec![c];
    assert(pat@ =~= seq![c]);
    let r = find_pat_in(cs, from, to, &pat);
    if r < to {
        assert(cs@.subrange(r as int, r + 1)[0] == cs@[r as int]);
    }
    r
}

/// The characters `cs[from..to]`.
fn slice_chars(cs: &Vec<char>, from: usize, to: usize) -> (r: Vec<char>)
    requires
        from <= to <= cs@.len(),
    ensures
        r@ == cs@.subrange(from as int, to as int),
{
    let head = prefix_chars(cs, to);
    let r = suffix_chars(&head, from);
    assert(r@ =~= cs@.subrange(from as int, to as int));
    r
}

// ---------------------------------------------------------------------
// Numbers
// ---------------------------------------------------------------------

pub open spec fn is_digit(c: char) -> bool {
    '0' <= c && c <= '9'
}

pub open spec fn all_digits(s: Seq<char>) -> bool {
    forall|i: int| 0 <= i < s.len() ==> is_digit(#[trigger] s[i])
}

/// `s` without one leading `+` or `-`.
pub open spec fn strip_sign(s: Seq<char>) -> Seq<char> {
    if s.len() > 0 && (s[0] == '+' || s[0] == '-') {
        s.skip(1)
    } else {
        s
    }
}

/// `Digit+ | Digit+ '.' Digit* | Digit* '.' Digit+`.
pub open spec fn mantissa_text(m: Seq<char>) -> bool {
    let d = find_char(m, '.');
    if d >= m.len() {
        m.len() > 0 && all_digits(m)
    } else {
        m.len() >= 2 && all_digits(m.take(d as int)) && all_digits(m.skip(d + 1 as int))
    }
}

/// `Sign? Digit+`.
pub open spec fn exponent_text(t: Seq<char>) -> bool {
    strip_sign(t).len() > 0 && all_digits(strip_sign(t))
}

/// A mantissa, then optionally `e` and an exponent.
pub open spec fn number_text(s: Seq<char>) -> bool {
    let e = find_char(s, 'e');
    mantissa_text(s.take(e as int)) && (e >= s.len() || exponent_text(s.skip(e + 1 as int)))
}

/// The grammar of `f64::from_str` on lowercase text:
/// `Sign? ('inf' | 'infinity' | 'nan' | Number)`.
pub open spec fn float_lower(s: Seq<char>) -> bool {
    let u = strip_sign(s);
    u == "inf"@ || u == "infinity"@ || u == "nan"@ || number_text(u)
}

/// Whether `s` reads as an `f64` (`str::parse::<f64>` succeeds): the
/// documented grammar, case-insensitively.
pub open spec fn float_text(s: Seq<char>) -> bool {
    float_lower(lower_seq(s))
}

/// Whether `cs[from..to]` holds only ASCII digits.
fn digits_in(cs: &Vec<char>, from: usize, to: usize) -> (r: bool)
    requires
        from <= to <= cs@.len(),
    ensures
        r == all_digits(cs@.subrange(from as int, to as int)),
{
    let ghost s = cs@.subrange(from as int, to as int);
    let mut i: usize = from;
    while i < to
        invariant
            from <= i <= to <= cs@.len(),
            s == cs@.subrange(from as int, to as int),
            forall|k: int| 0 <= k < i - from ==> is_digit(#[trigger] s[k]),
        decreases to - i,
    {
        let c = cs[i];
        assert(s[i - from] == cs@[i as int]);
        if !('0' <= c && c <= '9') {
            return false;
        }
        i = i + 1;
    }
    true
}

fn mantissa_in(cs: &Vec<char>, from: usize, to: usize) -> (r: bool)
    requires
        from <= to <= cs@.len(),
    ensures
        r == mantissa_text(cs@.subrange(from as int, to as int)),
{
    let ghost m = cs@.subrange(from as int, to as int);
    let d = find_char_in(cs, from, to, '.');
    if d == to {
        to > from && digits_in(cs, from, to)
    } else {
        assert(m.take(d - from) =~= cs@.subrange(from as int, d as int));
        assert(m.skip(d - from + 1) =~= cs@.subrange(d + 1, to as int));
        to - from >= 2 && digits_in(cs, from, d) && digits_in(cs, d + 1, to)
    }
}

fn exponent_in(cs: &Vec<char>, from: usize, to: usize) -> (r: bool)
    requires
        from <= to <= cs@.len(),
    ensures
        r == exponent_text(cs@.subrange(from as int, to as int)),
{
    let ghost t = cs@.subrange(from as int, to as int);
    let start: usize = if from < to && (cs[from] == '+' || cs[from] == '-') {
        from + 1
    } else {
        from
    };
    assert(strip_sign(t) =~= cs@.subrange(start as int, to as int));
    to > start && digits_in(cs, start, to)
}

fn number_in(cs: &Vec<char>) -> (r: bool)
    ensures
        r == number_text(cs@),
{
    let n = cs.len();
    assert(cs@.subrange(0, n as int) =~= cs@);
    let e = find_char_in(cs, 0, n, 'e');
    assert(cs@.take(e as int) =~= cs@.subrange(0, e as int));
    if !mantissa_in(cs, 0, e) {
        return false;
    }
    if e == n {
        return true;
    }
    assert(cs@.skip(e + 1) =~= cs@.subrange(e + 1, n as int));
    exponent_in(cs, e + 1, n)
}

/// Whether `s` reads as a floating-point number (`str::parse::<f64>`).
pub fn is_float_text(s: &str) -> (r: bool)
    ensures
        r == float_text(s@),
{
    let low = lowercase(s);
    let cs = chars_of(low.as_str());
    let start: usize = if cs.len() > 0 && (cs[0] == '+' || cs[0] == '-') {
        1
    } else {
        0
    };
    let u = suffix_chars(&cs, start);
    assert(u@ =~= strip_sign(lower_seq(s@)));
    let us = string_of(&u);
    if str_eq(us.as_str(), "inf") || str_eq(us.as_str(), "infinity") || str_eq(us.as_str(), "nan") {
        return true;
    }
    number_in(&u)
}

// ---------------------------------------------------------------------
// Run styles
// ---------------------------------------------------------------------

/// The number of a CSS length: the value without a trailing `px`, trimmed.
pub open spec fn px_number(v: Seq<char>) -> Seq<char> {
    if v.len() >= 2 && v[v.len() - 2] == 'p' && v[v.len() - 1] == 'x' {
        trim(v.take(v.len() - 2))
    } else {
        trim(v)
    }
}

/// The number of a CSS length, when it reads as a number.
pub open spec fn px_size(v: Option<Seq<char>>) -> Option<Seq<char>> {
    match v {
        Some(t) => if float_text(px_number(t)) {
            Some(px_number(t))
        } else {
            None
        },
        None => None,
    }
}

/// The style a run is written with.
pub struct RunStyleV {
    pub size: Option<Seq<char>>,
    pub color: Option<Seq<char>>,
    pub family: Option<Seq<char>>,
    pub bold: Option<bool>,
    pub italic: Option<bool>,
    /// Whether a tag set anything explicitly.
    pub styled: bool,
}

/// The style of text outside any styling tag.
pub open spec fn plain_style() -> RunStyleV {
    RunStyleV { size: None, color: None, family: None, bold: None, italic: None, styled: false }
}

/// CSS `font-weight` values that mean bold.
pub open spec fn is_bold_weight(w: Seq<char>) -> bool {
    w == "bold"@ || w == "bolder"@ || w == "600"@ || w == "700"@ || w == "800"@ || w == "900"@
}

/// The style set by `<span style="...">`.
pub open spec fn span_style(style: Seq<char>) -> RunStyleV {
    let pairs = css_pairs_spec(style);
    let size = px_size(css_value_spec(pairs, "font-size"@));
    let color = css_value_spec(pairs, "color"@);
    let family = css_value_spec(pairs, "font-family"@);
    let bold = match css_value_spec(pairs, "font-weight"@) {
        Some(w) => Some(is_bold_weight(w)),
        None => None,
    };
    let italic = match css_value_spec(pairs, "font-style"@) {
        Some(v) => Some(v != "normal"@),
        None => None,
    };
    RunStyleV {
        size,
        color,
        family,
        bold,
        italic,
        styled: size is Some || color is Some || family is Some || bold is Some || italic is Some,
    }
}

/// The style of a run of rich text. Sizes are the text of the number of
/// pixels.
#[derive(Debug, Clone, PartialEq)]
pub struct RunStyle {
    pub size: Option<String>,
    pub color: Option<String>,
    pub family: Option<String>,
    pub bold: Option<bool>,
    pub italic: Option<bool>,
    pub styled: bool,
}

impl View for RunStyle {
    type V = RunStyleV;

    open spec fn view(&self) -> RunStyleV {
        RunStyleV {
            size: opt_text(self.size),
            color: opt_text(self.color),
            family: opt_text(self.family),
            bold: self.bold,
            italic: self.italic,
            styled: self.styled,
        }
    }
}

fn copy_text(o: &Option<String>) -> (r: Option<String>)
    ensures
        opt_text(r) == opt_text(*o),
{
    match o {
        Some(s) => Some(s.clone()),
        None => None,
    }
}

fn own_text(o: Option<&str>) -> (r: Option<String>)
    ensures
        opt_text(r) == match o {
            Some(v) => Some(v@),
            None => None,
        },
{
    match o {
        Some(v) => Some(String::from_str(v)),
        None => None,
    }
}

fn copy_style(s: &RunStyle) -> (r: RunStyle)
    ensures
        r@ == s@,
{
    RunStyle {
        size: copy_text(&s.size),
        color: copy_text(&s.color),
        family: copy_text(&s.family),
        bold: s.bold,
        italic: s.italic,
        styled: s.styled,
    }
}

fn plain_run_style() -> (r: RunStyle)
    ensures
        r@ == plain_style(),
{
    RunStyle { size: None, color: None, family: None, bold: None, italic: None, styled: false }
}

fn px_number_of(v: &str) -> (r: Vec<char>)
    ensures
        r@ == px_number(v@),
{
    let cs = chars_of(v);
    let n = cs.len();
    if n >= 2 && cs[n - 2] == 'p' && cs[n - 1] == 'x' {
        let head = prefix_chars(&cs, n - 2);
        trim_chars(&head)
    } else {
        trim_chars(&cs)
    }
}

/// The number of a CSS length, when it reads as a number.
fn px_size_of(v: Option<&str>) -> (r: Option<String>)
    ensures
        opt_text(r) == px_size(
            match v {
                Some(t) => Some(t@),
                None => None,
            },
        ),
{
    match v {
        Some(t) => {
            let n = string_of(&px_number_of(t));
            if is_float_text(n.as_str()) {
                Some(n)
            } else {
                None
            }
        },
        None => None,
    }
}

fn bold_weight(w: &str) -> (r: bool)
    ensures
        r == is_bold_weight(w@),
{
    str_eq(w, "bold") || str_eq(w, "bolder") || str_eq(w, "600") || str_eq(w, "700") || str_eq(
        w,
        "800",
    ) || str_eq(w, "900")
}

/// The style set by `<span style="...">`.
pub fn span_run_style(style: &str) -> (r: RunStyle)
    ensures
        r@ == span_style(style@),
{
    let pairs = css_pairs(style);
    let size = px_size_of(css_value(&pairs, "font-size"));
    let color = own_text(css_value(&pairs, "color"));
    let family = own_text(css_value(&pairs, "font-family"));
    let bold = match css_value(&pairs, "font-weight") {
        Some(w) => Some(bold_weight(w)),
        None => None,
    };
    let italic = match css_value(&pairs, "font-style") {
        Some(v) => Some(!str_eq(v, "normal")),
        None => None,
    };
    let styled = size.is_some() || color.is_some() || family.is_some() || bold.is_some()
        || italic.is_some();
    RunStyle { size, color, family, bold, italic, styled }
}

// ---------------------------------------------------------------------
// Runs
// ---------------------------------------------------------------------

/// A run of rich text: its decoded characters and its style.
pub struct RunV {
    pub text: Seq<char>,
    pub style: RunStyleV,
}

/// A run of rich text.
#[derive(Debug, Clone, PartialEq)]
pub struct RichRun {
    pub text: String,
    pub style: RunStyle,
}

impl View for RichRun {
    type V = RunV;

    open spec fn view(&self) -> RunV {
        RunV { text: self.text@, style: self.style@ }
    }
}

pub open spec fn runs_view(v: Seq<RichRun>) -> Seq<RunV> {
    v.map_values(|r: RichRun| r@)
}

/// What a tag does to the run being collected.
pub enum TagEffect {
    /// Close the run and continue with this style.
    Restyle(RunStyleV),
    /// A line break inside the run.
    Newline,
    /// Not a tag of the markup: kept as text.
    Literal,
}

/// `cur` with `bold` set (and the run marked styled when `mark`).
pub open spec fn with_bold(cur: RunStyleV, bold: Option<bool>, mark: bool) -> RunStyleV {
    RunStyleV { bold, styled: cur.styled || mark, ..cur }
}

/// `cur` with `italic` set (and the run marked styled when `mark`).
pub open spec fn with_italic(cur: RunStyleV, italic: Option<bool>, mark: bool) -> RunStyleV {
    RunStyleV { italic, styled: cur.styled || mark, ..cur }
}

/// The effect of the tag whose trimmed content is `name`.
pub open spec fn tag_effect(name: Seq<char>, cur: RunStyleV) -> TagEffect {
    if name.len() >= 13 && name.take(12) == "span style=\""@ && name.last() == '"' {
        TagEffect::Restyle(span_style(name.subrange(12, name.len() - 1)))
    } else if name == "/span"@ || name == "span"@ {
        TagEffect::Restyle(plain_style())
    } else if name == "strong"@ {
        TagEffect::Restyle(with_bold(cur, Some(true), true))
    } else if name == "/strong"@ {
        TagEffect::Restyle(with_bold(cur, None, false))
    } else if name == "em"@ {
        TagEffect::Restyle(with_italic(cur, Some(true), true))
    } else if name == "/em"@ {
        TagEffect::Restyle(with_italic(cur, None, false))
    } else if name == "br/"@ || name == "br"@ {
        TagEffect::Newline
    } else {
        TagEffect::Literal
    }
}

/// `out` with the collected characters closed into a run (nothing for an
/// empty buffer).
pub open spec fn flush(out: Seq<RunV>, buf: Seq<char>, style: RunStyleV) -> Seq<RunV> {
    if buf.len() == 0 {
        out
    } else {
        out.push(RunV { text: unescape_spec(buf), style })
    }
}

/// The runs of `rest`, continuing a run of `buf` in `style` after `out`.
pub open spec fn scan_runs(rest: Seq<char>, buf: Seq<char>, style: RunStyleV, out: Seq<RunV>) -> Seq<RunV>
    decreases rest.len(),
{
    let lt = find_char(rest, '<');
    if lt >= rest.len() {
        flush(out, buf + rest, style)
    } else {
        let before = buf + rest.take(lt as int);
        let tag = rest.skip(lt as int);
        let end = find_char(tag, '>');
        if end >= tag.len() {
            flush(out, before + tag, style)
        } else {
            let next = tag.skip(end + 1 as int);
            match tag_effect(trim(tag.subrange(1, end as int)), style) {
                TagEffect::Restyle(s) => scan_runs(next, Seq::empty(), s, flush(out, before, style)),
                TagEffect::Newline => scan_runs(next, before.push('\n'), style, out),
                TagEffect::Literal => scan_runs(next, before + tag.take(end + 1 as int), style, out),
            }
        }
    }
}

/// Two styles that look the same (the `styled` mark aside).
pub open spec fn same_look(a: RunStyleV, b: RunStyleV) -> bool {
    a.size == b.size && a.color == b.color && a.family == b.family && a.bold == b.bold && a.italic
        == b.italic
}

/// Adjacent runs merged where the later one carries no explicit style and
/// looks like the one before.
pub open spec fn merge_runs(runs: Seq<RunV>) -> Seq<RunV>
    decreases runs.len(),
{
    if runs.len() == 0 {
        Seq::empty()
    } else {
        let m = merge_runs(runs.drop_last());
        let run = runs.last();
        if m.len() > 0 && same_look(m.last().style, run.style) && !run.style.styled {
            m.update(m.len() - 1, RunV { text: m.last().text + run.text, style: m.last().style })
        } else {
            m.push(run)
        }
    }
}

/// The runs of the body of one paragraph.
pub open spec fn runs_spec(inner: Seq<char>) -> Seq<RunV> {
    merge_runs(scan_runs(inner, Seq::empty(), plain_style(), Seq::empty()))
}

enum Effect {
    Restyle(RunStyle),
    Newline,
    Literal,
}

spec fn effect_view(e: Effect) -> TagEffect {
    match e {
        Effect::Restyle(s) => TagEffect::Restyle(s@),
        Effect::Newline => TagEffect::Newline,
        Effect::Literal => TagEffect::Literal,
    }
}

fn tag_effect_of(name: &str, cur: &RunStyle) -> (r: Effect)
    ensures
        effect_view(r) == tag_effect(name@, cur@),
{
    let cs = chars_of(name);
    let n = cs.len();
    if n >= 13 && cs[n - 1] == '"' {
        let head = string_of(&prefix_chars(&cs, 12));
        if str_eq(head.as_str(), "span style=\"") {
            let style = string_of(&slice_chars(&cs, 12, n - 1));
            return Effect::Restyle(span_run_style(style.as_str()));
        }
    }
    if str_eq(name, "/span") || str_eq(name, "span") {
        Effect::Restyle(plain_run_style())
    } else if str_eq(name, "strong") {
        let mut s = copy_style(cur);
        s.bold = Some(true);
        s.styled = true;
        Effect::Restyle(s)
    } else if str_eq(name, "/strong") {
        let mut s = copy_style(cur);
        s.bold = None;
        Effect::Restyle(s)
    } else if str_eq(name, "em") {
        let mut s = copy_style(cur);
        s.italic = Some(true);
        s.styled = true;
        Effect::Restyle(s)
    } else if str_eq(name, "/em") {
        let mut s = copy_style(cur);
        s.italic = None;
        Effect::Restyle(s)
    } else if str_eq(name, "br/") || str_eq(name, "br") {
        Effect::Newline
    } else {
        Effect::Literal
    }
}

fn append_range(buf: &mut Vec<char>, cs: &Vec<char>, from: usize, to: usize)
    requires
        from <= to <= cs@.len(),
    ensures
        final(buf)@ == old(buf)@ + cs@.subrange(from as int, to as int),
{
    let ghost start = buf@;
    let mut i: usize = from;
    while i < to
        invariant
            from <= i <= to <= cs@.len(),
            buf@ == start + cs@.subrange(from as int, i as int),
        decreases to - i,
    {
        buf.push(cs[i]);
        assert(cs@.subrange(from as int, i + 1) =~= cs@.subrange(from as int, i as int).push(cs@[i as int]));
        i = i + 1;
    }
}

fn push_run(out: &mut Vec<RichRun>, buf: &Vec<char>, style: &RunStyle)
    ensures
        runs_view(final(out)@) == flush(runs_view(old(out)@), buf@, style@),
{
    if buf.len() > 0 {
        let raw = string_of(buf);
        let text = unescape_xml(raw.as_str());
        let ghost before = out@;
        out.push(RichRun { text, style: copy_style(style) });
        assert(runs_view(out@) =~= runs_view(before).push(RunV { text: unescape_spec(buf@), style: style@ }));
    }
}

/// The runs of `cs[from..to]`, before merging.
fn scan_runs_in(cs: &Vec<char>, from: usize, to: usize) -> (r: Vec<RichRun>)
    requires
        from <= to <= cs@.len(),
    ensures
        runs_view(r@) == scan_runs(cs@.subrange(from as int, to as int), Seq::empty(), plain_style(), Seq::empty()),
{
    let ghost target = scan_runs(cs@.subrange(from as int, to as int), Seq::empty(), plain_style(), Seq::empty());
    let mut out: Vec<RichRun> = Vec::new();
    let mut buf: Vec<char> = Vec::new();
    let mut style = plain_run_style();
    let mut pos: usize = from;
    assert(runs_view(out@) =~= Seq::<RunV>::empty());
    loop
        invariant
            from <= pos <= to <= cs@.len(),
            target == scan_runs(cs@.subrange(from as int, to as int), Seq::empty(), plain_style(), Seq::empty()),
            scan_runs(cs@.subrange(pos as int, to as int), buf@, style@, runs_view(out@)) == target,
        decreases to - pos,
    {
        let ghost rest = cs@.subrange(pos as int, to as int);
        let ghost b0 = buf@;
        let ghost o0 = runs_view(out@);
        let lt = find_char_in(cs, pos, to, '<');
        if lt == to {
            append_range(&mut buf, cs, pos, to);
            assert(scan_runs(rest, b0, style@, o0) == flush(o0, b0 + rest, style@));
            push_run(&mut out, &buf, &style);
            return out;
        }
        append_range(&mut buf, cs, pos, lt);
        assert(rest.take(lt - pos) =~= cs@.subrange(pos as int, lt as int));
        assert(rest.skip(lt - pos) =~= cs@.subrange(lt as int, to as int));
        let ghost tag = cs@.subrange(lt as int, to as int);
        let end = find_char_in(cs, lt, to, '>');
        if end == to {
            append_range(&mut buf, cs, lt, to);
            assert(buf@ =~= b0 + rest.take(lt - pos) + tag);
            assert(scan_runs(rest, b0, style@, o0) == flush(o0, b0 + rest.take(lt - pos) + tag, style@));
            push_run(&mut out, &buf, &style);
            return out;
        }
        assert(tag.subrange(1, end - lt) =~= cs@.subrange(lt + 1, end as int));
        assert(tag.skip(end - lt + 1) =~= cs@.subrange(end + 1, to as int));
        assert(tag.take(end - lt + 1) =~= cs@.subrange(lt as int, end + 1));
        let name = string_of(&trim_chars(&slice_chars(cs, lt + 1, end)));
        match tag_effect_of(name.as_str(), &style) {
            Effect::Restyle(s) => {
                push_run(&mut out, &buf, &style);
                buf = Vec::new();
                style = s;
            },
            Effect::Newline => {
                buf.push('\n');
            },
            Effect::Literal => {
                append_range(&mut buf, cs, lt, end + 1);
            },
        }
        pos = end + 1;
    }
}

pub(crate) fn same_text(a: &Option<String>, b: &Option<String>) -> (r: bool)
    ensures
        r == (opt_text(*a) == opt_text(*b)),
{
    match (a, b) {
        (Some(x), Some(y)) => str_eq(x.as_str(), y.as_str()),
        (None, None) => true,
        _ => false,
    }
}

pub(crate) fn same_flag(a: Option<bool>, b: Option<bool>) -> (r: bool)
    ensures
        r == (a == b),
{
    match (a, b) {
        (Some(x), Some(y)) => x == y,
        (None, None) => true,
        _ => false,
    }
}

fn same_look_of(a: &RunStyle, b: &RunStyle) -> (r: bool)
    ensures
        r == same_look(a@, b@),
{
    same_text(&a.size, &b.size) && same_text(&a.color, &b.color) && same_text(&a.family, &b.family)
        && same_flag(a.bold, b.bold) && same_flag(a.italic, b.italic)
}

fn merge_all(runs: &Vec<RichRun>) -> (r: Vec<RichRun>)
    ensures
        runs_view(r@) == merge_runs(runs_view(runs@)),
{
    let ghost all = runs_view(runs@);
    let mut merged: Vec<RichRun> = Vec::new();
    let mut i: usize = 0;
    assert(all.take(0) =~= Seq::<RunV>::empty());
    assert(runs_view(merged@) =~= Seq::<RunV>::empty());
    while i < runs.len()
        invariant
            i <= runs@.len(),
            all == runs_view(runs@),
            runs_view(merged@) == merge_runs(all.take(i as int)),
        decreases runs.len() - i,
    {
        let run = &runs[i];
        assert(all.take(i + 1).drop_last() =~= all.take(i as int));
        assert(all.take(i + 1).last() == run@);
        let n = merged.len();
        let mut join = false;
        if n > 0 && !run.style.styled {
            join = same_look_of(&merged[n - 1].style, &run.style);
        }
        let ghost m = runs_view(merged@);
        if join {
            let mut last = merged.pop().unwrap();
            push_str(&mut last.text, run.text.as_str());
            merged.push(last);
            assert(runs_view(merged@) =~= m.update(m.len() - 1, RunV { text: m.last().text + run@.text, style: m.last().style }));
        } else {
            merged.push(RichRun { text: run.text.clone(), style: copy_style(&run.style) });
            assert(runs_view(merged@) =~= m.push(run@));
        }
        i = i + 1;
    }
    assert(all.take(i as int) =~= all);
    merged
}

/// The runs of `cs[from..to]`.
fn runs_in(cs: &Vec<char>, from: usize, to: usize) -> (r: Vec<RichRun>)
    requires
        from <= to <= cs@.len(),
    ensures
        runs_view(r@) == runs_spec(cs@.subrange(from as int, to as int)),
{
    let raw = scan_runs_in(cs, from, to);
    merge_all(&raw)
}

/// Split the body of one `<p>` into styled runs (`<span style>`,
/// `<strong>`, `<em>`); plain text becomes unstyled runs, `<br>` a line
/// break, and adjacent runs that look the same are merged.
pub fn parse_runs(inner: &str) -> (r: Vec<RichRun>)
    ensures
        runs_view(r@) == runs_spec(inner@),
{
    let cs = chars_of(inner);
    assert(cs@.subrange(0, cs@.len() as int) =~= cs@);
    runs_in(&cs, 0, cs.len())
}

// ---------------------------------------------------------------------
// Paragraphs
// ---------------------------------------------------------------------

/// A paragraph of rich text: the DrawingML alignment, the line height (a
/// multiple, or pixels), the space above it in pixels, and its runs.
pub struct ParaV {
    pub align: Option<Seq<char>>,
    pub line_height: Option<Seq<char>>,
    pub line_height_px: Option<Seq<char>>,
    pub margin_top_px: Option<Seq<char>>,
    pub runs: Seq<RunV>,
}

/// A paragraph of rich text. Numbers are the text of the value.
#[derive(Debug, Clone, PartialEq)]
pub struct RichPara {
    pub align: Option<&'static str>,
    pub line_height: Option<String>,
    pub line_height_px: Option<String>,
    pub margin_top_px: Option<String>,
    pub runs: Vec<RichRun>,
}

impl View for RichPara {
    type V = ParaV;

    open spec fn view(&self) -> ParaV {
        ParaV {
            align: match self.align {
                Some(a) => Some(a@),
                None => None,
            },
            line_height: opt_text(self.line_height),
            line_height_px: opt_text(self.line_height_px),
            margin_top_px: opt_text(self.margin_top_px),
            runs: runs_view(self.runs@),
        }
    }
}

pub open spec fn paras_view(v: Seq<RichPara>) -> Seq<ParaV> {
    v.map_values(|p: RichPara| p@)
}

/// A paragraph of untagged text: one unstyled run.
pub open spec fn plain_para(line: Seq<char>) -> ParaV {
    ParaV {
        align: None,
        line_height: None,
        line_height_px: None,
        margin_top_px: None,
        runs: seq![RunV { text: unescape_spec(line), style: plain_style() }],
    }
}

/// One plain paragraph per line that is not blank.
pub open spec fn plain_paras_of(lines: Seq<Seq<char>>) -> Seq<ParaV>
    decreases lines.len(),
{
    if lines.len() == 0 {
        Seq::empty()
    } else {
        plain_paras_of(lines.drop_last()) + if trim(lines.last()).len() == 0 {
            Seq::<ParaV>::empty()
        } else {
            seq![plain_para(lines.last())]
        }
    }
}

/// The paragraphs of untagged text: one per line that is not blank.
pub open spec fn plain_paras(s: Seq<char>) -> Seq<ParaV> {
    plain_paras_of(split_on(s, '\n'))
}

pub open spec fn open_p() -> Seq<char> {
    seq!['<', 'p']
}

pub open spec fn close_p() -> Seq<char> {
    seq!['<', '/', 'p', '>']
}

/// The declarations of a `<p ...>` tag: the value of its `style="..."`
/// attribute, or nothing.
pub open spec fn p_style(attr: Seq<char>) -> Seq<char> {
    let a = trim(attr);
    if a.len() >= 8 && a.take(7) == "style=\""@ && a.last() == '"' {
        a.subrange(7, a.len() - 1)
    } else {
        Seq::empty()
    }
}

/// Whether `v` contains `px`.
pub open spec fn has_px(v: Seq<char>) -> bool {
    find_pat(v, seq!['p', 'x']) < v.len()
}

/// The paragraph opened by a `<p` tag with attribute text `attr` and body
/// `body`.
pub open spec fn para_of(attr: Seq<char>, body: Seq<char>) -> ParaV {
    let pairs = css_pairs_spec(p_style(attr));
    let lh = css_value_spec(pairs, "line-height"@);
    ParaV {
        align: match css_value_spec(pairs, "text-align"@) {
            Some(v) => css_align_spec(v),
            None => None,
        },
        line_height: match lh {
            Some(v) => if !has_px(v) && float_text(v) {
                Some(v)
            } else {
                None
            },
            None => None,
        },
        line_height_px: match lh {
            Some(v) => if has_px(v) {
                px_size(Some(v))
            } else {
                None
            },
            None => None,
        },
        margin_top_px: px_size(css_value_spec(pairs, "margin-top"@)),
        runs: runs_spec(body),
    }
}

/// The paragraphs of rich text: untagged lines before a `<p` become plain
/// paragraphs; each `<p ...>` opens a paragraph that runs to the next
/// `</p>` (or to the end).
pub open spec fn rich_spec(rest: Seq<char>) -> Seq<ParaV>
    decreases rest.len(),
{
    let ps = find_pat(rest, open_p());
    if ps + 2 > rest.len() {
        plain_paras(rest)
    } else {
        let after = rest.skip(ps + 2 as int);
        let g = find_char(after, '>');
        if g >= after.len() {
            plain_paras(rest.take(ps as int))
        } else {
            let body = after.skip(g + 1 as int);
            let c = find_pat(body, close_p());
            let para = para_of(after.take(g as int), body.take(c as int));
            plain_paras(rest.take(ps as int)) + seq![para] + if c + 4 <= body.len() {
                rich_spec(body.skip(c + 4 as int))
            } else {
                Seq::<ParaV>::empty()
            }
        }
    }
}

/// Whether every `<p` tag of the text is closed by a `>`.
pub open spec fn rich_ok(rest: Seq<char>) -> bool
    decreases rest.len(),
{
    let ps = find_pat(rest, open_p());
    if ps + 2 > rest.len() {
        true
    } else {
        let after = rest.skip(ps + 2 as int);
        let g = find_char(after, '>');
        if g >= after.len() {
            false
        } else {
            let body = after.skip(g + 1 as int);
            let c = find_pat(body, close_p());
            if c + 4 <= body.len() {
                rich_ok(body.skip(c + 4 as int))
            } else {
                true
            }
        }
    }
}

fn plain_para_of(line: &Vec<char>) -> (r: RichPara)
    ensures
        r@ == plain_para(line@),
{
    let raw = string_of(line);
    let run = RichRun { text: unescape_xml(raw.as_str()), style: plain_run_style() };
    let runs = vec![run];
    let r = RichPara { align: None, line_height: None, line_height_px: None, margin_top_px: None, runs };
    assert(runs_view(r.runs@) =~= seq![RunV { text: unescape_spec(line@), style: plain_style() }]);
    r
}

/// Append the plain paragraphs of `cs[from..to]`.
fn push_plain_paras(out: &mut Vec<RichPara>, cs: &Vec<char>, from: usize, to: usize)
    requires
        from <= to <= cs@.len(),
    ensures
        paras_view(final(out)@) == paras_view(old(out)@) + plain_paras(cs@.subrange(from as int, to as int)),
{
    let ghost start = paras_view(out@);
    let sub = slice_chars(cs, from, to);
    let lines = split_chars(&sub, '\n');
    let ghost ls = char_views(lines@);
    let mut i: usize = 0;
    assert(ls.take(0) =~= Seq::<Seq<char>>::empty());
    assert(start + plain_paras_of(ls.take(0)) =~= start);
    while i < lines.len()
        invariant
            i <= lines@.len(),
            ls == char_views(lines@),
            ls == split_on(cs@.subrange(from as int, to as int), '\n'),
            paras_view(out@) == start + plain_paras_of(ls.take(i as int)),
        decreases lines.len() - i,
    {
        assert(ls.take(i + 1).drop_last() =~= ls.take(i as int));
        assert(ls.take(i + 1).last() == lines@[i as int]@);
        let ghost before = paras_view(out@);
        let t = trim_chars(&lines[i]);
        if t.len() > 0 {
            let para = plain_para_of(&lines[i]);
            out.push(para);
            assert(paras_view(out@) =~= before.push(plain_para(lines@[i as int]@)));
            assert(start + plain_paras_of(ls.take(i + 1)) =~= start + plain_paras_of(ls.take(i as int)) + seq![plain_para(lines@[i as int]@)]);
        } else {
            assert(start + plain_paras_of(ls.take(i + 1)) =~= start + plain_paras_of(ls.take(i as int)));
        }
        i = i + 1;
    }
    assert(ls.take(i as int) =~= ls);
}

fn has_px_of(v: &str) -> (r: bool)
    ensures
        r == has_px(v@),
{
    let cs = chars_of(v);
    let pat = vec!['p', 'x'];
    assert(pat@ =~= seq!['p', 'x']);
    assert(cs@.subrange(0, cs@.len() as int) =~= cs@);
    find_pat_in(&cs, 0, cs.len(), &pat) < cs.len()
}

/// The declarations of a `<p ...>` tag.
fn p_style_of(attr: &Vec<char>) -> (r: String)
    ensures
        r@ == p_style(attr@),
{
    let a = trim_chars(attr);
    let n = a.len();
    if n >= 8 && a[n - 1] == '"' {
        let head = string_of(&prefix_chars(&a, 7));
        if str_eq(head.as_str(), "style=\"") {
            return string_of(&slice_chars(&a, 7, n - 1));
        }
    }
    String::new()
}

fn para_from(attr: &Vec<char>, runs: Vec<RichRun>) -> (r: RichPara)
    ensures
        r@ == (ParaV { runs: runs_view(runs@), ..para_of(attr@, Seq::empty()) }),
{
    let style = p_style_of(attr);
    let pairs = css_pairs(style.as_str());
    let align = match css_value(&pairs, "text-align") {
        Some(v) => css_align(v),
        None => None,
    };
    let lh = css_value(&pairs, "line-height");
    let line_height = match lh {
        Some(v) => if !has_px_of(v) && is_float_text(v) {
            Some(String::from_str(v))
        } else {
            None
        },
        None => None,
    };
    let line_height_px = match lh {
        Some(v) => if has_px_of(v) {
            px_size_of(Some(v))
        } else {
            None
        },
        None => None,
    };
    let margin_top_px = px_size_of(css_value(&pairs, "margin-top"));
    RichPara { align, line_height, line_height_px, margin_top_px, runs }
}

/// Whether every `<p` tag of `text` is closed by a `>`: the texts that
/// [`parse_rich`] accepts.
pub fn rich_text_closed(text: &str) -> (r: bool)
    ensures
        r == rich_ok(text@),
{
    let cs = chars_of(text);
    let n = cs.len();
    let open = vec!['<', 'p'];
    let close = vec!['<', '/', 'p', '>'];
    assert(open@ =~= open_p());
    assert(close@ =~= close_p());
    let mut pos: usize = 0;
    assert(cs@.subrange(0, n as int) =~= cs@);
    loop
        invariant
            pos <= n == cs@.len(),
            cs@ == text@,
            open@ == open_p(),
            close@ == close_p(),
            rich_ok(cs@.subrange(pos as int, n as int)) == rich_ok(text@),
        decreases n - pos,
    {
        let ghost rest = cs@.subrange(pos as int, n as int);
        let ps = find_pat_in(&cs, pos, n, &open);
        if n - ps < 2 {
            return true;
        }
        assert(rest.skip(ps - pos + 2) =~= cs@.subrange(ps + 2, n as int));
        let g = find_char_in(&cs, ps + 2, n, '>');
        if g == n {
            return false;
        }
        let ghost after = cs@.subrange(ps + 2, n as int);
        assert(after.skip(g - ps - 2 + 1) =~= cs@.subrange(g + 1, n as int));
        let c = find_pat_in(&cs, g + 1, n, &close);
        if n - c < 4 {
            return true;
        }
        let ghost body = cs@.subrange(g + 1, n as int);
        assert(body.skip(c - g - 1 + 4) =~= cs@.subrange(c + 4, n as int));
        pos = c + 4;
    }
}

/// Parse PPTD rich text into paragraphs with per-paragraph and per-run
/// style. Plain text (no tags) yields one paragraph per line.
pub fn parse_rich(text: &str) -> (r: Vec<RichPara>)
    requires
        rich_ok(text@),
    ensures
        paras_view(r@) == rich_spec(text@),
{
    let cs = chars_of(text);
    let n = cs.len();
    let open = vec!['<', 'p'];
    let close = vec!['<', '/', 'p', '>'];
    assert(open@ =~= open_p());
    assert(close@ =~= close_p());
    let mut out: Vec<RichPara> = Vec::new();
    let mut pos: usize = 0;
    assert(cs@.subrange(0, n as int) =~= cs@);
    assert(paras_view(out@) + rich_spec(text@) =~= rich_spec(text@));
    loop
        invariant
            pos <= n == cs@.len(),
            cs@ == text@,
            open@ == open_p(),
            close@ == close_p(),
            rich_ok(cs@.subrange(pos as int, n as int)),
            paras_view(out@) + rich_spec(cs@.subrange(pos as int, n as int)) == rich_spec(text@),
        decreases n - pos,
    {
        let ghost rest = cs@.subrange(pos as int, n as int);
        let ghost o0 = paras_view(out@);
        let ps = find_pat_in(&cs, pos, n, &open);
        if n - ps < 2 {
            push_plain_paras(&mut out, &cs, pos, n);
            return out;
        }
        assert(rest.take(ps - pos) =~= cs@.subrange(pos as int, ps as int));
        push_plain_paras(&mut out, &cs, pos, ps);
        let ghost after = cs@.subrange(ps + 2, n as int);
        assert(rest.skip(ps - pos + 2) =~= after);
        let g = find_char_in(&cs, ps + 2, n, '>');
        let attr = slice_chars(&cs, ps + 2, g);
        assert(after.take(g - ps - 2) =~= attr@);
        let ghost body = cs@.subrange(g + 1, n as int);
        assert(after.skip(g - ps - 2 + 1) =~= body);
        let c = find_pat_in(&cs, g + 1, n, &close);
        assert(body.take(c - g - 1) =~= cs@.subrange(g + 1, c as int));
        let runs = runs_in(&cs, g + 1, c);
        let para = para_from(&attr, runs);
        assert(para@ == para_of(after.take(g - ps - 2), body.take(c - g - 1)));
        let ghost o1 = paras_view(out@);
        out.push(para);
        assert(paras_view(out@) =~= o1.push(para@));
        if n - c < 4 {
            assert(paras_view(out@) =~= o0 + rich_spec(rest));
            return out;
        }
        assert(body.skip(c - g - 1 + 4) =~= cs@.subrange(c + 4, n as int));
        assert(paras_view(out@) + rich_spec(cs@.subrange(c + 4, n as int)) =~= o0 + rich_spec(rest));
        pos = c + 4;
    }
}

// ---------------------------------------------------------------------
// Laws
// ---------------------------------------------------------------------

/// No run could have been merged into the run before it.
pub open spec fn no_mergeable_neighbours(runs: Seq<RunV>) -> bool {
    forall|i: int|
        #![trigger runs[i]]
        0 < i < runs.len() ==> !(same_look(runs[i - 1].style, runs[i].style) && !runs[i].style.styled)
}

proof fn lemma_merge_runs_merged(runs: Seq<RunV>)
    ensures
        no_mergeable_neighbours(merge_runs(runs)),
        runs.len() > 0 ==> merge_runs(runs).len() > 0,
    decreases runs.len(),
{
    if runs.len() > 0 {
        let m = merge_runs(runs.drop_last());
        lemma_merge_runs_merged(runs.drop_last());
        let r = merge_runs(runs);
        assert forall|i: int| 0 < i < r.len() implies !(same_look(r[i - 1].style, #[trigger] r[i].style)
            && !r[i].style.styled) by {
            if i < m.len() {
                assert(r[i].style == m[i].style);
                assert(r[i - 1].style == m[i - 1].style);
            }
        }
    }
}

/// Adjacent runs that look the same are merged: in the runs of a
/// paragraph, no run without an explicit style looks like the run before
/// it.
pub proof fn lemma_runs_merged(inner: Seq<char>)
    ensures
        no_mergeable_neighbours(runs_spec(inner)),
{
    lemma_merge_runs_merged(scan_runs(inner, Seq::empty(), plain_style(), Seq::empty()));
}

/// Plain text (no tags) yields one paragraph per line: text without a
/// `<p` tag is accepted, and its paragraphs are one unstyled paragraph per
/// line that is not blank.
pub proof fn lemma_plain_text_paragraphs(text: Seq<char>)
    requires
        forall|j: int| #![trigger text[j]] 0 <= j && j + 1 < text.len() ==> !(text[j] == '<' && text[j + 1] == 'p'),
    ensures
        rich_ok(text),
        rich_spec(text) == plain_paras_of(split_on(text, '\n')),
{
    assert forall|j: int| 0 <= j < text.len() implies !matches_at(text, open_p(), j) by {
        if j + 2 <= text.len() {
            let w = text.subrange(j, j + 2);
            if w == open_p() {
                assert(w[0] == text[j] && w[1] == text[j + 1]);
            }
        }
    }
    lemma_find_pat(text, open_p(), text.len() as int);
}

} // verus!
