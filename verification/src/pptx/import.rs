//! Text-level rules of the PPTX → PPTD import: archive paths, layout keys,
//! theme font aliases and preset colour names.

use vstd::prelude::*;

use crate::pptd::shared::HorizontalAlign;
use crate::text::{
    decimal, digit_char, is_empty_text, string_of, trim, trim_chars, usize_to_string,
};
use crate::text::{
    chars_of, last_index, last_position, prefix_chars, push_char, push_chars, push_str, split_on,
    str_eq, suffix_chars,
};

verus! {

/// The directory of a part: the text before its last `/` (empty for a
/// part at the archive root).
pub open spec fn part_dir(part: Seq<char>) -> Seq<char> {
    match last_index(part, '/') {
        Some(i) => part.take(i),
        None => Seq::empty(),
    }
}

/// Path segments after resolving `.`, `..` and empty segments; `..` at the
/// top is dropped.
pub open spec fn normalize_segments(segs: Seq<Seq<char>>) -> Seq<Seq<char>>
    decreases segs.len(),
{
    if segs.len() == 0 {
        Seq::empty()
    } else {
        step_segment(normalize_segments(segs.drop_last()), segs.last())
    }
}

/// One segment applied to the resolved stack.
pub open spec fn step_segment(stack: Seq<Seq<char>>, seg: Seq<char>) -> Seq<Seq<char>> {
    if seg.len() == 0 || seg == seq!['.'] {
        stack
    } else if seg == seq!['.', '.'] {
        if stack.len() > 0 {
            stack.drop_last()
        } else {
            stack
        }
    } else {
        stack.push(seg)
    }
}

/// The segments joined with `/`.
pub open spec fn join_slash(segs: Seq<Seq<char>>) -> Seq<char>
    decreases segs.len(),
{
    if segs.len() == 0 {
        Seq::empty()
    } else if segs.len() == 1 {
        segs[0]
    } else {
        join_slash(segs.drop_last()) + seq!['/'] + segs.last()
    }
}

/// The path a relationship target is resolved from: a target that starts
/// with `/` is taken from the package root, any other one is joined to the
/// directory of its source part.
pub open spec fn target_joined(part: Seq<char>, target: Seq<char>) -> Seq<char> {
    if target.len() > 0 && target[0] == '/' {
        target
    } else {
        part_dir(part) + seq!['/'] + target
    }
}

/// A relationship target resolved against the directory of its source
/// part (or the package root, for a target that starts with `/`), as an
/// archive-internal path such as `ppt/slides/slide1.xml`.
pub open spec fn resolve_target_spec(part: Seq<char>, target: Seq<char>) -> Seq<char> {
    join_slash(normalize_segments(split_on(target_joined(part, target), '/')))
}

fn apply_segment(stack: &mut Vec<Vec<char>>, seg: Vec<char>)
    ensures
        final(stack)@.map_values(|v: Vec<char>| v@) == step_segment(
            old(stack)@.map_values(|v: Vec<char>| v@),
            seg@,
        ),
{
    let ghost before = stack@.map_values(|v: Vec<char>| v@);
    if seg.len() == 0 || (seg.len() == 1 && seg[0] == '.') {
        assert(seg@.len() == 1 ==> seg@ =~= seq!['.']);
    } else if seg.len() == 2 && seg[0] == '.' && seg[1] == '.' {
        assert(seg@ =~= seq!['.', '.']);
        if stack.len() > 0 {
            stack.pop();
            assert(stack@.map_values(|v: Vec<char>| v@) =~= before.drop_last());
        }
    } else {
        assert(seg@ != seq!['.']) by {
            if seg@.len() == 1 {
                assert(seg@[0] != '.');
            }
        }
        assert(seg@ != seq!['.', '.']) by {
            if seg@.len() == 2 {
                assert(!(seg@[0] == '.' && seg@[1] == '.'));
            }
        }
        stack.push(seg);
        assert(stack@.map_values(|v: Vec<char>| v@) =~= before.push(seg@));
    }
}

/// Resolve a relationship target against the part's directory, yielding an
/// archive-internal path like `ppt/slides/slide1.xml`; a target that starts
/// with `/` is resolved from the package root.
pub fn resolve_target(part: &str, target: &str) -> (r: String)
    ensures
        r@ == resolve_target_spec(part@, target@),
{
    let pcs = chars_of(part);
    let tcs = chars_of(target);
    let absolute = tcs.len() > 0 && tcs[0] == '/';
    let mut joined = if absolute {
        Vec::new()
    } else {
        let mut dir = match last_position(&pcs, '/') {
            Some(i) => prefix_chars(&pcs, i),
            None => Vec::new(),
        };
        dir.push('/');
        dir
    };
    let mut k: usize = 0;
    let ghost base = joined@;
    while k < tcs.len()
        invariant
            k <= tcs@.len(),
            joined@ == base + tcs@.take(k as int),
        decreases tcs.len() - k,
    {
        joined.push(tcs[k]);
        assert(tcs@.take(k + 1) =~= tcs@.take(k as int).push(tcs@[k as int]));
        k = k + 1;
    }
    assert(tcs@.take(k as int) =~= tcs@);
    assert(joined@ =~= target_joined(part@, target@));
    let ghost js = joined@;
    let mut stack: Vec<Vec<char>> = Vec::new();
    let mut cur: Vec<char> = Vec::new();
    let mut i: usize = 0;
    assert(js.take(0) =~= Seq::<char>::empty());
    while i < joined.len()
        invariant
            js == joined@,
            i <= js.len(),
            split_on(js.take(i as int), '/').len() >= 1,
            stack@.map_values(|v: Vec<char>| v@) == normalize_segments(
                split_on(js.take(i as int), '/').drop_last(),
            ),
            cur@ == split_on(js.take(i as int), '/').last(),
        decreases js.len() - i,
    {
        let c = joined[i];
        let ghost prev = split_on(js.take(i as int), '/');
        assert(js.take(i + 1).drop_last() =~= js.take(i as int));
        if c == '/' {
            let seg = cur;
            assert(prev.push(Seq::empty()).drop_last() =~= prev);
            assert(prev.drop_last().push(prev.last()) =~= prev);
            apply_segment(&mut stack, seg);
            cur = Vec::new();
        } else {
            let ghost next = prev.update(prev.len() - 1, prev.last().push(c));
            assert(next.drop_last() =~= prev.drop_last());
            cur.push(c);
        }
        i = i + 1;
    }
    assert(js.take(i as int) =~= js);
    let ghost all = split_on(js, '/');
    assert(all.drop_last().push(all.last()) =~= all);
    apply_segment(&mut stack, cur);
    let ghost segs = stack@.map_values(|v: Vec<char>| v@);
    let mut out = String::new();
    let mut m: usize = 0;
    while m < stack.len()
        invariant
            m <= stack@.len(),
            segs == stack@.map_values(|v: Vec<char>| v@),
            out@ == join_slash(segs.take(m as int)),
        decreases stack.len() - m,
    {
        assert(segs.take(m + 1).drop_last() =~= segs.take(m as int));
        if m > 0 {
            push_char(&mut out, '/');
        } else {
            assert(Seq::<char>::empty() + stack@[0]@ =~= stack@[0]@);
        }
        push_chars(&mut out, &stack[m]);
        m = m + 1;
    }
    assert(segs.take(m as int) =~= segs);
    out
}

/// The relationship part of a main part: `ppt/slides/slide1.xml` →
/// `ppt/slides/_rels/slide1.xml.rels`.
pub open spec fn rels_part_spec(part: Seq<char>) -> Seq<char> {
    match last_index(part, '/') {
        Some(i) => part.take(i) + "/_rels/"@ + part.skip(i + 1) + ".rels"@,
        None => "_rels/"@ + part + ".rels"@,
    }
}

/// Relationship part path for a main part.
pub fn rels_part(part: &str) -> (r: String)
    ensures
        r@ == rels_part_spec(part@),
{
    let cs = chars_of(part);
    let mut out = String::new();
    match last_position(&cs, '/') {
        Some(i) => {
            assert(i < cs.len());
            let dir = prefix_chars(&cs, i);
            let name = suffix_chars(&cs, i + 1);
            push_chars(&mut out, &dir);
            push_str(&mut out, "/_rels/");
            push_chars(&mut out, &name);
            push_str(&mut out, ".rels");
        },
        None => {
            push_str(&mut out, "_rels/");
            push_str(&mut out, part);
            push_str(&mut out, ".rels");
        },
    }
    out
}

/// `s` without every trailing repetition of `.xml`
/// (`str::trim_end_matches(".xml")`).
pub open spec fn trim_xml_suffix(s: Seq<char>) -> Seq<char>
    decreases s.len(),
{
    if s.len() >= 4 && s.skip(s.len() - 4) == ".xml"@ {
        trim_xml_suffix(s.take(s.len() - 4))
    } else {
        s
    }
}

/// Number of ASCII digits at the end of `s`.
pub open spec fn trailing_digits(s: Seq<char>) -> nat
    decreases s.len(),
{
    if s.len() > 0 && '0' <= s.last() && s.last() <= '9' {
        1 + trailing_digits(s.drop_last())
    } else {
        0
    }
}

/// `s` with every `.` replaced by `_`.
pub open spec fn dots_to_underscores(s: Seq<char>) -> Seq<char> {
    s.map_values(|c: char| if c == '.' { '_' } else { c })
}

/// The PPTD layout key of a layout part: `layout_` and the trailing digits
/// of the part's file stem (`ppt/slideLayouts/slideLayout13.xml` →
/// `layout_13`), or the stem itself with dots as underscores when it has
/// no trailing digits.
pub open spec fn layout_key_spec(layout_part: Seq<char>) -> Seq<char> {
    let stem = trim_xml_suffix(
        match last_index(layout_part, '/') {
            Some(i) => layout_part.skip(i + 1),
            None => layout_part,
        },
    );
    let n = trailing_digits(stem);
    if n == 0 {
        "layout_"@ + dots_to_underscores(stem)
    } else {
        "layout_"@ + stem.skip(stem.len() - n)
    }
}

/// Derive a stable PPTD layout key from the layout part path.
pub fn layout_key(layout_part: &str) -> (r: String)
    ensures
        r@ == layout_key_spec(layout_part@),
{
    let cs = chars_of(layout_part);
    let mut stem = match last_position(&cs, '/') {
        Some(i) => {
            assert(i < cs.len());
            suffix_chars(&cs, i + 1)
        },
        None => cs,
    };
    let ghost full = stem@;
    proof {
        reveal_strlit(".xml");
    }
    while stem.len() >= 4 && stem[stem.len() - 4] == '.' && stem[stem.len() - 3] == 'x' && stem[stem.len()
        - 2] == 'm' && stem[stem.len() - 1] == 'l'
        invariant
            trim_xml_suffix(full) == trim_xml_suffix(stem@),
        decreases stem.len(),
    {
        proof {
            reveal_strlit(".xml");
        }
        let n = stem.len() - 4;
        assert(stem@.skip(n as int) =~= ".xml"@);
        stem = prefix_chars(&stem, n);
    }
    proof {
        if stem@.len() >= 4 && stem@.skip(stem@.len() - 4) == ".xml"@ {
            assert(stem@.skip(stem@.len() - 4)[0] == '.');
            assert(stem@.skip(stem@.len() - 4)[1] == 'x');
            assert(stem@.skip(stem@.len() - 4)[2] == 'm');
            assert(stem@.skip(stem@.len() - 4)[3] == 'l');
        }
    }
    let ghost st = stem@;
    let mut d: usize = 0;
    assert(st.take(st.len() - 0) =~= st);
    while d < stem.len() && '0' <= stem[stem.len() - 1 - d] && stem[stem.len() - 1 - d] <= '9'
        invariant
            d <= stem@.len(),
            st == stem@,
            trailing_digits(st) == d + trailing_digits(st.take(st.len() - d)),
        decreases stem.len() - d,
    {
        assert(st.take(st.len() - d).drop_last() =~= st.take(st.len() - d - 1));
        d = d + 1;
    }
    assert(trailing_digits(st.take(st.len() - d)) == 0);
    let mut out = String::from_str("layout_");
    if d == 0 {
        let mut i: usize = 0;
        while i < stem.len()
            invariant
                i <= stem@.len(),
                st == stem@,
                out@ == "layout_"@ + dots_to_underscores(st.take(i as int)),
            decreases stem.len() - i,
        {
            let c = if stem[i] == '.' {
                '_'
            } else {
                stem[i]
            };
            push_char(&mut out, c);
            assert(dots_to_underscores(st.take(i + 1)) =~= dots_to_underscores(st.take(i as int)).push(c));
            i = i + 1;
        }
        assert(st.take(i as int) =~= st);
    } else {
        let digits = suffix_chars(&stem, stem.len() - d);
        push_chars(&mut out, &digits);
    }
    out
}

/// One unsupported construct that was reported instead of silently dropped.
#[derive(Debug, Clone, PartialEq)]
pub struct Skipped {
    /// One-based slide number.
    pub page: usize,
    /// Element name from `cNvPr`.
    pub name: String,
    /// Why it could not be represented in PPTD.
    pub reason: String,
}

/// Result of a conversion.
#[derive(Debug, Clone, PartialEq)]
pub struct ConvertReport {
    /// Where the PPTD project was written.
    pub output_dir: String,
    /// Number of slides converted.
    pub page_count: usize,
    /// Total elements written across all pages.
    pub element_count: usize,
    /// Media files copied into `media/`.
    pub media_count: usize,
    /// Unsupported constructs (honest failures, never silent).
    pub skipped: Vec<Skipped>,
    /// The source matched its last sync point, so nothing was converted.
    pub skipped_unchanged: bool,
    /// Legacy sidecars were folded into `.sync.hash`.
    pub migrated_sidecars: bool,
    /// The source hash recorded as the new sync point.
    pub src_hash: Option<String>,
}

/// Theme major/minor font names, for resolving `+mj-lt` / `+mn-lt` aliases.
#[derive(Debug, Clone, Default)]
pub struct ThemeFonts {
    pub major: Option<String>,
    pub minor: Option<String>,
}

/// The typeface for `tf`: the theme's minor Latin face for `+mn-lt`,
/// `+mn-ea` and `+mn-cs`, the major one for the `+mj-*` set, an explicit
/// name unchanged, and nothing for an empty name.
pub open spec fn resolve_typeface_spec(tf: Seq<char>, fonts: ThemeFonts) -> Option<Seq<char>> {
    if tf == "+mn-lt"@ || tf == "+mn-ea"@ || tf == "+mn-cs"@ {
        match fonts.minor {
            Some(f) => Some(f@),
            None => None,
        }
    } else if tf == "+mj-lt"@ || tf == "+mj-ea"@ || tf == "+mj-cs"@ {
        match fonts.major {
            Some(f) => Some(f@),
            None => None,
        }
    } else if tf.len() == 0 {
        None
    } else {
        Some(tf)
    }
}

/// Resolve a theme font alias to the concrete typeface, keeping explicit
/// names untouched.
pub fn resolve_typeface(tf: &str, fonts: &ThemeFonts) -> (r: Option<String>)
    ensures
        match r {
            Some(f) => resolve_typeface_spec(tf@, *fonts) == Some(f@),
            None => resolve_typeface_spec(tf@, *fonts) is None,
        },
{
    if str_eq(tf, "+mn-lt") || str_eq(tf, "+mn-ea") || str_eq(tf, "+mn-cs") {
        match &fonts.minor {
            Some(f) => Some(f.clone()),
            None => None,
        }
    } else if str_eq(tf, "+mj-lt") || str_eq(tf, "+mj-ea") || str_eq(tf, "+mj-cs") {
        match &fonts.major {
            Some(f) => Some(f.clone()),
            None => None,
        }
    } else if str_eq(tf, "") {
        proof {
            reveal_strlit("");
        }
        None
    } else {
        proof {
            reveal_strlit("");
            assert(tf@.len() == 0 ==> tf@ =~= ""@);
        }
        Some(String::from_str(tf))
    }
}

/// OOXML preset colour name → hex (no `#`); unknown names are black.
pub open spec fn preset_color_spec(n: Seq<char>) -> Seq<char> {
    if n == "black"@ || n == "dkBlack"@ {
        "000000"@
    } else if n == "white"@ || n == "ltWhite"@ {
        "FFFFFF"@
    } else if n == "red"@ {
        "FF0000"@
    } else if n == "green"@ || n == "lime"@ {
        "00FF00"@
    } else if n == "blue"@ {
        "0000FF"@
    } else if n == "yellow"@ {
        "FFFF00"@
    } else if n == "magenta"@ || n == "fuchsia"@ {
        "FF00FF"@
    } else if n == "cyan"@ || n == "aqua"@ {
        "00FFFF"@
    } else if n == "gray"@ || n == "grey"@ {
        "808080"@
    } else if n == "maroon"@ {
        "800000"@
    } else if n == "olive"@ {
        "808000"@
    } else if n == "navy"@ {
        "000080"@
    } else if n == "purple"@ {
        "800080"@
    } else if n == "teal"@ {
        "008080"@
    } else if n == "silver"@ {
        "C0C0C0"@
    } else if n == "orange"@ {
        "FFA500"@
    } else if n == "pink"@ {
        "FFC0CB"@
    } else if n == "brown"@ {
        "A52A2A"@
    } else if n == "gold"@ {
        "FFD700"@
    } else if n == "lightBlue"@ {
        "ADD8E6"@
    } else if n == "lightGreen"@ {
        "90EE90"@
    } else if n == "lightYellow"@ {
        "FFFFE0"@
    } else if n == "lightGray"@ || n == "ltGray"@ || n == "lightGrey"@ {
        "D3D3D3"@
    } else if n == "darkBlue"@ || n == "dkBlue"@ {
        "00008B"@
    } else if n == "darkGreen"@ || n == "dkGreen"@ {
        "006400"@
    } else if n == "darkRed"@ || n == "dkRed"@ {
        "8B0000"@
    } else if n == "darkGray"@ || n == "dkGray"@ || n == "darkGrey"@ {
        "A9A9A9"@
    } else if n == "darkCyan"@ || n == "dkCyan"@ {
        "008B8B"@
    } else if n == "darkOrange"@ || n == "dkOrange"@ {
        "FF8C00"@
    } else if n == "darkMagenta"@ || n == "dkMagenta"@ {
        "8B008B"@
    } else if n == "violet"@ {
        "EE82EE"@
    } else if n == "indigo"@ {
        "4B0082"@
    } else if n == "cornflowerBlue"@ {
        "6495ED"@
    } else if n == "chocolate"@ {
        "D2691E"@
    } else if n == "crimson"@ {
        "DC143C"@
    } else if n == "salmon"@ {
        "FA8072"@
    } else {
        "000000"@
    }
}

/// OOXML `<a:prstClr val="..."/>` preset colour name → hex (no `#`).
/// Covers the named colours most commonly used in PowerPoint/WPS decks;
/// unknown names fall back to black so the run is never silently dropped.
pub fn preset_color_hex(name: &str) -> (r: &'static str)
    ensures
        r@ == preset_color_spec(name@),
{
    let n = name;
    if str_eq(n, "black") || str_eq(n, "dkBlack") {
        "000000"
    } else if str_eq(n, "white") || str_eq(n, "ltWhite") {
        "FFFFFF"
    } else if str_eq(n, "red") {
        "FF0000"
    } else if str_eq(n, "green") || str_eq(n, "lime") {
        "00FF00"
    } else if str_eq(n, "blue") {
        "0000FF"
    } else if str_eq(n, "yellow") {
        "FFFF00"
    } else if str_eq(n, "magenta") || str_eq(n, "fuchsia") {
        "FF00FF"
    } else if str_eq(n, "cyan") || str_eq(n, "aqua") {
        "00FFFF"
    } else if str_eq(n, "gray") || str_eq(n, "grey") {
        "808080"
    } else if str_eq(n, "maroon") {
        "800000"
    } else if str_eq(n, "olive") {
        "808000"
    } else if str_eq(n, "navy") {
        "000080"
    } else if str_eq(n, "purple") {
        "800080"
    } else if str_eq(n, "teal") {
        "008080"
    } else if str_eq(n, "silver") {
        "C0C0C0"
    } else if str_eq(n, "orange") {
        "FFA500"
    } else if str_eq(n, "pink") {
        "FFC0CB"
    } else if str_eq(n, "brown") {
        "A52A2A"
    } else if str_eq(n, "gold") {
        "FFD700"
    } else if str_eq(n, "lightBlue") {
        "ADD8E6"
    } else if str_eq(n, "lightGreen") {
        "90EE90"
    } else if str_eq(n, "lightYellow") {
        "FFFFE0"
    } else if str_eq(n, "lightGray") || str_eq(n, "ltGray") || str_eq(n, "lightGrey") {
        "D3D3D3"
    } else if str_eq(n, "darkBlue") || str_eq(n, "dkBlue") {
        "00008B"
    } else if str_eq(n, "darkGreen") || str_eq(n, "dkGreen") {
        "006400"
    } else if str_eq(n, "darkRed") || str_eq(n, "dkRed") {
        "8B0000"
    } else if str_eq(n, "darkGray") || str_eq(n, "dkGray") || str_eq(n, "darkGrey") {
        "A9A9A9"
    } else if str_eq(n, "darkCyan") || str_eq(n, "dkCyan") {
        "008B8B"
    } else if str_eq(n, "darkOrange") || str_eq(n, "dkOrange") {
        "FF8C00"
    } else if str_eq(n, "darkMagenta") || str_eq(n, "dkMagenta") {
        "8B008B"
    } else if str_eq(n, "violet") {
        "EE82EE"
    } else if str_eq(n, "indigo") {
        "4B0082"
    } else if str_eq(n, "cornflowerBlue") {
        "6495ED"
    } else if str_eq(n, "chocolate") {
        "D2691E"
    } else if str_eq(n, "crimson") {
        "DC143C"
    } else if str_eq(n, "salmon") {
        "FA8072"
    } else {
        "000000"
    }
}

/// The CSS `text-align` keyword of an alignment, as written into imported
/// rich text.
pub open spec fn css_align_spec(a: HorizontalAlign) -> Seq<char> {
    match a {
        HorizontalAlign::Left => "left"@,
        HorizontalAlign::Center => "center"@,
        HorizontalAlign::Right => "right"@,
        HorizontalAlign::Justify => "justify"@,
        HorizontalAlign::Distributed => "distributed"@,
    }
}

/// The CSS `text-align` keyword of an alignment.
pub fn css_align(a: HorizontalAlign) -> (r: &'static str)
    ensures
        r@ == css_align_spec(a),
{
    match a {
        HorizontalAlign::Left => "left",
        HorizontalAlign::Center => "center",
        HorizontalAlign::Right => "right",
        HorizontalAlign::Justify => "justify",
        HorizontalAlign::Distributed => "distributed",
    }
}

// ---------------------------------------------------------------------------
// Element ids
// ---------------------------------------------------------------------------

/// `base n`, the `n`-th alternative for a taken id.
pub open spec fn numbered_id(base: Seq<char>, n: nat) -> Seq<char> {
    base + seq![' '] + decimal(n)
}

/// The id a drawing name asks for: the name trimmed, or `fallback` when
/// the name is blank.
pub open spec fn id_base(name: Seq<char>, fallback: Seq<char>) -> Seq<char> {
    if trim(name).len() == 0 {
        fallback
    } else {
        trim(name)
    }
}

/// The ids handed out on one page.
pub struct IdAllocator {
    used: Vec<String>,
}

impl View for IdAllocator {
    type V = Set<Seq<char>>;

    closed spec fn view(&self) -> Set<Seq<char>> {
        self.used@.map_values(|s: String| s@).to_set()
    }
}

proof fn lemma_decimal_len(n: nat)
    ensures
        decimal(n).len() >= 1,
        n >= 10 ==> decimal(n).len() >= 2,
    decreases n,
{
    if n >= 10 {
        lemma_decimal_len(n / 10);
    }
}

proof fn lemma_decimal_injective(m: nat, j: nat)
    requires
        decimal(m) == decimal(j),
    ensures
        m == j,
    decreases m,
{
    lemma_decimal_len(m);
    lemma_decimal_len(j);
    if m < 10 && j < 10 {
        assert(decimal(m)[0] == digit_char(m));
        assert(decimal(j)[0] == digit_char(j));
    } else if m >= 10 && j >= 10 {
        let a = decimal(m);
        let b = decimal(j);
        assert(a.last() == digit_char(m % 10));
        assert(b.last() == digit_char(j % 10));
        assert(a.drop_last() =~= decimal(m / 10));
        assert(b.drop_last() =~= decimal(j / 10));
        lemma_decimal_injective(m / 10, j / 10);
    }
}

proof fn lemma_numbered_injective(base: Seq<char>, m: nat, j: nat)
    requires
        numbered_id(base, m) == numbered_id(base, j),
    ensures
        m == j,
{
    let k = base.len() + 1;
    assert(numbered_id(base, m).skip(k as int) =~= decimal(m));
    assert(numbered_id(base, j).skip(k as int) =~= decimal(j));
    lemma_decimal_injective(m, j);
}

/// At most as many alternatives can be taken as there are ids.
proof fn lemma_taken_alternatives(base: Seq<char>, k: nat, used: Seq<Seq<char>>)
    requires
        forall|m: nat| 2 <= m < k + 2 ==> used.contains(#[trigger] numbered_id(base, m)),
    ensures
        k <= used.len(),
{
    let cs = Seq::new(k, |i: int| numbered_id(base, (i + 2) as nat));
    assert(cs.no_duplicates()) by {
        assert forall|i: int, j: int| 0 <= i < cs.len() && 0 <= j < cs.len() && i != j implies cs[i]
            != cs[j] by {
            if cs[i] == cs[j] {
                lemma_numbered_injective(base, (i + 2) as nat, (j + 2) as nat);
            }
        }
    }
    cs.unique_seq_to_set();
    assert(cs.to_set().subset_of(used.to_set())) by {
        assert forall|x: Seq<char>| cs.to_set().contains(x) implies used.to_set().contains(x) by {
            let i = choose|i: int| 0 <= i < cs.len() && cs[i] == x;
            assert(used.contains(numbered_id(base, (i + 2) as nat)));
        }
    }
    vstd::seq_lib::seq_to_set_is_finite(used);
    vstd::set_lib::lemma_len_subset(cs.to_set(), used.to_set());
    used.lemma_cardinality_of_set();
}

impl IdAllocator {
    /// How many ids were handed out.
    pub closed spec fn count(self) -> nat {
        self.used@.len()
    }

    /// No ids handed out yet.
    pub fn new() -> (r: Self)
        ensures
            r@ == Set::<Seq<char>>::empty(),
            r.count() == 0,
    {
        let r = IdAllocator { used: Vec::new() };
        assert(r@ =~= Set::<Seq<char>>::empty());
        r
    }

    fn contains(&self, id: &str) -> (r: bool)
        ensures
            r == self@.contains(id@),
    {
        let ghost views = self.used@.map_values(|s: String| s@);
        let mut i: usize = 0;
        while i < self.used.len()
            invariant
                i <= self.used@.len(),
                views == self.used@.map_values(|s: String| s@),
                forall|k: int| 0 <= k < i ==> views[k] != id@,
            decreases self.used.len() - i,
        {
            if crate::text::str_eq(self.used[i].as_str(), id) {
                assert(views[i as int] == id@);
                assert(views.contains(id@));
                return true;
            }
            i = i + 1;
        }
        false
    }

    fn take(&mut self, id: String)
        ensures
            final(self)@ == old(self)@.insert(id@),
            final(self).count() == old(self).count() + 1,
    {
        let ghost before = self.used@.map_values(|s: String| s@);
        let ghost v = id@;
        self.used.push(id);
        assert(self.used@.map_values(|s: String| s@) =~= before.push(v));
        assert(before.push(v).to_set() =~= before.to_set().insert(v)) by {
            assert forall|x: Seq<char>| before.push(v).to_set().contains(x) <==> before.to_set().insert(v).contains(x) by {
                if before.push(v).to_set().contains(x) {
                    let i = choose|i: int| 0 <= i < before.push(v).len() && before.push(v)[i] == x;
                    if i < before.len() {
                        assert(before[i] == x);
                    }
                }
                if before.to_set().contains(x) && x != v {
                    let i = choose|i: int| 0 <= i < before.len() && before[i] == x;
                    assert(before.push(v)[i] == x);
                }
                if x == v {
                    assert(before.push(v)[before.len() as int] == v);
                }
            }
        }
    }

    /// A unique element id derived from the drawing name: the name (or the
    /// fallback), else the first free `name 2`, `name 3`, ...
    pub fn unique_id(&mut self, base: &str, fallback: &str) -> (r: String)
        requires
            old(self).count() + 2 < usize::MAX,
        ensures
            final(self).count() == old(self).count() + 1,
            final(self)@ == old(self)@.insert(r@),
            !old(self)@.contains(r@),
            ({
                let b = id_base(base@, fallback@);
                if !old(self)@.contains(b) {
                    r@ == b
                } else {
                    exists|n: nat|
                        n >= 2 && r@ == numbered_id(b, n) && forall|m: nat|
                            2 <= m < n ==> old(self)@.contains(#[trigger] numbered_id(b, m))
                }
            }),
    {
        let cs = chars_of(base);
        let trimmed = trim_chars(&cs);
        let b = if trimmed.len() == 0 {
            String::from_str(fallback)
        } else {
            string_of(&trimmed)
        };
        if !self.contains(b.as_str()) {
            let r = b.clone();
            self.take(b);
            return r;
        }
        let ghost start = self@;
        assert(start == old(self)@);
        let mut n: usize = 2;
        while n - 2 <= self.used.len()
            invariant
                2 <= n,
                self@ == start,
                start == old(self)@,
                self.count() == old(self).count(),
                self.used@.len() + 2 < usize::MAX,
                start.contains(b@),
                b@ == id_base(base@, fallback@),
                n <= self.used@.len() + 2,
                forall|m: nat| 2 <= m < n ==> start.contains(#[trigger] numbered_id(b@, m)),
            decreases self.used@.len() + 2 - n,
        {
            let mut candidate = b.clone();
            push_char(&mut candidate, ' ');
            let digits = usize_to_string(n);
            push_str(&mut candidate, digits.as_str());
            assert(candidate@ =~= numbered_id(b@, n as nat));
            if !self.contains(candidate.as_str()) {
                let r = candidate.clone();
                self.take(candidate);
                assert(n as nat >= 2 && r@ == numbered_id(b@, n as nat) && forall|m: nat|
                    2 <= m < n ==> old(self)@.contains(#[trigger] numbered_id(b@, m)));
                return r;
            }
            proof {
                let k = (n - 1) as nat;
                let uv = self.used@.map_values(|s: String| s@);
                assert forall|m: nat| 2 <= m < k + 2 implies uv.contains(#[trigger] numbered_id(b@, m)) by {
                    assert(start.contains(numbered_id(b@, m)));
                }
                lemma_taken_alternatives(b@, k, uv);
            }
            n = n + 1;
        }
        proof {
            let k = (n - 1) as nat;
            let uv = self.used@.map_values(|s: String| s@);
            assert forall|m: nat| 2 <= m < k + 2 implies uv.contains(#[trigger] numbered_id(b@, m)) by {
                assert(start.contains(numbered_id(b@, m)));
            }
            lemma_taken_alternatives(b@, k, uv);
            assert(false);
        }
        // Not reached: more alternatives than ids would be taken.
        String::new()
    }
}

} // verus!
