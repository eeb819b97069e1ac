//! `Theme` → `theme1.xml` mapping.
//!
//! `theme.colors` keys are arbitrary while the OOXML `clrScheme` has fixed
//! slots, so semantic names are mapped first and the leftovers fill the
//! remaining slots in the order the colors are walked (fallback = classic
//! Office palette). A slot is written as exactly six upper-case hex digits
//! (`ST_HexColorRGB`): a `#RRGGBB` or `#RRGGBBAA` value keeps its RGB part,
//! anything else leaves the slot at its Office value. Slide styles are
//! always resolved to explicit `srgbClr` values, so nothing at runtime
//! depends on these slots. The font scheme writes the default face for the
//! Latin, East Asian and complex scripts alike (the complex-script face is
//! never left empty).

use vstd::prelude::*;


use super::ns;
use super::xml::{prolog, render_events, Xml, XmlEvent};
use crate::error::Error;
use crate::pptd::shared::{Color, FontFamily};
use crate::text::{
    chars_of, lower_seq, lowercase, prefix_chars, push_str, str_eq, suffix_chars, upper_seq,
    uppercase_chars,
};

verus! {

/// Number of `clrScheme` slots.
pub const SLOT_COUNT: usize = 12;

/// The `clrScheme` slots in the order they are written.
pub open spec fn slot_name(i: int) -> Seq<char> {
    if i == 0 {
        "dk1"@
    } else if i == 1 {
        "lt1"@
    } else if i == 2 {
        "dk2"@
    } else if i == 3 {
        "lt2"@
    } else if i == 4 {
        "accent1"@
    } else if i == 5 {
        "accent2"@
    } else if i == 6 {
        "accent3"@
    } else if i == 7 {
        "accent4"@
    } else if i == 8 {
        "accent5"@
    } else if i == 9 {
        "accent6"@
    } else if i == 10 {
        "hlink"@
    } else {
        "folHlink"@
    }
}

/// The element of a slot inside `a:clrScheme`.
pub open spec fn slot_tag(i: int) -> Seq<char> {
    if i == 0 {
        "a:dk1"@
    } else if i == 1 {
        "a:lt1"@
    } else if i == 2 {
        "a:dk2"@
    } else if i == 3 {
        "a:lt2"@
    } else if i == 4 {
        "a:accent1"@
    } else if i == 5 {
        "a:accent2"@
    } else if i == 6 {
        "a:accent3"@
    } else if i == 7 {
        "a:accent4"@
    } else if i == 8 {
        "a:accent5"@
    } else if i == 9 {
        "a:accent6"@
    } else if i == 10 {
        "a:hlink"@
    } else {
        "a:folHlink"@
    }
}

/// The `theme.colors` key that names each slot (matched ignoring ASCII case).
pub open spec fn semantic_key(i: int) -> Seq<char> {
    if i == 0 {
        "text"@
    } else if i == 1 {
        "background"@
    } else if i == 2 {
        "text2"@
    } else if i == 3 {
        "background2"@
    } else if i == 4 {
        "primary"@
    } else if i == 5 {
        "secondary"@
    } else if i == 6 {
        "accent"@
    } else if i == 7 {
        "success"@
    } else if i == 8 {
        "warning"@
    } else if i == 9 {
        "danger"@
    } else if i == 10 {
        "link"@
    } else {
        "folHlink"@
    }
}

/// The Office classic value of each slot.
pub open spec fn fallback_color(i: int) -> Seq<char> {
    if i == 0 {
        "FFFFFF"@
    } else if i == 1 {
        "000000"@
    } else if i == 2 {
        "1F497D"@
    } else if i == 3 {
        "EEECE1"@
    } else if i == 4 {
        "4F81BD"@
    } else if i == 5 {
        "C0504D"@
    } else if i == 6 {
        "9BBB59"@
    } else if i == 7 {
        "8064A2"@
    } else if i == 8 {
        "4BACC6"@
    } else if i == 9 {
        "F79646"@
    } else if i == 10 {
        "0000FF"@
    } else {
        "800080"@
    }
}

/// A key whose ASCII-lowercase form is one of the semantic keys; those keys
/// never fill a slot as leftovers. (`folHlink` is not lowercase, so no
/// lowercased key equals it.)
pub open spec fn is_semantic_lower(k: Seq<char>) -> bool {
    exists|i: int| 0 <= i < 12 && semantic_key(i) == lower_seq(k)
}

/// The colors as (key, value) text pairs.
pub open spec fn color_views(colors: Seq<(String, String)>) -> Seq<(Seq<char>, Seq<char>)> {
    colors.map_values(|p: (String, String)| (p.0@, p.1@))
}

/// First position at or after `i` whose key is exactly `key`.
pub open spec fn exact_from(cs: Seq<(Seq<char>, Seq<char>)>, key: Seq<char>, i: int) -> Option<int>
    decreases cs.len() - i,
{
    if i < 0 || i >= cs.len() {
        None
    } else if cs[i].0 == key {
        Some(i)
    } else {
        exact_from(cs, key, i + 1)
    }
}

/// First position at or after `i` whose key equals `key` ignoring ASCII case.
pub open spec fn folded_from(cs: Seq<(Seq<char>, Seq<char>)>, key: Seq<char>, i: int) -> Option<int>
    decreases cs.len() - i,
{
    if i < 0 || i >= cs.len() {
        None
    } else if lower_seq(cs[i].0) == lower_seq(key) {
        Some(i)
    } else {
        folded_from(cs, key, i + 1)
    }
}

/// The color for `key`: the exact key, else the first key equal to it
/// ignoring ASCII case.
pub open spec fn lookup_color_spec(cs: Seq<(Seq<char>, Seq<char>)>, key: Seq<char>) -> Option<Seq<char>> {
    match exact_from(cs, key, 0) {
        Some(i) => Some(cs[i].1),
        None => match folded_from(cs, key, 0) {
            Some(i) => Some(cs[i].1),
            None => None,
        },
    }
}

/// Slots filled by the semantic keys.
pub open spec fn semantic_slots(cs: Seq<(Seq<char>, Seq<char>)>) -> Seq<Option<Seq<char>>> {
    Seq::new(12, |i: int| lookup_color_spec(cs, semantic_key(i)))
}

/// First unfilled slot at or after `n` (12 when there is none).
pub open spec fn next_free(used: Seq<Option<Seq<char>>>, n: int) -> int
    decreases 12 - n,
{
    if 0 <= n < 12 && used[n] is Some {
        next_free(used, n + 1)
    } else {
        n
    }
}

/// The leftover colors fill the free accent slots (`accent1` … `accent6`,
/// slots 4 to 9) in order, starting the search at `next`; filling stops
/// once every accent slot is taken.
pub open spec fn fill_leftovers(
    used: Seq<Option<Seq<char>>>,
    next: int,
    cs: Seq<(Seq<char>, Seq<char>)>,
) -> Seq<Option<Seq<char>>>
    decreases cs.len(),
{
    if cs.len() == 0 {
        used
    } else if is_semantic_lower(cs[0].0) {
        fill_leftovers(used, next, cs.skip(1))
    } else {
        let n = next_free(used, next);
        if n >= 10 {
            used
        } else {
            fill_leftovers(used.update(n, Some(cs[0].1)), n + 1, cs.skip(1))
        }
    }
}

/// `s` without its leading `#` characters.
pub open spec fn trim_hashes(s: Seq<char>) -> Seq<char>
    decreases s.len(),
{
    if s.len() > 0 && s[0] == '#' {
        trim_hashes(s.skip(1))
    } else {
        s
    }
}

/// An ASCII hex digit, either case.
pub open spec fn is_hex(c: char) -> bool {
    ('0' <= c && c <= '9') || ('a' <= c && c <= 'f') || ('A' <= c && c <= 'F')
}

/// The value written for slot `i` from a theme color: the six RGB digits,
/// upper-cased, of a HEX6 or HEX8 color, else the slot's Office value.
pub open spec fn slot_hex(v: Seq<char>, i: int) -> Seq<char> {
    let t = trim_hashes(v);
    if (t.len() == 6 || t.len() == 8) && (forall|k: int| 0 <= k < t.len() ==> is_hex(#[trigger] t[k])) {
        upper_seq(t.take(6))
    } else {
        fallback_color(i)
    }
}

/// The twelve slot values for the colors, walked in the given order.
pub open spec fn slots_spec(cs: Seq<(Seq<char>, Seq<char>)>) -> Seq<Seq<char>> {
    let used = fill_leftovers(semantic_slots(cs), 4, cs);
    Seq::new(
        12,
        |i: int|
            match used[i] {
                Some(v) => slot_hex(v, i),
                None => fallback_color(i),
            },
    )
}

/// The value written for slot `i` from the theme color `v`.
fn normalize_slot(v: &str, i: usize) -> (r: String)
    requires
        i < 12,
    ensures
        r@ == slot_hex(v@, i as int),
{
    let cs = chars_of(v);
    let mut k: usize = 0;
    assert(cs@.skip(0) =~= cs@);
    while k < cs.len() && cs[k] == '#'
        invariant
            k <= cs@.len(),
            cs@ == v@,
            trim_hashes(v@) == trim_hashes(cs@.skip(k as int)),
        decreases cs.len() - k,
    {
        assert(cs@.skip(k as int).skip(1) =~= cs@.skip(k + 1));
        k = k + 1;
    }
    let t = suffix_chars(&cs, k);
    assert(trim_hashes(t@) == t@);
    if t.len() != 6 && t.len() != 8 {
        return String::from_str(fallback_str(i));
    }
    let mut m: usize = 0;
    while m < t.len()
        invariant
            m <= t@.len(),
            i < 12,
            trim_hashes(v@) == t@,
            t@.len() == 6 || t@.len() == 8,
            forall|j: int| 0 <= j < m ==> is_hex(#[trigger] t@[j]),
        decreases t.len() - m,
    {
        let c = t[m];
        if !(('0' <= c && c <= '9') || ('a' <= c && c <= 'f') || ('A' <= c && c <= 'F')) {
            assert(!is_hex(t@[m as int]));
            return String::from_str(fallback_str(i));
        }
        m = m + 1;
    }
    let six = prefix_chars(&t, 6);
    uppercase_chars(&six)
}

fn slot_tag_str(i: usize) -> (r: &'static str)
    requires
        i < 12,
    ensures
        r@ == slot_tag(i as int),
{
    if i == 0 {
        "a:dk1"
    } else if i == 1 {
        "a:lt1"
    } else if i == 2 {
        "a:dk2"
    } else if i == 3 {
        "a:lt2"
    } else if i == 4 {
        "a:accent1"
    } else if i == 5 {
        "a:accent2"
    } else if i == 6 {
        "a:accent3"
    } else if i == 7 {
        "a:accent4"
    } else if i == 8 {
        "a:accent5"
    } else if i == 9 {
        "a:accent6"
    } else if i == 10 {
        "a:hlink"
    } else {
        "a:folHlink"
    }
}

fn semantic_key_str(i: usize) -> (r: &'static str)
    requires
        i < 12,
    ensures
        r@ == semantic_key(i as int),
{
    if i == 0 {
        "text"
    } else if i == 1 {
        "background"
    } else if i == 2 {
        "text2"
    } else if i == 3 {
        "background2"
    } else if i == 4 {
        "primary"
    } else if i == 5 {
        "secondary"
    } else if i == 6 {
        "accent"
    } else if i == 7 {
        "success"
    } else if i == 8 {
        "warning"
    } else if i == 9 {
        "danger"
    } else if i == 10 {
        "link"
    } else {
        "folHlink"
    }
}

fn fallback_str(i: usize) -> (r: &'static str)
    requires
        i < 12,
    ensures
        r@ == fallback_color(i as int),
{
    if i == 0 {
        "FFFFFF"
    } else if i == 1 {
        "000000"
    } else if i == 2 {
        "1F497D"
    } else if i == 3 {
        "EEECE1"
    } else if i == 4 {
        "4F81BD"
    } else if i == 5 {
        "C0504D"
    } else if i == 6 {
        "9BBB59"
    } else if i == 7 {
        "8064A2"
    } else if i == 8 {
        "4BACC6"
    } else if i == 9 {
        "F79646"
    } else if i == 10 {
        "0000FF"
    } else {
        "800080"
    }
}

/// Case-insensitive lookup of a color key among the theme colors.
pub fn lookup_color<'a>(colors: &'a [(String, String)], key: &str) -> (r: Option<&'a String>)
    ensures
        match r {
            Some(v) => lookup_color_spec(color_views(colors@), key@) == Some(v@),
            None => lookup_color_spec(color_views(colors@), key@) is None,
        },
{
    let ghost cs = color_views(colors@);
    let mut i: usize = 0;
    while i < colors.len()
        invariant
            i <= colors@.len(),
            cs == color_views(colors@),
            exact_from(cs, key@, 0) == exact_from(cs, key@, i as int),
        decreases colors.len() - i,
    {
        assert(cs[i as int] == (colors@[i as int].0@, colors@[i as int].1@));
        if str_eq(colors[i].0.as_str(), key) {
            return Some(&colors[i].1);
        }
        i = i + 1;
    }
    let folded_key = lowercase(key);
    let mut j: usize = 0;
    while j < colors.len()
        invariant
            j <= colors@.len(),
            cs == color_views(colors@),
            exact_from(cs, key@, 0) is None,
            folded_key@ == lower_seq(key@),
            folded_from(cs, key@, 0) == folded_from(cs, key@, j as int),
        decreases colors.len() - j,
    {
        assert(cs[j as int] == (colors@[j as int].0@, colors@[j as int].1@));
        let k = lowercase(colors[j].0.as_str());
        if str_eq(k.as_str(), folded_key.as_str()) {
            return Some(&colors[j].1);
        }
        j = j + 1;
    }
    None
}

/// Whether `key`, lowercased, is one of the semantic keys.
fn is_semantic_key(key: &str) -> (r: bool)
    ensures
        r == is_semantic_lower(key@),
{
    let folded = lowercase(key);
    let mut i: usize = 0;
    while i < SLOT_COUNT
        invariant
            i <= 12,
            folded@ == lower_seq(key@),
            forall|k: int| 0 <= k < i ==> semantic_key(k) != lower_seq(key@),
        decreases 12 - i,
    {
        if str_eq(semantic_key_str(i), folded.as_str()) {
            return true;
        }
        i = i + 1;
    }
    false
}

/// The resolved clrScheme slots, in slot order (`dk1` ... `folHlink`).
#[derive(Debug, Clone, PartialEq)]
pub struct ColorSlots {
    slots: Vec<String>,
}

impl View for ColorSlots {
    type V = Seq<Seq<char>>;

    closed spec fn view(&self) -> Seq<Seq<char>> {
        self.slots@.map_values(|s: String| s@)
    }
}

impl ColorSlots {
    /// The value of slot `i`.
    pub fn slot(&self, i: usize) -> (r: &str)
        requires
            i < self@.len(),
        ensures
            r@ == self@[i as int],
    {
        self.slots[i].as_str()
    }
}

impl Default for ColorSlots {
    /// The Office classic palette.
    fn default() -> (r: Self)
        ensures
            r@ == Seq::new(12, |i: int| fallback_color(i)),
    {
        let mut slots: Vec<String> = Vec::new();
        let mut i: usize = 0;
        while i < SLOT_COUNT
            invariant
                i <= 12,
                slots@.len() == i,
                forall|k: int| 0 <= k < i ==> (#[trigger] slots@[k])@ == fallback_color(k),
            decreases 12 - i,
        {
            slots.push(String::from_str(fallback_str(i)));
            i = i + 1;
        }
        let r = ColorSlots { slots };
        assert(r@ =~= Seq::new(12, |i: int| fallback_color(i)));
        r
    }
}

/// The text of each optional slot value.
pub open spec fn used_view(used: Seq<Option<String>>) -> Seq<Option<Seq<char>>> {
    used.map_values(|o: Option<String>| opt_text(o))
}

/// The text of an optional string.
pub open spec fn opt_text(o: Option<String>) -> Option<Seq<char>> {
    match o {
        Some(v) => Some(v@),
        None => None,
    }
}

/// Build the clrScheme slots from the theme colors, walked in the given
/// order: semantic keys take their slots, the other keys fill the free
/// slots in turn, and the Office palette fills whatever is left.
pub fn build_color_slots(colors: &[(String, String)]) -> (r: ColorSlots)
    ensures
        r@ == slots_spec(color_views(colors@)),
{
    let ghost cs = color_views(colors@);
    let mut used: Vec<Option<String>> = Vec::new();
    let mut i: usize = 0;
    while i < SLOT_COUNT
        invariant
            i <= 12,
            cs == color_views(colors@),
            used@.len() == i,
            forall|k: int| 0 <= k < i ==> opt_text(#[trigger] used@[k]) == semantic_slots(cs)[k],
        decreases 12 - i,
    {
        let found = lookup_color(colors, semantic_key_str(i));
        match found {
            Some(v) => used.push(Some(v.clone())),
            None => used.push(None),
        }
        i = i + 1;
    }
    assert(used_view(used@) =~= semantic_slots(cs));
    let ghost target = fill_leftovers(semantic_slots(cs), 4, cs);
    // Leftover keys fill the free accent slots, from accent1 on.
    let mut next: usize = 4;
    let mut j: usize = 0;
    let mut stopped = false;
    assert(cs.skip(0) =~= cs);
    while j < colors.len() && !stopped
        invariant
            j <= colors@.len(),
            next <= 12,
            cs == color_views(colors@),
            used@.len() == 12,
            !stopped ==> fill_leftovers(used_view(used@), next as int, cs.skip(j as int)) == target,
            stopped ==> used_view(used@) == target,
        decreases colors.len() - j,
    {
        let ghost u = used_view(used@);
        assert(cs.skip(j as int)[0] == (colors@[j as int].0@, colors@[j as int].1@));
        assert(cs.skip(j as int).skip(1) =~= cs.skip(j + 1));
        if !is_semantic_key(colors[j].0.as_str()) {
            let ghost start = next as int;
            while next < SLOT_COUNT && used[next].is_some()
                invariant
                    next <= 12,
                    used@.len() == 12,
                    u == used_view(used@),
                    next_free(u, start) == next_free(u, next as int),
                decreases 12 - next,
            {
                assert(u[next as int] is Some);
                next = next + 1;
            }
            if next >= 10 {
                stopped = true;
            } else {
                used.set(next, Some(colors[j].1.clone()));
                assert(used_view(used@) =~= u.update(next as int, Some(colors@[j as int].1@)));
                next = next + 1;
            }
        }
        j = j + 1;
    }
    proof {
        if !stopped {
            assert(cs.skip(j as int) =~= Seq::<(Seq<char>, Seq<char>)>::empty());
        }
    }
    let ghost final_used = used_view(used@);
    assert(final_used == target);
    let mut slots: Vec<String> = Vec::new();
    let mut k: usize = 0;
    while k < SLOT_COUNT
        invariant
            k <= 12,
            used@.len() == 12,
            final_used == used_view(used@),
            slots@.len() == k,
            forall|m: int|
                0 <= m < k ==> (#[trigger] slots@[m])@ == (match final_used[m] {
                    Some(v) => slot_hex(v, m),
                    None => fallback_color(m),
                }),
        decreases 12 - k,
    {
        assert(final_used[k as int] == opt_text(used@[k as int]));
        match &used[k] {
            Some(v) => slots.push(normalize_slot(v.as_str(), k)),
            None => slots.push(String::from_str(fallback_str(k))),
        }
        k = k + 1;
    }
    let r = ColorSlots { slots };
    assert(r@ =~= slots_spec(cs));
    r
}

// ---------------------------------------------------------------------------
// theme1.xml
// ---------------------------------------------------------------------------

/// An element opening without attributes.
pub open spec fn open0(name: Seq<char>) -> XmlEvent {
    XmlEvent::Open(name, seq![])
}

/// An element opening with one attribute.
pub open spec fn open1(name: Seq<char>, k: Seq<char>, v: Seq<char>) -> XmlEvent {
    XmlEvent::Open(name, seq![(k, v)])
}

/// A self-closing element with one attribute.
pub open spec fn leaf1(name: Seq<char>, k: Seq<char>, v: Seq<char>) -> XmlEvent {
    XmlEvent::Leaf(name, seq![(k, v)])
}

/// A closing tag.
pub open spec fn close(name: Seq<char>) -> XmlEvent {
    XmlEvent::Close(name)
}

/// A font scheme entry: the Latin face (also for complex scripts) and the
/// East Asian face.
pub open spec fn font_scheme_events(name: Seq<char>, latin: Seq<char>, ea: Seq<char>) -> Seq<XmlEvent> {
    seq![
        open0(name),
        leaf1("a:latin"@, "typeface"@, latin),
        leaf1("a:ea"@, "typeface"@, ea),
        leaf1("a:cs"@, "typeface"@, latin),
        close(name),
    ]
}

/// One gradient stop on the placeholder color with optional tint and shade.
pub open spec fn gs_events(
    pos: Seq<char>,
    tint: Option<Seq<char>>,
    sat_mod: Seq<char>,
    shade: Option<Seq<char>>,
) -> Seq<XmlEvent> {
    seq![open1("a:gs"@, "pos"@, pos), open1("a:schemeClr"@, "val"@, "phClr"@)] + (match tint {
        Some(t) => seq![leaf1("a:tint"@, "val"@, t)],
        None => Seq::empty(),
    }) + (match shade {
        Some(t) => seq![leaf1("a:shade"@, "val"@, t)],
        None => Seq::empty(),
    }) + seq![leaf1("a:satMod"@, "val"@, sat_mod), close("a:schemeClr"@), close("a:gs"@)]
}

/// One line style of the given width.
pub open spec fn ln_style_events(width: Seq<char>) -> Seq<XmlEvent> {
    seq![
        XmlEvent::Open(
            "a:ln"@,
            seq![("w"@, width), ("cap"@, "flat"@), ("cmpd"@, "sng"@), ("algn"@, "ctr"@)],
        ),
        open0("a:solidFill"@),
        leaf1("a:schemeClr"@, "val"@, "phClr"@),
        close("a:solidFill"@),
        leaf1("a:prstDash"@, "val"@, "solid"@),
        leaf1("a:miter"@, "lim"@, "800000"@),
        close("a:ln"@),
    ]
}

/// One effect style, with or without the soft outer shadow.
pub open spec fn effect_style_events(with_shadow: bool) -> Seq<XmlEvent> {
    seq![open0("a:effectStyle"@), open0("a:effectLst"@)] + (if with_shadow {
        seq![
            XmlEvent::Open(
                "a:outerShdw"@,
                seq![
                    ("blurRad"@, "40000"@),
                    ("dist"@, "20000"@),
                    ("dir"@, "5400000"@),
                    ("rotWithShape"@, "0"@),
                ],
            ),
            open1("a:srgbClr"@, "val"@, "000000"@),
            leaf1("a:alpha"@, "val"@, "38000"@),
            close("a:srgbClr"@),
            close("a:outerShdw"@),
        ]
    } else {
        Seq::empty()
    }) + seq![close("a:effectLst"@), close("a:effectStyle"@)]
}

/// The first `n` slots of the color scheme.
pub open spec fn slot_events(slots: Seq<Seq<char>>, n: nat) -> Seq<XmlEvent>
    decreases n,
{
    if n == 0 {
        Seq::empty()
    } else {
        slot_events(slots, (n - 1) as nat) + seq![
            open0(slot_tag(n - 1)),
            leaf1("a:srgbClr"@, "val"@, slots[n - 1]),
            close(slot_tag(n - 1)),
        ]
    }
}

/// The solid and two gradient fills of the format scheme.
pub open spec fn fill_style_events() -> Seq<XmlEvent> {
    seq![
        open0("a:fillStyleLst"@),
        open0("a:solidFill"@),
        leaf1("a:schemeClr"@, "val"@, "phClr"@),
        close("a:solidFill"@),
        open1("a:gradFill"@, "rotWithShape"@, "1"@),
        open0("a:gsLst"@),
    ] + gs_events("0"@, Some("50000"@), "300000"@, None) + gs_events(
        "35000"@,
        Some("37000"@),
        "300000"@,
        None,
    ) + gs_events("100000"@, Some("15000"@), "350000"@, None) + seq![
        close("a:gsLst"@),
        XmlEvent::Open("a:lin"@, seq![("ang"@, "16200000"@), ("scaled"@, "1"@)]),
        close("a:lin"@),
        close("a:gradFill"@),
        open1("a:gradFill"@, "rotWithShape"@, "1"@),
        open0("a:gsLst"@),
    ] + gs_events("0"@, None, "130000"@, Some("51000"@)) + gs_events(
        "80000"@,
        None,
        "130000"@,
        Some("93000"@),
    ) + gs_events("100000"@, None, "135000"@, Some("94000"@)) + seq![
        close("a:gsLst"@),
        XmlEvent::Open("a:lin"@, seq![("ang"@, "16200000"@), ("scaled"@, "0"@)]),
        close("a:lin"@),
        close("a:gradFill"@),
        close("a:fillStyleLst"@),
    ]
}

/// The three background fills of the format scheme.
pub open spec fn bg_fill_style_events() -> Seq<XmlEvent> {
    seq![
        open0("a:bgFillStyleLst"@),
        open0("a:solidFill"@),
        leaf1("a:schemeClr"@, "val"@, "phClr"@),
        close("a:solidFill"@),
        open1("a:gradFill"@, "rotWithShape"@, "1"@),
        open0("a:gsLst"@),
    ] + gs_events("0"@, Some("40000"@), "350000"@, None) + gs_events(
        "40000"@,
        Some("45000"@),
        "350000"@,
        Some("99000"@),
    ) + gs_events("100000"@, None, "255000"@, Some("20000"@)) + seq![
        close("a:gsLst"@),
        open1("a:path"@, "path"@, "circle"@),
        XmlEvent::Leaf(
            "a:fillToRect"@,
            seq![("l"@, "50000"@), ("t"@, "-80000"@), ("r"@, "50000"@), ("b"@, "180000"@)],
        ),
        close("a:path"@),
        close("a:gradFill"@),
        open1("a:gradFill"@, "rotWithShape"@, "1"@),
        open0("a:gsLst"@),
    ] + gs_events("0"@, None, "350000"@, Some("75000"@)) + gs_events(
        "40000"@,
        None,
        "350000"@,
        Some("80000"@),
    ) + gs_events("100000"@, None, "300000"@, Some("50000"@)) + seq![
        close("a:gsLst"@),
        open1("a:path"@, "path"@, "circle"@),
        XmlEvent::Leaf(
            "a:fillToRect"@,
            seq![("l"@, "50000"@), ("t"@, "80000"@), ("r"@, "-80000"@), ("b"@, "50000"@)],
        ),
        close("a:path"@),
        close("a:gradFill"@),
        close("a:bgFillStyleLst"@),
    ]
}

/// The standard Office format scheme.
pub open spec fn fmt_scheme_events() -> Seq<XmlEvent> {
    seq![open1("a:fmtScheme"@, "name"@, "SlideForge"@)] + fill_style_events() + seq![
        open0("a:lnStyleLst"@),
    ] + ln_style_events("6350"@) + ln_style_events("12700"@) + ln_style_events("19050"@) + seq![
        close("a:lnStyleLst"@),
        open0("a:effectStyleLst"@),
    ] + effect_style_events(false) + effect_style_events(false) + effect_style_events(true)
        + seq![close("a:effectStyleLst"@)] + bg_fill_style_events() + seq![close("a:fmtScheme"@)]
}

/// The whole theme part for the given slot values and default fonts.
pub open spec fn theme_events(slots: Seq<Seq<char>>, latin: Seq<char>, ea: Seq<char>) -> Seq<XmlEvent> {
    seq![
        XmlEvent::Open("a:theme"@, seq![("xmlns:a"@, ns::DRAWINGML@), ("name"@, "SlideForge"@)]),
        open0("a:themeElements"@),
        open1("a:clrScheme"@, "name"@, "SlideForge"@),
    ] + slot_events(slots, 12) + seq![
        close("a:clrScheme"@),
        open1("a:fontScheme"@, "name"@, "SlideForge"@),
    ] + font_scheme_events("a:majorFont"@, latin, ea) + font_scheme_events("a:minorFont"@, latin, ea)
        + seq![close("a:fontScheme"@)] + fmt_scheme_events() + seq![
        close("a:themeElements"@),
        XmlEvent::Leaf("a:objectDefaults"@, seq![]),
        XmlEvent::Leaf("a:extraClrSchemeLst"@, seq![]),
        close("a:theme"@),
    ]
}

fn emit_font_scheme(x: &mut Xml, name: &str, latin: &str, ea: &str)
    requires
        old(x).depth() <= 100,
    ensures
        final(x).events() == old(x).events() + font_scheme_events(name@, latin@, ea@),
        final(x).depth() == old(x).depth(),
        final(x).head() == old(x).head(),
{
    let ghost e0 = x.events();
    x.open(name);
    x.leaf_with("a:latin", "typeface", latin);
    x.leaf_with("a:ea", "typeface", ea);
    x.leaf_with("a:cs", "typeface", latin);
    x.end(name);
    assert(x.events() =~= e0 + font_scheme_events(name@, latin@, ea@));
}

fn emit_gs(x: &mut Xml, pos: &str, tint: Option<&str>, sat_mod: &str, shade: Option<&str>)
    requires
        old(x).depth() <= 100,
    ensures
        final(x).events() == old(x).events() + gs_events(
            pos@,
            match tint {
                Some(t) => Some(t@),
                None => None,
            },
            sat_mod@,
            match shade {
                Some(t) => Some(t@),
                None => None,
            },
        ),
        final(x).depth() == old(x).depth(),
        final(x).head() == old(x).head(),
{
    let ghost e0 = x.events();
    x.open_with("a:gs", "pos", pos);
    x.open_with("a:schemeClr", "val", "phClr");
    if let Some(tint) = tint {
        x.leaf_with("a:tint", "val", tint);
    }
    if let Some(shade) = shade {
        x.leaf_with("a:shade", "val", shade);
    }
    x.leaf_with("a:satMod", "val", sat_mod);
    x.end("a:schemeClr");
    x.end("a:gs");
    assert(x.events() =~= e0 + gs_events(
        pos@,
        match tint {
            Some(t) => Some(t@),
            None => None,
        },
        sat_mod@,
        match shade {
            Some(t) => Some(t@),
            None => None,
        },
    ));
}

fn emit_ln_style(x: &mut Xml, width: &str)
    requires
        old(x).depth() <= 100,
    ensures
        final(x).events() == old(x).events() + ln_style_events(width@),
        final(x).depth() == old(x).depth(),
        final(x).head() == old(x).head(),
{
    let ghost e0 = x.events();
    let attrs = [("w", width), ("cap", "flat"), ("cmpd", "sng"), ("algn", "ctr")];
    assert(super::xml::attr_views(attrs@) =~= seq![
        ("w"@, width@),
        ("cap"@, "flat"@),
        ("cmpd"@, "sng"@),
        ("algn"@, "ctr"@),
    ]);
    x.start("a:ln", &attrs);
    x.open("a:solidFill");
    x.leaf_with("a:schemeClr", "val", "phClr");
    x.end("a:solidFill");
    x.leaf_with("a:prstDash", "val", "solid");
    x.leaf_with("a:miter", "lim", "800000");
    x.end("a:ln");
    assert(x.events() =~= e0 + ln_style_events(width@));
}

fn emit_effect_style(x: &mut Xml, with_shadow: bool)
    requires
        old(x).depth() <= 100,
    ensures
        final(x).events() == old(x).events() + effect_style_events(with_shadow),
        final(x).depth() == old(x).depth(),
        final(x).head() == old(x).head(),
{
    let ghost e0 = x.events();
    x.open("a:effectStyle");
    x.open("a:effectLst");
    if with_shadow {
        let attrs = [("blurRad", "40000"), ("dist", "20000"), ("dir", "5400000"), ("rotWithShape", "0")];
        assert(super::xml::attr_views(attrs@) =~= seq![
            ("blurRad"@, "40000"@),
            ("dist"@, "20000"@),
            ("dir"@, "5400000"@),
            ("rotWithShape"@, "0"@),
        ]);
        x.start("a:outerShdw", &attrs);
        x.open_with("a:srgbClr", "val", "000000");
        x.leaf_with("a:alpha", "val", "38000");
        x.end("a:srgbClr");
        x.end("a:outerShdw");
    }
    x.end("a:effectLst");
    x.end("a:effectStyle");
    assert(x.events() =~= e0 + effect_style_events(with_shadow));
}

fn emit_lin(x: &mut Xml, scaled: &str)
    requires
        old(x).depth() <= 100,
    ensures
        final(x).events() == old(x).events() + seq![
            XmlEvent::Open("a:lin"@, seq![("ang"@, "16200000"@), ("scaled"@, scaled@)]),
            close("a:lin"@),
        ],
        final(x).depth() == old(x).depth(),
        final(x).head() == old(x).head(),
{
    let ghost e0 = x.events();
    let attrs = [("ang", "16200000"), ("scaled", scaled)];
    assert(super::xml::attr_views(attrs@) =~= seq![("ang"@, "16200000"@), ("scaled"@, scaled@)]);
    x.start("a:lin", &attrs);
    x.end("a:lin");
    assert(x.events() =~= e0 + seq![
        XmlEvent::Open("a:lin"@, seq![("ang"@, "16200000"@), ("scaled"@, scaled@)]),
        close("a:lin"@),
    ]);
}

fn emit_fill_to_rect(x: &mut Xml, l: &str, t: &str, r: &str, b: &str)
    requires
        old(x).depth() <= 100,
    ensures
        final(x).events() == old(x).events() + seq![
            open1("a:path"@, "path"@, "circle"@),
            XmlEvent::Leaf("a:fillToRect"@, seq![("l"@, l@), ("t"@, t@), ("r"@, r@), ("b"@, b@)]),
            close("a:path"@),
        ],
        final(x).depth() == old(x).depth(),
        final(x).head() == old(x).head(),
{
    let ghost e0 = x.events();
    x.open_with("a:path", "path", "circle");
    let attrs = [("l", l), ("t", t), ("r", r), ("b", b)];
    assert(super::xml::attr_views(attrs@) =~= seq![("l"@, l@), ("t"@, t@), ("r"@, r@), ("b"@, b@)]);
    x.leaf("a:fillToRect", &attrs);
    x.end("a:path");
    assert(x.events() =~= e0 + seq![
        open1("a:path"@, "path"@, "circle"@),
        XmlEvent::Leaf("a:fillToRect"@, seq![("l"@, l@), ("t"@, t@), ("r"@, r@), ("b"@, b@)]),
        close("a:path"@),
    ]);
}

fn emit_solid_placeholder(x: &mut Xml)
    requires
        old(x).depth() <= 100,
    ensures
        final(x).events() == old(x).events() + seq![
            open0("a:solidFill"@),
            leaf1("a:schemeClr"@, "val"@, "phClr"@),
            close("a:solidFill"@),
        ],
        final(x).depth() == old(x).depth(),
        final(x).head() == old(x).head(),
{
    let ghost e0 = x.events();
    x.open("a:solidFill");
    x.leaf_with("a:schemeClr", "val", "phClr");
    x.end("a:solidFill");
    assert(x.events() =~= e0 + seq![
        open0("a:solidFill"@),
        leaf1("a:schemeClr"@, "val"@, "phClr"@),
        close("a:solidFill"@),
    ]);
}

#[verifier::spinoff_prover]
#[verifier::rlimit(40)]
fn emit_fill_style_lst(x: &mut Xml)
    requires
        old(x).depth() <= 90,
    ensures
        final(x).events() == old(x).events() + fill_style_events(),
        final(x).depth() == old(x).depth(),
        final(x).head() == old(x).head(),
{
    let ghost e0 = x.events();
    x.open("a:fillStyleLst");
    emit_solid_placeholder(x);
    x.open_with("a:gradFill", "rotWithShape", "1");
    x.open("a:gsLst");
    emit_gs(x, "0", Some("50000"), "300000", None);
    emit_gs(x, "35000", Some("37000"), "300000", None);
    emit_gs(x, "100000", Some("15000"), "350000", None);
    x.end("a:gsLst");
    emit_lin(x, "1");
    x.end("a:gradFill");
    x.open_with("a:gradFill", "rotWithShape", "1");
    x.open("a:gsLst");
    emit_gs(x, "0", None, "130000", Some("51000"));
    emit_gs(x, "80000", None, "130000", Some("93000"));
    emit_gs(x, "100000", None, "135000", Some("94000"));
    x.end("a:gsLst");
    emit_lin(x, "0");
    x.end("a:gradFill");
    x.end("a:fillStyleLst");
    assert(x.events() =~= e0 + fill_style_events());
}

#[verifier::spinoff_prover]
#[verifier::rlimit(40)]
fn emit_bg_fill_style_lst(x: &mut Xml)
    requires
        old(x).depth() <= 90,
    ensures
        final(x).events() == old(x).events() + bg_fill_style_events(),
        final(x).depth() == old(x).depth(),
        final(x).head() == old(x).head(),
{
    let ghost e0 = x.events();
    x.open("a:bgFillStyleLst");
    emit_solid_placeholder(x);
    x.open_with("a:gradFill", "rotWithShape", "1");
    x.open("a:gsLst");
    emit_gs(x, "0", Some("40000"), "350000", None);
    emit_gs(x, "40000", Some("45000"), "350000", Some("99000"));
    emit_gs(x, "100000", None, "255000", Some("20000"));
    x.end("a:gsLst");
    emit_fill_to_rect(x, "50000", "-80000", "50000", "180000");
    x.end("a:gradFill");
    // PowerPoint always ships three background fills; the third is the
    // standard corner-glow gradient.
    x.open_with("a:gradFill", "rotWithShape", "1");
    x.open("a:gsLst");
    emit_gs(x, "0", None, "350000", Some("75000"));
    emit_gs(x, "40000", None, "350000", Some("80000"));
    emit_gs(x, "100000", None, "300000", Some("50000"));
    x.end("a:gsLst");
    emit_fill_to_rect(x, "50000", "80000", "-80000", "50000");
    x.end("a:gradFill");
    x.end("a:bgFillStyleLst");
    assert(x.events() =~= e0 + bg_fill_style_events());
}

#[verifier::spinoff_prover]
#[verifier::rlimit(40)]
fn emit_fmt_scheme(x: &mut Xml)
    requires
        old(x).depth() <= 80,
    ensures
        final(x).events() == old(x).events() + fmt_scheme_events(),
        final(x).depth() == old(x).depth(),
        final(x).head() == old(x).head(),
{
    let ghost e0 = x.events();
    x.open_with("a:fmtScheme", "name", "SlideForge");
    emit_fill_style_lst(x);
    x.open("a:lnStyleLst");
    emit_ln_style(x, "6350");
    emit_ln_style(x, "12700");
    emit_ln_style(x, "19050");
    x.end("a:lnStyleLst");
    x.open("a:effectStyleLst");
    emit_effect_style(x, false);
    emit_effect_style(x, false);
    emit_effect_style(x, true);
    x.end("a:effectStyleLst");
    emit_bg_fill_style_lst(x);
    x.end("a:fmtScheme");
    assert(x.events() =~= e0 + fmt_scheme_events());
}

/// Render `ppt/theme/theme1.xml`: the color scheme from the theme colors
/// (walked in the given order), the default fonts for both font slots,
/// and the standard Office format scheme.
#[verifier::spinoff_prover]
#[verifier::rlimit(40)]
pub fn theme_xml(colors: &[(String, String)], latin: &str, ea: &str) -> (r: String)
    ensures
        r@ == prolog() + render_events(0, theme_events(slots_spec(color_views(colors@)), latin@, ea@)),
{
    let slots = build_color_slots(colors);
    let mut x = Xml::new();
    let attrs = [("xmlns:a", ns::DRAWINGML), ("name", "SlideForge")];
    assert(super::xml::attr_views(attrs@) =~= seq![("xmlns:a"@, ns::DRAWINGML@), ("name"@, "SlideForge"@)]);
    x.start("a:theme", &attrs);
    x.open("a:themeElements");
    x.open_with("a:clrScheme", "name", "SlideForge");
    let ghost before_slots = x.events();
    let mut i: usize = 0;
    while i < SLOT_COUNT
        invariant
            i <= 12,
            x.depth() == 3,
            x.head() == prolog(),
            slots@.len() == 12,
            x.events() == before_slots + slot_events(slots@, i as nat),
        decreases 12 - i,
    {
        let tag = slot_tag_str(i);
        x.open(tag);
        x.leaf_with("a:srgbClr", "val", slots.slot(i));
        x.end(tag);
        i = i + 1;
        assert(x.events() =~= before_slots + slot_events(slots@, i as nat));
    }
    x.end("a:clrScheme");
    x.open_with("a:fontScheme", "name", "SlideForge");
    emit_font_scheme(&mut x, "a:majorFont", latin, ea);
    emit_font_scheme(&mut x, "a:minorFont", latin, ea);
    x.end("a:fontScheme");
    emit_fmt_scheme(&mut x);
    x.end("a:themeElements");
    x.empty("a:objectDefaults");
    x.empty("a:extraClrSchemeLst");
    x.end("a:theme");
    assert(x.events() =~= theme_events(slots@, latin@, ea@));
    x.into_string()
}

/// The default `(latin, ea)` font pair for a theme whose text styles
/// declare `first` as their first font family (`MiSans` when none does).
pub fn default_fonts(first: Option<&FontFamily>) -> (r: (String, String))
    ensures
        match first {
            Some(FontFamily::Single(name)) => r.0@ == name@ && r.1@ == name@,
            Some(FontFamily::Bilingual { latin, ea }) => r.0@ == latin@ && r.1@ == ea@,
            None => r.0@ == "MiSans"@ && r.1@ == "MiSans"@,
        },
{
    match first {
        Some(FontFamily::Single(name)) => (name.clone(), name.clone()),
        Some(FontFamily::Bilingual { latin, ea }) => (latin.clone(), ea.clone()),
        None => (String::from_str("MiSans"), String::from_str("MiSans")),
    }
}

// ---------------------------------------------------------------------------
// Color resolution
// ---------------------------------------------------------------------------

/// A color resolved to OOXML `srgbClr` form.
#[derive(Debug, Clone, PartialEq, Eq)]
pub struct ResolvedRgb {
    /// Six hex digits, e.g. `"2563EB"`.
    pub rgb: String,
    /// The alpha byte of a HEX8 color (`0xFF` is opaque).
    pub alpha: Option<u8>,
}

/// The text a color stands for: its theme color for a `$key` reference
/// (absent when the theme has none), else the value itself.
pub open spec fn color_text(colors: Option<Seq<(Seq<char>, Seq<char>)>>, c: Seq<char>) -> Option<Seq<char>> {
    if c.len() > 0 && c[0] == '$' {
        match colors {
            None => None,
            Some(cs) => lookup_color_spec(cs, c.skip(1)),
        }
    } else {
        Some(c)
    }
}

/// The value of an ASCII hex digit, either case.
pub open spec fn hex_char_value(c: char) -> Option<int> {
    if '0' <= c && c <= '9' {
        Some(c as int - '0' as int)
    } else if 'a' <= c && c <= 'f' {
        Some(c as int - 'a' as int + 10)
    } else if 'A' <= c && c <= 'F' {
        Some(c as int - 'A' as int + 10)
    } else {
        None
    }
}

/// Every character is an ASCII hex digit.
pub open spec fn all_hex(s: Seq<char>) -> bool {
    forall|i: int| 0 <= i < s.len() ==> (#[trigger] hex_char_value(s[i])) is Some
}

/// `u8::from_str_radix(text, 16)` for a two-character text: two hex
/// digits, or `+` and one hex digit.
pub open spec fn alpha_value(a: char, b: char) -> Option<u8> {
    if a == '+' {
        match hex_char_value(b) {
            Some(v) => Some(v as u8),
            None => None,
        }
    } else {
        match (hex_char_value(a), hex_char_value(b)) {
            (Some(hi), Some(lo)) => Some((hi * 16 + lo) as u8),
            _ => None,
        }
    }
}

/// Why a color does not resolve.
#[derive(Debug, Clone, Copy, PartialEq, Eq)]
pub enum ColorError {
    /// A theme reference the theme does not define.
    Unresolved,
    /// A value that is not `#RRGGBB` / `#RRGGBBAA`.
    Invalid,
}

/// The resolved form of a color: after the theme lookup and with the
/// leading `#` characters removed, six hex digits are the RGB (ASCII
/// upper-cased); eight characters are six hex digits of RGB followed by the
/// alpha byte; anything else is invalid.
pub open spec fn resolve_spec(colors: Option<Seq<(Seq<char>, Seq<char>)>>, c: Seq<char>) -> Result<(Seq<char>, Option<u8>), ColorError> {
    match color_text(colors, c) {
        None => Err(ColorError::Unresolved),
        Some(raw) => {
            let hex = trim_hashes(raw);
            if hex.len() == 6 && all_hex(hex) {
                Ok((upper_seq(hex), None))
            } else if hex.len() == 8 && all_hex(hex.take(6)) {
                match alpha_value(hex[6], hex[7]) {
                    Some(a) => Ok((upper_seq(hex.take(6)), Some(a))),
                    None => Err(ColorError::Invalid),
                }
            } else {
                Err(ColorError::Invalid)
            }
        },
    }
}

/// The text after the theme lookup, for the error message.
pub open spec fn raw_text(colors: Option<Seq<(Seq<char>, Seq<char>)>>, c: Seq<char>) -> Seq<char> {
    match color_text(colors, c) {
        Some(raw) => raw,
        None => c,
    }
}

/// The colors of an optional theme as text pairs.
pub open spec fn theme_color_views(colors: Option<&[(String, String)]>) -> Option<Seq<(Seq<char>, Seq<char>)>> {
    match colors {
        Some(cs) => Some(color_views(cs@)),
        None => None,
    }
}

fn hex_value(c: char) -> (r: Option<u8>)
    ensures
        match r {
            Some(v) => hex_char_value(c) == Some(v as int) && v < 16,
            None => hex_char_value(c) is None,
        },
{
    if '0' <= c && c <= '9' {
        Some(((c as u32) - 0x30) as u8)
    } else if 'a' <= c && c <= 'f' {
        Some(((c as u32) - 0x61 + 10) as u8)
    } else if 'A' <= c && c <= 'F' {
        Some(((c as u32) - 0x41 + 10) as u8)
    } else {
        None
    }
}

/// Whether the first `n` characters are all hex digits.
fn hex_prefix(cs: &Vec<char>, n: usize) -> (r: bool)
    requires
        n <= cs@.len(),
    ensures
        r == all_hex(cs@.take(n as int)),
{
    let mut i: usize = 0;
    while i < n
        invariant
            i <= n <= cs@.len(),
            forall|k: int| 0 <= k < i ==> (#[trigger] hex_char_value(cs@[k])) is Some,
        decreases n - i,
    {
        if hex_value(cs[i]).is_none() {
            assert(hex_char_value(cs@.take(n as int)[i as int]) is None);
            return false;
        }
        i = i + 1;
    }
    assert forall|k: int| 0 <= k < n implies (#[trigger] hex_char_value(cs@.take(n as int)[k])) is Some by {
        assert(cs@.take(n as int)[k] == cs@[k]);
    }
    true
}

/// Resolve a PPTD color (HEX6 / HEX8 / `$theme` reference) to srgb; the
/// theme colors are walked in the given order.
pub fn resolve_color(colors: Option<&[(String, String)]>, color: &Color) -> (r: Result<ResolvedRgb, Error>)
    ensures
        match (r, resolve_spec(theme_color_views(colors), color.0@)) {
            (Ok(v), Ok((rgb, alpha))) => v.rgb@ == rgb && v.alpha == alpha,
            (Err(Error::Unsupported(m)), Err(ColorError::Unresolved)) => m@ == "unresolved theme color `"@
                + color.0@ + "`"@,
            (Err(Error::Invalid(m)), Err(ColorError::Invalid)) => m@ == "invalid color `"@ + raw_text(
                theme_color_views(colors),
                color.0@,
            ) + "`"@,
            _ => false,
        },
{
    let raw: String = match color.theme_key() {
        Some(key) => {
            let found = match colors {
                Some(cs) => lookup_color(cs, key.as_str()),
                None => None,
            };
            match found {
                Some(v) => v.clone(),
                None => {
                    let mut m = String::from_str("unresolved theme color `");
                    push_str(&mut m, color.0.as_str());
                    push_str(&mut m, "`");
                    return Err(Error::Unsupported(m));
                },
            }
        },
        None => color.0.clone(),
    };
    let cs = chars_of(raw.as_str());
    let mut k: usize = 0;
    assert(cs@.skip(0) =~= cs@);
    while k < cs.len() && cs[k] == '#'
        invariant
            k <= cs@.len(),
            cs@ == raw@,
            trim_hashes(raw@) == trim_hashes(cs@.skip(k as int)),
        decreases cs.len() - k,
    {
        assert(cs@.skip(k as int).skip(1) =~= cs@.skip(k + 1));
        k = k + 1;
    }
    let rest = suffix_chars(&cs, k);
    assert(trim_hashes(rest@) == rest@);
    let mut m = String::from_str("invalid color `");
    push_str(&mut m, raw.as_str());
    push_str(&mut m, "`");
    let n = rest.len();
    if n == 6 && hex_prefix(&rest, 6) {
        assert(rest@.take(6) =~= rest@);
        Ok(ResolvedRgb { rgb: uppercase_chars(&rest), alpha: None })
    } else if n == 8 && hex_prefix(&rest, 6) {
        let alpha = if rest[6] == '+' {
            hex_value(rest[7])
        } else {
            match (hex_value(rest[6]), hex_value(rest[7])) {
                (Some(hi), Some(lo)) => Some(hi * 16 + lo),
                _ => None,
            }
        };
        match alpha {
            Some(a) => {
                let head_chars = prefix_chars(&rest, 6);
                Ok(ResolvedRgb { rgb: uppercase_chars(&head_chars), alpha: Some(a) })
            },
            None => Err(Error::Invalid(m)),
        }
    } else {
        Err(Error::Invalid(m))
    }
}


} // verus!
