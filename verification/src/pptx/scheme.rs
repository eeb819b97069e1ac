//! Reading a package's color scheme back into deck theme colors: each
//! `clrScheme` slot that the package defines becomes the theme color of
//! the slot's semantic key, as `#` followed by the slot's RGB value.

use vstd::prelude::*;

use super::theme::{
    color_views, exact_from, fill_leftovers, lookup_color_spec, next_free, semantic_key,
    semantic_slots, slot_hex, slot_name, slots_spec, trim_hashes, is_hex, fallback_color,
};
use crate::text::{chars_of, push_str, str_eq, upper_char, upper_seq, uppercase_chars};

verus! {

/// The value of slot `name` in a scheme (its first entry of that name).
pub open spec fn scheme_value(scheme: Seq<(Seq<char>, Seq<char>)>, name: Seq<char>) -> Option<Seq<char>> {
    match exact_from(scheme, name, 0) {
        Some(k) => Some(scheme[k].1),
        None => None,
    }
}

/// The theme colors of the slots `0..n` that the scheme defines, in slot
/// order: the slot's semantic key and `#` + its value.
pub open spec fn scheme_colors_upto(scheme: Seq<(Seq<char>, Seq<char>)>, n: nat) -> Seq<(Seq<char>, Seq<char>)>
    decreases n,
{
    if n == 0 {
        Seq::empty()
    } else {
        scheme_colors_upto(scheme, (n - 1) as nat) + match scheme_value(scheme, slot_name(n - 1)) {
            Some(v) => seq![(semantic_key(n - 1), seq!['#'] + v)],
            None => Seq::empty(),
        }
    }
}

/// The theme colors of a color scheme given as (slot name, RGB) pairs.
pub open spec fn scheme_colors(scheme: Seq<(Seq<char>, Seq<char>)>) -> Seq<(Seq<char>, Seq<char>)> {
    scheme_colors_upto(scheme, 12)
}

fn slot_name_str(i: usize) -> (r: &'static str)
    requires
        i < 12,
    ensures
        r@ == slot_name(i as int),
{
    if i == 0 {
        "dk1"
    } else if i == 1 {
        "lt1"
    } else if i == 2 {
        "dk2"
    } else if i == 3 {
        "lt2"
    } else if i == 4 {
        "accent1"
    } else if i == 5 {
        "accent2"
    } else if i == 6 {
        "accent3"
    } else if i == 7 {
        "accent4"
    } else if i == 8 {
        "accent5"
    } else if i == 9 {
        "accent6"
    } else if i == 10 {
        "hlink"
    } else {
        "folHlink"
    }
}

fn semantic_key_text(i: usize) -> (r: &'static str)
    requires
        i < 12,
    ensures
        r@ == semantic_key(i as int),
{
    if i == 0 {
        "text"
    } else if i == 1 {
        "background"
    } else if i == 2 {
        "text2"
    } else if i == 3 {
        "background2"
    } else if i == 4 {
        "primary"
    } else if i == 5 {
        "secondary"
    } else if i == 6 {
        "accent"
    } else if i == 7 {
        "success"
    } else if i == 8 {
        "warning"
    } else if i == 9 {
        "danger"
    } else if i == 10 {
        "link"
    } else {
        "folHlink"
    }
}

/// The value of slot `name` in the scheme.
fn scheme_lookup<'a>(scheme: &'a [(String, String)], name: &str) -> (r: Option<&'a String>)
    ensures
        match r {
            Some(v) => scheme_value(color_views(scheme@), name@) == Some(v@),
            None => scheme_value(color_views(scheme@), name@) is None,
        },
{
    let ghost cs = color_views(scheme@);
    let mut i: usize = 0;
    while i < scheme.len()
        invariant
            i <= scheme@.len(),
            cs == color_views(scheme@),
            exact_from(cs, name@, 0) == exact_from(cs, name@, i as int),
        decreases scheme.len() - i,
    {
        assert(cs[i as int] == (scheme@[i as int].0@, scheme@[i as int].1@));
        if str_eq(scheme[i].0.as_str(), name) {
            return Some(&scheme[i].1);
        }
        i = i + 1;
    }
    None
}

/// The deck theme colors of a package's color scheme, given as
/// (slot name, RGB value) pairs: each defined slot under its semantic key
/// (`dk1` → `text`, `accent1` → `primary`, …) as `#` + its value.
pub fn theme_colors_from_scheme(scheme: &[(String, String)]) -> (r: Vec<(String, String)>)
    ensures
        color_views(r@) == scheme_colors(color_views(scheme@)),
{
    let ghost cs = color_views(scheme@);
    let mut out: Vec<(String, String)> = Vec::new();
    let mut i: usize = 0;
    assert(color_views(out@) =~= scheme_colors_upto(cs, 0));
    while i < 12
        invariant
            i <= 12,
            cs == color_views(scheme@),
            color_views(out@) == scheme_colors_upto(cs, i as nat),
        decreases 12 - i,
    {
        let ghost before = color_views(out@);
        match scheme_lookup(scheme, slot_name_str(i)) {
            Some(v) => {
                proof {
                    reveal_strlit("#");
                }
                let mut value = String::from_str("#");
                push_str(&mut value, v.as_str());
                assert(value@ =~= seq!['#'] + v@);
                let key = String::from_str(semantic_key_text(i));
                assert(key@ == semantic_key(i as int));
                out.push((key, value));
                assert(color_views(out@) =~= before.push((semantic_key(i as int), seq!['#'] + v@)));
            },
            None => {},
        }
        i = i + 1;
        assert(color_views(out@) =~= scheme_colors_upto(cs, i as nat));
    }
    out
}

/// The color scheme written for twelve slot values: each slot under its
/// name.
pub open spec fn written_scheme(slots: Seq<Seq<char>>) -> Seq<(Seq<char>, Seq<char>)> {
    Seq::new(12, |i: int| (slot_name(i), slots[i]))
}

spec fn sig_len(i: int) -> int {
    if i == 0 {
        3
    } else if i == 1 {
        3
    } else if i == 2 {
        3
    } else if i == 3 {
        3
    } else if i == 4 {
        7
    } else if i == 5 {
        7
    } else if i == 6 {
        7
    } else if i == 7 {
        7
    } else if i == 8 {
        7
    } else if i == 9 {
        7
    } else if i == 10 {
        5
    } else {
        8
    }
}

spec fn sig_first(i: int) -> char {
    if i == 0 {
        'd'
    } else if i == 1 {
        'l'
    } else if i == 2 {
        'd'
    } else if i == 3 {
        'l'
    } else if i == 4 {
        'a'
    } else if i == 5 {
        'a'
    } else if i == 6 {
        'a'
    } else if i == 7 {
        'a'
    } else if i == 8 {
        'a'
    } else if i == 9 {
        'a'
    } else if i == 10 {
        'h'
    } else {
        'f'
    }
}

spec fn sig_last(i: int) -> char {
    if i == 0 {
        '1'
    } else if i == 1 {
        '1'
    } else if i == 2 {
        '2'
    } else if i == 3 {
        '2'
    } else if i == 4 {
        '1'
    } else if i == 5 {
        '2'
    } else if i == 6 {
        '3'
    } else if i == 7 {
        '4'
    } else if i == 8 {
        '5'
    } else if i == 9 {
        '6'
    } else if i == 10 {
        'k'
    } else {
        'k'
    }
}

proof fn lemma_slot_sig(i: int)
    requires
        0 <= i < 12,
    ensures
        slot_name(i).len() == sig_len(i),
        slot_name(i)[0] == sig_first(i),
        slot_name(i)[sig_len(i) - 1] == sig_last(i),
{
    if i == 0 {
        reveal_strlit("dk1");
        assert(slot_name(0)[0] == 'd' && slot_name(0)[2] == '1');
    } else if i == 1 {
        reveal_strlit("lt1");
        assert(slot_name(1)[0] == 'l' && slot_name(1)[2] == '1');
    } else if i == 2 {
        reveal_strlit("dk2");
        assert(slot_name(2)[0] == 'd' && slot_name(2)[2] == '2');
    } else if i == 3 {
        reveal_strlit("lt2");
        assert(slot_name(3)[0] == 'l' && slot_name(3)[2] == '2');
    } else if i == 4 {
        reveal_strlit("accent1");
        assert(slot_name(4)[0] == 'a' && slot_name(4)[6] == '1');
    } else if i == 5 {
        reveal_strlit("accent2");
        assert(slot_name(5)[0] == 'a' && slot_name(5)[6] == '2');
    } else if i == 6 {
        reveal_strlit("accent3");
        assert(slot_name(6)[0] == 'a' && slot_name(6)[6] == '3');
    } else if i == 7 {
        reveal_strlit("accent4");
        assert(slot_name(7)[0] == 'a' && slot_name(7)[6] == '4');
    } else if i == 8 {
        reveal_strlit("accent5");
        assert(slot_name(8)[0] == 'a' && slot_name(8)[6] == '5');
    } else if i == 9 {
        reveal_strlit("accent6");
        assert(slot_name(9)[0] == 'a' && slot_name(9)[6] == '6');
    } else if i == 10 {
        reveal_strlit("hlink");
        assert(slot_name(10)[0] == 'h' && slot_name(10)[4] == 'k');
    } else {
        reveal_strlit("folHlink");
        assert(slot_name(11)[0] == 'f' && slot_name(11)[7] == 'k');
    }
}

proof fn lemma_slot_names_distinct(i: int, j: int)
    requires
        0 <= i < 12,
        0 <= j < 12,
        i != j,
    ensures
        slot_name(i) != slot_name(j),
{
    lemma_slot_sig(i);
    lemma_slot_sig(j);
    if slot_name(i) == slot_name(j) {
        assert(slot_name(i)[0] == slot_name(j)[0]);
        assert(slot_name(i)[sig_len(i) - 1] == slot_name(j)[sig_len(i) - 1]);
    }
}

proof fn lemma_written_value(slots: Seq<Seq<char>>, i: int)
    requires
        slots.len() == 12,
        0 <= i < 12,
    ensures
        scheme_value(written_scheme(slots), slot_name(i)) == Some(slots[i]),
{
    let w = written_scheme(slots);
    assert forall|j: int| 0 <= j < i implies w[j].0 != slot_name(i) by {
        lemma_slot_names_distinct(j, i);
    }
    lemma_exact_from_first(w, slot_name(i), 0, i);
}

proof fn lemma_exact_from_first(cs: Seq<(Seq<char>, Seq<char>)>, key: Seq<char>, from: int, i: int)
    requires
        0 <= from <= i < cs.len(),
        cs[i].0 == key,
        forall|j: int| from <= j < i ==> cs[j].0 != key,
    ensures
        exact_from(cs, key, from) == Some(i),
    decreases i - from,
{
    if from < i {
        lemma_exact_from_first(cs, key, from + 1, i);
    }
}

proof fn lemma_written_colors(slots: Seq<Seq<char>>, n: nat)
    requires
        slots.len() == 12,
        n <= 12,
    ensures
        scheme_colors_upto(written_scheme(slots), n) == Seq::new(
            n,
            |i: int| (semantic_key(i), seq!['#'] + slots[i]),
        ),
    decreases n,
{
    if n > 0 {
        lemma_written_colors(slots, (n - 1) as nat);
        lemma_written_value(slots, n - 1);
        assert(scheme_colors_upto(written_scheme(slots), n) =~= Seq::new(
            n,
            |i: int| (semantic_key(i), seq!['#'] + slots[i]),
        ));
    }
}

proof fn lemma_next_free_is_free(used: Seq<Option<Seq<char>>>, n: int)
    requires
        used.len() == 12,
        0 <= n,
    ensures
        next_free(used, n) >= n,
        next_free(used, n) < 12 ==> used[next_free(used, n)] is None,
    decreases 12 - n,
{
    if 0 <= n < 12 && used[n] is Some {
        lemma_next_free_is_free(used, n + 1);
    }
}

proof fn lemma_fill_keeps_taken(used: Seq<Option<Seq<char>>>, next: int, cs: Seq<(Seq<char>, Seq<char>)>, i: int)
    requires
        used.len() == 12,
        0 <= next,
        0 <= i < 12,
        used[i] is Some,
    ensures
        fill_leftovers(used, next, cs).len() == 12,
        fill_leftovers(used, next, cs)[i] == used[i],
    decreases cs.len(),
{
    if cs.len() > 0 && !super::theme::is_semantic_lower(cs[0].0) {
        let n = next_free(used, next);
        lemma_next_free_is_free(used, next);
        if n < 10 {
            lemma_fill_keeps_taken(used.update(n, Some(cs[0].1)), n + 1, cs.skip(1), i);
        }
    } else if cs.len() > 0 {
        lemma_fill_keeps_taken(used, next, cs.skip(1), i);
    }
}

/// A deck's theme colors survive a build followed by a convert: a color
/// under a semantic key (`primary`, `text`, …), written as `#RRGGBB` or
/// `#RRGGBBAA` in hex digits, comes back under the same key as `#` and its
/// six RGB digits upper-cased; every semantic key comes back, in slot
/// order, with the value its slot was written with.
pub proof fn lemma_theme_colors_survive(colors: Seq<(String, String)>, i: int)
    requires
        0 <= i < 12,
    ensures
        scheme_colors(written_scheme(slots_spec(color_views(colors)))).len() == 12,
        scheme_colors(written_scheme(slots_spec(color_views(colors))))[i] == (
            semantic_key(i),
            seq!['#'] + slots_spec(color_views(colors))[i],
        ),
        lookup_color_spec(color_views(colors), semantic_key(i)) matches Some(v) ==> {
            let t = trim_hashes(v);
            (t.len() == 6 || t.len() == 8) && (forall|k: int| 0 <= k < t.len() ==> is_hex(#[trigger] t[k]))
                ==> scheme_colors(written_scheme(slots_spec(color_views(colors))))[i] == (
                semantic_key(i),
                seq!['#'] + upper_seq(t.take(6)),
            )
        },
{
    let cs = color_views(colors);
    let slots = slots_spec(cs);
    lemma_written_colors(slots, 12);
    let sem = semantic_slots(cs);
    if let Some(v) = lookup_color_spec(cs, semantic_key(i)) {
        assert(sem[i] == Some(v));
        lemma_fill_keeps_taken(sem, 4, cs, i);
        assert(slots[i] == slot_hex(v, i));
    }
}

// ---------------------------------------------------------------------------
// The slot map of an imported scheme
// ---------------------------------------------------------------------------

/// A slot put into the slot map: a slot already there takes the new value
/// in its place; a new slot is added at the end.
pub open spec fn put_slot(ps: Seq<(Seq<char>, Seq<char>)>, k: Seq<char>, v: Seq<char>) -> Seq<(Seq<char>, Seq<char>)> {
    match exact_from(ps, k, 0) {
        Some(j) => ps.update(j, (k, v)),
        None => ps.push((k, v)),
    }
}

/// The slot map of a scheme's first `n` children (slot name and RGB
/// value, when the child has one), values upper-cased.
pub open spec fn read_slots_upto(children: Seq<(Seq<char>, Option<Seq<char>>)>, n: nat) -> Seq<(Seq<char>, Seq<char>)>
    decreases n,
{
    if n == 0 {
        Seq::empty()
    } else {
        let prev = read_slots_upto(children, (n - 1) as nat);
        match children[n - 1].1 {
            Some(v) => put_slot(prev, children[n - 1].0, upper_seq(v)),
            None => prev,
        }
    }
}

/// The slot map of a scheme: its children's colors, and, when `lt1`,
/// `dk1`, `lt2` and `dk2` are all defined, their aliases `bg1`, `tx1`,
/// `bg2` and `tx2`.
pub open spec fn slot_map_spec(children: Seq<(Seq<char>, Option<Seq<char>>)>) -> Seq<(Seq<char>, Seq<char>)> {
    let m = read_slots_upto(children, children.len());
    match (scheme_value(m, "lt1"@), scheme_value(m, "dk1"@), scheme_value(m, "lt2"@), scheme_value(m, "dk2"@)) {
        (Some(a), Some(b), Some(c), Some(d)) => put_slot(
            put_slot(put_slot(put_slot(m, "bg1"@, a), "tx1"@, b), "bg2"@, c),
            "tx2"@,
            d,
        ),
        _ => m,
    }
}

pub open spec fn child_views(children: Seq<(String, Option<String>)>) -> Seq<(Seq<char>, Option<Seq<char>>)> {
    children.map_values(
        |c: (String, Option<String>)|
            (
                c.0@,
                match c.1 {
                    Some(v) => Some(v@),
                    None => None,
                },
            ),
    )
}

fn put_slot_exec(ps: &mut Vec<(String, String)>, k: String, v: String)
    ensures
        color_views(final(ps)@) == put_slot(color_views(old(ps)@), k@, v@),
{
    let ghost before = color_views(ps@);
    let found = scheme_position(ps, k.as_str());
    match found {
        Some(j) => {
            let ghost kv = (k@, v@);
            ps.set(j, (k, v));
            assert(color_views(ps@) =~= before.update(j as int, kv));
        },
        None => {
            let ghost kv = (k@, v@);
            ps.push((k, v));
            assert(color_views(ps@) =~= before.push(kv));
        },
    }
}

/// The position of slot `name` in the map.
fn scheme_position(scheme: &Vec<(String, String)>, name: &str) -> (r: Option<usize>)
    ensures
        match r {
            Some(j) => exact_from(color_views(scheme@), name@, 0) == Some(j as int) && j < scheme.len(),
            None => exact_from(color_views(scheme@), name@, 0) is None,
        },
{
    let ghost cs = color_views(scheme@);
    let mut i: usize = 0;
    while i < scheme.len()
        invariant
            i <= scheme@.len(),
            cs == color_views(scheme@),
            exact_from(cs, name@, 0) == exact_from(cs, name@, i as int),
        decreases scheme.len() - i,
    {
        assert(cs[i as int] == (scheme@[i as int].0@, scheme@[i as int].1@));
        if str_eq(scheme[i].0.as_str(), name) {
            return Some(i);
        }
        i = i + 1;
    }
    None
}

/// The slot map of a package's color scheme, from its children: each
/// child's element name with its RGB value (the `val` of its `srgbClr`,
/// else the `lastClr` of its `sysClr`), when it has one.
pub fn scheme_slot_colors(children: &Vec<(String, Option<String>)>) -> (r: Vec<(String, String)>)
    ensures
        color_views(r@) == slot_map_spec(child_views(children@)),
{
    let ghost cv = child_views(children@);
    let mut m: Vec<(String, String)> = Vec::new();
    let mut i: usize = 0;
    assert(color_views(m@) =~= read_slots_upto(cv, 0));
    while i < children.len()
        invariant
            i <= children.len(),
            cv == child_views(children@),
            color_views(m@) == read_slots_upto(cv, i as nat),
        decreases children.len() - i,
    {
        assert(cv[i as int] == (children@[i as int].0@, match children@[i as int].1 {
            Some(v) => Some(v@),
            None => None,
        }));
        match &children[i].1 {
            Some(v) => {
                let upper = uppercase_chars(&chars_of(v.as_str()));
                put_slot_exec(&mut m, children[i].0.clone(), upper);
            },
            None => {},
        }
        i = i + 1;
    }
    let lt1 = scheme_lookup(m.as_slice(), "lt1");
    let dk1 = scheme_lookup(m.as_slice(), "dk1");
    let lt2 = scheme_lookup(m.as_slice(), "lt2");
    let dk2 = scheme_lookup(m.as_slice(), "dk2");
    match (lt1, dk1, lt2, dk2) {
        (Some(a), Some(b), Some(c), Some(d)) => {
            let (a, b, c, d) = (a.clone(), b.clone(), c.clone(), d.clone());
            put_slot_exec(&mut m, String::from_str("bg1"), a);
            put_slot_exec(&mut m, String::from_str("tx1"), b);
            put_slot_exec(&mut m, String::from_str("bg2"), c);
            put_slot_exec(&mut m, String::from_str("tx2"), d);
        },
        _ => {},
    }
    m
}

/// The scheme children written for twelve slot values.
pub open spec fn written_children(slots: Seq<Seq<char>>) -> Seq<(Seq<char>, Option<Seq<char>>)> {
    Seq::new(12, |i: int| (slot_name(i), Some(slots[i])))
}

proof fn lemma_upper_idempotent(s: Seq<char>)
    ensures
        upper_seq(upper_seq(s)) == upper_seq(s),
{
    assert forall|k: int| 0 <= k < s.len() implies upper_char(upper_char(s[k])) == upper_char(s[k]) by {
        let c = s[k];
        if 'a' <= c && c <= 'z' {
            assert((c as u32) - 32 < 'a' as u32);
        }
    }
    assert(upper_seq(upper_seq(s)) =~= upper_seq(s));
}

proof fn lemma_upper_fixed(s: Seq<char>)
    requires
        forall|k: int| 0 <= k < s.len() ==> !('a' <= #[trigger] s[k] && s[k] <= 'z'),
    ensures
        upper_seq(s) == s,
{
    assert(upper_seq(s) =~= s);
}

proof fn lemma_fallback_upper(i: int)
    requires
        0 <= i < 12,
    ensures
        upper_seq(fallback_color(i)) == fallback_color(i),
{
    let f = fallback_color(i);
    if i == 0 {
        reveal_strlit("FFFFFF");
    } else if i == 1 {
        reveal_strlit("000000");
    } else if i == 2 {
        reveal_strlit("1F497D");
    } else if i == 3 {
        reveal_strlit("EEECE1");
    } else if i == 4 {
        reveal_strlit("4F81BD");
    } else if i == 5 {
        reveal_strlit("C0504D");
    } else if i == 6 {
        reveal_strlit("9BBB59");
    } else if i == 7 {
        reveal_strlit("8064A2");
    } else if i == 8 {
        reveal_strlit("4BACC6");
    } else if i == 9 {
        reveal_strlit("F79646");
    } else if i == 10 {
        reveal_strlit("0000FF");
    } else {
        reveal_strlit("800080");
    }
    assert forall|k: int| 0 <= k < f.len() implies !('a' <= #[trigger] f[k] && f[k] <= 'z') by {
        assert(f.len() == 6);
        assert(k == 0 || k == 1 || k == 2 || k == 3 || k == 4 || k == 5);
    }
    lemma_upper_fixed(f);
}

/// Every slot value written for a deck is upper case already.
proof fn lemma_slots_upper(cs: Seq<(Seq<char>, Seq<char>)>, i: int)
    requires
        0 <= i < 12,
    ensures
        upper_seq(slots_spec(cs)[i]) == slots_spec(cs)[i],
{
    let used = fill_leftovers(semantic_slots(cs), 4, cs);
    lemma_fallback_upper(i);
    match used[i] {
        Some(v) => {
            let t = trim_hashes(v);
            if (t.len() == 6 || t.len() == 8) && (forall|k: int| 0 <= k < t.len() ==> is_hex(#[trigger] t[k])) {
                lemma_upper_idempotent(t.take(6));
            }
        },
        None => {},
    }
}

proof fn lemma_exact_from_none(cs: Seq<(Seq<char>, Seq<char>)>, key: Seq<char>, from: int)
    requires
        0 <= from,
        forall|j: int| from <= j < cs.len() ==> cs[j].0 != key,
    ensures
        exact_from(cs, key, from) is None,
    decreases cs.len() - from,
{
    if from < cs.len() {
        lemma_exact_from_none(cs, key, from + 1);
    }
}

proof fn lemma_read_written(slots: Seq<Seq<char>>, n: nat)
    requires
        slots.len() == 12,
        n <= 12,
        forall|i: int| 0 <= i < 12 ==> upper_seq(#[trigger] slots[i]) == slots[i],
    ensures
        read_slots_upto(written_children(slots), n) == written_scheme(slots).take(n as int),
    decreases n,
{
    let wc = written_children(slots);
    let w = written_scheme(slots);
    if n == 0 {
        assert(w.take(0) =~= Seq::<(Seq<char>, Seq<char>)>::empty());
    } else {
        lemma_read_written(slots, (n - 1) as nat);
        let prev = w.take(n - 1);
        assert forall|j: int| 0 <= j < prev.len() implies prev[j].0 != slot_name(n - 1) by {
            lemma_slot_names_distinct(j, n - 1);
        }
        lemma_exact_from_none(prev, slot_name(n - 1), 0);
        assert(wc[n - 1] == (slot_name(n - 1), Some(slots[n - 1])));
        assert(prev.push((slot_name(n - 1), upper_seq(slots[n - 1]))) =~= w.take(n as int));
    }
}

proof fn lemma_alias_names()
    ensures
        forall|j: int| 0 <= j < 12 ==> slot_name(j) != "bg1"@ && slot_name(j) != "tx1"@ && slot_name(j) != "bg2"@
            && slot_name(j) != "tx2"@,
        "bg1"@ != "tx1"@,
        "bg1"@ != "bg2"@,
        "bg1"@ != "tx2"@,
        "tx1"@ != "bg2"@,
        "tx1"@ != "tx2"@,
        "bg2"@ != "tx2"@,
{
    reveal_strlit("bg1");
    reveal_strlit("tx1");
    reveal_strlit("bg2");
    reveal_strlit("tx2");
    assert forall|j: int| 0 <= j < 12 implies slot_name(j) != "bg1"@ && slot_name(j) != "tx1"@ && slot_name(j)
        != "bg2"@ && slot_name(j) != "tx2"@ by {
        lemma_slot_sig(j);
        assert(sig_first(j) != 'b' && sig_first(j) != 't');
    }
    assert("bg1"@[0] != "tx1"@[0]);
    assert("bg1"@[2] != "bg2"@[2]);
    assert("bg1"@[0] != "tx2"@[0]);
    assert("tx1"@[0] != "bg2"@[0]);
    assert("tx1"@[2] != "tx2"@[2]);
    assert("bg2"@[0] != "tx2"@[0]);
}

/// Appending slots under names no earlier entry has.
proof fn lemma_put_new(ps: Seq<(Seq<char>, Seq<char>)>, k: Seq<char>, v: Seq<char>)
    requires
        forall|j: int| 0 <= j < ps.len() ==> ps[j].0 != k,
    ensures
        put_slot(ps, k, v) == ps.push((k, v)),
{
    lemma_exact_from_none(ps, k, 0);
}

proof fn lemma_colors_agree(a: Seq<(Seq<char>, Seq<char>)>, b: Seq<(Seq<char>, Seq<char>)>, n: nat)
    requires
        n <= 12,
        forall|i: int| 0 <= i < 12 ==> scheme_value(a, #[trigger] slot_name(i)) == scheme_value(b, slot_name(i)),
    ensures
        scheme_colors_upto(a, n) == scheme_colors_upto(b, n),
    decreases n,
{
    if n > 0 {
        lemma_colors_agree(a, b, (n - 1) as nat);
        assert(scheme_value(a, slot_name(n - 1)) == scheme_value(b, slot_name(n - 1)));
    }
}

/// Reading a written scheme back through the slot map gives the theme
/// colors the written scheme holds.
proof fn lemma_slot_map_of_written(slots: Seq<Seq<char>>)
    requires
        slots.len() == 12,
        forall|i: int| 0 <= i < 12 ==> upper_seq(#[trigger] slots[i]) == slots[i],
    ensures
        scheme_colors(slot_map_spec(written_children(slots))) == scheme_colors(written_scheme(slots)),
{
    let wc = written_children(slots);
    let w = written_scheme(slots);
    lemma_read_written(slots, 12);
    assert(w.take(12) =~= w);
    assert(wc.len() == 12);
    let m = read_slots_upto(wc, 12);
    assert(m == w);
    lemma_written_value(slots, 0);
    lemma_written_value(slots, 1);
    lemma_written_value(slots, 2);
    lemma_written_value(slots, 3);
    assert(slot_name(0) == "dk1"@ && slot_name(1) == "lt1"@ && slot_name(2) == "dk2"@ && slot_name(3) == "lt2"@);
    lemma_alias_names();
    let m1 = m.push(("bg1"@, slots[1]));
    let m2 = m1.push(("tx1"@, slots[0]));
    let m3 = m2.push(("bg2"@, slots[3]));
    let m4 = m3.push(("tx2"@, slots[2]));
    lemma_put_new(m, "bg1"@, slots[1]);
    assert forall|j: int| 0 <= j < m1.len() implies m1[j].0 != "tx1"@ by {
        if j < 12 {
            assert(m1[j].0 == slot_name(j));
        }
    }
    lemma_put_new(m1, "tx1"@, slots[0]);
    assert forall|j: int| 0 <= j < m2.len() implies m2[j].0 != "bg2"@ by {
        if j < 12 {
            assert(m2[j].0 == slot_name(j));
        }
    }
    lemma_put_new(m2, "bg2"@, slots[3]);
    assert forall|j: int| 0 <= j < m3.len() implies m3[j].0 != "tx2"@ by {
        if j < 12 {
            assert(m3[j].0 == slot_name(j));
        }
    }
    lemma_put_new(m3, "tx2"@, slots[2]);
    assert(slot_map_spec(wc) == m4);
    assert forall|i: int| 0 <= i < 12 implies scheme_value(m4, #[trigger] slot_name(i)) == scheme_value(
        w,
        slot_name(i),
    ) by {
        lemma_written_value(slots, i);
        assert forall|j: int| 0 <= j < i implies m4[j].0 != slot_name(i) by {
            lemma_slot_names_distinct(j, i);
        }
        assert(m4[i] == w[i]);
        lemma_exact_from_first(m4, slot_name(i), 0, i);
    }
    lemma_colors_agree(m4, w, 12);
}

/// A deck's theme colors survive a build followed by a convert, read back
/// through the slot map the importer builds from the written color
/// scheme (values upper-cased, `bg1`/`tx1`/`bg2`/`tx2` aliases added):
/// every semantic key comes back, in slot order, with the value its slot
/// was written with, and a color written as `#RRGGBB` or `#RRGGBBAA` in
/// hex digits comes back as `#` and its six RGB digits upper-cased.
pub proof fn lemma_theme_colors_survive_import(colors: Seq<(String, String)>, i: int)
    requires
        0 <= i < 12,
    ensures
        ({
            let back = scheme_colors(slot_map_spec(written_children(slots_spec(color_views(colors)))));
            &&& back.len() == 12
            &&& back[i] == (semantic_key(i), seq!['#'] + slots_spec(color_views(colors))[i])
            &&& lookup_color_spec(color_views(colors), semantic_key(i)) matches Some(v) ==> {
                let t = trim_hashes(v);
                (t.len() == 6 || t.len() == 8) && (forall|k: int| 0 <= k < t.len() ==> is_hex(#[trigger] t[k]))
                    ==> back[i] == (semantic_key(i), seq!['#'] + upper_seq(t.take(6)))
            }
        }),
{
    let slots = slots_spec(color_views(colors));
    assert forall|j: int| 0 <= j < 12 implies upper_seq(#[trigger] slots[j]) == slots[j] by {
        lemma_slots_upper(color_views(colors), j);
    }
    lemma_slot_map_of_written(slots);
    lemma_theme_colors_survive(colors, i);
}

} // verus!
