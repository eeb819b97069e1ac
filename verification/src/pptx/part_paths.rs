//! Where the parts of a written package sit, which layout each slide
//! hangs off, and the fact that ties writer and reader together: every
//! relationship the writer emits resolves, by the importer's own path
//! resolution, to a part of the package.

use vstd::prelude::*;

use super::import::{join_slash, normalize_segments, part_dir, resolve_target_spec, step_segment, target_joined};
use super::media::{is_image_extension, media_path};
use super::rel_kind;
use super::writer::{
    lemma_presentation_slide_rels, lemma_presentation_slide_rels_len, master_layout_rels, master_rels_spec, media_rels, numbered,
    part_rels_spec, presentation_rels_spec, rel_target_spec, rid, root_rels_spec,
};
use crate::text::{decimal, digit_char, last_index, lemma_split_nonempty, push_str, split_on, str_eq, usize_to_string};

verus! {

// ---------------------------------------------------------------------------
// Path segments
// ---------------------------------------------------------------------------

/// A segment that path resolution keeps as it is: not empty, without `/`,
/// and neither `.` nor `..`.
pub open spec fn plain_segment(s: Seq<char>) -> bool {
    &&& s.len() > 0
    &&& !s.contains('/')
    &&& s != seq!['.']
    &&& s != seq!['.', '.']
}

pub open spec fn plain_segments(ss: Seq<Seq<char>>) -> bool {
    forall|i: int| 0 <= i < ss.len() ==> plain_segment(#[trigger] ss[i])
}

/// The segments applied one after the other to a resolved stack.
pub open spec fn fold_steps(stack: Seq<Seq<char>>, segs: Seq<Seq<char>>) -> Seq<Seq<char>>
    decreases segs.len(),
{
    if segs.len() == 0 {
        stack
    } else {
        step_segment(fold_steps(stack, segs.drop_last()), segs.last())
    }
}

proof fn lemma_split_no_sep(b: Seq<char>, sep: char)
    requires
        !b.contains(sep),
    ensures
        split_on(b, sep) == seq![b],
    decreases b.len(),
{
    if b.len() > 0 {
        assert(!b.drop_last().contains(sep)) by {
            if b.drop_last().contains(sep) {
                let k = choose|k: int| 0 <= k < b.drop_last().len() && b.drop_last()[k] == sep;
                assert(b[k] == sep);
            }
        }
        lemma_split_no_sep(b.drop_last(), sep);
        assert(b.last() != sep) by {
            assert(b[b.len() - 1] == b.last());
        }
        assert(b.drop_last().push(b.last()) =~= b);
        assert(seq![b.drop_last()].update(0, b.drop_last().push(b.last())) =~= seq![b]);
    } else {
        assert(b =~= Seq::<char>::empty());
    }
}

/// Splitting at a separator inserted between two texts splits each side.
proof fn lemma_split_concat(a: Seq<char>, b: Seq<char>, sep: char)
    ensures
        split_on(a + seq![sep] + b, sep) == split_on(a, sep) + split_on(b, sep),
    decreases b.len(),
{
    let s = a + seq![sep] + b;
    if b.len() == 0 {
        assert(s =~= (a + seq![sep]));
        assert((a + seq![sep]).drop_last() =~= a);
        assert(split_on(b, sep) =~= seq![Seq::<char>::empty()]);
        assert(split_on(a, sep).push(Seq::empty()) =~= split_on(a, sep) + seq![Seq::<char>::empty()]);
    } else {
        let b0 = b.drop_last();
        lemma_split_concat(a, b0, sep);
        assert(s.drop_last() =~= a + seq![sep] + b0);
        assert(s.last() == b.last());
        let prev = split_on(a + seq![sep] + b0, sep);
        let sa = split_on(a, sep);
        let sb0 = split_on(b0, sep);
        lemma_split_nonempty(b0, sep);
        if b.last() == sep {
            assert(prev.push(Seq::empty()) =~= sa + sb0.push(Seq::empty()));
        } else {
            assert(prev.update(prev.len() - 1, prev.last().push(b.last())) =~= sa + sb0.update(
                sb0.len() - 1,
                sb0.last().push(b.last()),
            ));
        }
    }
}

/// A path joined from segments without `/` splits back into them.
proof fn lemma_split_join(segs: Seq<Seq<char>>)
    requires
        segs.len() >= 1,
        forall|i: int| 0 <= i < segs.len() ==> !(#[trigger] segs[i]).contains('/'),
    ensures
        split_on(join_slash(segs), '/') == segs,
    decreases segs.len(),
{
    if segs.len() == 1 {
        lemma_split_no_sep(segs[0], '/');
        assert(seq![segs[0]] =~= segs);
    } else {
        let init = segs.drop_last();
        lemma_split_join(init);
        lemma_split_concat(join_slash(init), segs.last(), '/');
        lemma_split_no_sep(segs.last(), '/');
        assert(join_slash(segs) == join_slash(init) + seq!['/'] + segs.last());
        assert(init + seq![segs.last()] =~= segs);
    }
}

proof fn lemma_fold_concat(stack: Seq<Seq<char>>, a: Seq<Seq<char>>, b: Seq<Seq<char>>)
    ensures
        fold_steps(stack, a + b) == fold_steps(fold_steps(stack, a), b),
    decreases b.len(),
{
    if b.len() == 0 {
        assert(a + b =~= a);
    } else {
        lemma_fold_concat(stack, a, b.drop_last());
        assert((a + b).drop_last() =~= a + b.drop_last());
        assert((a + b).last() == b.last());
    }
}

proof fn lemma_normalize_is_fold(segs: Seq<Seq<char>>)
    ensures
        normalize_segments(segs) == fold_steps(Seq::empty(), segs),
    decreases segs.len(),
{
    if segs.len() > 0 {
        lemma_normalize_is_fold(segs.drop_last());
    }
}

proof fn lemma_fold_plain(stack: Seq<Seq<char>>, segs: Seq<Seq<char>>)
    requires
        plain_segments(segs),
    ensures
        fold_steps(stack, segs) == stack + segs,
    decreases segs.len(),
{
    if segs.len() == 0 {
        assert(stack + segs =~= stack);
    } else {
        let init = segs.drop_last();
        assert(plain_segments(init)) by {
            assert forall|i: int| 0 <= i < init.len() implies plain_segment(#[trigger] init[i]) by {
                assert(init[i] == segs[i]);
            }
        }
        lemma_fold_plain(stack, init);
        assert(plain_segment(segs[segs.len() - 1]));
        assert(segs.last() != seq!['.']);
        assert(segs.last() != seq!['.', '.']);
        assert((stack + init).push(segs.last()) =~= stack + segs);
    }
}

/// The last `/` of `a/b` is the one before `b` when `b` has none.
proof fn lemma_last_slash(a: Seq<char>, b: Seq<char>)
    requires
        !b.contains('/'),
    ensures
        last_index(a + seq!['/'] + b, '/') == Some(a.len() as int),
    decreases b.len(),
{
    let s = a + seq!['/'] + b;
    if b.len() == 0 {
        assert(s.last() == '/');
        assert(s.len() - 1 == a.len());
    } else {
        assert(b.last() != '/') by {
            assert(b[b.len() - 1] == b.last());
        }
        assert(!b.drop_last().contains('/')) by {
            if b.drop_last().contains('/') {
                let k = choose|k: int| 0 <= k < b.drop_last().len() && b.drop_last()[k] == '/';
                assert(b[k] == '/');
            }
        }
        lemma_last_slash(a, b.drop_last());
        assert(s.drop_last() =~= a + seq!['/'] + b.drop_last());
    }
}

/// The directory of `dir/name` is `dir` when the name has no `/`.
proof fn lemma_part_dir(segs: Seq<Seq<char>>, name: Seq<char>)
    requires
        segs.len() >= 1,
        !name.contains('/'),
    ensures
        part_dir(join_slash(segs.push(name))) == join_slash(segs),
{
    let full = segs.push(name);
    assert(full.drop_last() =~= segs);
    assert(join_slash(full) == join_slash(segs) + seq!['/'] + name);
    lemma_last_slash(join_slash(segs), name);
    assert((join_slash(segs) + seq!['/'] + name).take(join_slash(segs).len() as int) =~= join_slash(segs));
}

/// Joined segments start with the first segment's first character.
proof fn lemma_join_first(segs: Seq<Seq<char>>)
    requires
        segs.len() >= 1,
        segs[0].len() > 0,
    ensures
        join_slash(segs).len() > 0,
        join_slash(segs)[0] == segs[0][0],
    decreases segs.len(),
{
    if segs.len() > 1 {
        lemma_join_first(segs.drop_last());
    }
}

/// A target made of segments that do not start with `/` is joined to the
/// directory of its part.
proof fn lemma_relative_target(part: Seq<char>, segs: Seq<Seq<char>>)
    requires
        segs.len() >= 1,
        segs[0].len() > 0,
        segs[0][0] != '/',
    ensures
        target_joined(part, join_slash(segs)) == part_dir(part) + seq!['/'] + join_slash(segs),
{
    lemma_join_first(segs);
}

/// Resolving a downward target against a part in directory `dir`.
proof fn lemma_resolve_down(dir: Seq<Seq<char>>, name: Seq<char>, target: Seq<Seq<char>>)
    requires
        dir.len() >= 1,
        plain_segments(dir),
        !name.contains('/'),
        target.len() >= 1,
        plain_segments(target),
    ensures
        resolve_target_spec(join_slash(dir.push(name)), join_slash(target)) == join_slash(dir + target),
{
    assert(plain_segment(target[0]));
    assert(target[0][0] != '/') by {
        if target[0][0] == '/' {
            assert(target[0].contains('/'));
        }
    }
    lemma_relative_target(join_slash(dir.push(name)), target);
    lemma_part_dir(dir, name);
    lemma_split_concat(join_slash(dir), join_slash(target), '/');
    lemma_split_join(dir);
    lemma_split_join(target);
    lemma_normalize_is_fold(dir + target);
    assert forall|i: int| 0 <= i < (dir + target).len() implies plain_segment(#[trigger] (dir + target)[i]) by {
        if i < dir.len() {
            assert((dir + target)[i] == dir[i]);
        } else {
            assert((dir + target)[i] == target[i - dir.len()]);
        }
    }
    lemma_fold_plain(Seq::empty(), dir + target);
    assert(Seq::<Seq<char>>::empty() + (dir + target) =~= dir + target);
}

/// Resolving `../target` against a part in directory `dir`.
proof fn lemma_resolve_up(dir: Seq<Seq<char>>, name: Seq<char>, target: Seq<Seq<char>>)
    requires
        dir.len() >= 1,
        plain_segments(dir),
        !name.contains('/'),
        target.len() >= 1,
        plain_segments(target),
    ensures
        resolve_target_spec(join_slash(dir.push(name)), join_slash(seq![seq!['.', '.']] + target))
            == join_slash(dir.drop_last() + target),
{
    let up = seq![seq!['.', '.']] + target;
    assert(up[0] == seq!['.', '.']);
    lemma_relative_target(join_slash(dir.push(name)), up);
    lemma_part_dir(dir, name);
    lemma_split_concat(join_slash(dir), join_slash(up), '/');
    lemma_split_join(dir);
    assert forall|i: int| 0 <= i < up.len() implies !(#[trigger] up[i]).contains('/') by {
        if i == 0 {
            assert(up[0] == seq!['.', '.']);
            assert(!seq!['.', '.'].contains('/')) by {
                if seq!['.', '.'].contains('/') {
                    let k = choose|k: int| 0 <= k < 2 && seq!['.', '.'][k] == '/';
                }
            }
        } else {
            assert(up[i] == target[i - 1]);
        }
    }
    lemma_split_join(up);
    lemma_normalize_is_fold(dir + up);
    lemma_fold_plain(Seq::empty(), dir);
    assert(dir + up =~= (dir + seq![seq!['.', '.']]) + target);
    lemma_fold_concat(Seq::empty(), dir + seq![seq!['.', '.']], target);
    lemma_fold_concat(Seq::empty(), dir, seq![seq!['.', '.']]);
    assert(Seq::<Seq<char>>::empty() + dir =~= dir);
    assert(seq![seq!['.', '.']].drop_last() =~= Seq::<Seq<char>>::empty());
    let dd = seq![seq!['.', '.']];
    assert(dd.last() == seq!['.', '.']);
    assert(seq!['.', '.'].len() == 2);
    assert(seq!['.', '.'] != seq!['.']) by {
        assert(seq!['.', '.'].len() != seq!['.'].len());
    }
    assert(fold_steps(dir, dd.drop_last()) == dir);
    assert(fold_steps(dir, dd) == dir.drop_last());
    lemma_fold_plain(dir.drop_last(), target);
}

/// Resolving a target against the package root (the source of
/// `_rels/.rels`).
proof fn lemma_resolve_root(target: Seq<Seq<char>>)
    requires
        target.len() >= 1,
        plain_segments(target),
    ensures
        resolve_target_spec(Seq::empty(), join_slash(target)) == join_slash(target),
{
    assert(plain_segment(target[0]));
    assert(target[0][0] != '/') by {
        if target[0][0] == '/' {
            assert(target[0].contains('/'));
        }
    }
    lemma_relative_target(Seq::empty(), target);
    assert(last_index(Seq::<char>::empty(), '/') is None);
    assert(part_dir(Seq::empty()) =~= Seq::<char>::empty());
    lemma_split_concat(Seq::empty(), join_slash(target), '/');
    assert(Seq::<char>::empty() + seq!['/'] + join_slash(target) =~= seq!['/'] + join_slash(target));
    lemma_split_join(target);
    let empty_seg: Seq<char> = Seq::empty();
    assert(split_on(Seq::<char>::empty(), '/') == seq![empty_seg]);
    lemma_normalize_is_fold(seq![empty_seg] + target);
    lemma_fold_concat(Seq::empty(), seq![empty_seg], target);
    assert(seq![empty_seg].drop_last() =~= Seq::<Seq<char>>::empty());
    assert(seq![empty_seg].last() == empty_seg);
    assert(fold_steps(Seq::empty(), seq![empty_seg].drop_last()) == Seq::<Seq<char>>::empty());
    assert(fold_steps(Seq::empty(), seq![empty_seg]) == Seq::<Seq<char>>::empty());
    lemma_fold_plain(Seq::empty(), target);
    assert(Seq::<Seq<char>>::empty() + target =~= target);
}

// ---------------------------------------------------------------------------
// Segment facts for the names the writer uses
// ---------------------------------------------------------------------------

proof fn lemma_decimal_digits(n: nat)
    ensures
        decimal(n).len() >= 1,
        forall|k: int| 0 <= k < decimal(n).len() ==> '0' <= #[trigger] decimal(n)[k] <= '9',
    decreases n,
{
    if n >= 10 {
        lemma_decimal_digits(n / 10);
        let d = decimal(n / 10);
        assert forall|k: int| 0 <= k < decimal(n).len() implies '0' <= #[trigger] decimal(n)[k] <= '9' by {
            if k < d.len() {
                assert(decimal(n)[k] == d[k]);
            } else {
                assert(decimal(n)[k] == digit_char(n % 10));
            }
        }
    }
}

/// `prefix{n}suffix` has no `/` when neither piece has one.
proof fn lemma_numbered_no_slash(prefix: Seq<char>, n: nat, suffix: Seq<char>)
    requires
        !prefix.contains('/'),
        !suffix.contains('/'),
    ensures
        !numbered(prefix, n, suffix).contains('/'),
        numbered(prefix, n, suffix).len() >= prefix.len() + 1 + suffix.len(),
{
    lemma_decimal_digits(n);
    let s = numbered(prefix, n, suffix);
    let d = decimal(n);
    if s.contains('/') {
        let k = choose|k: int| 0 <= k < s.len() && s[k] == '/';
        if k < prefix.len() {
            assert(s[k] == prefix[k]);
            assert(prefix.contains('/'));
        } else if k < prefix.len() + d.len() {
            assert(s[k] == d[k - prefix.len()]);
        } else {
            assert(s[k] == suffix[k - prefix.len() - d.len()]);
            assert(suffix.contains('/'));
        }
    }
}

/// `prefix{n}suffix` is a plain segment when the pieces have no `/` and
/// the whole is longer than two characters.
proof fn lemma_numbered_plain(prefix: Seq<char>, n: nat, suffix: Seq<char>)
    requires
        !prefix.contains('/'),
        !suffix.contains('/'),
        prefix.len() + suffix.len() >= 2,
    ensures
        plain_segment(numbered(prefix, n, suffix)),
{
    lemma_numbered_no_slash(prefix, n, suffix);
    let s = numbered(prefix, n, suffix);
    assert(s != seq!['.']) by {
        assert(s.len() != 1);
    }
    assert(s != seq!['.', '.']) by {
        assert(s.len() != 2);
    }
}

// ---------------------------------------------------------------------------
// The parts of a package
// ---------------------------------------------------------------------------

/// How many layout parts a deck declaring `layouts` layouts is written
/// with: one per declared layout, or a single blank layout.
pub open spec fn layout_parts(layouts: nat) -> nat {
    if layouts == 0 {
        1
    } else {
        layouts
    }
}

/// The `i`-th slide part (one-based).
pub open spec fn slide_part(i: nat) -> Seq<char> {
    numbered("ppt/slides/slide"@, i, ".xml"@)
}

/// The `j`-th layout part (one-based).
pub open spec fn layout_part(j: nat) -> Seq<char> {
    numbered("ppt/slideLayouts/slideLayout"@, j, ".xml"@)
}

pub open spec fn master_part() -> Seq<char> {
    "ppt/slideMasters/slideMaster1.xml"@
}

pub open spec fn theme_part() -> Seq<char> {
    "ppt/theme/theme1.xml"@
}

pub open spec fn presentation_part() -> Seq<char> {
    "ppt/presentation.xml"@
}

pub open spec fn core_part() -> Seq<char> {
    "docProps/core.xml"@
}

/// The parts every package holds whatever its pages.
pub open spec fn fixed_part(p: Seq<char>) -> bool {
    p == core_part() || p == presentation_part() || p == theme_part() || p == master_part()
}

/// A part of the package written for `pages` pages and `layouts`
/// declared layouts (media parts aside).
pub open spec fn package_part(p: Seq<char>, pages: nat, layouts: nat) -> bool {
    ||| fixed_part(p)
    ||| exists|i: nat| 1 <= i <= pages && p == #[trigger] slide_part(i)
    ||| exists|j: nat| 1 <= j <= layout_parts(layouts) && p == #[trigger] layout_part(j)
}

/// A media part as the media registry names them:
/// `ppt/media/image{n}.{png|jpg|jpeg}`.
pub open spec fn media_part(p: Seq<char>) -> bool {
    exists|n: int, ext: Seq<char>| 0 <= n && is_image_extension(ext) && p == #[trigger] media_path(n, ext)
}

/// The path of the `i`-th slide part.
pub fn slide_part_path(i: usize) -> (r: String)
    ensures
        r@ == slide_part(i as nat),
{
    let mut r = String::from_str("ppt/slides/slide");
    let d = usize_to_string(i);
    push_str(&mut r, d.as_str());
    push_str(&mut r, ".xml");
    r
}

/// The path of the `j`-th layout part.
pub fn layout_part_path(j: usize) -> (r: String)
    ensures
        r@ == layout_part(j as nat),
{
    let mut r = String::from_str("ppt/slideLayouts/slideLayout");
    let d = usize_to_string(j);
    push_str(&mut r, d.as_str());
    push_str(&mut r, ".xml");
    r
}

/// Layout keys as text.
pub open spec fn key_views(keys: Seq<String>) -> Seq<Seq<char>> {
    keys.map_values(|s: String| s@)
}

/// The last position of `key` among the layout keys.
pub open spec fn key_position(keys: Seq<Seq<char>>, key: Seq<char>) -> Option<int>
    decreases keys.len(),
{
    if keys.len() == 0 {
        None
    } else if keys.last() == key {
        Some(keys.len() - 1)
    } else {
        key_position(keys.drop_last(), key)
    }
}

/// The layout a page hangs off: the one-based number of the layout its
/// key names among the deck's layout keys (in the order the layouts are
/// written), and the first layout when it names none, names an unknown
/// key, or the deck declares no layouts.
pub open spec fn layout_number_spec(keys: Seq<Seq<char>>, key: Option<Seq<char>>) -> nat {
    match key {
        Some(k) => if keys.len() > 0 {
            match key_position(keys, k) {
                Some(p) => (p + 1) as nat,
                None => 1,
            }
        } else {
            1
        },
        None => 1,
    }
}

/// The number of the layout a page with layout `key` hangs off, given the
/// deck's layout keys in the order the layouts are written.
pub fn layout_number(keys: &Vec<String>, key: Option<&str>) -> (r: usize)
    ensures
        r as nat == layout_number_spec(key_views(keys@), match key {
            Some(k) => Some(k@),
            None => None,
        }),
        1 <= r <= layout_parts(keys@.len()),
{
    let ghost ks = key_views(keys@);
    let k = match key {
        Some(k) => k,
        None => {
            return 1;
        },
    };
    if keys.len() == 0 {
        return 1;
    }
    let mut i: usize = keys.len();
    assert(ks.take(i as int) =~= ks);
    while i > 0
        invariant
            i <= keys.len(),
            ks == key_views(keys@),
            key == Some(k),
            key_position(ks, k@) == key_position(ks.take(i as int), k@),
        decreases i,
    {
        assert(ks.take(i as int).last() == keys@[i - 1]@);
        if str_eq(keys[i - 1].as_str(), k) {
            assert(ks.take(i as int).last() == k@);
            assert(key_position(ks.take(i as int), k@) == Some(i - 1));
            return i;
        }
        assert(ks.take(i as int).drop_last() =~= ks.take(i - 1));
        i = i - 1;
    }
    1
}

// ---------------------------------------------------------------------------
// Literal segments
// ---------------------------------------------------------------------------

/// Whether a `/` occurs in the text (unfolded from the end).
spec fn has_slash(s: Seq<char>) -> bool
    decreases s.len(),
{
    if s.len() == 0 {
        false
    } else {
        s.last() == '/' || has_slash(s.drop_last())
    }
}

proof fn lemma_has_slash(s: Seq<char>)
    ensures
        !has_slash(s) ==> !s.contains('/'),
    decreases s.len(),
{
    if s.len() > 0 {
        lemma_has_slash(s.drop_last());
        if !has_slash(s) && s.contains('/') {
            let k = choose|k: int| 0 <= k < s.len() && s[k] == '/';
            if k < s.len() - 1 {
                assert(s.drop_last()[k] == '/');
            }
        }
    }
}

proof fn lemma_literal_0()
    ensures
        plain_segment("ppt"@),
{
    reveal_strlit("ppt");
    reveal_with_fuel(has_slash, 17);
    lemma_has_slash("ppt"@);
}

proof fn lemma_literal_1()
    ensures
        plain_segment("slides"@),
{
    reveal_strlit("slides");
    reveal_with_fuel(has_slash, 17);
    lemma_has_slash("slides"@);
}

proof fn lemma_literal_2()
    ensures
        plain_segment("slideLayouts"@),
{
    reveal_strlit("slideLayouts");
    reveal_with_fuel(has_slash, 17);
    lemma_has_slash("slideLayouts"@);
}

proof fn lemma_literal_3()
    ensures
        plain_segment("slideMasters"@),
{
    reveal_strlit("slideMasters");
    reveal_with_fuel(has_slash, 17);
    lemma_has_slash("slideMasters"@);
}

proof fn lemma_literal_4()
    ensures
        plain_segment("theme"@),
{
    reveal_strlit("theme");
    reveal_with_fuel(has_slash, 17);
    lemma_has_slash("theme"@);
}

proof fn lemma_literal_5()
    ensures
        plain_segment("media"@),
{
    reveal_strlit("media");
    reveal_with_fuel(has_slash, 17);
    lemma_has_slash("media"@);
}

proof fn lemma_literal_6()
    ensures
        plain_segment("docProps"@),
{
    reveal_strlit("docProps");
    reveal_with_fuel(has_slash, 17);
    lemma_has_slash("docProps"@);
}

proof fn lemma_literal_7()
    ensures
        plain_segment("presentation.xml"@),
{
    reveal_strlit("presentation.xml");
    reveal_with_fuel(has_slash, 17);
    lemma_has_slash("presentation.xml"@);
}

proof fn lemma_literal_8()
    ensures
        plain_segment("slideMaster1.xml"@),
{
    reveal_strlit("slideMaster1.xml");
    reveal_with_fuel(has_slash, 17);
    lemma_has_slash("slideMaster1.xml"@);
}

proof fn lemma_literal_9()
    ensures
        plain_segment("theme1.xml"@),
{
    reveal_strlit("theme1.xml");
    reveal_with_fuel(has_slash, 17);
    lemma_has_slash("theme1.xml"@);
}

proof fn lemma_literal_10()
    ensures
        plain_segment("core.xml"@),
{
    reveal_strlit("core.xml");
    reveal_with_fuel(has_slash, 17);
    lemma_has_slash("core.xml"@);
}

proof fn lemma_literal_11()
    ensures
        !"slide"@.contains('/'),
{
    reveal_strlit("slide");
    reveal_with_fuel(has_slash, 17);
    lemma_has_slash("slide"@);
}

proof fn lemma_literal_12()
    ensures
        !"slideLayout"@.contains('/'),
{
    reveal_strlit("slideLayout");
    reveal_with_fuel(has_slash, 17);
    lemma_has_slash("slideLayout"@);
}

proof fn lemma_literal_13()
    ensures
        !"image"@.contains('/'),
{
    reveal_strlit("image");
    reveal_with_fuel(has_slash, 17);
    lemma_has_slash("image"@);
}

proof fn lemma_literal_14()
    ensures
        !".xml"@.contains('/'),
{
    reveal_strlit(".xml");
    reveal_with_fuel(has_slash, 17);
    lemma_has_slash(".xml"@);
}

proof fn lemma_literal_segments()
    ensures
        plain_segment("ppt"@),
        plain_segment("slides"@),
        plain_segment("slideLayouts"@),
        plain_segment("slideMasters"@),
        plain_segment("theme"@),
        plain_segment("media"@),
        plain_segment("docProps"@),
        plain_segment("presentation.xml"@),
        plain_segment("slideMaster1.xml"@),
        plain_segment("theme1.xml"@),
        plain_segment("core.xml"@),
        !"slide"@.contains('/'),
        !"slideLayout"@.contains('/'),
        !"image"@.contains('/'),
        !".xml"@.contains('/'),
{
    lemma_literal_0();
    lemma_literal_1();
    lemma_literal_2();
    lemma_literal_3();
    lemma_literal_4();
    lemma_literal_5();
    lemma_literal_6();
    lemma_literal_7();
    lemma_literal_8();
    lemma_literal_9();
    lemma_literal_10();
    lemma_literal_11();
    lemma_literal_12();
    lemma_literal_13();
    lemma_literal_14();
}

pub open spec fn dotdot() -> Seq<char> {
    seq!['.', '.']
}

proof fn lemma_join2(a: Seq<char>, b: Seq<char>)
    ensures
        join_slash(seq![a, b]) == a + seq!['/'] + b,
{
    assert(seq![a, b].drop_last() =~= seq![a]);
    assert(seq![a, b].last() == b);
    assert(seq![a].len() == 1 && seq![a][0] == a);
    assert(join_slash(seq![a]) == a);
}

proof fn lemma_join3(a: Seq<char>, b: Seq<char>, c: Seq<char>)
    ensures
        join_slash(seq![a, b, c]) == a + seq!['/'] + b + seq!['/'] + c,
{
    assert(seq![a, b, c].drop_last() =~= seq![a, b]);
    lemma_join2(a, b);
}

/// A part in `ppt/{dir}/` named `prefix{n}suffix`.
proof fn lemma_numbered_part(dir: Seq<char>, prefix: Seq<char>, n: nat, suffix: Seq<char>)
    ensures
        "ppt"@ + seq!['/'] + dir + seq!['/'] + numbered(prefix, n, suffix) == join_slash(
            seq!["ppt"@, dir].push(numbered(prefix, n, suffix)),
        ),
{
    assert(seq!["ppt"@, dir].push(numbered(prefix, n, suffix)) =~= seq![
        "ppt"@,
        dir,
        numbered(prefix, n, suffix),
    ]);
    lemma_join3("ppt"@, dir, numbered(prefix, n, suffix));
}

proof fn lemma_slide_part_segments(i: nat)
    ensures
        slide_part(i) == join_slash(seq!["ppt"@, "slides"@].push(numbered("slide"@, i, ".xml"@))),
        plain_segment(numbered("slide"@, i, ".xml"@)),
{
    reveal_strlit("ppt/slides/slide");
    reveal_strlit("ppt");
    reveal_strlit("slides");
    reveal_strlit("slide");
    reveal_strlit(".xml");
    lemma_literal_segments();
    lemma_numbered_plain("slide"@, i, ".xml"@);
    lemma_numbered_part("slides"@, "slide"@, i, ".xml"@);
    assert(slide_part(i) =~= "ppt"@ + seq!['/'] + "slides"@ + seq!['/'] + numbered("slide"@, i, ".xml"@));
}

proof fn lemma_layout_part_segments(j: nat)
    ensures
        layout_part(j) == join_slash(seq!["ppt"@, "slideLayouts"@].push(numbered("slideLayout"@, j, ".xml"@))),
        plain_segment(numbered("slideLayout"@, j, ".xml"@)),
{
    reveal_strlit("ppt/slideLayouts/slideLayout");
    reveal_strlit("ppt");
    reveal_strlit("slideLayouts");
    reveal_strlit("slideLayout");
    reveal_strlit(".xml");
    lemma_literal_segments();
    lemma_numbered_plain("slideLayout"@, j, ".xml"@);
    lemma_numbered_part("slideLayouts"@, "slideLayout"@, j, ".xml"@);
    assert(layout_part(j) =~= "ppt"@ + seq!['/'] + "slideLayouts"@ + seq!['/'] + numbered(
        "slideLayout"@,
        j,
        ".xml"@,
    ));
}

/// `../slideLayouts/slideLayout{j}.xml` as segments.
proof fn lemma_layout_target_segments(j: nat)
    ensures
        numbered("../slideLayouts/slideLayout"@, j, ".xml"@) == join_slash(
            seq![dotdot()] + seq!["slideLayouts"@, numbered("slideLayout"@, j, ".xml"@)],
        ),
{
    reveal_strlit("../slideLayouts/slideLayout");
    reveal_strlit("slideLayouts");
    reveal_strlit("slideLayout");
    assert(seq![dotdot()] + seq!["slideLayouts"@, numbered("slideLayout"@, j, ".xml"@)] =~= seq![
        dotdot(),
        "slideLayouts"@,
        numbered("slideLayout"@, j, ".xml"@),
    ]);
    lemma_join3(dotdot(), "slideLayouts"@, numbered("slideLayout"@, j, ".xml"@));
    assert(numbered("../slideLayouts/slideLayout"@, j, ".xml"@) =~= dotdot() + seq!['/'] + "slideLayouts"@
        + seq!['/'] + numbered("slideLayout"@, j, ".xml"@));
}

/// A media part as segments, and its target from a part one level below
/// `ppt/`.
proof fn lemma_media_segments(n: int, ext: Seq<char>)
    requires
        0 <= n,
        is_image_extension(ext),
    ensures
        media_path(n, ext) == join_slash(seq!["ppt"@, "media"@, numbered("image"@, (n + 1) as nat, seq!['.'] + ext)]),
        rel_target_spec(media_path(n, ext)) == join_slash(
            seq![dotdot()] + seq!["media"@, numbered("image"@, (n + 1) as nat, seq!['.'] + ext)],
        ),
        plain_segment(numbered("image"@, (n + 1) as nat, seq!['.'] + ext)),
{
    reveal_strlit("ppt/media/image");
    reveal_strlit("ppt/");
    reveal_strlit("../");
    reveal_strlit("ppt");
    reveal_strlit("media");
    reveal_strlit("image");
    reveal_strlit("png");
    reveal_strlit("jpg");
    reveal_strlit("jpeg");
    lemma_literal_segments();
    let img = numbered("image"@, (n + 1) as nat, seq!['.'] + ext);
    let p = media_path(n, ext);
    assert(!(seq!['.'] + ext).contains('/')) by {
        reveal_with_fuel(has_slash, 6);
        lemma_has_slash(seq!['.'] + ext);
    }
    lemma_numbered_plain("image"@, (n + 1) as nat, seq!['.'] + ext);
    lemma_join3("ppt"@, "media"@, img);
    assert(p =~= "ppt"@ + seq!['/'] + "media"@ + seq!['/'] + img);
    assert(p.take(4) =~= "ppt/"@);
    assert(seq![dotdot()] + seq!["media"@, img] =~= seq![dotdot(), "media"@, img]);
    lemma_join3(dotdot(), "media"@, img);
    assert(rel_target_spec(p) =~= dotdot() + seq!['/'] + "media"@ + seq!['/'] + img);
}

/// A media relationship of a part one level below `ppt/` leads back to
/// the media part.
proof fn lemma_media_resolves(dir: Seq<char>, name: Seq<char>, n: int, ext: Seq<char>)
    requires
        plain_segment(dir),
        !name.contains('/'),
        0 <= n,
        is_image_extension(ext),
    ensures
        resolve_target_spec(join_slash(seq!["ppt"@, dir].push(name)), rel_target_spec(media_path(n, ext)))
            == media_path(n, ext),
{
    lemma_literal_segments();
    lemma_media_segments(n, ext);
    let img = numbered("image"@, (n + 1) as nat, seq!['.'] + ext);
    let ds = seq!["ppt"@, dir];
    assert(plain_segments(ds)) by {
        assert forall|i: int| 0 <= i < ds.len() implies plain_segment(#[trigger] ds[i]) by {
            if i == 0 {
                assert(ds[0] == "ppt"@);
            } else {
                assert(ds[1] == dir);
            }
        }
    }
    let t = seq!["media"@, img];
    assert(plain_segments(t)) by {
        assert forall|i: int| 0 <= i < t.len() implies plain_segment(#[trigger] t[i]) by {
            if i == 0 {
                assert(t[0] == "media"@);
            } else {
                assert(t[1] == img);
            }
        }
    }
    lemma_resolve_up(ds, name, t);
    assert(ds.drop_last() + t =~= seq!["ppt"@, "media"@, img]);
}

proof fn lemma_master_layout_rels(k: nat, j: int)
    requires
        0 <= j < k,
    ensures
        master_layout_rels(k).len() == k,
        master_layout_rels(k)[j] == (
            rid((j + 2) as nat),
            rel_kind::SLIDE_LAYOUT@,
            numbered("../slideLayouts/slideLayout"@, (j + 1) as nat, ".xml"@),
        ),
    decreases k,
{
    lemma_master_layout_rels_len((k - 1) as nat);
    if j < k - 1 {
        lemma_master_layout_rels((k - 1) as nat, j);
    }
}

proof fn lemma_master_layout_rels_len(k: nat)
    ensures
        master_layout_rels(k).len() == k,
    decreases k,
{
    if k > 0 {
        lemma_master_layout_rels_len((k - 1) as nat);
    }
}

proof fn lemma_media_rels(paths: Seq<String>, n: nat, m: int)
    requires
        0 <= m < n,
    ensures
        media_rels(paths, n).len() == n,
        media_rels(paths, n)[m] == (rid((m + 2) as nat), rel_kind::IMAGE@, rel_target_spec(paths[m]@)),
    decreases n,
{
    lemma_media_rels_len(paths, (n - 1) as nat);
    if m < n - 1 {
        lemma_media_rels(paths, (n - 1) as nat, m);
    }
}

proof fn lemma_media_rels_len(paths: Seq<String>, n: nat)
    ensures
        media_rels(paths, n).len() == n,
    decreases n,
{
    if n > 0 {
        lemma_media_rels_len(paths, (n - 1) as nat);
    }
}

proof fn lemma_fixed_parts_segments()
    ensures
        presentation_part() == join_slash(seq!["ppt"@].push("presentation.xml"@)),
        core_part() == join_slash(seq!["docProps"@, "core.xml"@]),
        master_part() == join_slash(seq!["ppt"@, "slideMasters"@].push("slideMaster1.xml"@)),
        master_part() == join_slash(seq!["ppt"@, "slideMasters"@, "slideMaster1.xml"@]),
        theme_part() == join_slash(seq!["ppt"@, "theme"@, "theme1.xml"@]),
{
    reveal_strlit("ppt/presentation.xml");
    reveal_strlit("docProps/core.xml");
    reveal_strlit("ppt/slideMasters/slideMaster1.xml");
    reveal_strlit("ppt/theme/theme1.xml");
    reveal_strlit("ppt");
    reveal_strlit("presentation.xml");
    reveal_strlit("docProps");
    reveal_strlit("core.xml");
    reveal_strlit("slideMasters");
    reveal_strlit("slideMaster1.xml");
    reveal_strlit("theme");
    reveal_strlit("theme1.xml");
    assert(seq!["ppt"@].push("presentation.xml"@) =~= seq!["ppt"@, "presentation.xml"@]);
    lemma_join2("ppt"@, "presentation.xml"@);
    assert(presentation_part() =~= "ppt"@ + seq!['/'] + "presentation.xml"@);
    lemma_join2("docProps"@, "core.xml"@);
    assert(core_part() =~= "docProps"@ + seq!['/'] + "core.xml"@);
    assert(seq!["ppt"@, "slideMasters"@].push("slideMaster1.xml"@) =~= seq![
        "ppt"@,
        "slideMasters"@,
        "slideMaster1.xml"@,
    ]);
    lemma_join3("ppt"@, "slideMasters"@, "slideMaster1.xml"@);
    assert(master_part() =~= "ppt"@ + seq!['/'] + "slideMasters"@ + seq!['/'] + "slideMaster1.xml"@);
    lemma_join3("ppt"@, "theme"@, "theme1.xml"@);
    assert(theme_part() =~= "ppt"@ + seq!['/'] + "theme"@ + seq!['/'] + "theme1.xml"@);
}

proof fn lemma_plain2(a: Seq<char>, b: Seq<char>)
    requires
        plain_segment(a),
        plain_segment(b),
    ensures
        plain_segments(seq![a, b]),
{
    let ab = seq![a, b];
    assert forall|i: int| 0 <= i < 2 implies plain_segment(#[trigger] ab[i]) by {
        if i == 0 {
            assert(ab[0] == a);
        } else {
            assert(ab[1] == b);
        }
    }
}

proof fn lemma_plain1(a: Seq<char>)
    requires
        plain_segment(a),
    ensures
        plain_segments(seq![a]),
{
    let one = seq![a];
    assert forall|i: int| 0 <= i < 1 implies plain_segment(#[trigger] one[i]) by {
        assert(one[0] == a);
    }
}

/// Every relationship of `_rels/.rels`, resolved against the package
/// root, names a part of the package.
pub proof fn lemma_root_rels_resolve(pages: nat, layouts: nat)
    ensures
        forall|idx: int|
            0 <= idx < root_rels_spec().len() ==> package_part(
                resolve_target_spec(Seq::empty(), #[trigger] root_rels_spec()[idx].2),
                pages,
                layouts,
            ),
{
    lemma_literal_segments();
    lemma_fixed_parts_segments();
    reveal_strlit("ppt/presentation.xml");
    reveal_strlit("docProps/core.xml");
    assert(seq!["ppt"@].push("presentation.xml"@) =~= seq!["ppt"@, "presentation.xml"@]);
    lemma_plain2("ppt"@, "presentation.xml"@);
    lemma_plain2("docProps"@, "core.xml"@);
    lemma_resolve_root(seq!["ppt"@, "presentation.xml"@]);
    lemma_resolve_root(seq!["docProps"@, "core.xml"@]);
}

/// Every relationship of `ppt/_rels/presentation.xml.rels`, resolved
/// against `ppt/presentation.xml`, names a part of the package: the
/// master, the theme and each of the slides.
pub proof fn lemma_presentation_rels_resolve(pages: nat, layouts: nat)
    ensures
        forall|idx: int|
            0 <= idx < presentation_rels_spec(pages).len() ==> package_part(
                resolve_target_spec(presentation_part(), #[trigger] presentation_rels_spec(pages)[idx].2),
                pages,
                layouts,
            ),
{
    lemma_literal_segments();
    lemma_fixed_parts_segments();
    reveal_strlit("slideMasters/slideMaster1.xml");
    reveal_strlit("theme/theme1.xml");
    reveal_strlit("slides/slide");
    reveal_strlit("slideMasters");
    reveal_strlit("slideMaster1.xml");
    reveal_strlit("theme");
    reveal_strlit("theme1.xml");
    reveal_strlit("slides");
    reveal_strlit("slide");
    let src_dir = seq!["ppt"@];
    lemma_plain1("ppt"@);
    lemma_plain2("slideMasters"@, "slideMaster1.xml"@);
    lemma_plain2("theme"@, "theme1.xml"@);
    lemma_join2("slideMasters"@, "slideMaster1.xml"@);
    lemma_join2("theme"@, "theme1.xml"@);
    assert("slideMasters/slideMaster1.xml"@ =~= "slideMasters"@ + seq!['/'] + "slideMaster1.xml"@);
    assert("theme/theme1.xml"@ =~= "theme"@ + seq!['/'] + "theme1.xml"@);
    lemma_resolve_down(src_dir, "presentation.xml"@, seq!["slideMasters"@, "slideMaster1.xml"@]);
    lemma_resolve_down(src_dir, "presentation.xml"@, seq!["theme"@, "theme1.xml"@]);
    assert(src_dir + seq!["slideMasters"@, "slideMaster1.xml"@] =~= seq![
        "ppt"@,
        "slideMasters"@,
        "slideMaster1.xml"@,
    ]);
    assert(src_dir + seq!["theme"@, "theme1.xml"@] =~= seq!["ppt"@, "theme"@, "theme1.xml"@]);
    let rels = presentation_rels_spec(pages);
    lemma_presentation_slide_rels_len(pages);
    assert forall|idx: int| 0 <= idx < rels.len() implies package_part(
        resolve_target_spec(presentation_part(), #[trigger] rels[idx].2),
        pages,
        layouts,
    ) by {
        if idx >= 2 {
            let i = (idx - 1) as nat;
            lemma_presentation_slide_rels(pages, idx - 2);
            assert(rels[idx] == super::writer::presentation_slide_rels(pages)[idx - 2]);
            let seg = numbered("slide"@, i, ".xml"@);
            lemma_slide_part_segments(i);
            lemma_plain2("slides"@, seg);
            lemma_join2("slides"@, seg);
            assert(numbered("slides/slide"@, i, ".xml"@) =~= "slides"@ + seq!['/'] + seg);
            lemma_resolve_down(src_dir, "presentation.xml"@, seq!["slides"@, seg]);
            assert(src_dir + seq!["slides"@, seg] =~= seq!["ppt"@, "slides"@].push(seg));
            assert(slide_part(i) == resolve_target_spec(presentation_part(), rels[idx].2));
        }
    }
}

/// `../theme/theme1.xml` from a part one level below `ppt/` leads to the
/// theme part.
proof fn lemma_theme_target(dir: Seq<char>, name: Seq<char>)
    requires
        plain_segment(dir),
        !name.contains('/'),
    ensures
        resolve_target_spec(join_slash(seq!["ppt"@, dir].push(name)), "../theme/theme1.xml"@) == theme_part(),
{
    lemma_literal_segments();
    lemma_fixed_parts_segments();
    reveal_strlit("../theme/theme1.xml");
    reveal_strlit("theme");
    reveal_strlit("theme1.xml");
    lemma_plain2("ppt"@, dir);
    lemma_plain2("theme"@, "theme1.xml"@);
    lemma_join3(dotdot(), "theme"@, "theme1.xml"@);
    assert(seq![dotdot()] + seq!["theme"@, "theme1.xml"@] =~= seq![dotdot(), "theme"@, "theme1.xml"@]);
    assert("../theme/theme1.xml"@ =~= dotdot() + seq!['/'] + "theme"@ + seq!['/'] + "theme1.xml"@);
    lemma_resolve_up(seq!["ppt"@, dir], name, seq!["theme"@, "theme1.xml"@]);
    assert(seq!["ppt"@, dir].drop_last() + seq!["theme"@, "theme1.xml"@] =~= seq![
        "ppt"@,
        "theme"@,
        "theme1.xml"@,
    ]);
}

/// `../slideLayouts/slideLayout{j}.xml` from a part one level below
/// `ppt/` leads to the `j`-th layout part.
proof fn lemma_layout_target(dir: Seq<char>, name: Seq<char>, j: nat)
    requires
        plain_segment(dir),
        !name.contains('/'),
    ensures
        resolve_target_spec(
            join_slash(seq!["ppt"@, dir].push(name)),
            numbered("../slideLayouts/slideLayout"@, j, ".xml"@),
        ) == layout_part(j),
{
    lemma_literal_segments();
    let seg = numbered("slideLayout"@, j, ".xml"@);
    lemma_layout_part_segments(j);
    lemma_layout_target_segments(j);
    lemma_plain2("ppt"@, dir);
    lemma_plain2("slideLayouts"@, seg);
    lemma_resolve_up(seq!["ppt"@, dir], name, seq!["slideLayouts"@, seg]);
    assert(seq!["ppt"@, dir].drop_last() + seq!["slideLayouts"@, seg] =~= seq!["ppt"@, "slideLayouts"@].push(
        seg,
    ));
}

/// Every relationship of the master, resolved against
/// `ppt/slideMasters/slideMaster1.xml`, names a part of the package: each
/// layout part and the theme.
pub proof fn lemma_master_rels_resolve(pages: nat, layouts: nat)
    ensures
        forall|idx: int|
            0 <= idx < master_rels_spec(layouts).len() ==> package_part(
                resolve_target_spec(master_part(), #[trigger] master_rels_spec(layouts)[idx].2),
                pages,
                layouts,
            ),
{
    lemma_literal_segments();
    lemma_fixed_parts_segments();
    let name = "slideMaster1.xml"@;
    lemma_theme_target("slideMasters"@, name);
    let rels = master_rels_spec(layouts);
    if layouts == 0 {
        reveal_strlit("../slideLayouts/slideLayout1.xml");
        reveal_strlit("../slideLayouts/slideLayout");
        reveal_strlit(".xml");
        assert(decimal(1) == seq!['1']);
        assert("../slideLayouts/slideLayout1.xml"@ =~= numbered("../slideLayouts/slideLayout"@, 1, ".xml"@));
        lemma_layout_target("slideMasters"@, name, 1);
        assert(package_part(layout_part(1), pages, layouts));
    } else {
        lemma_master_layout_rels_len(layouts);
        assert forall|idx: int| 0 <= idx < rels.len() implies package_part(
            resolve_target_spec(master_part(), #[trigger] rels[idx].2),
            pages,
            layouts,
        ) by {
            if idx >= 1 {
                lemma_master_layout_rels(layouts, idx - 1);
                assert(rels[idx] == master_layout_rels(layouts)[idx - 1]);
                lemma_layout_target("slideMasters"@, name, idx as nat);
                assert(package_part(layout_part(idx as nat), pages, layouts));
            } else {
                assert(rels[idx].2 == "../theme/theme1.xml"@);
            }
        }
    }
}

/// The target of a media relationship, made from a media part's path,
/// leads back to that part from a part one level below `ppt/`.
proof fn lemma_media_target(dir: Seq<char>, name: Seq<char>, p: Seq<char>)
    requires
        plain_segment(dir),
        !name.contains('/'),
        media_part(p),
    ensures
        resolve_target_spec(join_slash(seq!["ppt"@, dir].push(name)), rel_target_spec(p)) == p,
{
    let (n, ext) = choose|n: int, ext: Seq<char>| 0 <= n && is_image_extension(ext) && p == #[trigger] media_path(n, ext);
    lemma_media_resolves(dir, name, n, ext);
}

/// Every relationship of slide `i`, hanging off layout `layout` and
/// using the media parts `media`, resolves against the slide's part: the
/// first to a layout part of the package, each media relationship to
/// the media part it was made for.
pub proof fn lemma_slide_rels_resolve(pages: nat, layouts: nat, i: nat, layout: nat, media: Seq<String>)
    requires
        1 <= i <= pages,
        1 <= layout <= layout_parts(layouts),
        forall|m: int| 0 <= m < media.len() ==> media_part(#[trigger] media[m]@),
    ensures
        ({
            let rels = part_rels_spec(
                rel_kind::SLIDE_LAYOUT@,
                numbered("../slideLayouts/slideLayout"@, layout, ".xml"@),
                media,
            );
            &&& rels.len() == media.len() + 1
            &&& package_part(resolve_target_spec(slide_part(i), rels[0].2), pages, layouts)
            &&& forall|m: int|
                0 <= m < media.len() ==> resolve_target_spec(slide_part(i), #[trigger] rels[m + 1].2)
                    == media[m]@
        }),
{
    lemma_literal_segments();
    let name = numbered("slide"@, i, ".xml"@);
    lemma_slide_part_segments(i);
    let rels = part_rels_spec(rel_kind::SLIDE_LAYOUT@, numbered("../slideLayouts/slideLayout"@, layout, ".xml"@), media);
    lemma_media_rels_len(media, media.len());
    lemma_layout_target("slides"@, name, layout);
    assert(package_part(layout_part(layout), pages, layouts));
    assert forall|m: int| 0 <= m < media.len() implies resolve_target_spec(slide_part(i), #[trigger] rels[m + 1].2)
        == media[m]@ by {
        lemma_media_rels(media, media.len(), m);
        assert(rels[m + 1] == media_rels(media, media.len())[m]);
        lemma_media_target("slides"@, name, media[m]@);
    }
}

/// Every relationship of layout `j`, using the media parts `media`,
/// resolves against the layout's part: the first to the master, each
/// media relationship to the media part it was made for.
pub proof fn lemma_layout_rels_resolve(pages: nat, layouts: nat, j: nat, media: Seq<String>)
    requires
        1 <= j <= layout_parts(layouts),
        forall|m: int| 0 <= m < media.len() ==> media_part(#[trigger] media[m]@),
    ensures
        ({
            let rels = part_rels_spec(rel_kind::SLIDE_MASTER@, "../slideMasters/slideMaster1.xml"@, media);
            &&& rels.len() == media.len() + 1
            &&& package_part(resolve_target_spec(layout_part(j), rels[0].2), pages, layouts)
            &&& forall|m: int|
                0 <= m < media.len() ==> resolve_target_spec(layout_part(j), #[trigger] rels[m + 1].2)
                    == media[m]@
        }),
{
    lemma_literal_segments();
    lemma_fixed_parts_segments();
    let name = numbered("slideLayout"@, j, ".xml"@);
    lemma_layout_part_segments(j);
    let rels = part_rels_spec(rel_kind::SLIDE_MASTER@, "../slideMasters/slideMaster1.xml"@, media);
    lemma_media_rels_len(media, media.len());
    reveal_strlit("../slideMasters/slideMaster1.xml");
    reveal_strlit("slideMasters");
    reveal_strlit("slideMaster1.xml");
    lemma_plain2("ppt"@, "slideLayouts"@);
    lemma_plain2("slideMasters"@, "slideMaster1.xml"@);
    lemma_join3(dotdot(), "slideMasters"@, "slideMaster1.xml"@);
    assert(seq![dotdot()] + seq!["slideMasters"@, "slideMaster1.xml"@] =~= seq![
        dotdot(),
        "slideMasters"@,
        "slideMaster1.xml"@,
    ]);
    assert("../slideMasters/slideMaster1.xml"@ =~= dotdot() + seq!['/'] + "slideMasters"@ + seq!['/']
        + "slideMaster1.xml"@);
    lemma_resolve_up(seq!["ppt"@, "slideLayouts"@], name, seq!["slideMasters"@, "slideMaster1.xml"@]);
    assert(seq!["ppt"@, "slideLayouts"@].drop_last() + seq!["slideMasters"@, "slideMaster1.xml"@] =~= seq![
        "ppt"@,
        "slideMasters"@,
        "slideMaster1.xml"@,
    ]);
    assert(resolve_target_spec(layout_part(j), rels[0].2) == master_part());
    assert forall|m: int| 0 <= m < media.len() implies resolve_target_spec(layout_part(j), #[trigger] rels[m + 1].2)
        == media[m]@ by {
        lemma_media_rels(media, media.len(), m);
        assert(rels[m + 1] == media_rels(media, media.len())[m]);
        lemma_media_target("slideLayouts"@, name, media[m]@);
    }
}

// ---------------------------------------------------------------------------
// Image relationships
// ---------------------------------------------------------------------------

/// The first position of `src` among the media sources a part uses.
pub open spec fn source_position(used: Seq<Seq<char>>, src: Seq<char>, k: int) -> Option<int>
    decreases used.len() - k,
{
    if k < 0 || k >= used.len() {
        None
    } else if used[k] == src {
        Some(k)
    } else {
        source_position(used, src, k + 1)
    }
}

/// The relationship id an image of source `src` embeds: `rId{p + 2}` for
/// the position `p` of its source among the part's media sources (`rId1`
/// is the layout or master), none for a source the part does not use.
pub open spec fn media_rel_id_spec(used: Seq<Seq<char>>, src: Seq<char>) -> Option<Seq<char>> {
    match source_position(used, src, 0) {
        Some(p) => Some(rid((p + 2) as nat)),
        None => None,
    }
}

/// The relationship id an image of source `src` embeds, given the media
/// sources its part uses in order of first use.
pub fn media_rel_id(used: &Vec<String>, src: &str) -> (r: Option<String>)
    requires
        used@.len() + 2 <= usize::MAX,
    ensures
        match r {
            Some(id) => media_rel_id_spec(key_views(used@), src@) == Some(id@),
            None => media_rel_id_spec(key_views(used@), src@) is None,
        },
{
    let ghost us = key_views(used@);
    let mut k: usize = 0;
    while k < used.len()
        invariant
            k <= used.len(),
            used@.len() + 2 <= usize::MAX,
            us == key_views(used@),
            source_position(us, src@, 0) == source_position(us, src@, k as int),
        decreases used.len() - k,
    {
        assert(us[k as int] == used@[k as int]@);
        if str_eq(used[k].as_str(), src) {
            let mut id = String::from_str("rId");
            let d = usize_to_string(k + 2);
            push_str(&mut id, d.as_str());
            proof {
                reveal_strlit("rId");
            }
            return Some(id);
        }
        k = k + 1;
    }
    None
}

proof fn lemma_source_position(used: Seq<Seq<char>>, src: Seq<char>, k: int)
    requires
        0 <= k,
    ensures
        source_position(used, src, k) matches Some(p) ==> k <= p < used.len() && used[p] == src,
    decreases used.len() - k,
{
    if k < used.len() && used[k] != src {
        lemma_source_position(used, src, k + 1);
    }
}

/// An image's embed id names the relationship to its own media part: when
/// a part's media relationships are made from the package paths of its
/// media sources (in the same order), the relationship with the id an
/// image of source `src` embeds is an image relationship targeting the
/// media part registered for `src`.
pub proof fn lemma_embed_id_names_its_media(
    first_kind: Seq<char>,
    first: Seq<char>,
    used: Seq<Seq<char>>,
    paths: Seq<String>,
    src: Seq<char>,
)
    requires
        paths.len() == used.len(),
        media_rel_id_spec(used, src) is Some,
    ensures
        ({
            let p = source_position(used, src, 0)->Some_0;
            let rels = part_rels_spec(first_kind, first, paths);
            &&& 0 <= p < used.len()
            &&& used[p] == src
            &&& rels[p + 1] == (media_rel_id_spec(used, src)->Some_0, rel_kind::IMAGE@, rel_target_spec(paths[p]@))
        }),
{
    lemma_source_position(used, src, 0);
    let p = source_position(used, src, 0)->Some_0;
    lemma_media_rels(paths, paths.len(), p);
}

} // verus!
