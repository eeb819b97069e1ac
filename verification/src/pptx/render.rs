//! Text-level rules of the slide renderer: the CSS subset of PPTD rich
//! text, XML entity decoding and line joins.

use vstd::prelude::*;

use super::xml::{escape_char, escape_spec};
use crate::pptd::elements::LineCurve;
use crate::text::{
    char_views, chars_of, lower_char, lower_seq, replace_chars, replace_spec, split_chars, split_on,
    str_eq, string_of, trim, trim_chars,
};

verus! {

/// One CSS declaration `key: value`: the text before the first `:` and
/// the text between it and the next `:`, both trimmed; the key is
/// lowercased. Absent without a `:` or when either part is blank.
pub open spec fn css_decl(kv: Seq<char>) -> Option<(Seq<char>, Seq<char>)> {
    let parts = split_on(kv, ':');
    if parts.len() < 2 {
        None
    } else {
        let key = trim(parts[0]);
        let value = trim(parts[1]);
        if key.len() == 0 || value.len() == 0 {
            None
        } else {
            Some((lower_seq(key), value))
        }
    }
}

/// The declarations of the pieces, in order.
pub open spec fn css_decls(pieces: Seq<Seq<char>>) -> Seq<(Seq<char>, Seq<char>)>
    decreases pieces.len(),
{
    if pieces.len() == 0 {
        Seq::empty()
    } else {
        css_decls(pieces.drop_last()) + match css_decl(pieces.last()) {
            Some(p) => seq![p],
            None => Seq::empty(),
        }
    }
}

/// The declarations of a CSS declaration list (`font-size:24px; color:#f00`).
pub open spec fn css_pairs_spec(style: Seq<char>) -> Seq<(Seq<char>, Seq<char>)> {
    css_decls(split_on(style, ';'))
}

/// The text pairs of a list of string pairs.
pub open spec fn pair_views(v: Seq<(String, String)>) -> Seq<(Seq<char>, Seq<char>)> {
    v.map_values(|p: (String, String)| (p.0@, p.1@))
}

fn lowercase_chars(cs: &Vec<char>) -> (r: String)
    ensures
        r@ == lower_seq(cs@),
{
    let mut out: Vec<char> = Vec::new();
    let mut i: usize = 0;
    while i < cs.len()
        invariant
            i <= cs@.len(),
            out@ == lower_seq(cs@.take(i as int)),
        decreases cs.len() - i,
    {
        let c = cs[i];
        let l = if 'A' <= c && c <= 'Z' {
            ((c as u8) + 32) as char
        } else {
            c
        };
        out.push(l);
        assert(lower_seq(cs@.take(i + 1)) =~= lower_seq(cs@.take(i as int)).push(lower_char(c)));
        i = i + 1;
    }
    assert(cs@.take(i as int) =~= cs@);
    string_of(&out)
}

/// CSS declaration list → key/value pairs (`font-size:24px; color:#f00`).
pub fn css_pairs(style: &str) -> (r: Vec<(String, String)>)
    ensures
        pair_views(r@) == css_pairs_spec(style@),
{
    let cs = chars_of(style);
    let pieces = split_chars(&cs, ';');
    let ghost ps = char_views(pieces@);
    let mut out: Vec<(String, String)> = Vec::new();
    let mut i: usize = 0;
    while i < pieces.len()
        invariant
            i <= pieces@.len(),
            ps == char_views(pieces@),
            ps == split_on(style@, ';'),
            pair_views(out@) == css_decls(ps.take(i as int)),
        decreases pieces.len() - i,
    {
        assert(ps.take(i + 1).drop_last() =~= ps.take(i as int));
        assert(ps[i as int] == pieces@[i as int]@);
        let parts = split_chars(&pieces[i], ':');
        let ghost before = out@;
        if parts.len() >= 2 {
            let key = trim_chars(&parts[0]);
            let value = trim_chars(&parts[1]);
            assert(char_views(parts@)[0] == parts@[0]@);
            assert(char_views(parts@)[1] == parts@[1]@);
            if key.len() > 0 && value.len() > 0 {
                out.push((lowercase_chars(&key), string_of(&value)));
                assert(pair_views(out@) =~= pair_views(before).push((lower_seq(key@), value@)));
            }
        }
        i = i + 1;
    }
    assert(ps.take(i as int) =~= ps);
    out
}

/// Position of the first pair whose key is `key`, from `i` on.
pub open spec fn find_key_from(pairs: Seq<(Seq<char>, Seq<char>)>, key: Seq<char>, i: int) -> Option<int>
    decreases pairs.len() - i,
{
    if i < 0 || i >= pairs.len() {
        None
    } else if pairs[i].0 == key {
        Some(i)
    } else {
        find_key_from(pairs, key, i + 1)
    }
}

/// The value of the first declaration of `key`.
pub open spec fn css_value_spec(pairs: Seq<(Seq<char>, Seq<char>)>, key: Seq<char>) -> Option<Seq<char>> {
    match find_key_from(pairs, key, 0) {
        Some(i) => Some(pairs[i].1),
        None => None,
    }
}

/// The value of the first declaration of `key`.
pub fn css_value<'a>(pairs: &'a [(String, String)], key: &str) -> (r: Option<&'a str>)
    ensures
        match r {
            Some(v) => css_value_spec(pair_views(pairs@), key@) == Some(v@),
            None => css_value_spec(pair_views(pairs@), key@) is None,
        },
{
    let ghost ps = pair_views(pairs@);
    let mut i: usize = 0;
    while i < pairs.len()
        invariant
            i <= pairs@.len(),
            ps == pair_views(pairs@),
            find_key_from(ps, key@, 0) == find_key_from(ps, key@, i as int),
        decreases pairs.len() - i,
    {
        assert(ps[i as int] == (pairs@[i as int].0@, pairs@[i as int].1@));
        if str_eq(pairs[i].0.as_str(), key) {
            return Some(pairs[i].1.as_str());
        }
        i = i + 1;
    }
    None
}

/// The DrawingML paragraph alignment of a CSS `text-align` value.
pub open spec fn css_align_spec(value: Seq<char>) -> Option<Seq<char>> {
    if value == "left"@ {
        Some("l"@)
    } else if value == "center"@ {
        Some("ctr"@)
    } else if value == "right"@ {
        Some("r"@)
    } else if value == "justify"@ {
        Some("just"@)
    } else if value == "distributed"@ {
        Some("dist"@)
    } else {
        None
    }
}

/// The DrawingML paragraph alignment of a CSS `text-align` value.
pub fn css_align(value: &str) -> (r: Option<&'static str>)
    ensures
        match r {
            Some(v) => css_align_spec(value@) == Some(v@),
            None => css_align_spec(value@) is None,
        },
{
    if str_eq(value, "left") {
        Some("l")
    } else if str_eq(value, "center") {
        Some("ctr")
    } else if str_eq(value, "right") {
        Some("r")
    } else if str_eq(value, "justify") {
        Some("just")
    } else if str_eq(value, "distributed") {
        Some("dist")
    } else {
        None
    }
}

/// The five XML entities decoded in turn: `&lt;`, `&gt;`, `&quot;`,
/// `&apos;` and finally `&amp;`.
pub open spec fn unescape_spec(s: Seq<char>) -> Seq<char> {
    replace_spec(
        replace_spec(
            replace_spec(
                replace_spec(replace_spec(s, "&lt;"@, "<"@), "&gt;"@, ">"@),
                "&quot;"@,
                "\""@,
            ),
            "&apos;"@,
            "'"@,
        ),
        "&amp;"@,
        "&"@,
    )
}

/// Decode the five XML entities used by rich text.
pub fn unescape_xml(s: &str) -> (r: String)
    ensures
        r@ == unescape_spec(s@),
{
    proof {
        reveal_strlit("&lt;");
        reveal_strlit("&gt;");
        reveal_strlit("&quot;");
        reveal_strlit("&apos;");
        reveal_strlit("&amp;");
    }
    let cs = chars_of(s);
    let a = replace_chars(&cs, "&lt;", "<");
    let b = replace_chars(&a, "&gt;", ">");
    let c = replace_chars(&b, "&quot;", "\"");
    let d = replace_chars(&c, "&apos;", "'");
    let e = replace_chars(&d, "&amp;", "&");
    string_of(&e)
}

/// Blocks of text joined from the front.
pub open spec fn cat(bs: Seq<Seq<char>>) -> Seq<char>
    decreases bs.len(),
{
    if bs.len() == 0 {
        Seq::empty()
    } else {
        bs[0] + cat(bs.skip(1))
    }
}

proof fn lemma_cat_push(bs: Seq<Seq<char>>, b: Seq<char>)
    ensures
        cat(bs.push(b)) == cat(bs) + b,
    decreases bs.len(),
{
    if bs.len() == 0 {
        assert(bs.push(b).skip(1) =~= Seq::<Seq<char>>::empty());
        assert(cat(Seq::<Seq<char>>::empty()) == Seq::<char>::empty());
        assert(bs.push(b)[0] == b);
        assert(b + Seq::<char>::empty() =~= b);
        assert(cat(bs) == Seq::<char>::empty());
        assert(Seq::<char>::empty() + b =~= b);
    } else {
        assert(bs.push(b).skip(1) =~= bs.skip(1).push(b));
        assert(bs.push(b)[0] == bs[0]);
        lemma_cat_push(bs.skip(1), b);
        assert(bs[0] + (cat(bs.skip(1)) + b) =~= (bs[0] + cat(bs.skip(1))) + b);
    }
}

/// Which decoding pass turns a character's entity back into it: `<` is
/// decoded first, then `>`, `"`, `'`, and `&` last; 0 for characters
/// written as themselves.
pub open spec fn entity_pass(c: char) -> int {
    if c == '<' {
        1
    } else if c == '>' {
        2
    } else if c == '"' {
        3
    } else if c == '\'' {
        4
    } else if c == '&' {
        5
    } else {
        0
    }
}

/// The text standing for `c` after `k` decoding passes.
pub open spec fn decoded_block(k: int, c: char) -> Seq<char> {
    if 1 <= entity_pass(c) <= k {
        seq![c]
    } else {
        escape_char(c)
    }
}

/// The blocks of `s` after `k` decoding passes.
pub open spec fn decoded_blocks(k: int, s: Seq<char>) -> Seq<Seq<char>> {
    Seq::new(s.len(), |i: int| decoded_block(k, s[i]))
}

/// The entity that pass `k` decodes, and what it decodes to.
pub open spec fn pass_pattern(k: int) -> (Seq<char>, Seq<char>) {
    if k == 1 {
        ("&lt;"@, "<"@)
    } else if k == 2 {
        ("&gt;"@, ">"@)
    } else if k == 3 {
        ("&quot;"@, "\""@)
    } else if k == 4 {
        ("&apos;"@, "'"@)
    } else {
        ("&amp;"@, "&"@)
    }
}

/// A block that no occurrence of `pat` straddles or starts inside, and
/// that is `pat` itself or differs from it within their common length.
pub open spec fn clean_block(b: Seq<char>, pat: Seq<char>) -> bool {
    &&& b.len() > 0
    &&& forall|k: int| 1 <= k < b.len() ==> b[k] != '&'
    &&& (b[0] == '&' ==> b == pat || exists|k: int| 0 <= k < b.len() && k < pat.len() && b[k] != pat[k])
}

proof fn lemma_replace_plain(t: Seq<char>, r: Seq<char>, pat: Seq<char>, rep: Seq<char>)
    requires
        pat.len() > 0,
        pat[0] == '&',
        forall|k: int| 0 <= k < t.len() ==> t[k] != '&',
    ensures
        replace_spec(t + r, pat, rep) == t + replace_spec(r, pat, rep),
    decreases t.len(),
{
    if t.len() > 0 {
        let s = t + r;
        assert(s[0] == t[0]);
        if pat.len() <= s.len() {
            assert(s.take(pat.len() as int)[0] != pat[0]);
        }
        assert(s.skip(1) =~= t.skip(1) + r);
        lemma_replace_plain(t.skip(1), r, pat, rep);
        assert(seq![t[0]] + (t.skip(1) + replace_spec(r, pat, rep)) =~= t + replace_spec(r, pat, rep));
    } else {
        assert(t + r =~= r);
        assert(t + replace_spec(r, pat, rep) =~= replace_spec(r, pat, rep));
    }
}

proof fn lemma_replace_block(b: Seq<char>, r: Seq<char>, pat: Seq<char>, rep: Seq<char>)
    requires
        pat.len() > 0,
        pat[0] == '&',
        clean_block(b, pat),
    ensures
        replace_spec(b + r, pat, rep) == (if b == pat { rep } else { b }) + replace_spec(r, pat, rep),
{
    let s = b + r;
    if b == pat {
        assert(s.take(pat.len() as int) =~= pat);
        assert(s.skip(pat.len() as int) =~= r);
    } else if b[0] != '&' {
        lemma_replace_plain(b, r, pat, rep);
    } else {
        let k = choose|k: int| 0 <= k < b.len() && k < pat.len() && b[k] != pat[k];
        if pat.len() <= s.len() {
            assert(s.take(pat.len() as int)[k] != pat[k]);
        }
        assert(s.skip(1) =~= b.skip(1) + r);
        lemma_replace_plain(b.skip(1), r, pat, rep);
        assert(seq![b[0]] + (b.skip(1) + replace_spec(r, pat, rep)) =~= b + replace_spec(r, pat, rep));
    }
}

proof fn lemma_replace_cat(bs: Seq<Seq<char>>, pat: Seq<char>, rep: Seq<char>)
    requires
        pat.len() > 0,
        pat[0] == '&',
        forall|i: int| 0 <= i < bs.len() ==> clean_block(#[trigger] bs[i], pat),
    ensures
        replace_spec(cat(bs), pat, rep) == cat(bs.map_values(|b: Seq<char>| if b == pat { rep } else { b })),
    decreases bs.len(),
{
    let f = |b: Seq<char>| if b == pat { rep } else { b };
    if bs.len() == 0 {
        assert(bs.map_values(f) =~= Seq::<Seq<char>>::empty());
    } else {
        assert(clean_block(bs[0], pat));
        assert forall|i: int| 0 <= i < bs.skip(1).len() implies clean_block(#[trigger] bs.skip(1)[i], pat) by {
            assert(bs.skip(1)[i] == bs[i + 1]);
        }
        lemma_replace_cat(bs.skip(1), pat, rep);
        lemma_replace_block(bs[0], cat(bs.skip(1)), pat, rep);
        assert(bs.map_values(f).skip(1) =~= bs.skip(1).map_values(f));
    }
}

proof fn lemma_escape_blocks(s: Seq<char>)
    ensures
        escape_spec(s) == cat(decoded_blocks(0, s)),
    decreases s.len(),
{
    if s.len() > 0 {
        lemma_escape_blocks(s.drop_last());
        assert(decoded_blocks(0, s) =~= decoded_blocks(0, s.drop_last()).push(escape_char(s.last())));
        lemma_cat_push(decoded_blocks(0, s.drop_last()), escape_char(s.last()));
    } else {
        assert(decoded_blocks(0, s) =~= Seq::<Seq<char>>::empty());
    }
}

proof fn lemma_plain_blocks(s: Seq<char>)
    ensures
        cat(decoded_blocks(5, s)) == s,
    decreases s.len(),
{
    if s.len() > 0 {
        lemma_plain_blocks(s.drop_last());
        assert(decoded_blocks(5, s) =~= decoded_blocks(5, s.drop_last()).push(seq![s.last()]));
        lemma_cat_push(decoded_blocks(5, s.drop_last()), seq![s.last()]);
        assert(s.drop_last() + seq![s.last()] =~= s);
    } else {
        assert(decoded_blocks(5, s) =~= Seq::<Seq<char>>::empty());
    }
}

/// One character's block before pass `k + 1`: clean for its pattern, and
/// the pattern exactly when the pass decodes that character.
proof fn lemma_pass_block(k: int, c: char)
    requires
        0 <= k < 5,
    ensures
        clean_block(decoded_block(k, c), pass_pattern(k + 1).0),
        (decoded_block(k, c) == pass_pattern(k + 1).0) == (entity_pass(c) == k + 1),
        (if decoded_block(k, c) == pass_pattern(k + 1).0 {
            pass_pattern(k + 1).1
        } else {
            decoded_block(k, c)
        }) == decoded_block(k + 1, c),
{
    reveal_strlit("&lt;");
    reveal_strlit("&gt;");
    reveal_strlit("&quot;");
    reveal_strlit("&apos;");
    reveal_strlit("&amp;");
    reveal_strlit("<");
    reveal_strlit(">");
    reveal_strlit("\"");
    reveal_strlit("'");
    reveal_strlit("&");
    let b = decoded_block(k, c);
    let pat = pass_pattern(k + 1).0;
    if b.len() == 1 {
        assert(b != pat);
    } else {
        assert(b == escape_char(c));
        if entity_pass(c) == k + 1 {
            assert(b =~= pat);
        } else {
            assert(b != pat) by {
                if entity_pass(c) == 0 {
                } else {
                    assert(b[1] != pat[1] || b[2] != pat[2] || b.len() != pat.len());
                }
            }
            assert(b[1] != pat[1] || b[2] != pat[2]);
        }
    }
}

proof fn lemma_pass(k: int, s: Seq<char>)
    requires
        0 <= k < 5,
    ensures
        replace_spec(cat(decoded_blocks(k, s)), pass_pattern(k + 1).0, pass_pattern(k + 1).1) == cat(
            decoded_blocks(k + 1, s),
        ),
{
    reveal_strlit("&lt;");
    reveal_strlit("&gt;");
    reveal_strlit("&quot;");
    reveal_strlit("&apos;");
    reveal_strlit("&amp;");
    let (pat, rep) = pass_pattern(k + 1);
    let bs = decoded_blocks(k, s);
    assert forall|i: int| 0 <= i < bs.len() implies clean_block(#[trigger] bs[i], pat) by {
        lemma_pass_block(k, s[i]);
    }
    lemma_replace_cat(bs, pat, rep);
    let f = |b: Seq<char>| if b == pat { rep } else { b };
    assert forall|i: int| 0 <= i < s.len() implies bs.map_values(f)[i] == decoded_blocks(k + 1, s)[i] by {
        lemma_pass_block(k, s[i]);
    }
    assert(bs.map_values(f) =~= decoded_blocks(k + 1, s));
}

/// Decoding the entities of escaped text gives the text back: the
/// ampersand entity is decoded last, so no entity is decoded twice.
pub proof fn lemma_unescape_escape(s: Seq<char>)
    ensures
        unescape_spec(escape_spec(s)) == s,
{
    lemma_escape_blocks(s);
    lemma_pass(0, s);
    lemma_pass(1, s);
    lemma_pass(2, s);
    lemma_pass(3, s);
    lemma_pass(4, s);
    lemma_plain_blocks(s);
}

/// The DrawingML line join of a line curve.
pub open spec fn line_join_spec(style: LineCurve) -> Seq<char> {
    match style {
        LineCurve::Sharp => "miter"@,
        LineCurve::Round => "round"@,
        LineCurve::Smooth => "round"@,
    }
}

/// The DrawingML line join of a line curve.
pub fn line_join(style: LineCurve) -> (r: &'static str)
    ensures
        r@ == line_join_spec(style),
{
    match style {
        LineCurve::Sharp => "miter",
        LineCurve::Round => "round",
        LineCurve::Smooth => "round",
    }
}

} // verus!
