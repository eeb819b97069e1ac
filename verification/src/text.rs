//! Character-level helpers shared by the writers and parsers.

use vstd::prelude::*;

verus! {

/// Appends one character to a string (`String::push`).
#[verifier::external_body]
pub(crate) fn push_char(s: &mut String, c: char)
    ensures
        final(s)@ == old(s)@.push(c),
{
    s.push(c);
}

/// Appends a string slice.
pub fn push_str(s: &mut String, t: &str)
    ensures
        final(s)@ == old(s)@ + t@,
{
    s.append(t);
}

/// Appends a sequence of characters held in a vector.
pub fn push_chars(s: &mut String, t: &Vec<char>)
    ensures
        final(s)@ == old(s)@ + t@,
{
    let ghost start = s@;
    let mut i: usize = 0;
    while i < t.len()
        invariant
            i <= t.len(),
            s@ == start + t@.take(i as int),
        decreases t.len() - i,
    {
        push_char(s, t[i]);
        i = i + 1;
        assert(t@.take(i as int) =~= t@.take((i - 1) as int).push(t@[i - 1]));
    }
    assert(t@.take(i as int) =~= t@);
}

/// The characters of `s`, in order.
pub fn chars_of(s: &str) -> (out: Vec<char>)
    ensures
        out@ == s@,
{
    let mut out: Vec<char> = Vec::new();
    for c in it: s.chars()
        invariant
            out@ == it.seq().take(it.index() as int),
            it.seq() == s@,
    {
        out.push(c);
    }
    out
}

/// A string holding exactly the given characters.
pub fn string_of(cs: &Vec<char>) -> (out: String)
    ensures
        out@ == cs@,
{
    let mut out = String::new();
    push_chars(&mut out, cs);
    out
}

/// Decimal digits of a natural number, most significant first, without
/// leading zeros (`0` is the single digit `"0"`).
pub open spec fn decimal(n: nat) -> Seq<char>
    decreases n,
{
    if n < 10 {
        seq![digit_char(n)]
    } else {
        decimal(n / 10).push(digit_char(n % 10))
    }
}

/// The ASCII digit for a value below ten.
pub open spec fn digit_char(d: nat) -> char {
    (d + 48) as char
}

/// `n` written in decimal (`usize::to_string`).
pub fn usize_to_string(n: usize) -> (out: String)
    ensures
        out@ == decimal(n as nat),
    decreases n,
{
    if n < 10 {
        let mut out = String::new();
        push_char(&mut out, ((n as u8) + 48) as char);
        out
    } else {
        let mut out = usize_to_string(n / 10);
        push_char(&mut out, (((n % 10) as u8) + 48) as char);
        out
    }
}

/// Equality of two string slices.
pub fn str_eq(a: &str, b: &str) -> (r: bool)
    ensures
        r == (a@ == b@),
{
    let x = chars_of(a);
    let y = chars_of(b);
    if x.len() != y.len() {
        return false;
    }
    let mut i: usize = 0;
    while i < x.len()
        invariant
            x@ == a@,
            y@ == b@,
            x.len() == y.len(),
            i <= x.len(),
            forall|j: int| 0 <= j < i ==> x@[j] == y@[j],
        decreases x.len() - i,
    {
        if x[i] != y[i] {
            return false;
        }
        i = i + 1;
    }
    assert(x@ =~= y@);
    true
}

/// ASCII lowercase of one character.
pub open spec fn lower_char(c: char) -> char {
    if 'A' <= c && c <= 'Z' {
        ((c as u32) + 32) as char
    } else {
        c
    }
}

/// ASCII lowercase of a string.
pub open spec fn lower_seq(s: Seq<char>) -> Seq<char> {
    s.map_values(|c: char| lower_char(c))
}

/// ASCII lowercase copy of `s`.
pub fn lowercase(s: &str) -> (r: String)
    ensures
        r@ == lower_seq(s@),
{
    let cs = chars_of(s);
    let mut r = String::new();
    let mut i: usize = 0;
    while i < cs.len()
        invariant
            cs@ == s@,
            i <= cs.len(),
            r@ == lower_seq(cs@.take(i as int)),
        decreases cs.len() - i,
    {
        let c = cs[i];
        let l = if 'A' <= c && c <= 'Z' {
            ((c as u8) + 32) as char
        } else {
            c
        };
        push_char(&mut r, l);
        assert(lower_seq(cs@.take(i + 1)) =~= lower_seq(cs@.take(i as int)).push(lower_char(c)));
        i = i + 1;
    }
    assert(cs@.take(i as int) =~= cs@);
    r
}

/// Index of the last occurrence of `c` in `s`.
pub open spec fn last_index(s: Seq<char>, c: char) -> Option<int>
    decreases s.len(),
{
    if s.len() == 0 {
        None
    } else if s.last() == c {
        Some(s.len() - 1)
    } else {
        last_index(s.drop_last(), c)
    }
}

pub proof fn lemma_last_index(s: Seq<char>, c: char)
    ensures
        last_index(s, c) matches Some(i) ==> 0 <= i < s.len() && s[i] == c,
    decreases s.len(),
{
    if s.len() > 0 && s.last() != c {
        lemma_last_index(s.drop_last(), c);
    }
}

/// Index of the last occurrence of `c` in `cs`.
pub fn last_position(cs: &Vec<char>, c: char) -> (r: Option<usize>)
    ensures
        r matches Some(i) ==> last_index(cs@, c) == Some(i as int) && i < cs@.len() && cs@[i as int] == c,
        r is None ==> last_index(cs@, c) is None,
{
    proof {
        lemma_last_index(cs@, c);
    }
    let mut i = cs.len();
    assert(cs@.take(i as int) =~= cs@);
    while i > 0
        invariant
            i <= cs.len(),
            last_index(cs@, c) == last_index(cs@.take(i as int), c),
        decreases i,
    {
        assert(cs@.take(i as int).drop_last() =~= cs@.take(i - 1));
        if cs[i - 1] == c {
            return Some(i - 1);
        }
        i = i - 1;
    }
    None
}

/// `char::is_whitespace`: the Unicode `White_Space` property.
pub open spec fn is_ws(c: char) -> bool {
    ||| ('\u{9}' <= c && c <= '\u{d}')
    ||| c == ' '
    ||| c == '\u{85}'
    ||| c == '\u{a0}'
    ||| c == '\u{1680}'
    ||| ('\u{2000}' <= c && c <= '\u{200a}')
    ||| c == '\u{2028}'
    ||| c == '\u{2029}'
    ||| c == '\u{202f}'
    ||| c == '\u{205f}'
    ||| c == '\u{3000}'
}

/// `s` without its leading whitespace.
pub open spec fn trim_start(s: Seq<char>) -> Seq<char>
    decreases s.len(),
{
    if s.len() > 0 && is_ws(s[0]) {
        trim_start(s.skip(1))
    } else {
        s
    }
}

/// `s` without its trailing whitespace.
pub open spec fn trim_end(s: Seq<char>) -> Seq<char>
    decreases s.len(),
{
    if s.len() > 0 && is_ws(s.last()) {
        trim_end(s.drop_last())
    } else {
        s
    }
}

/// `str::trim`.
pub open spec fn trim(s: Seq<char>) -> Seq<char> {
    trim_end(trim_start(s))
}

pub fn is_ws_char(c: char) -> (r: bool)
    ensures
        r == is_ws(c),
{
    ('\u{9}' <= c && c <= '\u{d}') || c == ' ' || c == '\u{85}' || c == '\u{a0}' || c
        == '\u{1680}' || ('\u{2000}' <= c && c <= '\u{200a}') || c == '\u{2028}' || c
        == '\u{2029}' || c == '\u{202f}' || c == '\u{205f}' || c == '\u{3000}'
}

/// The characters of `line` with surrounding whitespace removed.
pub fn trim_chars(line: &Vec<char>) -> (r: Vec<char>)
    ensures
        r@ == trim(line@),
{
    let n = line.len();
    let mut i: usize = 0;
    assert(line@.skip(0) =~= line@);
    while i < n && is_ws_char(line[i])
        invariant
            n == line@.len(),
            i <= n,
            trim_start(line@) == trim_start(line@.skip(i as int)),
        decreases n - i,
    {
        assert(line@.skip(i as int).skip(1) =~= line@.skip(i + 1));
        i = i + 1;
    }
    let ghost head = line@.skip(i as int);
    assert(trim_start(head) == head);
    let mut j: usize = n;
    assert(head.take(j - i) =~= head);
    while j > i && is_ws_char(line[j - 1])
        invariant
            n == line@.len(),
            i <= j <= n,
            head == line@.skip(i as int),
            trim_end(head) == trim_end(head.take(j - i)),
        decreases j,
    {
        assert(head.take(j - i).drop_last() =~= head.take(j - 1 - i));
        j = j - 1;
    }
    assert(trim_end(head.take(j - i)) == head.take(j - i));
    let mut out: Vec<char> = Vec::new();
    let mut k = i;
    while k < j
        invariant
            i <= k <= j <= n,
            n == line@.len(),
            out@ == line@.subrange(i as int, k as int),
        decreases j - k,
    {
        out.push(line[k]);
        assert(line@.subrange(i as int, k + 1) =~= line@.subrange(i as int, k as int).push(
            line@[k as int],
        ));
        k = k + 1;
    }
    assert(out@ =~= head.take(j - i));
    out
}

/// `s` split at every `sep` (`str::split`): always at least one piece.
pub open spec fn split_on(s: Seq<char>, sep: char) -> Seq<Seq<char>>
    decreases s.len(),
{
    if s.len() == 0 {
        seq![Seq::empty()]
    } else {
        let prev = split_on(s.drop_last(), sep);
        if s.last() == sep {
            prev.push(Seq::empty())
        } else {
            prev.update(prev.len() - 1, prev.last().push(s.last()))
        }
    }
}

pub proof fn lemma_split_nonempty(s: Seq<char>, sep: char)
    ensures
        split_on(s, sep).len() >= 1,
    decreases s.len(),
{
    if s.len() > 0 {
        lemma_split_nonempty(s.drop_last(), sep);
    }
}

/// The characters of `s` before position `n`.
pub fn prefix_chars(s: &Vec<char>, n: usize) -> (r: Vec<char>)
    requires
        n <= s@.len(),
    ensures
        r@ == s@.take(n as int),
{
    let mut r: Vec<char> = Vec::new();
    let mut i: usize = 0;
    while i < n
        invariant
            i <= n <= s@.len(),
            r@ == s@.take(i as int),
        decreases n - i,
    {
        r.push(s[i]);
        assert(s@.take(i + 1) =~= s@.take(i as int).push(s@[i as int]));
        i = i + 1;
    }
    r
}

/// The characters of `s` from position `n` on.
pub fn suffix_chars(s: &Vec<char>, n: usize) -> (r: Vec<char>)
    requires
        n <= s@.len(),
    ensures
        r@ == s@.skip(n as int),
{
    let mut r: Vec<char> = Vec::new();
    let mut i: usize = n;
    while i < s.len()
        invariant
            n <= i <= s@.len(),
            r@ == s@.subrange(n as int, i as int),
        decreases s.len() - i,
    {
        r.push(s[i]);
        assert(s@.subrange(n as int, i + 1) =~= s@.subrange(n as int, i as int).push(s@[i as int]));
        i = i + 1;
    }
    assert(s@.subrange(n as int, s@.len() as int) =~= s@.skip(n as int));
    r
}

/// The character views of a list of character vectors.
pub open spec fn char_views(v: Seq<Vec<char>>) -> Seq<Seq<char>> {
    v.map_values(|p: Vec<char>| p@)
}

/// `cs` split at every `sep` (`str::split`).
pub fn split_chars(cs: &Vec<char>, sep: char) -> (r: Vec<Vec<char>>)
    ensures
        char_views(r@) == split_on(cs@, sep),
{
    let mut pieces: Vec<Vec<char>> = Vec::new();
    let mut cur: Vec<char> = Vec::new();
    let mut i: usize = 0;
    assert(cs@.take(0) =~= Seq::<char>::empty());
    while i < cs.len()
        invariant
            i <= cs@.len(),
            split_on(cs@.take(i as int), sep).len() >= 1,
            char_views(pieces@) == split_on(cs@.take(i as int), sep).drop_last(),
            cur@ == split_on(cs@.take(i as int), sep).last(),
        decreases cs.len() - i,
    {
        let c = cs[i];
        let ghost prev = split_on(cs@.take(i as int), sep);
        assert(cs@.take(i + 1).drop_last() =~= cs@.take(i as int));
        if c == sep {
            let ghost before = pieces@;
            pieces.push(cur);
            assert(char_views(pieces@) =~= char_views(before).push(prev.last()));
            assert(prev.push(Seq::empty()).drop_last() =~= prev);
            assert(prev.drop_last().push(prev.last()) =~= prev);
            cur = Vec::new();
        } else {
            let ghost next = prev.update(prev.len() - 1, prev.last().push(c));
            assert(next.drop_last() =~= prev.drop_last());
            cur.push(c);
        }
        i = i + 1;
    }
    assert(cs@.take(i as int) =~= cs@);
    let ghost all = split_on(cs@, sep);
    let ghost before = pieces@;
    pieces.push(cur);
    assert(char_views(pieces@) =~= char_views(before).push(all.last()));
    assert(all.drop_last().push(all.last()) =~= all);
    pieces
}

/// `s` with every non-overlapping occurrence of `pat`, leftmost first,
/// replaced by `rep` (`str::replace`).
pub open spec fn replace_spec(s: Seq<char>, pat: Seq<char>, rep: Seq<char>) -> Seq<char>
    decreases s.len(),
{
    if s.len() == 0 || pat.len() == 0 {
        s
    } else if pat.len() <= s.len() && s.take(pat.len() as int) == pat {
        rep + replace_spec(s.skip(pat.len() as int), pat, rep)
    } else {
        seq![s[0]] + replace_spec(s.skip(1), pat, rep)
    }
}

/// Replace every non-overlapping occurrence of `pat` in `s` by `rep`.
pub fn replace_chars(s: &Vec<char>, pat: &str, rep: &str) -> (r: Vec<char>)
    requires
        pat@.len() > 0,
    ensures
        r@ == replace_spec(s@, pat@, rep@),
{
    let p = chars_of(pat);
    let q = chars_of(rep);
    let mut out: Vec<char> = Vec::new();
    let mut i: usize = 0;
    assert(s@.skip(0) =~= s@);
    assert(out@ + replace_spec(s@, pat@, rep@) =~= replace_spec(s@, pat@, rep@));
    while i < s.len()
        invariant
            i <= s@.len(),
            p@ == pat@,
            q@ == rep@,
            p@.len() > 0,
            out@ + replace_spec(s@.skip(i as int), pat@, rep@) == replace_spec(s@, pat@, rep@),
        decreases s.len() - i,
    {
        let ghost rest = s@.skip(i as int);
        let mut matched = p.len() <= s.len() - i;
        let mut k: usize = 0;
        while matched && k < p.len()
            invariant
                k <= p@.len(),
                i <= s@.len(),
                rest == s@.skip(i as int),
                matched ==> p@.len() <= rest.len(),
                matched ==> p.len() + i <= s.len(),
                matched ==> forall|m: int| 0 <= m < k ==> rest[m] == p@[m],
                !matched ==> !(p@.len() <= rest.len() && rest.take(p@.len() as int) == p@),
            decreases p.len() - k + (if matched {
                1int
            } else {
                0int
            }),
        {
            if s[i + k] != p[k] {
                assert(rest.take(p@.len() as int)[k as int] != p@[k as int]);
                matched = false;
            } else {
                k = k + 1;
            }
        }
        let ghost before = out@;
        if matched {
            assert(rest.take(p@.len() as int) =~= p@);
            let mut m: usize = 0;
            while m < q.len()
                invariant
                    m <= q@.len(),
                    out@ == before + q@.take(m as int),
                decreases q.len() - m,
            {
                out.push(q[m]);
                assert(q@.take(m + 1) =~= q@.take(m as int).push(q@[m as int]));
                m = m + 1;
            }
            assert(q@.take(m as int) =~= q@);
            assert(rest.skip(p@.len() as int) =~= s@.skip(i + p.len()));
            assert(before + (rep@ + replace_spec(rest.skip(p@.len() as int), pat@, rep@)) =~= out@
                + replace_spec(s@.skip(i + p.len()), pat@, rep@));
            i = i + p.len();
        } else {
            out.push(s[i]);
            assert(rest.skip(1) =~= s@.skip(i + 1));
            assert(before + (seq![rest[0]] + replace_spec(rest.skip(1), pat@, rep@)) =~= out@
                + replace_spec(s@.skip(i + 1), pat@, rep@));
            i = i + 1;
        }
    }
    assert(s@.skip(i as int) =~= Seq::<char>::empty());
    assert(out@ + Seq::<char>::empty() =~= out@);
    out
}

/// `n` written in decimal (`u64::to_string`).
pub fn u64_to_string(n: u64) -> (out: String)
    ensures
        out@ == decimal(n as nat),
    decreases n,
{
    if n < 10 {
        let mut out = String::new();
        push_char(&mut out, ((n as u8) + 48) as char);
        out
    } else {
        let mut out = u64_to_string(n / 10);
        push_char(&mut out, (((n % 10) as u8) + 48) as char);
        out
    }
}

/// A signed integer in decimal, with a leading `-` when negative.
pub open spec fn int_text(n: int) -> Seq<char> {
    if n < 0 {
        seq!['-'] + decimal((-n) as nat)
    } else {
        decimal(n as nat)
    }
}

/// `n` written in decimal (`i64::to_string`).
pub fn i64_to_string(n: i64) -> (out: String)
    ensures
        out@ == int_text(n as int),
{
    if n < 0 {
        let magnitude: u64 = if n == i64::MIN {
            9223372036854775808u64
        } else {
            (-n) as u64
        };
        let digits = u64_to_string(magnitude);
        let mut out = String::new();
        push_char(&mut out, '-');
        push_str(&mut out, digits.as_str());
        out
    } else {
        u64_to_string(n as u64)
    }
}

/// Whether `s` has no characters.
pub fn is_empty_text(s: &str) -> (r: bool)
    ensures
        r == (s@.len() == 0),
{
    let cs = chars_of(s);
    cs.len() == 0
}

/// ASCII uppercase of one character.
pub open spec fn upper_char(c: char) -> char {
    if 'a' <= c && c <= 'z' {
        ((c as u32) - 32) as char
    } else {
        c
    }
}

/// ASCII uppercase of a string.
pub open spec fn upper_seq(s: Seq<char>) -> Seq<char> {
    s.map_values(|c: char| upper_char(c))
}

/// ASCII uppercase copy of the characters.
pub fn uppercase_chars(cs: &Vec<char>) -> (r: String)
    ensures
        r@ == upper_seq(cs@),
{
    let mut out = String::new();
    let mut i: usize = 0;
    while i < cs.len()
        invariant
            i <= cs@.len(),
            out@ == upper_seq(cs@.take(i as int)),
        decreases cs.len() - i,
    {
        let c = cs[i];
        let u = if 'a' <= c && c <= 'z' {
            ((c as u8) - 32) as char
        } else {
            c
        };
        push_char(&mut out, u);
        assert(upper_seq(cs@.take(i + 1)) =~= upper_seq(cs@.take(i as int)).push(upper_char(c)));
        i = i + 1;
    }
    assert(cs@.take(i as int) =~= cs@);
    out
}

} // verus!
