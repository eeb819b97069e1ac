//! SVG path (`d` attribute) grammar → OOXML custom-geometry path elements.
//!
//! Supports the command subset Font Awesome solid icons use (`M`/`m`,
//! `L`/`l`, `C`/`c`, `S`/`s`, `A`/`a`, `Z`/`z`, plus `H`/`V`/`Q`/`T` for
//! robustness). Parsing splits the text into path operations, each one
//! command with its numbers; a run of numbers after a command repeats it
//! (after `M`, as implicit `L`). The numbers stay as text, every one of
//! them in the form `f64::from_str` accepts; the geometry (relative
//! coordinates, reflections, arcs) is computed from them by the caller.
//!
//! [`emit_path_children`] writes `<a:path>` children (`a:moveTo`,
//! `a:lnTo`, `a:cubicBezTo`, ...) for segments in integer coordinates; the
//! caller opens and closes `<a:path>` with the correct `w`/`h`.

use vstd::prelude::*;

use super::xml::{Xml, XmlEvent};
use crate::error::Error;
use crate::text::{chars_of, i64_to_string, int_text, push_char, push_str, string_of};

verus! {

// ---------------------------------------------------------------------------
// Grammar
// ---------------------------------------------------------------------------

/// Separators between commands and numbers.
pub open spec fn is_sep(c: char) -> bool {
    c == ' ' || c == '\t' || c == '\r' || c == '\n' || c == ','
}

/// An ASCII digit.
pub open spec fn is_digit(c: char) -> bool {
    '0' <= c && c <= '9'
}

/// An ASCII letter.
pub open spec fn is_letter(c: char) -> bool {
    ('a' <= c && c <= 'z') || ('A' <= c && c <= 'Z')
}

/// A character that can start a number.
pub open spec fn starts_number_char(c: char) -> bool {
    is_digit(c) || c == '-' || c == '+' || c == '.'
}

/// First position at or after `i` that is not a separator.
pub open spec fn skip_seps(s: Seq<char>, i: int) -> int
    decreases s.len() - i,
{
    if 0 <= i < s.len() && is_sep(s[i]) {
        skip_seps(s, i + 1)
    } else {
        i
    }
}

/// First position at or after `i` that is not a digit.
pub open spec fn digits_end(s: Seq<char>, i: int) -> int
    decreases s.len() - i,
{
    if 0 <= i < s.len() && is_digit(s[i]) {
        digits_end(s, i + 1)
    } else {
        i
    }
}

/// A sign character.
pub open spec fn is_sign(c: char) -> bool {
    c == '-' || c == '+'
}

/// The end of the exponent part that may follow a mantissa ending at `b`:
/// `e`/`E`, an optional sign and at least one digit, else nothing.
pub open spec fn exponent_end(s: Seq<char>, b: int) -> int {
    if 0 <= b < s.len() && (s[b] == 'e' || s[b] == 'E') {
        let m = if b + 1 < s.len() && is_sign(s[b + 1]) {
            b + 2
        } else {
            b + 1
        };
        let c = digits_end(s, m);
        if c == m {
            b
        } else {
            c
        }
    } else {
        b
    }
}

/// The number that starts after the separators at `i`: an optional sign,
/// digits, an optional `.` with digits (at least one digit in all) and an
/// optional exponent. Gives the end of the number's text, which starts at
/// `skip_seps(s, i)`.
pub open spec fn number_end(s: Seq<char>, i: int) -> Option<int> {
    let j = skip_seps(s, i);
    let k = if 0 <= j < s.len() && is_sign(s[j]) {
        j + 1
    } else {
        j
    };
    let a = digits_end(s, k);
    let has_point = 0 <= a < s.len() && s[a] == '.';
    let b = if has_point {
        digits_end(s, a + 1)
    } else {
        a
    };
    let frac = if has_point {
        b - (a + 1)
    } else {
        0
    };
    if a == k && frac == 0 {
        None
    } else {
        Some(exponent_end(s, b))
    }
}

/// Whether a number starts after the separators at `i`.
pub open spec fn number_ahead(s: Seq<char>, i: int) -> bool {
    let j = skip_seps(s, i);
    0 <= j < s.len() && starts_number_char(s[j])
}

/// `n` numbers read from `i`: their texts and the position after them.
pub open spec fn numbers_from(s: Seq<char>, i: int, n: nat) -> Option<(Seq<Seq<char>>, int)>
    decreases n,
{
    if n == 0 {
        Some((Seq::empty(), i))
    } else {
        match number_end(s, i) {
            None => None,
            Some(e) => match numbers_from(s, e, (n - 1) as nat) {
                None => None,
                Some((rest, end)) => Some((seq![s.subrange(skip_seps(s, i), e)] + rest, end)),
            },
        }
    }
}

/// How many numbers each command takes per repetition.
pub open spec fn arity(upper: char) -> nat {
    if upper == 'M' || upper == 'L' || upper == 'T' {
        2
    } else if upper == 'H' || upper == 'V' {
        1
    } else if upper == 'C' {
        6
    } else if upper == 'S' || upper == 'Q' {
        4
    } else if upper == 'A' {
        7
    } else {
        0
    }
}

/// The commands the parser accepts.
pub open spec fn is_command(upper: char) -> bool {
    upper == 'M' || upper == 'L' || upper == 'H' || upper == 'V' || upper == 'C' || upper == 'S'
        || upper == 'Q' || upper == 'T' || upper == 'A' || upper == 'Z'
}

/// ASCII uppercase of a letter.
pub open spec fn upper_of(c: char) -> char {
    if 'a' <= c && c <= 'z' {
        ((c as int) - 32) as char
    } else {
        c
    }
}

/// A number consumes at least one character.
pub proof fn lemma_number_progress(s: Seq<char>, i: int)
    requires
        0 <= i <= s.len(),
        number_end(s, i) is Some,
    ensures
        skip_seps(s, i) < number_end(s, i).unwrap() <= s.len(),
        i <= skip_seps(s, i),
{
    lemma_skip_seps_bounds(s, i);
    let j = skip_seps(s, i);
    let k = if 0 <= j < s.len() && is_sign(s[j]) {
        j + 1
    } else {
        j
    };
    lemma_digits_end_bounds(s, k);
    let a = digits_end(s, k);
    if 0 <= a < s.len() && s[a] == '.' {
        lemma_digits_end_bounds(s, a + 1);
    }
    let b = if 0 <= a < s.len() && s[a] == '.' {
        digits_end(s, a + 1)
    } else {
        a
    };
    if 0 <= b < s.len() && (s[b] == 'e' || s[b] == 'E') {
        let m = if b + 1 < s.len() && is_sign(s[b + 1]) {
            b + 2
        } else {
            b + 1
        };
        lemma_digits_end_bounds(s, m);
    }
}

pub proof fn lemma_skip_seps_bounds(s: Seq<char>, i: int)
    requires
        0 <= i <= s.len(),
    ensures
        i <= skip_seps(s, i) <= s.len(),
    decreases s.len() - i,
{
    if i < s.len() && is_sep(s[i]) {
        lemma_skip_seps_bounds(s, i + 1);
    }
}

pub proof fn lemma_digits_end_bounds(s: Seq<char>, i: int)
    requires
        0 <= i <= s.len(),
    ensures
        i <= digits_end(s, i) <= s.len(),
    decreases s.len() - i,
{
    if i < s.len() && is_digit(s[i]) {
        lemma_digits_end_bounds(s, i + 1);
    }
}

/// A pull-parser over an SVG path string.
pub struct Parser {
    chars: Vec<char>,
    pos: usize,
}

impl Parser {
    /// The characters of the path.
    pub closed spec fn text(self) -> Seq<char> {
        self.chars@
    }

    /// The read position.
    pub closed spec fn position(self) -> int {
        self.pos as int
    }

    /// A parser at the start of `d`.
    pub fn new(d: &str) -> (p: Self)
        ensures
            p.text() == d@,
            p.position() == 0,
    {
        Parser { chars: chars_of(d), pos: 0 }
    }

    /// Skip separators (whitespace and commas).
    pub fn skip(&mut self)
        requires
            old(self).position() <= old(self).text().len(),
        ensures
            final(self).text() == old(self).text(),
            final(self).position() == skip_seps(old(self).text(), old(self).position()),
    {
        let ghost start = self.pos as int;
        while self.pos < self.chars.len() && (self.chars[self.pos] == ' ' || self.chars[self.pos]
            == '\t' || self.chars[self.pos] == '\r' || self.chars[self.pos] == '\n'
            || self.chars[self.pos] == ',')
            invariant
                self.pos <= self.chars@.len(),
                self.chars@ == old(self).chars@,
                skip_seps(self.chars@, start) == skip_seps(self.chars@, self.pos as int),
            decreases self.chars.len() - self.pos,
        {
            self.pos = self.pos + 1;
        }
    }

    /// The next command letter, if the next non-separator is a letter.
    pub fn next_letter(&mut self) -> (r: Option<char>)
        requires
            old(self).position() <= old(self).text().len(),
        ensures
            final(self).text() == old(self).text(),
            ({
                let s = old(self).text();
                let j = skip_seps(s, old(self).position());
                if j < s.len() && is_letter(s[j]) {
                    r == Some(s[j]) && final(self).position() == j + 1
                } else {
                    r is None && final(self).position() == j
                }
            }),
    {
        proof {
            lemma_skip_seps_bounds(self.chars@, self.pos as int);
        }
        self.skip();
        if self.pos < self.chars.len() {
            let c = self.chars[self.pos];
            if ('a' <= c && c <= 'z') || ('A' <= c && c <= 'Z') {
                self.pos = self.pos + 1;
                return Some(c);
            }
        }
        None
    }

    /// Whether a number starts after the separators (which are skipped).
    pub fn peek_number(&mut self) -> (r: bool)
        requires
            old(self).position() <= old(self).text().len(),
        ensures
            final(self).text() == old(self).text(),
            final(self).position() == skip_seps(old(self).text(), old(self).position()),
            old(self).position() <= final(self).position() <= final(self).text().len(),
            r == number_ahead(old(self).text(), old(self).position()),
    {
        proof {
            lemma_skip_seps_bounds(self.chars@, self.pos as int);
        }
        self.skip();
        if self.pos < self.chars.len() {
            let c = self.chars[self.pos];
            ('0' <= c && c <= '9') || c == '-' || c == '+' || c == '.'
        } else {
            false
        }
    }

    /// Advance over digits; the number of digits passed.
    pub fn consume_digits(&mut self) -> (n: usize)
        requires
            old(self).position() <= old(self).text().len(),
        ensures
            final(self).text() == old(self).text(),
            final(self).position() == digits_end(old(self).text(), old(self).position()),
            n == final(self).position() - old(self).position(),
    {
        let start = self.pos;
        while self.pos < self.chars.len() && '0' <= self.chars[self.pos] && self.chars[self.pos] <= '9'
            invariant
                start <= self.pos <= self.chars@.len(),
                self.chars@ == old(self).chars@,
                digits_end(self.chars@, start as int) == digits_end(self.chars@, self.pos as int),
            decreases self.chars.len() - self.pos,
        {
            self.pos = self.pos + 1;
        }
        self.pos - start
    }

    /// The text of the next number, if one follows the separators.
    pub fn next_number(&mut self) -> (r: Option<String>)
        requires
            old(self).position() <= old(self).text().len(),
        ensures
            final(self).text() == old(self).text(),
            final(self).position() <= final(self).text().len(),
            match r {
                Some(t) => number_end(old(self).text(), old(self).position()) == Some(
                    final(self).position(),
                ) && t@ == old(self).text().subrange(
                    skip_seps(old(self).text(), old(self).position()),
                    final(self).position(),
                ),
                None => number_end(old(self).text(), old(self).position()) is None,
            },
    {
        proof {
            lemma_skip_seps_bounds(self.chars@, self.pos as int);
        }
        self.skip();
        let start = self.pos;
        let n = self.chars.len();
        if self.pos < n && (self.chars[self.pos] == '-' || self.chars[self.pos] == '+') {
            self.pos = self.pos + 1;
        }
        proof {
            lemma_digits_end_bounds(self.chars@, self.pos as int);
        }
        let int_digits = self.consume_digits();
        let mut frac_digits: usize = 0;
        if self.pos < n && self.chars[self.pos] == '.' {
            self.pos = self.pos + 1;
            proof {
                lemma_digits_end_bounds(self.chars@, self.pos as int);
            }
            frac_digits = self.consume_digits();
        }
        if int_digits == 0 && frac_digits == 0 {
            self.pos = start;
            return None;
        }
        if self.pos < n && (self.chars[self.pos] == 'e' || self.chars[self.pos] == 'E') {
            let exp_start = self.pos;
            self.pos = self.pos + 1;
            if self.pos < n && (self.chars[self.pos] == '-' || self.chars[self.pos] == '+') {
                self.pos = self.pos + 1;
            }
            proof {
                lemma_digits_end_bounds(self.chars@, self.pos as int);
            }
            if self.consume_digits() == 0 {
                self.pos = exp_start;
            }
        }
        let mut text: Vec<char> = Vec::new();
        let mut k = start;
        while k < self.pos
            invariant
                start <= k <= self.pos <= self.chars@.len(),
                text@ == self.chars@.subrange(start as int, k as int),
            decreases self.pos - k,
        {
            text.push(self.chars[k]);
            assert(self.chars@.subrange(start as int, k + 1) =~= self.chars@.subrange(
                start as int,
                k as int,
            ).push(self.chars@[k as int]));
            k = k + 1;
        }
        Some(string_of(&text))
    }

    /// `count` numbers in a row; `None` when one of them is missing.
    fn next_numbers(&mut self, count: usize) -> (r: Option<Vec<String>>)
        requires
            old(self).position() <= old(self).text().len(),
        ensures
            final(self).text() == old(self).text(),
            final(self).position() <= final(self).text().len(),
            match r {
                Some(v) => numbers_from(old(self).text(), old(self).position(), count as nat) == Some(
                    (v@.map_values(|t: String| t@), final(self).position()),
                ),
                None => numbers_from(old(self).text(), old(self).position(), count as nat) is None,
            },
    {
        let ghost s = self.chars@;
        let ghost p0 = self.pos as int;
        let mut out: Vec<String> = Vec::new();
        let mut i: usize = 0;
        while i < count
            invariant
                i <= count,
                self.chars@ == s,
                s == old(self).text(),
                p0 == old(self).position(),
                self.pos <= s.len(),
                numbers_from(s, p0, count as nat) == match numbers_from(s, self.pos as int, (count - i) as nat) {
                    None => None,
                    Some((rest, end)) => Some((out@.map_values(|t: String| t@) + rest, end)),
                },
            decreases count - i,
        {
            let ghost before = out@;
            let ghost here = self.pos as int;
            match self.next_number() {
                Some(t) => {
                    proof {
                        lemma_number_progress(s, here);
                    }
                    out.push(t);
                    assert(out@.map_values(|t: String| t@) =~= before.map_values(|t: String| t@).push(
                        s.subrange(skip_seps(s, here), self.pos as int),
                    ));
                    proof {
                        match numbers_from(s, self.pos as int, (count - i - 1) as nat) {
                            None => {},
                            Some((rest, end)) => {
                                assert(before.map_values(|t: String| t@) + (seq![
                                    s.subrange(skip_seps(s, here), self.pos as int),
                                ] + rest) =~= out@.map_values(|t: String| t@) + rest);
                            },
                        }
                    }
                },
                None => {
                    return None;
                },
            }
            i = i + 1;
        }
        assert(out@.map_values(|t: String| t@) + Seq::<Seq<char>>::empty() =~= out@.map_values(
            |t: String| t@,
        ));
        Some(out)
    }
}

pub proof fn lemma_numbers_progress(s: Seq<char>, i: int, n: nat)
    requires
        0 <= i <= s.len(),
    ensures
        numbers_from(s, i, n) matches Some((g, e)) ==> i <= e <= s.len() && (n > 0 ==> i < e)
            && g.len() == n,
    decreases n,
{
    if n > 0 {
        if number_end(s, i) is Some {
            lemma_number_progress(s, i);
            lemma_numbers_progress(s, number_end(s, i).unwrap(), (n - 1) as nat);
        }
    }
}

/// The repetitions of a command taking `n > 0` numbers each, from `i`:
/// while a number follows, `n` numbers are read; `None` when one is
/// missing. Gives the groups and the position after them.
pub open spec fn groups_from(s: Seq<char>, i: int, n: nat) -> Option<(Seq<Seq<Seq<char>>>, int)>
    decreases s.len() - i,
{
    let j = skip_seps(s, i);
    if i < 0 || i > s.len() || n == 0 || !number_ahead(s, i) {
        Some((Seq::empty(), j))
    } else {
        match numbers_from(s, j, n) {
            None => None,
            Some((g, e)) => {
                proof {
                    lemma_skip_seps_bounds(s, i);
                    lemma_numbers_progress(s, j, n);
                }
                if e <= i {
                    None
                } else {
                    match groups_from(s, e, n) {
                        None => None,
                        Some((gs, end)) => Some((seq![g] + gs, end)),
                    }
                }
            },
        }
    }
}

pub proof fn lemma_groups_end(s: Seq<char>, i: int, n: nat)
    requires
        0 <= i <= s.len(),
    ensures
        groups_from(s, i, n) matches Some((gs, e)) ==> i <= e <= s.len(),
    decreases s.len() - i,
{
    lemma_skip_seps_bounds(s, i);
    let j = skip_seps(s, i);
    if n > 0 && number_ahead(s, i) {
        lemma_numbers_progress(s, j, n);
        if let Some((g, e)) = numbers_from(s, j, n) {
            if e > i {
                lemma_groups_end(s, e, n);
            }
        }
    }
}

/// A path operation as text: its upper-case command, whether it was
/// written relative (lower-case), and its numbers.
#[derive(Debug, Clone, PartialEq)]
pub struct PathOp {
    pub command: char,
    pub relative: bool,
    pub numbers: Vec<String>,
}

/// The text view of an operation.
pub open spec fn op_view(op: PathOp) -> (char, bool, Seq<Seq<char>>) {
    (op.command, op.relative, op.numbers@.map_values(|t: String| t@))
}

/// The text views of operations.
pub open spec fn op_views(ops: Seq<PathOp>) -> Seq<(char, bool, Seq<Seq<char>>)> {
    ops.map_values(|op: PathOp| op_view(op))
}

/// The operations of a command's repetitions; after `M` the repetitions
/// are implicit `L`.
pub open spec fn ops_of(upper: char, relative: bool, gs: Seq<Seq<Seq<char>>>) -> Seq<(char, bool, Seq<Seq<char>>)> {
    Seq::new(
        gs.len(),
        |k: int|
            (
                if upper == 'M' && k > 0 {
                    'L'
                } else {
                    upper
                },
                relative,
                gs[k],
            ),
    )
}

/// Why a path does not parse.
#[derive(Debug, Clone, Copy, PartialEq, Eq)]
pub enum PathError {
    /// A letter that is not one of the supported commands (upper-cased).
    Unsupported(char),
    /// A command with an incomplete group of numbers, or `M` without any.
    Malformed,
    /// No operation at all.
    Empty,
}

/// `ops` in front of a parse result.
pub open spec fn prepend(
    ops: Seq<(char, bool, Seq<Seq<char>>)>,
    r: Result<Seq<(char, bool, Seq<Seq<char>>)>, PathError>,
) -> Result<Seq<(char, bool, Seq<Seq<char>>)>, PathError> {
    match r {
        Ok(rest) => Ok(ops + rest),
        Err(e) => Err(e),
    }
}

/// The operations from position `i` on. Parsing stops quietly at the end
/// or at anything that is neither a letter nor a separator.
pub open spec fn parse_from(s: Seq<char>, i: int) -> Result<Seq<(char, bool, Seq<Seq<char>>)>, PathError>
    decreases s.len() - i,
{
    let j = skip_seps(s, i);
    if i < 0 || i > s.len() {
        Ok(Seq::empty())
    } else if !(j < s.len() && is_letter(s[j])) {
        Ok(Seq::empty())
    } else {
        proof {
            lemma_skip_seps_bounds(s, i);
        }
        let c = s[j];
        let up = upper_of(c);
        let rel = 'a' <= c && c <= 'z';
        if up == 'Z' {
            prepend(seq![('Z', rel, Seq::empty())], parse_from(s, j + 1))
        } else if !is_command(up) {
            Err(PathError::Unsupported(up))
        } else {
            proof {
                lemma_groups_end(s, j + 1, arity(up));
            }
            match groups_from(s, j + 1, arity(up)) {
                None => Err(PathError::Malformed),
                Some((gs, e)) => if up == 'M' && gs.len() == 0 {
                    Err(PathError::Malformed)
                } else {
                    prepend(ops_of(up, rel, gs), parse_from(s, e))
                },
            }
        }
    }
}

/// The operations of a whole path; a path without any is an error.
pub open spec fn parse_spec(s: Seq<char>) -> Result<Seq<(char, bool, Seq<Seq<char>>)>, PathError> {
    match parse_from(s, 0) {
        Ok(ops) => if ops.len() == 0 {
            Err(PathError::Empty)
        } else {
            Ok(ops)
        },
        Err(e) => Err(e),
    }
}

/// How many numbers an operation of each command holds, by the SVG path
/// grammar: two for `M`, `L` and `T`, one for `H` and `V`, six for `C`,
/// four for `S` and `Q` (a control point and an end point), seven for `A`,
/// none for `Z`.
pub open spec fn holds_grammar_count(op: (char, bool, Seq<Seq<char>>)) -> bool {
    let (c, _, nums) = op;
    &&& (c == 'M' || c == 'L' || c == 'T') ==> nums.len() == 2
    &&& (c == 'H' || c == 'V') ==> nums.len() == 1
    &&& c == 'C' ==> nums.len() == 6
    &&& (c == 'S' || c == 'Q') ==> nums.len() == 4
    &&& c == 'A' ==> nums.len() == 7
    &&& c == 'Z' ==> nums.len() == 0
}

proof fn lemma_groups_sizes(s: Seq<char>, i: int, n: nat)
    requires
        0 <= i <= s.len(),
    ensures
        groups_from(s, i, n) matches Some((gs, e)) ==> forall|k: int| 0 <= k < gs.len() ==> (#[trigger] gs[k]).len() == n,
    decreases s.len() - i,
{
    lemma_skip_seps_bounds(s, i);
    let j = skip_seps(s, i);
    if n > 0 && number_ahead(s, i) {
        lemma_numbers_progress(s, j, n);
        if let Some((g, e)) = numbers_from(s, j, n) {
            if e > i {
                lemma_groups_sizes(s, e, n);
                if let Some((gs, end)) = groups_from(s, e, n) {
                    let all = seq![g] + gs;
                    assert forall|k: int| 0 <= k < all.len() implies (#[trigger] all[k]).len() == n by {
                        if k > 0 {
                            assert(all[k] == gs[k - 1]);
                        }
                    }
                }
            }
        }
    }
}

proof fn lemma_parse_from_counts(s: Seq<char>, i: int)
    ensures
        parse_from(s, i) matches Ok(ops) ==> forall|k: int| 0 <= k < ops.len() ==> holds_grammar_count(#[trigger] ops[k]),
    decreases s.len() - i,
{
    let j = skip_seps(s, i);
    if 0 <= i <= s.len() && j < s.len() && is_letter(s[j]) {
        lemma_skip_seps_bounds(s, i);
        let c = s[j];
        let up = upper_of(c);
        let rel = 'a' <= c && c <= 'z';
        if up == 'Z' {
            lemma_parse_from_counts(s, j + 1);
            if let Ok(rest) = parse_from(s, j + 1) {
                let all = seq![('Z', rel, Seq::<Seq<char>>::empty())] + rest;
                assert forall|k: int| 0 <= k < all.len() implies holds_grammar_count(#[trigger] all[k]) by {
                    if k > 0 {
                        assert(all[k] == rest[k - 1]);
                    }
                }
            }
        } else if is_command(up) {
            lemma_groups_end(s, j + 1, arity(up));
            lemma_groups_sizes(s, j + 1, arity(up));
            if let Some((gs, e)) = groups_from(s, j + 1, arity(up)) {
                lemma_parse_from_counts(s, e);
                if let Ok(rest) = parse_from(s, e) {
                    let first = ops_of(up, rel, gs);
                    let all = first + rest;
                    assert forall|k: int| 0 <= k < all.len() implies holds_grammar_count(#[trigger] all[k]) by {
                        if k < first.len() {
                            assert(all[k] == first[k]);
                            assert(gs[k].len() == arity(up));
                        } else {
                            assert(all[k] == rest[k - first.len()]);
                        }
                    }
                }
            }
        }
    }
}

/// Every operation a path parses into holds exactly the numbers its
/// command takes by the SVG grammar (see [`holds_grammar_count`]): a `Q`
/// with four numbers after it gives one quadratic with its control point
/// and end point, not two half curves.
pub proof fn lemma_parse_counts(s: Seq<char>)
    ensures
        parse_spec(s) matches Ok(ops) ==> forall|k: int| 0 <= k < ops.len() ==> holds_grammar_count(#[trigger] ops[k]),
{
    lemma_parse_from_counts(s, 0);
}

/// The message of a parse error for the path `d`.
pub open spec fn path_error_message(e: PathError, d: Seq<char>) -> Seq<char> {
    match e {
        PathError::Unsupported(c) => "unsupported SVG path command `"@ + seq![c] + "`"@,
        PathError::Malformed => "malformed SVG path `"@ + d + "`"@,
        PathError::Empty => "empty SVG path `"@ + d + "`"@,
    }
}

fn bad(d: &str) -> (e: Error)
    ensures
        e matches Error::Invalid(m) && m@ == path_error_message(PathError::Malformed, d@),
{
    let mut m = String::from_str("malformed SVG path `");
    push_str(&mut m, d);
    push_str(&mut m, "`");
    Error::Invalid(m)
}

fn arity_of(up: char) -> (n: usize)
    ensures
        n == arity(up),
{
    if up == 'M' || up == 'L' || up == 'T' {
        2
    } else if up == 'H' || up == 'V' {
        1
    } else if up == 'C' {
        6
    } else if up == 'S' || up == 'Q' {
        4
    } else if up == 'A' {
        7
    } else {
        0
    }
}

/// Read the repetitions of command `up` (taking `n` numbers each) and
/// append one operation per repetition; false when a group is incomplete.
fn read_groups(p: &mut Parser, up: char, relative: bool, n: usize, ops: &mut Vec<PathOp>) -> (ok: bool)
    requires
        old(p).position() <= old(p).text().len(),
        n == arity(up),
        n > 0,
    ensures
        final(p).text() == old(p).text(),
        final(p).position() <= final(p).text().len(),
        ok ==> old(p).position() <= final(p).position(),
        match groups_from(old(p).text(), old(p).position(), n as nat) {
            None => !ok,
            Some((gs, e)) => ok && final(p).position() == e && op_views(final(ops)@) == op_views(
                old(ops)@,
            ) + ops_of(up, relative, gs),
        },
{
    let ghost s = p.text();
    let ghost q0 = p.position();
    let ghost base = op_views(ops@);
    let ghost mut gs: Seq<Seq<Seq<char>>> = Seq::empty();
    let mut reps: usize = 0;
    assert(base + ops_of(up, relative, gs) =~= base);
    proof {
        lemma_groups_end(s, q0, n as nat);
    }
    while p.peek_number()
        invariant
            p.text() == s,
            s == old(p).text(),
            q0 == old(p).position(),
            base == op_views(old(ops)@),
            0 <= q0 <= p.position() <= s.len(),
            n == arity(up),
            n > 0,
            reps == gs.len(),
            reps <= p.position(),
            op_views(ops@) == base + ops_of(up, relative, gs),
            groups_from(s, q0, n as nat) == match groups_from(s, p.position(), n as nat) {
                None => None,
                Some((g, e)) => Some((gs + g, e)),
            },
        decreases s.len() - p.position(),
    {
        let ghost at = p.position();
        match p.next_numbers(n) {
            None => {
                return false;
            },
            Some(nums) => {
                let command = if up == 'M' && reps > 0 {
                    'L'
                } else {
                    up
                };
                proof {
                    lemma_numbers_progress(s, at, n as nat);
                }
                let ghost before = ops@;
                let ghost g = nums@.map_values(|t: String| t@);
                let op = PathOp { command, relative, numbers: nums };
                assert(op_view(op) == (command, relative, g));
                ops.push(op);
                proof {
                    assert(op_views(ops@) =~= op_views(before).push(op_view(op)));
                    assert(ops_of(up, relative, gs.push(g)) =~= ops_of(up, relative, gs).push(
                        (command, relative, g),
                    ));
                    match groups_from(s, p.position(), n as nat) {
                        None => {},
                        Some((rest, e)) => {
                            assert(gs + (seq![g] + rest) =~= gs.push(g) + rest);
                        },
                    }
                    gs = gs.push(g);
                }
                reps = reps + 1;
            },
        }
    }
    assert(gs + Seq::<Seq<Seq<char>>>::empty() =~= gs);
    true
}

/// Split `d` into path operations: a command letter followed by its
/// groups of numbers.
pub fn parse(d: &str) -> (r: Result<Vec<PathOp>, Error>)
    ensures
        match r {
            Ok(ops) => parse_spec(d@) == Ok::<_, PathError>(op_views(ops@)),
            Err(Error::Invalid(m)) => parse_spec(d@) matches Err(e) && m@ == path_error_message(e, d@),
            Err(_) => false,
        },
{
    let mut p = Parser::new(d);
    let ghost s = d@;
    let mut ops: Vec<PathOp> = Vec::new();
    let mut done = false;
    while !done
        invariant
            p.text() == s,
            s == d@,
            0 <= p.position() <= s.len(),
            !done ==> parse_from(s, 0) == prepend(op_views(ops@), parse_from(s, p.position())),
            done ==> parse_from(s, 0) == Ok::<_, PathError>(op_views(ops@)),
        decreases (if done {
            0
        } else {
            s.len() - p.position() + 1
        }),
    {
        let ghost here = p.position();
        proof {
            lemma_skip_seps_bounds(s, here);
        }
        match p.next_letter() {
            None => {
                assert(op_views(ops@) + Seq::empty() =~= op_views(ops@));
                done = true;
            },
            Some(c) => {
                let ghost j = p.position() - 1;
                let relative = 'a' <= c && c <= 'z';
                let up = if relative {
                    ((c as u8) - 32) as char
                } else {
                    c
                };
                assert(up == upper_of(c));
                if up == 'Z' {
                    let ghost before = op_views(ops@);
                    let nums: Vec<String> = Vec::new();
                    assert(nums@.map_values(|t: String| t@) =~= Seq::<Seq<char>>::empty());
                    ops.push(PathOp { command: 'Z', relative, numbers: nums });
                    assert(op_views(ops@) =~= before + seq![('Z', relative, Seq::<Seq<char>>::empty())]);
                    assert(prepend(before, prepend(seq![('Z', relative, Seq::<Seq<char>>::empty())], parse_from(s, p.position())))
                        == prepend(op_views(ops@), parse_from(s, p.position()))) by {
                        match parse_from(s, p.position()) {
                            Ok(rest) => {
                                assert(before + (seq![('Z', relative, Seq::<Seq<char>>::empty())] + rest) =~= op_views(ops@) + rest);
                            },
                            Err(_) => {},
                        }
                    }
                } else if up == 'M' || up == 'L' || up == 'H' || up == 'V' || up == 'C' || up == 'S'
                    || up == 'Q' || up == 'T' || up == 'A' {
                    let n = arity_of(up);
                    let ghost before = op_views(ops@);
                    let ghost q0 = p.position();
                    let count_before = ops.len();
                    let ok = read_groups(&mut p, up, relative, n, &mut ops);
                    if !ok {
                        return Err(bad(d));
                    }
                    let ghost gs = groups_from(s, q0, n as nat).unwrap().0;
                    if up == 'M' && ops.len() == count_before {
                        return Err(bad(d));
                    }
                    assert(prepend(before, prepend(ops_of(up, relative, gs), parse_from(s, p.position())))
                        == prepend(op_views(ops@), parse_from(s, p.position()))) by {
                        match parse_from(s, p.position()) {
                            Ok(rest) => {
                                assert(before + (ops_of(up, relative, gs) + rest) =~= op_views(ops@) + rest);
                            },
                            Err(_) => {},
                        }
                    }
                } else {
                    let mut m = String::from_str("unsupported SVG path command `");
                    push_char(&mut m, up);
                    push_str(&mut m, "`");
                    return Err(Error::Invalid(m));
                }
            },
        }
    }
    if ops.len() == 0 {
        let mut m = String::from_str("empty SVG path `");
        push_str(&mut m, d);
        push_str(&mut m, "`");
        return Err(Error::Invalid(m));
    }
    Ok(ops)
}

// ---------------------------------------------------------------------------
// Emitting
// ---------------------------------------------------------------------------

/// A point in path units, rounded to integers.
pub type Pt = (i64, i64);

/// One geometry segment in absolute integer coordinates.
#[derive(Debug, Clone, Copy, PartialEq, Eq)]
pub enum Seg {
    MoveTo(Pt),
    LineTo(Pt),
    /// Control point 1, control point 2, end.
    Cubic([Pt; 3]),
    /// Control point, end.
    Quad([Pt; 2]),
    Close,
}

/// The `a:pt` element of a point.
pub open spec fn pt_event(p: Pt) -> XmlEvent {
    XmlEvent::Leaf("a:pt"@, seq![("x"@, int_text(p.0 as int)), ("y"@, int_text(p.1 as int))])
}

/// The elements of one segment.
pub open spec fn seg_events(seg: Seg) -> Seq<XmlEvent> {
    match seg {
        Seg::MoveTo(p) => seq![XmlEvent::Open("a:moveTo"@, seq![]), pt_event(p), XmlEvent::Close("a:moveTo"@)],
        Seg::LineTo(p) => seq![XmlEvent::Open("a:lnTo"@, seq![]), pt_event(p), XmlEvent::Close("a:lnTo"@)],
        Seg::Cubic(pts) => seq![
            XmlEvent::Open("a:cubicBezTo"@, seq![]),
            pt_event(pts@[0]),
            pt_event(pts@[1]),
            pt_event(pts@[2]),
            XmlEvent::Close("a:cubicBezTo"@),
        ],
        Seg::Quad(pts) => seq![
            XmlEvent::Open("a:quadBezTo"@, seq![]),
            pt_event(pts@[0]),
            pt_event(pts@[1]),
            XmlEvent::Close("a:quadBezTo"@),
        ],
        Seg::Close => seq![XmlEvent::Leaf("a:close"@, seq![])],
    }
}

/// The elements of a path's segments, in order.
pub open spec fn path_events(segs: Seq<Seg>) -> Seq<XmlEvent>
    decreases segs.len(),
{
    if segs.len() == 0 {
        Seq::empty()
    } else {
        path_events(segs.drop_last()) + seg_events(segs.last())
    }
}

fn point(x: &mut Xml, p: Pt)
    ensures
        final(x).events() == old(x).events().push(pt_event(p)),
        final(x).depth() == old(x).depth(),
        final(x).head() == old(x).head(),
{
    let px = i64_to_string(p.0);
    let py = i64_to_string(p.1);
    x.leaf_with2("a:pt", "x", px.as_str(), "y", py.as_str());
}

/// Write the path commands of `segs` into `xml` (inside an open `<a:path>`
/// element).
#[verifier::spinoff_prover]
#[verifier::rlimit(40)]
pub fn emit_path_children(xml: &mut Xml, segs: &[Seg])
    requires
        old(xml).depth() < usize::MAX,
    ensures
        final(xml).events() == old(xml).events() + path_events(segs@),
        final(xml).depth() == old(xml).depth(),
        final(xml).head() == old(xml).head(),
{
    let ghost e0 = xml.events();
    let mut i: usize = 0;
    assert(segs@.take(0) =~= Seq::<Seg>::empty());
    assert(e0 + path_events(Seq::<Seg>::empty()) =~= e0);
    while i < segs.len()
        invariant
            i <= segs@.len(),
            xml.depth() == old(xml).depth(),
            xml.depth() < usize::MAX,
            xml.head() == old(xml).head(),
            e0 == old(xml).events(),
            xml.events() == e0 + path_events(segs@.take(i as int)),
        decreases segs.len() - i,
    {
        let ghost before = xml.events();
        let seg = segs[i];
        match seg {
            Seg::MoveTo(p) => {
                xml.open("a:moveTo");
                point(xml, p);
                xml.end("a:moveTo");
            },
            Seg::LineTo(p) => {
                xml.open("a:lnTo");
                point(xml, p);
                xml.end("a:lnTo");
            },
            Seg::Cubic(pts) => {
                xml.open("a:cubicBezTo");
                point(xml, pts[0]);
                point(xml, pts[1]);
                point(xml, pts[2]);
                xml.end("a:cubicBezTo");
            },
            Seg::Quad(pts) => {
                xml.open("a:quadBezTo");
                point(xml, pts[0]);
                point(xml, pts[1]);
                xml.end("a:quadBezTo");
            },
            Seg::Close => {
                xml.empty("a:close");
            },
        }
        assert(xml.events() =~= before + seg_events(seg));
        assert(segs@.take(i + 1).drop_last() =~= segs@.take(i as int));
        i = i + 1;
        assert(xml.events() =~= e0 + path_events(segs@.take(i as int)));
    }
    assert(segs@.take(i as int) =~= segs@);
}

} // verus!
