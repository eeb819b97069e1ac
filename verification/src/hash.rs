//! Sync-point bookkeeping (`.sync.hash` sidecar).
//!
//! One sidecar in the PPTD work directory records, for every file this
//! project has legitimately written, the SHA-256 the file had at that
//! moment. Format: a `<hash>` line followed by its `<path>` line, repeated.
//!
//! `convert` records the source it converted; `build` records the output it
//! wrote. Before a `build` overwrites an existing file, that file's current
//! hash is computed and compared with the recorded value; a mismatch means
//! an external edit the PPTD cannot vouch for, and the build refuses.
//!
//! Older builds kept the convert source in `.src.hash` (optionally without a
//! path line) and, briefly, the last build output in `.build.hash`. Those
//! sidecars use the same pair format; they are absorbed into the records on
//! load and removed on the next save.
//!
//! This module holds the text formats, the records and the guard decision;
//! reading and writing the sidecar files is left to the caller.

use sha2::Digest;
use vstd::prelude::*;

use crate::text::{chars_of, is_ws, push_char, push_str, string_of, trim, trim_chars, trim_end, trim_start};

verus! {

/// Name of the current sidecar inside the work directory.
pub const SYNC_SIDECAR: &'static str = ".sync.hash";

/// Names of the legacy sidecars, in the order they are absorbed.
pub const LEGACY_SIDECARS: [&'static str; 2] = [".src.hash", ".build.hash"];

// ---------------------------------------------------------------------------
// Line scanning
// ---------------------------------------------------------------------------

/// The trimmed line as a one-element sequence, or nothing when it is blank.
pub open spec fn keep(line: Seq<char>) -> Seq<Seq<char>> {
    if trim(line).len() == 0 {
        Seq::empty()
    } else {
        seq![trim(line)]
    }
}

/// Left-to-right scan of `s`: the trimmed non-blank lines finished so far
/// and the text of the line still open.
pub open spec fn scan(s: Seq<char>) -> (Seq<Seq<char>>, Seq<char>)
    decreases s.len(),
{
    if s.len() == 0 {
        (Seq::empty(), Seq::empty())
    } else {
        let (done, open) = scan(s.drop_last());
        if s.last() == '\n' {
            (done + keep(open), Seq::empty())
        } else {
            (done, open.push(s.last()))
        }
    }
}

/// The lines of `s`, each trimmed, blank ones dropped
/// (`s.lines().map(str::trim).filter(|l| !l.is_empty())`).
pub open spec fn tokens(s: Seq<char>) -> Seq<Seq<char>> {
    scan(s).0 + keep(scan(s).1)
}

/// A lowercase ASCII hexadecimal digit.
pub open spec fn is_hex_digit(c: char) -> bool {
    ('0' <= c && c <= '9') || ('a' <= c && c <= 'f')
}

/// A 64-character lowercase hex string.
pub open spec fn is_hash(s: Seq<char>) -> bool {
    s.len() == 64 && forall|i: int| 0 <= i < s.len() ==> is_hex_digit(#[trigger] s[i])
}

/// True for a 64-character lowercase hex string.
pub fn is_hash_text(text: &str) -> (r: bool)
    ensures
        r == is_hash(text@),
{
    let cs = chars_of(text);
    if cs.len() != 64 {
        return false;
    }
    let mut i: usize = 0;
    while i < cs.len()
        invariant
            cs@ == text@,
            i <= cs.len(),
            forall|k: int| 0 <= k < i ==> is_hex_digit(#[trigger] cs@[k]),
        decreases cs.len() - i,
    {
        let c = cs[i];
        if !(('0' <= c && c <= '9') || ('a' <= c && c <= 'f')) {
            assert(!is_hex_digit(text@[i as int]));
            return false;
        }
        i = i + 1;
    }
    true
}

/// The trimmed, non-blank lines of `text`.
pub fn token_lines(text: &str) -> (r: Vec<String>)
    ensures
        r@.map_values(|t: String| t@) == tokens(text@),
{
    let cs = chars_of(text);
    let mut done: Vec<String> = Vec::new();
    let mut open: Vec<char> = Vec::new();
    let mut i: usize = 0;
    while i < cs.len()
        invariant
            cs@ == text@,
            i <= cs.len(),
            done@.map_values(|t: String| t@) == scan(cs@.take(i as int)).0,
            open@ == scan(cs@.take(i as int)).1,
        decreases cs.len() - i,
    {
        let c = cs[i];
        assert(cs@.take(i + 1).drop_last() =~= cs@.take(i as int));
        if c == '\n' {
            let t = trim_chars(&open);
            let ghost before = done@;
            if t.len() > 0 {
                done.push(string_of(&t));
                assert(done@.map_values(|t: String| t@) =~= before.map_values(|t: String| t@).push(
                    trim(open@),
                ));
            } else {
                assert(keep(open@) =~= Seq::<Seq<char>>::empty());
            }
            open = Vec::new();
        } else {
            open.push(c);
        }
        i = i + 1;
    }
    assert(cs@.take(i as int) =~= cs@);
    let t = trim_chars(&open);
    if t.len() > 0 {
        let ghost before = done@;
        done.push(string_of(&t));
        assert(done@.map_values(|t: String| t@) =~= before.map_values(|t: String| t@).push(
            trim(open@),
        ));
    } else {
        assert(keep(open@) =~= Seq::<Seq<char>>::empty());
    }
    done
}

// ---------------------------------------------------------------------------
// Path order
// ---------------------------------------------------------------------------

/// Order of two characters in the key order: the separator `/` sorts
/// before every other character, the rest by code point.
pub open spec fn char_before(x: char, y: char) -> bool {
    if x == '/' {
        y != '/'
    } else if y == '/' {
        false
    } else {
        x < y
    }
}

/// The order in which records are kept and written: character by
/// character by [`char_before`], a proper prefix first. For normalized paths
/// this is the component-wise order of `std::path::Path`.
pub open spec fn path_before(a: Seq<char>, b: Seq<char>) -> bool
    decreases a.len(),
{
    if a.len() == 0 {
        b.len() > 0
    } else if b.len() == 0 {
        false
    } else if a[0] == b[0] {
        path_before(a.skip(1), b.skip(1))
    } else {
        char_before(a[0], b[0])
    }
}

/// No path is before itself.
pub proof fn lemma_path_before_irreflexive(a: Seq<char>)
    ensures
        !path_before(a, a),
    decreases a.len(),
{
    if a.len() > 0 {
        lemma_path_before_irreflexive(a.skip(1));
    }
}

/// Of two different paths, one is before the other.
pub proof fn lemma_path_before_total(a: Seq<char>, b: Seq<char>)
    ensures
        a != b ==> path_before(a, b) || path_before(b, a),
    decreases a.len(),
{
    if a.len() > 0 && b.len() > 0 {
        if a[0] == b[0] {
            lemma_path_before_total(a.skip(1), b.skip(1));
            if a.skip(1) == b.skip(1) {
                assert(a =~= seq![a[0]] + a.skip(1));
                assert(b =~= seq![b[0]] + b.skip(1));
            }
        } else {
            assert(path_before(a, b) || path_before(b, a));
        }
    } else if a.len() == 0 && b.len() == 0 {
        assert(a =~= b);
    } else if a.len() == 0 {
        assert(path_before(a, b));
    } else {
        assert(path_before(b, a));
    }
}

/// The key order is transitive.
pub proof fn lemma_path_before_transitive(a: Seq<char>, b: Seq<char>, c: Seq<char>)
    requires
        path_before(a, b),
        path_before(b, c),
    ensures
        path_before(a, c),
    decreases a.len(),
{
    if a.len() > 0 && a[0] == b[0] && b[0] == c[0] {
        lemma_path_before_transitive(a.skip(1), b.skip(1), c.skip(1));
    }
}

/// The path order is asymmetric: no two paths come each before the other.
pub proof fn lemma_path_before_asymmetric(a: Seq<char>, b: Seq<char>)
    ensures
        path_before(a, b) ==> !path_before(b, a),
    decreases a.len(),
{
    if a.len() > 0 && b.len() > 0 && a[0] == b[0] {
        lemma_path_before_asymmetric(a.skip(1), b.skip(1));
    }
}

fn char_less(x: char, y: char) -> (r: bool)
    ensures
        r == char_before(x, y),
{
    if x == '/' {
        y != '/'
    } else if y == '/' {
        false
    } else {
        x < y
    }
}

/// Whether `a` sorts before `b` in the record order.
pub fn path_less(a: &str, b: &str) -> (r: bool)
    ensures
        r == path_before(a@, b@),
{
    let x = chars_of(a);
    let y = chars_of(b);
    let mut i: usize = 0;
    assert(x@.skip(0) =~= x@);
    assert(y@.skip(0) =~= y@);
    while i < x.len() && i < y.len()
        invariant
            x@ == a@,
            y@ == b@,
            i <= x.len(),
            i <= y.len(),
            path_before(a@, b@) == path_before(x@.skip(i as int), y@.skip(i as int)),
        decreases x.len() - i,
    {
        if x[i] != y[i] {
            return char_less(x[i], y[i]);
        }
        assert(x@.skip(i as int).skip(1) =~= x@.skip(i + 1));
        assert(y@.skip(i as int).skip(1) =~= y@.skip(i + 1));
        i = i + 1;
    }
    i < y.len()
}

// ---------------------------------------------------------------------------
// Records
// ---------------------------------------------------------------------------

/// Records as (path, hash) pairs.
pub open spec fn pairs_map(es: Seq<(Seq<char>, Seq<char>)>) -> Map<Seq<char>, Seq<char>>
    decreases es.len(),
{
    if es.len() == 0 {
        Map::empty()
    } else {
        pairs_map(es.drop_last()).insert(es.last().0, es.last().1)
    }
}

/// Paths strictly increasing in the record order (so none occurs twice).
pub open spec fn keys_sorted(es: Seq<(Seq<char>, Seq<char>)>) -> bool {
    forall|i: int, j: int| 0 <= i < j < es.len() ==> path_before(#[trigger] es[i].0, #[trigger] es[j].0)
}

/// No path occurs twice.
pub open spec fn keys_unique(es: Seq<(Seq<char>, Seq<char>)>) -> bool {
    forall|i: int, j: int| 0 <= i < j < es.len() ==> #[trigger] es[i].0 != #[trigger] es[j].0
}

/// The sidecar text for the pairs: a hash line, then its path line, per
/// pair in order.
pub open spec fn pairs_text(es: Seq<(Seq<char>, Seq<char>)>) -> Seq<char>
    decreases es.len(),
{
    if es.len() == 0 {
        Seq::empty()
    } else {
        pairs_text(es.drop_last()) + es.last().1 + seq!['\n'] + es.last().0 + seq!['\n']
    }
}

/// Sorted keys are unique.
pub proof fn lemma_sorted_unique(es: Seq<(Seq<char>, Seq<char>)>)
    requires
        keys_sorted(es),
    ensures
        keys_unique(es),
{
    assert forall|i: int, j: int| 0 <= i < j < es.len() implies #[trigger] es[i].0
        != #[trigger] es[j].0 by {
        lemma_path_before_irreflexive(es[i].0);
    }
}

/// With unique paths, each pair is what the map holds for its path, and
/// the map holds nothing else.
pub proof fn lemma_pairs_map(es: Seq<(Seq<char>, Seq<char>)>)
    requires
        keys_unique(es),
    ensures
        forall|i: int|
            0 <= i < es.len() ==> #[trigger] pairs_map(es).contains_key(es[i].0) && pairs_map(
                es,
            )[es[i].0] == es[i].1,
        forall|k: Seq<char>|
            #[trigger] pairs_map(es).contains_key(k) ==> exists|i: int|
                0 <= i < es.len() && es[i].0 == k,
    decreases es.len(),
{
    if es.len() > 0 {
        let prev = es.drop_last();
        assert(keys_unique(prev)) by {
            assert forall|i: int, j: int| 0 <= i < j < prev.len() implies #[trigger] prev[i].0
                != #[trigger] prev[j].0 by {
                assert(es[i].0 != es[j].0);
            }
        }
        lemma_pairs_map(prev);
        assert forall|i: int| 0 <= i < es.len() implies #[trigger] pairs_map(es).contains_key(
            es[i].0,
        ) && pairs_map(es)[es[i].0] == es[i].1 by {
            if i < es.len() - 1 {
                assert(prev[i] == es[i]);
                assert(es[i].0 != es[es.len() - 1].0);
                assert(pairs_map(prev).contains_key(prev[i].0));
            } else {
                assert(es[i] == es.last());
            }
        }
        assert forall|k: Seq<char>| #[trigger] pairs_map(es).contains_key(k) implies exists|i: int|
            0 <= i < es.len() && es[i].0 == k by {
            if k == es.last().0 {
                assert(es[es.len() - 1].0 == k);
            } else {
                assert(pairs_map(prev).contains_key(k));
                let i = choose|i: int| 0 <= i < prev.len() && prev[i].0 == k;
                assert(es[i].0 == k);
            }
        }
    }
}

/// Two pair sequences with unique paths and the same pairs up to order
/// give the same map.
proof fn lemma_pairs_map_ext(es: Seq<(Seq<char>, Seq<char>)>, m: Map<Seq<char>, Seq<char>>)
    requires
        keys_unique(es),
        forall|i: int| 0 <= i < es.len() ==> #[trigger] m.contains_key(es[i].0) && m[es[i].0]
            == es[i].1,
        forall|k: Seq<char>| #[trigger] m.contains_key(k) ==> exists|i: int|
            0 <= i < es.len() && es[i].0 == k,
    ensures
        pairs_map(es) == m,
{
    lemma_pairs_map(es);
    assert forall|k: Seq<char>| #[trigger] pairs_map(es).contains_key(k) <==> m.contains_key(k) by {
        if m.contains_key(k) {
            let i = choose|i: int| 0 <= i < es.len() && es[i].0 == k;
            assert(pairs_map(es).contains_key(es[i].0));
        }
        if pairs_map(es).contains_key(k) {
            let i = choose|i: int| 0 <= i < es.len() && es[i].0 == k;
            assert(m.contains_key(es[i].0));
        }
    }
    assert forall|k: Seq<char>| #[trigger] pairs_map(es).contains_key(k) implies pairs_map(es)[k]
        == m[k] by {
        let i = choose|i: int| 0 <= i < es.len() && es[i].0 == k;
        assert(m.contains_key(es[i].0));
    }
    assert(pairs_map(es) =~= m);
}

/// A legacy sidecar record: hash plus, when known, the file it refers to.
#[derive(Debug, Clone, PartialEq, Eq)]
pub struct SyncPoint {
    pub hash: String,
    pub path: Option<String>,
}

/// Sync records for a work directory: file path → hash at the last
/// legitimate write of that file by this project.
#[derive(Debug)]
pub struct Records {
    /// (path, hash), strictly increasing by path in the record order.
    entries: Vec<(String, String)>,
    /// Hash from a legacy path-less `.src.hash`. It names no file, so it can
    /// only be re-bound to the file being converted.
    legacy_hash: Option<String>,
    /// Whether any legacy sidecar was found on load (removed on save).
    legacy_present: bool,
}

/// The pairs of `entries` as text.
pub open spec fn entry_views(entries: Seq<(String, String)>) -> Seq<(Seq<char>, Seq<char>)> {
    entries.map_values(|e: (String, String)| (e.0@, e.1@))
}

impl View for Records {
    type V = Map<Seq<char>, Seq<char>>;

    /// Path → recorded hash.
    open spec fn view(&self) -> Map<Seq<char>, Seq<char>> {
        pairs_map(self.entries_view())
    }
}

impl Records {
    #[verifier::type_invariant]
    closed spec fn wf(self) -> bool {
        keys_sorted(entry_views(self.entries@))
    }

    /// The (path, hash) pairs in the order they are kept and saved.
    pub closed spec fn entries_view(self) -> Seq<(Seq<char>, Seq<char>)> {
        entry_views(self.entries@)
    }

    /// The hash of a legacy path-less sidecar, if one was absorbed.
    pub closed spec fn legacy_hash_view(self) -> Option<Seq<char>> {
        match self.legacy_hash {
            Some(h) => Some(h@),
            None => None,
        }
    }

    /// Whether a legacy sidecar was absorbed.
    pub closed spec fn legacy_view(self) -> bool {
        self.legacy_present
    }

    /// The kept pairs are sorted by path.
    pub fn entries_sorted(&self)
        ensures
            keys_sorted(self.entries_view()),
    {
        proof {
            use_type_invariant(self);
        }
    }

    /// No records at all.
    pub fn new() -> (r: Records)
        ensures
            r.entries_view().len() == 0,
            r@ == Map::<Seq<char>, Seq<char>>::empty(),
            r.legacy_hash_view() is None,
            !r.legacy_view(),
    {
        let r = Records { entries: Vec::new(), legacy_hash: None, legacy_present: false };
        assert(r.entries_view() =~= Seq::<(Seq<char>, Seq<char>)>::empty());
        r
    }

    /// The recorded hash for `path`, if this project ever wrote it.
    pub fn get(&self, path: &str) -> (r: Option<&String>)
        ensures
            r matches Some(h) ==> self@.contains_key(path@) && self@[path@] == h@,
            r is None ==> !self@.contains_key(path@),
    {
        proof {
            use_type_invariant(self);
            lemma_sorted_unique(self.entries_view());
            lemma_pairs_map(self.entries_view());
        }
        let mut i: usize = 0;
        while i < self.entries.len()
            invariant
                i <= self.entries@.len(),
                keys_unique(self.entries_view()),
                forall|k: int| 0 <= k < i ==> (#[trigger] self.entries@[k]).0@ != path@,
            decreases self.entries.len() - i,
        {
            if str_eq_string(&self.entries[i].0, path) {
                proof {
                    lemma_pairs_map(self.entries_view());
                }
                assert(self.entries_view()[i as int].0 == path@);
                assert(self@.contains_key(self.entries_view()[i as int].0));
                return Some(&self.entries[i].1);
            }
            i = i + 1;
        }
        proof {
            if self@.contains_key(path@) {
                let k = choose|k: int| 0 <= k < self.entries_view().len() && self.entries_view()[k].0 == path@;
                assert(self.entries@[k].0@ == path@);
            }
        }
        None
    }

    /// Record `hash` as the last-known state of `path`.
    pub fn set(&mut self, path: &str, hash: &str)
        ensures
            final(self)@ == old(self)@.insert(path@, hash@),
            final(self).legacy_hash_view() == old(self).legacy_hash_view(),
            final(self).legacy_view() == old(self).legacy_view(),
    {
        proof {
            use_type_invariant(&*self);
        }
        let ghost old_es = self.entries_view();
        let ghost key = path@;
        let mut entries: Vec<(String, String)> = Vec::new();
        std::mem::swap(&mut entries, &mut self.entries);
        assert(entry_views(entries@) == old_es);
        let mut k: usize = 0;
        while k < entries.len()
            invariant
                k <= entries@.len(),
                entry_views(entries@) == old_es,
                key == path@,
                forall|i: int| 0 <= i < k ==> path_before(#[trigger] old_es[i].0, key),
            ensures
                k <= entries@.len(),
                forall|i: int| 0 <= i < k ==> path_before(#[trigger] old_es[i].0, key),
                k < entries@.len() ==> !path_before(old_es[k as int].0, key),
            decreases entries.len() - k,
        {
            assert(entries@[k as int].0@ == old_es[k as int].0);
            if !path_less(entries[k].0.as_str(), path) {
                break;
            }
            k = k + 1;
        }
        proof {
            lemma_sorted_unique(old_es);
            lemma_pairs_map(old_es);
        }
        let entry = (String::from_str(path), String::from_str(hash));
        if k < entries.len() && str_eq_string(&entries[k].0, path) {
            entries.set(k, entry);
            let ghost new_es = entry_views(entries@);
            proof {
                assert(new_es =~= old_es.update(k as int, (key, hash@)));
                assert(keys_sorted(new_es)) by {
                    assert forall|i: int, j: int| 0 <= i < j < new_es.len() implies path_before(
                        #[trigger] new_es[i].0,
                        #[trigger] new_es[j].0,
                    ) by {
                        assert(old_es[i].0 == new_es[i].0);
                        assert(old_es[j].0 == new_es[j].0);
                    }
                }
                lemma_sorted_unique(new_es);
                let m = pairs_map(old_es).insert(key, hash@);
                assert forall|k2: Seq<char>| #[trigger] m.contains_key(k2) implies exists|i: int|
                    0 <= i < new_es.len() && new_es[i].0 == k2 by {
                    if k2 == key {
                        assert(new_es[k as int].0 == k2);
                    } else {
                        let i = choose|i: int| 0 <= i < old_es.len() && old_es[i].0 == k2;
                        assert(new_es[i].0 == k2);
                    }
                }
                assert forall|i: int| 0 <= i < new_es.len() implies #[trigger] m.contains_key(
                    new_es[i].0,
                ) && m[new_es[i].0] == new_es[i].1 by {
                    if i != k {
                        assert(new_es[i] == old_es[i]);
                        assert(old_es[i].0 != old_es[k as int].0);
                        assert(pairs_map(old_es).contains_key(old_es[i].0));
                    }
                }
                lemma_pairs_map_ext(new_es, m);
            }
        } else {
            proof {
                if k < entries.len() {
                    lemma_path_before_total(old_es[k as int].0, key);
                }
            }
            entries.insert(k, entry);
            let ghost new_es = entry_views(entries@);
            proof {
                assert(new_es =~= old_es.insert(k as int, (key, hash@)));
                assert(keys_sorted(new_es)) by {
                    assert forall|i: int, j: int| 0 <= i < j < new_es.len() implies path_before(
                        #[trigger] new_es[i].0,
                        #[trigger] new_es[j].0,
                    ) by {
                        if j < k {
                            assert(new_es[i] == old_es[i] && new_es[j] == old_es[j]);
                        } else if j == k {
                            assert(new_es[i] == old_es[i]);
                        } else if i == k {
                            assert(new_es[j] == old_es[j - 1]);
                            if j - 1 > k {
                                lemma_path_before_transitive(key, old_es[k as int].0, old_es[j - 1].0);
                            }
                        } else if i < k {
                            assert(new_es[i] == old_es[i] && new_es[j] == old_es[j - 1]);
                        } else {
                            assert(new_es[i] == old_es[i - 1] && new_es[j] == old_es[j - 1]);
                        }
                    }
                }
                lemma_sorted_unique(new_es);
                assert forall|i: int| 0 <= i < old_es.len() implies #[trigger] old_es[i].0 != key by {
                    if i < k {
                        lemma_path_before_irreflexive(key);
                    } else {
                        if i > k {
                            lemma_path_before_transitive(key, old_es[k as int].0, old_es[i].0);
                        }
                        lemma_path_before_irreflexive(key);
                    }
                }
                let m = pairs_map(old_es).insert(key, hash@);
                assert forall|k2: Seq<char>| #[trigger] m.contains_key(k2) implies exists|i: int|
                    0 <= i < new_es.len() && new_es[i].0 == k2 by {
                    if k2 == key {
                        assert(new_es[k as int].0 == k2);
                    } else {
                        let i = choose|i: int| 0 <= i < old_es.len() && old_es[i].0 == k2;
                        if i < k {
                            assert(new_es[i].0 == k2);
                        } else {
                            assert(new_es[i + 1].0 == k2);
                        }
                    }
                }
                assert forall|i: int| 0 <= i < new_es.len() implies #[trigger] m.contains_key(
                    new_es[i].0,
                ) && m[new_es[i].0] == new_es[i].1 by {
                    if i < k {
                        assert(new_es[i] == old_es[i]);
                        assert(old_es[i].0 != key);
                        assert(pairs_map(old_es).contains_key(old_es[i].0));
                    } else if i > k {
                        assert(new_es[i] == old_es[i - 1]);
                        assert(old_es[i - 1].0 != key);
                        assert(pairs_map(old_es).contains_key(old_es[i - 1].0));
                    }
                }
                lemma_pairs_map_ext(new_es, m);
            }
        }
        self.entries = entries;
    }
}

impl Records {
    /// The records held by the sidecar `text`.
    pub fn from_sync_text(text: &str) -> (r: Records)
        ensures
            r@ == sync_map(text@),
            r.legacy_hash_view() is None,
            !r.legacy_view(),
    {
        let toks = token_lines(text);
        let ghost t = toks@.map_values(|s: String| s@);
        let mut r = Records::new();
        let mut k: usize = 0;
        let ghost mut c: nat = 0;
        assert(r@ =~= token_pairs_map(t, 0));
        while k < toks.len() && k + 1 < toks.len() && is_hash_text(toks[k].as_str())
            invariant
                t == toks@.map_values(|s: String| s@),
                t == tokens(text@),
                k == 2 * c,
                k <= toks.len(),
                pair_count(t, 0) == c + pair_count(t, k as int),
                r@ == token_pairs_map(t, c),
                r.legacy_hash_view() is None,
                !r.legacy_view(),
            decreases toks.len() - k,
        {
            assert(t[k as int] == toks@[k as int]@);
            assert(t[k + 1] == toks@[k + 1]@);
            r.set(toks[k + 1].as_str(), toks[k].as_str());
            k = k + 2;
            proof {
                c = c + 1;
            }
        }
        r
    }

    /// The records of a work directory: those of the current sidecar text
    /// (absent when the sidecar does not exist), then each legacy record in
    /// turn (see [`Records::absorb_legacy`]).
    pub fn load(sync_text: Option<&str>, legacy: Vec<SyncPoint>) -> (r: Records)
        ensures
            r@ == legacy_fold(
                match sync_text {
                    Some(t) => sync_map(t@),
                    None => Map::empty(),
                },
                legacy@,
            ),
            r.legacy_view() == (legacy@.len() > 0),
            r.legacy_hash_view() == first_pathless(legacy@),
    {
        let mut r = match sync_text {
            Some(t) => Records::from_sync_text(t),
            None => Records::new(),
        };
        let ghost base = r@;
        let mut i: usize = 0;
        let mut rest = legacy;
        let ghost all = rest@;
        let total = rest.len();
        while rest.len() > 0
            invariant
                total == all.len(),
                i <= all.len(),
                rest@ == all.skip(i as int),
                r@ == legacy_fold(base, all.take(i as int)),
                r.legacy_view() == (i > 0),
                r.legacy_hash_view() == first_pathless(all.take(i as int)),
            decreases rest.len(),
        {
            let point = rest.remove(0);
            assert(point == all[i as int]);
            assert(rest@ =~= all.skip(i + 1));
            assert(all.take(i + 1).drop_last() =~= all.take(i as int));
            r.absorb_legacy(point);
            i = i + 1;
        }
        assert(all.take(i as int) =~= all);
        r
    }

    /// Fold a legacy sidecar record in. A record naming a file fills that
    /// key only when the current records do not already hold it; a
    /// path-less hash is kept when none was kept before.
    pub fn absorb_legacy(&mut self, point: SyncPoint)
        ensures
            final(self).legacy_view(),
            match point.path {
                Some(p) => {
                    &&& final(self)@ == (if old(self)@.contains_key(p@) {
                        old(self)@
                    } else {
                        old(self)@.insert(p@, point.hash@)
                    })
                    &&& final(self).legacy_hash_view() == old(self).legacy_hash_view()
                },
                None => {
                    &&& final(self)@ == old(self)@
                    &&& final(self).legacy_hash_view() == (match old(self).legacy_hash_view() {
                        Some(h) => Some(h),
                        None => Some(point.hash@),
                    })
                },
            },
    {
        proof {
            use_type_invariant(&*self);
        }
        self.legacy_present = true;
        match point.path {
            Some(path) => {
                if self.get(path.as_str()).is_none() {
                    self.set(path.as_str(), point.hash.as_str());
                }
            },
            None => {
                if self.legacy_hash.is_none() {
                    self.legacy_hash = Some(point.hash);
                }
            },
        }
    }

    /// Hash from a legacy path-less sidecar, if any.
    pub fn legacy_hash(&self) -> (r: Option<&String>)
        ensures
            match r {
                Some(h) => self.legacy_hash_view() == Some(h@),
                None => self.legacy_hash_view() is None,
            },
    {
        self.legacy_hash.as_ref()
    }

    /// Whether legacy sidecars were found (they are removed on save).
    pub fn has_legacy(&self) -> (r: bool)
        ensures
            r == self.legacy_view(),
    {
        self.legacy_present
    }

    /// The sidecar text for the records: per path, in path order, its hash
    /// line and then its path line.
    pub fn to_text(&self) -> (r: String)
        ensures
            r@ == pairs_text(self.entries_view()),
            keys_sorted(self.entries_view()),
    {
        proof {
            use_type_invariant(self);
        }
        let mut text = String::new();
        let mut i: usize = 0;
        while i < self.entries.len()
            invariant
                i <= self.entries@.len(),
                text@ == pairs_text(self.entries_view().take(i as int)),
            decreases self.entries.len() - i,
        {
            let ghost es = self.entries_view();
            assert(es.take(i + 1).drop_last() =~= es.take(i as int));
            assert(es[i as int] == (self.entries@[i as int].0@, self.entries@[i as int].1@));
            push_str(&mut text, self.entries[i].1.as_str());
            push_char(&mut text, '\n');
            push_str(&mut text, self.entries[i].0.as_str());
            push_char(&mut text, '\n');
            i = i + 1;
        }
        assert(self.entries_view().take(i as int) =~= self.entries_view());
        text
    }
}

/// The records after absorbing the legacy `points` in order: a point
/// naming a file fills that key only when it is not held yet.
pub open spec fn legacy_fold(m: Map<Seq<char>, Seq<char>>, points: Seq<SyncPoint>) -> Map<
    Seq<char>,
    Seq<char>,
>
    decreases points.len(),
{
    if points.len() == 0 {
        m
    } else {
        let prev = legacy_fold(m, points.drop_last());
        match points.last().path {
            Some(p) => if prev.contains_key(p@) {
                prev
            } else {
                prev.insert(p@, points.last().hash@)
            },
            None => prev,
        }
    }
}

/// The hash of the first legacy point without a path.
pub open spec fn first_pathless(points: Seq<SyncPoint>) -> Option<Seq<char>>
    decreases points.len(),
{
    if points.len() == 0 {
        None
    } else {
        match first_pathless(points.drop_last()) {
            Some(h) => Some(h),
            None => match points.last().path {
                Some(_) => None,
                None => Some(points.last().hash@),
            },
        }
    }
}

/// Number of (hash line, path line) pairs at the front of `toks` from
/// position `k`; parsing stops at a line that is no hash or at a hash
/// without its path.
pub open spec fn pair_count(toks: Seq<Seq<char>>, k: int) -> nat
    decreases toks.len() - k,
{
    if 0 <= k && k + 1 < toks.len() && is_hash(toks[k]) {
        1 + pair_count(toks, k + 2)
    } else {
        0
    }
}

/// The map of the first `c` pairs of `toks`; a later pair for the same
/// path overrides an earlier one.
pub open spec fn token_pairs_map(toks: Seq<Seq<char>>, c: nat) -> Map<Seq<char>, Seq<char>>
    decreases c,
{
    if c == 0 {
        Map::empty()
    } else {
        token_pairs_map(toks, (c - 1) as nat).insert(toks[2 * c - 1], toks[2 * c - 2])
    }
}

/// The records held by a sidecar text.
pub open spec fn sync_map(text: Seq<char>) -> Map<Seq<char>, Seq<char>> {
    let t = tokens(text);
    token_pairs_map(t, pair_count(t, 0))
}

/// A legacy sidecar's content: its first line must be a hash; the next
/// line, when present, names the file.
pub open spec fn single_spec(text: Seq<char>) -> Option<(Seq<char>, Option<Seq<char>>)> {
    let t = tokens(text);
    if t.len() == 0 || !is_hash(t[0]) {
        None
    } else {
        Some((t[0], if t.len() > 1 { Some(t[1]) } else { None }))
    }
}

/// Parse a legacy single-entry sidecar (`hash` line, optional `path` line).
pub fn parse_single(text: &str) -> (r: Option<SyncPoint>)
    ensures
        match r {
            None => single_spec(text@) is None,
            Some(sp) => single_spec(text@) == Some(
                (
                    sp.hash@,
                    match sp.path {
                        Some(p) => Some(p@),
                        None => None,
                    },
                ),
            ),
        },
{
    let toks = token_lines(text);
    let ghost t = toks@.map_values(|s: String| s@);
    if toks.len() == 0 {
        return None;
    }
    assert(t[0] == toks@[0]@);
    if !is_hash_text(toks[0].as_str()) {
        return None;
    }
    let path = if toks.len() > 1 {
        assert(t[1] == toks@[1]@);
        Some(toks[1].clone())
    } else {
        None
    };
    Some(SyncPoint { hash: toks[0].clone(), path })
}

/// Verdict for "may this `build` overwrite an existing output file?"
///
/// The overwrite guard requires positive evidence that the bytes about to
/// be clobbered are accounted for: the file's current hash must match the
/// value recorded when this project last legitimately wrote it. Anything
/// else refuses: a build must never silently destroy a file it cannot
/// vouch for.
#[derive(Debug, Clone, Copy, PartialEq, Eq, Structural)]
pub enum OutputGuard {
    /// The file's current hash matches its record — safe to overwrite.
    InSync,
    /// The file changed after its last recorded write.
    Stale,
    /// No record covers this file, so its provenance is unknown.
    Uncovered,
}

/// The verdict on an existing output `output` whose current bytes are
/// `live`, given the records `m`.
pub open spec fn guard_spec(m: Map<Seq<char>, Seq<char>>, output: Seq<char>, live: Seq<u8>) -> OutputGuard {
    if !m.contains_key(output) {
        OutputGuard::Uncovered
    } else if m[output] == hex_spec(sha256_spec(live)) {
        OutputGuard::InSync
    } else {
        OutputGuard::Stale
    }
}

/// Classify an existing output file against the work directory's records,
/// given the file's current bytes: `InSync` when its live hash equals the
/// recorded one, `Stale` when they differ, `Uncovered` without a record.
pub fn classify_output(records: &Records, output: &str, live: &[u8]) -> (r: OutputGuard)
    ensures
        r == guard_spec(records@, output@, live@),
{
    match records.get(output) {
        Some(recorded) => {
            let live_hash = sha256_hex(live);
            if str_eq_string(recorded, live_hash.as_str()) {
                OutputGuard::InSync
            } else {
                OutputGuard::Stale
            }
        },
        None => OutputGuard::Uncovered,
    }
}

/// Lowercase hex digit for a value below sixteen.
pub open spec fn hex_digit(n: int) -> char {
    if n < 10 {
        (n + 48) as char
    } else {
        (n + 87) as char
    }
}

/// Two lowercase hex digits per byte.
pub open spec fn hex_spec(bytes: Seq<u8>) -> Seq<char>
    decreases bytes.len(),
{
    if bytes.len() == 0 {
        Seq::empty()
    } else {
        hex_spec(bytes.drop_last()).push(hex_digit((bytes.last() / 16) as int)).push(
            hex_digit((bytes.last() % 16) as int),
        )
    }
}

fn hex_char(n: u8) -> (c: char)
    requires
        n < 16,
    ensures
        c == hex_digit(n as int),
{
    if n < 10 {
        (n + 48) as char
    } else {
        (n + 87) as char
    }
}

/// Lowercase hex of `bytes`.
pub fn hex(bytes: &[u8]) -> (r: String)
    ensures
        r@ == hex_spec(bytes@),
{
    let mut out = String::new();
    let mut i: usize = 0;
    while i < bytes.len()
        invariant
            i <= bytes@.len(),
            out@ == hex_spec(bytes@.take(i as int)),
        decreases bytes.len() - i,
    {
        let b = bytes[i];
        assert(bytes@.take(i + 1).drop_last() =~= bytes@.take(i as int));
        push_char(&mut out, hex_char(b / 16));
        push_char(&mut out, hex_char(b % 16));
        i = i + 1;
    }
    assert(bytes@.take(i as int) =~= bytes@);
    out
}

proof fn lemma_hex_spec(bytes: Seq<u8>)
    ensures
        hex_spec(bytes).len() == 2 * bytes.len(),
        forall|i: int| 0 <= i < hex_spec(bytes).len() ==> is_hex_digit(#[trigger] hex_spec(bytes)[i]),
    decreases bytes.len(),
{
    if bytes.len() > 0 {
        lemma_hex_spec(bytes.drop_last());
        let prev = hex_spec(bytes.drop_last());
        assert forall|i: int| 0 <= i < hex_spec(bytes).len() implies is_hex_digit(
            #[trigger] hex_spec(bytes)[i],
        ) by {
            if i < prev.len() {
                assert(hex_spec(bytes)[i] == prev[i]);
            }
        }
    }
}

/// The SHA-256 digest of `data` (FIPS 180-4).
pub uninterp spec fn sha256_spec(data: Seq<u8>) -> Seq<u8>;

/// `sha2::Sha256::digest`: the digest of `data`, which depends on the bytes
/// alone and is 32 bytes long.
#[verifier::external_body]
fn sha256_digest(data: &[u8]) -> (r: Vec<u8>)
    ensures
        r@ == sha256_spec(data@),
        r@.len() == 32,
{
    sha2::Sha256::digest(data).to_vec()
}

/// The lowercase hex SHA-256 of `data`.
pub fn sha256_hex(data: &[u8]) -> (r: String)
    ensures
        r@ == hex_spec(sha256_spec(data@)),
        is_hash(r@),
{
    let digest = sha256_digest(data);
    proof {
        lemma_hex_spec(digest@);
    }
    hex(digest.as_slice())
}

/// Equality of an owned string and a string slice.
fn str_eq_string(a: &String, b: &str) -> (r: bool)
    ensures
        r == (a@ == b@),
{
    crate::text::str_eq(a.as_str(), b)
}

// ---------------------------------------------------------------------------
// Saving and loading
// ---------------------------------------------------------------------------

/// A path that survives a trip through its own sidecar line: not blank, no
/// surrounding whitespace, no line break.
pub open spec fn clean_line(p: Seq<char>) -> bool {
    &&& p.len() > 0
    &&& !is_ws(p[0])
    &&& !is_ws(p.last())
    &&& forall|i: int| 0 <= i < p.len() ==> #[trigger] p[i] != '\n'
}

/// The lines the sidecar text of `es` consists of.
pub open spec fn pair_lines(es: Seq<(Seq<char>, Seq<char>)>) -> Seq<Seq<char>>
    decreases es.len(),
{
    if es.len() == 0 {
        Seq::empty()
    } else {
        pair_lines(es.drop_last()).push(es.last().1).push(es.last().0)
    }
}

proof fn lemma_scan_append(s: Seq<char>, t: Seq<char>)
    requires
        scan(s).1.len() == 0,
    ensures
        scan(s + t) == (scan(s).0 + scan(t).0, scan(t).1),
    decreases t.len(),
{
    if t.len() == 0 {
        assert(s + t =~= s);
        assert(scan(s).0 + scan(t).0 =~= scan(s).0);
        assert(scan(s).1 =~= scan(t).1);
    } else {
        lemma_scan_append(s, t.drop_last());
        assert((s + t).drop_last() =~= s + t.drop_last());
        let (d, o) = scan(t.drop_last());
        if t.last() == '\n' {
            assert(scan(s).0 + d + keep(o) =~= scan(s).0 + (d + keep(o)));
        }
    }
}

proof fn lemma_scan_line(l: Seq<char>)
    requires
        forall|i: int| 0 <= i < l.len() ==> #[trigger] l[i] != '\n',
    ensures
        scan(l) == (Seq::<Seq<char>>::empty(), l),
    decreases l.len(),
{
    if l.len() > 0 {
        lemma_scan_line(l.drop_last());
        assert(l.drop_last().push(l.last()) =~= l);
        assert(l[l.len() - 1] != '\n');
    } else {
        assert(l =~= Seq::<char>::empty());
    }
}

proof fn lemma_trim_clean(l: Seq<char>)
    requires
        l.len() > 0,
        !is_ws(l[0]),
        !is_ws(l.last()),
    ensures
        trim(l) == l,
        keep(l) == seq![l],
{
}

proof fn lemma_scan_clean_line(l: Seq<char>)
    requires
        clean_line(l),
    ensures
        scan(l + seq!['\n']) == (seq![l], Seq::<char>::empty()),
{
    lemma_scan_line(l);
    assert((l + seq!['\n']).drop_last() =~= l);
    lemma_trim_clean(l);
    assert(Seq::<Seq<char>>::empty() + seq![l] =~= seq![l]);
}

proof fn lemma_hash_clean(h: Seq<char>)
    requires
        is_hash(h),
    ensures
        clean_line(h),
{
    assert(is_hex_digit(h[0]));
    assert(is_hex_digit(h[h.len() - 1]));
    assert forall|i: int| 0 <= i < h.len() implies #[trigger] h[i] != '\n' by {
        assert(is_hex_digit(h[i]));
    }
}

proof fn lemma_scan_pairs_text(es: Seq<(Seq<char>, Seq<char>)>)
    requires
        forall|i: int| 0 <= i < es.len() ==> clean_line(#[trigger] es[i].0) && is_hash(es[i].1),
    ensures
        scan(pairs_text(es)) == (pair_lines(es), Seq::<char>::empty()),
    decreases es.len(),
{
    if es.len() == 0 {
        assert(pair_lines(es) =~= Seq::<Seq<char>>::empty());
    } else {
        let prev = es.drop_last();
        assert forall|i: int| 0 <= i < prev.len() implies clean_line(#[trigger] prev[i].0) && is_hash(
            prev[i].1,
        ) by {
            assert(prev[i] == es[i]);
        }
        lemma_scan_pairs_text(prev);
        let (p, h) = es.last();
        assert(clean_line(es[es.len() - 1].0) && is_hash(es[es.len() - 1].1));
        lemma_hash_clean(h);
        let x = pairs_text(prev);
        let hl = h + seq!['\n'];
        let pl = p + seq!['\n'];
        lemma_scan_clean_line(h);
        lemma_scan_clean_line(p);
        lemma_scan_append(hl, pl);
        assert(hl + pl =~= h + seq!['\n'] + p + seq!['\n']);
        lemma_scan_append(x, hl + pl);
        assert(pairs_text(es) =~= x + (hl + pl));
        assert(pair_lines(prev) + (seq![h] + seq![p]) =~= pair_lines(prev).push(h).push(p));
    }
}

proof fn lemma_pair_lines_index(es: Seq<(Seq<char>, Seq<char>)>)
    ensures
        pair_lines(es).len() == 2 * es.len(),
        forall|i: int|
            0 <= i < es.len() ==> pair_lines(es)[2 * i] == (#[trigger] es[i]).1 && pair_lines(
                es,
            )[2 * i + 1] == es[i].0,
    decreases es.len(),
{
    if es.len() > 0 {
        let prev = es.drop_last();
        lemma_pair_lines_index(prev);
        assert forall|i: int| 0 <= i < es.len() implies pair_lines(es)[2 * i] == (
        #[trigger] es[i]).1 && pair_lines(es)[2 * i + 1] == es[i].0 by {
            if i < es.len() - 1 {
                assert(prev[i] == es[i]);
            }
        }
    }
}

proof fn lemma_pair_count_lines(es: Seq<(Seq<char>, Seq<char>)>, i: int)
    requires
        0 <= i <= es.len(),
        forall|j: int| 0 <= j < es.len() ==> is_hash(#[trigger] es[j].1),
    ensures
        pair_count(pair_lines(es), 2 * i) == es.len() - i,
    decreases es.len() - i,
{
    lemma_pair_lines_index(es);
    if i < es.len() {
        assert(pair_lines(es)[2 * i] == es[i].1);
        lemma_pair_count_lines(es, i + 1);
    }
}

proof fn lemma_token_pairs_map_lines(es: Seq<(Seq<char>, Seq<char>)>, c: nat)
    requires
        c <= es.len(),
    ensures
        token_pairs_map(pair_lines(es), c) == pairs_map(es.take(c as int)),
    decreases c,
{
    if c > 0 {
        lemma_token_pairs_map_lines(es, (c - 1) as nat);
        lemma_pair_lines_index(es);
        assert(es.take(c as int).drop_last() =~= es.take(c - 1));
        assert(pair_lines(es)[2 * (c - 1)] == es[c - 1].1);
    } else {
        assert(es.take(0) =~= Seq::<(Seq<char>, Seq<char>)>::empty());
    }
}

/// Saving then loading gives the records back: the sidecar text of any
/// records whose paths are clean lines and whose values are hashes holds
/// exactly those records.
pub proof fn lemma_save_then_load(es: Seq<(Seq<char>, Seq<char>)>)
    requires
        forall|i: int| 0 <= i < es.len() ==> clean_line(#[trigger] es[i].0) && is_hash(es[i].1),
    ensures
        sync_map(pairs_text(es)) == pairs_map(es),
{
    lemma_scan_pairs_text(es);
    assert(trim(Seq::<char>::empty()) =~= Seq::<char>::empty());
    assert(tokens(pairs_text(es)) =~= pair_lines(es));
    assert forall|j: int| 0 <= j < es.len() implies is_hash(#[trigger] es[j].1) by {
        assert(clean_line(es[j].0) && is_hash(es[j].1));
    }
    lemma_pair_count_lines(es, 0);
    lemma_token_pairs_map_lines(es, es.len());
    assert(es.take(es.len() as int) =~= es);
}

/// Whether a source whose hash is `src_hash` is already reflected by the
/// records: its own record holds that hash, or, when it has none, the
/// path-less legacy record does.
pub open spec fn in_sync_spec(records: Records, src: Seq<char>, src_hash: Seq<char>) -> bool {
    if records@.contains_key(src) {
        records@[src] == src_hash
    } else {
        records.legacy_hash_view() == Some(src_hash)
    }
}

/// Whether converting `src` (whose hash is `src_hash`) can be skipped
/// because the project already reflects exactly that source.
pub fn source_in_sync(records: &Records, src: &str, src_hash: &str) -> (r: bool)
    ensures
        r == in_sync_spec(*records, src@, src_hash@),
{
    match records.get(src) {
        Some(h) => str_eq_string(h, src_hash),
        None => match records.legacy_hash() {
            Some(h) => str_eq_string(h, src_hash),
            None => false,
        },
    }
}

/// A fresh build may be iterated: once the written output's hash is
/// recorded, the same bytes are judged in sync and may be overwritten.
pub proof fn lemma_recorded_output_is_in_sync(m: Map<Seq<char>, Seq<char>>, output: Seq<char>, live: Seq<u8>)
    ensures
        guard_spec(m.insert(output, hex_spec(sha256_spec(live))), output, live) == OutputGuard::InSync,
{
}

/// An output changed after its recorded write is refused as stale, and a
/// file without a record is refused as uncovered.
pub proof fn lemma_unvouched_output_is_refused(m: Map<Seq<char>, Seq<char>>, output: Seq<char>, live: Seq<u8>)
    ensures
        m.contains_key(output) && m[output] != hex_spec(sha256_spec(live)) ==> guard_spec(m, output, live)
            == OutputGuard::Stale,
        !m.contains_key(output) ==> guard_spec(m, output, live) == OutputGuard::Uncovered,
{
}

/// Outputs are tracked independently: recording one output leaves the
/// verdict on every other output unchanged.
pub proof fn lemma_outputs_tracked_independently(
    m: Map<Seq<char>, Seq<char>>,
    recorded: Seq<char>,
    hash: Seq<char>,
    other: Seq<char>,
    live: Seq<u8>,
)
    requires
        recorded != other,
    ensures
        guard_spec(m.insert(recorded, hash), other, live) == guard_spec(m, other, live),
{
}

/// Converting an unchanged source again is skipped: once the source's hash
/// is recorded for it, the records say it is in sync, and they keep
/// saying so for the same hash only.
pub proof fn lemma_recorded_source_is_skipped(before: Records, after: Records, src: Seq<char>, src_hash: Seq<char>, other_hash: Seq<char>)
    requires
        after@ == before@.insert(src, src_hash),
        other_hash != src_hash,
    ensures
        in_sync_spec(after, src, src_hash),
        !in_sync_spec(after, src, other_hash),
{
}

} // verus!
