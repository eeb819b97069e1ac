//! Command-line model of the `slideforge` binary and the tallies its
//! reports print.

use vstd::prelude::*;

use crate::hash::{guard_spec, hex_spec, sha256_spec, OutputGuard};
use crate::text::{chars_of, decimal, push_str, str_eq, usize_to_string};

verus! {

/// Why `build` refuses to write.
#[derive(Debug, Clone, Copy, PartialEq, Eq, Structural)]
pub enum Refusal {
    /// The deck has validation issues.
    Issues,
    /// The existing output changed after its last recorded write.
    Stale,
    /// The existing output is covered by no record.
    Uncovered,
}

/// What `build` does next: write the package, or refuse.
#[derive(Debug, Clone, Copy, PartialEq, Eq, Structural)]
pub enum BuildStep {
    Write,
    Refuse(Refusal),
}

/// The build decision: refuse when the deck has issues; otherwise write
/// when there is no output yet or the existing one is in sync with its
/// record, and refuse a stale or uncovered one.
pub open spec fn build_step_spec(issue_count: nat, existing: Option<OutputGuard>) -> BuildStep {
    if issue_count > 0 {
        BuildStep::Refuse(Refusal::Issues)
    } else {
        match existing {
            None => BuildStep::Write,
            Some(OutputGuard::InSync) => BuildStep::Write,
            Some(OutputGuard::Stale) => BuildStep::Refuse(Refusal::Stale),
            Some(OutputGuard::Uncovered) => BuildStep::Refuse(Refusal::Uncovered),
        }
    }
}

/// Decide the build's next step from the number of validation issues and
/// the verdict on an existing output (`None` when there is none).
pub fn build_step(issue_count: usize, existing: Option<OutputGuard>) -> (r: BuildStep)
    ensures
        r == build_step_spec(issue_count as nat, existing),
{
    if issue_count > 0 {
        return BuildStep::Refuse(Refusal::Issues);
    }
    match existing {
        None => BuildStep::Write,
        Some(OutputGuard::InSync) => BuildStep::Write,
        Some(OutputGuard::Stale) => BuildStep::Refuse(Refusal::Stale),
        Some(OutputGuard::Uncovered) => BuildStep::Refuse(Refusal::Uncovered),
    }
}

/// The process exit code of a refused build: 2, whatever the reason.
pub fn refusal_exit_code(reason: Refusal) -> (c: i32)
    ensures
        c == 2,
{
    2
}

/// A valid deck overwrites an existing output only when a record covers
/// it and the recorded hash is the hash of the output's current bytes;
/// any issue refuses the build whatever the output.
pub proof fn lemma_build_overwrites_only_vouched_outputs(
    issue_count: nat,
    m: Map<Seq<char>, Seq<char>>,
    output: Seq<char>,
    live: Seq<u8>,
)
    ensures
        build_step_spec(issue_count, Some(guard_spec(m, output, live))) == BuildStep::Write <==> (issue_count == 0
            && m.contains_key(output) && m[output] == hex_spec(sha256_spec(live))),
        issue_count > 0 ==> build_step_spec(issue_count, Some(guard_spec(m, output, live))) == BuildStep::Refuse(
            Refusal::Issues,
        ),
        issue_count == 0 ==> build_step_spec(issue_count, None) == BuildStep::Write,
{
}

/// The parsed command line.
#[derive(Debug, Clone, PartialEq, Eq)]
pub struct Cli {
    pub command: Command,
}

/// The subcommands.
#[derive(Debug, Clone, PartialEq, Eq)]
pub enum Command {
    /// Load a PPTD project and report every validation issue found.
    Check { file: String },
    /// Dump a summary of the parsed project (debugging aid).
    Dump { file: String },
    /// Compile a PPTD project into a `.pptx` package; `output` defaults to
    /// `<entry basename>.pptx`.
    Build { file: String, output: Option<String> },
    /// Reverse-compile an existing `.pptx` package into a PPTD project in
    /// the `output` directory.
    Convert { file: String, output: String },
}

/// Code-point order of two texts, a proper prefix first (the order of
/// `String`).
pub open spec fn text_before(a: Seq<char>, b: Seq<char>) -> bool
    decreases a.len(),
{
    if a.len() == 0 {
        b.len() > 0
    } else if b.len() == 0 {
        false
    } else if a[0] == b[0] {
        text_before(a.skip(1), b.skip(1))
    } else {
        a[0] < b[0]
    }
}

proof fn lemma_text_before_irreflexive(a: Seq<char>)
    ensures
        !text_before(a, a),
    decreases a.len(),
{
    if a.len() > 0 {
        lemma_text_before_irreflexive(a.skip(1));
    }
}

proof fn lemma_text_before_total(a: Seq<char>, b: Seq<char>)
    ensures
        a != b ==> text_before(a, b) || text_before(b, a),
    decreases a.len(),
{
    if a.len() > 0 && b.len() > 0 {
        if a[0] == b[0] {
            lemma_text_before_total(a.skip(1), b.skip(1));
            if a.skip(1) == b.skip(1) {
                assert(a =~= seq![a[0]] + a.skip(1));
                assert(b =~= seq![b[0]] + b.skip(1));
            }
        }
    } else if a.len() == 0 && b.len() == 0 {
        assert(a =~= b);
    }
}

proof fn lemma_text_before_transitive(a: Seq<char>, b: Seq<char>, c: Seq<char>)
    requires
        text_before(a, b),
        text_before(b, c),
    ensures
        text_before(a, c),
    decreases a.len(),
{
    if a.len() > 0 && a[0] == b[0] && b[0] == c[0] {
        lemma_text_before_transitive(a.skip(1), b.skip(1), c.skip(1));
    }
}

fn text_less(a: &str, b: &str) -> (r: bool)
    ensures
        r == text_before(a@, b@),
{
    let x = chars_of(a);
    let y = chars_of(b);
    let mut i: usize = 0;
    assert(x@.skip(0) =~= x@);
    assert(y@.skip(0) =~= y@);
    while i < x.len() && i < y.len()
        invariant
            x@ == a@,
            y@ == b@,
            i <= x.len(),
            i <= y.len(),
            text_before(a@, b@) == text_before(x@.skip(i as int), y@.skip(i as int)),
        decreases x.len() - i,
    {
        if x[i] != y[i] {
            return x[i] < y[i];
        }
        assert(x@.skip(i as int).skip(1) =~= x@.skip(i + 1));
        assert(y@.skip(i as int).skip(1) =~= y@.skip(i + 1));
        i = i + 1;
    }
    i < y.len()
}

/// How many of `keys` equal `k`.
pub open spec fn occurrences(keys: Seq<String>, k: Seq<char>) -> nat
    decreases keys.len(),
{
    if keys.len() == 0 {
        0
    } else {
        occurrences(keys.drop_last(), k) + if keys.last()@ == k {
            1nat
        } else {
            0nat
        }
    }
}

/// The tally of `keys`: each distinct key once, in `String` order, with
/// the number of times it occurs.
pub open spec fn is_tally(keys: Seq<String>, t: Seq<(Seq<char>, nat)>) -> bool {
    &&& forall|i: int, j: int| 0 <= i < j < t.len() ==> text_before(#[trigger] t[i].0, #[trigger] t[j].0)
    &&& forall|i: int| 0 <= i < t.len() ==> #[trigger] t[i].1 == occurrences(keys, t[i].0) && t[i].1 > 0
    &&& forall|k: int| 0 <= k < keys.len() ==> exists|i: int| 0 <= i < t.len() && #[trigger] t[i].0 == (#[trigger] keys[k])@
}

/// The text view of a tally.
pub open spec fn tally_view(t: Seq<(String, usize)>) -> Seq<(Seq<char>, nat)> {
    t.map_values(|e: (String, usize)| (e.0@, e.1 as nat))
}

proof fn lemma_occurrences_bound(keys: Seq<String>, k: Seq<char>)
    ensures
        occurrences(keys, k) <= keys.len(),
    decreases keys.len(),
{
    if keys.len() > 0 {
        lemma_occurrences_bound(keys.drop_last(), k);
    }
}

/// Count equal keys, in `String` order (the `BTreeMap` tally the reports
/// print).
pub fn count_by_key(keys: &Vec<String>) -> (r: Vec<(String, usize)>)
    ensures
        is_tally(keys@, tally_view(r@)),
{
    let mut t: Vec<(String, usize)> = Vec::new();
    let mut n: usize = 0;
    while n < keys.len()
        invariant
            n <= keys@.len(),
            is_tally(keys@.take(n as int), tally_view(t@)),
        decreases keys.len() - n,
    {
        let key = keys[n].as_str();
        let ghost prefix = keys@.take(n as int);
        let ghost next = keys@.take(n + 1);
        assert(next.drop_last() =~= prefix);
        assert(next.last() == keys@[n as int]);
        let ghost old_t = tally_view(t@);
        let mut k: usize = 0;
        while k < t.len()
            invariant
                k <= t@.len(),
                old_t == tally_view(t@),
                forall|i: int| 0 <= i < k ==> text_before(#[trigger] old_t[i].0, key@),
            ensures
                k <= t@.len(),
                forall|i: int| 0 <= i < k ==> text_before(#[trigger] old_t[i].0, key@),
                k < t@.len() ==> !text_before(old_t[k as int].0, key@),
            decreases t.len() - k,
        {
            assert(old_t[k as int].0 == t@[k as int].0@);
            if !text_less(t[k].0.as_str(), key) {
                break;
            }
            k = k + 1;
        }
        proof {
            lemma_occurrences_bound(keys@.take(n + 1), key@);
            assert forall|i: int| 0 <= i < old_t.len() implies #[trigger] occurrences(next, old_t[i].0)
                == old_t[i].1 + (if old_t[i].0 == key@ { 1nat } else { 0nat }) by {}
        }
        if k < t.len() && str_eq(t[k].0.as_str(), key) {
            let count = t[k].1;
            assert(old_t[k as int].1 == occurrences(prefix, key@));
            assert(occurrences(next, key@) == count + 1);
            assert(count + 1 <= keys@.len());
            let name = String::from_str(key);
            t.set(k, (name, count + 1));
            proof {
                let nt = tally_view(t@);
                assert(nt =~= old_t.update(k as int, (key@, (count + 1) as nat)));
                assert forall|i: int| 0 <= i < nt.len() implies #[trigger] nt[i].1 == occurrences(next, nt[i].0) && nt[i].1 > 0 by {
                    if i != k {
                        assert(nt[i] == old_t[i]);
                        assert(old_t[i].0 != old_t[k as int].0) by {
                            if i < k {
                                lemma_text_before_irreflexive(old_t[i].0);
                            } else {
                                lemma_text_before_irreflexive(old_t[k as int].0);
                            }
                        }
                    }
                }
                assert forall|m: int| 0 <= m < next.len() implies exists|i: int| 0 <= i < nt.len() && #[trigger] nt[i].0 == (#[trigger] next[m])@ by {
                    if m < n {
                        assert(next[m] == prefix[m]);
                        let i = choose|i: int| 0 <= i < old_t.len() && #[trigger] old_t[i].0 == (#[trigger] prefix[m])@;
                        assert(nt[i].0 == old_t[i].0);
                    } else {
                        assert(nt[k as int].0 == next[m]@);
                    }
                }
            }
        } else {
            proof {
                if k < t.len() {
                    lemma_text_before_total(old_t[k as int].0, key@);
                }
                assert forall|i: int| 0 <= i < old_t.len() implies #[trigger] old_t[i].0 != key@ by {
                    lemma_text_before_irreflexive(key@);
                    if i > k {
                        lemma_text_before_transitive(key@, old_t[k as int].0, old_t[i].0);
                    }
                }
                assert(occurrences(prefix, key@) == 0) by {
                    if occurrences(prefix, key@) > 0 {
                        lemma_occurrence_witness(prefix, key@);
                        let m = choose|m: int| 0 <= m < prefix.len() && prefix[m]@ == key@;
                        let i = choose|i: int| 0 <= i < old_t.len() && #[trigger] old_t[i].0 == (#[trigger] prefix[m])@;
                        assert(old_t[i].0 == key@);
                    }
                }
            }
            let name = String::from_str(key);
            t.insert(k, (name, 1));
            proof {
                let nt = tally_view(t@);
                assert(nt =~= old_t.insert(k as int, (key@, 1nat)));
                assert forall|i: int, j: int| 0 <= i < j < nt.len() implies text_before(#[trigger] nt[i].0, #[trigger] nt[j].0) by {
                    if j < k {
                        assert(nt[i] == old_t[i] && nt[j] == old_t[j]);
                    } else if j == k {
                        assert(nt[i] == old_t[i]);
                    } else if i == k {
                        assert(nt[j] == old_t[j - 1]);
                        if j - 1 > k {
                            lemma_text_before_transitive(key@, old_t[k as int].0, old_t[j - 1].0);
                        }
                    } else if i < k {
                        assert(nt[i] == old_t[i] && nt[j] == old_t[j - 1]);
                    } else {
                        assert(nt[i] == old_t[i - 1] && nt[j] == old_t[j - 1]);
                    }
                }
                assert forall|i: int| 0 <= i < nt.len() implies #[trigger] nt[i].1 == occurrences(next, nt[i].0) && nt[i].1 > 0 by {
                    if i < k {
                        assert(nt[i] == old_t[i]);
                    } else if i > k {
                        assert(nt[i] == old_t[i - 1]);
                    }
                }
                assert forall|m: int| 0 <= m < next.len() implies exists|i: int| 0 <= i < nt.len() && #[trigger] nt[i].0 == (#[trigger] next[m])@ by {
                    if m < n {
                        assert(next[m] == prefix[m]);
                        let i = choose|i: int| 0 <= i < old_t.len() && #[trigger] old_t[i].0 == (#[trigger] prefix[m])@;
                        if i < k {
                            assert(nt[i].0 == old_t[i].0);
                        } else {
                            assert(nt[i + 1].0 == old_t[i].0);
                        }
                    } else {
                        assert(nt[k as int].0 == next[m]@);
                    }
                }
            }
        }
        n = n + 1;
    }
    assert(keys@.take(n as int) =~= keys@);
    t
}

proof fn lemma_occurrence_witness(keys: Seq<String>, k: Seq<char>)
    requires
        occurrences(keys, k) > 0,
    ensures
        exists|m: int| 0 <= m < keys.len() && keys[m]@ == k,
    decreases keys.len(),
{
    if keys.last()@ == k {
        assert(keys[keys.len() - 1]@ == k);
    } else {
        lemma_occurrence_witness(keys.drop_last(), k);
        let m = choose|m: int| 0 <= m < keys.drop_last().len() && keys.drop_last()[m]@ == k;
        assert(keys[m]@ == k);
    }
}

/// `{count}x {key}` for each entry, joined by `, `.
pub open spec fn tally_line(t: Seq<(Seq<char>, nat)>) -> Seq<char>
    decreases t.len(),
{
    if t.len() == 0 {
        Seq::empty()
    } else if t.len() == 1 {
        decimal(t[0].1) + "x "@ + t[0].0
    } else {
        tally_line(t.drop_last()) + ", "@ + decimal(t.last().1) + "x "@ + t.last().0
    }
}

/// A tally as one line, e.g. `3x text, 1x shape`.
pub fn tally_summary(t: &Vec<(String, usize)>) -> (r: String)
    ensures
        r@ == tally_line(tally_view(t@)),
{
    let ghost tv = tally_view(t@);
    let mut out = String::new();
    let mut i: usize = 0;
    while i < t.len()
        invariant
            i <= t@.len(),
            tv == tally_view(t@),
            out@ == tally_line(tv.take(i as int)),
        decreases t.len() - i,
    {
        assert(tv.take(i + 1).drop_last() =~= tv.take(i as int));
        assert(tv[i as int] == (t@[i as int].0@, t@[i as int].1 as nat));
        if i > 0 {
            push_str(&mut out, ", ");
        }
        let n = usize_to_string(t[i].1);
        push_str(&mut out, n.as_str());
        push_str(&mut out, "x ");
        push_str(&mut out, t[i].0.as_str());
        i = i + 1;
    }
    assert(tv.take(i as int) =~= tv);
    out
}

} // verus!
