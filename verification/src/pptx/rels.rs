//! Navigation of a package through its relationship parts: the part a
//! relationship type points to, the slides of a presentation in order, and
//! the relationship maps of slides and layouts.

use vstd::prelude::*;

use super::import::{resolve_target, resolve_target_spec};
use crate::error::Error;
use crate::text::{chars_of, push_str, str_eq};

verus! {

/// One `Relationship` element: its `Id`, `Type` and `Target` attributes,
/// each empty where the attribute is absent.
#[derive(Debug, Clone, PartialEq)]
pub struct PackageRel {
    pub id: String,
    pub kind: String,
    pub target: String,
}

/// Whether `s` ends with `suffix`.
pub open spec fn ends_with(s: Seq<char>, suffix: Seq<char>) -> bool {
    suffix.len() <= s.len() && s.skip(s.len() - suffix.len()) == suffix
}

/// Index of the first relationship from `i` on whose type ends with
/// `suffix`.
pub open spec fn first_of_kind(rels: Seq<PackageRel>, suffix: Seq<char>, i: int) -> Option<int>
    decreases rels.len() - i,
{
    if i < 0 || i >= rels.len() {
        None
    } else if ends_with(rels[i].kind@, suffix) {
        Some(i)
    } else {
        first_of_kind(rels, suffix, i + 1)
    }
}

fn ends_with_str(s: &str, suffix: &str) -> (r: bool)
    ensures
        r == ends_with(s@, suffix@),
{
    let a = chars_of(s);
    let b = chars_of(suffix);
    if b.len() > a.len() {
        return false;
    }
    let n = a.len();
    let off = a.len() - b.len();
    let mut i: usize = 0;
    while i < b.len()
        invariant
            n == a@.len(),
            a@ == s@,
            b@ == suffix@,
            off == a@.len() - b@.len(),
            i <= b@.len(),
            forall|j: int| 0 <= j < i ==> a@[off + j] == b@[j],
        decreases b.len() - i,
    {
        if a[off + i] != b[i] {
            assert(a@.skip(off as int)[i as int] == a@[off + i]);
            return false;
        }
        i = i + 1;
    }
    assert(a@.skip(off as int) =~= b@);
    true
}

/// Position of the first relationship whose type ends with `suffix`.
fn position_of_kind(rels: &[PackageRel], suffix: &str) -> (r: Option<usize>)
    ensures
        match r {
            Some(i) => first_of_kind(rels@, suffix@, 0) == Some(i as int) && i < rels@.len(),
            None => first_of_kind(rels@, suffix@, 0) is None,
        },
{
    let mut i: usize = 0;
    while i < rels.len()
        invariant
            i <= rels@.len(),
            first_of_kind(rels@, suffix@, 0) == first_of_kind(rels@, suffix@, i as int),
        decreases rels.len() - i,
    {
        if ends_with_str(rels[i].kind.as_str(), suffix) {
            return Some(i);
        }
        i = i + 1;
    }
    None
}

/// The target of the package's main part: the first root relationship of
/// the `officeDocument` type.
pub fn office_document_target(rels: &[PackageRel]) -> (r: Result<String, Error>)
    ensures
        match first_of_kind(rels@, "/officeDocument"@, 0) {
            Some(i) => r matches Ok(t) && t@ == rels@[i].target@,
            None => r matches Err(Error::Invalid(m)) && m@
                == "package has no officeDocument relationship in _rels/.rels"@,
        },
{
    match position_of_kind(rels, "/officeDocument") {
        Some(i) => Ok(rels[i].target.clone()),
        None => Err(Error::Invalid(String::from_str("package has no officeDocument relationship in _rels/.rels"))),
    }
}

/// The target, resolved against `part`, of the first relationship whose
/// type ends with `suffix`.
pub fn first_target_of_kind(part: &str, rels: &[PackageRel], suffix: &str) -> (r: Option<String>)
    ensures
        match first_of_kind(rels@, suffix@, 0) {
            Some(i) => r matches Some(t) && t@ == resolve_target_spec(part@, rels@[i].target@),
            None => r is None,
        },
{
    match position_of_kind(rels, suffix) {
        Some(i) => Some(resolve_target(part, rels[i].target.as_str())),
        None => None,
    }
}

/// The map of a list of key/value pairs in which a later pair wins.
pub open spec fn map_of(entries: Seq<(Seq<char>, Seq<char>)>) -> Map<Seq<char>, Seq<char>>
    decreases entries.len(),
{
    if entries.len() == 0 {
        Map::empty()
    } else {
        map_of(entries.drop_last()).insert(entries.last().0, entries.last().1)
    }
}

proof fn lemma_map_of_last(e: Seq<(Seq<char>, Seq<char>)>, k: Seq<char>, i: int)
    requires
        0 <= i < e.len(),
        e[i].0 == k,
        forall|j: int| i < j < e.len() ==> e[j].0 != k,
    ensures
        map_of(e).contains_key(k),
        map_of(e)[k] == e[i].1,
    decreases e.len(),
{
    if i < e.len() - 1 {
        assert(e.last() == e[e.len() - 1]);
        lemma_map_of_last(e.drop_last(), k, i);
    }
}

proof fn lemma_map_of_absent(e: Seq<(Seq<char>, Seq<char>)>, k: Seq<char>)
    requires
        forall|j: int| 0 <= j < e.len() ==> e[j].0 != k,
    ensures
        !map_of(e).contains_key(k),
    decreases e.len(),
{
    if e.len() > 0 {
        assert(e.last() == e[e.len() - 1]);
        lemma_map_of_absent(e.drop_last(), k);
    }
}

/// Relationship ids of a part mapped to the package paths they point to.
#[derive(Debug, Clone)]
pub struct RelMap {
    entries: Vec<(String, String)>,
}

pub open spec fn entry_views(v: Seq<(String, String)>) -> Seq<(Seq<char>, Seq<char>)> {
    v.map_values(|e: (String, String)| (e.0@, e.1@))
}

impl View for RelMap {
    type V = Map<Seq<char>, Seq<char>>;

    closed spec fn view(&self) -> Map<Seq<char>, Seq<char>> {
        map_of(entry_views(self.entries@))
    }
}

impl RelMap {
    /// An empty map.
    pub fn new() -> (r: Self)
        ensures
            r@ == Map::<Seq<char>, Seq<char>>::empty(),
    {
        RelMap { entries: Vec::new() }
    }

    /// Map `id` to `target`, replacing an earlier target of `id`.
    pub fn insert(&mut self, id: String, target: String)
        ensures
            final(self)@ == old(self)@.insert(id@, target@),
    {
        let ghost before = entry_views(self.entries@);
        self.entries.push((id, target));
        assert(entry_views(self.entries@).drop_last() =~= before);
    }

    /// The target of relationship `id`.
    pub fn get(&self, id: &str) -> (r: Option<&str>)
        ensures
            match r {
                Some(t) => self@.contains_key(id@) && self@[id@] == t@,
                None => !self@.contains_key(id@),
            },
    {
        let ghost e = entry_views(self.entries@);
        let mut j: usize = self.entries.len();
        while j > 0
            invariant
                j <= self.entries@.len(),
                e == entry_views(self.entries@),
                forall|m: int| j <= m < e.len() ==> e[m].0 != id@,
            decreases j,
        {
            let k = j - 1;
            assert(e[k as int] == (self.entries@[k as int].0@, self.entries@[k as int].1@));
            if str_eq(self.entries[k].0.as_str(), id) {
                proof {
                    lemma_map_of_last(e, id@, k as int);
                }
                return Some(self.entries[k].1.as_str());
            }
            j = k;
        }
        proof {
            lemma_map_of_absent(e, id@);
        }
        None
    }
}

/// The relationships of `part` as id → target resolved against `part`; a
/// later relationship with the same id wins.
pub open spec fn rel_map_spec(part: Seq<char>, rels: Seq<PackageRel>) -> Map<Seq<char>, Seq<char>> {
    map_of(rels.map_values(|r: PackageRel| (r.id@, resolve_target_spec(part, r.target@))))
}

/// The relationship map of `part`.
pub fn rel_map(part: &str, rels: &[PackageRel]) -> (r: RelMap)
    ensures
        r@ == rel_map_spec(part@, rels@),
{
    let ghost all = rels@.map_values(|r: PackageRel| (r.id@, resolve_target_spec(part@, r.target@)));
    let mut m = RelMap::new();
    let mut i: usize = 0;
    assert(all.take(0) =~= Seq::<(Seq<char>, Seq<char>)>::empty());
    while i < rels.len()
        invariant
            i <= rels@.len(),
            all == rels@.map_values(|r: PackageRel| (r.id@, resolve_target_spec(part@, r.target@))),
            m@ == map_of(all.take(i as int)),
        decreases rels.len() - i,
    {
        assert(all.take(i + 1).drop_last() =~= all.take(i as int));
        let target = resolve_target(part, rels[i].target.as_str());
        m.insert(rels[i].id.clone(), target);
        i = i + 1;
    }
    assert(all.take(i as int) =~= all);
    m
}

/// A slide's relationship map and its layout part: the target of its first
/// `slideLayout` relationship.
pub fn slide_rels(part: &str, rels: &[PackageRel]) -> (r: (RelMap, Option<String>))
    ensures
        r.0@ == rel_map_spec(part@, rels@),
        match first_of_kind(rels@, "/slideLayout"@, 0) {
            Some(i) => r.1 matches Some(t) && t@ == resolve_target_spec(part@, rels@[i].target@),
            None => r.1 is None,
        },
{
    (rel_map(part, rels), first_target_of_kind(part, rels, "/slideLayout"))
}

/// Position of the first slide entry that has no relationship id, or whose
/// id the presentation does not map, from `k` on.
pub open spec fn first_unmapped(ids: Seq<Option<String>>, m: Map<Seq<char>, Seq<char>>, k: int) -> Option<int>
    decreases ids.len() - k,
{
    if k < 0 || k >= ids.len() {
        None
    } else if ids[k] is None || !m.contains_key(ids[k]->0@) {
        Some(k)
    } else {
        first_unmapped(ids, m, k + 1)
    }
}

/// The error for a slide entry that cannot be resolved.
pub open spec fn unmapped_message(id: Option<String>) -> Seq<char> {
    match id {
        None => "p:sldId missing r:id"@,
        Some(rid) => "slide rId "@ + rid@ + " not in presentation rels"@,
    }
}

/// The slide parts of a presentation in the order of its `p:sldIdLst`:
/// `sld_ids` holds the relationship id of each `p:sldId` (absent when the
/// list itself is missing), `rels` the relationships of the presentation
/// part `part`.
pub fn presentation_slides(part: &str, sld_ids: Option<&[Option<String>]>, rels: &[PackageRel]) -> (r: Result<
    Vec<String>,
    Error,
>)
    ensures
        match sld_ids {
            None => r matches Err(Error::Invalid(msg)) && msg@ == "presentation.xml has no p:sldIdLst"@,
            Some(ids) => {
                let m = rel_map_spec(part@, rels@);
                match first_unmapped(ids@, m, 0) {
                    Some(k) => r matches Err(Error::Invalid(msg)) && msg@ == unmapped_message(ids@[k]),
                    None => r matches Ok(v) && v@.len() == ids@.len() && forall|k: int|
                        0 <= k < ids@.len() ==> #[trigger] v@[k]@ == m[ids@[k]->0@],
                }
            },
        },
{
    let ids = match sld_ids {
        None => {
            return Err(Error::Invalid(String::from_str("presentation.xml has no p:sldIdLst")));
        },
        Some(ids) => ids,
    };
    let m = rel_map(part, rels);
    let ghost mv = rel_map_spec(part@, rels@);
    let mut out: Vec<String> = Vec::new();
    let mut k: usize = 0;
    while k < ids.len()
        invariant
            k <= ids@.len(),
            sld_ids == Some(ids),
            mv == rel_map_spec(part@, rels@),
            m@ == mv,
            first_unmapped(ids@, mv, 0) == first_unmapped(ids@, mv, k as int),
            out@.len() == k,
            forall|j: int| 0 <= j < k ==> ids@[j] is Some && mv.contains_key(ids@[j]->0@),
            forall|j: int| 0 <= j < k ==> #[trigger] out@[j]@ == mv[ids@[j]->0@],
        decreases ids.len() - k,
    {
        match &ids[k] {
            None => {
                return Err(Error::Invalid(String::from_str("p:sldId missing r:id")));
            },
            Some(rid) => match m.get(rid.as_str()) {
                Some(t) => {
                    out.push(String::from_str(t));
                },
                None => {
                    let mut msg = String::from_str("slide rId ");
                    push_str(&mut msg, rid.as_str());
                    push_str(&mut msg, " not in presentation rels");
                    return Err(Error::Invalid(msg));
                },
            },
        }
        k = k + 1;
    }
    Ok(out)
}

} // verus!
