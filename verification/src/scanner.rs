//! PATH scanning: which executables each directory provides and which
//! names several directories provide (the first directory in PATH wins).
//!
//! The directories are listed by the caller, in PATH order; this module
//! turns the listings into conflicts and tool groups.

use crate::fs::{extension_spec, path_extension};
use crate::order::{
    is_permutation, lemma_text_lt_irreflexive, lemma_text_lt_total, lemma_text_lt_transitive,
    sorts_stably, stable_order, text_lt,
};
use crate::text::{
    contains_chars, contains_seq, copy_string, occurs_at, str_eq, strings_view, to_lowercase,
    unicode_lower,
};
use vstd::prelude::*;

verus! {

/// What listing one PATH directory found.
#[derive(Debug, Clone, PartialEq, Eq)]
pub struct DirListing {
    pub dir: String,
    /// Whether the directory exists.
    pub exists: bool,
    /// The executable file names it holds, as listed.
    pub exes: Vec<String>,
}

/// One directory that provides a conflicting name, and its PATH position.
#[derive(Debug, Clone, PartialEq, Eq)]
pub struct ConflictLocation {
    pub dir: String,
    pub priority: usize,
}

/// A name (lower-cased) provided by two or more directories.
#[derive(Debug, Clone, PartialEq, Eq)]
pub struct ConflictEntry {
    pub name: String,
    pub locations: Vec<ConflictLocation>,
}

/// The executables of one directory.
#[derive(Debug, Clone, PartialEq, Eq)]
pub struct ToolGroup {
    pub dir: String,
    pub exists: bool,
    pub exes: Vec<String>,
}

/// Conflicts and tool groups of one scan.
#[derive(Debug, Clone, PartialEq, Eq)]
pub struct ScanResult {
    pub conflicts: Vec<ConflictEntry>,
    pub tools: Vec<ToolGroup>,
}

/// Extensions that make a file executable from PATH.
pub open spec fn executable_extension(ext: Seq<char>) -> bool {
    ext == "exe"@ || ext == "bat"@ || ext == "cmd"@ || ext == "com"@ || ext == "ps1"@
}

/// Whether a file name is an executable (`.exe`, `.bat`, `.cmd`, `.com`,
/// `.ps1`, in any ASCII case).
pub fn is_executable_name(name: &str) -> (r: bool)
    ensures
        r == executable_extension(extension_spec(name@)),
{
    let e = path_extension(name);
    let s = e.as_str();
    str_eq(s, "exe") || str_eq(s, "bat") || str_eq(s, "cmd") || str_eq(s, "com") || str_eq(s, "ps1")
}

// ───────────────────────── views ─────────────────────────

pub type ListingView = (Seq<char>, bool, Seq<Seq<char>>);

pub open spec fn listing_view(l: DirListing) -> ListingView {
    (l.dir@, l.exists, strings_view(l.exes@))
}

pub open spec fn listings_view(ls: Seq<DirListing>) -> Seq<ListingView> {
    ls.map_values(|l: DirListing| listing_view(l))
}

/// A conflict as `(name, [(dir, priority)])`.
pub type ConflictView = (Seq<char>, Seq<(Seq<char>, usize)>);

pub open spec fn location_view(l: ConflictLocation) -> (Seq<char>, usize) {
    (l.dir@, l.priority)
}

pub open spec fn conflict_view(c: ConflictEntry) -> ConflictView {
    (c.name@, c.locations@.map_values(|l: ConflictLocation| location_view(l)))
}

pub open spec fn conflicts_view(cs: Seq<ConflictEntry>) -> Seq<ConflictView> {
    cs.map_values(|c: ConflictEntry| conflict_view(c))
}

pub type ToolView = (Seq<char>, bool, Seq<Seq<char>>);

pub open spec fn tool_view(t: ToolGroup) -> ToolView {
    (t.dir@, t.exists, strings_view(t.exes@))
}

pub open spec fn tools_view(ts: Seq<ToolGroup>) -> Seq<ToolView> {
    ts.map_values(|t: ToolGroup| tool_view(t))
}

// ───────────────────────── conflicts ─────────────────────────

/// Every executable found, as `(lower-cased name, priority, dir)`, in PATH
/// order, for the first `n` directories.
pub open spec fn occurrences(ls: Seq<ListingView>, n: int) -> Seq<(Seq<char>, usize, Seq<char>)>
    decreases n,
{
    if n <= 0 || n > ls.len() {
        Seq::empty()
    } else {
        occurrences(ls, n - 1) + ls[n - 1].2.map_values(
            |e: Seq<char>| (unicode_lower(e), (n - 1) as usize, ls[n - 1].0),
        )
    }
}

pub open spec fn all_occurrences(ls: Seq<ListingView>) -> Seq<(Seq<char>, usize, Seq<char>)> {
    occurrences(ls, ls.len() as int)
}

/// Where a lower-cased name occurs, in PATH order.
pub open spec fn locations_of(occ: Seq<(Seq<char>, usize, Seq<char>)>, k: Seq<char>) -> Seq<(Seq<char>, usize)>
    decreases occ.len(),
{
    if occ.len() == 0 {
        Seq::empty()
    } else if occ.last().0 == k {
        locations_of(occ.drop_last(), k).push((occ.last().2, occ.last().1))
    } else {
        locations_of(occ.drop_last(), k)
    }
}

/// The conflicts of a set of occurrences: exactly the names found at two
/// or more places, each with all its places in PATH order, the names in
/// strictly increasing order.
pub open spec fn conflicts_spec(occ: Seq<(Seq<char>, usize, Seq<char>)>, cs: Seq<ConflictView>) -> bool {
    &&& forall|i: int, j: int| 0 <= i < j < cs.len() ==> text_lt(#[trigger] cs[i].0, #[trigger] cs[j].0)
    &&& forall|i: int|
        0 <= i < cs.len() ==> (#[trigger] cs[i]).1 == locations_of(occ, cs[i].0) && cs[i].1.len() >= 2
    &&& forall|k: Seq<char>|
        #[trigger] locations_of(occ, k).len() >= 2 ==> exists|i: int| 0 <= i < cs.len() && #[trigger] cs[i].0 == k
}

pub type OccView = (Seq<char>, usize, Seq<char>);

pub open spec fn occ_view(o: (String, usize, String)) -> OccView {
    (o.0@, o.1, o.2@)
}

fn collect_occurrences(listings: &Vec<DirListing>) -> (r: Vec<(String, usize, String)>)
    ensures
        r@.map_values(|o: (String, usize, String)| occ_view(o)) == all_occurrences(listings_view(listings@)),
{
    let ghost lv = listings_view(listings@);
    let mut out: Vec<(String, usize, String)> = Vec::new();
    let mut p: usize = 0;
    assert(out@.map_values(|o: (String, usize, String)| occ_view(o)) =~= occurrences(lv, 0));
    while p < listings.len()
        invariant
            0 <= p <= listings.len(),
            lv == listings_view(listings@),
            out@.map_values(|o: (String, usize, String)| occ_view(o)) == occurrences(lv, p as int),
        decreases listings.len() - p,
    {
        let l = &listings[p];
        assert(lv[p as int] == listing_view(listings@[p as int]));
        let ghost base = out@.map_values(|o: (String, usize, String)| occ_view(o));
        let ghost add = lv[p as int].2.map_values(|e: Seq<char>| (unicode_lower(e), p, lv[p as int].0));
        let mut j: usize = 0;
        while j < l.exes.len()
            invariant
                0 <= j <= l.exes.len(),
                l == listings@[p as int],
                lv[p as int] == listing_view(listings@[p as int]),
                add == lv[p as int].2.map_values(|e: Seq<char>| (unicode_lower(e), p, lv[p as int].0)),
                out@.map_values(|o: (String, usize, String)| occ_view(o)) == base + add.take(j as int),
            decreases l.exes.len() - j,
        {
            let o = (to_lowercase(l.exes[j].as_str()), p, copy_string(&l.dir));
            let ghost before = out@;
            out.push(o);
            assert(strings_view(l.exes@)[j as int] == l.exes@[j as int]@);
            assert(add.take(j + 1) =~= add.take(j as int).push(occ_view(o)));
            assert(out@.map_values(|o: (String, usize, String)| occ_view(o)) =~= before.map_values(
                |o: (String, usize, String)| occ_view(o),
            ).push(occ_view(o)));
            j = j + 1;
        }
        assert(add.take(l.exes.len() as int) =~= add);
        p = p + 1;
    }
    out
}

/// The places of one lower-cased name.
fn locations_exec(occ: &Vec<(String, usize, String)>, k: &str) -> (r: Vec<ConflictLocation>)
    ensures
        r@.map_values(|l: ConflictLocation| location_view(l)) == locations_of(
            occ@.map_values(|o: (String, usize, String)| occ_view(o)),
            k@,
        ),
{
    let ghost ov = occ@.map_values(|o: (String, usize, String)| occ_view(o));
    let mut out: Vec<ConflictLocation> = Vec::new();
    let mut i: usize = 0;
    assert(out@.map_values(|l: ConflictLocation| location_view(l)) =~= locations_of(ov.take(0), k@));
    while i < occ.len()
        invariant
            0 <= i <= occ.len(),
            ov == occ@.map_values(|o: (String, usize, String)| occ_view(o)),
            out@.map_values(|l: ConflictLocation| location_view(l)) == locations_of(ov.take(i as int), k@),
        decreases occ.len() - i,
    {
        assert(ov.take(i + 1).drop_last() =~= ov.take(i as int));
        assert(ov.take(i + 1).last() == occ_view(occ@[i as int]));
        if str_eq(occ[i].0.as_str(), k) {
            let l = ConflictLocation { dir: copy_string(&occ[i].2), priority: occ[i].1 };
            let ghost before = out@;
            out.push(l);
            assert(out@.map_values(|l: ConflictLocation| location_view(l)) =~= before.map_values(
                |l: ConflictLocation| location_view(l),
            ).push(location_view(l)));
        }
        i = i + 1;
    }
    assert(ov.take(occ.len() as int) =~= ov);
    out
}

/// A key that occurs nowhere has no places.
proof fn lemma_locations_absent(occ: Seq<OccView>, k: Seq<char>)
    requires
        forall|i: int| 0 <= i < occ.len() ==> (#[trigger] occ[i]).0 != k,
    ensures
        locations_of(occ, k).len() == 0,
    decreases occ.len(),
{
    if occ.len() > 0 {
        assert forall|i: int| 0 <= i < occ.drop_last().len() implies (#[trigger] occ.drop_last()[i]).0 != k by {
            assert(occ.drop_last()[i] == occ[i]);
        }
        lemma_locations_absent(occ.drop_last(), k);
    }
}

/// Finds the conflicts among occurrences `(name, priority, dir)` whose
/// names are already lower-cased.
pub fn conflicts_of(occ: &Vec<(String, usize, String)>) -> (r: Vec<ConflictEntry>)
    ensures
        conflicts_spec(occ@.map_values(|o: (String, usize, String)| occ_view(o)), conflicts_view(r@)),
{
    let ghost ov = occ@.map_values(|o: (String, usize, String)| occ_view(o));
    // distinct keys, first occurrence first
    let mut keys: Vec<String> = Vec::new();
    let mut i: usize = 0;
    while i < occ.len()
        invariant
            0 <= i <= occ.len(),
            ov == occ@.map_values(|o: (String, usize, String)| occ_view(o)),
            forall|a: int, b: int| 0 <= a < b < keys@.len() ==> #[trigger] keys@[a]@ != #[trigger] keys@[b]@,
            forall|j: int| 0 <= j < i ==> strings_view(keys@).contains(#[trigger] ov[j].0),
        decreases occ.len() - i,
    {
        assert(ov[i as int].0 == occ@[i as int].0@);
        if !crate::text::contains_string(&keys, occ[i].0.as_str()) {
            let ghost before = keys@;
            keys.push(copy_string(&occ[i].0));
            proof {
                assert forall|a: int, b: int| 0 <= a < b < keys@.len() implies #[trigger] keys@[a]@
                    != #[trigger] keys@[b]@ by {
                    if b == before.len() {
                        assert(strings_view(before)[a] == before[a]@);
                    }
                }
                assert forall|j: int| 0 <= j <= i implies strings_view(keys@).contains(#[trigger] ov[j].0) by {
                    if j < i {
                        let w = choose|w: int| 0 <= w < strings_view(before).len() && strings_view(before)[w] == ov[j].0;
                        assert(strings_view(keys@)[w] == ov[j].0);
                    } else {
                        assert(strings_view(keys@)[before.len() as int] == ov[j].0);
                    }
                }
            }
        }
        i = i + 1;
    }
    // keep the keys found twice or more
    let mut found: Vec<ConflictEntry> = Vec::new();
    let mut names: Vec<String> = Vec::new();
    let mut q: usize = 0;
    while q < keys.len()
        invariant
            0 <= q <= keys.len(),
            ov == occ@.map_values(|o: (String, usize, String)| occ_view(o)),
            forall|a: int, b: int| 0 <= a < b < keys@.len() ==> #[trigger] keys@[a]@ != #[trigger] keys@[b]@,
            forall|j: int| 0 <= j < occ@.len() ==> strings_view(keys@).contains(#[trigger] ov[j].0),
            found@.len() == names@.len(),
            forall|a: int| 0 <= a < found@.len() ==> (#[trigger] found@[a]).name@ == names@[a]@,
            forall|a: int|
                0 <= a < found@.len() ==> conflict_view(#[trigger] found@[a]).1 == locations_of(ov, found@[a].name@)
                    && conflict_view(found@[a]).1.len() >= 2,
            forall|a: int| 0 <= a < found@.len() ==> exists|b: int| 0 <= b < q && #[trigger] found@[a].name@ == keys@[b]@,
            forall|a: int, b: int| 0 <= a < b < found@.len() ==> #[trigger] found@[a].name@ != #[trigger] found@[b].name@,
            forall|b: int|
                0 <= b < q && #[trigger] locations_of(ov, keys@[b]@).len() >= 2 ==> exists|a: int|
                    0 <= a < found@.len() && #[trigger] found@[a].name@ == keys@[b]@,
        decreases keys.len() - q,
    {
        let locs = locations_exec(occ, keys[q].as_str());
        if locs.len() >= 2 {
            let e = ConflictEntry { name: copy_string(&keys[q]), locations: locs };
            let ghost before = found@;
            found.push(e);
            names.push(copy_string(&keys[q]));
            proof {
                assert(found@[before.len() as int] == e);
                assert forall|a: int, b: int| 0 <= a < b < found@.len() implies #[trigger] found@[a].name@
                    != #[trigger] found@[b].name@ by {
                    if b == before.len() {
                        assert(found@[a] == before[a]);
                        let w = choose|w: int| 0 <= w < q && #[trigger] before[a].name@ == keys@[w]@;
                    } else {
                        assert(found@[a] == before[a] && found@[b] == before[b]);
                    }
                }
                assert forall|a: int| 0 <= a < found@.len() implies exists|b: int|
                    0 <= b < q + 1 && #[trigger] found@[a].name@ == keys@[b]@ by {
                    if a < before.len() {
                        assert(found@[a] == before[a]);
                        let w = choose|w: int| 0 <= w < q && #[trigger] before[a].name@ == keys@[w]@;
                        assert(found@[a].name@ == keys@[w]@);
                    } else {
                        assert(found@[a].name@ == keys@[q as int]@);
                    }
                }
                assert forall|b: int| 0 <= b < q + 1 && #[trigger] locations_of(ov, keys@[b]@).len() >= 2 implies exists|
                    a: int,
                | 0 <= a < found@.len() && #[trigger] found@[a].name@ == keys@[b]@ by {
                    if b < q {
                        let w = choose|w: int| 0 <= w < before.len() && #[trigger] before[w].name@ == keys@[b]@;
                        assert(found@[w] == before[w]);
                    } else {
                        assert(found@[before.len() as int].name@ == keys@[b]@);
                    }
                }
            }
        }
        q = q + 1;
    }
    // sort by name
    let order = stable_order(&names);
    let mut out: Vec<ConflictEntry> = Vec::new();
    let mut t: usize = 0;
    while t < order.len()
        invariant
            0 <= t <= order.len(),
            is_permutation(order@, names@.len() as int),
            sorts_stably(order@, strings_view(names@)),
            found@.len() == names@.len(),
            forall|a: int| 0 <= a < found@.len() ==> (#[trigger] found@[a]).name@ == names@[a]@,
            out@.len() == t,
            forall|a: int| 0 <= a < t ==> #[trigger] conflict_view(out@[a]) == conflict_view(found@[order@[a] as int]),
        decreases order.len() - t,
    {
        let src = &found[order[t]];
        let e = ConflictEntry { name: copy_string(&src.name), locations: copy_locations(&src.locations) };
        out.push(e);
        t = t + 1;
    }
    proof {
        let cv = conflicts_view(out@);
        assert forall|i: int| 0 <= i < cv.len() implies #[trigger] cv[i] == conflict_view(found@[order@[i] as int]) by {
            assert(cv[i] == conflict_view(out@[i]));
        }
        assert forall|i: int, j: int| 0 <= i < j < cv.len() implies text_lt(#[trigger] cv[i].0, #[trigger] cv[j].0) by {
            let a = found@[order@[i] as int].name@;
            let b = found@[order@[j] as int].name@;
            assert(strings_view(names@)[order@[i] as int] == a);
            assert(strings_view(names@)[order@[j] as int] == b);
            assert(!text_lt(b, a));
            assert(order@[i] != order@[j]);
            assert(a != b);
            lemma_text_lt_total(a, b);
        }
        assert forall|k: Seq<char>| #[trigger] locations_of(ov, k).len() >= 2 implies exists|i: int|
            0 <= i < cv.len() && #[trigger] cv[i].0 == k by {
            // k occurs, so it is one of the keys, so it was kept, so some position of the order lists it
            if forall|j: int| 0 <= j < ov.len() ==> (#[trigger] ov[j]).0 != k {
                lemma_locations_absent(ov, k);
            }
            let j = choose|j: int| 0 <= j < ov.len() && (#[trigger] ov[j]).0 == k;
            assert(strings_view(keys@).contains(ov[j].0));
            let b = choose|b: int| 0 <= b < strings_view(keys@).len() && strings_view(keys@)[b] == k;
            assert(keys@[b]@ == k);
            let a = choose|a: int| 0 <= a < found@.len() && #[trigger] found@[a].name@ == keys@[b]@;
            assert(crate::order::lists_index(order@, a));
            let i = choose|i: int| 0 <= i < order@.len() && #[trigger] order@[i] == a as usize;
            assert(cv[i].0 == k);
        }
    }
    out
}

fn copy_locations(v: &Vec<ConflictLocation>) -> (r: Vec<ConflictLocation>)
    ensures
        r@.map_values(|l: ConflictLocation| location_view(l)) == v@.map_values(|l: ConflictLocation| location_view(l)),
{
    let mut out: Vec<ConflictLocation> = Vec::new();
    let mut i: usize = 0;
    while i < v.len()
        invariant
            0 <= i <= v.len(),
            out@.len() == i,
            forall|a: int| 0 <= a < i ==> #[trigger] location_view(out@[a]) == location_view(v@[a]),
        decreases v.len() - i,
    {
        out.push(ConflictLocation { dir: copy_string(&v[i].dir), priority: v[i].priority });
        i = i + 1;
    }
    assert(out@.map_values(|l: ConflictLocation| location_view(l)) =~= v@.map_values(
        |l: ConflictLocation| location_view(l),
    ));
    out
}


// ───────────────────────── tools ─────────────────────────

/// A name passes the query when the lower-cased query is empty or occurs
/// in the lower-cased name.
pub open spec fn query_keeps(query: Seq<char>, name: Seq<char>) -> bool {
    lowered_query_keeps(unicode_lower(query), unicode_lower(name))
}

/// The same test on a query and a name already lower-cased: an empty
/// query keeps every name, any other keeps the names that contain it.
pub open spec fn lowered_query_keeps(query: Seq<char>, name: Seq<char>) -> bool {
    query.len() == 0 || contains_seq(name, query)
}

/// A non-empty lower-cased query keeps exactly the names it occurs in, at
/// any position: every name `a + query + b` is kept, and a kept name is of
/// that form; an empty query keeps every name.
pub proof fn law_query_matches_anywhere(query: Seq<char>, name: Seq<char>)
    ensures
        query.len() == 0 ==> lowered_query_keeps(query, name),
        forall|a: Seq<char>, b: Seq<char>| #[trigger] lowered_query_keeps(query, a + query + b),
        lowered_query_keeps(query, name) && query.len() > 0 ==> exists|a: Seq<char>, b: Seq<char>|
            name == #[trigger] (a + query + b),
{
    assert forall|a: Seq<char>, b: Seq<char>| #[trigger] lowered_query_keeps(query, a + query + b) by {
        let n = a + query + b;
        assert(n.subrange(a.len() as int, (a.len() + query.len()) as int) =~= query);
        assert(occurs_at(n, query, a.len() as int));
    }
    if lowered_query_keeps(query, name) && query.len() > 0 {
        let i = choose|i: int| occurs_at(name, query, i);
        let a = name.subrange(0, i);
        let b = name.subrange(i + query.len(), name.len() as int);
        assert(name =~= a + query + b);
    }
}

/// Whether a lower-cased name passes a lower-cased query.
pub fn query_keeps_lowered(query: &str, name: &str) -> (r: bool)
    ensures
        r == lowered_query_keeps(query@, name@),
{
    let qc = crate::text::chars_of(query);
    if qc.len() == 0 {
        return true;
    }
    let nc = crate::text::chars_of(name);
    contains_chars(&nc, &qc)
}

pub open spec fn filter_names(query: Seq<char>, names: Seq<Seq<char>>) -> Seq<Seq<char>>
    decreases names.len(),
{
    if names.len() == 0 {
        Seq::empty()
    } else if query_keeps(query, names.last()) {
        filter_names(query, names.drop_last()).push(names.last())
    } else {
        filter_names(query, names.drop_last())
    }
}

/// `r` lists the texts of `s` once each, in non-decreasing order.
pub open spec fn sorted_arrangement(r: Seq<Seq<char>>, s: Seq<Seq<char>>) -> bool {
    &&& r.len() == s.len()
    &&& exists|order: Seq<usize>|
        is_permutation(order, s.len() as int) && forall|i: int|
            0 <= i < r.len() ==> #[trigger] r[i] == s[order[i] as int]
    &&& forall|i: int, j: int| 0 <= i < j < r.len() ==> !text_lt(#[trigger] r[j], #[trigger] r[i])
}

/// The tool group of a directory: its executables that pass the query,
/// sorted.
pub open spec fn tool_spec(query: Seq<char>, l: ListingView, t: ToolView) -> bool {
    &&& t.0 == l.0
    &&& t.1 == l.1
    &&& sorted_arrangement(t.2, filter_names(query, l.2))
}

/// Sorts texts.
fn sort_strings(v: &Vec<String>) -> (r: Vec<String>)
    ensures
        sorted_arrangement(strings_view(r@), strings_view(v@)),
{
    let order = stable_order(v);
    let mut out: Vec<String> = Vec::new();
    let mut t: usize = 0;
    while t < order.len()
        invariant
            0 <= t <= order.len(),
            is_permutation(order@, v@.len() as int),
            sorts_stably(order@, strings_view(v@)),
            out@.len() == t,
            forall|a: int| 0 <= a < t ==> (#[trigger] out@[a])@ == v@[order@[a] as int]@,
        decreases order.len() - t,
    {
        out.push(copy_string(&v[order[t]]));
        t = t + 1;
    }
    proof {
        let r = strings_view(out@);
        let sv = strings_view(v@);
        assert forall|i: int| 0 <= i < r.len() implies #[trigger] r[i] == sv[order@[i] as int] by {
            assert(r[i] == out@[i]@);
        }
        assert forall|i: int, j: int| 0 <= i < j < r.len() implies !text_lt(#[trigger] r[j], #[trigger] r[i]) by {
            assert(r[i] == sv[order@[i] as int]);
            assert(r[j] == sv[order@[j] as int]);
        }
        let ghost w = order@;
        assert(is_permutation(w, sv.len() as int) && forall|i: int|
            0 <= i < r.len() ==> #[trigger] r[i] == sv[w[i] as int]);
    }
    out
}

/// The names of one directory that pass the query.
fn filter_exes(exes: &Vec<String>, query: &str) -> (r: Vec<String>)
    ensures
        strings_view(r@) == filter_names(query@, strings_view(exes@)),
{
    let ql = to_lowercase(query);
    let ghost sv = strings_view(exes@);
    let mut out: Vec<String> = Vec::new();
    let mut i: usize = 0;
    assert(strings_view(out@) =~= filter_names(query@, sv.take(0)));
    while i < exes.len()
        invariant
            0 <= i <= exes.len(),
            sv == strings_view(exes@),
            ql@ == unicode_lower(query@),
            strings_view(out@) == filter_names(query@, sv.take(i as int)),
        decreases exes.len() - i,
    {
        assert(sv.take(i + 1).drop_last() =~= sv.take(i as int));
        assert(sv.take(i + 1).last() == exes@[i as int]@);
        let nl = to_lowercase(exes[i].as_str());
        let keep = query_keeps_lowered(ql.as_str(), nl.as_str());
        if keep {
            let ghost before = out@;
            out.push(copy_string(&exes[i]));
            assert(strings_view(out@) =~= strings_view(before).push(exes@[i as int]@));
        }
        i = i + 1;
    }
    assert(sv.take(exes.len() as int) =~= sv);
    out
}

/// Conflicts and tool groups from the listings of the PATH directories, in
/// PATH order (a directory's position is its priority).
pub fn scan_paths(listings: Vec<DirListing>, query: String) -> (r: Result<ScanResult, String>)
    ensures
        r matches Ok(res) && {
            let lv = listings_view(listings@);
            let tv = tools_view(res.tools@);
            &&& conflicts_spec(all_occurrences(lv), conflicts_view(res.conflicts@))
            &&& tv.len() == lv.len()
            &&& forall|p: int| 0 <= p < tv.len() ==> tool_spec(query@, lv[p], #[trigger] tv[p])
        },
{
    let occ = collect_occurrences(&listings);
    let conflicts = conflicts_of(&occ);
    let ghost lv = listings_view(listings@);
    let mut tools: Vec<ToolGroup> = Vec::new();
    let mut p: usize = 0;
    while p < listings.len()
        invariant
            0 <= p <= listings.len(),
            lv == listings_view(listings@),
            tools@.len() == p,
            forall|a: int| 0 <= a < p ==> tool_spec(query@, lv[a], #[trigger] tool_view(tools@[a])),
        decreases listings.len() - p,
    {
        let l = &listings[p];
        assert(lv[p as int] == listing_view(listings@[p as int]));
        let kept = filter_exes(&l.exes, query.as_str());
        let sorted = sort_strings(&kept);
        let g = ToolGroup { dir: copy_string(&l.dir), exists: l.exists, exes: sorted };
        tools.push(g);
        p = p + 1;
    }
    proof {
        let tv = tools_view(tools@);
        assert forall|a: int| 0 <= a < tv.len() implies tool_spec(query@, lv[a], #[trigger] tv[a]) by {
            assert(tv[a] == tool_view(tools@[a]));
        }
    }
    Ok(ScanResult { conflicts, tools })
}

/// Only the conflicts of a scan.
pub fn scan_conflicts(listings: Vec<DirListing>) -> (r: Result<Vec<ConflictEntry>, String>)
    ensures
        r matches Ok(cs) && conflicts_spec(all_occurrences(listings_view(listings@)), conflicts_view(cs@)),
{
    let occ = collect_occurrences(&listings);
    Ok(conflicts_of(&occ))
}

/// Only the tool groups of a scan.
pub fn scan_tools(listings: Vec<DirListing>, query: String) -> (r: Result<Vec<ToolGroup>, String>)
    ensures
        r matches Ok(ts) && {
            let lv = listings_view(listings@);
            let tv = tools_view(ts@);
            &&& tv.len() == lv.len()
            &&& forall|p: int| 0 <= p < tv.len() ==> tool_spec(query@, lv[p], #[trigger] tv[p])
        },
{
    match scan_paths(listings, query) {
        Ok(res) => Ok(res.tools),
        Err(e) => Err(e),
    }
}


// ───────────────────────── PATH order ─────────────────────────

proof fn lemma_occurrences_ordered(ls: Seq<ListingView>, n: int)
    requires
        0 <= n <= ls.len(),
        ls.len() <= usize::MAX,
    ensures
        forall|i: int, j: int|
            0 <= i <= j < occurrences(ls, n).len() ==> (#[trigger] occurrences(ls, n)[i]).1 <= (
            #[trigger] occurrences(ls, n)[j]).1,
        forall|i: int| 0 <= i < occurrences(ls, n).len() ==> (#[trigger] occurrences(ls, n)[i]).1 < n,
    decreases n,
{
    if n > 0 {
        lemma_occurrences_ordered(ls, n - 1);
        let prev = occurrences(ls, n - 1);
        let add = ls[n - 1].2.map_values(|e: Seq<char>| (unicode_lower(e), (n - 1) as usize, ls[n - 1].0));
        let all = occurrences(ls, n);
        assert(all == prev + add);
        assert forall|i: int| 0 <= i < all.len() implies (#[trigger] all[i]).1 < n by {
            if i < prev.len() {
                assert(all[i] == prev[i]);
            } else {
                assert(all[i] == add[i - prev.len()]);
            }
        }
        assert forall|x: int| 0 <= x < add.len() implies (#[trigger] add[x]).1 == (n - 1) as usize && add[x].2
            == ls[n - 1].0 by {
            assert(add[x] == (unicode_lower(ls[n - 1].2[x]), (n - 1) as usize, ls[n - 1].0));
        }
        assert forall|i: int, j: int| 0 <= i <= j < all.len() implies (#[trigger] all[i]).1 <= (#[trigger] all[j]).1 by {
            if j < prev.len() {
                assert(all[i] == prev[i] && all[j] == prev[j]);
            } else if i < prev.len() {
                assert(all[i] == prev[i]);
                assert(all[j] == add[j - prev.len()]);
                assert(prev[i].1 < n - 1);
                assert(add[j - prev.len()].1 == (n - 1) as usize);
            } else {
                assert(all[i] == add[i - prev.len()]);
                assert(all[j] == add[j - prev.len()]);
                assert(add[i - prev.len()].1 == (n - 1) as usize);
                assert(add[j - prev.len()].1 == (n - 1) as usize);
            }
        }
    }
}

proof fn lemma_locations_ordered(occ: Seq<OccView>, k: Seq<char>)
    requires
        forall|i: int, j: int| 0 <= i <= j < occ.len() ==> (#[trigger] occ[i]).1 <= (#[trigger] occ[j]).1,
    ensures
        forall|i: int, j: int|
            0 <= i <= j < locations_of(occ, k).len() ==> (#[trigger] locations_of(occ, k)[i]).1 <= (
            #[trigger] locations_of(occ, k)[j]).1,
        forall|i: int|
            0 <= i < locations_of(occ, k).len() ==> exists|m: int|
                0 <= m < occ.len() && #[trigger] locations_of(occ, k)[i] == (occ[m].2, occ[m].1),
    decreases occ.len(),
{
    if occ.len() > 0 {
        let init = occ.drop_last();
        assert forall|i: int, j: int| 0 <= i <= j < init.len() implies (#[trigger] init[i]).1 <= (#[trigger] init[j]).1 by {
            assert(init[i] == occ[i] && init[j] == occ[j]);
        }
        lemma_locations_ordered(init, k);
        let prev = locations_of(init, k);
        let cur = locations_of(occ, k);
        assert forall|i: int| 0 <= i < cur.len() implies exists|m: int|
            0 <= m < occ.len() && #[trigger] cur[i] == (occ[m].2, occ[m].1) by {
            if i < prev.len() {
                assert(cur[i] == prev[i]);
                let m = choose|m: int| 0 <= m < init.len() && #[trigger] prev[i] == (init[m].2, init[m].1);
                assert(occ[m] == init[m]);
            } else {
                assert(cur[i] == (occ[occ.len() - 1].2, occ[occ.len() - 1].1));
            }
        }
        assert forall|i: int, j: int| 0 <= i <= j < cur.len() implies (#[trigger] cur[i]).1 <= (#[trigger] cur[j]).1 by {
            if j < prev.len() {
                assert(cur[i] == prev[i] && cur[j] == prev[j]);
            } else if i < prev.len() {
                assert(cur[i] == prev[i]);
                let m = choose|m: int| 0 <= m < init.len() && #[trigger] prev[i] == (init[m].2, init[m].1);
                assert(init[m] == occ[m]);
                assert(cur[j] == (occ[occ.len() - 1].2, occ[occ.len() - 1].1));
            }
        }
    }
}

/// The first directory in PATH wins: every conflict lists its places in
/// PATH order, so its first place is the one that is used, and each place
/// is a directory of the listing at its position.
pub proof fn law_conflicts_in_path_order(listings: Seq<ListingView>, cs: Seq<ConflictView>)
    requires
        conflicts_spec(all_occurrences(listings), cs),
        listings.len() <= usize::MAX,
    ensures
        forall|c: int, i: int, j: int|
            0 <= c < cs.len() && 0 <= i <= j < cs[c].1.len() ==> (#[trigger] cs[c].1[i]).1 <= (
            #[trigger] cs[c].1[j]).1,
        forall|c: int, i: int|
            0 <= c < cs.len() && 0 <= i < cs[c].1.len() ==> (#[trigger] cs[c].1[i]).1 < listings.len()
                && cs[c].1[i].0 == listings[cs[c].1[i].1 as int].0,
{
    let occ = all_occurrences(listings);
    lemma_occurrences_ordered(listings, listings.len() as int);
    lemma_occurrences_place(listings, listings.len() as int);
    assert forall|c: int, i: int, j: int|
        0 <= c < cs.len() && 0 <= i <= j < cs[c].1.len() implies (#[trigger] cs[c].1[i]).1 <= (
        #[trigger] cs[c].1[j]).1 by {
        lemma_locations_ordered(occ, cs[c].0);
        assert(cs[c].1 == locations_of(occ, cs[c].0));
    }
    assert forall|c: int, i: int|
        0 <= c < cs.len() && 0 <= i < cs[c].1.len() implies (#[trigger] cs[c].1[i]).1 < listings.len()
            && cs[c].1[i].0 == listings[cs[c].1[i].1 as int].0 by {
        lemma_locations_ordered(occ, cs[c].0);
        assert(cs[c].1 == locations_of(occ, cs[c].0));
        let m = choose|m: int| 0 <= m < occ.len() && #[trigger] locations_of(occ, cs[c].0)[i] == (occ[m].2, occ[m].1);
        assert(occ[m].1 < listings.len());
    }
}

/// Each occurrence names the directory at its priority.
proof fn lemma_occurrences_place(ls: Seq<ListingView>, n: int)
    requires
        0 <= n <= ls.len(),
        ls.len() <= usize::MAX,
    ensures
        forall|i: int|
            0 <= i < occurrences(ls, n).len() ==> (#[trigger] occurrences(ls, n)[i]).2 == ls[occurrences(
                ls,
                n,
            )[i].1 as int].0,
    decreases n,
{
    if n > 0 {
        lemma_occurrences_place(ls, n - 1);
        lemma_occurrences_ordered(ls, n - 1);
        let prev = occurrences(ls, n - 1);
        let add = ls[n - 1].2.map_values(|e: Seq<char>| (unicode_lower(e), (n - 1) as usize, ls[n - 1].0));
        let all = occurrences(ls, n);
        assert(all == prev + add);
        assert forall|i: int| 0 <= i < all.len() implies (#[trigger] all[i]).2 == ls[all[i].1 as int].0 by {
            if i < prev.len() {
                assert(all[i] == prev[i]);
            } else {
                let x = i - prev.len();
                assert(all[i] == add[x]);
                assert(add[x] == (unicode_lower(ls[n - 1].2[x]), (n - 1) as usize, ls[n - 1].0));
            }
        }
    }
}

/// Strictly increasing texts are fixed by which texts they hold.
pub proof fn lemma_sorted_texts_unique(a: Seq<Seq<char>>, b: Seq<Seq<char>>)
    requires
        forall|i: int, j: int| 0 <= i < j < a.len() ==> text_lt(#[trigger] a[i], #[trigger] a[j]),
        forall|i: int, j: int| 0 <= i < j < b.len() ==> text_lt(#[trigger] b[i], #[trigger] b[j]),
        forall|x: Seq<char>| a.contains(x) <==> b.contains(x),
    ensures
        a == b,
    decreases a.len(),
{
    if a.len() == 0 {
        if b.len() > 0 {
            assert(b.contains(b[0]));
        }
        assert(b =~= a);
    } else {
        assert(a.contains(a[0]));
        assert(b.len() > 0);
        assert(b.contains(b[0]));
        let ja = choose|j: int| 0 <= j < b.len() && b[j] == a[0];
        let jb = choose|j: int| 0 <= j < a.len() && a[j] == b[0];
        if a[0] != b[0] {
            // a[0] sits later in b, b[0] later in a: each is below the other
            assert(ja > 0 && jb > 0);
            assert(text_lt(b[0], b[ja]));
            assert(text_lt(a[0], a[jb]));
            lemma_text_lt_transitive(a[0], b[0], a[0]);
            lemma_text_lt_irreflexive(a[0]);
        }
        let ta = a.skip(1);
        let tb = b.skip(1);
        assert forall|x: Seq<char>| ta.contains(x) <==> tb.contains(x) by {
            if ta.contains(x) {
                let j = choose|j: int| 0 <= j < ta.len() && ta[j] == x;
                assert(a[j + 1] == x);
                assert(text_lt(a[0], a[j + 1]));
                lemma_text_lt_irreflexive(x);
                assert(a.contains(x));
                let k = choose|k: int| 0 <= k < b.len() && b[k] == x;
                assert(k != 0);
                assert(tb[k - 1] == x);
            }
            if tb.contains(x) {
                let j = choose|j: int| 0 <= j < tb.len() && tb[j] == x;
                assert(b[j + 1] == x);
                assert(text_lt(b[0], b[j + 1]));
                lemma_text_lt_irreflexive(x);
                assert(b.contains(x));
                let k = choose|k: int| 0 <= k < a.len() && a[k] == x;
                assert(k != 0);
                assert(ta[k - 1] == x);
            }
        }
        assert forall|i: int, j: int| 0 <= i < j < ta.len() implies text_lt(#[trigger] ta[i], #[trigger] ta[j]) by {
            assert(ta[i] == a[i + 1] && ta[j] == a[j + 1]);
        }
        assert forall|i: int, j: int| 0 <= i < j < tb.len() implies text_lt(#[trigger] tb[i], #[trigger] tb[j]) by {
            assert(tb[i] == b[i + 1] && tb[j] == b[j + 1]);
        }
        lemma_sorted_texts_unique(ta, tb);
        assert(a =~= seq![a[0]] + ta);
        assert(b =~= seq![b[0]] + tb);
    }
}

/// The conflicts of a set of occurrences are determined by them alone, so
/// a scan's conflicts are the same whatever its query.
pub proof fn law_conflicts_are_determined(
    occ: Seq<(Seq<char>, usize, Seq<char>)>,
    c1: Seq<ConflictView>,
    c2: Seq<ConflictView>,
)
    requires
        conflicts_spec(occ, c1),
        conflicts_spec(occ, c2),
    ensures
        c1 == c2,
{
    let k1 = c1.map_values(|c: ConflictView| c.0);
    let k2 = c2.map_values(|c: ConflictView| c.0);
    assert forall|i: int, j: int| 0 <= i < j < k1.len() implies text_lt(#[trigger] k1[i], #[trigger] k1[j]) by {
        assert(text_lt(c1[i].0, c1[j].0));
    }
    assert forall|i: int, j: int| 0 <= i < j < k2.len() implies text_lt(#[trigger] k2[i], #[trigger] k2[j]) by {
        assert(text_lt(c2[i].0, c2[j].0));
    }
    assert forall|x: Seq<char>| k1.contains(x) <==> k2.contains(x) by {
        if k1.contains(x) {
            let i = choose|i: int| 0 <= i < k1.len() && k1[i] == x;
            assert(c1[i].1 == locations_of(occ, c1[i].0));
            assert(locations_of(occ, x).len() >= 2);
            let j = choose|j: int| 0 <= j < c2.len() && #[trigger] c2[j].0 == x;
            assert(k2[j] == x);
        }
        if k2.contains(x) {
            let i = choose|i: int| 0 <= i < k2.len() && k2[i] == x;
            assert(c2[i].1 == locations_of(occ, c2[i].0));
            assert(locations_of(occ, x).len() >= 2);
            let j = choose|j: int| 0 <= j < c1.len() && #[trigger] c1[j].0 == x;
            assert(k1[j] == x);
        }
    }
    lemma_sorted_texts_unique(k1, k2);
    assert(k1.len() == c1.len() && k2.len() == c2.len());
    assert(c1.len() == c2.len());
    assert forall|i: int| 0 <= i < c1.len() implies c1[i] == c2[i] by {
        assert(k1[i] == k2[i]);
        assert(c1[i].1 == locations_of(occ, c1[i].0));
        assert(c2[i].1 == locations_of(occ, c2[i].0));
    }
    assert(c1 =~= c2);
}

} // verus!
