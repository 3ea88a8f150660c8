//! The PATH entry shared by every front end.

use vstd::prelude::*;

verus! {

/// One PATH entry and whether it is currently enabled.
#[derive(Debug, Clone, PartialEq, Eq)]
pub struct PathEntry {
    pub path: String,
    pub enabled: bool,
}

impl View for PathEntry {
    type V = (Seq<char>, bool);

    open spec fn view(&self) -> (Seq<char>, bool) {
        (self.path@, self.enabled)
    }
}

impl PathEntry {
    pub fn new(path: &str, enabled: bool) -> (r: PathEntry)
        ensures
            r@ == (path@, enabled),
    {
        PathEntry { path: path.to_owned(), enabled }
    }

    /// A copy with the same text and flag.
    pub fn duplicate(&self) -> (r: PathEntry)
        ensures
            r@ == self@,
    {
        PathEntry { path: self.path.clone(), enabled: self.enabled }
    }
}

/// The views of a list of entries.
pub open spec fn entries_view(v: Seq<PathEntry>) -> Seq<(Seq<char>, bool)> {
    v.map_values(|e: PathEntry| e@)
}

/// Copies a list of entries.
pub fn copy_entries(v: &Vec<PathEntry>) -> (r: Vec<PathEntry>)
    ensures
        entries_view(r@) == entries_view(v@),
{
    let mut out: Vec<PathEntry> = Vec::new();
    let mut i: usize = 0;
    while i < v.len()
        invariant
            0 <= i <= v.len(),
            entries_view(out@) == entries_view(v@.take(i as int)),
        decreases v.len() - i,
    {
        let e = v[i].duplicate();
        let ghost before = out@;
        out.push(e);
        assert(entries_view(out@) =~= entries_view(before).push(e@));
        assert(v@.take(i + 1) =~= v@.take(i as int).push(v@[i as int]));
        assert(entries_view(v@.take(i + 1)) =~= entries_view(v@.take(i as int)).push(v@[i as int]@));
        i = i + 1;
    }
    assert(v@.take(v.len() as int) =~= v@);
    out
}

/// A consistent pair of system and user PATH lists.
#[derive(Debug, Clone, PartialEq, Eq)]
pub struct PathSnapshot {
    pub system: Vec<PathEntry>,
    pub user: Vec<PathEntry>,
}

impl PathSnapshot {
    /// Both lists empty.
    pub fn empty() -> (r: PathSnapshot)
        ensures
            r.system@.len() == 0,
            r.user@.len() == 0,
    {
        PathSnapshot { system: Vec::new(), user: Vec::new() }
    }
}

} // verus!
