//! Disabled PATH entries.
//!
//! A disabled entry is removed from the registry, so the registry alone
//! cannot remember it. The persisted state keeps, per hive, the older list
//! of disabled strings and a complete ordered snapshot; merging that state
//! with what the registry holds now restores disabled entries in their
//! original place across restarts.

use crate::path_entry::{entries_view, PathEntry, PathSnapshot};
use crate::text::{contains_string, copy_string, strings_view, to_lowercase, trim, trim_str, unicode_lower};
use vstd::prelude::*;

verus! {

/// The persisted disabled-entry state of both hives.
#[derive(Debug, Clone, PartialEq, Eq)]
pub struct DisabledState {
    /// Disabled paths of the system hive (the older format).
    pub system: Vec<String>,
    /// Disabled paths of the user hive (the older format).
    pub user: Vec<String>,
    /// Complete ordered system snapshot.
    pub system_snapshot: Vec<PathEntry>,
    /// Complete ordered user snapshot.
    pub user_snapshot: Vec<PathEntry>,
}

impl DisabledState {
    /// The state of a missing or blank file: everything empty.
    pub fn new() -> (r: DisabledState)
        ensures
            r.system@.len() == 0,
            r.user@.len() == 0,
            r.system_snapshot@.len() == 0,
            r.user_snapshot@.len() == 0,
    {
        DisabledState {
            system: Vec::new(),
            user: Vec::new(),
            system_snapshot: Vec::new(),
            user_snapshot: Vec::new(),
        }
    }
}

/// The identity of a path for merging: trimmed, then lower-cased.
pub open spec fn path_key_spec(p: Seq<char>) -> Seq<char> {
    unicode_lower(trim(p))
}

/// Computes the merge identity of a path.
pub fn path_key(path: &str) -> (r: String)
    ensures
        r@ == path_key_spec(path@),
{
    let t = trim_str(path);
    to_lowercase(t.as_str())
}

/// The paths of the disabled entries, in order.
pub open spec fn disabled_list_spec(entries: Seq<(Seq<char>, bool)>) -> Seq<Seq<char>>
    decreases entries.len(),
{
    if entries.len() == 0 {
        Seq::empty()
    } else if entries.last().1 {
        disabled_list_spec(entries.drop_last())
    } else {
        disabled_list_spec(entries.drop_last()).push(entries.last().0)
    }
}

/// Collects the paths of the disabled entries.
pub fn disabled_lists(entries: &Vec<PathEntry>) -> (r: Vec<String>)
    ensures
        strings_view(r@) == disabled_list_spec(entries_view(entries@)),
{
    let mut out: Vec<String> = Vec::new();
    let mut i: usize = 0;
    while i < entries.len()
        invariant
            0 <= i <= entries.len(),
            strings_view(out@) == disabled_list_spec(entries_view(entries@.take(i as int))),
        decreases entries.len() - i,
    {
        assert(entries_view(entries@.take(i + 1)).drop_last() =~= entries_view(entries@.take(i as int)));
        if !entries[i].enabled {
            let p = entries[i].path.clone();
            let ghost before = out@;
            out.push(p);
            assert(strings_view(out@) =~= strings_view(before).push(p@));
        }
        i = i + 1;
    }
    assert(entries@.take(entries.len() as int) =~= entries@);
    out
}

// ───────────────────────── merging ─────────────────────────

/// Merge progress: the keys seen so far and the entries produced so far.
pub type MergeState = (Seq<Seq<char>>, Seq<(Seq<char>, bool)>);

/// The last registry path whose key is `k` (later duplicates win).
pub open spec fn registry_match(registry: Seq<Seq<char>>, k: Seq<char>) -> Option<Seq<char>>
    decreases registry.len(),
{
    if registry.len() == 0 {
        None
    } else if path_key_spec(registry.last()) == k {
        Some(registry.last())
    } else {
        registry_match(registry.drop_last(), k)
    }
}

/// Keys of the older disabled-strings list.
pub open spec fn legacy_keys(legacy: Seq<Seq<char>>) -> Seq<Seq<char>> {
    legacy.map_values(|p: Seq<char>| path_key_spec(p))
}

/// One snapshot entry. The snapshot gives the order. An entry still in the
/// registry takes the registry's spelling and stays enabled unless it was
/// disabled, here or in the older list. An entry gone from the registry
/// survives only if disabled: an enabled one was removed from outside and
/// is not brought back. Blank and repeated keys are skipped.
pub open spec fn step_snapshot(
    registry: Seq<Seq<char>>,
    dis: Seq<Seq<char>>,
    st: MergeState,
    e: (Seq<char>, bool),
) -> MergeState {
    let k = path_key_spec(e.0);
    if k.len() == 0 || st.0.contains(k) {
        st
    } else {
        let seen = st.0.push(k);
        match registry_match(registry, k) {
            Some(p) => (seen, st.1.push((p, e.1 && !dis.contains(k)))),
            None => if !e.1 {
                (seen, st.1.push(e))
            } else {
                (seen, st.1)
            },
        }
    }
}

/// One registry path not in the snapshot: appended, enabled unless the
/// older list disables it.
pub open spec fn step_registry(dis: Seq<Seq<char>>, st: MergeState, p: Seq<char>) -> MergeState {
    let k = path_key_spec(p);
    if k.len() == 0 || st.0.contains(k) {
        st
    } else {
        (st.0.push(k), st.1.push((p, !dis.contains(k))))
    }
}

/// One entry of the older disabled list not seen yet: appended, disabled.
pub open spec fn step_legacy(st: MergeState, p: Seq<char>) -> MergeState {
    let k = path_key_spec(p);
    if k.len() == 0 || st.0.contains(k) {
        st
    } else {
        (st.0.push(k), st.1.push((p, false)))
    }
}

pub open spec fn fold_snapshot(
    registry: Seq<Seq<char>>,
    dis: Seq<Seq<char>>,
    snap: Seq<(Seq<char>, bool)>,
    st: MergeState,
) -> MergeState
    decreases snap.len(),
{
    if snap.len() == 0 {
        st
    } else {
        step_snapshot(registry, dis, fold_snapshot(registry, dis, snap.drop_last(), st), snap.last())
    }
}

pub open spec fn fold_registry(dis: Seq<Seq<char>>, ps: Seq<Seq<char>>, st: MergeState) -> MergeState
    decreases ps.len(),
{
    if ps.len() == 0 {
        st
    } else {
        step_registry(dis, fold_registry(dis, ps.drop_last(), st), ps.last())
    }
}

pub open spec fn fold_legacy(ps: Seq<Seq<char>>, st: MergeState) -> MergeState
    decreases ps.len(),
{
    if ps.len() == 0 {
        st
    } else {
        step_legacy(fold_legacy(ps.drop_last(), st), ps.last())
    }
}

/// The state after the snapshot and registry passes.
pub open spec fn merge_after_registry(
    registry: Seq<Seq<char>>,
    legacy: Seq<Seq<char>>,
    snapshot: Seq<(Seq<char>, bool)>,
) -> MergeState {
    let dis = legacy_keys(legacy);
    fold_registry(dis, registry, fold_snapshot(registry, dis, snapshot, (Seq::empty(), Seq::empty())))
}

/// The merged list: snapshot order first, then registry paths the
/// snapshot lacks, then older disabled strings not seen yet.
pub open spec fn merge_spec(
    registry: Seq<Seq<char>>,
    legacy: Seq<Seq<char>>,
    snapshot: Seq<(Seq<char>, bool)>,
) -> Seq<(Seq<char>, bool)> {
    fold_legacy(legacy, merge_after_registry(registry, legacy, snapshot)).1
}

// ───────────────────────── merging by given keys ─────────────────────────

/// The keys of a snapshot's entries.
pub open spec fn snapshot_keys(snap: Seq<(Seq<char>, bool)>) -> Seq<Seq<char>> {
    snap.map_values(|e: (Seq<char>, bool)| path_key_spec(e.0))
}

/// `registry_match` with each registry path's key given: the last path
/// whose key is `k`.
pub open spec fn registry_match_keyed(registry: Seq<Seq<char>>, rkeys: Seq<Seq<char>>, k: Seq<char>) -> Option<
    Seq<char>,
>
    decreases registry.len(),
{
    if registry.len() == 0 {
        None
    } else if rkeys.last() == k {
        Some(registry.last())
    } else {
        registry_match_keyed(registry.drop_last(), rkeys.drop_last(), k)
    }
}

/// `step_snapshot` with the entry's key given.
pub open spec fn step_snapshot_keyed(
    registry: Seq<Seq<char>>,
    rkeys: Seq<Seq<char>>,
    dis: Seq<Seq<char>>,
    st: MergeState,
    e: (Seq<char>, bool),
    k: Seq<char>,
) -> MergeState {
    if k.len() == 0 || st.0.contains(k) {
        st
    } else {
        let seen = st.0.push(k);
        match registry_match_keyed(registry, rkeys, k) {
            Some(p) => (seen, st.1.push((p, e.1 && !dis.contains(k)))),
            None => if !e.1 {
                (seen, st.1.push(e))
            } else {
                (seen, st.1)
            },
        }
    }
}

/// `step_registry` and `step_legacy` with the path's key given.
pub open spec fn step_keyed(dis: Seq<Seq<char>>, st: MergeState, p: Seq<char>, k: Seq<char>, legacy: bool) -> MergeState {
    if k.len() == 0 || st.0.contains(k) {
        st
    } else {
        (st.0.push(k), st.1.push((p, if legacy { false } else { !dis.contains(k) })))
    }
}

pub open spec fn fold_snapshot_keyed(
    registry: Seq<Seq<char>>,
    rkeys: Seq<Seq<char>>,
    dis: Seq<Seq<char>>,
    snap: Seq<(Seq<char>, bool)>,
    skeys: Seq<Seq<char>>,
    st: MergeState,
) -> MergeState
    decreases snap.len(),
{
    if snap.len() == 0 {
        st
    } else {
        step_snapshot_keyed(
            registry,
            rkeys,
            dis,
            fold_snapshot_keyed(registry, rkeys, dis, snap.drop_last(), skeys.drop_last(), st),
            snap.last(),
            skeys.last(),
        )
    }
}

pub open spec fn fold_paths_keyed(
    dis: Seq<Seq<char>>,
    ps: Seq<Seq<char>>,
    pkeys: Seq<Seq<char>>,
    legacy: bool,
    st: MergeState,
) -> MergeState
    decreases ps.len(),
{
    if ps.len() == 0 {
        st
    } else {
        step_keyed(dis, fold_paths_keyed(dis, ps.drop_last(), pkeys.drop_last(), legacy, st), ps.last(), pkeys.last(), legacy)
    }
}

/// The merge with every path's key given: snapshot order first, then
/// registry paths the snapshot lacks, then older disabled strings not seen
/// yet; `lkeys` are also the keys that disable.
pub open spec fn merge_keyed_spec(
    registry: Seq<Seq<char>>,
    rkeys: Seq<Seq<char>>,
    legacy: Seq<Seq<char>>,
    lkeys: Seq<Seq<char>>,
    snapshot: Seq<(Seq<char>, bool)>,
    skeys: Seq<Seq<char>>,
) -> Seq<(Seq<char>, bool)> {
    let st1 = fold_snapshot_keyed(registry, rkeys, lkeys, snapshot, skeys, (Seq::empty(), Seq::empty()));
    let st2 = fold_paths_keyed(lkeys, registry, rkeys, false, st1);
    fold_paths_keyed(lkeys, legacy, lkeys, true, st2).1
}

proof fn lemma_registry_match_keyed(registry: Seq<Seq<char>>, k: Seq<char>)
    ensures
        registry_match_keyed(registry, legacy_keys(registry), k) == registry_match(registry, k),
    decreases registry.len(),
{
    if registry.len() > 0 {
        assert(legacy_keys(registry).drop_last() =~= legacy_keys(registry.drop_last()));
        lemma_registry_match_keyed(registry.drop_last(), k);
    }
}

proof fn lemma_fold_snapshot_keyed(
    registry: Seq<Seq<char>>,
    dis: Seq<Seq<char>>,
    snap: Seq<(Seq<char>, bool)>,
    st: MergeState,
)
    ensures
        fold_snapshot_keyed(registry, legacy_keys(registry), dis, snap, snapshot_keys(snap), st)
            == fold_snapshot(registry, dis, snap, st),
    decreases snap.len(),
{
    if snap.len() > 0 {
        assert(snapshot_keys(snap).drop_last() =~= snapshot_keys(snap.drop_last()));
        lemma_fold_snapshot_keyed(registry, dis, snap.drop_last(), st);
        lemma_registry_match_keyed(registry, path_key_spec(snap.last().0));
    }
}

proof fn lemma_fold_registry_keyed(dis: Seq<Seq<char>>, ps: Seq<Seq<char>>, st: MergeState)
    ensures
        fold_paths_keyed(dis, ps, legacy_keys(ps), false, st) == fold_registry(dis, ps, st),
    decreases ps.len(),
{
    if ps.len() > 0 {
        assert(legacy_keys(ps).drop_last() =~= legacy_keys(ps.drop_last()));
        lemma_fold_registry_keyed(dis, ps.drop_last(), st);
    }
}

proof fn lemma_fold_legacy_keyed(dis: Seq<Seq<char>>, ps: Seq<Seq<char>>, st: MergeState)
    ensures
        fold_paths_keyed(dis, ps, legacy_keys(ps), true, st) == fold_legacy(ps, st),
    decreases ps.len(),
{
    if ps.len() > 0 {
        assert(legacy_keys(ps).drop_last() =~= legacy_keys(ps.drop_last()));
        lemma_fold_legacy_keyed(dis, ps.drop_last(), st);
    }
}

/// With the keys that `path_key` gives, the keyed merge is the merge.
pub proof fn lemma_merge_keyed_is_merge(
    registry: Seq<Seq<char>>,
    legacy: Seq<Seq<char>>,
    snapshot: Seq<(Seq<char>, bool)>,
)
    ensures
        merge_keyed_spec(
            registry,
            legacy_keys(registry),
            legacy,
            legacy_keys(legacy),
            snapshot,
            snapshot_keys(snapshot),
        ) == merge_spec(registry, legacy, snapshot),
{
    let dis = legacy_keys(legacy);
    let st0: MergeState = (Seq::empty(), Seq::empty());
    lemma_fold_snapshot_keyed(registry, dis, snapshot, st0);
    let st1 = fold_snapshot(registry, dis, snapshot, st0);
    lemma_fold_registry_keyed(dis, registry, st1);
    let st2 = fold_registry(dis, registry, st1);
    lemma_fold_legacy_keyed(dis, legacy, st2);
}

/// The path stored under key `k`, the last one winning.
fn registry_lookup(reg_keys: &Vec<String>, registry: &Vec<String>, k: &str) -> (r: Option<String>)
    requires
        reg_keys@.len() == registry@.len(),
    ensures
        match r {
            Some(p) => registry_match_keyed(strings_view(registry@), strings_view(reg_keys@), k@) == Some(p@),
            None => registry_match_keyed(strings_view(registry@), strings_view(reg_keys@), k@) is None,
        },
{
    let ghost rv = strings_view(registry@);
    let ghost kv = strings_view(reg_keys@);
    let mut found: Option<String> = None;
    let mut i: usize = 0;
    while i < registry.len()
        invariant
            0 <= i <= registry.len(),
            reg_keys@.len() == registry@.len(),
            rv == strings_view(registry@),
            kv == strings_view(reg_keys@),
            match found {
                Some(p) => registry_match_keyed(rv.take(i as int), kv.take(i as int), k@) == Some(p@),
                None => registry_match_keyed(rv.take(i as int), kv.take(i as int), k@) is None,
            },
        decreases registry.len() - i,
    {
        assert(rv.take(i + 1).drop_last() =~= rv.take(i as int));
        assert(kv.take(i + 1).drop_last() =~= kv.take(i as int));
        assert(rv.take(i + 1).last() == registry@[i as int]@);
        assert(kv.take(i + 1).last() == reg_keys@[i as int]@);
        if crate::text::str_eq(reg_keys[i].as_str(), k) {
            found = Some(copy_string(&registry[i]));
        }
        i = i + 1;
    }
    assert(rv.take(registry.len() as int) =~= rv);
    assert(kv.take(registry.len() as int) =~= kv);
    found
}

fn keys_of(paths: &Vec<String>) -> (r: Vec<String>)
    ensures
        strings_view(r@) == legacy_keys(strings_view(paths@)),
{
    let mut out: Vec<String> = Vec::new();
    let mut i: usize = 0;
    while i < paths.len()
        invariant
            0 <= i <= paths.len(),
            out@.len() == i,
            forall|j: int| 0 <= j < i ==> #[trigger] out@[j]@ == path_key_spec(paths@[j]@),
        decreases paths.len() - i,
    {
        out.push(path_key(paths[i].as_str()));
        i = i + 1;
    }
    assert(strings_view(out@) =~= legacy_keys(strings_view(paths@)));
    out
}

/// Merges what the registry holds now with the persisted state of one hive,
/// with every path's key (its trimmed, lower-cased form) given alongside it.
pub fn merge_keyed(
    registry_paths: Vec<String>,
    registry_keys: Vec<String>,
    legacy_disabled: Vec<String>,
    legacy_keys: Vec<String>,
    snapshot: Vec<PathEntry>,
    snapshot_keys: Vec<String>,
) -> (r: Vec<PathEntry>)
    requires
        registry_keys@.len() == registry_paths@.len(),
        legacy_keys@.len() == legacy_disabled@.len(),
        snapshot_keys@.len() == snapshot@.len(),
    ensures
        entries_view(r@) == merge_keyed_spec(
            strings_view(registry_paths@),
            strings_view(registry_keys@),
            strings_view(legacy_disabled@),
            strings_view(legacy_keys@),
            entries_view(snapshot@),
            strings_view(snapshot_keys@),
        ),
{
    let ghost reg = strings_view(registry_paths@);
    let ghost rk = strings_view(registry_keys@);
    let ghost leg = strings_view(legacy_disabled@);
    let ghost dis = strings_view(legacy_keys@);
    let ghost snap = entries_view(snapshot@);
    let ghost sk = strings_view(snapshot_keys@);
    let mut seen: Vec<String> = Vec::new();
    let mut merged: Vec<PathEntry> = Vec::new();
    let ghost st0: MergeState = (Seq::empty(), Seq::empty());
    assert(strings_view(seen@) =~= st0.0);
    assert(entries_view(merged@) =~= st0.1);

    let mut i: usize = 0;
    while i < snapshot.len()
        invariant
            0 <= i <= snapshot.len(),
            registry_keys@.len() == registry_paths@.len(),
            snapshot_keys@.len() == snapshot@.len(),
            reg == strings_view(registry_paths@),
            rk == strings_view(registry_keys@),
            snap == entries_view(snapshot@),
            sk == strings_view(snapshot_keys@),
            dis == strings_view(legacy_keys@),
            (strings_view(seen@), entries_view(merged@)) == fold_snapshot_keyed(
                reg,
                rk,
                dis,
                snap.take(i as int),
                sk.take(i as int),
                st0,
            ),
        decreases snapshot.len() - i,
    {
        assert(snap.take(i + 1).drop_last() =~= snap.take(i as int));
        assert(sk.take(i + 1).drop_last() =~= sk.take(i as int));
        assert(snap.take(i + 1).last() == snapshot@[i as int]@);
        assert(sk.take(i + 1).last() == snapshot_keys@[i as int]@);
        let e = &snapshot[i];
        let k = &snapshot_keys[i];
        if !(k.as_str().is_empty() || contains_string(&seen, k.as_str())) {
            let ghost sv = strings_view(seen@);
            seen.push(copy_string(k));
            assert(strings_view(seen@) =~= sv.push(k@));
            let ghost mv = entries_view(merged@);
            match registry_lookup(&registry_keys, &registry_paths, k.as_str()) {
                Some(p) => {
                    let on = e.enabled && !contains_string(&legacy_keys, k.as_str());
                    let ne = PathEntry { path: p, enabled: on };
                    merged.push(ne);
                    assert(entries_view(merged@) =~= mv.push(ne@));
                },
                None => {
                    if !e.enabled {
                        let ne = e.duplicate();
                        merged.push(ne);
                        assert(entries_view(merged@) =~= mv.push(ne@));
                    }
                },
            }
        }
        i = i + 1;
    }
    assert(snap.take(snapshot.len() as int) =~= snap);
    assert(sk.take(snapshot.len() as int) =~= sk);
    let ghost st1 = fold_snapshot_keyed(reg, rk, dis, snap, sk, st0);

    let mut i: usize = 0;
    while i < registry_paths.len()
        invariant
            0 <= i <= registry_paths.len(),
            registry_keys@.len() == registry_paths@.len(),
            reg == strings_view(registry_paths@),
            rk == strings_view(registry_keys@),
            dis == strings_view(legacy_keys@),
            (strings_view(seen@), entries_view(merged@)) == fold_paths_keyed(
                dis,
                reg.take(i as int),
                rk.take(i as int),
                false,
                st1,
            ),
        decreases registry_paths.len() - i,
    {
        assert(reg.take(i + 1).drop_last() =~= reg.take(i as int));
        assert(rk.take(i + 1).drop_last() =~= rk.take(i as int));
        assert(reg.take(i + 1).last() == registry_paths@[i as int]@);
        assert(rk.take(i + 1).last() == registry_keys@[i as int]@);
        let k = &registry_keys[i];
        if !(k.as_str().is_empty() || contains_string(&seen, k.as_str())) {
            let ghost sv = strings_view(seen@);
            seen.push(copy_string(k));
            assert(strings_view(seen@) =~= sv.push(k@));
            let ghost mv = entries_view(merged@);
            let on = !contains_string(&legacy_keys, k.as_str());
            let ne = PathEntry { path: copy_string(&registry_paths[i]), enabled: on };
            merged.push(ne);
            assert(entries_view(merged@) =~= mv.push(ne@));
        }
        i = i + 1;
    }
    assert(reg.take(registry_paths.len() as int) =~= reg);
    assert(rk.take(registry_paths.len() as int) =~= rk);
    let ghost st2 = fold_paths_keyed(dis, reg, rk, false, st1);

    let mut i: usize = 0;
    while i < legacy_disabled.len()
        invariant
            0 <= i <= legacy_disabled.len(),
            legacy_keys@.len() == legacy_disabled@.len(),
            leg == strings_view(legacy_disabled@),
            dis == strings_view(legacy_keys@),
            (strings_view(seen@), entries_view(merged@)) == fold_paths_keyed(
                dis,
                leg.take(i as int),
                dis.take(i as int),
                true,
                st2,
            ),
        decreases legacy_disabled.len() - i,
    {
        assert(leg.take(i + 1).drop_last() =~= leg.take(i as int));
        assert(dis.take(i + 1).drop_last() =~= dis.take(i as int));
        assert(leg.take(i + 1).last() == legacy_disabled@[i as int]@);
        assert(dis.take(i + 1).last() == legacy_keys@[i as int]@);
        let k = &legacy_keys[i];
        if !(k.as_str().is_empty() || contains_string(&seen, k.as_str())) {
            let ghost sv = strings_view(seen@);
            seen.push(copy_string(k));
            assert(strings_view(seen@) =~= sv.push(k@));
            let ghost mv = entries_view(merged@);
            let ne = PathEntry { path: copy_string(&legacy_disabled[i]), enabled: false };
            merged.push(ne);
            assert(entries_view(merged@) =~= mv.push(ne@));
        }
        i = i + 1;
    }
    assert(leg.take(legacy_disabled.len() as int) =~= leg);
    assert(dis.take(legacy_disabled.len() as int) =~= dis);
    merged
}

/// Merges what the registry holds now with the persisted state of one hive.
pub fn merge_hive(registry_paths: Vec<String>, legacy_disabled: Vec<String>, snapshot: Vec<PathEntry>) -> (r:
    Vec<PathEntry>)
    ensures
        entries_view(r@) == merge_spec(
            strings_view(registry_paths@),
            strings_view(legacy_disabled@),
            entries_view(snapshot@),
        ),
{
    let reg_keys = keys_of(&registry_paths);
    let dis_keys = keys_of(&legacy_disabled);
    let mut snap_keys: Vec<String> = Vec::new();
    let mut i: usize = 0;
    while i < snapshot.len()
        invariant
            0 <= i <= snapshot.len(),
            snap_keys@.len() == i,
            forall|j: int| 0 <= j < i ==> #[trigger] snap_keys@[j]@ == path_key_spec(snapshot@[j].path@),
        decreases snapshot.len() - i,
    {
        snap_keys.push(path_key(snapshot[i].path.as_str()));
        i = i + 1;
    }
    assert(strings_view(snap_keys@) =~= snapshot_keys(entries_view(snapshot@)));
    proof {
        lemma_merge_keyed_is_merge(
            strings_view(registry_paths@),
            strings_view(legacy_disabled@),
            entries_view(snapshot@),
        );
    }
    merge_keyed(registry_paths, reg_keys, legacy_disabled, dis_keys, snapshot, snap_keys)
}

// ───────────────────────── what a merge guarantees ─────────────────────────

/// The key of the `i`-th merged entry.
pub open spec fn key_at(m: Seq<(Seq<char>, bool)>, i: int) -> Seq<char> {
    path_key_spec(m[i].0)
}

/// Whether some merged entry has key `k`.
pub open spec fn has_key(m: Seq<(Seq<char>, bool)>, k: Seq<char>) -> bool {
    exists|i: int| 0 <= i < m.len() && #[trigger] key_at(m, i) == k
}

/// What holds of the merge at every step.
pub open spec fn merge_inv(registry: Seq<Seq<char>>, dis: Seq<Seq<char>>, st: MergeState) -> bool {
    let m = st.1;
    &&& forall|i: int|
        0 <= i < m.len() ==> {
            &&& st.0.contains(#[trigger] key_at(m, i))
            &&& key_at(m, i).len() > 0
            &&& m[i].1 ==> registry_match(registry, key_at(m, i)) is Some
            &&& dis.contains(key_at(m, i)) ==> !m[i].1
        }
    &&& forall|i: int, j: int| 0 <= i < j < m.len() ==> #[trigger] key_at(m, i) != #[trigger] key_at(m, j)
    &&& forall|k: Seq<char>|
        #[trigger] st.0.contains(k) && registry_match(registry, k) is Some ==> has_key(m, k)
}

proof fn lemma_registry_match_key(registry: Seq<Seq<char>>, k: Seq<char>)
    ensures
        registry_match(registry, k) matches Some(p) ==> path_key_spec(p) == k,
    decreases registry.len(),
{
    if registry.len() > 0 {
        lemma_registry_match_key(registry.drop_last(), k);
    }
}

proof fn lemma_registry_match_found(registry: Seq<Seq<char>>, i: int)
    requires
        0 <= i < registry.len(),
    ensures
        registry_match(registry, path_key_spec(registry[i])) is Some,
    decreases registry.len(),
{
    if i < registry.len() - 1 {
        assert(registry.drop_last()[i] == registry[i]);
        lemma_registry_match_found(registry.drop_last(), i);
    }
}

/// Appending an entry under a fresh key keeps the invariant.
proof fn lemma_inv_push(
    registry: Seq<Seq<char>>,
    dis: Seq<Seq<char>>,
    st: MergeState,
    e: (Seq<char>, bool),
)
    requires
        merge_inv(registry, dis, st),
        path_key_spec(e.0).len() > 0,
        !st.0.contains(path_key_spec(e.0)),
        e.1 ==> registry_match(registry, path_key_spec(e.0)) is Some,
        dis.contains(path_key_spec(e.0)) ==> !e.1,
    ensures
        merge_inv(registry, dis, (st.0.push(path_key_spec(e.0)), st.1.push(e))),
{
    let k = path_key_spec(e.0);
    let seen = st.0.push(k);
    let m = st.1;
    let m2 = m.push(e);
    assert forall|i: int| 0 <= i < m.len() implies #[trigger] key_at(m2, i) == key_at(m, i) by {
        assert(m2[i] == m[i]);
    }
    assert(key_at(m2, m.len() as int) == k);
    assert forall|x: Seq<char>| st.0.contains(x) implies #[trigger] seen.contains(x) by {
        let j = choose|j: int| 0 <= j < st.0.len() && st.0[j] == x;
        assert(seen[j] == x);
    }
    assert(seen[st.0.len() as int] == k);
    assert forall|i: int| 0 <= i < m2.len() implies {
        &&& seen.contains(#[trigger] key_at(m2, i))
        &&& key_at(m2, i).len() > 0
        &&& m2[i].1 ==> registry_match(registry, key_at(m2, i)) is Some
        &&& dis.contains(key_at(m2, i)) ==> !m2[i].1
    } by {
        if i < m.len() {
            assert(key_at(m2, i) == key_at(m, i));
            assert(st.0.contains(key_at(m, i)));
        }
    }
    assert forall|i: int, j: int| 0 <= i < j < m2.len() implies #[trigger] key_at(m2, i) != #[trigger] key_at(
        m2,
        j,
    ) by {
        if j == m.len() {
            assert(key_at(m2, i) == key_at(m, i));
            assert(st.0.contains(key_at(m, i)));
        } else {
            assert(key_at(m2, i) == key_at(m, i));
            assert(key_at(m2, j) == key_at(m, j));
        }
    }
    assert forall|x: Seq<char>| #[trigger] seen.contains(x) && registry_match(registry, x) is Some implies has_key(
        m2,
        x,
    ) by {
        if x == k {
            assert(key_at(m2, m.len() as int) == x);
        } else {
            let j = choose|j: int| 0 <= j < seen.len() && seen[j] == x;
            if j < st.0.len() {
                assert(st.0[j] == x);
                assert(st.0.contains(x));
                let w = choose|w: int| 0 <= w < m.len() && #[trigger] key_at(m, w) == x;
                assert(key_at(m2, w) == x);
            }
        }
    }
}

/// Seen keys are never forgotten.
pub open spec fn seen_grows(a: MergeState, b: MergeState) -> bool {
    forall|x: Seq<char>| #[trigger] a.0.contains(x) ==> b.0.contains(x)
}

proof fn lemma_push_keeps_seen(s: Seq<Seq<char>>, k: Seq<char>)
    ensures
        forall|x: Seq<char>| #[trigger] s.contains(x) ==> s.push(k).contains(x),
        s.push(k).contains(k),
{
    assert forall|x: Seq<char>| #[trigger] s.contains(x) implies s.push(k).contains(x) by {
        let j = choose|j: int| 0 <= j < s.len() && s[j] == x;
        assert(s.push(k)[j] == x);
    }
    assert(s.push(k)[s.len() as int] == k);
}

proof fn lemma_fold_snapshot_inv(
    registry: Seq<Seq<char>>,
    dis: Seq<Seq<char>>,
    snap: Seq<(Seq<char>, bool)>,
    st: MergeState,
)
    requires
        merge_inv(registry, dis, st),
    ensures
        merge_inv(registry, dis, fold_snapshot(registry, dis, snap, st)),
    decreases snap.len(),
{
    if snap.len() > 0 {
        lemma_fold_snapshot_inv(registry, dis, snap.drop_last(), st);
        let cur = fold_snapshot(registry, dis, snap.drop_last(), st);
        let e = snap.last();
        let k = path_key_spec(e.0);
        if !(k.len() == 0 || cur.0.contains(k)) {
            lemma_registry_match_key(registry, k);
            match registry_match(registry, k) {
                Some(p) => {
                    lemma_inv_push(registry, dis, cur, (p, e.1 && !dis.contains(k)));
                },
                None => {
                    if !e.1 {
                        lemma_inv_push(registry, dis, cur, e);
                    } else {
                        // the key is marked seen without an entry; no registry path has it
                        let seen = cur.0.push(k);
                        lemma_push_keeps_seen(cur.0, k);
                        assert forall|i: int| 0 <= i < cur.1.len() implies seen.contains(
                            #[trigger] key_at(cur.1, i),
                        ) by {
                            assert(cur.0.contains(key_at(cur.1, i)));
                        }
                        assert forall|x: Seq<char>| #[trigger] seen.contains(x) && registry_match(
                            registry,
                            x,
                        ) is Some implies has_key(cur.1, x) by {
                            if x != k {
                                let j = choose|j: int| 0 <= j < seen.len() && seen[j] == x;
                                assert(cur.0[j] == x);
                                assert(cur.0.contains(x));
                            }
                        }
                    }
                },
            }
        }
    }
}

proof fn lemma_fold_registry_inv(
    registry: Seq<Seq<char>>,
    dis: Seq<Seq<char>>,
    n: int,
    st: MergeState,
)
    requires
        0 <= n <= registry.len(),
        merge_inv(registry, dis, st),
    ensures
        merge_inv(registry, dis, fold_registry(dis, registry.take(n), st)),
        seen_grows(st, fold_registry(dis, registry.take(n), st)),
        forall|j: int|
            0 <= j < n && path_key_spec(registry[j]).len() > 0 ==> fold_registry(
                dis,
                registry.take(n),
                st,
            ).0.contains(#[trigger] path_key_spec(registry[j])),
    decreases n,
{
    if n > 0 {
        lemma_fold_registry_inv(registry, dis, n - 1, st);
        assert(registry.take(n).drop_last() =~= registry.take(n - 1));
        let cur = fold_registry(dis, registry.take(n - 1), st);
        let p = registry[n - 1];
        let k = path_key_spec(p);
        assert(registry.take(n).last() == p);
        if !(k.len() == 0 || cur.0.contains(k)) {
            lemma_registry_match_found(registry, n - 1);
            lemma_inv_push(registry, dis, cur, (p, !dis.contains(k)));
            lemma_push_keeps_seen(cur.0, k);
        }
    }
}

proof fn lemma_fold_legacy_inv(registry: Seq<Seq<char>>, dis: Seq<Seq<char>>, ps: Seq<Seq<char>>, st: MergeState)
    requires
        merge_inv(registry, dis, st),
    ensures
        merge_inv(registry, dis, fold_legacy(ps, st)),
        seen_grows(st, fold_legacy(ps, st)),
    decreases ps.len(),
{
    if ps.len() > 0 {
        lemma_fold_legacy_inv(registry, dis, ps.drop_last(), st);
        let cur = fold_legacy(ps.drop_last(), st);
        let k = path_key_spec(ps.last());
        if !(k.len() == 0 || cur.0.contains(k)) {
            lemma_inv_push(registry, dis, cur, (ps.last(), false));
            lemma_push_keeps_seen(cur.0, k);
        }
    }
}

/// A merge lists every key at most once and never a blank one; an enabled
/// entry is always one the registry holds now (an entry removed from
/// outside is not brought back); an entry the older disabled list names is
/// never enabled; and every non-blank registry path has its entry.
pub proof fn law_merge_is_faithful(
    registry: Seq<Seq<char>>,
    legacy: Seq<Seq<char>>,
    snapshot: Seq<(Seq<char>, bool)>,
)
    ensures
        forall|i: int, j: int|
            0 <= i < j < merge_spec(registry, legacy, snapshot).len() ==> #[trigger] key_at(
                merge_spec(registry, legacy, snapshot),
                i,
            ) != #[trigger] key_at(merge_spec(registry, legacy, snapshot), j),
        forall|i: int|
            #![trigger key_at(merge_spec(registry, legacy, snapshot), i)]
            0 <= i < merge_spec(registry, legacy, snapshot).len() ==> {
                let m = merge_spec(registry, legacy, snapshot);
                &&& key_at(m, i).len() > 0
                &&& m[i].1 ==> registry_match(registry, key_at(m, i)) is Some
                &&& legacy_keys(legacy).contains(key_at(m, i)) ==> !m[i].1
            },
        forall|j: int|
            0 <= j < registry.len() && path_key_spec(#[trigger] registry[j]).len() > 0 ==> has_key(
                merge_spec(registry, legacy, snapshot),
                path_key_spec(registry[j]),
            ),
{
    let dis = legacy_keys(legacy);
    let st0: MergeState = (Seq::empty(), Seq::empty());
    lemma_fold_snapshot_inv(registry, dis, snapshot, st0);
    let st1 = fold_snapshot(registry, dis, snapshot, st0);
    lemma_fold_registry_inv(registry, dis, registry.len() as int, st1);
    assert(registry.take(registry.len() as int) =~= registry);
    let st2 = fold_registry(dis, registry, st1);
    lemma_fold_legacy_inv(registry, dis, legacy, st2);
    let st3 = fold_legacy(legacy, st2);
    assert forall|j: int| 0 <= j < registry.len() && path_key_spec(#[trigger] registry[j]).len() > 0 implies has_key(
        st3.1,
        path_key_spec(registry[j]),
    ) by {
        let k = path_key_spec(registry[j]);
        assert(st2.0.contains(k));
        assert(st3.0.contains(k));
        lemma_registry_match_found(registry, j);
    }
}


// ───────────────────────── the persisted state ─────────────────────────

/// Replaces both older disabled lists, keeping the snapshots. The file is
/// read before and written after by the caller.
pub fn save_disabled_state(state: &mut DisabledState, system: Vec<String>, user: Vec<String>)
    ensures
        final(state).system@ == system@,
        final(state).user@ == user@,
        final(state).system_snapshot@ == old(state).system_snapshot@,
        final(state).user_snapshot@ == old(state).user_snapshot@,
{
    state.system = system;
    state.user = user;
}

/// The older disabled lists `(system, user)`.
pub fn load_disabled_state(state: &DisabledState) -> (r: (Vec<String>, Vec<String>))
    ensures
        strings_view(r.0@) == strings_view(state.system@),
        strings_view(r.1@) == strings_view(state.user@),
{
    (copy_strings(&state.system), copy_strings(&state.user))
}

fn copy_strings(v: &Vec<String>) -> (r: Vec<String>)
    ensures
        strings_view(r@) == strings_view(v@),
{
    let mut out: Vec<String> = Vec::new();
    let mut i: usize = 0;
    while i < v.len()
        invariant
            0 <= i <= v.len(),
            strings_view(out@) == strings_view(v@.take(i as int)),
        decreases v.len() - i,
    {
        let ghost before = out@;
        out.push(copy_string(&v[i]));
        assert(strings_view(out@) =~= strings_view(before).push(v@[i as int]@));
        assert(v@.take(i + 1) =~= v@.take(i as int).push(v@[i as int]));
        assert(strings_view(v@.take(i + 1)) =~= strings_view(v@.take(i as int)).push(v@[i as int]@));
        i = i + 1;
    }
    assert(v@.take(v.len() as int) =~= v@);
    out
}

/// Stores the complete ordered snapshot of the hives given (`None` keeps a
/// hive as it was); each hive's older disabled list is derived from its
/// snapshot.
pub fn save_path_snapshot(state: &mut DisabledState, system: Option<Vec<PathEntry>>, user: Option<Vec<PathEntry>>)
    ensures
        match system {
            Some(entries) => {
                &&& entries_view(final(state).system_snapshot@) == entries_view(entries@)
                &&& strings_view(final(state).system@) == disabled_list_spec(entries_view(entries@))
            },
            None => {
                &&& final(state).system_snapshot@ == old(state).system_snapshot@
                &&& final(state).system@ == old(state).system@
            },
        },
        match user {
            Some(entries) => {
                &&& entries_view(final(state).user_snapshot@) == entries_view(entries@)
                &&& strings_view(final(state).user@) == disabled_list_spec(entries_view(entries@))
            },
            None => {
                &&& final(state).user_snapshot@ == old(state).user_snapshot@
                &&& final(state).user@ == old(state).user@
            },
        },
{
    match system {
        Some(entries) => {
            state.system = disabled_lists(&entries);
            state.system_snapshot = entries;
        },
        None => {},
    }
    match user {
        Some(entries) => {
            state.user = disabled_lists(&entries);
            state.user_snapshot = entries;
        },
        None => {},
    }
}

/// The complete snapshot: each hive's registry paths merged with its
/// persisted state.
pub fn load_path_snapshot(registry_system: Vec<String>, registry_user: Vec<String>, state: &DisabledState) -> (r:
    PathSnapshot)
    ensures
        entries_view(r.system@) == merge_spec(
            strings_view(registry_system@),
            strings_view(state.system@),
            entries_view(state.system_snapshot@),
        ),
        entries_view(r.user@) == merge_spec(
            strings_view(registry_user@),
            strings_view(state.user@),
            entries_view(state.user_snapshot@),
        ),
{
    let system = merge_hive(
        registry_system,
        copy_strings(&state.system),
        crate::path_entry::copy_entries(&state.system_snapshot),
    );
    let user = merge_hive(
        registry_user,
        copy_strings(&state.user),
        crate::path_entry::copy_entries(&state.user_snapshot),
    );
    PathSnapshot { system, user }
}

/// The content of a pending snapshot: a hive not given is recorded empty.
pub fn pending_snapshot(system: Option<Vec<PathEntry>>, user: Option<Vec<PathEntry>>) -> (r: PathSnapshot)
    ensures
        r.system@ == (match system {
            Some(v) => v@,
            None => Seq::<PathEntry>::empty(),
        }),
        r.user@ == (match user {
            Some(v) => v@,
            None => Seq::<PathEntry>::empty(),
        }),
{
    PathSnapshot {
        system: match system {
            Some(v) => v,
            None => Vec::new(),
        },
        user: match user {
            Some(v) => v,
            None => Vec::new(),
        },
    }
}




/// Every seen key has its entry (true of the registry and legacy passes).
pub open spec fn seen_listed(st: MergeState) -> bool {
    forall|k: Seq<char>| #[trigger] st.0.contains(k) ==> has_key(st.1, k)
}

proof fn lemma_push_keeps_listed(st: MergeState, e: (Seq<char>, bool))
    requires
        seen_listed(st),
    ensures
        seen_listed((st.0.push(path_key_spec(e.0)), st.1.push(e))),
{
    let k = path_key_spec(e.0);
    let seen = st.0.push(k);
    let m2 = st.1.push(e);
    assert forall|x: Seq<char>| #[trigger] seen.contains(x) implies has_key(m2, x) by {
        if x == k {
            assert(key_at(m2, st.1.len() as int) == x);
        } else {
            let j = choose|j: int| 0 <= j < seen.len() && seen[j] == x;
            assert(st.0[j] == x);
            assert(st.0.contains(x));
            let w = choose|w: int| 0 <= w < st.1.len() && #[trigger] key_at(st.1, w) == x;
            assert(m2[w] == st.1[w]);
            assert(key_at(m2, w) == x);
        }
    }
}

proof fn lemma_fold_registry_listed(dis: Seq<Seq<char>>, ps: Seq<Seq<char>>, st: MergeState)
    requires
        seen_listed(st),
    ensures
        seen_listed(fold_registry(dis, ps, st)),
    decreases ps.len(),
{
    if ps.len() > 0 {
        lemma_fold_registry_listed(dis, ps.drop_last(), st);
        let cur = fold_registry(dis, ps.drop_last(), st);
        let k = path_key_spec(ps.last());
        if !(k.len() == 0 || cur.0.contains(k)) {
            lemma_push_keeps_listed(cur, (ps.last(), !dis.contains(k)));
        }
    }
}

proof fn lemma_fold_legacy_listed(ps: Seq<Seq<char>>, st: MergeState)
    requires
        seen_listed(st),
    ensures
        seen_listed(fold_legacy(ps, st)),
        forall|j: int|
            0 <= j < ps.len() && path_key_spec(#[trigger] ps[j]).len() > 0 ==> fold_legacy(ps, st).0.contains(
                path_key_spec(ps[j]),
            ),
    decreases ps.len(),
{
    if ps.len() > 0 {
        lemma_fold_legacy_listed(ps.drop_last(), st);
        let cur = fold_legacy(ps.drop_last(), st);
        let k = path_key_spec(ps.last());
        if !(k.len() == 0 || cur.0.contains(k)) {
            lemma_push_keeps_listed(cur, (ps.last(), false));
            lemma_push_keeps_seen(cur.0, k);
        }
        let fin = fold_legacy(ps, st);
        assert forall|j: int| 0 <= j < ps.len() && path_key_spec(#[trigger] ps[j]).len() > 0 implies fin.0.contains(
            path_key_spec(ps[j]),
        ) by {
            if j < ps.len() - 1 {
                assert(ps.drop_last()[j] == ps[j]);
                assert(cur.0.contains(path_key_spec(ps[j])));
                lemma_push_keeps_seen(cur.0, k);
            }
        }
    }
}

/// Without a snapshot (a state file of the older format), every path of
/// the older disabled list comes back, disabled.
pub proof fn law_legacy_orphans_restored(registry: Seq<Seq<char>>, legacy: Seq<Seq<char>>)
    ensures
        forall|j: int|
            0 <= j < legacy.len() && path_key_spec(#[trigger] legacy[j]).len() > 0 ==> exists|i: int|
                0 <= i < merge_spec(registry, legacy, Seq::empty()).len() && #[trigger] key_at(
                    merge_spec(registry, legacy, Seq::empty()),
                    i,
                ) == path_key_spec(legacy[j]) && !merge_spec(registry, legacy, Seq::empty())[i].1,
{
    let dis = legacy_keys(legacy);
    let st0: MergeState = (Seq::empty(), Seq::empty());
    assert(fold_snapshot(registry, dis, Seq::empty(), st0) == st0);
    assert(seen_listed(st0));
    lemma_fold_registry_listed(dis, registry, st0);
    let st2 = fold_registry(dis, registry, st0);
    lemma_fold_legacy_listed(legacy, st2);
    let st3 = fold_legacy(legacy, st2);
    law_merge_is_faithful(registry, legacy, Seq::empty());
    assert forall|j: int| 0 <= j < legacy.len() && path_key_spec(#[trigger] legacy[j]).len() > 0 implies exists|i: int|
        0 <= i < st3.1.len() && #[trigger] key_at(st3.1, i) == path_key_spec(legacy[j]) && !st3.1[i].1 by {
        let k = path_key_spec(legacy[j]);
        assert(st3.0.contains(k));
        let i = choose|i: int| 0 <= i < st3.1.len() && #[trigger] key_at(st3.1, i) == k;
        assert(dis[j] == k);
        assert(dis.contains(k));
        assert(key_at(merge_spec(registry, legacy, Seq::empty()), i) == k);
    }
}

// ───────────────────────── saving then loading ─────────────────────────

/// The paths of the enabled entries, in order: what the registry holds
/// once a snapshot has been applied.
pub open spec fn enabled_list_spec(entries: Seq<(Seq<char>, bool)>) -> Seq<Seq<char>>
    decreases entries.len(),
{
    if entries.len() == 0 {
        Seq::empty()
    } else if entries.last().1 {
        enabled_list_spec(entries.drop_last()).push(entries.last().0)
    } else {
        enabled_list_spec(entries.drop_last())
    }
}

/// Every entry has a non-blank key and no two entries share one.
pub open spec fn distinct_keys(s: Seq<(Seq<char>, bool)>) -> bool {
    &&& forall|i: int| 0 <= i < s.len() ==> (#[trigger] key_at(s, i)).len() > 0
    &&& forall|i: int, j: int| 0 <= i < j < s.len() ==> #[trigger] key_at(s, i) != #[trigger] key_at(s, j)
}

proof fn lemma_distinct_init(s: Seq<(Seq<char>, bool)>)
    requires
        s.len() > 0,
        distinct_keys(s),
    ensures
        distinct_keys(s.drop_last()),
        forall|i: int| 0 <= i < s.len() - 1 ==> #[trigger] key_at(s.drop_last(), i) == key_at(s, i),
{
    let t = s.drop_last();
    assert forall|i: int| 0 <= i < t.len() implies #[trigger] key_at(t, i) == key_at(s, i) by {
        assert(t[i] == s[i]);
    }
    assert forall|i: int, j: int| 0 <= i < j < t.len() implies #[trigger] key_at(t, i) != #[trigger] key_at(
        t,
        j,
    ) by {
        assert(key_at(t, i) == key_at(s, i));
        assert(key_at(t, j) == key_at(s, j));
    }
    assert forall|i: int| 0 <= i < t.len() implies (#[trigger] key_at(t, i)).len() > 0 by {
        assert(key_at(t, i) == key_at(s, i));
    }
}

/// In the registry of a snapshot with distinct keys, an entry's key finds
/// the entry's own path if it is enabled and nothing if it is disabled.
proof fn lemma_enabled_match(s: Seq<(Seq<char>, bool)>, i: int)
    requires
        distinct_keys(s),
        0 <= i < s.len(),
    ensures
        registry_match(enabled_list_spec(s), key_at(s, i)) == (if s[i].1 {
            Some(s[i].0)
        } else {
            None::<Seq<char>>
        }),
    decreases s.len(),
{
    let t = s.drop_last();
    let last = s.last();
    let k = key_at(s, i);
    lemma_distinct_init(s);
    let x = enabled_list_spec(t);
    if last.1 {
        assert(enabled_list_spec(s) == x.push(last.0));
        assert(x.push(last.0).drop_last() =~= x);
        assert(x.push(last.0).last() == last.0);
    } else {
        assert(enabled_list_spec(s) == x);
    }
    if i == s.len() - 1 {
        if !last.1 {
            assert forall|j: int| 0 <= j < t.len() implies #[trigger] key_at(t, j) != k by {
                assert(key_at(t, j) == key_at(s, j));
            }
            lemma_no_match_in_enabled(t, k);
        }
    } else {
        assert(t[i] == s[i]);
        lemma_enabled_match(t, i);
        assert(key_at(t, i) == k);
        if last.1 {
            assert(key_at(s, s.len() - 1) != k);
        }
    }
}

/// A key no entry has finds nothing in the enabled paths.
proof fn lemma_no_match_in_enabled(s: Seq<(Seq<char>, bool)>, k: Seq<char>)
    requires
        forall|i: int| 0 <= i < s.len() ==> #[trigger] key_at(s, i) != k,
    ensures
        registry_match(enabled_list_spec(s), k) is None,
    decreases s.len(),
{
    if s.len() > 0 {
        let t = s.drop_last();
        assert forall|i: int| 0 <= i < t.len() implies #[trigger] key_at(t, i) != k by {
            assert(t[i] == s[i]);
            assert(key_at(s, i) != k);
        }
        assert(key_at(s, s.len() - 1) != k);
        lemma_no_match_in_enabled(t, k);
        let x = enabled_list_spec(t);
        if s.last().1 {
            assert(enabled_list_spec(s) == x.push(s.last().0));
            assert(x.push(s.last().0).drop_last() =~= x);
        }
    }
}

/// The keys of a list of entries.
pub open spec fn entry_keys(s: Seq<(Seq<char>, bool)>) -> Seq<Seq<char>> {
    s.map_values(|e: (Seq<char>, bool)| path_key_spec(e.0))
}

/// Whether `p` is the path of an entry whose flag is `on`.
pub open spec fn path_of_entry(s: Seq<(Seq<char>, bool)>, p: Seq<char>, on: bool) -> bool {
    exists|m: int| 0 <= m < s.len() && #[trigger] s[m] == (p, on)
}

/// Each path of the enabled or disabled list is the path of an entry.
proof fn lemma_lists_come_from_entries(s: Seq<(Seq<char>, bool)>)
    ensures
        forall|j: int|
            0 <= j < enabled_list_spec(s).len() ==> path_of_entry(s, #[trigger] enabled_list_spec(s)[j], true),
        forall|j: int|
            0 <= j < disabled_list_spec(s).len() ==> path_of_entry(s, #[trigger] disabled_list_spec(s)[j], false),
    decreases s.len(),
{
    if s.len() > 0 {
        let t = s.drop_last();
        lemma_lists_come_from_entries(t);
        assert forall|j: int| 0 <= j < enabled_list_spec(s).len() implies path_of_entry(
            s,
            #[trigger] enabled_list_spec(s)[j],
            true,
        ) by {
            if s.last().1 {
                assert(enabled_list_spec(s) == enabled_list_spec(t).push(s.last().0));
            } else {
                assert(enabled_list_spec(s) == enabled_list_spec(t));
            }
            if j < enabled_list_spec(t).len() {
                assert(enabled_list_spec(s)[j] == enabled_list_spec(t)[j]);
                assert(path_of_entry(t, enabled_list_spec(t)[j], true));
                let m = choose|m: int| 0 <= m < t.len() && #[trigger] t[m] == (enabled_list_spec(t)[j], true);
                assert(s[m] == t[m]);
            } else {
                assert(s[s.len() - 1] == (enabled_list_spec(s)[j], true));
            }
        }
        assert forall|j: int| 0 <= j < disabled_list_spec(s).len() implies path_of_entry(
            s,
            #[trigger] disabled_list_spec(s)[j],
            false,
        ) by {
            if s.last().1 {
                assert(disabled_list_spec(s) == disabled_list_spec(t));
            } else {
                assert(disabled_list_spec(s) == disabled_list_spec(t).push(s.last().0));
            }
            if j < disabled_list_spec(t).len() {
                assert(disabled_list_spec(s)[j] == disabled_list_spec(t)[j]);
                assert(path_of_entry(t, disabled_list_spec(t)[j], false));
                let m = choose|m: int| 0 <= m < t.len() && #[trigger] t[m] == (disabled_list_spec(t)[j], false);
                assert(s[m] == t[m]);
            } else {
                assert(s[s.len() - 1] == (disabled_list_spec(s)[j], false));
            }
        }
    }
}

/// Replaying a snapshot with distinct keys against its own registry gives
/// back its prefixes, having seen exactly their keys.
proof fn lemma_replay_snapshot(s: Seq<(Seq<char>, bool)>, n: int)
    requires
        distinct_keys(s),
        0 <= n <= s.len(),
    ensures
        fold_snapshot(
            enabled_list_spec(s),
            legacy_keys(disabled_list_spec(s)),
            s.take(n),
            (Seq::empty(), Seq::empty()),
        ) == (entry_keys(s.take(n)), s.take(n)),
    decreases n,
{
    let reg = enabled_list_spec(s);
    let dis = legacy_keys(disabled_list_spec(s));
    if n > 0 {
        lemma_replay_snapshot(s, n - 1);
        assert(s.take(n).drop_last() =~= s.take(n - 1));
        assert(s.take(n).last() == s[n - 1]);
        let e = s[n - 1];
        let k = key_at(s, n - 1);
        let seen = entry_keys(s.take(n - 1));
        assert(!seen.contains(k)) by {
            if seen.contains(k) {
                let j = choose|j: int| 0 <= j < seen.len() && seen[j] == k;
                assert(seen[j] == key_at(s, j));
            }
        }
        lemma_enabled_match(s, n - 1);
        if e.1 {
            assert(!dis.contains(k)) by {
                if dis.contains(k) {
                    lemma_lists_come_from_entries(s);
                    let j = choose|j: int| 0 <= j < dis.len() && dis[j] == k;
                    assert(path_of_entry(s, disabled_list_spec(s)[j], false));
                    let m = choose|m: int| 0 <= m < s.len() && #[trigger] s[m] == (disabled_list_spec(s)[j], false);
                    assert(key_at(s, m) == k);
                }
            }
        }
        assert(entry_keys(s.take(n)) =~= seen.push(k));
        assert(s.take(n) =~= s.take(n - 1).push(e));
    }
}

/// Passes that meet only keys already seen change nothing.
proof fn lemma_seen_passes_are_idle(dis: Seq<Seq<char>>, ps: Seq<Seq<char>>, st: MergeState)
    requires
        forall|j: int| 0 <= j < ps.len() ==> st.0.contains(#[trigger] path_key_spec(ps[j])),
    ensures
        fold_registry(dis, ps, st) == st,
        fold_legacy(ps, st) == st,
    decreases ps.len(),
{
    if ps.len() > 0 {
        let t = ps.drop_last();
        assert forall|j: int| 0 <= j < t.len() implies st.0.contains(#[trigger] path_key_spec(t[j])) by {
            assert(t[j] == ps[j]);
        }
        lemma_seen_passes_are_idle(dis, t, st);
        assert(st.0.contains(path_key_spec(ps[ps.len() - 1])));
    }
}

/// Saving a snapshot whose keys are distinct and non-blank, writing its
/// enabled entries to the registry and merging again on the next start
/// gives back the same entries in the same order: disabled entries come
/// back where they were.
pub proof fn law_snapshot_survives_restart(s: Seq<(Seq<char>, bool)>)
    requires
        distinct_keys(s),
    ensures
        merge_spec(enabled_list_spec(s), disabled_list_spec(s), s) == s,
{
    let reg = enabled_list_spec(s);
    let leg = disabled_list_spec(s);
    let dis = legacy_keys(leg);
    lemma_replay_snapshot(s, s.len() as int);
    assert(s.take(s.len() as int) =~= s);
    let st1 = fold_snapshot(reg, dis, s, (Seq::empty(), Seq::empty()));
    assert(st1 == (entry_keys(s), s));
    lemma_lists_come_from_entries(s);
    assert forall|j: int| 0 <= j < reg.len() implies st1.0.contains(#[trigger] path_key_spec(reg[j])) by {
        assert(path_of_entry(s, reg[j], true));
        let m = choose|m: int| 0 <= m < s.len() && #[trigger] s[m] == (reg[j], true);
        assert(entry_keys(s)[m] == path_key_spec(reg[j]));
    }
    lemma_seen_passes_are_idle(dis, reg, st1);
    assert forall|j: int| 0 <= j < leg.len() implies st1.0.contains(#[trigger] path_key_spec(leg[j])) by {
        assert(path_of_entry(s, leg[j], false));
        let m = choose|m: int| 0 <= m < s.len() && #[trigger] s[m] == (leg[j], false);
        assert(entry_keys(s)[m] == path_key_spec(leg[j]));
    }
    lemma_seen_passes_are_idle(dis, leg, st1);
}

} // verus!
