//! Backups of environment variables and of PATH: what a backup holds,
//! which old backups a rotation removes, the retention setting, and the
//! text of a PATH backup. Files are written and removed by the caller.

use crate::env_var::{
    is_reserved, is_reserved_spec, kind_of, kind_writable, revision_of, revision_spec, EnvHive,
    EnvValueKind, REG_EXPAND_SZ, REG_SZ,
};
use crate::error::{CoreError, ErrorCode};
use crate::order::{is_permutation, lemma_text_lt_irreflexive, stable_order, text_lt};
use crate::reg_store::{
    enum_failure_message, get_failure_message, injected_get_failure, lookup, EntryView, MemoryHive,
};
use crate::registry::access::{hive_label_spec, hive_location};
use crate::registry::env_var::{entry_unreadable, first_unreadable, lemma_first_unreadable_sticks};
use crate::text::{
    chars_of, concat2, concat3, concat4, concat5, copy_string, ends_with_seq, lines, split_lines,
    starts_with_seq, str_eq, string_of, string_of_range, strings_view, to_lowercase, trim,
    trim_chars, unicode_lower,
};
use vstd::prelude::*;
use vstd::string::*;

verus! {

/// How many environment backups are kept when the setting is absent or
/// unreadable.
pub const ENV_BACKUP_KEEP: usize = 20;

/// One variable in a backup, with its plain value: a backup is only worth
/// keeping if it can restore.
#[derive(Debug, Clone, PartialEq, Eq)]
pub struct EnvBackupVar {
    /// The name as stored.
    pub name: String,
    /// Only `String` and `ExpandString` occur.
    pub kind: EnvValueKind,
    pub value: String,
    /// The revision at collection time.
    pub revision: String,
}

/// A backup's variables, by hive.
#[derive(Debug, Clone, PartialEq, Eq)]
pub struct EnvBackupHives {
    pub system: Vec<EnvBackupVar>,
    pub user: Vec<EnvBackupVar>,
}

/// What one backup file holds.
#[derive(Debug, Clone, PartialEq, Eq)]
pub struct EnvBackupPayload {
    /// Collection time in Unix milliseconds.
    pub captured_at: i64,
    pub hives: EnvBackupHives,
}

pub type BackupVarView = (Seq<char>, EnvValueKind, Seq<char>, Seq<char>);

pub open spec fn backup_var_view(v: EnvBackupVar) -> BackupVarView {
    (v.name@, v.kind, v.value@, v.revision@)
}

pub open spec fn backup_vars_view(vs: Seq<EnvBackupVar>) -> Seq<BackupVarView> {
    vs.map_values(|v: EnvBackupVar| backup_var_view(v))
}

// ───────────────────────── collecting ─────────────────────────

/// The backup of the first `k` stored names: the reserved `Path` and
/// values of an unsupported type are skipped (an unsupported value must not
/// make every backup fail); a value that cannot be read fails the backup.
pub open spec fn backup_prefix(es: Seq<EntryView>, fail_get: Option<String>, k: nat) -> Result<
    Seq<BackupVarView>,
    ErrorCode,
>
    decreases k,
{
    if k == 0 || k > es.len() {
        Ok(Seq::empty())
    } else {
        match backup_prefix(es, fail_get, (k - 1) as nat) {
            Err(c) => Err(c),
            Ok(vs) => {
                let n = es[k - 1].0;
                if is_reserved_spec(n) {
                    Ok(vs)
                } else if injected_get_failure(fail_get, n) || lookup(es, n) is None {
                    Err(ErrorCode::Io)
                } else {
                    let raw = lookup(es, n).unwrap();
                    if !kind_writable(kind_of(raw.0)) {
                        Ok(vs)
                    } else {
                        Ok(vs.push((n, kind_of(raw.0), raw.1, revision_spec(n, raw.0, raw.1))))
                    }
                }
            },
        }
    }
}

/// The backup of a hive; an enumeration failure fails it.
pub open spec fn backup_spec(es: Seq<EntryView>, fail_enum: bool, fail_get: Option<String>) -> Result<
    Seq<BackupVarView>,
    ErrorCode,
> {
    if fail_enum {
        Err(ErrorCode::Io)
    } else {
        backup_prefix(es, fail_get, es.len())
    }
}

proof fn lemma_backup_prefix_err_sticks(es: Seq<EntryView>, fail_get: Option<String>, k: nat, m: nat)
    requires
        k <= m <= es.len(),
        backup_prefix(es, fail_get, k) is Err,
    ensures
        backup_prefix(es, fail_get, m) == backup_prefix(es, fail_get, k),
    decreases m - k,
{
    if k < m {
        lemma_backup_prefix_err_sticks(es, fail_get, k, (m - 1) as nat);
    }
}

/// The text of a failed collection.
pub open spec fn backup_error_message(
    es: Seq<EntryView>,
    fail_enum: bool,
    fail_get: Option<String>,
    hive: EnvHive,
) -> Seq<char> {
    if fail_enum {
        "读取"@ + hive_label_spec(hive) + "环境变量列表失败: "@ + enum_failure_message()
    } else {
        let n = es[first_unreadable(es, fail_get, es.len())].0;
        "读取"@ + hive_label_spec(hive) + "环境变量 "@ + n + " 失败: "@ + get_failure_message(fail_get, n)
    }
}

fn collect_failure(hive: EnvHive, head: &str, detail: &str) -> (r: CoreError)
    ensures
        r.code == ErrorCode::Io,
        r.operation@ == "collect_env_backup"@,
        r.hive == Some(hive),
        r.name is None,
        !r.retryable,
        r.message@ == head@ + detail@,
{
    let m = concat2(head, detail);
    let mut e = CoreError::new(ErrorCode::Io, "collect_env_backup", m.as_str());
    e.hive = Some(hive);
    e
}

/// Collects every restorable variable of a hive, with its plain value and
/// revision.
pub fn collect_hive_vars_in_store(store: &MemoryHive, hive: EnvHive) -> (r: Result<Vec<EnvBackupVar>, CoreError>)
    ensures
        match r {
            Ok(vs) => backup_spec(store.entries(), store.fail_enum_spec(), store.fail_get_spec()) == Ok::<
                Seq<BackupVarView>,
                ErrorCode,
            >(backup_vars_view(vs@)),
            Err(e) => backup_spec(store.entries(), store.fail_enum_spec(), store.fail_get_spec()) == Err::<
                Seq<BackupVarView>,
                ErrorCode,
            >(e.code) && e.operation@ == "collect_env_backup"@ && e.hive == Some(hive) && !e.retryable
                && e.message@ == backup_error_message(
                store.entries(),
                store.fail_enum_spec(),
                store.fail_get_spec(),
                hive,
            ),
        },
{
    let label = hive_location(hive).1;
    let names = match store.enum_names() {
        Ok(n) => n,
        Err(m) => {
            let head = concat3("读取", label, "环境变量列表失败: ");
            return Err(collect_failure(hive, head.as_str(), m.as_str()));
        },
    };
    let ghost es = store.entries();
    let ghost fg = store.fail_get_spec();
    assert(names@.len() == es.len()) by {
        assert(names@.map_values(|s: String| s@).len() == es.map_values(|e: EntryView| e.0).len());
    }
    let mut vars: Vec<EnvBackupVar> = Vec::new();
    assert(backup_vars_view(vars@) =~= Seq::<BackupVarView>::empty());
    let mut i: usize = 0;
    while i < names.len()
        invariant
            0 <= i <= names.len(),
            names@.len() == es.len(),
            es == store.entries(),
            fg == store.fail_get_spec(),
            !store.fail_enum_spec(),
            names@.map_values(|s: String| s@) == es.map_values(|e: EntryView| e.0),
            backup_prefix(es, fg, i as nat) == Ok::<Seq<BackupVarView>, ErrorCode>(backup_vars_view(vars@)),
            first_unreadable(es, fg, i as nat) == -1,
            label@ == hive_label_spec(hive),
        decreases names.len() - i,
    {
        let name = names[i].as_str();
        assert(name@ == es[i as int].0) by {
            assert(names@.map_values(|s: String| s@)[i as int] == es.map_values(|e: EntryView| e.0)[i as int]);
        }
        if !is_reserved(name) {
            let raw = match store.get_raw(name) {
                Ok(v) => v,
                Err(m) => {
                    let head = concat5("读取", label, "环境变量 ", name, " 失败: ");
                    let e = collect_failure(hive, head.as_str(), m.as_str()).with_target(hive, name);
                    proof {
                        lemma_backup_prefix_err_sticks(es, fg, (i + 1) as nat, es.len());
                        assert(entry_unreadable(es, fg, i as int));
                        assert(first_unreadable(es, fg, (i + 1) as nat) == i);
                        lemma_first_unreadable_sticks(es, fg, (i + 1) as nat, es.len());
                    }
                    return Err(e);
                },
            };
            assert(!entry_unreadable(es, fg, i as int));
            let kind = EnvValueKind::from_reg_type(raw.vtype);
            if kind.is_writable() {
                let revision = revision_of(name, raw.vtype, raw.value.as_str());
                let v = EnvBackupVar { name: copy_string(&names[i]), kind, value: raw.value, revision };
                let ghost before = vars@;
                vars.push(v);
                assert(backup_vars_view(vars@) =~= backup_vars_view(before).push(backup_var_view(v)));
            }
        }
        i = i + 1;
    }
    Ok(vars)
}

/// Every variable of a backup can be restored through the generic route:
/// its name is not the reserved `Path`, its type is `String` or
/// `ExpandString`, and it carries the revision of exactly what was read.
pub proof fn law_backups_are_restorable(es: Seq<EntryView>, fail_enum: bool, fail_get: Option<String>)
    ensures
        backup_spec(es, fail_enum, fail_get) matches Ok(vs) ==> forall|i: int|
            0 <= i < vs.len() ==> {
                let v = #[trigger] vs[i];
                &&& !is_reserved_spec(v.0)
                &&& kind_writable(v.1)
                &&& lookup(es, v.0) matches Some(raw) && v.1 == kind_of(raw.0) && v.2 == raw.1 && v.3
                    == revision_spec(v.0, raw.0, raw.1)
            },
{
    if !fail_enum {
        lemma_backup_members(es, fail_get, es.len());
    }
}

proof fn lemma_backup_members(es: Seq<EntryView>, fail_get: Option<String>, k: nat)
    ensures
        backup_prefix(es, fail_get, k) matches Ok(vs) ==> forall|i: int|
            0 <= i < vs.len() ==> {
                let v = #[trigger] vs[i];
                &&& !is_reserved_spec(v.0)
                &&& kind_writable(v.1)
                &&& lookup(es, v.0) matches Some(raw) && v.1 == kind_of(raw.0) && v.2 == raw.1 && v.3
                    == revision_spec(v.0, raw.0, raw.1)
            },
    decreases k,
{
    if k > 0 && k <= es.len() {
        lemma_backup_members(es, fail_get, (k - 1) as nat);
        if let Ok(prev) = backup_prefix(es, fail_get, (k - 1) as nat) {
            if let Ok(vs) = backup_prefix(es, fail_get, k) {
                assert forall|i: int| 0 <= i < vs.len() implies {
                    let v = #[trigger] vs[i];
                    &&& !is_reserved_spec(v.0)
                    &&& kind_writable(v.1)
                    &&& lookup(es, v.0) matches Some(raw) && v.1 == kind_of(raw.0) && v.2 == raw.1 && v.3
                        == revision_spec(v.0, raw.0, raw.1)
                } by {
                    if i < prev.len() {
                        assert(vs[i] == prev[i]);
                    }
                }
            }
        }
    }
}

/// The kind a backup records for a stored type code.
pub open spec fn backed_up_kind(vtype: u32) -> EnvValueKind {
    if vtype == REG_SZ {
        EnvValueKind::String
    } else {
        EnvValueKind::ExpandString
    }
}

/// Whether the `j`-th stored value belongs in a backup: not the reserved
/// `Path`, and stored as `REG_SZ` or `REG_EXPAND_SZ`.
pub open spec fn belongs_in_backup(es: Seq<EntryView>, j: int) -> bool {
    &&& !is_reserved_spec(es[j].0)
    &&& lookup(es, es[j].0) is Some
    &&& (lookup(es, es[j].0).unwrap().0 == REG_SZ || lookup(es, es[j].0).unwrap().0 == REG_EXPAND_SZ)
}

/// A backup leaves nothing out: every stored variable other than the
/// reserved `Path` whose type is `REG_SZ` or `REG_EXPAND_SZ` (protected
/// built-ins included) is in a successful backup, with its kind, its value
/// and the revision of that value.
pub proof fn law_backup_is_complete(es: Seq<EntryView>, fail_enum: bool, fail_get: Option<String>)
    ensures
        backup_spec(es, fail_enum, fail_get) matches Ok(vs) ==> forall|j: int|
            0 <= j < es.len() && #[trigger] belongs_in_backup(es, j) ==> exists|i: int|
                0 <= i < vs.len() && #[trigger] vs[i] == ({
                    let raw = lookup(es, es[j].0).unwrap();
                    (es[j].0, backed_up_kind(raw.0), raw.1, revision_spec(es[j].0, raw.0, raw.1))
                }),
{
    if !fail_enum {
        lemma_backup_complete(es, fail_get, es.len());
    }
}

proof fn lemma_backup_complete(es: Seq<EntryView>, fail_get: Option<String>, k: nat)
    requires
        k <= es.len(),
    ensures
        backup_prefix(es, fail_get, k) matches Ok(vs) ==> forall|j: int|
            0 <= j < k && j < es.len() && #[trigger] belongs_in_backup(es, j) ==> exists|i: int|
                0 <= i < vs.len() && #[trigger] vs[i] == ({
                    let raw = lookup(es, es[j].0).unwrap();
                    (es[j].0, backed_up_kind(raw.0), raw.1, revision_spec(es[j].0, raw.0, raw.1))
                }),
    decreases k,
{
    if k > 0 {
        lemma_backup_complete(es, fail_get, (k - 1) as nat);
        if let Ok(prev) = backup_prefix(es, fail_get, (k - 1) as nat) {
            if let Ok(vs) = backup_prefix(es, fail_get, k) {
                assert forall|j: int| 0 <= j < k && j < es.len() && #[trigger] belongs_in_backup(es, j) implies exists|i: int|
                    0 <= i < vs.len() && #[trigger] vs[i] == ({
                        let raw = lookup(es, es[j].0).unwrap();
                        (es[j].0, backed_up_kind(raw.0), raw.1, revision_spec(es[j].0, raw.0, raw.1))
                    }) by {
                    let raw = lookup(es, es[j].0).unwrap();
                    let want = (es[j].0, backed_up_kind(raw.0), raw.1, revision_spec(es[j].0, raw.0, raw.1));
                    if j < k - 1 {
                        let i = choose|i: int| 0 <= i < prev.len() && #[trigger] prev[i] == want;
                        assert(vs[i] == prev[i]);
                    } else {
                        assert(vs[prev.len() as int] == want);
                    }
                }
            }
        }
    }
}

// ───────────────────────── rotation ─────────────────────────

/// A file this library wrote as an environment backup:
/// `env_backup_*.json`.
pub open spec fn is_env_backup_name(n: Seq<char>) -> bool {
    starts_with_seq(n, "env_backup_"@) && ends_with_seq(n, ".json"@)
}

pub open spec fn backup_candidates(names: Seq<Seq<char>>) -> Seq<Seq<char>>
    decreases names.len(),
{
    if names.len() == 0 {
        Seq::empty()
    } else if is_env_backup_name(names.last()) {
        backup_candidates(names.drop_last()).push(names.last())
    } else {
        backup_candidates(names.drop_last())
    }
}

/// `r` lists the texts of `s` once each, largest first.
pub open spec fn descending_arrangement(r: Seq<Seq<char>>, s: Seq<Seq<char>>) -> bool {
    &&& r.len() == s.len()
    &&& exists|order: Seq<usize>|
        is_permutation(order, s.len() as int) && forall|i: int|
            0 <= i < r.len() ==> #[trigger] r[i] == s[order[i] as int]
    &&& forall|i: int, j: int| 0 <= i < j < r.len() ==> !text_lt(#[trigger] r[i], #[trigger] r[j])
}

/// A rotation removes as many backups as the listing holds beyond `keep`
/// (none when it holds no more), every one a backup of the listing, and,
/// when the listing names each file once, no file twice: the count left
/// after a rotation is `keep` whenever there were more.
pub proof fn law_rotation_leaves_keep(
    names: Seq<Seq<char>>,
    keep: usize,
    sorted: Seq<Seq<char>>,
    removed: Seq<Seq<char>>,
)
    requires
        descending_arrangement(sorted, backup_candidates(names)),
        removed == (if backup_candidates(names).len() <= keep {
            Seq::<Seq<char>>::empty()
        } else {
            sorted.skip(keep as int)
        }),
    ensures
        removed.len() == (if backup_candidates(names).len() <= keep {
            0
        } else {
            backup_candidates(names).len() - keep
        }),
        forall|i: int| 0 <= i < removed.len() ==> backup_candidates(names).contains(#[trigger] removed[i]),
        (forall|i: int, j: int|
            0 <= i < j < backup_candidates(names).len() ==> backup_candidates(names)[i]
                != backup_candidates(names)[j]) ==> forall|i: int, j: int|
            0 <= i < j < removed.len() ==> #[trigger] removed[i] != #[trigger] removed[j],
{
    let cands = backup_candidates(names);
    let order = choose|order: Seq<usize>|
        is_permutation(order, cands.len() as int) && forall|i: int|
            0 <= i < sorted.len() ==> #[trigger] sorted[i] == cands[order[i] as int];
    if cands.len() > keep {
        assert forall|i: int| 0 <= i < removed.len() implies cands.contains(#[trigger] removed[i]) by {
            assert(removed[i] == sorted[i + keep]);
            assert(sorted[i + keep] == cands[order[i + keep] as int]);
        }
        if forall|i: int, j: int| 0 <= i < j < cands.len() ==> cands[i] != cands[j] {
            assert forall|i: int, j: int| 0 <= i < j < removed.len() implies #[trigger] removed[i]
                != #[trigger] removed[j] by {
                assert(removed[i] == sorted[i + keep] && removed[j] == sorted[j + keep]);
                assert(sorted[i + keep] == cands[order[i + keep] as int]);
                assert(sorted[j + keep] == cands[order[j + keep] as int]);
                assert(order[i + keep] != order[j + keep]);
                let a = order[i + keep] as int;
                let b = order[j + keep] as int;
                if a < b {
                    assert(cands[a] != cands[b]);
                } else {
                    assert(cands[b] != cands[a]);
                }
            }
        }
    }
}

/// Writing a backup, then rotating: when every earlier backup name sorts
/// below the new one and the directory names each backup once, the new
/// backup is never removed and exactly `min(keep, count)` backups remain,
/// `count` being the backups after the write (`keep` at least 1).
pub proof fn law_backup_then_rotate(
    names: Seq<Seq<char>>,
    newest: Seq<char>,
    keep: usize,
    sorted: Seq<Seq<char>>,
    removed: Seq<Seq<char>>,
)
    requires
        keep >= 1,
        is_env_backup_name(newest),
        backup_candidates(names).no_duplicates(),
        forall|i: int| 0 <= i < backup_candidates(names).len() ==> text_lt(#[trigger] backup_candidates(names)[i], newest),
        descending_arrangement(sorted, backup_candidates(names.push(newest))),
        removed == (if backup_candidates(names.push(newest)).len() <= keep {
            Seq::<Seq<char>>::empty()
        } else {
            sorted.skip(keep as int)
        }),
    ensures
        ({
            let cands = backup_candidates(names.push(newest));
            let left = cands.to_set().difference(removed.to_set());
            &&& left.contains(newest)
            &&& left.len() == (if cands.len() <= keep { cands.len() } else { keep as nat })
        }),
{
    let old_c = backup_candidates(names);
    let cands = backup_candidates(names.push(newest));
    assert(names.push(newest).drop_last() =~= names);
    assert(cands == old_c.push(newest));
    assert forall|i: int, j: int| 0 <= i < j < cands.len() implies cands[i] != cands[j] by {
        if j == cands.len() - 1 {
            assert(text_lt(old_c[i], newest));
            lemma_text_lt_irreflexive(newest);
        } else {
            assert(old_c[i] != old_c[j]);
        }
    }
    assert(cands.no_duplicates());
    law_rotation_leaves_keep(names.push(newest), keep, sorted, removed);
    let order = choose|order: Seq<usize>|
        is_permutation(order, cands.len() as int) && forall|i: int|
            0 <= i < sorted.len() ==> #[trigger] sorted[i] == cands[order[i] as int];
    // the newest backup is not among the removed
    assert forall|i: int| 0 <= i < removed.len() implies removed[i] != newest by {
        let j = i + keep;
        assert(removed[i] == sorted[j]);
        if sorted[j] == newest {
            assert(sorted[0] == cands[order[0] as int]);
            assert(sorted[j] == cands[order[j] as int]);
            assert(order[0] != order[j]);
            let a = order[0] as int;
            let b = order[j] as int;
            if sorted[0] == newest {
                if a < b {
                    assert(cands[a] != cands[b]);
                } else {
                    assert(cands[b] != cands[a]);
                }
            } else {
                assert(a != cands.len() - 1);
                assert(cands[a] == old_c[a]);
                assert(text_lt(old_c[a], newest));
                assert(!text_lt(sorted[0], sorted[j]));
            }
        }
    }
    assert(!removed.contains(newest));
    assert(cands[cands.len() - 1] == newest);
    assert(cands.to_set().contains(newest));
    // counting what is left
    cands.unique_seq_to_set();
    removed.unique_seq_to_set();
    let a = cands.to_set();
    let b = removed.to_set();
    assert(b.subset_of(a)) by {
        assert forall|x: Seq<char>| b.contains(x) implies a.contains(x) by {
            let i = choose|i: int| 0 <= i < removed.len() && removed[i] == x;
            assert(cands.contains(removed[i]));
        }
    }
    assert(a.intersect(b) =~= b);
    vstd::set_lib::lemma_set_difference_len(a, b);
}

/// Which backups a rotation removes. Only this library's own backups are
/// considered (never a PATH backup, a `.bak`, a quarantined file or anything
/// else); the names embed their time, so the largest are the newest; the
/// newest `keep` stay and the rest go. `keep = 0` removes them all.
pub fn select_backups_to_remove(names: &Vec<String>, keep: usize) -> (r: Vec<String>)
    ensures
        ({
            let cands = backup_candidates(strings_view(names@));
            exists|sorted: Seq<Seq<char>>|
                descending_arrangement(sorted, cands) && strings_view(r@) == (if cands.len() <= keep {
                    Seq::<Seq<char>>::empty()
                } else {
                    sorted.skip(keep as int)
                })
        }),
        forall|i: int| 0 <= i < r@.len() ==> is_env_backup_name(#[trigger] r@[i]@),
{
    let ghost nv = strings_view(names@);
    let mut cands: Vec<String> = Vec::new();
    let mut i: usize = 0;
    let prefix = chars_of("env_backup_");
    let suffix = chars_of(".json");
    while i < names.len()
        invariant
            0 <= i <= names.len(),
            nv == strings_view(names@),
            prefix@ == "env_backup_"@,
            suffix@ == ".json"@,
            strings_view(cands@) == backup_candidates(nv.take(i as int)),
        decreases names.len() - i,
    {
        assert(nv.take(i + 1).drop_last() =~= nv.take(i as int));
        assert(nv.take(i + 1).last() == names@[i as int]@);
        let cs = chars_of(names[i].as_str());
        if crate::text::starts_with_chars(&cs, &prefix) && crate::text::ends_with_chars(&cs, &suffix) {
            let ghost before = cands@;
            cands.push(copy_string(&names[i]));
            assert(strings_view(cands@) =~= strings_view(before).push(names@[i as int]@));
        }
        i = i + 1;
    }
    assert(nv.take(names.len() as int) =~= nv);
    let ghost cv = strings_view(cands@);
    proof {
        lemma_candidates_are_backups(nv);
    }
    let order = stable_order(&cands);
    // walk the ascending order from its end: largest first
    let mut sorted: Vec<String> = Vec::new();
    let mut t: usize = order.len();
    while t > 0
        invariant
            0 <= t <= order.len(),
            order@.len() == cands@.len(),
            is_permutation(order@, cands@.len() as int),
            crate::order::sorts_stably(order@, cv),
            cv == strings_view(cands@),
            sorted@.len() == order.len() - t,
            forall|a: int| 0 <= a < sorted@.len() ==> (#[trigger] sorted@[a])@ == cv[order@[order.len() - 1 - a] as int],
        decreases t,
    {
        t = t - 1;
        sorted.push(copy_string(&cands[order[t]]));
    }
    let ghost sv = strings_view(sorted@);
    proof {
        let n = order@.len();
        let rev = Seq::new(n, |a: int| order@[n - 1 - a]);
        assert(is_permutation(rev, cv.len() as int)) by {
            assert forall|a: int, b: int| 0 <= a < b < rev.len() implies #[trigger] rev[a] != #[trigger] rev[b] by {
                assert(order@[n - 1 - b] != order@[n - 1 - a]);
            }
            assert forall|x: int| 0 <= x < cv.len() implies #[trigger] crate::order::lists_index(rev, x) by {
                assert(crate::order::lists_index(order@, x));
                let w = choose|w: int| 0 <= w < order@.len() && #[trigger] order@[w] == x as usize;
                assert(rev[n - 1 - w] == x as usize);
            }
        }
        assert forall|a: int| 0 <= a < sv.len() implies #[trigger] sv[a] == cv[rev[a] as int] by {
            assert(sv[a] == sorted@[a]@);
        }
        assert forall|a: int, b: int| 0 <= a < b < sv.len() implies !text_lt(#[trigger] sv[a], #[trigger] sv[b]) by {
            assert(sv[a] == cv[order@[n - 1 - a] as int]);
            assert(sv[b] == cv[order@[n - 1 - b] as int]);
        }
        assert(is_permutation(rev, cv.len() as int) && forall|a: int|
            0 <= a < sv.len() ==> #[trigger] sv[a] == cv[rev[a] as int]);
        assert(descending_arrangement(sv, cv));
    }
    let mut out: Vec<String> = Vec::new();
    if cands.len() > keep {
        let mut k: usize = keep;
        while k < sorted.len()
            invariant
                keep <= k <= sorted.len(),
                sv == strings_view(sorted@),
                strings_view(out@) == sv.subrange(keep as int, k as int),
            decreases sorted.len() - k,
        {
            let ghost before = out@;
            out.push(copy_string(&sorted[k]));
            assert(strings_view(out@) =~= strings_view(before).push(sorted@[k as int]@));
            assert(sv.subrange(keep as int, k + 1) =~= sv.subrange(keep as int, k as int).push(sv[k as int]));
            k = k + 1;
        }
        assert(sv.subrange(keep as int, sorted.len() as int) =~= sv.skip(keep as int));
    } else {
        assert(strings_view(out@) =~= Seq::<Seq<char>>::empty());
    }
    proof {
        assert forall|i: int| 0 <= i < out@.len() implies is_env_backup_name(#[trigger] out@[i]@) by {
            assert(strings_view(out@)[i] == out@[i]@);
            let a = i + keep;
            assert(sv[a] == out@[i]@);
            let w = choose|order: Seq<usize>|
                is_permutation(order, cv.len() as int) && forall|x: int|
                    0 <= x < sv.len() ==> #[trigger] sv[x] == cv[order[x] as int];
            assert(sv[a] == cv[w[a] as int]);
        }
    }
    out
}

proof fn lemma_candidates_are_backups(names: Seq<Seq<char>>)
    ensures
        forall|i: int|
            0 <= i < backup_candidates(names).len() ==> is_env_backup_name(#[trigger] backup_candidates(names)[i]),
    decreases names.len(),
{
    if names.len() > 0 {
        lemma_candidates_are_backups(names.drop_last());
        let c = backup_candidates(names.drop_last());
        let b = backup_candidates(names);
        assert forall|i: int| 0 <= i < b.len() implies is_env_backup_name(#[trigger] b[i]) by {
            if i < c.len() {
                assert(b[i] == c[i]);
            }
        }
    }
}

// ───────────────────────── the retention setting ─────────────────────────

pub open spec fn is_digit(c: char) -> bool {
    '0' <= c && c <= '9'
}

/// The decimal value of a run of digits.
pub open spec fn digits_value(s: Seq<char>) -> nat
    decreases s.len(),
{
    if s.len() == 0 {
        0
    } else {
        digits_value(s.drop_last()) * 10 + ((s.last() as int) - ('0' as int)) as nat
    }
}

pub open spec fn all_digits(s: Seq<char>) -> bool {
    forall|i: int| 0 <= i < s.len() ==> is_digit(#[trigger] s[i])
}

/// `usize::from_str`: an optional `+`, then one or more ASCII digits, within
/// range.
pub open spec fn parse_usize_spec(s: Seq<char>) -> Option<nat> {
    let body = if s.len() > 0 && s[0] == '+' {
        s.skip(1)
    } else {
        s
    };
    if body.len() > 0 && all_digits(body) && digits_value(body) <= usize::MAX {
        Some(digits_value(body))
    } else {
        None
    }
}

/// Parses a decimal `usize`.
pub fn parse_usize(s: &str) -> (r: Option<usize>)
    ensures
        match r {
            Some(n) => parse_usize_spec(s@) == Some(n as nat),
            None => parse_usize_spec(s@) is None,
        },
{
    let cs = chars_of(s);
    let start: usize = if cs.len() > 0 && cs[0] == '+' { 1 } else { 0 };
    let ghost body = if s@.len() > 0 && s@[0] == '+' { s@.skip(1) } else { s@ };
    assert(body =~= cs@.subrange(start as int, cs.len() as int));
    if start >= cs.len() {
        return None;
    }
    let mut v: usize = 0;
    let mut i: usize = start;
    while i < cs.len()
        invariant
            cs@ == s@,
            start <= i <= cs.len(),
            body =~= cs@.subrange(start as int, cs.len() as int),
            body == (if s@.len() > 0 && s@[0] == '+' { s@.skip(1) } else { s@ }),
            forall|j: int| start <= j < i ==> is_digit(#[trigger] cs@[j]),
            v as nat == digits_value(cs@.subrange(start as int, i as int)),
        decreases cs.len() - i,
    {
        let c = cs[i];
        if !('0' <= c && c <= '9') {
            assert(!is_digit(body[i - start]));
            return None;
        }
        let d: usize = (c as u32 - '0' as u32) as usize;
        assert(cs@.subrange(start as int, i + 1).drop_last() =~= cs@.subrange(start as int, i as int));
        assert(body.take(i + 1 - start) =~= cs@.subrange(start as int, i + 1));
        assert(digits_value(cs@.subrange(start as int, i + 1)) == v as nat * 10 + d as nat);
        match v.checked_mul(10) {
            Some(t) => match t.checked_add(d) {
                Some(u) => {
                    v = u;
                },
                None => {
                    proof {
                        if forall|j: int| 0 <= j < body.len() ==> is_digit(#[trigger] body[j]) {
                            lemma_digits_value_prefix_bound(body, (i + 1 - start) as int);
                        }
                    }
                    return None;
                },
            },
            None => {
                proof {
                    if forall|j: int| 0 <= j < body.len() ==> is_digit(#[trigger] body[j]) {
                        lemma_digits_value_prefix_bound(body, (i + 1 - start) as int);
                    }
                }
                return None;
            },
        }
        i = i + 1;
    }
    assert(cs@.subrange(start as int, cs.len() as int) =~= body);
    Some(v)
}

/// A prefix of digits is worth no more than the whole run.
proof fn lemma_digits_value_prefix_bound(s: Seq<char>, k: int)
    requires
        0 <= k <= s.len(),
        forall|i: int| 0 <= i < s.len() ==> is_digit(#[trigger] s[i]),
    ensures
        digits_value(s.take(k)) <= digits_value(s),
    decreases s.len() - k,
{
    if k < s.len() {
        lemma_digits_value_prefix_bound(s, k + 1);
        assert(s.take(k + 1).drop_last() =~= s.take(k));
        assert(is_digit(s[k]));
    } else {
        assert(s.take(k) =~= s);
    }
}

/// The first `=` of a line splits it into key and value.
pub open spec fn first_eq(s: Seq<char>) -> int
    decreases s.len(),
{
    if s.len() == 0 {
        -1
    } else if s[0] == '=' {
        0
    } else if first_eq(s.skip(1)) < 0 {
        -1
    } else {
        first_eq(s.skip(1)) + 1
    }
}

/// The retention read from the lines of `config.ini`: the first
/// `env_backup_keep = N` line decides (a value that is not a `usize` gives
/// the default); blank lines and `;` or `#` comments are skipped; without
/// such a line the default holds.
pub open spec fn keep_from_lines(ls: Seq<Seq<char>>) -> nat
    decreases ls.len(),
{
    if ls.len() == 0 {
        ENV_BACKUP_KEEP as nat
    } else {
        let t = trim(ls[0]);
        let k = first_eq(t);
        if t.len() == 0 || t[0] == ';' || t[0] == '#' || k < 0 || trim(t.take(k)) != "env_backup_keep"@ {
            keep_from_lines(ls.skip(1))
        } else {
            match parse_usize_spec(trim(t.skip(k + 1))) {
                Some(n) => n,
                None => ENV_BACKUP_KEEP as nat,
            }
        }
    }
}

proof fn lemma_first_eq_bounds(s: Seq<char>)
    ensures
        -1 <= first_eq(s) < s.len(),
        first_eq(s) >= 0 ==> s[first_eq(s)] == '=',
        forall|j: int| 0 <= j < s.len() && (first_eq(s) < 0 || j < first_eq(s)) ==> s[j] != '=',
    decreases s.len(),
{
    if s.len() > 0 {
        lemma_first_eq_bounds(s.skip(1));
        assert forall|j: int| 0 <= j < s.len() && (first_eq(s) < 0 || j < first_eq(s)) implies s[j] != '=' by {
            if j > 0 {
                assert(s[j] == s.skip(1)[j - 1]);
            }
        }
    }
}

/// The retention setting read from the text of `config.ini`.
pub fn parse_env_backup_keep(content: &str) -> (r: usize)
    ensures
        r as nat == keep_from_lines(lines(content@)),
{
    let cs = chars_of(content);
    let ls = split_lines(&cs);
    let ghost lv = ls@.map_values(|l: Vec<char>| l@);
    assert(lv == lines(content@));
    let mut i: usize = 0;
    assert(lv.skip(0) =~= lv);
    while i < ls.len()
        invariant
            0 <= i <= ls.len(),
            lv == ls@.map_values(|l: Vec<char>| l@),
            keep_from_lines(lv.skip(i as int)) == keep_from_lines(lv),
            lv == lines(content@),
        decreases ls.len() - i,
    {
        let ghost rest = lv.skip(i as int);
        assert(rest[0] == ls@[i as int]@);
        assert(rest.skip(1) =~= lv.skip(i + 1));
        let t = trim_chars(&ls[i]);
        if !(t.len() == 0 || t[0] == ';' || t[0] == '#') {
            // find the first '='
            let mut k: usize = 0;
            while k < t.len() && t[k] != '='
                invariant
                    0 <= k <= t.len(),
                    forall|j: int| 0 <= j < k ==> t@[j] != '=',
                decreases t.len() - k,
            {
                k = k + 1;
            }
            proof {
                lemma_first_eq_bounds(t@);
                let f = first_eq(t@);
                if k < t.len() {
                    assert(f >= 0 && f == k) by {
                        if f < 0 || f > k {
                        } else if f < k {
                            assert(t@[f] != '=');
                        }
                    }
                } else {
                    assert(f < 0) by {
                        if f >= 0 {
                            assert(t@[f] == '=');
                        }
                    }
                }
            }
            if k < t.len() {
                let key = string_of_range(&t, 0, k);
                let kt = crate::text::trim_str(key.as_str());
                assert(key@ == t@.take(k as int));
                if str_eq(kt.as_str(), "env_backup_keep") {
                    let val = string_of_range(&t, k + 1, t.len());
                    assert(val@ == t@.skip(k + 1));
                    let vt = crate::text::trim_str(val.as_str());
                    return match parse_usize(vt.as_str()) {
                        Some(n) => n,
                        None => ENV_BACKUP_KEEP,
                    };
                }
            }
        }
        i = i + 1;
    }
    ENV_BACKUP_KEEP
}

// ───────────────────────── PATH backups ─────────────────────────

/// A PATH backup may not be written into the Windows or Program Files
/// directories (compared after `/` becomes `\` and lower-casing).
pub open spec fn is_system_dir(dir: Seq<char>) -> bool {
    lowered_is_system(unicode_lower(dir.map_values(|c: char| if c == '/' { '\\' } else { c })))
}

/// The test on a directory already lower-cased with `\` separators.
pub open spec fn lowered_is_system(n: Seq<char>) -> bool {
    starts_with_seq(n, "c:\\windows\\"@) || starts_with_seq(n, "c:\\program files\\"@)
}

/// Whether a lower-cased directory with `\` separators lies inside the
/// Windows or Program Files directories.
pub fn lowered_is_system_directory(lower: &str) -> (r: bool)
    ensures
        r == lowered_is_system(lower@),
{
    let lc = chars_of(lower);
    let w = chars_of("c:\\windows\\");
    let p = chars_of("c:\\program files\\");
    crate::text::starts_with_chars(&lc, &w) || crate::text::starts_with_chars(&lc, &p)
}

/// Whether a directory lies inside the Windows or Program Files
/// directories, where neither backups nor exports may be written.
pub fn is_system_directory(dir: &str) -> (r: bool)
    ensures
        r == is_system_dir(dir@),
{
    let cs = chars_of(dir);
    let mut swapped: Vec<char> = Vec::new();
    let mut i: usize = 0;
    while i < cs.len()
        invariant
            0 <= i <= cs.len(),
            cs@ == dir@,
            swapped@ == cs@.take(i as int).map_values(|c: char| if c == '/' { '\\' } else { c }),
        decreases cs.len() - i,
    {
        let c = cs[i];
        swapped.push(if c == '/' { '\\' } else { c });
        assert(cs@.take(i + 1) =~= cs@.take(i as int).push(c));
        assert(swapped@ =~= cs@.take(i + 1).map_values(|c: char| if c == '/' { '\\' } else { c }));
        i = i + 1;
    }
    assert(cs@.take(cs.len() as int) =~= cs@);
    let s = string_of(&swapped);
    let lower = to_lowercase(s.as_str());
    lowered_is_system_directory(lower.as_str())
}

/// Refuses a custom PATH-backup directory inside a system directory.
pub fn check_backup_dir(dir: &str) -> (r: Result<(), String>)
    ensures
        r is Ok <==> !is_system_dir(dir@),
        r matches Err(m) ==> m@ == "不允许备份到系统目录"@,
{
    if is_system_directory(dir) {
        return Err("不允许备份到系统目录".to_owned());
    }
    Ok(())
}

/// One path per line.
pub open spec fn path_lines(ps: Seq<Seq<char>>) -> Seq<char>
    decreases ps.len(),
{
    if ps.len() == 0 {
        Seq::empty()
    } else {
        path_lines(ps.drop_last()) + ps.last() + "\n"@
    }
}

/// The text of a PATH backup: a title with the time, then the system and
/// the user paths, one per line.
pub open spec fn path_backup_spec(time: Seq<char>, sys: Seq<Seq<char>>, usr: Seq<Seq<char>>) -> Seq<char> {
    "PathEditor Backup - "@ + time + "\n"@ + "\n[System PATH]\n"@ + path_lines(sys) + "\n[User PATH]\n"@
        + path_lines(usr)
}

fn append_path_lines(out: &mut String, ps: &Vec<String>)
    ensures
        final(out)@ == old(out)@ + path_lines(strings_view(ps@)),
{
    let ghost sv = strings_view(ps@);
    let mut i: usize = 0;
    assert(old(out)@ + path_lines(sv.take(0)) =~= old(out)@);
    while i < ps.len()
        invariant
            0 <= i <= ps.len(),
            sv == strings_view(ps@),
            out@ == old(out)@ + path_lines(sv.take(i as int)),
        decreases ps.len() - i,
    {
        assert(sv.take(i + 1).drop_last() =~= sv.take(i as int));
        assert(sv.take(i + 1).last() == ps@[i as int]@);
        out.append(ps[i].as_str());
        out.append("\n");
        i = i + 1;
    }
    assert(sv.take(ps.len() as int) =~= sv);
}

/// Builds the text of a PATH backup.
pub fn path_backup_content(time: &str, sys: &Vec<String>, usr: &Vec<String>) -> (r: String)
    ensures
        r@ == path_backup_spec(time@, strings_view(sys@), strings_view(usr@)),
{
    let mut out = "PathEditor Backup - ".to_owned();
    out.append(time);
    out.append("\n");
    out.append("\n[System PATH]\n");
    append_path_lines(&mut out, sys);
    out.append("\n[User PATH]\n");
    append_path_lines(&mut out, usr);
    out
}

/// The file name of an environment backup taken at `timestamp`.
pub fn env_backup_file_name(timestamp: &str) -> (r: String)
    ensures
        r@ == "env_backup_"@ + timestamp@ + ".json"@,
        is_env_backup_name(r@),
{
    let r = crate::text::concat3("env_backup_", timestamp, ".json");
    proof {
        let a = "env_backup_"@;
        let b = ".json"@;
        assert(r@.subrange(0, a.len() as int) =~= a);
        assert(r@.subrange(r@.len() - b.len(), r@.len() as int) =~= b);
    }
    r
}

/// The file name of a PATH backup taken at `timestamp`.
pub fn path_backup_file_name(timestamp: &str) -> (r: String)
    ensures
        r@ == "path_backup_"@ + timestamp@ + ".txt"@,
{
    crate::text::concat3("path_backup_", timestamp, ".txt")
}

} // verus!
