//! What the generic environment-variable operations promise across calls:
//! a read after a write, stale revisions, guarded names, neighbours left
//! alone, and what a listing may show.

use crate::env_var::{
    is_protected_spec, is_reserved_spec, is_sensitive_spec, kind_writable, preview_spec,
    revision_spec, EnvHive, EnvValueKind, MetaView, REG_EXPAND_SZ, REG_SZ,
};
use crate::error::ErrorCode;
use crate::reg_store::{
    find, injected_get_failure, lemma_find, lemma_find_is, lemma_lookup_after_remove,
    lemma_lookup_after_set, lemma_lookup_other_after_set, lookup, name_matches, store_remove,
    EntryView,
};
use crate::registry::env_var::{
    create_outcome, create_type, delete_force_outcome, delete_outcome, env_name_error,
    env_value_error, list_prefix, list_spec, meta_spec, name_rule_error, read_spec, reveal_spec,
    update_force_outcome, update_outcome,
};
use crate::text::{eq_ignore_case, lower_seq};
use vstd::prelude::*;

verus! {

/// After a successful update, reading the variable gives the new text with
/// the type it had before.
pub proof fn law_update_then_read(
    es: Seq<EntryView>,
    fail_get: Option<String>,
    name: Seq<char>,
    value: Seq<char>,
    expected: Seq<char>,
)
    requires
        update_outcome(es, fail_get, name, value, expected) is Ok,
    ensures
        read_spec(update_outcome(es, fail_get, name, value, expected).unwrap(), fail_get, name)
            == Ok::<(u32, Seq<char>), ErrorCode>((read_spec(es, fail_get, name).unwrap().0, value)),
{
    let t = read_spec(es, fail_get, name).unwrap().0;
    lemma_lookup_after_set(es, name, t, value);
}

/// The same holds of a forced update.
pub proof fn law_force_update_then_read(
    es: Seq<EntryView>,
    fail_get: Option<String>,
    name: Seq<char>,
    value: Seq<char>,
)
    requires
        update_force_outcome(es, fail_get, name, value) is Ok,
    ensures
        read_spec(update_force_outcome(es, fail_get, name, value).unwrap(), fail_get, name) == Ok::<
            (u32, Seq<char>),
            ErrorCode,
        >((read_spec(es, fail_get, name).unwrap().0, value)),
{
    let t = read_spec(es, fail_get, name).unwrap().0;
    lemma_lookup_after_set(es, name, t, value);
}

/// The revision a reveal hands out is accepted by the next update of an
/// unprotected variable with a valid value, as long as nothing changed.
pub proof fn law_revealed_revision_is_current(
    es: Seq<EntryView>,
    fail_get: Option<String>,
    name: Seq<char>,
    value: Seq<char>,
)
    requires
        reveal_spec(es, fail_get, name) is Ok,
        !is_protected_spec(name),
        env_value_error(value, name) is None,
    ensures
        update_outcome(es, fail_get, name, value, reveal_spec(es, fail_get, name).unwrap().1) is Ok,
        delete_outcome(es, fail_get, name, reveal_spec(es, fail_get, name).unwrap().1) is Ok,
{
}

/// A revision that no longer matches what is stored is refused as a
/// conflict, by both the update and the delete, and nothing is written.
pub proof fn law_stale_revision_conflicts(
    es: Seq<EntryView>,
    fail_get: Option<String>,
    name: Seq<char>,
    value: Seq<char>,
    expected: Seq<char>,
)
    requires
        name_rule_error(name) is None,
        read_spec(es, fail_get, name) is Ok,
        revision_spec(name, read_spec(es, fail_get, name).unwrap().0, read_spec(es, fail_get, name).unwrap().1)
            != expected,
    ensures
        update_outcome(es, fail_get, name, value, expected) == Err::<Seq<EntryView>, ErrorCode>(
            ErrorCode::Conflict,
        ),
        delete_outcome(es, fail_get, name, expected) == Err::<Seq<EntryView>, ErrorCode>(
            ErrorCode::Conflict,
        ),
{
}

/// The reserved `Path` and the protected built-ins are never written
/// through the generic route, whatever the revision, value or kind.
pub proof fn law_guarded_names_never_written(
    es: Seq<EntryView>,
    fail_get: Option<String>,
    fail_enum: bool,
    name: Seq<char>,
    value: Seq<char>,
    expected: Seq<char>,
    kind: crate::env_var::EnvValueKind,
)
    requires
        is_reserved_spec(name) || is_protected_spec(name),
    ensures
        update_outcome(es, fail_get, name, value, expected) is Err,
        update_force_outcome(es, fail_get, name, value) is Err,
        delete_outcome(es, fail_get, name, expected) is Err,
        delete_force_outcome(es, fail_get, name) is Err,
        create_outcome(es, fail_enum, name, value, kind) is Err,
{
}

/// Removing one name leaves what every other name reads as it was.
pub proof fn lemma_lookup_other_after_remove(es: Seq<EntryView>, name: Seq<char>, other: Seq<char>)
    requires
        !eq_ignore_case(name, other),
    ensures
        lookup(store_remove(es, name), other) == lookup(es, other),
    decreases es.len(),
{
    if es.len() > 0 {
        let init = es.drop_last();
        let last = es.last();
        lemma_lookup_other_after_remove(init, name, other);
        lemma_find(init, other);
        lemma_find(es, other);
        let r0 = store_remove(init, name);
        lemma_find(r0, other);
        assert(es == init.push(last));
        assert forall|j: int| 0 <= j < init.len() implies (#[trigger] es[j]) == init[j] by {}
        // `find` on a sequence with one more element at the end
        if find(init, other) >= 0 {
            assert(find(es, other) == find(init, other));
        }
        if name_matches(last, name) {
            assert(store_remove(es, name) == r0);
            if name_matches(last, other) {
                assert(lower_seq(last.0) == lower_seq(name));
                assert(lower_seq(last.0) == lower_seq(other));
                assert(false);
            }
            if find(init, other) < 0 {
                lemma_find_is(es, other, -1);
            }
        } else {
            let r1 = r0.push(last);
            assert(store_remove(es, name) == r1);
            assert forall|j: int| 0 <= j < r0.len() implies (#[trigger] r1[j]) == r0[j] by {}
            if find(r0, other) >= 0 {
                lemma_find_is(r1, other, find(r0, other));
            } else if name_matches(last, other) {
                lemma_find_is(r1, other, r0.len() as int);
                lemma_find_is(es, other, init.len() as int);
            } else {
                lemma_find_is(r1, other, -1);
                lemma_find_is(es, other, -1);
            }
        }
    }
}

/// A successful write to one variable leaves every variable whose name
/// differs (ignoring ASCII case) reading exactly as before.
pub proof fn law_other_names_untouched(
    es: Seq<EntryView>,
    fail_get: Option<String>,
    fail_enum: bool,
    name: Seq<char>,
    other: Seq<char>,
    value: Seq<char>,
    expected: Seq<char>,
    kind: crate::env_var::EnvValueKind,
)
    requires
        !eq_ignore_case(name, other),
    ensures
        update_outcome(es, fail_get, name, value, expected) matches Ok(es2) ==> lookup(es2, other)
            == lookup(es, other),
        update_force_outcome(es, fail_get, name, value) matches Ok(es2) ==> lookup(es2, other)
            == lookup(es, other),
        delete_outcome(es, fail_get, name, expected) matches Ok(es2) ==> lookup(es2, other)
            == lookup(es, other),
        delete_force_outcome(es, fail_get, name) matches Ok(es2) ==> lookup(es2, other) == lookup(
            es,
            other,
        ),
        create_outcome(es, fail_enum, name, value, kind) matches Ok(es2) ==> lookup(es2, other)
            == lookup(es, other),
{
    if read_spec(es, fail_get, name) is Ok {
        lemma_lookup_other_after_set(es, name, other, read_spec(es, fail_get, name).unwrap().0, value);
    }
    lemma_lookup_other_after_set(es, name, other, create_type(kind), value);
    lemma_lookup_other_after_remove(es, name, other);
}

/// After a successful delete the variable can no longer be read.
pub proof fn law_delete_then_read_fails(
    es: Seq<EntryView>,
    fail_get: Option<String>,
    name: Seq<char>,
    expected: Seq<char>,
)
    ensures
        delete_outcome(es, fail_get, name, expected) matches Ok(es2) ==> read_spec(
            es2,
            fail_get,
            name,
        ) == Err::<(u32, Seq<char>), ErrorCode>(ErrorCode::Io),
        delete_force_outcome(es, fail_get, name) matches Ok(es2) ==> read_spec(es2, fail_get, name)
            == Err::<(u32, Seq<char>), ErrorCode>(ErrorCode::Io),
{
    lemma_lookup_after_remove(es, name);
}

/// A created variable reads back with the text given and the type of its
/// kind (`REG_SZ` for `String`, `REG_EXPAND_SZ` for `ExpandString`).
pub proof fn law_create_then_read(
    es: Seq<EntryView>,
    fail_enum: bool,
    fail_get: Option<String>,
    name: Seq<char>,
    value: Seq<char>,
    kind: crate::env_var::EnvValueKind,
)
    requires
        create_outcome(es, fail_enum, name, value, kind) is Ok,
        !injected_get_failure(fail_get, name),
    ensures
        read_spec(create_outcome(es, fail_enum, name, value, kind).unwrap(), fail_get, name) == Ok::<
            (u32, Seq<char>),
            ErrorCode,
        >((create_type(kind), value)),
{
    lemma_lookup_after_set(es, name, create_type(kind), value);
}

/// Whether `m` is the metadata of the `j`-th stored name, that name being
/// unreserved and readable.
pub open spec fn meta_of_stored(
    es: Seq<EntryView>,
    fail_get: Option<String>,
    writable: bool,
    hive: EnvHive,
    j: int,
    m: MetaView,
) -> bool {
    let n = es[j].0;
    &&& 0 <= j < es.len()
    &&& !is_reserved_spec(n)
    &&& !injected_get_failure(fail_get, n)
    &&& lookup(es, n) is Some
    &&& m == meta_spec(n, lookup(es, n).unwrap(), writable, hive)
}

/// Whether `m` is the metadata of some stored name.
pub open spec fn listed_from_store(
    es: Seq<EntryView>,
    fail_get: Option<String>,
    writable: bool,
    hive: EnvHive,
    m: MetaView,
) -> bool {
    exists|j: int| #[trigger] meta_of_stored(es, fail_get, writable, hive, j, m)
}

/// Every entry of a listed prefix comes from a stored, readable,
/// unreserved name and is that name's metadata.
pub proof fn lemma_list_prefix_members(
    es: Seq<EntryView>,
    fail_get: Option<String>,
    writable: bool,
    hive: EnvHive,
    k: nat,
)
    requires
        list_prefix(es, fail_get, writable, hive, k) is Ok,
    ensures
        forall|i: int|
            0 <= i < list_prefix(es, fail_get, writable, hive, k).unwrap().len() ==> listed_from_store(
                es,
                fail_get,
                writable,
                hive,
                #[trigger] list_prefix(es, fail_get, writable, hive, k).unwrap()[i],
            ),
    decreases k,
{
    if k > 0 && k <= es.len() {
        lemma_list_prefix_members(es, fail_get, writable, hive, (k - 1) as nat);
        let prev = list_prefix(es, fail_get, writable, hive, (k - 1) as nat).unwrap();
        let cur = list_prefix(es, fail_get, writable, hive, k).unwrap();
        let n = es[k - 1].0;
        if !is_reserved_spec(n) {
            assert(cur == prev.push(meta_spec(n, lookup(es, n).unwrap(), writable, hive)));
            assert forall|i: int| 0 <= i < cur.len() implies listed_from_store(
                es,
                fail_get,
                writable,
                hive,
                #[trigger] cur[i],
            ) by {
                if i == prev.len() {
                    assert(meta_of_stored(es, fail_get, writable, hive, k - 1, cur[i]));
                } else {
                    assert(cur[i] == prev[i]);
                }
            }
        }
    }
}

/// A listing never shows the reserved `Path`, never shows a preview of a
/// sensitive or unsupported value, and shows for each variable the same
/// revision that revealing it (under the stored spelling) hands out.
pub proof fn law_listing_is_safe(
    es: Seq<EntryView>,
    fail_enum: bool,
    fail_get: Option<String>,
    writable: bool,
    hive: EnvHive,
)
    requires
        list_spec(es, fail_enum, fail_get, writable, hive) is Ok,
    ensures
        forall|i: int|
            0 <= i < list_spec(es, fail_enum, fail_get, writable, hive).unwrap().len() ==> {
                let m: MetaView = #[trigger] list_spec(
                    es,
                    fail_enum,
                    fail_get,
                    writable,
                    hive,
                ).unwrap()[i];
                &&& !is_reserved_spec(m.name)
                &&& m.hive == hive
                &&& (m.sensitive || !kind_writable(m.kind)) ==> m.preview is None
                &&& (kind_writable(m.kind) && env_name_error(m.name) is None) ==> (reveal_spec(
                    es,
                    fail_get,
                    m.name,
                ) matches Ok(p) && p.1 == m.revision)
            },
{
    lemma_list_prefix_members(es, fail_get, writable, hive, es.len());
    let ms = list_spec(es, fail_enum, fail_get, writable, hive).unwrap();
    assert forall|i: int| 0 <= i < ms.len() implies {
        let m: MetaView = #[trigger] ms[i];
        &&& !is_reserved_spec(m.name)
        &&& m.hive == hive
        &&& (m.sensitive || !kind_writable(m.kind)) ==> m.preview is None
        &&& (kind_writable(m.kind) && env_name_error(m.name) is None) ==> (reveal_spec(
            es,
            fail_get,
            m.name,
        ) matches Ok(p) && p.1 == m.revision)
    } by {
        assert(listed_from_store(es, fail_get, writable, hive, ms[i]));
        let j = choose|j: int| #[trigger] meta_of_stored(es, fail_get, writable, hive, j, ms[i]);
        assert(meta_of_stored(es, fail_get, writable, hive, j, ms[i]));
    }
}

/// A listing shows what is stored: each listed variable's kind follows its
/// stored type (`REG_SZ` is `String`, `REG_EXPAND_SZ` is `ExpandString`,
/// anything else `Unsupported`), its sensitivity follows its name, and a
/// variable that is not sensitive and is of either string type shows the
/// preview of its stored value.
pub proof fn law_listing_shows_stored_values(
    es: Seq<EntryView>,
    fail_enum: bool,
    fail_get: Option<String>,
    writable: bool,
    hive: EnvHive,
)
    requires
        list_spec(es, fail_enum, fail_get, writable, hive) is Ok,
    ensures
        forall|i: int|
            0 <= i < list_spec(es, fail_enum, fail_get, writable, hive).unwrap().len() ==> {
                let m: MetaView = #[trigger] list_spec(
                    es,
                    fail_enum,
                    fail_get,
                    writable,
                    hive,
                ).unwrap()[i];
                let raw = lookup(es, m.name).unwrap();
                &&& lookup(es, m.name) is Some
                &&& m.kind == (if raw.0 == REG_SZ {
                    EnvValueKind::String
                } else if raw.0 == REG_EXPAND_SZ {
                    EnvValueKind::ExpandString
                } else {
                    EnvValueKind::Unsupported
                })
                &&& m.sensitive == is_sensitive_spec(m.name)
                &&& (raw.0 == REG_SZ || raw.0 == REG_EXPAND_SZ) && !is_sensitive_spec(m.name)
                    ==> m.preview == preview_spec(raw.1)
            },
{
    lemma_list_prefix_members(es, fail_get, writable, hive, es.len());
    let ms = list_spec(es, fail_enum, fail_get, writable, hive).unwrap();
    assert forall|i: int| 0 <= i < ms.len() implies {
        let m: MetaView = #[trigger] ms[i];
        let raw = lookup(es, m.name).unwrap();
        &&& lookup(es, m.name) is Some
        &&& m.kind == (if raw.0 == REG_SZ {
            EnvValueKind::String
        } else if raw.0 == REG_EXPAND_SZ {
            EnvValueKind::ExpandString
        } else {
            EnvValueKind::Unsupported
        })
        &&& m.sensitive == is_sensitive_spec(m.name)
        &&& (raw.0 == REG_SZ || raw.0 == REG_EXPAND_SZ) && !is_sensitive_spec(m.name) ==> m.preview
            == preview_spec(raw.1)
    } by {
        assert(listed_from_store(es, fail_get, writable, hive, ms[i]));
        let j = choose|j: int| #[trigger] meta_of_stored(es, fail_get, writable, hive, j, ms[i]);
        assert(meta_of_stored(es, fail_get, writable, hive, j, ms[i]));
    }
}

} // verus!
