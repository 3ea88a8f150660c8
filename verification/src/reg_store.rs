//! The storage model of one environment-variable hive.
//!
//! A hive is an ordered list of named values whose names compare without
//! regard to ASCII case, as the Windows registry compares them. The library's
//! read / compare / write rules run against this model; the program around it
//! fills a model from the real registry and writes back what a rule decided.

use crate::text::{eq_ignore_ascii_case, eq_ignore_case, lower_seq};
use vstd::prelude::*;
use vstd::string::*;

verus! {

/// One registry value: its type code and its text.
#[derive(Debug, Clone, PartialEq, Eq)]
pub struct RegValue {
    pub vtype: u32,
    pub value: String,
}

impl RegValue {
    pub fn new(vtype: u32, value: &str) -> (r: RegValue)
        ensures
            r.vtype == vtype,
            r.value@ == value@,
    {
        RegValue { vtype, value: value.to_owned() }
    }

    pub fn duplicate(&self) -> (r: RegValue)
        ensures
            r.vtype == self.vtype,
            r.value@ == self.value@,
    {
        RegValue { vtype: self.vtype, value: self.value.clone() }
    }
}

/// The spec view of one stored value: name, type code, text.
pub type EntryView = (Seq<char>, u32, Seq<char>);

pub open spec fn name_matches(e: EntryView, name: Seq<char>) -> bool {
    eq_ignore_case(e.0, name)
}

/// Index of the first value whose name matches, or -1.
pub open spec fn find(es: Seq<EntryView>, name: Seq<char>) -> int
    decreases es.len(),
{
    if es.len() == 0 {
        -1
    } else {
        let k = find(es.drop_last(), name);
        if k >= 0 {
            k
        } else if name_matches(es.last(), name) {
            es.len() - 1
        } else {
            -1
        }
    }
}

/// Type and text stored under a name, if any.
pub open spec fn lookup(es: Seq<EntryView>, name: Seq<char>) -> Option<(u32, Seq<char>)> {
    let k = find(es, name);
    if k >= 0 {
        Some((es[k].1, es[k].2))
    } else {
        None
    }
}

/// Writing a value: an existing name keeps its spelling and position and
/// takes the new type and text; a new name is appended.
pub open spec fn store_set(es: Seq<EntryView>, name: Seq<char>, vtype: u32, value: Seq<char>) -> Seq<
    EntryView,
> {
    let k = find(es, name);
    if k >= 0 {
        es.update(k, (es[k].0, vtype, value))
    } else {
        es.push((name, vtype, value))
    }
}

/// Deleting a name: every value whose name matches is removed.
pub open spec fn store_remove(es: Seq<EntryView>, name: Seq<char>) -> Seq<EntryView>
    decreases es.len(),
{
    if es.len() == 0 {
        seq![]
    } else {
        let r = store_remove(es.drop_last(), name);
        if name_matches(es.last(), name) {
            r
        } else {
            r.push(es.last())
        }
    }
}

/// `find` is the first matching index.
pub proof fn lemma_find(es: Seq<EntryView>, name: Seq<char>)
    ensures
        -1 <= find(es, name) < es.len(),
        find(es, name) >= 0 ==> name_matches(es[find(es, name)], name),
        forall|j: int|
            0 <= j < es.len() && (find(es, name) < 0 || j < find(es, name)) ==> !name_matches(
                #[trigger] es[j],
                name,
            ),
    decreases es.len(),
{
    if es.len() > 0 {
        lemma_find(es.drop_last(), name);
        assert forall|j: int|
            0 <= j < es.len() && (find(es, name) < 0 || j < find(es, name)) implies !name_matches(
            #[trigger] es[j],
            name,
        ) by {
            if j < es.len() - 1 {
                assert(es[j] == es.drop_last()[j]);
            }
        }
    }
}

/// The first match is determined by the position of the first matching value.
pub proof fn lemma_find_is(es: Seq<EntryView>, name: Seq<char>, k: int)
    requires
        -1 <= k < es.len(),
        k >= 0 ==> name_matches(es[k], name),
        forall|j: int| 0 <= j < es.len() && (k < 0 || j < k) ==> !name_matches(es[j], name),
    ensures
        find(es, name) == k,
{
    lemma_find(es, name);
    let f = find(es, name);
    if f != k {
        if f < 0 {
            assert(!name_matches(es[k], name));
        } else if k < 0 {
            assert(!name_matches(es[f], name));
        } else if f < k {
            assert(!name_matches(es[f], name));
        } else {
            assert(!name_matches(es[k], name));
        }
    }
}

/// Names equal up to ASCII case match the same values.
pub proof fn lemma_matches_equiv(e: EntryView, a: Seq<char>, b: Seq<char>)
    requires
        eq_ignore_case(a, b),
    ensures
        name_matches(e, a) == name_matches(e, b),
{
}

/// A read after a write gives back what was written.
pub proof fn lemma_lookup_after_set(es: Seq<EntryView>, name: Seq<char>, vtype: u32, value: Seq<char>)
    ensures
        lookup(store_set(es, name, vtype, value), name) == Some((vtype, value)),
{
    lemma_find(es, name);
    let k = find(es, name);
    let es2 = store_set(es, name, vtype, value);
    if k >= 0 {
        assert forall|j: int| 0 <= j < es2.len() && j < k implies !name_matches(es2[j], name) by {
            assert(es2[j] == es[j]);
        }
        lemma_find_is(es2, name, k);
    } else {
        assert(name_matches(es2[es.len() as int], name));
        assert forall|j: int| 0 <= j < es2.len() && j < es.len() implies !name_matches(
            es2[j],
            name,
        ) by {
            assert(es2[j] == es[j]);
        }
        lemma_find_is(es2, name, es.len() as int);
    }
}

/// A write to one name leaves every other name's value as it was.
pub proof fn lemma_lookup_other_after_set(
    es: Seq<EntryView>,
    name: Seq<char>,
    other: Seq<char>,
    vtype: u32,
    value: Seq<char>,
)
    requires
        !eq_ignore_case(name, other),
    ensures
        lookup(store_set(es, name, vtype, value), other) == lookup(es, other),
{
    lemma_find(es, name);
    lemma_find(es, other);
    let k = find(es, name);
    let f = find(es, other);
    let es2 = store_set(es, name, vtype, value);
    if k >= 0 {
        // the rewritten slot still carries its old name, which matches `name`, not `other`
        assert(es2[k].0 == es[k].0);
        assert(!name_matches(es2[k], other)) by {
            if name_matches(es2[k], other) {
                assert(lower_seq(es[k].0) == lower_seq(name));
                assert(lower_seq(es[k].0) == lower_seq(other));
            }
        }
        if f >= 0 {
            assert(f != k);
            assert forall|j: int| 0 <= j < es2.len() && j < f implies !name_matches(es2[j], other) by {
                if j != k {
                    assert(es2[j] == es[j]);
                }
            }
            lemma_find_is(es2, other, f);
        } else {
            assert forall|j: int| 0 <= j < es2.len() implies !name_matches(es2[j], other) by {
                if j != k {
                    assert(es2[j] == es[j]);
                }
            }
            lemma_find_is(es2, other, -1);
        }
    } else {
        assert(!name_matches(es2[es.len() as int], other));
        if f >= 0 {
            assert forall|j: int| 0 <= j < es2.len() && j < f implies !name_matches(es2[j], other) by {
                assert(es2[j] == es[j]);
            }
            assert(es2[f] == es[f]);
            lemma_find_is(es2, other, f);
        } else {
            assert forall|j: int| 0 <= j < es2.len() implies !name_matches(es2[j], other) by {
                if j < es.len() {
                    assert(es2[j] == es[j]);
                }
            }
            lemma_find_is(es2, other, -1);
        }
    }
}

/// After a delete no value matches the deleted name.
pub proof fn lemma_no_match_after_remove(es: Seq<EntryView>, name: Seq<char>)
    ensures
        forall|j: int|
            0 <= j < store_remove(es, name).len() ==> !name_matches(
                #[trigger] store_remove(es, name)[j],
                name,
            ),
        store_remove(es, name).len() <= es.len(),
    decreases es.len(),
{
    if es.len() > 0 {
        lemma_no_match_after_remove(es.drop_last(), name);
    }
}

/// A read after a delete finds nothing.
pub proof fn lemma_lookup_after_remove(es: Seq<EntryView>, name: Seq<char>)
    ensures
        lookup(store_remove(es, name), name) is None,
{
    lemma_no_match_after_remove(es, name);
    lemma_find_is(store_remove(es, name), name, -1);
}

pub open spec fn injected_get_failure(fail_get: Option<String>, name: Seq<char>) -> bool {
    fail_get matches Some(f) && eq_ignore_case(f@, name)
}

/// The text of a failed read of `name`.
pub open spec fn get_failure_message(fail_get: Option<String>, name: Seq<char>) -> Seq<char> {
    if injected_get_failure(fail_get, name) {
        "无法读取环境变量 "@ + name + ": 注入的读取失败"@
    } else {
        "无法读取环境变量 "@ + name + ": 找不到"@
    }
}

/// The text of a delete of a name that is not there.
pub open spec fn delete_missing_message(name: Seq<char>) -> Seq<char> {
    "无法删除环境变量 "@ + name + ": 找不到"@
}

/// The text of a failed enumeration.
pub open spec fn enum_failure_message() -> Seq<char> {
    "无法枚举环境变量: 注入的枚举失败"@
}

/// In-memory hive: ordered values, case-insensitive names, and two switches
/// that make enumeration or a single read fail.
pub struct MemoryHive {
    values: Vec<(String, RegValue)>,
    writable: bool,
    fail_enum: bool,
    fail_get: Option<String>,
}

impl MemoryHive {
    /// The stored values, in order.
    pub closed spec fn entries(&self) -> Seq<EntryView> {
        self.values@.map_values(|e: (String, RegValue)| (e.0@, e.1.vtype, e.1.value@))
    }

    /// Whether the hive was opened as writable by the current user.
    pub closed spec fn writable_spec(&self) -> bool {
        self.writable
    }

    /// When set, `enum_names` fails.
    pub closed spec fn fail_enum_spec(&self) -> bool {
        self.fail_enum
    }

    /// When set, `get_raw` fails for this name (any ASCII case).
    pub closed spec fn fail_get_spec(&self) -> Option<String> {
        self.fail_get
    }

    /// Whether two hives have the same permission and failure switches.
    pub open spec fn same_switches(&self, other: MemoryHive) -> bool {
        &&& self.writable_spec() == other.writable_spec()
        &&& self.fail_enum_spec() == other.fail_enum_spec()
        &&& self.fail_get_spec() == other.fail_get_spec()
    }

    /// Makes `enum_names` fail (or succeed again).
    pub fn set_fail_enum(&mut self, fail: bool)
        ensures
            final(self).entries() == old(self).entries(),
            final(self).writable_spec() == old(self).writable_spec(),
            final(self).fail_enum_spec() == fail,
            final(self).fail_get_spec() == old(self).fail_get_spec(),
    {
        self.fail_enum = fail;
    }

    /// Makes `get_raw` fail for one name (or for none).
    pub fn set_fail_get(&mut self, name: Option<String>)
        ensures
            final(self).entries() == old(self).entries(),
            final(self).writable_spec() == old(self).writable_spec(),
            final(self).fail_enum_spec() == old(self).fail_enum_spec(),
            final(self).fail_get_spec() == name,
    {
        self.fail_get = name;
    }

    /// An empty hive.
    pub fn new(writable: bool) -> (r: MemoryHive)
        ensures
            r.entries() == Seq::<EntryView>::empty(),
            r.writable_spec() == writable,
            !r.fail_enum_spec(),
            r.fail_get_spec() is None,
    {
        let r = MemoryHive { values: Vec::new(), writable, fail_enum: false, fail_get: None };
        assert(r.entries() =~= Seq::<EntryView>::empty());
        r
    }

    /// Whether the current user may write this hive.
    pub fn writable(&self) -> (r: bool)
        ensures
            r == self.writable_spec(),
    {
        self.writable
    }

    fn position(&self, name: &str) -> (r: Option<usize>)
        ensures
            self.entries().len() == self.values@.len(),
            r matches Some(k) ==> find(self.entries(), name@) == k && k < self.values@.len(),
            r is None ==> find(self.entries(), name@) == -1,
    {
        let ghost es = self.entries();
        let mut i: usize = 0;
        while i < self.values.len()
            invariant
                0 <= i <= self.values.len(),
                es == self.entries(),
                es.len() == self.values.len(),
                forall|j: int| 0 <= j < i ==> !name_matches(#[trigger] es[j], name@),
            decreases self.values.len() - i,
        {
            if eq_ignore_ascii_case(self.values[i].0.as_str(), name) {
                assert(es[i as int].0 == self.values@[i as int].0@);
                proof {
                    lemma_find_is(es, name@, i as int);
                }
                return Some(i);
            }
            assert(es[i as int].0 == self.values@[i as int].0@);
            i = i + 1;
        }
        proof {
            lemma_find_is(es, name@, -1);
        }
        None
    }

    /// Whether a value of that name (any ASCII case) exists.
    pub fn contains(&self, name: &str) -> (r: bool)
        ensures
            r == (find(self.entries(), name@) >= 0),
    {
        self.position(name).is_some()
    }

    /// The names of all values, spelled as stored, in order.
    pub fn enum_names(&self) -> (r: Result<Vec<String>, String>)
        ensures
            self.fail_enum_spec() ==> (r matches Err(m) && m@ == enum_failure_message()),
            !self.fail_enum_spec() ==> (r matches Ok(v) && v@.map_values(|s: String| s@)
                == self.entries().map_values(|e: EntryView| e.0)),
    {
        if self.fail_enum {
            return Err("无法枚举环境变量: 注入的枚举失败".to_owned());
        }
        let mut names: Vec<String> = Vec::new();
        let mut i: usize = 0;
        while i < self.values.len()
            invariant
                0 <= i <= self.values.len(),
                self.entries().len() == self.values@.len(),
                names@.map_values(|s: String| s@) == self.entries().take(i as int).map_values(
                    |e: EntryView| e.0,
                ),
            decreases self.values.len() - i,
        {
            let ghost before = names@;
            let n = self.values[i].0.clone();
            assert(n@ == self.values@[i as int].0@);
            names.push(n);
            assert(names@ == before.push(n));
            assert(names@.map_values(|s: String| s@) =~= before.map_values(|s: String| s@).push(n@));
            assert(self.entries().take(i + 1) =~= self.entries().take(i as int).push(self.entries()[i as int]));
            assert(self.entries()[i as int].0 == self.values@[i as int].0@);
            assert(names@.map_values(|s: String| s@) =~= self.entries().take(i + 1).map_values(
                |e: EntryView| e.0,
            ));
            i = i + 1;
        }
        assert(self.entries().take(self.values.len() as int) =~= self.entries());
        Ok(names)
    }

    /// The raw value under a name; fails when none exists or a failure is injected.
    pub fn get_raw(&self, name: &str) -> (r: Result<RegValue, String>)
        ensures
            r is Ok <==> !injected_get_failure(self.fail_get_spec(), name@) && lookup(
                self.entries(),
                name@,
            ) is Some,
            r matches Ok(v) ==> lookup(self.entries(), name@) == Some((v.vtype, v.value@)),
            r matches Err(m) ==> m@ == get_failure_message(self.fail_get_spec(), name@),
    {
        match &self.fail_get {
            Some(f) => {
                if eq_ignore_ascii_case(f.as_str(), name) {
                    let mut m = "无法读取环境变量 ".to_owned();
                    m.append(name);
                    m.append(": 注入的读取失败");
                    return Err(m);
                }
            },
            None => {},
        }
        match self.position(name) {
            Some(k) => {
                let v = self.values[k].1.duplicate();
                Ok(v)
            },
            None => {
                let mut m = "无法读取环境变量 ".to_owned();
                m.append(name);
                m.append(": 找不到");
                Err(m)
            },
        }
    }

    /// Writes a value (see `store_set`); never fails in memory.
    pub fn set_raw(&mut self, name: &str, value: &RegValue) -> (r: Result<(), String>)
        ensures
            r is Ok,
            final(self).entries() == store_set(old(self).entries(), name@, value.vtype, value.value@),
            final(self).writable_spec() == old(self).writable_spec(),
            final(self).fail_enum_spec() == old(self).fail_enum_spec(),
            final(self).fail_get_spec() == old(self).fail_get_spec(),
    {
        match self.position(name) {
            Some(k) => {
                let n = self.values[k].0.clone();
                let ghost before = self.entries();
                self.values.set(k, (n, value.duplicate()));
                assert(self.entries() =~= before.update(k as int, (before[k as int].0, value.vtype, value.value@)));
            },
            None => {
                let ghost before = self.entries();
                self.values.push((name.to_owned(), value.duplicate()));
                assert(self.entries() =~= before.push((name@, value.vtype, value.value@)));
            },
        }
        Ok(())
    }

    /// Removes every value of that name; fails when there was none.
    pub fn delete_value(&mut self, name: &str) -> (r: Result<(), String>)
        ensures
            r is Ok <==> find(old(self).entries(), name@) >= 0,
            r matches Err(m) ==> m@ == delete_missing_message(name@),
            final(self).entries() == store_remove(old(self).entries(), name@),
            final(self).writable_spec() == old(self).writable_spec(),
            final(self).fail_enum_spec() == old(self).fail_enum_spec(),
            final(self).fail_get_spec() == old(self).fail_get_spec(),
    {
        let ghost es = self.entries();
        let existed = self.position(name).is_some();
        let mut kept: Vec<(String, RegValue)> = Vec::new();
        let mut i: usize = 0;
        while i < self.values.len()
            invariant
                0 <= i <= self.values.len(),
                es == self.entries(),
                es.len() == self.values.len(),
                kept@.map_values(|e: (String, RegValue)| (e.0@, e.1.vtype, e.1.value@))
                    == store_remove(es.take(i as int), name@),
            decreases self.values.len() - i,
        {
            assert(es.take(i + 1).drop_last() =~= es.take(i as int));
            assert(es[i as int] == (self.values@[i as int].0@, self.values@[i as int].1.vtype, self.values@[i as int].1.value@));
            if !eq_ignore_ascii_case(self.values[i].0.as_str(), name) {
                let e = (self.values[i].0.clone(), self.values[i].1.duplicate());
                kept.push(e);
                assert(kept@.map_values(|e: (String, RegValue)| (e.0@, e.1.vtype, e.1.value@))
                    =~= store_remove(es.take(i as int), name@).push(es[i as int]));
            }
            i = i + 1;
        }
        assert(es.take(self.values.len() as int) =~= es);
        self.values = kept;
        if existed {
            Ok(())
        } else {
            let mut m = "无法删除环境变量 ".to_owned();
            m.append(name);
            m.append(": 找不到");
            Err(m)
        }
    }

    /// Stores a text value with the given type code.
    pub fn seed(&mut self, name: &str, value: &str, vtype: u32)
        ensures
            final(self).entries() == store_set(old(self).entries(), name@, vtype, value@),
            final(self).writable_spec() == old(self).writable_spec(),
            final(self).fail_enum_spec() == old(self).fail_enum_spec(),
            final(self).fail_get_spec() == old(self).fail_get_spec(),
    {
        let raw = RegValue::new(vtype, value);
        let _ = self.set_raw(name, &raw);
    }

    /// Stores a raw value.
    pub fn seed_raw(&mut self, name: &str, raw: RegValue)
        ensures
            final(self).entries() == store_set(old(self).entries(), name@, raw.vtype, raw.value@),
            final(self).writable_spec() == old(self).writable_spec(),
            final(self).fail_enum_spec() == old(self).fail_enum_spec(),
            final(self).fail_get_spec() == old(self).fail_get_spec(),
    {
        let _ = self.set_raw(name, &raw);
    }
}

} // verus!
