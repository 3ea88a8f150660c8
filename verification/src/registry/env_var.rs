//! Generic environment-variable operations against a hive: name and value
//! validation, listing, reading, and the compare-then-write updates.
//!
//! Every write re-reads the variable, recomputes its revision and refuses
//! with a conflict when the caller's revision is stale. Reserved and
//! protected names are refused before anything is read.

use crate::env_var::{
    capabilities_for_with, capabilities_spec, is_protected, is_protected_spec, is_reserved,
    is_reserved_spec, is_sensitive, is_sensitive_spec, kind_of, kind_writable, preview_spec,
    revision_of, revision_spec, sanitize_preview, EnvHive, EnvValueKind, EnvVarMeta, MetaView,
    RevealedValue, REG_EXPAND_SZ, REG_SZ,
};
use crate::error::{CoreError, ErrorCode};
use crate::reg_store::{
    enum_failure_message, find, get_failure_message, injected_get_failure, lemma_find, lookup,
    store_remove, store_set, EntryView, MemoryHive, RegValue,
};
use crate::registry::access::{hive_label_spec, hive_location};
use crate::registry::conflict::{conflict_error, conflict_text};
use crate::text::{
    chars_of, concat2, concat3, concat4, contains_char, dec_digits, dec_string, eq_ignore_ascii_case,
    eq_ignore_case, str_eq, string_of, trim, trim_chars, utf16_count, utf16_len,
};
use vstd::prelude::*;

verus! {

/// Longest name or value Windows accepts, in UTF-16 code units.
pub const MAX_ENV_UNITS: usize = 32767;

// ───────────────────────── validation ─────────────────────────

/// Why a name is refused, if it is.
pub open spec fn env_name_error(name: Seq<char>) -> Option<Seq<char>> {
    if trim(name).len() == 0 {
        Some("变量名不能为空"@)
    } else if name.contains('\0') {
        Some("变量名不能包含 null 字节"@)
    } else if name.contains('=') {
        Some("变量名不能包含等号"@)
    } else if utf16_len(name) > MAX_ENV_UNITS {
        Some("变量名过长（超过 32767 字符）"@)
    } else {
        None
    }
}

/// The UTF-16 length as the message shows it (a count that cannot exceed
/// the address space).
pub open spec fn shown_units(s: Seq<char>) -> nat {
    if utf16_len(s) <= usize::MAX {
        utf16_len(s)
    } else {
        usize::MAX as nat
    }
}

/// Why a value is refused, if it is; `label` names the variable.
pub open spec fn env_value_error(value: Seq<char>, label: Seq<char>) -> Option<Seq<char>> {
    if value.contains('\0') {
        Some(label + " 的值包含 null 字节"@)
    } else if utf16_len(value) > MAX_ENV_UNITS {
        Some(label + " 的值长度 "@ + dec_digits(shown_units(value)) + " 超出 Windows 限制 32767 字符"@)
    } else {
        None
    }
}

/// Name check shared by every entry point: not blank, no NUL, no `=`, at
/// most 32767 UTF-16 units.
pub fn validate_env_name(name: &str) -> (r: Result<(), String>)
    ensures
        r is Ok <==> env_name_error(name@) is None,
        r matches Err(m) ==> env_name_error(name@) == Some(m@),
{
    let cs = chars_of(name);
    let t = trim_chars(&cs);
    if t.len() == 0 {
        return Err("变量名不能为空".to_owned());
    }
    if contains_char(&cs, '\0') {
        return Err("变量名不能包含 null 字节".to_owned());
    }
    if contains_char(&cs, '=') {
        return Err("变量名不能包含等号".to_owned());
    }
    if utf16_count(&cs) > MAX_ENV_UNITS {
        return Err("变量名过长（超过 32767 字符）".to_owned());
    }
    Ok(())
}

/// Value check: no NUL and at most 32767 UTF-16 units. PATH's own
/// semicolon rules do not apply here.
pub fn validate_env_value(value: &str, label: &str) -> (r: Result<(), String>)
    ensures
        r is Ok <==> env_value_error(value@, label@) is None,
        r matches Err(m) ==> env_value_error(value@, label@) == Some(m@),
{
    let cs = chars_of(value);
    if contains_char(&cs, '\0') {
        return Err(concat2(label, " 的值包含 null 字节"));
    }
    let n = utf16_count(&cs);
    if n > MAX_ENV_UNITS {
        let d = dec_string(n as u64);
        let ds = string_of(&d);
        return Err(concat4(label, " 的值长度 ", ds.as_str(), " 超出 Windows 限制 32767 字符"));
    }
    Ok(())
}

// ───────────────────────── the name rules ─────────────────────────

/// The code of the first name rule a name breaks: validity, then reserved
/// (`Path`), then protected.
pub open spec fn name_rule_error(name: Seq<char>) -> Option<ErrorCode> {
    if env_name_error(name) is Some {
        Some(ErrorCode::InvalidName)
    } else if is_reserved_spec(name) {
        Some(ErrorCode::ReservedName)
    } else if is_protected_spec(name) {
        Some(ErrorCode::Protected)
    } else {
        None
    }
}

/// The message of that refusal; `reserved_tail` and `verb` finish the
/// reserved and protected texts.
pub open spec fn name_rule_message(name: Seq<char>, reserved_tail: Seq<char>, verb: Seq<char>) -> Seq<
    char,
> {
    if env_name_error(name) is Some {
        env_name_error(name).unwrap()
    } else if is_reserved_spec(name) {
        name + reserved_tail
    } else {
        name + " 是系统内置变量，"@ + verb
    }
}

/// The reserved-name text of every entry point but creation.
pub open spec fn use_path_view_tail() -> Seq<char> {
    " 由专用 PATH 通路管理，请使用 PATH 视图编辑"@
}

/// Whether the name passed the checks that come before the read, so that a
/// failure comes from the read itself.
pub open spec fn read_stage_failed(name: Seq<char>) -> bool {
    env_name_error(name) is None && !is_reserved_spec(name)
}

/// The operation an error names: a failed read keeps the reader's own name.
pub open spec fn stage_op(read_failed: bool, op: Seq<char>) -> Seq<char> {
    if read_failed {
        "read_env_var"@
    } else {
        op
    }
}

/// Whether an error is about one variable of one hive, raised by `op`.
pub open spec fn targets(e: CoreError, op: Seq<char>, hive: EnvHive, name: Seq<char>) -> bool {
    &&& e.operation@ == op
    &&& e.hive == Some(hive)
    &&& e.name matches Some(n) && n@ == name
}

fn check_name_rules(hive: EnvHive, name: &str, operation: &str, reserved_tail: &str, verb: &str) -> (r:
    Result<(), CoreError>)
    ensures
        r is Ok <==> name_rule_error(name@) is None,
        r matches Err(e) ==> {
            &&& Some(e.code) == name_rule_error(name@)
            &&& targets(e, operation@, hive, name@)
            &&& !e.retryable
            &&& e.message@ == name_rule_message(name@, reserved_tail@, verb@)
        },
{
    match validate_env_name(name) {
        Ok(()) => {},
        Err(m) => {
            return Err(
                CoreError::new(ErrorCode::InvalidName, operation, m.as_str()).with_target(hive, name),
            );
        },
    }
    if is_reserved(name) {
        let m = concat2(name, reserved_tail);
        return Err(
            CoreError::new(ErrorCode::ReservedName, operation, m.as_str()).with_target(hive, name),
        );
    }
    if is_protected(name) {
        let m = concat3(name, " 是系统内置变量，", verb);
        return Err(
            CoreError::new(ErrorCode::Protected, operation, m.as_str()).with_target(hive, name),
        );
    }
    Ok(())
}

/// The cheap checks every write makes before anything else happens (in
/// particular before a backup is taken): name validity, the reserved name,
/// the protected list. `verb` finishes the protected text ("不允许修改" and
/// the like).
pub fn reject_reserved_and_protected(hive: EnvHive, name: &str, operation: &str, verb: &str) -> (r:
    Result<(), CoreError>)
    ensures
        r is Ok <==> name_rule_error(name@) is None,
        r matches Err(e) ==> {
            &&& Some(e.code) == name_rule_error(name@)
            &&& targets(e, operation@, hive, name@)
            &&& !e.retryable
            &&& e.message@ == name_rule_message(name@, use_path_view_tail(), verb@)
        },
{
    check_name_rules(hive, name, operation, " 由专用 PATH 通路管理，请使用 PATH 视图编辑", verb)
}

// ───────────────────────── reading and writing one value ─────────────────────────

/// Type and text of a variable as the generic route reads it: the read
/// fails (`Io`) when the value is missing or cannot be fetched, and is
/// refused (`UnsupportedType`) for a type other than `REG_SZ` /
/// `REG_EXPAND_SZ`.
pub open spec fn read_spec(es: Seq<EntryView>, fail_get: Option<String>, name: Seq<char>) -> Result<
    (u32, Seq<char>),
    ErrorCode,
> {
    if injected_get_failure(fail_get, name) || lookup(es, name) is None {
        Err(ErrorCode::Io)
    } else if !kind_writable(kind_of(lookup(es, name).unwrap().0)) {
        Err(ErrorCode::UnsupportedType)
    } else {
        Ok(lookup(es, name).unwrap())
    }
}

/// The text of a failed or refused read.
pub open spec fn read_error_message(es: Seq<EntryView>, fail_get: Option<String>, name: Seq<char>) -> Seq<
    char,
> {
    if injected_get_failure(fail_get, name) || lookup(es, name) is None {
        get_failure_message(fail_get, name)
    } else {
        "环境变量 "@ + name + " 的注册表类型不受支持"@
    }
}

/// That text with the hive and the variable in front, as reveal and the
/// writes report a failed read.
pub open spec fn read_context_message(
    es: Seq<EntryView>,
    fail_get: Option<String>,
    hive: EnvHive,
    name: Seq<char>,
) -> Seq<char> {
    "读取"@ + hive_label_spec(hive) + "环境变量 "@ + name + " 失败: "@ + read_error_message(es, fail_get, name)
}

/// Reads one string-typed value, returning its registry type and its text.
/// The type is checked before the text is used, so a `REG_DWORD` is
/// reported as unsupported rather than as undecodable.
pub fn read_env_var(store: &MemoryHive, name: &str) -> (r: Result<(u32, String), CoreError>)
    ensures
        r is Ok <==> read_spec(store.entries(), store.fail_get_spec(), name@) is Ok,
        r matches Ok(p) ==> read_spec(store.entries(), store.fail_get_spec(), name@) == Ok::<
            (u32, Seq<char>),
            ErrorCode,
        >((p.0, p.1@)),
        r matches Err(e) ==> {
            &&& read_spec(store.entries(), store.fail_get_spec(), name@) == Err::<
                (u32, Seq<char>),
                ErrorCode,
            >(e.code)
            &&& e.operation@ == "read_env_var"@
            &&& e.hive is None
            &&& e.name is None
            &&& !e.retryable
            &&& e.message@ == read_error_message(store.entries(), store.fail_get_spec(), name@)
        },
{
    let raw = match store.get_raw(name) {
        Ok(v) => v,
        Err(m) => {
            return Err(CoreError::new(ErrorCode::Io, "read_env_var", m.as_str()));
        },
    };
    if !EnvValueKind::from_reg_type(raw.vtype).is_writable() {
        let m = concat3("环境变量 ", name, " 的注册表类型不受支持");
        return Err(CoreError::new(ErrorCode::UnsupportedType, "read_env_var", m.as_str()));
    }
    Ok((raw.vtype, raw.value))
}

/// Adds the hive and the variable to a read error, with the hive's label in
/// the message ("读取用户环境变量 X 失败: ...").
pub fn attach_read_context(e: CoreError, hive: EnvHive, name: &str) -> (r: CoreError)
    ensures
        r.code == e.code,
        r.operation == e.operation,
        r.hive == Some(hive),
        r.name matches Some(n) && n@ == name@,
        r.retryable == e.retryable,
        r.message@ == "读取"@ + hive_label_spec(hive) + "环境变量 "@ + name@ + " 失败: "@
            + e.message@,
{
    let label = hive_location(hive).1;
    let mut r = e.with_target(hive, name);
    let head = concat4("读取", label, "环境变量 ", name);
    let m = concat3(head.as_str(), " 失败: ", r.message.as_str());
    r.message = m;
    r
}

/// Writes one value with the given registry type. Stored in memory, the
/// write cannot fail.
pub fn write_env_var(store: &mut MemoryHive, name: &str, value: &str, vtype: u32) -> (r: Result<
    (),
    CoreError,
>)
    ensures
        r is Ok,
        final(store).entries() == store_set(old(store).entries(), name@, vtype, value@),
        final(store).same_switches(*old(store)),
{
    let raw = RegValue::new(vtype, value);
    match store.set_raw(name, &raw) {
        Ok(()) => Ok(()),
        Err(m) => Err(CoreError::new(ErrorCode::Io, "write_env_var", m.as_str())),
    }
}

// ───────────────────────── listing ─────────────────────────

/// The listing entry of a stored variable `name` whose raw value is `raw`.
/// An unsupported value is listed with an empty text: no preview, and a
/// revision over the empty text.
pub open spec fn meta_spec(name: Seq<char>, raw: (u32, Seq<char>), writable: bool, hive: EnvHive) -> MetaView {
    let kind = kind_of(raw.0);
    let sensitive = is_sensitive_spec(name);
    let value = if kind == EnvValueKind::Unsupported {
        Seq::<char>::empty()
    } else {
        raw.1
    };
    let caps = capabilities_spec(writable, name, kind);
    MetaView {
        name,
        kind,
        hive,
        can_edit: caps.0,
        can_delete: caps.1,
        sensitive,
        preview: if sensitive || !kind_writable(kind) {
            None
        } else {
            preview_spec(value)
        },
        revision: revision_spec(name, raw.0, value),
    }
}

/// The listing of the first `k` stored names: reserved names are left
/// out; the first name that cannot be read fails the whole listing.
pub open spec fn list_prefix(
    es: Seq<EntryView>,
    fail_get: Option<String>,
    writable: bool,
    hive: EnvHive,
    k: nat,
) -> Result<Seq<MetaView>, ErrorCode>
    decreases k,
{
    if k == 0 || k > es.len() {
        Ok(Seq::empty())
    } else {
        match list_prefix(es, fail_get, writable, hive, (k - 1) as nat) {
            Err(c) => Err(c),
            Ok(ms) => {
                let n = es[k - 1].0;
                if is_reserved_spec(n) {
                    Ok(ms)
                } else if injected_get_failure(fail_get, n) || lookup(es, n) is None {
                    Err(ErrorCode::Io)
                } else {
                    Ok(ms.push(meta_spec(n, lookup(es, n).unwrap(), writable, hive)))
                }
            },
        }
    }
}

/// The listing of a whole hive; an enumeration failure fails it.
pub open spec fn list_spec(
    es: Seq<EntryView>,
    fail_enum: bool,
    fail_get: Option<String>,
    writable: bool,
    hive: EnvHive,
) -> Result<Seq<MetaView>, ErrorCode> {
    if fail_enum {
        Err(ErrorCode::Io)
    } else {
        list_prefix(es, fail_get, writable, hive, es.len())
    }
}

/// Once a prefix fails, every longer prefix fails the same way.
proof fn lemma_list_prefix_err_sticks(
    es: Seq<EntryView>,
    fail_get: Option<String>,
    writable: bool,
    hive: EnvHive,
    k: nat,
    m: nat,
)
    requires
        k <= m <= es.len(),
        list_prefix(es, fail_get, writable, hive, k) is Err,
    ensures
        list_prefix(es, fail_get, writable, hive, m) == list_prefix(es, fail_get, writable, hive, k),
    decreases m - k,
{
    if k < m {
        lemma_list_prefix_err_sticks(es, fail_get, writable, hive, k, (m - 1) as nat);
    }
}

/// Whether the `j`-th stored name is one a listing reads and cannot.
pub open spec fn entry_unreadable(es: Seq<EntryView>, fail_get: Option<String>, j: int) -> bool {
    !is_reserved_spec(es[j].0) && (injected_get_failure(fail_get, es[j].0) || lookup(es, es[j].0) is None)
}

/// Index of the first of the first `k` stored names that a listing cannot
/// read (-1 when there is none).
pub open spec fn first_unreadable(es: Seq<EntryView>, fail_get: Option<String>, k: nat) -> int
    decreases k,
{
    if k == 0 || k > es.len() {
        -1
    } else if first_unreadable(es, fail_get, (k - 1) as nat) >= 0 {
        first_unreadable(es, fail_get, (k - 1) as nat)
    } else if entry_unreadable(es, fail_get, k - 1) {
        k - 1
    } else {
        -1
    }
}

/// Once a name cannot be read, it stays the first one for every longer prefix.
pub proof fn lemma_first_unreadable_sticks(es: Seq<EntryView>, fail_get: Option<String>, k: nat, m: nat)
    requires
        k <= m <= es.len(),
        first_unreadable(es, fail_get, k) >= 0,
    ensures
        first_unreadable(es, fail_get, m) == first_unreadable(es, fail_get, k),
    decreases m - k,
{
    if k < m {
        lemma_first_unreadable_sticks(es, fail_get, k, (m - 1) as nat);
    }
}

/// The text of a failed listing.
pub open spec fn list_error_message(
    es: Seq<EntryView>,
    fail_enum: bool,
    fail_get: Option<String>,
    hive: EnvHive,
) -> Seq<char> {
    "读取"@ + hive_label_spec(hive) + "环境变量列表失败: "@ + (if fail_enum {
        enum_failure_message()
    } else {
        get_failure_message(fail_get, es[first_unreadable(es, fail_get, es.len())].0)
    })
}

pub open spec fn metas_view(v: Seq<EnvVarMeta>) -> Seq<MetaView> {
    v.map_values(|m: EnvVarMeta| m@)
}

fn list_failure(hive: EnvHive, code: ErrorCode, detail: &str) -> (r: CoreError)
    ensures
        r.code == code,
        r.operation@ == "list_env_vars"@,
        r.hive == Some(hive),
        r.name is None,
        r.retryable == (code == ErrorCode::Conflict),
        r.message@ == "读取"@ + hive_label_spec(hive) + "环境变量列表失败: "@ + detail@,
{
    let label = hive_location(hive).1;
    let m = concat4("读取", label, "环境变量列表失败: ", detail);
    let mut e = CoreError::new(code, "list_env_vars", m.as_str());
    e.hive = Some(hive);
    e
}

/// Lists the metadata of every variable of a hive, in stored order, without
/// the reserved `Path`. Any failure to enumerate or to read one value fails
/// the whole hive: an incomplete list would look like a complete one.
pub fn list_env_vars_in_store(hive: EnvHive, store: &MemoryHive) -> (r: Result<
    Vec<EnvVarMeta>,
    CoreError,
>)
    ensures
        r is Ok <==> list_spec(
            store.entries(),
            store.fail_enum_spec(),
            store.fail_get_spec(),
            store.writable_spec(),
            hive,
        ) is Ok,
        r matches Ok(v) ==> list_spec(
            store.entries(),
            store.fail_enum_spec(),
            store.fail_get_spec(),
            store.writable_spec(),
            hive,
        ) == Ok::<Seq<MetaView>, ErrorCode>(metas_view(v@)),
        r matches Err(e) ==> list_spec(
            store.entries(),
            store.fail_enum_spec(),
            store.fail_get_spec(),
            store.writable_spec(),
            hive,
        ) == Err::<Seq<MetaView>, ErrorCode>(e.code) && e.operation@ == "list_env_vars"@ && e.hive
            == Some(hive),
        r matches Err(e) ==> {
            &&& !e.retryable
            &&& e.message@ == list_error_message(
                store.entries(),
                store.fail_enum_spec(),
                store.fail_get_spec(),
                hive,
            )
            &&& store.fail_enum_spec() ==> e.name is None
            &&& !store.fail_enum_spec() ==> (e.name matches Some(n) && n@ == store.entries()[first_unreadable(
                store.entries(),
                store.fail_get_spec(),
                store.entries().len(),
            )].0)
        },
{
    let writable = store.writable();
    let names = match store.enum_names() {
        Ok(n) => n,
        Err(m) => {
            return Err(list_failure(hive, ErrorCode::Io, m.as_str()));
        },
    };
    let ghost es = store.entries();
    let ghost fg = store.fail_get_spec();
    assert(names@.len() == es.len()) by {
        assert(names@.map_values(|s: String| s@).len() == es.map_values(|e: EntryView| e.0).len());
    }
    let mut metas: Vec<EnvVarMeta> = Vec::new();
    assert(metas_view(metas@) =~= Seq::<MetaView>::empty());
    let mut i: usize = 0;
    while i < names.len()
        invariant
            0 <= i <= names.len(),
            names@.len() == es.len(),
            es == store.entries(),
            fg == store.fail_get_spec(),
            writable == store.writable_spec(),
            !store.fail_enum_spec(),
            names@.map_values(|s: String| s@) == es.map_values(|e: EntryView| e.0),
            list_prefix(es, fg, writable, hive, i as nat) == Ok::<Seq<MetaView>, ErrorCode>(
                metas_view(metas@),
            ),
            first_unreadable(es, fg, i as nat) == -1,
        decreases names.len() - i,
    {
        let name = names[i].as_str();
        assert(name@ == es[i as int].0) by {
            assert(names@.map_values(|s: String| s@)[i as int] == es.map_values(
                |e: EntryView| e.0,
            )[i as int]);
        }
        if !is_reserved(name) {
            let raw = match store.get_raw(name) {
                Ok(v) => v,
                Err(m) => {
                    let e = list_failure(hive, ErrorCode::Io, m.as_str()).with_target(hive, name);
                    proof {
                        lemma_list_prefix_err_sticks(es, fg, writable, hive, (i + 1) as nat, es.len());
                        lemma_first_unreadable_sticks(es, fg, (i + 1) as nat, es.len());
                    }
                    return Err(e);
                },
            };
            let kind = EnvValueKind::from_reg_type(raw.vtype);
            let sensitive = is_sensitive(name);
            let value = if kind == EnvValueKind::Unsupported {
                String::new()
            } else {
                raw.value
            };
            let preview = if sensitive || !kind.is_writable() {
                None
            } else {
                sanitize_preview(value.as_str())
            };
            let caps = capabilities_for_with(writable, name, kind);
            let revision = revision_of(name, raw.vtype, value.as_str());
            let meta = EnvVarMeta {
                name: names[i].clone(),
                kind,
                hive,
                can_edit: caps.0,
                can_delete: caps.1,
                sensitive,
                preview,
                revision,
            };
            let ghost before = metas@;
            metas.push(meta);
            assert(metas_view(metas@) =~= metas_view(before).push(meta@));
            assert(meta@ == meta_spec(name@, lookup(es, name@).unwrap(), writable, hive));
        }
        i = i + 1;
    }
    Ok(metas)
}

// ───────────────────────── reveal ─────────────────────────

/// What revealing a variable gives: its text and the revision of that read,
/// or the refusal. The revision is computed over the name as asked for.
pub open spec fn reveal_spec(es: Seq<EntryView>, fail_get: Option<String>, name: Seq<char>) -> Result<
    (Seq<char>, Seq<char>),
    ErrorCode,
> {
    if env_name_error(name) is Some {
        Err(ErrorCode::InvalidName)
    } else if is_reserved_spec(name) {
        Err(ErrorCode::ReservedName)
    } else {
        match read_spec(es, fail_get, name) {
            Err(c) => Err(c),
            Ok(p) => Ok((p.1, revision_spec(name, p.0, p.1))),
        }
    }
}

/// The text of a refused or failed reveal.
pub open spec fn reveal_error_message(
    es: Seq<EntryView>,
    fail_get: Option<String>,
    hive: EnvHive,
    name: Seq<char>,
) -> Seq<char> {
    if env_name_error(name) is Some {
        env_name_error(name).unwrap()
    } else if is_reserved_spec(name) {
        name + use_path_view_tail()
    } else {
        read_context_message(es, fail_get, hive, name)
    }
}

/// Reads the plain text of one variable together with the revision of
/// that read. Protected variables can be read; `Path` cannot.
pub fn reveal_env_var_in_store(store: &MemoryHive, hive: EnvHive, name: &str) -> (r: Result<
    RevealedValue,
    CoreError,
>)
    ensures
        r is Ok <==> reveal_spec(store.entries(), store.fail_get_spec(), name@) is Ok,
        r matches Ok(v) ==> reveal_spec(store.entries(), store.fail_get_spec(), name@) == Ok::<
            (Seq<char>, Seq<char>),
            ErrorCode,
        >((v.value@, v.revision@)),
        r matches Err(e) ==> reveal_spec(store.entries(), store.fail_get_spec(), name@) == Err::<
            (Seq<char>, Seq<char>),
            ErrorCode,
        >(e.code) && targets(e, stage_op(read_stage_failed(name@), "reveal_env_var"@), hive, name@),
        r matches Err(e) ==> !e.retryable && e.message@ == reveal_error_message(
            store.entries(),
            store.fail_get_spec(),
            hive,
            name@,
        ),
{
    match validate_env_name(name) {
        Ok(()) => {},
        Err(m) => {
            return Err(
                CoreError::new(ErrorCode::InvalidName, "reveal_env_var", m.as_str()).with_target(
                    hive,
                    name,
                ),
            );
        },
    }
    if is_reserved(name) {
        let m = concat2(name, " 由专用 PATH 通路管理，请使用 PATH 视图编辑");
        return Err(
            CoreError::new(ErrorCode::ReservedName, "reveal_env_var", m.as_str()).with_target(
                hive,
                name,
            ),
        );
    }
    let (vtype, value) = match read_env_var(store, name) {
        Ok(p) => p,
        Err(e) => {
            return Err(attach_read_context(e, hive, name));
        },
    };
    let revision = revision_of(name, vtype, value.as_str());
    Ok(RevealedValue { value, revision })
}


// ───────────────────────── writes ─────────────────────────

/// Whether a write's result agrees with its outcome: on success the hive
/// holds exactly the outcome's values, on failure the error carries the
/// outcome's code and the hive is untouched.
pub open spec fn write_matches(
    out: Result<Seq<EntryView>, ErrorCode>,
    r: Result<(), CoreError>,
    before: Seq<EntryView>,
    after: Seq<EntryView>,
) -> bool {
    match r {
        Ok(_) => out == Ok::<Seq<EntryView>, ErrorCode>(after),
        Err(e) => out == Err::<Seq<EntryView>, ErrorCode>(e.code) && after == before,
    }
}

/// Whether the name passed its rules and the read that follows failed.
pub open spec fn checked_read_failed(es: Seq<EntryView>, fail_get: Option<String>, name: Seq<char>) -> bool {
    name_rule_error(name) is None && read_spec(es, fail_get, name) is Err
}

/// Outcome of a compare-then-write update: the name rules, the read, the
/// revision comparison, the value check, then the write, which keeps the
/// stored type.
pub open spec fn update_outcome(
    es: Seq<EntryView>,
    fail_get: Option<String>,
    name: Seq<char>,
    value: Seq<char>,
    expected: Seq<char>,
) -> Result<Seq<EntryView>, ErrorCode> {
    if name_rule_error(name) is Some {
        Err(name_rule_error(name).unwrap())
    } else {
        match read_spec(es, fail_get, name) {
            Err(c) => Err(c),
            Ok(p) => if revision_spec(name, p.0, p.1) != expected {
                Err(ErrorCode::Conflict)
            } else if env_value_error(value, name) is Some {
                Err(ErrorCode::InvalidValue)
            } else {
                Ok(store_set(es, name, p.0, value))
            },
        }
    }
}

/// Outcome of a forced update: as `update_outcome` without the revision
/// comparison (last writer wins).
pub open spec fn update_force_outcome(
    es: Seq<EntryView>,
    fail_get: Option<String>,
    name: Seq<char>,
    value: Seq<char>,
) -> Result<Seq<EntryView>, ErrorCode> {
    if name_rule_error(name) is Some {
        Err(name_rule_error(name).unwrap())
    } else {
        match read_spec(es, fail_get, name) {
            Err(c) => Err(c),
            Ok(p) => if env_value_error(value, name) is Some {
                Err(ErrorCode::InvalidValue)
            } else {
                Ok(store_set(es, name, p.0, value))
            },
        }
    }
}

/// Outcome of a compare-then-delete.
pub open spec fn delete_outcome(
    es: Seq<EntryView>,
    fail_get: Option<String>,
    name: Seq<char>,
    expected: Seq<char>,
) -> Result<Seq<EntryView>, ErrorCode> {
    if name_rule_error(name) is Some {
        Err(name_rule_error(name).unwrap())
    } else {
        match read_spec(es, fail_get, name) {
            Err(c) => Err(c),
            Ok(p) => if revision_spec(name, p.0, p.1) != expected {
                Err(ErrorCode::Conflict)
            } else {
                Ok(store_remove(es, name))
            },
        }
    }
}

/// Outcome of a forced delete: as `delete_outcome` without the comparison.
pub open spec fn delete_force_outcome(es: Seq<EntryView>, fail_get: Option<String>, name: Seq<char>) -> Result<
    Seq<EntryView>,
    ErrorCode,
> {
    if name_rule_error(name) is Some {
        Err(name_rule_error(name).unwrap())
    } else {
        match read_spec(es, fail_get, name) {
            Err(c) => Err(c),
            Ok(_) => Ok(store_remove(es, name)),
        }
    }
}

/// The text of a refusal by the name rules or of a failed read, the two
/// stages every update and delete begins with.
pub open spec fn checked_read_message(
    es: Seq<EntryView>,
    fail_get: Option<String>,
    hive: EnvHive,
    name: Seq<char>,
    verb: Seq<char>,
) -> Seq<char> {
    if name_rule_error(name) is Some {
        name_rule_message(name, use_path_view_tail(), verb)
    } else {
        read_context_message(es, fail_get, hive, name)
    }
}

/// The text of a refused update (see `update_outcome`).
pub open spec fn update_error_message(
    es: Seq<EntryView>,
    fail_get: Option<String>,
    hive: EnvHive,
    name: Seq<char>,
    value: Seq<char>,
    expected: Seq<char>,
) -> Seq<char> {
    if name_rule_error(name) is Some || read_spec(es, fail_get, name) is Err {
        checked_read_message(es, fail_get, hive, name, "不允许修改"@)
    } else if revision_spec(name, lookup(es, name).unwrap().0, lookup(es, name).unwrap().1) != expected {
        conflict_text()
    } else {
        env_value_error(value, name).unwrap()
    }
}

/// The text of a refused forced update (see `update_force_outcome`).
pub open spec fn update_force_error_message(
    es: Seq<EntryView>,
    fail_get: Option<String>,
    hive: EnvHive,
    name: Seq<char>,
    value: Seq<char>,
) -> Seq<char> {
    if name_rule_error(name) is Some || read_spec(es, fail_get, name) is Err {
        checked_read_message(es, fail_get, hive, name, "不允许修改"@)
    } else {
        env_value_error(value, name).unwrap()
    }
}

/// The text of a refused delete (see `delete_outcome`).
pub open spec fn delete_error_message(
    es: Seq<EntryView>,
    fail_get: Option<String>,
    hive: EnvHive,
    name: Seq<char>,
) -> Seq<char> {
    if name_rule_error(name) is Some || read_spec(es, fail_get, name) is Err {
        checked_read_message(es, fail_get, hive, name, "不允许删除"@)
    } else {
        conflict_text()
    }
}

/// The text of a refused create (see `create_outcome`).
pub open spec fn create_error_message(
    fail_enum: bool,
    name: Seq<char>,
    value: Seq<char>,
    kind: EnvValueKind,
) -> Seq<char> {
    if name_rule_error(name) is Some {
        name_rule_message(name, " 由专用 PATH 通路管理，无法通过通用通路创建"@, "不允许覆盖"@)
    } else if !kind_writable(kind) {
        "新建变量只支持 String 或 ExpandString 类型"@
    } else if env_value_error(value, name) is Some {
        env_value_error(value, name).unwrap()
    } else if fail_enum {
        enum_failure_message()
    } else {
        "变量 "@ + name + " 已存在，请使用编辑功能"@
    }
}

/// The registry type a new variable of a kind is stored with.
pub open spec fn create_type(kind: EnvValueKind) -> u32 {
    if kind == EnvValueKind::String {
        REG_SZ
    } else {
        REG_EXPAND_SZ
    }
}

/// Outcome of creating a variable: the name rules, the kind, the value,
/// then a check that no variable of that name exists in any ASCII case
/// (an enumeration failure refuses rather than risking an overwrite).
pub open spec fn create_outcome(
    es: Seq<EntryView>,
    fail_enum: bool,
    name: Seq<char>,
    value: Seq<char>,
    kind: EnvValueKind,
) -> Result<Seq<EntryView>, ErrorCode> {
    if name_rule_error(name) is Some {
        Err(name_rule_error(name).unwrap())
    } else if !kind_writable(kind) {
        Err(ErrorCode::UnsupportedType)
    } else if env_value_error(value, name) is Some {
        Err(ErrorCode::InvalidValue)
    } else if fail_enum {
        Err(ErrorCode::Io)
    } else if find(es, name) >= 0 {
        Err(ErrorCode::NameExists)
    } else {
        Ok(store_set(es, name, create_type(kind), value))
    }
}

/// Writes an existing variable if the caller's revision is still current.
/// The registry type is the stored one, never the caller's. Read and write
/// are separate steps: the revision narrows, but cannot close, the window
/// in which another process may write.
pub fn update_env_var_in_store(
    store: &mut MemoryHive,
    hive: EnvHive,
    name: &str,
    value: &str,
    expected_revision: &str,
) -> (r: Result<(), CoreError>)
    ensures
        write_matches(
            update_outcome(
                old(store).entries(),
                old(store).fail_get_spec(),
                name@,
                value@,
                expected_revision@,
            ),
            r,
            old(store).entries(),
            final(store).entries(),
        ),
        final(store).same_switches(*old(store)),
        r matches Err(e) ==> targets(
            e,
            stage_op(
                checked_read_failed(old(store).entries(), old(store).fail_get_spec(), name@),
                "update_env_var"@,
            ),
            hive,
            name@,
        ),
        r matches Err(e) ==> e.retryable == (e.code == ErrorCode::Conflict) && e.message@
            == update_error_message(
            old(store).entries(),
            old(store).fail_get_spec(),
            hive,
            name@,
            value@,
            expected_revision@,
        ),
{
    match check_name_rules(hive, name, "update_env_var", " 由专用 PATH 通路管理，请使用 PATH 视图编辑", "不允许修改") {
        Ok(()) => {},
        Err(e) => {
            return Err(e);
        },
    }
    let (vtype, current) = match read_env_var(store, name) {
        Ok(p) => p,
        Err(e) => {
            return Err(attach_read_context(e, hive, name));
        },
    };
    let current_revision = revision_of(name, vtype, current.as_str());
    if !str_eq(current_revision.as_str(), expected_revision) {
        return Err(conflict_error("update_env_var", hive, name));
    }
    if !EnvValueKind::from_reg_type(vtype).is_writable() {
        let m = concat2(name, " 的注册表类型不受支持，无法修改（仅可查看）");
        return Err(
            CoreError::new(ErrorCode::UnsupportedType, "update_env_var", m.as_str()).with_target(
                hive,
                name,
            ),
        );
    }
    match validate_env_value(value, name) {
        Ok(()) => {},
        Err(m) => {
            return Err(
                CoreError::new(ErrorCode::InvalidValue, "update_env_var", m.as_str()).with_target(
                    hive,
                    name,
                ),
            );
        },
    }
    match write_env_var(store, name, value, vtype) {
        Ok(()) => Ok(()),
        Err(e) => Err(e.with_target(hive, name)),
    }
}

/// Overwrites an existing variable whatever its revision (last writer
/// wins). Only the revision comparison is waived: the name rules, the type
/// and the value check still apply.
pub fn update_env_var_force_in_store(store: &mut MemoryHive, hive: EnvHive, name: &str, value: &str) -> (r:
    Result<(), CoreError>)
    ensures
        write_matches(
            update_force_outcome(old(store).entries(), old(store).fail_get_spec(), name@, value@),
            r,
            old(store).entries(),
            final(store).entries(),
        ),
        final(store).same_switches(*old(store)),
        r matches Err(e) ==> targets(
            e,
            stage_op(
                checked_read_failed(old(store).entries(), old(store).fail_get_spec(), name@),
                "update_env_var_force"@,
            ),
            hive,
            name@,
        ),
        r matches Err(e) ==> !e.retryable && e.message@ == update_force_error_message(
            old(store).entries(),
            old(store).fail_get_spec(),
            hive,
            name@,
            value@,
        ),
{
    match check_name_rules(hive, name, "update_env_var_force", " 由专用 PATH 通路管理，请使用 PATH 视图编辑", "不允许修改") {
        Ok(()) => {},
        Err(e) => {
            return Err(e);
        },
    }
    let (vtype, _current) = match read_env_var(store, name) {
        Ok(p) => p,
        Err(e) => {
            return Err(attach_read_context(e, hive, name));
        },
    };
    if !EnvValueKind::from_reg_type(vtype).is_writable() {
        let m = concat2(name, " 的注册表类型不受支持，无法修改（仅可查看）");
        return Err(
            CoreError::new(ErrorCode::UnsupportedType, "update_env_var_force", m.as_str()).with_target(
                hive,
                name,
            ),
        );
    }
    match validate_env_value(value, name) {
        Ok(()) => {},
        Err(m) => {
            return Err(
                CoreError::new(ErrorCode::InvalidValue, "update_env_var_force", m.as_str()).with_target(
                    hive,
                    name,
                ),
            );
        },
    }
    match write_env_var(store, name, value, vtype) {
        Ok(()) => Ok(()),
        Err(e) => Err(e.with_target(hive, name)),
    }
}

/// Deletes a variable if the caller's revision is still current.
pub fn delete_env_var_in_store(
    store: &mut MemoryHive,
    hive: EnvHive,
    name: &str,
    expected_revision: &str,
) -> (r: Result<(), CoreError>)
    ensures
        write_matches(
            delete_outcome(
                old(store).entries(),
                old(store).fail_get_spec(),
                name@,
                expected_revision@,
            ),
            r,
            old(store).entries(),
            final(store).entries(),
        ),
        final(store).same_switches(*old(store)),
        r matches Err(e) ==> targets(
            e,
            stage_op(
                checked_read_failed(old(store).entries(), old(store).fail_get_spec(), name@),
                "delete_env_var"@,
            ),
            hive,
            name@,
        ),
        r matches Err(e) ==> e.retryable == (e.code == ErrorCode::Conflict) && e.message@
            == delete_error_message(old(store).entries(), old(store).fail_get_spec(), hive, name@),
{
    match check_name_rules(hive, name, "delete_env_var", " 由专用 PATH 通路管理，请使用 PATH 视图编辑", "不允许删除") {
        Ok(()) => {},
        Err(e) => {
            return Err(e);
        },
    }
    let (vtype, current) = match read_env_var(store, name) {
        Ok(p) => p,
        Err(e) => {
            return Err(attach_read_context(e, hive, name));
        },
    };
    let current_revision = revision_of(name, vtype, current.as_str());
    if !str_eq(current_revision.as_str(), expected_revision) {
        return Err(conflict_error("delete_env_var", hive, name));
    }
    if EnvValueKind::from_reg_type(vtype) == EnvValueKind::Unsupported {
        let m = concat2(name, " 的注册表类型不受支持，无法删除");
        return Err(
            CoreError::new(ErrorCode::UnsupportedType, "delete_env_var", m.as_str()).with_target(
                hive,
                name,
            ),
        );
    }
    proof {
        lemma_find(old(store).entries(), name@);
    }
    match store.delete_value(name) {
        Ok(()) => Ok(()),
        Err(m) => Err(
            CoreError::new(ErrorCode::Io, "delete_env_var", m.as_str()).with_target(hive, name),
        ),
    }
}

/// Deletes a variable whatever its revision; every other check applies.
pub fn delete_env_var_force_in_store(store: &mut MemoryHive, hive: EnvHive, name: &str) -> (r: Result<
    (),
    CoreError,
>)
    ensures
        write_matches(
            delete_force_outcome(old(store).entries(), old(store).fail_get_spec(), name@),
            r,
            old(store).entries(),
            final(store).entries(),
        ),
        final(store).same_switches(*old(store)),
        r matches Err(e) ==> targets(
            e,
            stage_op(
                checked_read_failed(old(store).entries(), old(store).fail_get_spec(), name@),
                "delete_env_var_force"@,
            ),
            hive,
            name@,
        ),
        r matches Err(e) ==> !e.retryable && e.message@ == checked_read_message(
            old(store).entries(),
            old(store).fail_get_spec(),
            hive,
            name@,
            "不允许删除"@,
        ),
{
    match check_name_rules(hive, name, "delete_env_var_force", " 由专用 PATH 通路管理，请使用 PATH 视图编辑", "不允许删除") {
        Ok(()) => {},
        Err(e) => {
            return Err(e);
        },
    }
    let (vtype, _current) = match read_env_var(store, name) {
        Ok(p) => p,
        Err(e) => {
            return Err(attach_read_context(e, hive, name));
        },
    };
    if EnvValueKind::from_reg_type(vtype) == EnvValueKind::Unsupported {
        let m = concat2(name, " 的注册表类型不受支持，无法删除");
        return Err(
            CoreError::new(ErrorCode::UnsupportedType, "delete_env_var_force", m.as_str()).with_target(
                hive,
                name,
            ),
        );
    }
    proof {
        lemma_find(old(store).entries(), name@);
    }
    match store.delete_value(name) {
        Ok(()) => Ok(()),
        Err(m) => Err(
            CoreError::new(ErrorCode::Io, "delete_env_var_force", m.as_str()).with_target(hive, name),
        ),
    }
}

/// Whether some name in the list equals `name` up to ASCII case.
fn any_name_matches(names: &Vec<String>, name: &str) -> (r: bool)
    ensures
        r == exists|j: int| 0 <= j < names@.len() && eq_ignore_case(#[trigger] names@[j]@, name@),
{
    let mut i: usize = 0;
    while i < names.len()
        invariant
            0 <= i <= names.len(),
            forall|j: int| 0 <= j < i ==> !eq_ignore_case(#[trigger] names@[j]@, name@),
        decreases names.len() - i,
    {
        if eq_ignore_ascii_case(names[i].as_str(), name) {
            return true;
        }
        i = i + 1;
    }
    false
}

/// Creates a variable of the given kind. An existing variable of the same
/// name in any ASCII case is never overwritten. The existence check and the
/// write are separate steps.
pub fn create_env_var_in_store(
    store: &mut MemoryHive,
    hive: EnvHive,
    name: &str,
    value: &str,
    kind: EnvValueKind,
) -> (r: Result<(), CoreError>)
    ensures
        write_matches(
            create_outcome(old(store).entries(), old(store).fail_enum_spec(), name@, value@, kind),
            r,
            old(store).entries(),
            final(store).entries(),
        ),
        final(store).same_switches(*old(store)),
        r matches Err(e) ==> targets(e, "create_env_var"@, hive, name@),
        r matches Err(e) ==> !e.retryable && e.message@ == create_error_message(
            old(store).fail_enum_spec(),
            name@,
            value@,
            kind,
        ),
{
    match check_name_rules(hive, name, "create_env_var", " 由专用 PATH 通路管理，无法通过通用通路创建", "不允许覆盖") {
        Ok(()) => {},
        Err(e) => {
            return Err(e);
        },
    }
    if !kind.is_writable() {
        return Err(
            CoreError::new(
                ErrorCode::UnsupportedType,
                "create_env_var",
                "新建变量只支持 String 或 ExpandString 类型",
            ).with_target(hive, name),
        );
    }
    match validate_env_value(value, name) {
        Ok(()) => {},
        Err(m) => {
            return Err(
                CoreError::new(ErrorCode::InvalidValue, "create_env_var", m.as_str()).with_target(
                    hive,
                    name,
                ),
            );
        },
    }
    let names = match store.enum_names() {
        Ok(n) => n,
        Err(m) => {
            return Err(
                CoreError::new(ErrorCode::Io, "create_env_var", m.as_str()).with_target(hive, name),
            );
        },
    };
    let existing = any_name_matches(&names, name);
    proof {
        let es = old(store).entries();
        lemma_find(es, name@);
        assert(names@.len() == es.len()) by {
            assert(names@.map_values(|s: String| s@).len() == es.map_values(|e: EntryView| e.0).len());
        }
        assert forall|j: int| 0 <= j < es.len() implies names@[j]@ == (#[trigger] es[j]).0 by {
            assert(names@.map_values(|s: String| s@)[j] == es.map_values(|e: EntryView| e.0)[j]);
        }
        if find(es, name@) >= 0 {
            let k = find(es, name@);
            assert(names@[k]@ == es[k].0);
        }
        if existing {
            let j = choose|j: int| 0 <= j < names@.len() && eq_ignore_case(#[trigger] names@[j]@, name@);
            assert(names@[j]@ == es[j].0);
            assert(crate::reg_store::name_matches(es[j], name@));
        }
    }
    if existing {
        let m = concat3("变量 ", name, " 已存在，请使用编辑功能");
        return Err(
            CoreError::new(ErrorCode::NameExists, "create_env_var", m.as_str()).with_target(hive, name),
        );
    }
    let vtype = match kind {
        EnvValueKind::String => REG_SZ,
        _ => REG_EXPAND_SZ,
    };
    match write_env_var(store, name, value, vtype) {
        Ok(()) => Ok(()),
        Err(e) => Err(e.with_target(hive, name)),
    }
}

} // verus!
