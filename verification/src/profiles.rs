//! Named PATH profiles: the naming rules, and what saving, loading,
//! renaming and listing decide. Files are read and written by the caller.

use crate::error::{CoreError, ErrorCode};
use crate::order::{is_permutation, sorts_stably, stable_order, text_lt};
use crate::path_entry::{entries_view, PathEntry};
use crate::text::{chars_of, concat2, contains_chars, contains_seq, copy_string, occurs_at, strings_view};
use vstd::prelude::*;

verus! {

/// Profile entries are ordinary PATH entries.
pub type ProfilePathEntry = PathEntry;

/// What a profile listing shows of one profile.
#[derive(Debug, Clone, PartialEq, Eq)]
pub struct ProfileMeta {
    pub name: String,
    pub created: String,
    pub modified: String,
}

/// A stored profile.
#[derive(Debug, Clone, PartialEq, Eq)]
pub struct ProfileData {
    pub name: String,
    pub sys: Vec<ProfilePathEntry>,
    pub user: Vec<ProfilePathEntry>,
    pub created: String,
    pub modified: String,
}

/// A profile as plain values: name, system entries, user entries,
/// creation time, modification time.
pub type ProfileView = (Seq<char>, Seq<(Seq<char>, bool)>, Seq<(Seq<char>, bool)>, Seq<char>, Seq<char>);

pub open spec fn profile_view(d: ProfileData) -> ProfileView {
    (d.name@, entries_view(d.sys@), entries_view(d.user@), d.created@, d.modified@)
}

/// The profile a save writes: the given lists, the creation time of the
/// profile it replaces (if that could be read) or `now`, modified `now`.
pub open spec fn saved_profile_view(
    name: Seq<char>,
    sys: Seq<(Seq<char>, bool)>,
    user: Seq<(Seq<char>, bool)>,
    existing_created: Option<Seq<char>>,
    now: Seq<char>,
) -> ProfileView {
    (name, sys, user, match existing_created {
        Some(c) => c,
        None => now,
    }, now)
}

/// A profile after a rename: the new name and modification time.
pub open spec fn renamed_profile_view(d: ProfileView, new_name: Seq<char>, now: Seq<char>) -> ProfileView {
    (new_name, d.1, d.2, d.3, now)
}

// ───────────────────────── names ─────────────────────────

/// A control character (`Cc`): U+0000–U+001F and U+007F–U+009F.
pub open spec fn is_control_char(c: char) -> bool {
    c <= '\u{1f}' || ('\u{7f}' <= c && c <= '\u{9f}')
}

/// Characters a file name may not hold on Windows.
pub open spec fn is_reserved_name_char(c: char) -> bool {
    c == '<' || c == '>' || c == ':' || c == '"' || c == '|' || c == '?' || c == '*'
}

pub open spec fn illegal_name_message() -> Seq<char> {
    "配置名称包含非法字符"@
}

/// Why a profile name is refused, if it is. The length limit counts UTF-8
/// bytes.
pub open spec fn profile_name_error(name: Seq<char>) -> Option<Seq<char>> {
    if name.len() == 0 {
        Some("配置名称不能为空"@)
    } else if (vstd::utf8::encode_utf8(name).len() as usize) > 255 {
        Some("配置名称过长（最大 255 字符）"@)
    } else if exists|i: int| 0 <= i < name.len() && is_control_char(#[trigger] name[i]) {
        Some(illegal_name_message())
    } else if name.contains('/') || name.contains('\\') || contains_seq(name, ".."@) {
        Some(illegal_name_message())
    } else if exists|i: int| 0 <= i < name.len() && is_reserved_name_char(#[trigger] name[i]) {
        Some(illegal_name_message())
    } else {
        None
    }
}

fn name_error(message: &str) -> (r: CoreError)
    ensures
        r.code == ErrorCode::InvalidName,
        r.operation@ == "validate_profile_name"@,
        r.message@ == message@,
        r.hive is None,
        r.name is None,
{
    CoreError::new(ErrorCode::InvalidName, "validate_profile_name", message)
}

/// A profile name becomes a file name: it must not be blank, longer than
/// 255 bytes, hold control characters, path separators, `..`, or any of
/// `<>:"|?*`.
pub fn validate_profile_name(name: &str) -> (r: Result<(), CoreError>)
    ensures
        r is Ok <==> profile_name_error(name@) is None,
        r matches Err(e) ==> {
            &&& Some(e.message@) == profile_name_error(name@)
            &&& e.code == ErrorCode::InvalidName
            &&& e.operation@ == "validate_profile_name"@
        },
{
    if name.is_empty() {
        return Err(name_error("配置名称不能为空"));
    }
    if name.len() > 255 {
        return Err(name_error("配置名称过长（最大 255 字符）"));
    }
    let cs = chars_of(name);
    let mut i: usize = 0;
    while i < cs.len()
        invariant
            cs@ == name@,
            name@.len() != 0,
            (vstd::utf8::encode_utf8(name@).len() as usize) <= 255,
            0 <= i <= cs.len(),
            forall|j: int| 0 <= j < i ==> !is_control_char(#[trigger] cs@[j]),
        decreases cs.len() - i,
    {
        let c = cs[i];
        if c <= '\u{1f}' || ('\u{7f}' <= c && c <= '\u{9f}') {
            assert(is_control_char(name@[i as int]));
            return Err(name_error("配置名称包含非法字符"));
        }
        i = i + 1;
    }
    let dots: Vec<char> = vec!['.', '.'];
    assert(dots@ =~= ".."@) by {
        reveal_strlit("..");
    }
    if crate::text::contains_char(&cs, '/') || crate::text::contains_char(&cs, '\\') || contains_chars(
        &cs,
        &dots,
    ) {
        return Err(name_error("配置名称包含非法字符"));
    }
    let mut i: usize = 0;
    while i < cs.len()
        invariant
            cs@ == name@,
            name@.len() != 0,
            (vstd::utf8::encode_utf8(name@).len() as usize) <= 255,
            0 <= i <= cs.len(),
            forall|j: int| 0 <= j < i ==> !is_reserved_name_char(#[trigger] cs@[j]),
            forall|j: int| 0 <= j < cs.len() ==> !is_control_char(#[trigger] cs@[j]),
            !(name@.contains('/') || name@.contains('\\') || contains_seq(name@, ".."@)),
        decreases cs.len() - i,
    {
        let c = cs[i];
        if c == '<' || c == '>' || c == ':' || c == '"' || c == '|' || c == '?' || c == '*' {
            assert(is_reserved_name_char(name@[i as int]));
            return Err(name_error("配置名称包含非法字符"));
        }
        i = i + 1;
    }
    Ok(())
}

/// The file that stores a profile: `<name>.json`.
pub fn profile_file_name(name: &str) -> (r: String)
    ensures
        r@ == name@ + ".json"@,
{
    concat2(name, ".json")
}

// ───────────────────────── load, save, rename ─────────────────────────

/// The checks before a profile is read: a valid name, then an existing
/// file (`NotFound` otherwise).
pub fn check_load_profile(name: &str, exists: bool) -> (r: Result<(), CoreError>)
    ensures
        r is Ok <==> profile_name_error(name@) is None && exists,
        r matches Err(e) ==> (if profile_name_error(name@) is Some {
            e.code == ErrorCode::InvalidName
        } else {
            &&& e.code == ErrorCode::NotFound
            &&& e.operation@ == "load_profile"@
            &&& e.message@ == "配置文件不存在: "@ + name@
        }),
{
    match validate_profile_name(name) {
        Ok(()) => {},
        Err(e) => {
            return Err(e);
        },
    }
    if !exists {
        let m = concat2("配置文件不存在: ", name);
        return Err(CoreError::new(ErrorCode::NotFound, "load_profile", m.as_str()));
    }
    Ok(())
}

/// The profile to write when saving: a valid name, the given lists, the
/// creation time of the profile it replaces (if that could be read) or
/// `now`, and `now` as its modification time.
pub fn prepare_saved_profile(
    name: &str,
    sys: Vec<ProfilePathEntry>,
    user: Vec<ProfilePathEntry>,
    existing_created: Option<String>,
    now: &str,
) -> (r: Result<ProfileData, CoreError>)
    ensures
        r is Ok <==> profile_name_error(name@) is None,
        r matches Err(e) ==> e.code == ErrorCode::InvalidName,
        r matches Ok(d) ==> {
            &&& d.name@ == name@
            &&& d.sys@ == sys@
            &&& d.user@ == user@
            &&& d.created@ == (match existing_created {
                Some(c) => c@,
                None => now@,
            })
            &&& d.modified@ == now@
            &&& profile_view(d) == saved_profile_view(
                name@,
                entries_view(sys@),
                entries_view(user@),
                match existing_created {
                    Some(c) => Some(c@),
                    None => None,
                },
                now@,
            )
        },
{
    match validate_profile_name(name) {
        Ok(()) => {},
        Err(e) => {
            return Err(e);
        },
    }
    let created = match existing_created {
        Some(c) => c,
        None => now.to_owned(),
    };
    Ok(ProfileData { name: name.to_owned(), sys, user, created, modified: now.to_owned() })
}

/// The checks before a rename: both names valid, the old profile present,
/// and the new name free unless it is the old one.
pub fn check_rename_profile(old_name: &str, new_name: &str, old_exists: bool, new_exists: bool) -> (r:
    Result<(), CoreError>)
    ensures
        r is Ok <==> profile_name_error(old_name@) is None && profile_name_error(new_name@) is None
            && old_exists && !(old_name@ != new_name@ && new_exists),
        r matches Err(e) ==> (if profile_name_error(old_name@) is Some || profile_name_error(
            new_name@,
        ) is Some {
            e.code == ErrorCode::InvalidName
        } else if !old_exists {
            e.code == ErrorCode::NotFound && e.message@ == "配置文件不存在: "@ + old_name@
        } else {
            e.code == ErrorCode::NameExists && e.message@ == "目标配置名已存在: "@ + new_name@
        }),
{
    match validate_profile_name(old_name) {
        Ok(()) => {},
        Err(e) => {
            return Err(e);
        },
    }
    match validate_profile_name(new_name) {
        Ok(()) => {},
        Err(e) => {
            return Err(e);
        },
    }
    if !old_exists {
        let m = concat2("配置文件不存在: ", old_name);
        return Err(CoreError::new(ErrorCode::NotFound, "rename_profile", m.as_str()));
    }
    if !crate::text::str_eq(old_name, new_name) && new_exists {
        let m = concat2("目标配置名已存在: ", new_name);
        return Err(CoreError::new(ErrorCode::NameExists, "rename_profile", m.as_str()));
    }
    Ok(())
}

/// A renamed profile: the new name and modification time, everything else
/// kept.
pub fn rename_profile_data(data: ProfileData, new_name: &str, now: &str) -> (r: ProfileData)
    ensures
        r.name@ == new_name@,
        r.modified@ == now@,
        r.created == data.created,
        r.sys == data.sys,
        r.user == data.user,
        profile_view(r) == renamed_profile_view(profile_view(data), new_name@, now@),
{
    let mut d = data;
    d.name = new_name.to_owned();
    d.modified = now.to_owned();
    d
}

// ───────────────────────── listing ─────────────────────────

/// A profile file that could be decoded: its schema version and metadata.
#[derive(Debug, Clone, PartialEq, Eq)]
pub struct ProfileCandidate {
    pub schema_version: u32,
    pub meta: ProfileMeta,
}

pub type MetaTriple = (Seq<char>, Seq<char>, Seq<char>);

pub open spec fn meta_view(m: ProfileMeta) -> MetaTriple {
    (m.name@, m.created@, m.modified@)
}

/// The metadata of the readable candidates (version 1 or older), in order.
pub open spec fn readable_metas(cs: Seq<ProfileCandidate>) -> Seq<MetaTriple>
    decreases cs.len(),
{
    if cs.len() == 0 {
        Seq::empty()
    } else if cs.last().schema_version <= crate::persist::PERSIST_SCHEMA_VERSION {
        readable_metas(cs.drop_last()).push(meta_view(cs.last().meta))
    } else {
        readable_metas(cs.drop_last())
    }
}

/// `r` lists the profiles of `s` once each, sorted by name; profiles of
/// the same name keep their relative order.
pub open spec fn sorted_by_name(r: Seq<MetaTriple>, s: Seq<MetaTriple>) -> bool {
    &&& r.len() == s.len()
    &&& exists|order: Seq<usize>|
        is_permutation(order, s.len() as int) && sorts_stably(
            order,
            s.map_values(|m: MetaTriple| m.0),
        ) && forall|i: int| 0 <= i < r.len() ==> #[trigger] r[i] == s[order[i] as int]
}

/// The profile listing: candidates written by a newer version are skipped,
/// the rest sorted by name.
pub fn list_profiles(candidates: Vec<ProfileCandidate>) -> (r: Vec<ProfileMeta>)
    ensures
        sorted_by_name(r@.map_values(|m: ProfileMeta| meta_view(m)), readable_metas(candidates@)),
{
    let ghost rm = readable_metas(candidates@);
    let mut kept: Vec<ProfileMeta> = Vec::new();
    let mut names: Vec<String> = Vec::new();
    let mut i: usize = 0;
    while i < candidates.len()
        invariant
            0 <= i <= candidates.len(),
            kept@.map_values(|m: ProfileMeta| meta_view(m)) == readable_metas(candidates@.take(i as int)),
            names@.len() == kept@.len(),
            forall|a: int| 0 <= a < names@.len() ==> #[trigger] names@[a]@ == kept@[a].name@,
        decreases candidates.len() - i,
    {
        assert(candidates@.take(i + 1).drop_last() =~= candidates@.take(i as int));
        assert(candidates@.take(i + 1).last() == candidates@[i as int]);
        if candidates[i].schema_version <= crate::persist::PERSIST_SCHEMA_VERSION {
            let m = ProfileMeta {
                name: copy_string(&candidates[i].meta.name),
                created: copy_string(&candidates[i].meta.created),
                modified: copy_string(&candidates[i].meta.modified),
            };
            let ghost before = kept@;
            kept.push(m);
            names.push(copy_string(&candidates[i].meta.name));
            assert(kept@.map_values(|m: ProfileMeta| meta_view(m)) =~= before.map_values(
                |m: ProfileMeta| meta_view(m),
            ).push(meta_view(m)));
        }
        i = i + 1;
    }
    assert(candidates@.take(candidates.len() as int) =~= candidates@);
    let ghost kv = kept@.map_values(|m: ProfileMeta| meta_view(m));
    assert(strings_view(names@) =~= kv.map_values(|m: MetaTriple| m.0)) by {
        assert forall|a: int| 0 <= a < names@.len() implies strings_view(names@)[a] == kv.map_values(
            |m: MetaTriple| m.0,
        )[a] by {
            assert(kv[a] == meta_view(kept@[a]));
        }
    }
    let order = stable_order(&names);
    let mut out: Vec<ProfileMeta> = Vec::new();
    let mut t: usize = 0;
    while t < order.len()
        invariant
            0 <= t <= order.len(),
            is_permutation(order@, names@.len() as int),
            names@.len() == kept@.len(),
            out@.len() == t,
            forall|a: int| 0 <= a < t ==> meta_view(#[trigger] out@[a]) == meta_view(kept@[order@[a] as int]),
        decreases order.len() - t,
    {
        let src = &kept[order[t]];
        out.push(
            ProfileMeta {
                name: copy_string(&src.name),
                created: copy_string(&src.created),
                modified: copy_string(&src.modified),
            },
        );
        t = t + 1;
    }
    proof {
        let ov = out@.map_values(|m: ProfileMeta| meta_view(m));
        let w = order@;
        assert forall|a: int| 0 <= a < ov.len() implies #[trigger] ov[a] == kv[w[a] as int] by {
            assert(ov[a] == meta_view(out@[a]));
        }
        assert(is_permutation(w, kv.len() as int) && sorts_stably(w, kv.map_values(|m: MetaTriple| m.0))
            && forall|a: int| 0 <= a < ov.len() ==> #[trigger] ov[a] == kv[w[a] as int]);
    }
    out
}


/// A valid profile name cannot leave the profiles directory: it has no
/// separator and no `..`, and it is never empty.
pub proof fn law_valid_names_stay_in_directory(name: Seq<char>)
    requires
        profile_name_error(name) is None,
    ensures
        name.len() > 0,
        !name.contains('/'),
        !name.contains('\\'),
        !contains_seq(name, ".."@),
{
}

/// Whether a character may stand in a profile name: not a control
/// character (U+0000–U+001F, U+007F–U+009F), not a path separator, and
/// none of `<>:"|?*`.
pub open spec fn allowed_name_char(c: char) -> bool {
    &&& !(c <= '\u{1f}' || ('\u{7f}' <= c && c <= '\u{9f}'))
    &&& c != '/' && c != '\\'
    &&& c != '<' && c != '>' && c != ':' && c != '"' && c != '|' && c != '?' && c != '*'
}

/// What a profile name may be: a name of 1 to 255 UTF-8 bytes whose every
/// character is allowed and that has no two dots in a row is accepted (a
/// single dot, as in `jdk1.8`, is fine); an accepted name is never empty,
/// holds only allowed characters and never two dots in a row.
pub proof fn law_profile_name_rules(name: Seq<char>)
    ensures
        (name.len() > 0 && vstd::utf8::encode_utf8(name).len() <= 255 && (forall|i: int|
            0 <= i < name.len() ==> allowed_name_char(#[trigger] name[i])) && (forall|i: int|
            0 <= i < name.len() - 1 ==> !(#[trigger] name[i] == '.' && name[i + 1] == '.')))
            ==> profile_name_error(name) is None,
        profile_name_error(name) is None ==> {
            &&& name.len() > 0
            &&& forall|i: int| 0 <= i < name.len() ==> allowed_name_char(#[trigger] name[i])
            &&& forall|i: int| 0 <= i < name.len() - 1 ==> !(#[trigger] name[i] == '.' && name[i + 1] == '.')
        },
{
    reveal_strlit("..");
    let dd = ".."@;
    assert(dd.len() == 2 && dd[0] == '.' && dd[1] == '.');
    if forall|i: int| 0 <= i < name.len() - 1 ==> !(#[trigger] name[i] == '.' && name[i + 1] == '.') {
        assert forall|i: int| !occurs_at(name, dd, i) by {
            if occurs_at(name, dd, i) {
                let sub = name.subrange(i, i + 2);
                assert(sub[0] == name[i] && sub[1] == name[i + 1]);
            }
        }
        assert(!contains_seq(name, dd));
    }
    assert forall|i: int| 0 <= i < name.len() - 1 && #[trigger] name[i] == '.' && name[i + 1] == '.' implies contains_seq(name, dd) by {
        assert(name.subrange(i, i + 2) =~= dd);
        assert(occurs_at(name, dd, i));
    }
    if forall|i: int| 0 <= i < name.len() ==> allowed_name_char(#[trigger] name[i]) {
        assert(!name.contains('/'));
        assert(!name.contains('\\'));
    }
    if profile_name_error(name) is None {
        assert forall|i: int| 0 <= i < name.len() implies allowed_name_char(#[trigger] name[i]) by {
            assert(!is_control_char(name[i]));
            assert(!is_reserved_name_char(name[i]));
            assert(name[i] != '/');
            assert(name[i] != '\\');
        }
    }
}

} // verus!
