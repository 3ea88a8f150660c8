//! The versioned files as the library's functions see them: a directory is
//! a map from file name to the schema version and the decoded content of
//! each file. Writing keeps the previous file as `<name>.bak` and stamps
//! the current schema version; reading refuses a newer version as `migrate`
//! does. The laws below say what saving, loading and renaming give back
//! through these steps; the program performs them on disk in this order.

use crate::disabled::DisabledState;
use crate::error::ErrorCode;
use crate::path_entry::{entries_view, PathSnapshot};
use crate::persist::PERSIST_SCHEMA_VERSION;
use crate::profiles::{
    profile_name_error, renamed_profile_view, saved_profile_view, ProfileView,
};
use crate::text::strings_view;
use vstd::prelude::*;

verus! {

/// The files of one directory: name to (schema version, content).
pub type FileDir<V> = Map<Seq<char>, (u32, V)>;

/// Where a replaced file is kept.
pub open spec fn bak_name(name: Seq<char>) -> Seq<char> {
    name + ".bak"@
}

/// Writing a file: an existing one is first kept as `<name>.bak`.
pub open spec fn dir_write<V>(d: FileDir<V>, name: Seq<char>, v: V) -> FileDir<V> {
    let kept = if d.dom().contains(name) {
        d.insert(bak_name(name), d[name])
    } else {
        d
    };
    kept.insert(name, (PERSIST_SCHEMA_VERSION, v))
}

/// Reading a file: nothing when it is absent, a `Parse` refusal when a
/// newer version wrote it, else its content.
pub open spec fn dir_read<V>(d: FileDir<V>, name: Seq<char>) -> Result<Option<V>, ErrorCode> {
    if !d.dom().contains(name) {
        Ok(None)
    } else if d[name].0 > PERSIST_SCHEMA_VERSION {
        Err(ErrorCode::Parse)
    } else {
        Ok(Some(d[name].1))
    }
}

// ───────────────────────── disabled state and pending snapshot ─────────────────────────

/// The disabled-state file.
pub open spec fn disabled_file() -> Seq<char> {
    "disabled.json"@
}

/// The pending-snapshot file.
pub open spec fn pending_file() -> Seq<char> {
    "pending_path_snapshot.json"@
}

pub type DisabledView = (Seq<Seq<char>>, Seq<Seq<char>>, Seq<(Seq<char>, bool)>, Seq<(Seq<char>, bool)>);

pub open spec fn disabled_view(s: DisabledState) -> DisabledView {
    (strings_view(s.system@), strings_view(s.user@), entries_view(s.system_snapshot@), entries_view(s.user_snapshot@))
}

pub type SnapshotView = (Seq<(Seq<char>, bool)>, Seq<(Seq<char>, bool)>);

pub open spec fn snapshot_view(s: PathSnapshot) -> SnapshotView {
    (entries_view(s.system@), entries_view(s.user@))
}

/// Saving the disabled lists and loading them again: the state that
/// `save_disabled_state` leaves (`after`, from `before`), once written, reads
/// back with both lists as given and both snapshots kept, under the current
/// schema version, and the file it replaced is kept as `disabled.json.bak`.
pub proof fn law_disabled_state_round_trip(
    d: FileDir<DisabledView>,
    before: DisabledState,
    after: DisabledState,
    system: Seq<Seq<char>>,
    user: Seq<Seq<char>>,
)
    requires
        strings_view(after.system@) == system,
        strings_view(after.user@) == user,
        after.system_snapshot@ == before.system_snapshot@,
        after.user_snapshot@ == before.user_snapshot@,
    ensures
        ({
            let d2 = dir_write(d, disabled_file(), disabled_view(after));
            &&& dir_read(d2, disabled_file()) matches Ok(Some(v)) && v.0 == system && v.1 == user
                && v.2 == entries_view(before.system_snapshot@) && v.3 == entries_view(before.user_snapshot@)
            &&& d2[disabled_file()].0 == PERSIST_SCHEMA_VERSION
            &&& d.dom().contains(disabled_file()) ==> d2[bak_name(disabled_file())] == d[disabled_file()]
        }),
{
    lemma_bak_differs(disabled_file());
}

/// Saving a pending snapshot and loading it again: what `pending_snapshot`
/// built (`snap`, a hive not given recorded empty) reads back as written,
/// replacing rather than merging with the earlier file, which is kept as
/// `<name>.bak`.
pub proof fn law_pending_snapshot_round_trip(
    d: FileDir<SnapshotView>,
    system: Option<Seq<(Seq<char>, bool)>>,
    user: Option<Seq<(Seq<char>, bool)>>,
    snap: PathSnapshot,
)
    requires
        entries_view(snap.system@) == (match system {
            Some(v) => v,
            None => Seq::<(Seq<char>, bool)>::empty(),
        }),
        entries_view(snap.user@) == (match user {
            Some(v) => v,
            None => Seq::<(Seq<char>, bool)>::empty(),
        }),
    ensures
        ({
            let d2 = dir_write(d, pending_file(), snapshot_view(snap));
            &&& dir_read(d2, pending_file()) == Ok::<Option<SnapshotView>, ErrorCode>(
                Some((
                    match system {
                        Some(v) => v,
                        None => Seq::<(Seq<char>, bool)>::empty(),
                    },
                    match user {
                        Some(v) => v,
                        None => Seq::<(Seq<char>, bool)>::empty(),
                    },
                )),
            )
            &&& d.dom().contains(pending_file()) ==> d2[bak_name(pending_file())] == d[pending_file()]
        }),
{
    lemma_bak_differs(pending_file());
}

/// A file and its `.bak` are different files.
pub proof fn lemma_bak_differs(name: Seq<char>)
    ensures
        bak_name(name) != name,
{
    reveal_strlit(".bak");
    assert(bak_name(name).len() == name.len() + 4);
}

// ───────────────────────── profiles ─────────────────────────

/// The file of a profile.
pub open spec fn profile_file(name: Seq<char>) -> Seq<char> {
    name + ".json"@
}

/// Different profile names have different files.
pub proof fn lemma_profile_file_injective(a: Seq<char>, b: Seq<char>)
    ensures
        profile_file(a) == profile_file(b) ==> a == b,
{
    reveal_strlit(".json");
    assert(profile_file(a).len() == a.len() + 5);
    assert(profile_file(b).len() == b.len() + 5);
    if profile_file(a) == profile_file(b) {
        assert(a.len() == b.len());
        assert(a =~= profile_file(a).subrange(0, a.len() as int));
        assert(b =~= profile_file(b).subrange(0, b.len() as int));
    }
}

/// Saving a profile: the name is checked, the creation time of the
/// profile it replaces is kept when that one can be read, and the file is
/// written (the previous one kept as `.bak`).
pub open spec fn profile_save_spec(
    d: FileDir<ProfileView>,
    name: Seq<char>,
    sys: Seq<(Seq<char>, bool)>,
    user: Seq<(Seq<char>, bool)>,
    now: Seq<char>,
) -> Result<FileDir<ProfileView>, ErrorCode> {
    if profile_name_error(name) is Some {
        Err(ErrorCode::InvalidName)
    } else {
        let existing = match dir_read(d, profile_file(name)) {
            Ok(Some(p)) => Some(p.3),
            _ => None,
        };
        Ok(dir_write(d, profile_file(name), saved_profile_view(name, sys, user, existing, now)))
    }
}

/// Loading a profile: the name is checked, a missing file is `NotFound`,
/// then the file is read.
pub open spec fn profile_load_spec(d: FileDir<ProfileView>, name: Seq<char>) -> Result<ProfileView, ErrorCode> {
    if profile_name_error(name) is Some {
        Err(ErrorCode::InvalidName)
    } else if !d.dom().contains(profile_file(name)) {
        Err(ErrorCode::NotFound)
    } else {
        match dir_read(d, profile_file(name)) {
            Ok(Some(p)) => Ok(p),
            Ok(None) => Err(ErrorCode::NotFound),
            Err(c) => Err(c),
        }
    }
}

/// Renaming a profile: the checks of `check_rename_profile`, then the old
/// profile is read, written under the new name with the new name and time,
/// and its old file removed (unless the name is unchanged).
pub open spec fn profile_rename_spec(
    d: FileDir<ProfileView>,
    old_name: Seq<char>,
    new_name: Seq<char>,
    now: Seq<char>,
) -> Result<FileDir<ProfileView>, ErrorCode> {
    if profile_name_error(old_name) is Some || profile_name_error(new_name) is Some {
        Err(ErrorCode::InvalidName)
    } else if !d.dom().contains(profile_file(old_name)) {
        Err(ErrorCode::NotFound)
    } else if old_name != new_name && d.dom().contains(profile_file(new_name)) {
        Err(ErrorCode::NameExists)
    } else {
        match dir_read(d, profile_file(old_name)) {
            Ok(Some(p)) => {
                let d1 = dir_write(d, profile_file(new_name), renamed_profile_view(p, new_name, now));
                Ok(
                    if old_name != new_name {
                        d1.remove(profile_file(old_name))
                    } else {
                        d1
                    },
                )
            },
            Ok(None) => Err(ErrorCode::NotFound),
            Err(c) => Err(c),
        }
    }
}

/// After a rename to a new, free name, the old name is gone (`NotFound`)
/// and the new one loads the same lists and creation time under the new
/// name.
pub proof fn law_rename_then_load(
    d: FileDir<ProfileView>,
    old_name: Seq<char>,
    new_name: Seq<char>,
    now: Seq<char>,
)
    requires
        profile_name_error(old_name) is None,
        profile_name_error(new_name) is None,
        old_name != new_name,
        d.dom().contains(profile_file(old_name)),
        d[profile_file(old_name)].0 <= PERSIST_SCHEMA_VERSION,
        !d.dom().contains(profile_file(new_name)),
    ensures
        profile_rename_spec(d, old_name, new_name, now) matches Ok(d2) && {
            let p = d[profile_file(old_name)].1;
            &&& profile_load_spec(d2, old_name) == Err::<ProfileView, ErrorCode>(ErrorCode::NotFound)
            &&& profile_load_spec(d2, new_name) == Ok::<ProfileView, ErrorCode>(
                (new_name, p.1, p.2, p.3, now),
            )
        },
{
    lemma_profile_file_injective(old_name, new_name);
    lemma_bak_differs(profile_file(new_name));
}

/// Saving a profile twice: the second save keeps the first file as `.bak`,
/// and loading gives the second lists with the first save's creation time.
pub proof fn law_second_save_keeps_first(
    d: FileDir<ProfileView>,
    name: Seq<char>,
    sys1: Seq<(Seq<char>, bool)>,
    user1: Seq<(Seq<char>, bool)>,
    now1: Seq<char>,
    sys2: Seq<(Seq<char>, bool)>,
    user2: Seq<(Seq<char>, bool)>,
    now2: Seq<char>,
)
    requires
        profile_name_error(name) is None,
        !d.dom().contains(profile_file(name)),
    ensures
        profile_save_spec(d, name, sys1, user1, now1) matches Ok(d1) && profile_save_spec(
            d1,
            name,
            sys2,
            user2,
            now2,
        ) matches Ok(d2) && {
            &&& !d1.dom().contains(bak_name(profile_file(name))) || d.dom().contains(
                bak_name(profile_file(name)),
            )
            &&& d2[bak_name(profile_file(name))] == (PERSIST_SCHEMA_VERSION, (name, sys1, user1, now1, now1))
            &&& profile_load_spec(d2, name) == Ok::<ProfileView, ErrorCode>(
                (name, sys2, user2, now1, now2),
            )
        },
{
    lemma_bak_differs(profile_file(name));
}

} // verus!
