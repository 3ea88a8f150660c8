//! Where each environment hive lives and how it is named to the user.

use crate::env_var::EnvHive;
use vstd::prelude::*;

verus! {

/// Registry sub-key of the machine-wide environment (under HKLM).
pub const SYS_REG_PATH: &'static str = "SYSTEM\\CurrentControlSet\\Control\\Session Manager\\Environment";

/// Registry sub-key of the per-user environment (under HKCU).
pub const USER_REG_PATH: &'static str = "Environment";

/// The display label of a hive, as messages show it.
pub open spec fn hive_label_spec(hive: EnvHive) -> Seq<char> {
    match hive {
        EnvHive::System => "系统"@,
        EnvHive::User => "用户"@,
    }
}

/// `(sub-key path, display label)` of a hive. The root key is implied by the
/// hive: HKLM for `System`, HKCU for `User`.
pub fn hive_location(hive: EnvHive) -> (r: (&'static str, &'static str))
    ensures
        r.1@ == hive_label_spec(hive),
        r.0@ == (match hive {
            EnvHive::System => SYS_REG_PATH@,
            EnvHive::User => USER_REG_PATH@,
        }),
{
    match hive {
        EnvHive::System => (SYS_REG_PATH, "系统"),
        EnvHive::User => (USER_REG_PATH, "用户"),
    }
}

} // verus!
