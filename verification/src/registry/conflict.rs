//! The revision-conflict error.

use crate::env_var::EnvHive;
use crate::error::{CoreError, ErrorCode};
use vstd::prelude::*;

verus! {

/// The conflict text. Decisions go by `ErrorCode::Conflict`; the
/// `[E_CONFLICT]` prefix is display text kept for older readers.
pub open spec fn conflict_text() -> Seq<char> {
    "[E_CONFLICT] 变量已被其他进程修改，请重新加载"@
}

/// The full conflict message.
pub fn conflict_message() -> (r: String)
    ensures
        r@ == conflict_text(),
{
    "[E_CONFLICT] 变量已被其他进程修改，请重新加载".to_owned()
}

/// The structured revision-conflict error of an operation on one variable.
pub fn conflict_error(operation: &str, hive: EnvHive, name: &str) -> (r: CoreError)
    ensures
        r.code == ErrorCode::Conflict,
        r.operation@ == operation@,
        r.hive == Some(hive),
        r.name matches Some(n) && n@ == name@,
        r.retryable,
        r.message@ == conflict_text(),
{
    let m = conflict_message();
    CoreError::new(ErrorCode::Conflict, operation, m.as_str()).with_target(hive, name)
}

} // verus!
