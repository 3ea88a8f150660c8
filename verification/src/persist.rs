//! Versioned persistence rules shared by `disabled.json`, the pending PATH
//! snapshot and the profiles: every file carries a top-level
//! `schemaVersion` (a file without one is version 1), and a file written by
//! a newer version is refused rather than misread.

use crate::error::{CoreError, ErrorCode};
use crate::text::{concat4, dec_digits, dec_string, string_of, trim};
use vstd::prelude::*;

verus! {

/// The schema version this library reads and writes.
pub const PERSIST_SCHEMA_VERSION: u32 = 1;

/// The refusal of a file written by a newer version.
pub open spec fn future_version_message(label: Seq<char>, version: u32) -> Seq<char> {
    label + " 的 schemaVersion 为 "@ + dec_digits(version as nat) + "，高于当前支持的 1，文件由更新版本写入，请升级 PathEditor"@
}

/// Checks the schema version read from a file: versions up to the current
/// one are accepted; a higher one is a `Parse` error naming the file.
pub fn migrate(schema_version: u32, label: &str) -> (r: Result<(), CoreError>)
    ensures
        r is Ok <==> schema_version <= PERSIST_SCHEMA_VERSION,
        r matches Err(e) ==> {
            &&& e.code == ErrorCode::Parse
            &&& e.operation@ == "load_versioned"@
            &&& e.message@ == future_version_message(label@, schema_version)
        },
{
    if schema_version > PERSIST_SCHEMA_VERSION {
        let d = dec_string(schema_version as u64);
        let ds = string_of(&d);
        let m = concat4(label, " 的 schemaVersion 为 ", ds.as_str(), "，高于当前支持的 1，文件由更新版本写入，请升级 PathEditor");
        return Err(CoreError::new(ErrorCode::Parse, "load_versioned", m.as_str()));
    }
    Ok(())
}

/// A blank file (only white space) reads as the default state; it is not
/// corrupt.
pub fn is_blank_content(content: &str) -> (r: bool)
    ensures
        r == (trim(content@).len() == 0),
{
    let t = crate::text::trim_str(content);
    t.as_str().is_empty()
}

} // verus!
