//! Structured error contract.
//!
//! `code` is the stable, machine-readable discriminator: the GUI picks its
//! translation by it and the CLI maps it to an exit code. `message` is a
//! human-readable text and is never matched on by program logic.

use crate::env_var::EnvHive;
use vstd::prelude::*;
use vstd::string::*;

verus! {

/// Stable error codes.
#[derive(Debug, Clone, Copy, PartialEq, Eq, Structural)]
pub enum ErrorCode {
    /// Revision conflict; re-reading and retrying may succeed.
    Conflict,
    /// A reserved name (`Path`) that only the dedicated PATH route may touch.
    ReservedName,
    /// A protected built-in variable (`windir` and the like).
    Protected,
    /// A registry value type that is not supported (`REG_DWORD` and others).
    UnsupportedType,
    /// No write permission.
    PermissionDenied,
    /// The target does not exist.
    NotFound,
    /// A variable of that name already exists (on create).
    NameExists,
    /// The name is not acceptable.
    InvalidName,
    /// The value is not acceptable.
    InvalidValue,
    /// Disk or file I/O failed.
    Io,
    /// Decoding failed (JSON or registry data).
    Parse,
    /// Anything else.
    Internal,
}

/// The library's error type.
#[derive(Debug, Clone, PartialEq, Eq)]
pub struct CoreError {
    pub code: ErrorCode,
    pub operation: String,
    pub hive: Option<EnvHive>,
    pub name: Option<String>,
    /// Whether retrying after a re-read may succeed (conflicts).
    pub retryable: bool,
    /// Display text.
    pub message: String,
}

impl CoreError {
    /// Builds an error without target context; only conflicts are retryable.
    pub fn new(code: ErrorCode, operation: &str, message: &str) -> (r: Self)
        ensures
            r.code == code,
            r.operation@ == operation@,
            r.hive is None,
            r.name is None,
            r.retryable == (code == ErrorCode::Conflict),
            r.message@ == message@,
    {
        CoreError {
            code,
            operation: operation.to_owned(),
            hive: None,
            name: None,
            retryable: code == ErrorCode::Conflict,
            message: message.to_owned(),
        }
    }

    /// Attaches the hive and variable name the error concerns.
    pub fn with_target(self, hive: EnvHive, name: &str) -> (r: Self)
        ensures
            r.code == self.code,
            r.operation == self.operation,
            r.hive == Some(hive),
            r.name matches Some(n) && n@ == name@,
            r.retryable == self.retryable,
            r.message == self.message,
    {
        let mut e = self;
        e.hive = Some(hive);
        e.name = Some(name.to_owned());
        e
    }

    /// CLI exit code: 3 for a conflict, 1 for everything else.
    pub fn exit_code(&self) -> (r: i32)
        ensures
            r == (if self.code == ErrorCode::Conflict { 3i32 } else { 1i32 }),
    {
        if self.code == ErrorCode::Conflict {
            3
        } else {
            1
        }
    }

    /// The text that displaying the error shows: its message.
    pub fn to_string(&self) -> (r: String)
        ensures
            r@ == self.message@,
    {
        self.message.clone()
    }
}

impl CoreError {
    /// A free-text error from an older interface: code `Internal`,
    /// operation `legacy`, the text kept as the message.
    pub fn from_legacy(message: &str) -> (r: Self)
        ensures
            r.code == ErrorCode::Internal,
            r.operation@ == "legacy"@,
            r.hive is None,
            r.name is None,
            !r.retryable,
            r.message@ == message@,
    {
        CoreError::new(ErrorCode::Internal, "legacy", message)
    }
}

} // verus!
