//! What the current process may do with each registry hive.

use vstd::prelude::*;

verus! {

/// Read and write capabilities, per hive, so that the user PATH stays
/// editable without administrator rights.
#[derive(Debug, Clone, Copy, PartialEq, Eq, Structural)]
pub struct PathCapabilities {
    pub can_read_system: bool,
    pub can_write_system: bool,
    pub can_read_user: bool,
    pub can_write_user: bool,
}

} // verus!
