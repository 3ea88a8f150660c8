//! Environment-variable rules over a hive: validation, listing, reading and
//! the compare-then-write updates.

pub mod access;
pub mod conflict;
pub mod env_laws;
pub mod env_var;
