//! Verified core of a Windows PATH / environment-variable editor.

pub mod app_error;
pub mod backup;
pub mod capabilities;
pub mod cli;
pub mod disabled;
pub mod env_var;
pub mod error;
pub mod fs;
pub mod order;
pub mod path_entry;
pub mod path_value;
pub mod persist;
pub mod profiles;
pub mod reg_store;
pub mod scanner;
pub mod store;
pub mod system;
pub mod registry;
pub mod text;
