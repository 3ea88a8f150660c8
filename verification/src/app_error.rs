//! The error a desktop front end hands to its UI: one display message.

use vstd::prelude::*;
use vstd::std_specs::convert::FromSpecImpl;

verus! {

#[derive(Debug, Clone, PartialEq, Eq)]
pub struct AppError {
    pub message: String,
}

impl AppError {
    /// The text the UI shows.
    pub fn to_string(&self) -> (r: String)
        ensures
            r@ == self.message@,
    {
        self.message.clone()
    }

}

impl From<String> for AppError {
    fn from(s: String) -> (r: AppError) {
        AppError { message: s }
    }
}

impl FromSpecImpl<String> for AppError {
    open spec fn obeys_from_spec() -> bool {
        true
    }

    open spec fn from_spec(v: String) -> AppError {
        AppError { message: v }
    }
}

} // verus!
