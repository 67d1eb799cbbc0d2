//! Forms of the simpler user pages, which keep no password.
use vstd::prelude::*;

verus! {

/// New-user form.
#[derive(Clone, Debug)]
pub struct UsersCreateParam {
    pub user_name: String,
    pub user_email: String,
}

/// Edit form of a user; `method` carries the emulated HTTP method.
#[derive(Clone, Debug)]
pub struct UsersEditParam {
    pub method: String,
    pub user_name: String,
    pub user_email: String,
}

} // verus!
