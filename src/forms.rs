//! Form and path parameters of the web front end's user and session pages.
use vstd::prelude::*;

verus! {

/// Sign-in form.
#[derive(Clone, Debug)]
pub struct SessionsCreateParam {
    pub user_email: String,
    pub user_password: String,
}

/// Sign-out form; `method` carries the emulated HTTP method.
#[derive(Clone, Debug)]
pub struct SessionsDeleteParam {
    pub method: String,
}

/// Path of a single user's page.
#[derive(Clone, Copy, Debug, PartialEq, Eq, Structural)]
pub struct UsersReadPath {
    pub id: i32,
}

/// Sign-up form.
#[derive(Clone, Debug)]
pub struct UsersCreateParam {
    pub user_name: String,
    pub user_email: String,
    pub user_password: String,
}

/// Update or delete form of a user; `method` carries the emulated HTTP
/// method, and absent fields stay unchanged.
#[derive(Clone, Debug)]
pub struct UsersPostParam {
    pub method: String,
    pub user_name: Option<String>,
    pub user_email: Option<String>,
    pub user_password: Option<String>,
}

} // verus!
