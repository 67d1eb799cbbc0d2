//! Signed-in sessions of the web front end.
use vstd::prelude::*;

verus! {

/// What a session cookie holds once a user has signed in.
#[derive(Clone, Debug)]
pub struct UserSession {
    pub user_id: i32,
    pub session_id: String,
}

/// Request guard that lets signed-in users through.
#[derive(Clone, Copy, Debug, PartialEq, Eq, Structural)]
pub struct Authenticate;

impl Authenticate {
    pub fn new() -> (r: Authenticate)
        ensures
            r == Authenticate,
    {
        Authenticate
    }
}

} // verus!
