//! The user the interpreter runs for.

use vstd::prelude::*;
use vstd::string::*;

verus! {

/// A user of the system: the effective user id and its login name.
pub struct User {
    uid: u32,
    username: String,
}

impl View for User {
    type V = (u32, Seq<char>);

    closed spec fn view(&self) -> (u32, Seq<char>) {
        (self.uid, self.username@)
    }
}

impl User {
    /// The user with effective id `uid`, from what the password database gave
    /// for it: the login name, or nothing when it holds no entry for `uid`
    /// (which is an error).
    pub fn from_entry(uid: u32, username: Option<String>) -> (r: Result<User, String>)
        ensures
            match username {
                Some(name) => r is Ok && r->Ok_0@ == (uid, name@),
                None => r is Err && r->Err_0@ == "Failed to get user information."@,
            },
    {
        match username {
            Some(username) => Ok(User { uid, username }),
            None => Err(String::from_str("Failed to get user information.")),
        }
    }

    pub fn uid(&self) -> (r: u32)
        ensures
            r == self@.0,
    {
        self.uid
    }

    pub fn username(&self) -> (r: &str)
        ensures
            r@ == self@.1,
    {
        self.username.as_str()
    }
}

} // verus!
