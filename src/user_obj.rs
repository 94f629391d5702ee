//! Accounts, users and sessions.
use vstd::prelude::*;

verus! {

/// A stored account: the password's hash record and the display name.
pub struct UserAccount {
    pub hash: String,
    pub username: String,
}

impl UserAccount {
    /// A copy of this account.
    pub fn copied(&self) -> (r: UserAccount)
        ensures
            r == *self,
    {
        UserAccount { hash: self.hash.clone(), username: self.username.clone() }
    }
}

/// An account together with the id it is stored under.
pub struct User {
    pub account: UserAccount,
    pub user_id: String,
}

/// A stored session: the user it belongs to and the time at which it lapses.
pub struct Session {
    pub user_id: String,
    pub expires_at: u64,
}

} // verus!
