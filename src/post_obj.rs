//! Posts as stored, and posts as shown with their author.
use vstd::prelude::*;

use crate::user_obj::User;

verus! {

/// A stored post: the id of its author and its (already escaped) content.
pub struct Post {
    pub user: String,
    pub content: String,
}

impl Post {
    /// A copy of this post.
    pub fn copied(&self) -> (r: Post)
        ensures
            r == *self,
    {
        Post { user: self.user.clone(), content: self.content.clone() }
    }
}

/// A post together with its path and its author's account, if that still exists.
pub struct PostTitle {
    pub title: String,
    pub user: Option<User>,
    pub post: Post,
}

/// Why a post could not be written.
#[derive(Clone, Copy, Debug, PartialEq, Eq, Structural)]
pub enum PostError {
    /// The path holds a character that is not an ASCII letter or digit.
    InvalidChar,
    /// The path is too long to be stored.
    PathTooLong,
    /// The post the path replies to does not exist.
    ParentMissing,
    /// A post already exists at the path.
    AlreadyExists,
}

} // verus!
