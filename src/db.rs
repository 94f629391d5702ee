//! The board's stores: posts, accounts and sessions, each a key-value namespace.
use vstd::prelude::*;

use crate::key_codec::is_post_key;
use crate::kv::KvNamespace;
use crate::post_obj::Post;
use crate::user_obj::{Session, UserAccount};

pub mod post;
pub mod user;

verus! {

/// Everything the board keeps, handed to each operation: posts under their
/// storage keys, accounts under their user ids, sessions under their tokens,
/// and how long (in seconds) a session lives after its last use.
pub struct Env {
    pub posts: KvNamespace<Post>,
    pub users: KvNamespace<UserAccount>,
    pub sessions: KvNamespace<Session>,
    pub session_expiry: u64,
}

impl Env {
    /// All three namespaces are well formed, and every post is stored under
    /// the full-width key of a valid path.
    pub open spec fn wf(&self) -> bool {
        &&& self.posts.wf()
        &&& self.users.wf()
        &&& self.sessions.wf()
        &&& forall|k: Seq<char>| #[trigger] self.posts.spec_get(k) is Some ==> is_post_key(k)
    }

    /// An empty board whose sessions live `session_expiry` seconds after last use.
    pub fn new(session_expiry: u64) -> (r: Env)
        ensures
            r.wf(),
            r.session_expiry == session_expiry,
            forall|k: Seq<char>| #[trigger] r.posts.spec_get(k) is None,
            forall|k: Seq<char>| #[trigger] r.users.spec_get(k) is None,
            forall|k: Seq<char>| #[trigger] r.sessions.spec_get(k) is None,
    {
        Env {
            posts: KvNamespace::new(),
            users: KvNamespace::new(),
            sessions: KvNamespace::new(),
            session_expiry,
        }
    }
}

} // verus!
