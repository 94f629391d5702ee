//! The account and session stores.
use vstd::prelude::*;

use uuid::Uuid;

use crate::crypto_helpers::{
    argon2_accepts, hash_password, phc_prefix, verify_password, MAX_PASSWORD_CHARS,
};
use crate::db::Env;
use crate::user_obj::{Session, User, UserAccount};

verus! {

/// `r` is what looking up `user_id` among the accounts gives.
pub open spec fn is_user_of(env: &Env, user_id: Seq<char>, r: Option<User>) -> bool {
    match r {
        None => env.users.spec_get(user_id) is None,
        Some(u) => u.user_id@ == user_id && env.users.spec_get(user_id) == Some(u.account),
    }
}

/// Whether an account exists under `user_id` and accepts `password`.
pub open spec fn can_log_in(env: &Env, user_id: Seq<char>, password: Seq<char>) -> bool {
    env.users.spec_get(user_id) matches Some(account) && argon2_accepts(password, account.hash@)
}

/// The time `ttl` seconds after `now`, or the last representable time.
pub open spec fn session_deadline(now: u64, ttl: u64) -> u64 {
    if now + ttl <= u64::MAX {
        (now + ttl) as u64
    } else {
        u64::MAX
    }
}

/// The session stored under `token`, if it has not lapsed at time `now`.
pub open spec fn live_session(env: &Env, token: Seq<char>, now: u64) -> Option<Session> {
    match env.sessions.spec_get(token) {
        Some(s) => if now < s.expires_at {
            Some(s)
        } else {
            None
        },
        None => None,
    }
}

/// `after` holds what `before` held, but for the session under `token`.
pub open spec fn sessions_kept_but(before: &Env, after: &Env, token: Seq<char>) -> bool {
    &&& after.posts == before.posts
    &&& after.users == before.users
    &&& after.session_expiry == before.session_expiry
    &&& forall|k: Seq<char>|
        k != token ==> #[trigger] after.sessions.spec_get(k) == before.sessions.spec_get(k)
}

/// `after` is `before` with a session for `user_id` under `token` that lapses
/// one session lifetime after `now`.
pub open spec fn session_started(
    before: &Env,
    after: &Env,
    token: Seq<char>,
    user_id: Seq<char>,
    now: u64,
) -> bool {
    &&& sessions_kept_but(before, after, token)
    &&& after.sessions.spec_get(token) matches Some(s)
    &&& s.user_id@ == user_id
    &&& s.expires_at == session_deadline(now, before.session_expiry)
}

/// `after` is `before` with an account for `user_id` named `username` whose
/// hash record accepts `password`.
pub open spec fn account_added(
    before: &Env,
    after: &Env,
    user_id: Seq<char>,
    username: Seq<char>,
    password: Seq<char>,
) -> bool {
    &&& after.users.spec_get(user_id) matches Some(account)
    &&& account.username@ == username
    &&& argon2_accepts(password, account.hash@)
    &&& account.hash@.len() == 96
    &&& account.hash@.subrange(0, 30) == phc_prefix()
    &&& after.posts == before.posts
    &&& after.sessions == before.sessions
    &&& after.session_expiry == before.session_expiry
    &&& forall|k: Seq<char>|
        k != user_id ==> #[trigger] after.users.spec_get(k) == before.users.spec_get(k)
}

/// Whether `c` is a digit or a lowercase letter from `a` to `f`.
pub open spec fn is_lower_hex(c: char) -> bool {
    ('0' <= c && c <= '9') || ('a' <= c && c <= 'f')
}

/// Relies on uuid's `Uuid::new_v4` (122 random bits from the operating
/// system) written with `to_simple`: 32 lowercase hexadecimal digits.
#[verifier::external_body]
fn new_session_token() -> (r: String)
    ensures
        r@.len() == 32,
        forall|i: int| 0 <= i < 32 ==> #[trigger] is_lower_hex(r@[i]),
{
    Uuid::new_v4().to_simple().to_string()
}

/// The account stored under `user_id`, with that id.
pub fn get_user(env: &Env, user_id: &str) -> (r: Option<User>)
    requires
        env.wf(),
    ensures
        is_user_of(env, user_id@, r),
{
    match env.users.get(user_id) {
        None => None,
        Some(account) => Some(User { account: account.copied(), user_id: String::from_str(user_id) }),
    }
}

/// Writes the session `session_id` for `user_id`, lapsing one session
/// lifetime after `now`.
fn update_session(env: &mut Env, user_id: String, session_id: String, now: u64)
    requires
        old(env).wf(),
    ensures
        final(env).wf(),
        session_started(old(env), final(env), session_id@, user_id@, now),
{
    let ttl = env.session_expiry;
    let expires_at = if ttl > u64::MAX - now {
        u64::MAX
    } else {
        now + ttl
    };
    env.sessions.put(session_id, Session { user_id, expires_at });
}

/// How many random tokens a login draws before it gives up on finding one
/// that no stored session uses.
pub const MAX_TOKEN_DRAWS: usize = 4;

/// Starts a session for `user_id` under `token`, lapsing one session lifetime
/// after `now`, where no session is stored under `token`; returns whether it
/// did, and changes nothing where it did not.
pub fn open_session(env: &mut Env, user_id: &str, token: &str, now: u64) -> (r: bool)
    requires
        old(env).wf(),
    ensures
        final(env).wf(),
        r == (old(env).sessions.spec_get(token@) is None),
        r ==> session_started(old(env), final(env), token@, user_id@, now),
        !r ==> *final(env) == *old(env),
{
    if env.sessions.get(token).is_some() {
        return false;
    }
    update_session(env, String::from_str(user_id), String::from_str(token), now);
    true
}

/// Logs in: where `password` is right for the account `user_id`, starts a
/// session under a fresh random token that no stored session uses, and
/// returns the token. A missing account and a wrong password give the same
/// `None`; so does the case, for a login that is owed, where
/// `MAX_TOKEN_DRAWS` random tokens in a row are all in use. `None` leaves
/// everything as it was.
pub fn create_session(env: &mut Env, user_id: &str, password: &str, now: u64) -> (r: Option<String>)
    requires
        old(env).wf(),
    ensures
        final(env).wf(),
        r is Some ==> can_log_in(old(env), user_id@, password@),
        r matches Some(token) ==> old(env).sessions.spec_get(token@) is None,
        r matches Some(token) ==> session_started(old(env), final(env), token@, user_id@, now),
        r matches Some(token) ==> token@.len() == 32 && forall|i: int|
            0 <= i < 32 ==> #[trigger] is_lower_hex(token@[i]),
        r is None ==> *final(env) == *old(env),
{
    let user = match get_user(env, user_id) {
        None => return None,
        Some(user) => user,
    };
    if !verify_password(password, user.account.hash.as_str()) {
        return None;
    }
    let mut draws: usize = 0;
    while draws < MAX_TOKEN_DRAWS
        invariant
            env.wf(),
            *env == *old(env),
            can_log_in(old(env), user_id@, password@),
        decreases MAX_TOKEN_DRAWS - draws,
    {
        let token = new_session_token();
        if open_session(env, user_id, token.as_str(), now) {
            return Some(token);
        }
        draws += 1;
    }
    None
}

/// Validates a session token at time `now`: a live session is renewed for
/// one more session lifetime and the id of its user is returned; a lapsed one
/// is removed and gives `None`, as does an unknown token.
pub fn validate_session(env: &mut Env, session_id: &str, now: u64) -> (r: Option<String>)
    requires
        old(env).wf(),
    ensures
        final(env).wf(),
        match live_session(old(env), session_id@, now) {
            Some(s) => {
                &&& r matches Some(id)
                &&& id@ == s.user_id@
                &&& session_started(old(env), final(env), session_id@, s.user_id@, now)
            },
            None => {
                &&& r is None
                &&& final(env).sessions.spec_get(session_id@) is None
                &&& sessions_kept_but(old(env), final(env), session_id@)
            },
        },
{
    let (user_id, expires_at) = match env.sessions.get(session_id) {
        None => return None,
        Some(s) => (s.user_id.clone(), s.expires_at),
    };
    if now < expires_at {
        update_session(env, user_id.clone(), String::from_str(session_id), now);
        Some(user_id)
    } else {
        env.sessions.delete(session_id);
        None
    }
}

/// Validates a session token as `validate_session` does, then looks up the
/// account of its user: `None` where the session is not live, and also where
/// that account no longer exists.
pub fn get_session(env: &mut Env, session_id: &str, now: u64) -> (r: Option<User>)
    requires
        old(env).wf(),
    ensures
        final(env).wf(),
        match live_session(old(env), session_id@, now) {
            Some(s) => {
                &&& session_started(old(env), final(env), session_id@, s.user_id@, now)
                &&& is_user_of(final(env), s.user_id@, r)
            },
            None => {
                &&& r is None
                &&& final(env).sessions.spec_get(session_id@) is None
                &&& sessions_kept_but(old(env), final(env), session_id@)
            },
        },
{
    match validate_session(env, session_id, now) {
        Some(user_id) => get_user(env, user_id.as_str()),
        None => None,
    }
}

/// Logs out: removes the session under `session_id`, if there is one.
pub fn delete_session(env: &mut Env, session_id: &str)
    requires
        old(env).wf(),
    ensures
        final(env).wf(),
        final(env).sessions.spec_get(session_id@) is None,
        sessions_kept_but(old(env), final(env), session_id@),
{
    env.sessions.delete(session_id);
}

/// Registers an account: where no account exists under `user_id`, stores one
/// with `username` and a salted hash of `password`, and returns `user_id`;
/// otherwise returns `None` and leaves everything as it was.
pub fn create_user(env: &mut Env, user_id: &str, username: &str, password: &str) -> (r: Option<
    String,
>)
    requires
        old(env).wf(),
        password@.len() <= MAX_PASSWORD_CHARS,
    ensures
        final(env).wf(),
        r is Some <==> old(env).users.spec_get(user_id@) is None,
        r is None ==> *final(env) == *old(env),
        r matches Some(id) ==> id@ == user_id@ && account_added(
            old(env),
            final(env),
            user_id@,
            username@,
            password@,
        ),
{
    if env.users.get(user_id).is_some() {
        return None;
    }
    let account = UserAccount { hash: hash_password(password), username: String::from_str(username) };
    env.users.put(String::from_str(user_id), account);
    Some(String::from_str(user_id))
}

/// A session started at `now` names its user at every later time before it lapses.
pub proof fn lemma_login_then_validate(
    before: Env,
    after: Env,
    token: Seq<char>,
    user_id: Seq<char>,
    now: u64,
    later: u64,
)
    requires
        session_started(&before, &after, token, user_id, now),
        now <= later < session_deadline(now, before.session_expiry),
    ensures
        live_session(&after, token, later) matches Some(s) && s.user_id@ == user_id,
{
}

/// A newly registered account accepts the password it was registered with.
pub proof fn lemma_registered_can_log_in(
    before: Env,
    after: Env,
    user_id: Seq<char>,
    username: Seq<char>,
    password: Seq<char>,
)
    requires
        account_added(&before, &after, user_id, username, password),
    ensures
        can_log_in(&after, user_id, password),
{
}

/// Once its session is removed, a token validates at no time.
pub proof fn lemma_logout_then_validate(after: Env, token: Seq<char>, later: u64)
    requires
        after.sessions.spec_get(token) is None,
    ensures
        live_session(&after, token, later) is None,
{
}

} // verus!
