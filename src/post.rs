//! Writing posts, and the decisions behind a submitted form.
use vstd::prelude::*;

use crate::db::post::{
    all_path_chars, delete_post, escape_text, get_content, posts_kept_but, stored_post, write_post,
};
use crate::crypto_helpers::MAX_PASSWORD_CHARS;
use crate::db::user::{
    account_added, can_log_in, create_session, create_user, delete_session, session_started,
    sessions_kept_but,
};
use crate::db::Env;
use crate::user_obj::User;
use crate::key_codec::{encode, get_prefix, is_path_char, lemma_post_key, KEY_WIDTH};
use crate::post_obj::PostError;

verus! {

/// Whether `c` is a letter or a digit, the characters a reply may append.
pub fn validchar(c: char) -> (r: bool)
    ensures
        r == is_path_char(c),
{
    ('0' <= c && c <= '9') || ('a' <= c && c <= 'z') || ('A' <= c && c <= 'Z')
}

/// What creating a post at `path` gives, checked in this order: a character
/// that is not a letter or digit, a missing parent (for any path but the
/// root), a post already there, a path of `KEY_WIDTH` characters or more.
pub open spec fn create_post_outcome(env: &Env, path: Seq<char>) -> Result<(), PostError> {
    if exists|i: int| 0 <= i < path.len() && !#[trigger] is_path_char(path[i]) {
        Err(PostError::InvalidChar)
    } else if path.len() > 0 && stored_post(env, path.drop_last()) is None {
        Err(PostError::ParentMissing)
    } else if stored_post(env, path) is Some {
        Err(PostError::AlreadyExists)
    } else if path.len() >= KEY_WIDTH {
        Err(PostError::PathTooLong)
    } else {
        Ok(())
    }
}

/// Creates the post at `path` by `author` with `content` escaped, where
/// `create_post_outcome` allows it; otherwise changes nothing.
pub fn create_post(env: &mut Env, path: &str, content: &str, author: &str) -> (r: Result<
    (),
    PostError,
>)
    requires
        old(env).wf(),
    ensures
        final(env).wf(),
        r == create_post_outcome(old(env), path@),
        r is Err ==> *final(env) == *old(env),
        r is Ok ==> posts_kept_but(old(env), final(env), encode(path@, 0)),
        r is Ok ==> (stored_post(final(env), path@) matches Some(p) && p.user@ == author@
            && p.content@ == escape_text(content@)),
{
    if !all_path_chars(path) {
        return Err(PostError::InvalidChar);
    }
    let n = path.unicode_len();
    if n > 0 {
        let parent = path.substring_char(0, n - 1);
        assert(parent@ =~= path@.drop_last());
        if get_content(env, parent).is_none() {
            return Err(PostError::ParentMissing);
        }
    }
    if get_content(env, path).is_some() {
        return Err(PostError::AlreadyExists);
    }
    if n >= KEY_WIDTH {
        return Err(PostError::PathTooLong);
    }
    match get_prefix(path, 0) {
        Ok(key) => {
            proof {
                lemma_post_key(path@);
            }
            write_post(env, key, content, String::from_str(author));
            Ok(())
        },
        Err(e) => Err(e),
    }
}


/// A submitted form: which action its query string names, and its fields.
pub struct FormRequest {
    pub login: bool,
    pub register: bool,
    pub logout: bool,
    pub delete: bool,
    pub email: Option<String>,
    pub password: Option<String>,
    pub username: Option<String>,
    pub title: Option<String>,
    pub content: Option<String>,
}

/// Why a submitted form was turned down.
#[derive(Clone, Copy, Debug, PartialEq, Eq, Structural)]
pub enum Rejection {
    /// A login or registration form lacks a field.
    BadRequest,
    /// The action needs a logged-in user.
    NotLoggedIn,
    /// Only a post's author may delete it.
    InsufficientPermissions,
    /// There is no post to delete.
    InvalidPost,
    /// A reply must add exactly one character.
    OneCharOnly,
    /// A reply must add a letter or a digit.
    NotAlphanumeric,
    /// Only an existing post can be replied to.
    NoSuchParent,
    /// The reply's path is taken.
    PostExists,
    /// The reply's path would be too long.
    MaxLength,
    /// A reply form lacks its title or its content.
    MissingFields,
}

impl Rejection {
    /// The http status that reports this rejection.
    pub open spec fn spec_status(self) -> u16 {
        match self {
            Rejection::NotLoggedIn => 401,
            Rejection::PostExists => 409,
            _ => 400,
        }
    }

    /// The http status that reports this rejection.
    pub fn status(&self) -> (r: u16)
        ensures
            r == self.spec_status(),
    {
        match self {
            Rejection::NotLoggedIn => 401,
            Rejection::PostExists => 409,
            _ => 400,
        }
    }

    /// The text shown for this rejection.
    pub fn message(&self) -> &'static str {
        match self {
            Rejection::BadRequest => "Bad request",
            Rejection::NotLoggedIn => "Error, User is not logged in!",
            Rejection::InsufficientPermissions => "Error: Insufficient permissions",
            Rejection::InvalidPost => "Error: Invalid post",
            Rejection::OneCharOnly => "Error: Only one char can be added at a time",
            Rejection::NotAlphanumeric => "Char must be alphanumeric",
            Rejection::NoSuchParent => "Error: Can only reply to a post that exists",
            Rejection::PostExists => "Error: post already exists",
            Rejection::MaxLength => "Error: max length has been reached",
            Rejection::MissingFields => "Bad request, title and content must both be present.",
        }
    }
}

/// What answering a submitted form comes to.
pub enum Response {
    /// Go to `location`; where `session` is given, it becomes the session cookie.
    Redirect { location: String, session: Option<String> },
    /// Show the page again with a failed-login notice.
    LoginError,
    /// Turn the form down.
    Rejected(Rejection),
}

/// How a reply's failure to be created is reported.
pub open spec fn spec_reply_rejection(e: PostError) -> Rejection {
    match e {
        PostError::InvalidChar => Rejection::NotAlphanumeric,
        PostError::ParentMissing => Rejection::NoSuchParent,
        PostError::AlreadyExists => Rejection::PostExists,
        PostError::PathTooLong => Rejection::MaxLength,
    }
}

fn reply_rejection(e: PostError) -> (r: Rejection)
    ensures
        r == spec_reply_rejection(e),
{
    match e {
        PostError::InvalidChar => Rejection::NotAlphanumeric,
        PostError::ParentMissing => Rejection::NoSuchParent,
        PostError::AlreadyExists => Rejection::PostExists,
        PostError::PathTooLong => Rejection::MaxLength,
    }
}

/// Where deleting the post at `post_id` leads: the post it replied to.
pub open spec fn parent_location(post_id: Seq<char>) -> Seq<char> {
    if post_id.len() > 0 {
        post_id.drop_last()
    } else {
        post_id
    }
}

/// What answering `form`, sent to the page at `path` at time `now`, does to
/// the board (`before` to `after`) and answers (`r`). Login comes first, then
/// registration; every other action needs a user: logout, delete, and else a
/// reply that appends one character to the page's path.
pub open spec fn handled(
    before: &Env,
    after: &Env,
    path: Seq<char>,
    form: FormRequest,
    user: Option<User>,
    session_id: Option<String>,
    now: u64,
    r: Response,
) -> bool {
    let post_id = path.drop_first();
    let unchanged = *after == *before;
    if form.login {
        if form.email is Some && form.password is Some {
            let email = form.email.unwrap()@;
            if can_log_in(before, email, form.password.unwrap()@) {
                (r matches Response::Redirect { location, session: Some(token) } && location@ == path
                    && before.sessions.spec_get(token@) is None && session_started(
                    before,
                    after,
                    token@,
                    email,
                    now,
                )) || (r is LoginError && unchanged)
            } else {
                r is LoginError && unchanged
            }
        } else {
            r == Response::Rejected(Rejection::BadRequest) && unchanged
        }
    } else if form.register {
        if form.email is Some && form.password is Some && form.username is Some {
            let email = form.email.unwrap()@;
            let password = form.password.unwrap()@;
            if before.users.spec_get(email) is None {
                exists|mid: Env|
                    #[trigger] account_added(before, &mid, email, form.username.unwrap()@, password)
                        && ((r matches Response::Redirect { location, session: Some(token) }
                        && location@ == path && mid.sessions.spec_get(token@) is None
                        && session_started(&mid, after, token@, email, now)) || (r is LoginError
                        && *after == mid))
            } else {
                r is LoginError && unchanged
            }
        } else {
            r == Response::Rejected(Rejection::BadRequest) && unchanged
        }
    } else if user is None {
        r == Response::Rejected(Rejection::NotLoggedIn) && unchanged
    } else if form.logout {
        &&& r matches Response::Redirect { location, session: None }
        &&& location@ == path
        &&& after.sessions.spec_get(session_id.unwrap()@) is None
        &&& sessions_kept_but(before, after, session_id.unwrap()@)
    } else if form.delete {
        match stored_post(before, post_id) {
            Some(p) => if p.user@ == user.unwrap().user_id@ {
                &&& r matches Response::Redirect { location, session: None }
                &&& location@ == parent_location(post_id)
                &&& stored_post(after, post_id) is None
                &&& posts_kept_but(before, after, encode(post_id, 0))
            } else {
                r == Response::Rejected(Rejection::InsufficientPermissions) && unchanged
            },
            None => r == Response::Rejected(Rejection::InvalidPost) && unchanged,
        }
    } else if form.title is Some && form.content is Some {
        let title = form.title.unwrap()@;
        let full = post_id + title;
        if title.len() != 1 {
            r == Response::Rejected(Rejection::OneCharOnly) && unchanged
        } else if !is_path_char(title[0]) {
            r == Response::Rejected(Rejection::NotAlphanumeric) && unchanged
        } else {
            match create_post_outcome(before, full) {
                Err(e) => r == Response::Rejected(spec_reply_rejection(e)) && unchanged,
                Ok(_) => {
                    &&& r matches Response::Redirect { location, session: None }
                    &&& location@ == seq!['/'] + full
                    &&& posts_kept_but(before, after, encode(full, 0))
                    &&& stored_post(after, full) matches Some(p)
                    &&& p.user@ == user.unwrap().user_id@
                    &&& p.content@ == escape_text(form.content.unwrap()@)
                },
            }
        }
    } else {
        r == Response::Rejected(Rejection::MissingFields) && unchanged
    }
}

/// Answers a form sent to the page at `path` (which starts with `/`) by
/// `user`, who holds `session_id`, at time `now`.
pub fn handle_post_request(
    env: &mut Env,
    path: &str,
    form: &FormRequest,
    user: Option<User>,
    session_id: Option<String>,
    now: u64,
) -> (r: Response)
    requires
        old(env).wf(),
        path@.len() > 0 && path@[0] == '/',
        user is Some ==> session_id is Some,
        form.password matches Some(p) ==> p@.len() <= MAX_PASSWORD_CHARS,
    ensures
        final(env).wf(),
        handled(old(env), final(env), path@, *form, user, session_id, now, r),
{
    let post_id = path.substring_char(1, path.unicode_len());
    assert(post_id@ =~= path@.drop_first());
    if form.login {
        return match (&form.email, &form.password) {
            (Some(email), Some(password)) => match create_session(
                env,
                email.as_str(),
                password.as_str(),
                now,
            ) {
                Some(token) => Response::Redirect {
                    location: String::from_str(path),
                    session: Some(token),
                },
                None => Response::LoginError,
            },
            _ => Response::Rejected(Rejection::BadRequest),
        };
    }
    if form.register {
        return match (&form.email, &form.password, &form.username) {
            (Some(email), Some(password), Some(username)) => {
                match create_user(env, email.as_str(), username.as_str(), password.as_str()) {
                    Some(_) => {
                        let ghost mid = *env;
                        match create_session(env, email.as_str(), password.as_str(), now) {
                            Some(token) => {
                                let r = Response::Redirect {
                                    location: String::from_str(path),
                                    session: Some(token),
                                };
                                assert(account_added(
                                    old(env),
                                    &mid,
                                    email@,
                                    username@,
                                    password@,
                                ) && ((r matches Response::Redirect {
                                    location,
                                    session: Some(token),
                                } && location@ == path@ && mid.sessions.spec_get(token@) is None
                                    && session_started(&mid, env, token@, email@, now)) || (
                                r is LoginError && *env == mid)));
                                r
                            },
                            None => {
                                let r = Response::LoginError;
                                assert(account_added(
                                    old(env),
                                    &mid,
                                    email@,
                                    username@,
                                    password@,
                                ) && ((r matches Response::Redirect {
                                    location,
                                    session: Some(token),
                                } && location@ == path@ && mid.sessions.spec_get(token@) is None
                                    && session_started(&mid, env, token@, email@, now)) || (
                                r is LoginError && *env == mid)));
                                r
                            },
                        }
                    },
                    None => Response::LoginError,
                }
            },
            _ => Response::Rejected(Rejection::BadRequest),
        };
    }
    let user = match user {
        None => return Response::Rejected(Rejection::NotLoggedIn),
        Some(user) => user,
    };
    if form.logout {
        if let Some(session_id) = &session_id {
            delete_session(env, session_id.as_str());
        }
        return Response::Redirect { location: String::from_str(path), session: None };
    }
    if form.delete {
        return match get_content(env, post_id) {
            Some(post) => {
                if post.post.user == user.user_id {
                    delete_post(env, post_id);
                    let n = post_id.unicode_len();
                    let back = if n > 0 {
                        post_id.substring_char(0, n - 1)
                    } else {
                        post_id
                    };
                    assert(back@ =~= parent_location(post_id@));
                    Response::Redirect { location: String::from_str(back), session: None }
                } else {
                    Response::Rejected(Rejection::InsufficientPermissions)
                }
            },
            None => Response::Rejected(Rejection::InvalidPost),
        };
    }
    match (&form.title, &form.content) {
        (Some(title), Some(content)) => {
            if title.unicode_len() != 1 {
                return Response::Rejected(Rejection::OneCharOnly);
            }
            if !validchar(title.as_str().get_char(0)) {
                return Response::Rejected(Rejection::NotAlphanumeric);
            }
            let full = String::from_str(post_id).concat(title.as_str());
            match create_post(env, full.as_str(), content.as_str(), user.user_id.as_str()) {
                Ok(()) => {
                    let slash = "/";
                    proof {
                        reveal_strlit("/");
                    }
                    let location = String::from_str(slash).concat(full.as_str());
                    assert(location@ =~= seq!['/'] + full@);
                    Response::Redirect { location, session: None }
                },
                Err(e) => Response::Rejected(reply_rejection(e)),
            }
        },
        _ => Response::Rejected(Rejection::MissingFields),
    }
}

} // verus!
