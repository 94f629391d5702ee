//! Threads: a post with its author and its direct replies, ready to be shown.
use vstd::prelude::*;

use crate::db::post::{get_content, get_replies, reply_keys, stored_post};
use crate::key_codec::strip_padding;
use crate::db::user::is_user_of;
use crate::db::Env;
use crate::post::parent_location;
use crate::post_obj::PostTitle;
use crate::user_obj::User;

verus! {

/// A post and its direct replies, each with its path and author.
pub struct Thread {
    pub post: PostTitle,
    pub replies: Vec<PostTitle>,
}

/// The thread at `path`: `None` only where no post is stored there. Replies
/// come in the order of their keys; a missing author does not drop a post.
pub fn assemble_thread(env: &Env, path: &str) -> (r: Option<Thread>)
    requires
        env.wf(),
    ensures
        r is None <==> stored_post(env, path@) is None,
        r matches Some(t) ==> {
            &&& stored_post(env, path@) == Some(t.post.post)
            &&& t.post.title@ == path@
            &&& is_user_of(env, t.post.post.user@, t.post.user)
            &&& t.replies.len() == reply_keys(env, path@).len()
            &&& forall|j: int|
                0 <= j < t.replies.len() ==> {
                    let key = #[trigger] reply_keys(env, path@)[j];
                    &&& t.replies[j].title@ == strip_padding(key)
                    &&& env.posts.spec_get(key) == Some(t.replies[j].post)
                    &&& is_user_of(env, t.replies[j].post.user@, t.replies[j].user)
                }
        },
{
    match get_content(env, path) {
        None => None,
        Some(post) => Some(Thread { post, replies: get_replies(env, path) }),
    }
}

/// The name to show for an author: the account's username, or a marker for
/// an account that no longer exists.
pub fn author_name(user: &Option<User>) -> (r: String)
    ensures
        r@ == reply_author_name(*user),
{
    match user {
        Some(u) => u.account.username.clone(),
        None => String::from_str("[DELETED]"),
    }
}


/// One reply as a page shows it.
pub struct ReplyView {
    pub title: String,
    pub content: String,
    pub author: String,
}

/// What the page of a post shows: the post, its replies, the link back to
/// the post it replies to, and which parts of the page the viewer gets.
pub struct Page {
    pub title: String,
    pub content: String,
    pub author: String,
    pub replies: Vec<ReplyView>,
    pub back_path: String,
    pub username: String,
    pub show_login: bool,
    pub show_logout: bool,
    pub show_create_post: bool,
    pub show_edit: bool,
    pub login_error: bool,
}

/// `v` shows the reply `t`: its path, its content, its author's name.
pub open spec fn shows(v: ReplyView, t: PostTitle) -> bool {
    &&& v.title@ == t.title@
    &&& v.content@ == t.post.content@
    &&& v.author@ == reply_author_name(t.user)
}

/// The name shown for the author of a post that is being viewed.
pub open spec fn post_author_name(user: Option<User>) -> Seq<char> {
    match user {
        Some(u) => u.account.username@,
        None => "[Deleted]"@,
    }
}

/// The id a viewer must have to be offered the edit controls of a post.
pub open spec fn post_author_id(user: Option<User>) -> Seq<char> {
    match user {
        Some(u) => u.user_id@,
        None => "[Deleted]"@,
    }
}

/// The name shown for the author of a reply.
pub open spec fn reply_author_name(user: Option<User>) -> Seq<char> {
    match user {
        Some(u) => u.account.username@,
        None => "[DELETED]"@,
    }
}

/// The page of the post at `path` (which starts with `/`) for `viewer`, with
/// the failed-login notice where `is_login_error`; `None` where no post is
/// stored there. Logged-in viewers get the logout and reply controls, and
/// the edit controls on their own posts; others get the login form.
pub fn render_page(env: &Env, path: &str, is_login_error: bool, viewer: Option<User>) -> (r: Option<
    Page,
>)
    requires
        env.wf(),
        path@.len() > 0 && path@[0] == '/',
    ensures
        r is None <==> stored_post(env, path@.drop_first()) is None,
        r matches Some(page) ==> {
            let post_id = path@.drop_first();
            let keys = reply_keys(env, post_id);
            &&& stored_post(env, post_id) matches Some(post)
            &&& page.title@ == post_id
            &&& page.content@ == post.content@
            &&& exists|author: Option<User>|
                is_user_of(env, post.user@, author) && page.author@ == post_author_name(author)
                    && page.show_edit == (viewer matches Some(v) && v.user_id@ == post_author_id(
                    author,
                ))
            &&& page.replies.len() == keys.len()
            &&& forall|j: int|
                0 <= j < page.replies.len() ==> {
                    let key = #[trigger] keys[j];
                    &&& page.replies[j].title@ == strip_padding(key)
                    &&& env.posts.spec_get(key) matches Some(reply)
                    &&& page.replies[j].content@ == reply.content@
                    &&& exists|author: Option<User>|
                        is_user_of(env, reply.user@, author) && page.replies[j].author@
                            == reply_author_name(author)
                }
            &&& page.back_path@ == parent_location(post_id)
            &&& page.username@ == (match viewer {
                Some(v) => v.account.username@,
                None => Seq::<char>::empty(),
            })
            &&& page.show_login == viewer is None
            &&& page.show_logout == viewer is Some
            &&& page.show_create_post == viewer is Some
            &&& page.login_error == is_login_error
        },
{
    let post_id = path.substring_char(1, path.unicode_len());
    assert(post_id@ =~= path@.drop_first());
    let thread = match assemble_thread(env, post_id) {
        None => return None,
        Some(thread) => thread,
    };
    let ghost keys = reply_keys(env, post_id@);
    let mut replies: Vec<ReplyView> = Vec::new();
    let mut i: usize = 0;
    while i < thread.replies.len()
        invariant
            i <= thread.replies.len(),
            thread.replies.len() == keys.len(),
            replies.len() == i,
            forall|j: int|
                0 <= j < thread.replies.len() ==> {
                    let key = #[trigger] keys[j];
                    &&& thread.replies[j].title@ == strip_padding(key)
                    &&& env.posts.spec_get(key) == Some(thread.replies[j].post)
                    &&& is_user_of(env, thread.replies[j].post.user@, thread.replies[j].user)
                },
            forall|j: int| 0 <= j < i ==> shows(#[trigger] replies@[j], thread.replies@[j]),
        decreases thread.replies.len() - i,
    {
        let reply = &thread.replies[i];
        let author = author_name(&reply.user);
        let ghost before = replies@;
        replies.push(
            ReplyView { title: reply.title.clone(), content: reply.post.content.clone(), author },
        );
        assert forall|j: int| 0 <= j < i + 1 implies shows(
            #[trigger] replies@[j],
            thread.replies@[j],
        ) by {
            if j < i {
                assert(replies@[j] == before[j]);
            }
        }
        i += 1;
    }
    assert forall|j: int| 0 <= j < replies.len() implies {
        let key = #[trigger] keys[j];
        &&& replies[j].title@ == strip_padding(key)
        &&& env.posts.spec_get(key) matches Some(reply)
        &&& replies[j].content@ == reply.content@
        &&& exists|author: Option<User>|
            is_user_of(env, reply.user@, author) && replies[j].author@ == reply_author_name(author)
    } by {
        assert(shows(replies@[j], thread.replies@[j]));
        assert(is_user_of(env, thread.replies[j].post.user@, thread.replies[j].user));
    }
    let (author, author_id) = match &thread.post.user {
        Some(u) => (u.account.username.clone(), u.user_id.clone()),
        None => (String::from_str("[Deleted]"), String::from_str("[Deleted]")),
    };
    let n = post_id.unicode_len();
    let back = if n > 0 {
        post_id.substring_char(0, n - 1)
    } else {
        post_id
    };
    assert(back@ =~= parent_location(post_id@));
    let (username, show_edit) = match &viewer {
        Some(v) => (v.account.username.clone(), v.user_id == author_id),
        None => (String::new(), false),
    };
    let page = Page {
        title: String::from_str(post_id),
        content: thread.post.post.content.clone(),
        author,
        replies,
        back_path: String::from_str(back),
        username,
        show_login: viewer.is_none(),
        show_logout: viewer.is_some(),
        show_create_post: viewer.is_some(),
        show_edit,
        login_error: is_login_error,
    };
    proof {
        let post = thread.post.post;
        assert(stored_post(env, post_id@) == Some(post));
        assert(is_user_of(env, post.user@, thread.post.user));
        assert(page.author@ == post_author_name(thread.post.user));
        assert(page.show_edit == (viewer matches Some(v) && v.user_id@ == post_author_id(
            thread.post.user,
        )));
        assert(page.replies == replies);
    }
    Some(page)
}

} // verus!
