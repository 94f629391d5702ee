use threadboard::db::post::{delete_post, get_content, get_replies, post_content, MAX_REPLIES};
use threadboard::db::user::{
    create_session, create_user, delete_session, get_session, get_user, open_session,
    validate_session,
};
use threadboard::db::Env;
use threadboard::post::create_post;
use threadboard::key_codec::get_prefix;
use threadboard::post_obj::{Post, PostError};
use threadboard::render::{assemble_thread, author_name, render_page};
use threadboard::user_obj::{User, UserAccount};

fn board_with_root() -> Env {
    let mut env = Env::new(3600);
    assert_eq!(create_post(&mut env, "", "welcome", "admin"), Ok(()));
    env
}

fn user(id: &str) -> User {
    User {
        account: UserAccount { hash: String::new(), username: id.to_string() },
        user_id: id.to_string(),
    }
}

#[test]
fn create_post_scenario() {
    let mut env = board_with_root();
    assert_eq!(create_post(&mut env, "ab", "reply", "bob"), Err(PostError::ParentMissing));
    assert_eq!(create_post(&mut env, "a", "hello", "alice"), Ok(()));
    assert_eq!(create_post(&mut env, "a", "other", "bob"), Err(PostError::AlreadyExists));

    let replies = get_replies(&env, "");
    assert_eq!(replies.len(), 1);
    assert_eq!(replies[0].title, "a");
    assert_eq!(replies[0].post.user, "alice");
    assert_eq!(replies[0].post.content, "hello");

    assert_eq!(create_post(&mut env, "ab", "reply", "bob"), Ok(()));
    let post = get_content(&env, "ab").unwrap();
    assert_eq!(post.title, "ab");
    assert_eq!(post.post.user, "bob");
    assert_eq!(post.post.content, "reply");
}

#[test]
fn account_scenario() {
    let mut env = Env::new(3600);
    assert_eq!(create_user(&mut env, "u1", "alice", "pw1"), Some("u1".to_string()));
    assert_eq!(create_user(&mut env, "u1", "mallory", "pw2"), None);
    assert_eq!(get_user(&env, "u1").unwrap().account.username, "alice");
    let token = create_session(&mut env, "u1", "pw1", 100);
    assert!(token.is_some());
    assert_eq!(create_session(&mut env, "u1", "wrong", 100), None);
}

#[test]
fn session_round_trip() {
    let mut env = Env::new(60);
    create_user(&mut env, "u1", "alice", "pw1").unwrap();
    let token = create_session(&mut env, "u1", "pw1", 1000).unwrap();
    assert_eq!(token.len(), 32);
    assert!(token.chars().all(|c| c.is_ascii_digit() || ('a'..='f').contains(&c)));
    let user = get_session(&mut env, &token, 1001).unwrap();
    assert_eq!(user.user_id, "u1");
    assert_eq!(user.account.username, "alice");
    assert_eq!(create_session(&mut env, "u1", "pw2", 1000), None);
    assert_eq!(create_session(&mut env, "nobody", "pw1", 1000), None);
}

#[test]
fn deleted_session_no_longer_validates() {
    let mut env = Env::new(60);
    create_user(&mut env, "u1", "alice", "pw1").unwrap();
    let token = create_session(&mut env, "u1", "pw1", 0).unwrap();
    assert!(get_session(&mut env, &token, 1).is_some());
    delete_session(&mut env, &token);
    assert!(get_session(&mut env, &token, 2).is_none());
    delete_session(&mut env, &token);
    delete_session(&mut env, "never-issued");
    assert!(get_session(&mut env, "never-issued", 2).is_none());
}

#[test]
fn session_names_its_user_after_the_account_is_gone() {
    let mut env = Env::new(60);
    create_user(&mut env, "u1", "alice", "pw1").unwrap();
    let token = create_session(&mut env, "u1", "pw1", 0).unwrap();
    env.users.delete("u1");
    assert_eq!(validate_session(&mut env, &token, 1), Some("u1".to_string()));
    assert!(get_session(&mut env, &token, 2).is_none());
    assert_eq!(validate_session(&mut env, &token, 61), Some("u1".to_string()));
    assert_eq!(validate_session(&mut env, &token, 200), None);
    assert_eq!(validate_session(&mut env, "unknown", 1), None);
}

#[test]
fn sessions_slide_and_lapse() {
    let mut env = Env::new(10);
    create_user(&mut env, "u1", "alice", "pw1").unwrap();
    let token = create_session(&mut env, "u1", "pw1", 100).unwrap();
    assert_eq!(env.sessions.get(&token).unwrap().expires_at, 110);
    // each use renews the lifetime
    assert!(get_session(&mut env, &token, 109).is_some());
    assert_eq!(env.sessions.get(&token).unwrap().expires_at, 119);
    assert!(get_session(&mut env, &token, 118).is_some());
    // a lapsed session is refused and removed
    assert!(get_session(&mut env, &token, 128).is_none());
    assert!(env.sessions.get(&token).is_none());
    assert!(get_session(&mut env, &token, 100).is_none());
}

#[test]
fn session_deadline_saturates() {
    let mut env = Env::new(u64::MAX);
    create_user(&mut env, "u1", "alice", "pw1").unwrap();
    let token = create_session(&mut env, "u1", "pw1", 5).unwrap();
    assert_eq!(env.sessions.get(&token).unwrap().expires_at, u64::MAX);
}

#[test]
fn replies_come_in_key_order() {
    let mut env = board_with_root();
    for c in ["b", "a", "C", "7"] {
        assert_eq!(create_post(&mut env, c, "x", "alice"), Ok(()));
    }
    assert_eq!(create_post(&mut env, "ab", "deeper", "alice"), Ok(()));
    let titles: Vec<String> = get_replies(&env, "").into_iter().map(|p| p.title).collect();
    assert_eq!(titles, vec!["7", "C", "a", "b"]);
    let titles: Vec<String> = get_replies(&env, "a").into_iter().map(|p| p.title).collect();
    assert_eq!(titles, vec!["ab"]);
    assert!(get_replies(&env, "b").is_empty());
    assert!(get_replies(&env, &"a".repeat(512)).is_empty());
}

#[test]
fn reply_scan_is_capped() {
    let mut env = board_with_root();
    let chars: Vec<char> = ('0'..='9').chain('A'..='Z').chain('a'..='z').collect();
    for c in &chars {
        assert_eq!(create_post(&mut env, &c.to_string(), "x", "alice"), Ok(()));
    }
    let replies = get_replies(&env, "");
    assert_eq!(replies.len(), MAX_REPLIES);
    assert_eq!(replies[0].title, "0");
    assert_eq!(replies[MAX_REPLIES - 1].title, "n");
}

#[test]
fn root_with_fifty_replies_lists_all() {
    let mut env = board_with_root();
    let chars: Vec<char> = ('0'..='9').chain('A'..='Z').chain('a'..='z').take(MAX_REPLIES).collect();
    for c in &chars {
        assert_eq!(create_post(&mut env, &c.to_string(), "x", "alice"), Ok(()));
    }
    let titles: Vec<String> = get_replies(&env, "").into_iter().map(|p| p.title).collect();
    let expected: Vec<String> = chars.iter().map(|c| c.to_string()).collect();
    assert_eq!(titles, expected);
}

#[test]
fn content_is_escaped_when_written() {
    let mut env = board_with_root();
    assert_eq!(create_post(&mut env, "a", "<b>Tom & Jerry</b>", "alice"), Ok(()));
    assert_eq!(get_content(&env, "a").unwrap().post.content, "&lt;b&gt;Tom &amp; Jerry&lt;/b&gt;");
    assert_eq!(post_content(&mut env, "q", "a>b", user("bob")), Ok(()));
    assert_eq!(get_content(&env, "q").unwrap().post.content, "a&gt;b");
}

#[test]
fn invalid_and_overlong_paths_are_refused() {
    let mut env = board_with_root();
    assert_eq!(create_post(&mut env, "a$", "x", "alice"), Err(PostError::InvalidChar));
    assert_eq!(create_post(&mut env, "a b", "x", "alice"), Err(PostError::InvalidChar));
    assert_eq!(post_content(&mut env, " b", "x", user("alice")), Err(PostError::InvalidChar));
    assert!(get_content(&env, "b").is_none());
    let parent = "a".repeat(511);
    assert_eq!(post_content(&mut env, &parent, "x", user("alice")), Err(PostError::ParentMissing));
    // a parent at the longest creatable length, stored directly
    let post = Post { user: "alice".to_string(), content: "x".to_string() };
    env.posts.put(get_prefix(&parent, 0).unwrap(), post);
    assert!(get_content(&env, &parent).is_some());
    let child = "a".repeat(512);
    assert_eq!(create_post(&mut env, &child, "x", "alice"), Err(PostError::PathTooLong));
    assert_eq!(post_content(&mut env, &child, "x", user("alice")), Err(PostError::PathTooLong));
    assert_eq!(post_content(&mut env, &"a".repeat(513), "x", user("alice")), Err(PostError::ParentMissing));
    assert!(get_content(&env, &child).is_none());
}

#[test]
fn post_content_never_overwrites_or_orphans() {
    let mut env = board_with_root();
    assert_eq!(post_content(&mut env, "ab", "reply", user("bob")), Err(PostError::ParentMissing));
    assert!(get_content(&env, "ab").is_none());
    assert_eq!(post_content(&mut env, "a", "hello", user("alice")), Ok(()));
    assert_eq!(post_content(&mut env, "a", "other", user("bob")), Err(PostError::AlreadyExists));
    let post = get_content(&env, "a").unwrap();
    assert_eq!(post.post.user, "alice");
    assert_eq!(post.post.content, "hello");
    assert_eq!(post_content(&mut env, "ab", "reply", user("bob")), Ok(()));
}

#[test]
fn paths_with_other_characters_name_no_post() {
    let mut env = board_with_root();
    create_post(&mut env, "a", "hello", "alice").unwrap();
    assert!(get_content(&env, " a").is_none());
    assert!(get_content(&env, " ").is_none());
    assert!(get_replies(&env, " ").is_empty());
    delete_post(&mut env, " a");
    assert!(get_content(&env, "a").is_some());
}

#[test]
fn sessions_open_only_under_unused_tokens() {
    let mut env = Env::new(60);
    assert!(open_session(&mut env, "u1", "t1", 0));
    assert!(!open_session(&mut env, "u2", "t1", 5));
    assert_eq!(env.sessions.get("t1").unwrap().user_id, "u1");
    assert_eq!(env.sessions.get("t1").unwrap().expires_at, 60);
    assert_eq!(validate_session(&mut env, "t1", 10), Some("u1".to_string()));
}

#[test]
fn deleting_a_post_keeps_its_replies() {
    let mut env = board_with_root();
    create_post(&mut env, "a", "parent", "alice").unwrap();
    create_post(&mut env, "ab", "child", "bob").unwrap();
    delete_post(&mut env, "a");
    assert!(get_content(&env, "a").is_none());
    assert_eq!(get_content(&env, "ab").unwrap().post.content, "child");
    assert!(get_replies(&env, "").is_empty());
    assert_eq!(get_replies(&env, "a").len(), 1);
    delete_post(&mut env, "a");
    delete_post(&mut env, &"a".repeat(600));
}

#[test]
fn thread_joins_post_replies_and_authors() {
    let mut env = board_with_root();
    create_user(&mut env, "alice", "Alice A.", "pw").unwrap();
    create_post(&mut env, "a", "hi", "alice").unwrap();
    create_post(&mut env, "aa", "first", "ghost").unwrap();
    create_post(&mut env, "ab", "second", "alice").unwrap();
    let thread = assemble_thread(&env, "a").unwrap();
    assert_eq!(thread.post.title, "a");
    assert_eq!(author_name(&thread.post.user), "Alice A.");
    assert_eq!(thread.replies.len(), 2);
    assert_eq!(thread.replies[0].title, "aa");
    assert_eq!(author_name(&thread.replies[0].user), "[DELETED]");
    assert_eq!(thread.replies[1].title, "ab");
    assert_eq!(thread.replies[1].user.as_ref().unwrap().user_id, "alice");
    assert!(assemble_thread(&env, "zz").is_none());
}

#[test]
fn page_shows_what_the_viewer_may_do() {
    let mut env = board_with_root();
    create_user(&mut env, "alice", "Alice", "pw").unwrap();
    create_post(&mut env, "a", "by alice", "alice").unwrap();
    create_post(&mut env, "ab", "by ghost", "ghost").unwrap();

    let anonymous = render_page(&env, "/a", true, None).unwrap();
    assert_eq!(anonymous.title, "a");
    assert_eq!(anonymous.content, "by alice");
    assert_eq!(anonymous.author, "Alice");
    assert_eq!(anonymous.back_path, "");
    assert_eq!(anonymous.username, "");
    assert!(anonymous.show_login && !anonymous.show_logout);
    assert!(!anonymous.show_create_post && !anonymous.show_edit);
    assert!(anonymous.login_error);
    assert_eq!(anonymous.replies.len(), 1);
    assert_eq!(anonymous.replies[0].title, "ab");
    assert_eq!(anonymous.replies[0].content, "by ghost");
    assert_eq!(anonymous.replies[0].author, "[DELETED]");

    let author = render_page(&env, "/a", false, get_user(&env, "alice")).unwrap();
    assert!(!author.show_login && author.show_logout && author.show_create_post);
    assert!(author.show_edit);
    assert_eq!(author.username, "Alice");
    assert!(!author.login_error);

    let reply_page = render_page(&env, "/ab", false, get_user(&env, "alice")).unwrap();
    assert_eq!(reply_page.author, "[Deleted]");
    assert_eq!(reply_page.back_path, "a");
    assert!(!reply_page.show_edit);

    assert!(render_page(&env, "/zz", false, None).is_none());
}
