use threadboard::db::post::get_content;
use threadboard::db::user::{create_user, get_user};
use threadboard::db::Env;
use threadboard::post::{create_post, handle_post_request, FormRequest, Rejection, Response};
use threadboard::user_obj::User;

fn form() -> FormRequest {
    FormRequest {
        login: false,
        register: false,
        logout: false,
        delete: false,
        email: None,
        password: None,
        username: None,
        title: None,
        content: None,
    }
}

fn reply(title: &str, content: &str) -> FormRequest {
    FormRequest { title: Some(title.to_string()), content: Some(content.to_string()), ..form() }
}

fn login(email: &str, password: &str) -> FormRequest {
    FormRequest {
        login: true,
        email: Some(email.to_string()),
        password: Some(password.to_string()),
        ..form()
    }
}

fn signed_in(env: &Env, id: &str) -> Option<User> {
    get_user(env, id)
}

fn rejected(r: &Response) -> Option<Rejection> {
    match r {
        Response::Rejected(why) => Some(*why),
        _ => None,
    }
}

fn board() -> Env {
    let mut env = Env::new(3600);
    create_post(&mut env, "", "root", "admin").unwrap();
    create_user(&mut env, "alice", "Alice", "pw").unwrap();
    env
}

#[test]
fn login_redirects_with_a_session() {
    let mut env = board();
    match handle_post_request(&mut env, "/a", &login("alice", "pw"), None, None, 0) {
        Response::Redirect { location, session } => {
            assert_eq!(location, "/a");
            let token = session.unwrap();
            assert_eq!(env.sessions.get(&token).unwrap().user_id, "alice");
        }
        _ => panic!("expected a redirect"),
    }
    let r = handle_post_request(&mut env, "/a", &login("alice", "nope"), None, None, 0);
    assert!(matches!(r, Response::LoginError));
    let incomplete = FormRequest { login: true, email: Some("alice".to_string()), ..form() };
    let r = handle_post_request(&mut env, "/", &incomplete, None, None, 0);
    assert_eq!(rejected(&r), Some(Rejection::BadRequest));
}

#[test]
fn registration_logs_in_once_per_id() {
    let mut env = board();
    let register = FormRequest {
        register: true,
        email: Some("bob".to_string()),
        password: Some("pw2".to_string()),
        username: Some("Bob".to_string()),
        ..form()
    };
    match handle_post_request(&mut env, "/", &register, None, None, 0) {
        Response::Redirect { location, session } => {
            assert_eq!(location, "/");
            assert_eq!(env.sessions.get(&session.unwrap()).unwrap().user_id, "bob");
        }
        _ => panic!("expected a redirect"),
    }
    assert_eq!(get_user(&env, "bob").unwrap().account.username, "Bob");
    let r = handle_post_request(&mut env, "/", &register, None, None, 0);
    assert!(matches!(r, Response::LoginError));
}

#[test]
fn anonymous_users_cannot_post() {
    let mut env = board();
    let r = handle_post_request(&mut env, "/", &reply("a", "hi"), None, None, 0);
    assert_eq!(rejected(&r), Some(Rejection::NotLoggedIn));
    assert_eq!(Rejection::NotLoggedIn.status(), 401);
    assert!(get_content(&env, "a").is_none());
}

#[test]
fn replies_are_validated() {
    let mut env = board();
    let alice = || signed_in(&env, "alice");
    let (u1, u2, u3, u4, u5, u6) = (alice(), alice(), alice(), alice(), alice(), alice());
    let sid = || Some("s".to_string());
    let r = handle_post_request(&mut env, "/", &reply("ab", "x"), u1, sid(), 0);
    assert_eq!(rejected(&r), Some(Rejection::OneCharOnly));
    let r = handle_post_request(&mut env, "/", &reply("$", "x"), u2, sid(), 0);
    assert_eq!(rejected(&r), Some(Rejection::NotAlphanumeric));
    let r = handle_post_request(&mut env, "/zz", &reply("a", "x"), u3, sid(), 0);
    assert_eq!(rejected(&r), Some(Rejection::NoSuchParent));
    match handle_post_request(&mut env, "/", &reply("a", "<hi>"), u4, sid(), 0) {
        Response::Redirect { location, session } => {
            assert_eq!(location, "/a");
            assert!(session.is_none());
        }
        _ => panic!("expected a redirect"),
    }
    assert_eq!(get_content(&env, "a").unwrap().post.content, "&lt;hi&gt;");
    assert_eq!(get_content(&env, "a").unwrap().post.user, "alice");
    let r = handle_post_request(&mut env, "/", &reply("a", "again"), u5, sid(), 0);
    assert_eq!(rejected(&r), Some(Rejection::PostExists));
    assert_eq!(Rejection::PostExists.status(), 409);
    let r = handle_post_request(&mut env, "/", &FormRequest { title: Some("b".to_string()), ..form() }, u6, sid(), 0);
    assert_eq!(rejected(&r), Some(Rejection::MissingFields));
    assert_eq!(Rejection::MissingFields.status(), 400);
}

#[test]
fn only_the_author_deletes() {
    let mut env = board();
    create_user(&mut env, "bob", "Bob", "pw2").unwrap();
    create_post(&mut env, "a", "x", "alice").unwrap();
    create_post(&mut env, "ab", "y", "alice").unwrap();
    let delete = FormRequest { delete: true, ..form() };
    let bob = signed_in(&env, "bob");
    let r = handle_post_request(&mut env, "/ab", &delete, bob, Some("s".to_string()), 0);
    assert_eq!(rejected(&r), Some(Rejection::InsufficientPermissions));
    let alice = signed_in(&env, "alice");
    match handle_post_request(&mut env, "/ab", &delete, alice, Some("s".to_string()), 0) {
        Response::Redirect { location, .. } => assert_eq!(location, "a"),
        _ => panic!("expected a redirect"),
    }
    assert!(get_content(&env, "ab").is_none());
    let alice = signed_in(&env, "alice");
    let r = handle_post_request(&mut env, "/ab", &delete, alice, Some("s".to_string()), 0);
    assert_eq!(rejected(&r), Some(Rejection::InvalidPost));
}

#[test]
fn logout_ends_the_session() {
    let mut env = board();
    let token = match handle_post_request(&mut env, "/", &login("alice", "pw"), None, None, 0) {
        Response::Redirect { session, .. } => session.unwrap(),
        _ => panic!("expected a redirect"),
    };
    let logout = FormRequest { logout: true, ..form() };
    let alice = signed_in(&env, "alice");
    match handle_post_request(&mut env, "/a", &logout, alice, Some(token.clone()), 5) {
        Response::Redirect { location, session } => {
            assert_eq!(location, "/a");
            assert!(session.is_none());
        }
        _ => panic!("expected a redirect"),
    }
    assert!(env.sessions.get(&token).is_none());
}
