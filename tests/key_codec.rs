use threadboard::cookies::session_id_from_cookies;
use threadboard::key_codec::{get_prefix, KEY_WIDTH};
use threadboard::kv::{compare_keys, starts_with};
use threadboard::post::validchar;
use threadboard::post_obj::PostError;

fn pad(n: usize) -> String {
    " ".repeat(n)
}

#[test]
fn valid_char() {
    assert!(validchar('z'), "z is valid char");
    assert!(validchar('0'), "4 is valid char");
    assert!(validchar('A'), "A is valid char");
    assert!(!validchar('$'), "$ is not valid char");
    assert!(!validchar('!'), "! is not valid char");
    assert!(!validchar('#'), "# is not valid char");
    assert!(!validchar('~'), "~ is not valid char");
}

#[test]
fn exact_key_is_left_padded_to_full_width() {
    let key = get_prefix("ab", 0).unwrap();
    assert_eq!(key.chars().count(), KEY_WIDTH);
    assert_eq!(key, format!("{}ab", pad(510)));
}

#[test]
fn reply_scan_key_leaves_one_position_out() {
    let key = get_prefix("ab", 1).unwrap();
    assert_eq!(key.chars().count(), 511);
    assert_eq!(key, format!("{}ab", pad(509)));
}

#[test]
fn root_key_is_all_padding() {
    assert_eq!(get_prefix("", 0).unwrap(), pad(512));
    assert_eq!(get_prefix("", 1).unwrap(), pad(511));
}

#[test]
fn overlong_paths_have_no_key() {
    let full = "a".repeat(512);
    assert!(get_prefix(&full, 0).is_ok());
    assert_eq!(get_prefix(&full, 1), Err(PostError::PathTooLong));
    assert_eq!(get_prefix(&"a".repeat(513), 0), Err(PostError::PathTooLong));
    assert_eq!(get_prefix("", 513), Err(PostError::PathTooLong));
}

#[test]
fn distinct_paths_have_distinct_keys() {
    let paths = ["", "a", "b", "aa", "ab", "ba", "A", "a0"];
    for (i, p) in paths.iter().enumerate() {
        for (j, q) in paths.iter().enumerate() {
            let kp = get_prefix(p, 0).unwrap();
            let kq = get_prefix(q, 0).unwrap();
            assert_eq!(i == j, kp == kq, "{:?} {:?}", p, q);
        }
    }
}

#[test]
fn reply_scan_matches_direct_children_only() {
    let scan = get_prefix("a", 1).unwrap();
    let key = |p: &str| get_prefix(p, 0).unwrap();
    assert!(starts_with(&key("ab"), &scan));
    assert!(starts_with(&key("a9"), &scan));
    assert!(!starts_with(&key("a"), &scan));
    assert!(!starts_with(&key("b"), &scan));
    assert!(!starts_with(&key("ba"), &scan));
    assert!(!starts_with(&key("abc"), &scan));
    assert!(!starts_with(&key(""), &scan));
}

#[test]
fn root_scan_matches_root_and_first_level() {
    let scan = get_prefix("", 1).unwrap();
    let key = |p: &str| get_prefix(p, 0).unwrap();
    assert!(starts_with(&key(""), &scan));
    assert!(starts_with(&key("x"), &scan));
    assert!(!starts_with(&key("xy"), &scan));
}

#[test]
fn keys_compare_lexicographically() {
    assert!(compare_keys("a", "b") < 0);
    assert!(compare_keys("b", "a") > 0);
    assert_eq!(compare_keys("ab", "ab"), 0);
    assert!(compare_keys("a", "ab") < 0);
    assert!(compare_keys("", "a") < 0);
    assert!(compare_keys("Z", "a") < 0);
    assert!(compare_keys(" b", "a") < 0);
}

#[test]
fn session_token_is_read_from_cookie_header() {
    assert_eq!(session_id_from_cookies("sessionId=abc"), Some("abc".to_string()));
    assert_eq!(session_id_from_cookies("theme=dark; sessionId = abc ; x=y"), Some("abc".to_string()));
    assert_eq!(session_id_from_cookies("sessionId=one; sessionId=two"), Some("two".to_string()));
    assert_eq!(session_id_from_cookies("sessionId=a=b"), Some("a".to_string()));
    assert_eq!(session_id_from_cookies("sessionId="), Some("".to_string()));
    assert_eq!(session_id_from_cookies("theme=dark"), None);
    assert_eq!(session_id_from_cookies(""), None);
    assert_eq!(session_id_from_cookies("sessionIdx=1; session=2"), None);
    assert_eq!(session_id_from_cookies("broken; sessionId=k"), Some("k".to_string()));
}
