use threadboard::crypto_helpers::{hash_password, verify_password};

#[test]
fn hash_password_unique() {
    let password = "password";
    let hash1 = hash_password(password);
    let hash2 = hash_password(password);
    assert_ne!(hash1, hash2);
    assert_ne!(hash1, "");
}

#[test]
fn verify_password_match() {
    let password = "password123";
    let hash1 = hash_password(password);
    assert!(verify_password(password, &hash1));

    let password2 = "password1234";
    assert_eq!(verify_password(password2, &hash1), false);
}

#[test]
fn hash_record_names_argon2id() {
    let hash = hash_password("pw");
    assert!(hash.starts_with("$argon2id$v=19$m=4096,t=3,p=1$"));
    assert_eq!(hash.chars().count(), 96);
    assert_eq!(hash.chars().nth(52), Some('$'));
    assert_ne!(hash, "pw");
    let salt: String = hash.chars().skip(30).take(22).collect();
    assert!(salt.chars().all(|c| c.is_ascii_alphanumeric() || c == '+' || c == '/'));
    assert!(matches!(salt.chars().last(), Some('A' | 'Q' | 'g' | 'w')));
    let other = hash_password("pw");
    let other_salt: String = other.chars().skip(30).take(22).collect();
    assert_ne!(salt, other_salt);
}

#[test]
fn malformed_record_is_refused() {
    assert!(!verify_password("pw", ""));
    assert!(!verify_password("pw", "not a hash record"));
    assert!(!verify_password("pw", "not-a-hash"));
    assert!(!verify_password("pw", "$argon2id$v=19$m=4096,t=3,p=1$broken"));
}
