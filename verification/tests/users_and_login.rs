use inventario::auth::{
    decide_login, finish_login, is_bcrypt_hash, login_outcome, password_matches, DbUser, LoginDecision,
    LoginOutcome,
};
use inventario::usuarios::{hash_new_password, password_change};

// A hash written by Python's bcrypt for "correctbatteryhorsestapler".
const PY_HASH: &str = "$2b$04$EGdrhbKUv8Oc9vGiXX0HQOxSg445d458Muh7DAHskb6QbtCvdxcie";

fn user(stored: &str) -> DbUser {
    DbUser {
        user_id: 7,
        username: "ana".to_string(),
        password_hash: stored.to_string(),
        rol: Some("admin".to_string()),
    }
}

#[test]
fn bcrypt_hashes_are_recognised_by_prefix() {
    assert!(is_bcrypt_hash(PY_HASH));
    assert!(is_bcrypt_hash("$2"));
    assert!(!is_bcrypt_hash("$1abc"));
    assert!(!is_bcrypt_hash("2b$04$x"));
    assert!(!is_bcrypt_hash("$"));
    assert!(!is_bcrypt_hash(""));
}

#[test]
fn passwords_check_out_against_hashes_and_plain_text() {
    assert!(password_matches("correctbatteryhorsestapler", PY_HASH));
    assert!(!password_matches("wrong", PY_HASH));
    // an unreadable hash accepts nothing
    assert!(!password_matches("x", "$2b$04$short"));
    assert!(password_matches("secreto", "secreto"));
    assert!(!password_matches("secreto ", "secreto"));
}

#[test]
fn login_without_user_is_rejected() {
    assert!(matches!(login_outcome("x", None), LoginOutcome::Rejected));
}

#[test]
fn login_with_wrong_password_is_rejected() {
    assert!(matches!(login_outcome("wrong", Some(user(PY_HASH))), LoginOutcome::Rejected));
    assert!(matches!(login_outcome("wrong", Some(user("plain"))), LoginOutcome::Rejected));
}

#[test]
fn login_with_hashed_password_keeps_the_hash() {
    match login_outcome("correctbatteryhorsestapler", Some(user(PY_HASH))) {
        LoginOutcome::Accepted { user, new_hash } => {
            assert_eq!(user.username, "ana");
            assert_eq!(user.rol, Some("admin".to_string()));
            assert_eq!(user.id, 7);
            assert!(new_hash.is_none());
        }
        LoginOutcome::Rejected => panic!("rejected"),
    }
}

#[test]
fn login_with_plain_password_gets_a_hash_that_logs_in_again() {
    let h = match login_outcome("secreto", Some(user("secreto"))) {
        LoginOutcome::Accepted { new_hash: Some(h), .. } => h,
        _ => panic!("expected an accepted login with a new hash"),
    };
    assert_ne!(h, "secreto");
    assert_eq!(h.len(), 60);
    assert!(h.starts_with("$2b$12$"));
    assert!(is_bcrypt_hash(&h));
    match login_outcome("secreto", Some(user(&h))) {
        LoginOutcome::Accepted { new_hash, .. } => assert!(new_hash.is_none()),
        LoginOutcome::Rejected => panic!("rehashed password was rejected"),
    }
}

#[test]
fn new_passwords_are_hashed() {
    let h = hash_new_password("clave").unwrap();
    assert_ne!(h, "clave");
    assert!(h.starts_with("$2b$12$"));
    assert!(password_matches("clave", &h));
}

#[test]
fn blank_password_edit_keeps_the_old_password() {
    assert_eq!(password_change("").unwrap(), None);
    assert_eq!(password_change("  \t").unwrap(), None);
    let h = password_change(" nueva ").unwrap().unwrap();
    assert!(password_matches(" nueva ", &h));
    assert!(!password_matches("nueva", &h));
}

#[test]
fn decisions_before_hashing() {
    assert!(matches!(decide_login("x", None), LoginDecision::Rejected));
    match decide_login("secreto", Some(user("secreto"))) {
        LoginDecision::Accepted { user, rehash } => {
            assert!(rehash);
            assert_eq!(user.id, 7);
        }
        LoginDecision::Rejected => panic!("rejected"),
    }
    match decide_login("correctbatteryhorsestapler", Some(user(PY_HASH))) {
        LoginDecision::Accepted { rehash, .. } => assert!(!rehash),
        LoginDecision::Rejected => panic!("rejected"),
    }
}

#[test]
fn finishing_a_login() {
    let accepted = |rehash| LoginDecision::Accepted {
        user: inventario::auth::UserInfo { username: "ana".into(), rol: None, id: 1 },
        rehash,
    };
    match finish_login(accepted(true), Some("h".to_string())) {
        LoginOutcome::Accepted { new_hash, .. } => assert_eq!(new_hash, Some("h".to_string())),
        LoginOutcome::Rejected => panic!("rejected"),
    }
    match finish_login(accepted(false), Some("h".to_string())) {
        LoginOutcome::Accepted { new_hash, .. } => assert_eq!(new_hash, None),
        LoginOutcome::Rejected => panic!("rejected"),
    }
    assert!(matches!(finish_login(LoginDecision::Rejected, Some("h".into())), LoginOutcome::Rejected));
}
