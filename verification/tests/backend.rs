//! Tests for the authentication backend and the `UserAuth` record that ties
//! a session to a password hash.

use cosmeredle::backend::{Backend, UserAuth};

fn user(name: &str, bcrypt: &str) -> UserAuth {
    UserAuth { id: 1, username: name.to_string(), bcrypt: bcrypt.to_string() }
}

#[test]
fn auth_user_exposes_its_id_and_hash() {
    let u = UserAuth {
        id: 7,
        username: "session".into(),
        bcrypt: "$2b$04$hash".into(),
    };

    assert_eq!(u.id(), 7);
    // Sessions are bound to the password hash, so changing a password logs
    // every existing session out.
    assert_eq!(u.session_auth_hash(), b"$2b$04$hash");
}

#[test]
fn an_empty_password_only_matches_a_hash_of_the_empty_password() {
    let hash = bcrypt_of("");
    assert!(Backend.verify_credentials(Some(user("auth-empty", &hash)), "").is_some());
    assert!(Backend.verify_credentials(Some(user("auth-empty", &hash)), "x").is_none());
}

#[test]
fn an_unknown_user_verifies_to_none() {
    assert!(Backend.verify_credentials(None, "anything").is_none());
}

#[test]
fn a_corrupt_stored_hash_verifies_to_none() {
    for password in ["not-a-bcrypt-hash", "", "anything"] {
        assert!(
            Backend
                .verify_credentials(Some(user("auth-corrupt", "not-a-bcrypt-hash")), password)
                .is_none(),
            "{password:?} should not authenticate against a corrupt hash"
        );
    }
}

#[test]
fn a_matching_password_returns_the_user_and_others_do_not() {
    let hash = bcrypt_of("correct horse");
    let found = Backend.verify_credentials(Some(user("auth-ok", &hash)), "correct horse");
    assert_eq!(found.map(|u| u.username), Some("auth-ok".to_string()));

    for password in ["wrong horse", "Correct horse", " correct horse", "correct horse "] {
        assert!(
            Backend.verify_credentials(Some(user("auth-ok", &hash)), password).is_none(),
            "{password:?} should not authenticate"
        );
    }
}

#[test]
fn a_hash_that_is_not_of_this_password_is_rejected() {
    let hash = bcrypt_of("hunter2");
    assert!(Backend.verify_credentials(Some(user("someone", &hash)), "hunter3").is_none());
    assert!(Backend.verify_credentials(Some(user("someone", &hash)), "hunter2").is_some());
}

/// A bcrypt hash of `password`, made with the lowest cost.
fn bcrypt_of(password: &str) -> String {
    bcrypt::hash(password, 4).expect("hash")
}
