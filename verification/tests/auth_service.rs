use webkernel::auth::{
    hash_password, issue_token, now_seconds, signin, signup, verify_password, verify_token,
    AuthError, CredentialStore, TOKEN_TTL_SECONDS,
};

const KEY: &[u8] = b"secret";

#[test]
fn password_round_trip() {
    let hash = hash_password("hunter2").expect("hashing succeeds");
    assert!(verify_password("hunter2", hash.as_str()));
    assert!(!verify_password("hunter3", hash.as_str()));
    assert!(!verify_password("", hash.as_str()));
}

#[test]
fn hashes_of_the_same_password_differ_by_salt() {
    let h1 = hash_password("hunter2").expect("hashing succeeds");
    let h2 = hash_password("hunter2").expect("hashing succeeds");
    assert_ne!(h1, h2);
    assert!(verify_password("hunter2", h1.as_str()));
    assert!(verify_password("hunter2", h2.as_str()));
}

#[test]
fn malformed_hash_never_verifies() {
    assert!(!verify_password("hunter2", "not-a-phc-string"));
    assert!(!verify_password("hunter2", ""));
}

#[test]
fn token_round_trip_before_expiry() {
    let now: u64 = 1_700_000_000;
    let token = issue_token(KEY, "alice", now, 60);
    let claims = verify_token(KEY, token.as_str(), now + 59).expect("verifies before expiry");
    assert_eq!(claims.subject, "alice");
    assert_eq!(claims.expiry, now + 60);
}

#[test]
fn token_fails_after_expiry() {
    let now: u64 = 1_700_000_000;
    let token = issue_token(KEY, "alice", now, 60);
    let err = verify_token(KEY, token.as_str(), now + 60).unwrap_err();
    assert_eq!(err, AuthError::ExpiredToken);
    let err2 = verify_token(KEY, token.as_str(), now + 3600).unwrap_err();
    assert_eq!(err2, AuthError::ExpiredToken);
}

#[test]
fn token_fails_under_wrong_key_or_garbage() {
    let now: u64 = 1_700_000_000;
    let token = issue_token(KEY, "alice", now, 60);
    let err = verify_token(b"other-secret", token.as_str(), now).unwrap_err();
    assert_eq!(err, AuthError::InvalidToken);
    let err2 = verify_token(KEY, "definitely.not.a-token", now).unwrap_err();
    assert_eq!(err2, AuthError::InvalidToken);
    let err3 = verify_token(KEY, "", now).unwrap_err();
    assert_eq!(err3, AuthError::InvalidToken);
}

#[test]
fn token_issued_now_verifies_now() {
    let now = now_seconds();
    let token = issue_token(KEY, "bob", now, TOKEN_TTL_SECONDS);
    let claims = verify_token(KEY, token.as_str(), now_seconds()).expect("verifies fresh");
    assert_eq!(claims.subject, "bob");
}

#[test]
fn token_issuance_is_deterministic() {
    let now: u64 = 1_700_000_000;
    let t1 = issue_token(KEY, "alice", now, 60);
    let t2 = issue_token(KEY, "alice", now, 60);
    assert_eq!(t1, t2);
    assert!(!t1.is_empty());
    assert_ne!(t1, issue_token(KEY, "bob", now, 60));
    assert_ne!(t1, issue_token(KEY, "alice", now + 1, 60));
}

#[test]
fn stored_hash_is_a_phc_string() {
    let mut store = CredentialStore::new();
    signup(&mut store, "alice", "secret").expect("signup succeeds");
    let stored = store.lookup("alice").expect("record exists");
    assert!(stored.starts_with("$argon2"));
}

#[test]
fn signup_then_signin() {
    let now: u64 = 1_700_000_000;
    let mut store = CredentialStore::new();
    signup(&mut store, "alice", "secret").expect("signup succeeds");
    assert!(store.lookup("alice").is_some());
    assert!(store.lookup("bob").is_none());

    let token = signin(&store, "alice", "secret", KEY, now, 60).expect("signin succeeds");
    let claims = verify_token(KEY, token.as_str(), now + 1).expect("token verifies");
    assert_eq!(claims.subject, "alice");

    assert_eq!(
        signin(&store, "alice", "wrong", KEY, now, 60).unwrap_err(),
        AuthError::InvalidPassword
    );
    assert_eq!(
        signin(&store, "bob", "secret", KEY, now, 60).unwrap_err(),
        AuthError::UserDoesNotExist
    );
}

#[test]
fn signup_overwrites_an_existing_credential() {
    let now: u64 = 1_700_000_000;
    let mut store = CredentialStore::new();
    signup(&mut store, "alice", "first").expect("signup succeeds");
    signup(&mut store, "alice", "second").expect("signup succeeds");
    assert_eq!(
        signin(&store, "alice", "first", KEY, now, 60).unwrap_err(),
        AuthError::InvalidPassword
    );
    assert!(signin(&store, "alice", "second", KEY, now, 60).is_ok());
}

#[test]
fn stored_credential_is_not_the_plaintext() {
    let mut store = CredentialStore::new();
    signup(&mut store, "alice", "secret").expect("signup succeeds");
    let stored = store.lookup("alice").expect("record exists");
    assert_ne!(stored, "secret");
    assert!(verify_password("secret", stored.as_str()));
}
