use caldir_provider_proton::api::AuthTokens;
use caldir_provider_proton::session::{
    session_after_login, session_file_name, session_from_pending, PendingSession, Session,
    PENDING_FILE_NAME,
};

fn pending() -> PendingSession {
    PendingSession {
        base_url: "https://mail.proton.me/api".into(),
        email: "alice@example.test".into(),
        uid: "uid".into(),
        access_token: "access".into(),
        refresh_token: "refresh".into(),
        login_password: "password".into(),
        password_mode: 1,
        needs_totp: true,
    }
}

#[test]
fn session_files_are_named_by_slug() {
    assert_eq!(Session::slug("Alice@Proton.me"), "alice_proton_me");
    assert_eq!(Session::slug("a/b\\c:d"), "a_b_c_d");
    assert_eq!(session_file_name("alice@proton.me"), "alice_proton_me.toml");
    assert_eq!(session_file_name("ALICE@PROTON.ME"), session_file_name("alice@proton.me"));
    assert_eq!(PENDING_FILE_NAME, "pending.toml");
}

#[test]
fn finished_login_keeps_the_key_secret() {
    let tokens = AuthTokens { uid: "u2".into(), access_token: "a2".into(), refresh_token: "r2".into() };
    let session = session_after_login(&pending(), tokens, &b"secret".to_vec());
    assert_eq!(session.key_password, "c2VjcmV0");
    assert_eq!(session.key_secret(), Some(b"secret".to_vec()));
    assert_eq!(session.uid, "u2");
    assert_eq!(session.account_identifier(), "alice@example.test");
    let broken = session_from_pending(&pending(), "not base64!".into());
    assert_eq!(broken.key_secret(), None);
    assert_eq!(broken.access_token, "access");
}

#[test]
fn refreshed_tokens_replace_the_old_ones() {
    let session = session_from_pending(&pending(), "c2VjcmV0".into());
    let tokens = AuthTokens { uid: "u3".into(), access_token: "a3".into(), refresh_token: "r3".into() };
    let session = session.with_tokens(tokens);
    let back = session.tokens();
    assert_eq!(back.uid, "u3");
    assert_eq!(back.access_token, "a3");
    assert_eq!(back.refresh_token, "r3");
    assert_eq!(session.key_password, "c2VjcmV0");
}
