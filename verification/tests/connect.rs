use caldir_provider_proton::api::AuthTokens;
use caldir_provider_proton::auth::{LoginResponse, TwoFactor};
use caldir_provider_proton::connect::{
    after_login, after_totp, check_mailbox_step, check_totp_step, connect_step,
    credentials_prompt, prompt_for, ConnectData, ConnectError, ConnectStep, FieldKind, LoginNext,
    MAILBOX_PASSWORD_HELP,
};

fn data(email: Option<&str>, password: Option<&str>, totp: Option<&str>, mailbox: Option<&str>) -> ConnectData {
    ConnectData {
        email: email.map(str::to_string),
        password: password.map(str::to_string),
        totp: totp.map(str::to_string),
        mailbox_password: mailbox.map(str::to_string),
    }
}

fn login(enabled: u32, password_mode: u8) -> LoginResponse {
    LoginResponse {
        uid: "uid".into(),
        access_token: "access".into(),
        refresh_token: "refresh".into(),
        server_proof: "proof".into(),
        password_mode,
        two_factor: TwoFactor { enabled },
    }
}

#[test]
fn initial_step_requests_email_and_password() {
    let step = connect_step(&data(None, None, None, None)).unwrap();
    assert!(matches!(step, ConnectStep::Credentials));
    let fields = credentials_prompt();
    assert_eq!(fields[0].id, "email");
    assert_eq!(fields[1].id, "password");
    assert_eq!(fields[0].kind, FieldKind::Text);
    assert_eq!(fields[1].kind, FieldKind::Password);
    assert!(fields.iter().all(|f| f.required && f.help.is_none()));
}

#[test]
fn submitted_fields_choose_the_step() {
    match connect_step(&data(Some("a@b.c"), Some("pw"), Some("123456"), None)).unwrap() {
        ConnectStep::Login { email, password } => {
            assert_eq!(email, "a@b.c");
            assert_eq!(password, "pw");
        },
        other => panic!("unexpected step {other:?}"),
    }
    let error = connect_step(&data(Some("a@b.c"), Some(""), None, None)).unwrap_err();
    assert_eq!(error.message(), "Missing required Proton credential: password");
    assert!(matches!(
        connect_step(&data(Some(""), None, Some("123456"), None)).unwrap(),
        ConnectStep::Totp { code } if code == "123456"
    ));
    assert!(matches!(
        connect_step(&data(None, None, None, Some("mailbox"))).unwrap(),
        ConnectStep::MailboxPassword { password } if password == "mailbox"
    ));
}

#[test]
fn login_answers_lead_to_the_next_prompt() {
    let (pending, next) = after_login("https://x", "a@b.c", "pw", login(1, 1)).unwrap();
    assert!(pending.needs_totp);
    assert_eq!(next, LoginNext::AskTotp);
    assert_eq!(pending.login_password, "pw");
    let (pending, next) = after_login("https://x", "a@b.c", "pw", login(0, 2)).unwrap();
    assert!(!pending.needs_totp);
    assert_eq!(next, LoginNext::AskMailboxPassword);
    let (_, next) = after_login("https://x", "a@b.c", "pw", login(0, 1)).unwrap();
    assert_eq!(next, LoginNext::Finish);
    let (_, next) = after_login("https://x", "a@b.c", "pw", login(3, 1)).unwrap();
    assert_eq!(next, LoginNext::AskTotp);
    let error = after_login("https://x", "a@b.c", "pw", login(2, 1)).unwrap_err();
    assert!(matches!(error, ConnectError::Fido2NotSupported));
    assert_eq!(
        error.message(),
        "This Proton account requires FIDO2 authentication, which caldir-provider-proton does not support"
    );
}

#[test]
fn totp_then_mailbox_password() {
    let (pending, _) = after_login("https://x", "a@b.c", "pw", login(1, 2)).unwrap();
    assert!(check_totp_step(&pending).is_ok());
    let error = check_mailbox_step(&pending).unwrap_err();
    assert_eq!(error.message(), "Submit the Proton TOTP code before the mailbox password");
    let tokens = AuthTokens { uid: "uid2".into(), access_token: "a2".into(), refresh_token: "r2".into() };
    let (pending, next) = after_totp(pending, tokens);
    assert_eq!(next, LoginNext::AskMailboxPassword);
    assert!(!pending.needs_totp);
    assert_eq!(pending.access_token, "a2");
    assert!(check_mailbox_step(&pending).is_ok());
    let error = check_totp_step(&pending).unwrap_err();
    assert_eq!(error.message(), "The pending Proton login is not waiting for a TOTP code");
    let (single, _) = after_login("https://x", "a@b.c", "pw", login(0, 1)).unwrap();
    let error = check_mailbox_step(&single).unwrap_err();
    assert_eq!(error.message(), "The pending Proton login does not require a mailbox password");
}

#[test]
fn prompts_for_the_next_step() {
    let totp = prompt_for(&LoginNext::AskTotp).unwrap();
    assert_eq!(totp.len(), 1);
    assert_eq!(totp[0].id, "totp");
    assert_eq!(totp[0].label, "TOTP code");
    let mailbox = prompt_for(&LoginNext::AskMailboxPassword).unwrap();
    assert_eq!(mailbox[0].id, "mailbox_password");
    assert_eq!(mailbox[0].help.as_deref(), Some(MAILBOX_PASSWORD_HELP));
    assert!(prompt_for(&LoginNext::Finish).is_none());
}
