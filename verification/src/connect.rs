//! The steps of connecting a Proton account: email and password first, then
//! a TOTP code when the account has one, then a mailbox password when the
//! account uses a separate one.
use vstd::prelude::*;

use crate::api::AuthTokens;
use crate::auth::LoginResponse;
use crate::session::PendingSession;
use crate::text::{chars_of, extend_str, string_of};

verus! {

/// How a prompted field is entered.
#[derive(Debug, Clone, Copy, PartialEq, Eq, Structural)]
pub enum FieldKind {
    Text,
    Password,
}

/// One field the user is asked to fill in.
#[derive(Debug, Clone)]
pub struct PromptField {
    pub id: String,
    pub label: String,
    pub kind: FieldKind,
    pub required: bool,
    pub help: Option<String>,
}

/// The text values of the fields a connect request carries (`None` when a
/// field is missing or not a string).
#[derive(Debug, Clone)]
pub struct ConnectData {
    pub email: Option<String>,
    pub password: Option<String>,
    pub totp: Option<String>,
    pub mailbox_password: Option<String>,
}

/// What a connect request asks for.
#[derive(Debug, Clone)]
pub enum ConnectStep {
    /// Nothing was submitted: ask for the email and the password.
    Credentials,
    /// Log in with an email and a password.
    Login { email: String, password: String },
    /// Submit a TOTP code for the pending login.
    Totp { code: String },
    /// Finish the pending login with a mailbox password.
    MailboxPassword { password: String },
}

/// What comes after a step of the login.
#[derive(Debug, Clone, Copy, PartialEq, Eq, Structural)]
pub enum LoginNext {
    /// Keep the pending login and ask for a TOTP code.
    AskTotp,
    /// Keep the pending login and ask for the mailbox password.
    AskMailboxPassword,
    /// Unlock the keys with the login password and store the session.
    Finish,
}

/// Why a connect request was refused.
#[derive(Debug, Clone)]
pub enum ConnectError {
    /// A field the step needs was not submitted.
    MissingCredential { key: String },
    /// The account's only second factor is FIDO2.
    Fido2NotSupported,
    /// A TOTP code was submitted but the pending login does not wait for one.
    NotWaitingForTotp,
    /// A mailbox password was submitted before the TOTP code.
    TotpFirst,
    /// A mailbox password was submitted for an account that has none.
    NoMailboxPassword,
}

/// A field counts as submitted when it holds a non-empty text.
pub open spec fn submitted(v: Option<String>) -> Option<Seq<char>> {
    match v {
        Some(s) => if s@.len() > 0 {
            Some(s@)
        } else {
            None
        },
        None => None,
    }
}

/// The step a request asks for: an email starts a login (which then needs a
/// password), else a TOTP code, else a mailbox password, else nothing.
pub open spec fn step_matches(d: &ConnectData, r: Result<ConnectStep, ConnectError>) -> bool {
    if submitted(d.email) is Some {
        match submitted(d.password) {
            Some(p) => r matches Ok(ConnectStep::Login { email, password }) && Some(email@)
                == submitted(d.email) && password@ == p,
            None => r matches Err(ConnectError::MissingCredential { key }) && key@ == "password"@,
        }
    } else if submitted(d.totp) is Some {
        r matches Ok(ConnectStep::Totp { code }) && Some(code@) == submitted(d.totp)
    } else if submitted(d.mailbox_password) is Some {
        r matches Ok(ConnectStep::MailboxPassword { password }) && Some(password@) == submitted(
            d.mailbox_password,
        )
    } else {
        r matches Ok(ConnectStep::Credentials)
    }
}

/// Whether the field holds a non-empty text.
fn is_submitted(v: &Option<String>) -> (r: bool)
    ensures
        r == (submitted(*v) is Some),
{
    match v {
        Some(s) => !s.as_str().is_empty(),
        None => false,
    }
}

/// The text of a submitted field.
fn submitted_text(v: &Option<String>) -> (r: String)
    requires
        submitted(*v) is Some,
    ensures
        Some(r@) == submitted(*v),
{
    match v {
        Some(s) => s.clone(),
        None => String::new(),
    }
}

/// The step a connect request asks for (see [`step_matches`]).
pub fn connect_step(data: &ConnectData) -> (r: Result<ConnectStep, ConnectError>)
    ensures
        step_matches(data, r),
{
    if is_submitted(&data.email) {
        if is_submitted(&data.password) {
            return Ok(
                ConnectStep::Login {
                    email: submitted_text(&data.email),
                    password: submitted_text(&data.password),
                },
            );
        }
        return Err(ConnectError::MissingCredential { key: string_of(&chars_of("password")) });
    }
    if is_submitted(&data.totp) {
        return Ok(ConnectStep::Totp { code: submitted_text(&data.totp) });
    }
    if is_submitted(&data.mailbox_password) {
        return Ok(ConnectStep::MailboxPassword { password: submitted_text(&data.mailbox_password) });
    }
    Ok(ConnectStep::Credentials)
}

/// The TOTP bit of the enabled second factors.
pub const TOTP_ENABLED: u32 = 1;

/// The password mode of accounts with a separate mailbox password.
pub const TWO_PASSWORD_MODE: u8 = 2;

/// The pending login made of a password login: it waits for a TOTP code when
/// TOTP is enabled; it is refused when a second factor other than TOTP is
/// the only one enabled. Next comes the TOTP code, else the mailbox password
/// in two-password mode, else the end of the login.
pub fn after_login(base_url: &str, email: &str, password: &str, login: LoginResponse) -> (r: Result<
    (PendingSession, LoginNext),
    ConnectError,
>)
    ensures
        r is Err <==> (login.two_factor.enabled != 0 && login.two_factor.enabled & TOTP_ENABLED
            == 0),
        r matches Err(e) ==> e is Fido2NotSupported,
        r matches Ok((p, next)) ==> {
            &&& p.base_url@ == base_url@
            &&& p.email@ == email@
            &&& p.uid == login.uid
            &&& p.access_token == login.access_token
            &&& p.refresh_token == login.refresh_token
            &&& p.login_password@ == password@
            &&& p.password_mode == login.password_mode
            &&& p.needs_totp == (login.two_factor.enabled & TOTP_ENABLED != 0)
            &&& next == if p.needs_totp {
                LoginNext::AskTotp
            } else if p.password_mode == TWO_PASSWORD_MODE {
                LoginNext::AskMailboxPassword
            } else {
                LoginNext::Finish
            }
        },
{
    let enabled = login.two_factor.enabled;
    if enabled != 0 && enabled & TOTP_ENABLED == 0 {
        return Err(ConnectError::Fido2NotSupported);
    }
    let needs_totp = enabled & TOTP_ENABLED != 0;
    let password_mode = login.password_mode;
    let pending = PendingSession {
        base_url: string_of(&chars_of(base_url)),
        email: string_of(&chars_of(email)),
        uid: login.uid,
        access_token: login.access_token,
        refresh_token: login.refresh_token,
        login_password: string_of(&chars_of(password)),
        password_mode,
        needs_totp,
    };
    let next = if needs_totp {
        LoginNext::AskTotp
    } else if password_mode == TWO_PASSWORD_MODE {
        LoginNext::AskMailboxPassword
    } else {
        LoginNext::Finish
    };
    Ok((pending, next))
}

/// A TOTP code is taken only when the pending login waits for one.
pub fn check_totp_step(pending: &PendingSession) -> (r: Result<(), ConnectError>)
    ensures
        r is Ok <==> pending.needs_totp,
        r matches Err(e) ==> e is NotWaitingForTotp,
{
    if !pending.needs_totp {
        return Err(ConnectError::NotWaitingForTotp);
    }
    Ok(())
}

/// The pending login after its TOTP code was accepted: it no longer waits
/// for one and holds the session's current tokens. Next comes the mailbox
/// password in two-password mode, else the end of the login.
pub fn after_totp(pending: PendingSession, tokens: AuthTokens) -> (r: (PendingSession, LoginNext))
    ensures
        !r.0.needs_totp,
        r.0.uid == tokens.uid,
        r.0.access_token == tokens.access_token,
        r.0.refresh_token == tokens.refresh_token,
        r.0.base_url == pending.base_url,
        r.0.email == pending.email,
        r.0.login_password == pending.login_password,
        r.0.password_mode == pending.password_mode,
        r.1 == if pending.password_mode == TWO_PASSWORD_MODE {
            LoginNext::AskMailboxPassword
        } else {
            LoginNext::Finish
        },
{
    let next = if pending.password_mode == TWO_PASSWORD_MODE {
        LoginNext::AskMailboxPassword
    } else {
        LoginNext::Finish
    };
    (
        PendingSession {
            uid: tokens.uid,
            access_token: tokens.access_token,
            refresh_token: tokens.refresh_token,
            needs_totp: false,
            ..pending
        },
        next,
    )
}

/// A mailbox password is taken only after the TOTP code and only in
/// two-password mode.
pub fn check_mailbox_step(pending: &PendingSession) -> (r: Result<(), ConnectError>)
    ensures
        r is Ok <==> !pending.needs_totp && pending.password_mode == TWO_PASSWORD_MODE,
        pending.needs_totp ==> (r matches Err(e) && e is TotpFirst),
        !pending.needs_totp && pending.password_mode != TWO_PASSWORD_MODE ==> (r matches Err(e)
            && e is NoMailboxPassword),
{
    if pending.needs_totp {
        return Err(ConnectError::TotpFirst);
    }
    if pending.password_mode != TWO_PASSWORD_MODE {
        return Err(ConnectError::NoMailboxPassword);
    }
    Ok(())
}

/// A required prompt field.
fn field(id: &str, label: &str, kind: FieldKind, help: Option<&str>) -> (r: PromptField)
    ensures
        r.id@ == id@,
        r.label@ == label@,
        r.kind == kind,
        r.required,
        match help {
            Some(h) => r.help matches Some(t) && t@ == h@,
            None => r.help is None,
        },
{
    PromptField {
        id: string_of(&chars_of(id)),
        label: string_of(&chars_of(label)),
        kind,
        required: true,
        help: match help {
            Some(h) => Some(string_of(&chars_of(h))),
            None => None,
        },
    }
}

/// Whether a field is required, has the given id, label and kind, and no help.
pub open spec fn plain_field(f: PromptField, id: Seq<char>, label: Seq<char>, kind: FieldKind) -> bool {
    f.id@ == id && f.label@ == label && f.kind == kind && f.required && f.help is None
}

/// The first prompt: the email (text) and the password.
pub fn credentials_prompt() -> (r: Vec<PromptField>)
    ensures
        r@.len() == 2,
        plain_field(r@[0], "email"@, "Proton email"@, FieldKind::Text),
        plain_field(r@[1], "password"@, "Password"@, FieldKind::Password),
{
    let mut r: Vec<PromptField> = Vec::new();
    r.push(field("email", "Proton email", FieldKind::Text, None));
    r.push(field("password", "Password", FieldKind::Password, None));
    r
}

/// The text that explains the mailbox password prompt.
pub const MAILBOX_PASSWORD_HELP: &'static str =
    "This account uses a separate password to unlock encrypted data.";

/// The prompt for what comes next: the TOTP code, or the mailbox password
/// with its explanation; nothing when the login is finished.
pub fn prompt_for(next: &LoginNext) -> (r: Option<Vec<PromptField>>)
    ensures
        *next is Finish <==> r is None,
        *next is AskTotp ==> (r matches Some(fields) && fields@.len() == 1 && plain_field(
            fields@[0],
            "totp"@,
            "TOTP code"@,
            FieldKind::Password,
        )),
        *next is AskMailboxPassword ==> (r matches Some(fields) && fields@.len() == 1 && ({
            let f = fields@[0];
            &&& f.id@ == "mailbox_password"@
            &&& f.label@ == "Mailbox password"@
            &&& f.kind == FieldKind::Password
            &&& f.required
            &&& f.help matches Some(h) && h@ == MAILBOX_PASSWORD_HELP@
        })),
{
    match next {
        LoginNext::AskTotp => {
            let mut r: Vec<PromptField> = Vec::new();
            r.push(field("totp", "TOTP code", FieldKind::Password, None));
            Some(r)
        },
        LoginNext::AskMailboxPassword => {
            let mut r: Vec<PromptField> = Vec::new();
            r.push(
                field(
                    "mailbox_password",
                    "Mailbox password",
                    FieldKind::Password,
                    Some(MAILBOX_PASSWORD_HELP),
                ),
            );
            Some(r)
        },
        LoginNext::Finish => None,
    }
}

/// The message a refusal is reported with.
pub open spec fn connect_error_message(e: ConnectError) -> Seq<char> {
    match e {
        ConnectError::MissingCredential { key } => "Missing required Proton credential: "@ + key@,
        ConnectError::Fido2NotSupported => "This Proton account requires FIDO2 authentication, which caldir-provider-proton does not support"@,
        ConnectError::NotWaitingForTotp => "The pending Proton login is not waiting for a TOTP code"@,
        ConnectError::TotpFirst => "Submit the Proton TOTP code before the mailbox password"@,
        ConnectError::NoMailboxPassword => "The pending Proton login does not require a mailbox password"@,
    }
}

impl ConnectError {
    /// The message the refusal is reported with (see
    /// [`connect_error_message`]).
    pub fn message(&self) -> (r: String)
        ensures
            r@ == connect_error_message(*self),
    {
        let mut out: Vec<char> = Vec::new();
        match self {
            ConnectError::MissingCredential { key } => {
                extend_str(&mut out, "Missing required Proton credential: ");
                extend_str(&mut out, key.as_str());
            },
            ConnectError::Fido2NotSupported => {
                extend_str(
                    &mut out,
                    "This Proton account requires FIDO2 authentication, which caldir-provider-proton does not support",
                );
            },
            ConnectError::NotWaitingForTotp => {
                extend_str(&mut out, "The pending Proton login is not waiting for a TOTP code");
            },
            ConnectError::TotpFirst => {
                extend_str(&mut out, "Submit the Proton TOTP code before the mailbox password");
            },
            ConnectError::NoMailboxPassword => {
                extend_str(&mut out, "The pending Proton login does not require a mailbox password");
            },
        }
        string_of(&out)
    }
}

/// A login is finished only when no TOTP code is outstanding and no mailbox
/// password is still to come: whatever path a login takes, the keys are
/// unlocked with the mailbox password in two-password mode and with the
/// login password otherwise.
pub proof fn lemma_finish_only_when_complete(p: PendingSession, next: LoginNext)
    requires
        next == (if p.needs_totp {
            LoginNext::AskTotp
        } else if p.password_mode == TWO_PASSWORD_MODE {
            LoginNext::AskMailboxPassword
        } else {
            LoginNext::Finish
        }),
        next is Finish,
    ensures
        !p.needs_totp,
        p.password_mode != TWO_PASSWORD_MODE,
{
}

} // verus!
