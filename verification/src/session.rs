//! The stored Proton session and the login that is still waiting for a second
//! step, with the rules that name their files and carry tokens between them.
use base64::Engine;
use vstd::prelude::*;

use crate::api::AuthTokens;
use crate::text::{ascii_lower_char, chars_of, extend_str, lower_char, string_of};

verus! {

/// A Proton session kept between runs.
#[derive(Debug, Clone)]
pub struct Session {
    pub base_url: String,
    pub email: String,
    pub uid: String,
    pub access_token: String,
    pub refresh_token: String,
    /// The key secret, base64 encoded.
    pub key_password: String,
    pub password_mode: u8,
}

/// A login that still waits for a TOTP code or a mailbox password.
#[derive(Debug, Clone)]
pub struct PendingSession {
    pub base_url: String,
    pub email: String,
    pub uid: String,
    pub access_token: String,
    pub refresh_token: String,
    pub login_password: String,
    pub password_mode: u8,
    pub needs_totp: bool,
}

/// The name of the file that holds the pending login.
pub const PENDING_FILE_NAME: &'static str = "pending.toml";

/// The characters that are not kept in a file name.
pub open spec fn is_path_unsafe(c: char) -> bool {
    c == '/' || c == '\\' || c == ':' || c == '@' || c == '.'
}

/// One character of a slug: ASCII lower case, with path-unsafe characters
/// replaced by `_`.
pub open spec fn slug_char(c: char) -> char {
    if is_path_unsafe(ascii_lower_char(c)) {
        '_'
    } else {
        ascii_lower_char(c)
    }
}

/// The slug of an account: its characters mapped by [`slug_char`].
pub open spec fn slug_of(email: Seq<char>) -> Seq<char> {
    email.map_values(|c: char| slug_char(c))
}

/// The name of the file that holds the session of an account.
pub open spec fn session_file_name_of(account: Seq<char>) -> Seq<char> {
    slug_of(account) + ".toml"@
}

/// The base64 text of bytes in the standard alphabet with padding, as the
/// `base64` crate's `STANDARD` engine encodes them.
pub uninterp spec fn base64_standard_encoding(bytes: Seq<u8>) -> Seq<char>;

/// The bytes that the `base64` crate's `STANDARD` engine decodes a text to,
/// or `None` when it rejects the text.
pub uninterp spec fn base64_standard_decoding(text: Seq<char>) -> Option<Seq<u8>>;

/// `base64::engine::general_purpose::STANDARD.encode(bytes)`: the canonical
/// RFC 4648 encoding, which the same engine decodes back to the bytes.
#[verifier::external_body]
fn base64_encode(bytes: &[u8]) -> (r: String)
    requires
        bytes@.len() <= usize::MAX / 2,
    ensures
        r@ == base64_standard_encoding(bytes@),
        base64_standard_decoding(r@) == Some(bytes@),
{
    base64::engine::general_purpose::STANDARD.encode(bytes)
}

/// `base64::engine::general_purpose::STANDARD.decode(text)`, with the
/// crate's error dropped.
#[verifier::external_body]
fn base64_decode(text: &str) -> (r: Option<Vec<u8>>)
    ensures
        match r {
            Some(b) => base64_standard_decoding(text@) == Some(b@),
            None => base64_standard_decoding(text@) is None,
        },
{
    match base64::engine::general_purpose::STANDARD.decode(text) {
        Ok(bytes) => Some(bytes),
        Err(_) => None,
    }
}

impl Session {
    /// The identifier caldir knows the account by: its email.
    pub fn account_identifier(&self) -> (r: String)
        ensures
            r@ == self.email@,
    {
        self.email.clone()
    }

    /// The slug of an account (see [`slug_of`]).
    pub fn slug(email: &str) -> (r: String)
        ensures
            r@ == slug_of(email@),
    {
        let chars = chars_of(email);
        let mut out: Vec<char> = Vec::new();
        let mut i: usize = 0;
        while i < chars.len()
            invariant
                i <= chars.len(),
                out@ == slug_of(chars@.take(i as int)),
            decreases chars.len() - i,
        {
            let c = lower_char(chars[i]);
            if c == '/' || c == '\\' || c == ':' || c == '@' || c == '.' {
                out.push('_');
            } else {
                out.push(c);
            }
            i = i + 1;
            assert(out@ =~= slug_of(chars@.take(i as int)));
        }
        assert(chars@.take(chars.len() as int) =~= chars@);
        string_of(&out)
    }

    /// The session with the tokens of a refresh or a later step of the login;
    /// everything else is kept.
    pub fn with_tokens(self, tokens: AuthTokens) -> (r: Session)
        ensures
            r.uid == tokens.uid,
            r.access_token == tokens.access_token,
            r.refresh_token == tokens.refresh_token,
            r.base_url == self.base_url,
            r.email == self.email,
            r.key_password == self.key_password,
            r.password_mode == self.password_mode,
    {
        Session {
            uid: tokens.uid,
            access_token: tokens.access_token,
            refresh_token: tokens.refresh_token,
            ..self
        }
    }

    /// The tokens of the session.
    pub fn tokens(&self) -> (r: AuthTokens)
        ensures
            r.uid == self.uid,
            r.access_token == self.access_token,
            r.refresh_token == self.refresh_token,
    {
        AuthTokens {
            uid: self.uid.clone(),
            access_token: self.access_token.clone(),
            refresh_token: self.refresh_token.clone(),
        }
    }

    /// The key secret that was stored with the session; `None` when the
    /// stored text is not valid base64.
    pub fn key_secret(&self) -> (r: Option<Vec<u8>>)
        ensures
            match r {
                Some(b) => base64_standard_decoding(self.key_password@) == Some(b@),
                None => base64_standard_decoding(self.key_password@) is None,
            },
    {
        base64_decode(self.key_password.as_str())
    }
}

/// The name of the file that holds the session of an account: its slug with
/// `.toml`.
pub fn session_file_name(account: &str) -> (r: String)
    ensures
        r@ == session_file_name_of(account@),
{
    let slug = Session::slug(account);
    let mut out = chars_of(slug.as_str());
    extend_str(&mut out, ".toml");
    string_of(&out)
}

/// The session a pending login acts with: its URL, account, tokens and
/// password mode, with the given key password.
pub fn session_from_pending(pending: &PendingSession, key_password: String) -> (r: Session)
    ensures
        r.base_url == pending.base_url,
        r.email == pending.email,
        r.uid == pending.uid,
        r.access_token == pending.access_token,
        r.refresh_token == pending.refresh_token,
        r.key_password == key_password,
        r.password_mode == pending.password_mode,
{
    Session {
        base_url: pending.base_url.clone(),
        email: pending.email.clone(),
        uid: pending.uid.clone(),
        access_token: pending.access_token.clone(),
        refresh_token: pending.refresh_token.clone(),
        key_password,
        password_mode: pending.password_mode,
    }
}

/// The session stored at the end of a login: the pending login's URL,
/// account and password mode, the tokens the session holds now, and the key
/// secret base64 encoded.
pub fn session_after_login(pending: &PendingSession, tokens: AuthTokens, key_secret: &Vec<u8>) -> (r:
    Session)
    requires
        key_secret@.len() <= usize::MAX / 2,
    ensures
        r.base_url == pending.base_url,
        r.email == pending.email,
        r.uid == tokens.uid,
        r.access_token == tokens.access_token,
        r.refresh_token == tokens.refresh_token,
        r.key_password@ == base64_standard_encoding(key_secret@),
        base64_standard_decoding(r.key_password@) == Some(key_secret@),
        r.password_mode == pending.password_mode,
{
    Session {
        base_url: pending.base_url.clone(),
        email: pending.email.clone(),
        uid: tokens.uid,
        access_token: tokens.access_token,
        refresh_token: tokens.refresh_token,
        key_password: base64_encode(key_secret.as_slice()),
        password_mode: pending.password_mode,
    }
}

/// Accounts that differ only in ASCII case share one session file.
pub proof fn lemma_session_file_ignores_case(a: Seq<char>, b: Seq<char>)
    requires
        a.len() == b.len(),
        forall|i: int| 0 <= i < a.len() ==> ascii_lower_char(a[i]) == ascii_lower_char(b[i]),
    ensures
        session_file_name_of(a) == session_file_name_of(b),
{
    assert(slug_of(a) =~= slug_of(b));
}

} // verus!
