//! The rules of the Proton API conversation: which replies are accepted, what
//! a rejected reply is reported as, and when a request is sent again.
use vstd::prelude::*;

use crate::decimal::{parse_u64, parse_u64_chars, push_signed_decimal, signed_decimal};
use crate::text::{ascii_lower, chars_of, contains_chars, contains_text, extend_str, lower_chars, string_of};

verus! {

/// The tokens of a Proton session.
#[derive(Debug, Clone)]
pub struct AuthTokens {
    pub uid: String,
    pub access_token: String,
    pub refresh_token: String,
}

/// What the reply checks read of an API reply: the HTTP status (with its text, such
/// as `422 Unprocessable Entity`) and the fields of the JSON body.
#[derive(Debug, Clone)]
pub struct ApiReply {
    pub status: u16,
    pub status_text: String,
    /// `Code`, when it is an integer.
    pub code: Option<i64>,
    /// `Error`, when it is a string.
    pub error: Option<String>,
    /// `Details.HumanVerificationMethods`, else `Details.Methods`, as JSON text.
    pub verification_methods: Option<String>,
    /// `Details.WebUrl`, when it is a string.
    pub verification_url: Option<String>,
}

/// A reply that the API rejected.
#[derive(Debug, Clone)]
pub enum ApiError {
    /// Proton wants the user to prove they are human first.
    HumanVerification { methods: String, web_url: String },
    /// The username or password is wrong.
    BadCredentials,
    /// The session may no longer be used.
    SessionExpired,
    /// Any other rejection.
    Rejected { code: i64, status_text: String, message: String },
}

/// The API code of a reply; a missing code counts as 0.
pub open spec fn reply_code(r: &ApiReply) -> i64 {
    match r.code {
        Some(c) => c,
        None => 0,
    }
}

/// A reply is accepted when its HTTP status is a success (2xx) and its code
/// is 0, 1000 or 1001.
pub open spec fn reply_accepted(r: &ApiReply) -> bool {
    &&& 200 <= r.status <= 299
    &&& (reply_code(r) == 0 || reply_code(r) == 1000 || reply_code(r) == 1001)
}

/// An optional text, or a default.
pub open spec fn text_or(t: Option<String>, default: Seq<char>) -> Seq<char> {
    match t {
        Some(s) => s@,
        None => default,
    }
}

/// What a rejected reply is reported as: code 9001 asks for human
/// verification, 8002 rejects the credentials, 10013 ends the session, and
/// any other code is reported with its HTTP status and message.
pub open spec fn rejection_matches(r: &ApiReply, e: ApiError) -> bool {
    let code = reply_code(r);
    if code == 9001 {
        e matches ApiError::HumanVerification { methods, web_url } && methods@ == text_or(
            r.verification_methods,
            "unknown"@,
        ) && web_url@ == text_or(r.verification_url, "https://account.proton.me"@)
    } else if code == 8002 {
        e is BadCredentials
    } else if code == 10013 {
        e is SessionExpired
    } else {
        e matches ApiError::Rejected { code: c, status_text, message } && c == code
            && status_text == r.status_text && message@ == text_or(
            r.error,
            "unknown Proton API error"@,
        )
    }
}

/// The text of an optional value, or a default text.
fn text_or_default(t: &Option<String>, default: &str) -> (r: String)
    ensures
        r@ == text_or(*t, default@),
{
    match t {
        Some(s) => s.clone(),
        None => string_of(&chars_of(default)),
    }
}

/// Accepts a reply or says what its rejection is (see [`reply_accepted`] and
/// [`rejection_matches`]).
pub fn check_api_response(reply: &ApiReply) -> (r: Result<(), ApiError>)
    ensures
        r is Ok <==> reply_accepted(reply),
        r matches Err(e) ==> rejection_matches(reply, e),
{
    let code: i64 = match reply.code {
        Some(c) => c,
        None => 0,
    };
    if 200 <= reply.status && reply.status <= 299 && (code == 0 || code == 1000 || code == 1001) {
        return Ok(());
    }
    if code == 9001 {
        return Err(
            ApiError::HumanVerification {
                methods: text_or_default(&reply.verification_methods, "unknown"),
                web_url: text_or_default(&reply.verification_url, "https://account.proton.me"),
            },
        );
    }
    if code == 8002 {
        return Err(ApiError::BadCredentials);
    }
    if code == 10013 {
        return Err(ApiError::SessionExpired);
    }
    Err(
        ApiError::Rejected {
            code,
            status_text: reply.status_text.clone(),
            message: text_or_default(&reply.error, "unknown Proton API error"),
        },
    )
}

/// The message a rejection is reported with.
pub open spec fn error_message(e: ApiError) -> Seq<char> {
    match e {
        ApiError::HumanVerification { methods, web_url } => "Proton requires human verification (methods: "@
            + methods@ + "). Complete it at "@ + web_url@ + ", then retry from the same network"@,
        ApiError::BadCredentials => "Proton rejected the username or password"@,
        ApiError::SessionExpired => "Proton session expired; run `caldir connect proton` again"@,
        ApiError::Rejected { code, status_text, message } => "Proton API error "@ + signed_decimal(
            code,
        ) + " (HTTP "@ + status_text@ + "): "@ + message@,
    }
}

impl ApiError {
    /// The message the rejection is reported with (see [`error_message`]).
    pub fn message(&self) -> (r: String)
        ensures
            r@ == error_message(*self),
    {
        let mut out: Vec<char> = Vec::new();
        match self {
            ApiError::HumanVerification { methods, web_url } => {
                extend_str(&mut out, "Proton requires human verification (methods: ");
                extend_str(&mut out, methods.as_str());
                extend_str(&mut out, "). Complete it at ");
                extend_str(&mut out, web_url.as_str());
                extend_str(&mut out, ", then retry from the same network");
            },
            ApiError::BadCredentials => {
                extend_str(&mut out, "Proton rejected the username or password");
            },
            ApiError::SessionExpired => {
                extend_str(&mut out, "Proton session expired; run `caldir connect proton` again");
            },
            ApiError::Rejected { code, status_text, message } => {
                extend_str(&mut out, "Proton API error ");
                push_signed_decimal(&mut out, *code);
                extend_str(&mut out, " (HTTP ");
                extend_str(&mut out, status_text.as_str());
                extend_str(&mut out, "): ");
                extend_str(&mut out, message.as_str());
            },
        }
        string_of(&out)
    }
}

/// A rejection that asks for a narrower time window: a rejection whose
/// message, in ASCII lower case, mentions a "time window".
pub open spec fn asks_narrower_window(e: ApiError) -> bool {
    e matches ApiError::Rejected { message, .. } && contains_text(
        ascii_lower(message@),
        "time window"@,
    )
}

/// Whether a rejection asks for a narrower time window (see
/// [`asks_narrower_window`]).
pub fn is_time_window_too_big(e: &ApiError) -> (r: bool)
    ensures
        r == asks_narrower_window(*e),
{
    match e {
        ApiError::Rejected { message, .. } => {
            let lowered = lower_chars(&chars_of(message.as_str()));
            let needle = chars_of("time window");
            contains_chars(&lowered, &needle)
        },
        _ => false,
    }
}

/// A base URL without the slashes it ends with.
pub open spec fn trim_trailing_slashes(s: Seq<char>) -> Seq<char>
    decreases s.len(),
{
    if s.len() > 0 && s.last() == '/' {
        trim_trailing_slashes(s.drop_last())
    } else {
        s
    }
}

/// The URL of an API path: the base URL without its trailing slashes,
/// followed by the path.
pub fn endpoint_url(base_url: &str, path: &str) -> (r: String)
    ensures
        r@ == trim_trailing_slashes(base_url@) + path@,
{
    let chars = chars_of(base_url);
    let mut end: usize = chars.len();
    assert(chars@.take(end as int) == chars@);
    while end > 0 && chars[end - 1] == '/'
        invariant
            end <= chars.len(),
            trim_trailing_slashes(chars@.take(end as int)) == trim_trailing_slashes(chars@),
        decreases end,
    {
        assert(chars@.take(end as int).drop_last() == chars@.take(end - 1));
        end = end - 1;
    }
    assert(trim_trailing_slashes(chars@.take(end as int)) == chars@.take(end as int));
    let mut out: Vec<char> = Vec::new();
    let mut i: usize = 0;
    while i < end
        invariant
            i <= end <= chars.len(),
            out@ == chars@.take(i as int),
        decreases end - i,
    {
        out.push(chars[i]);
        i = i + 1;
        assert(chars@.take(i as int) == chars@.take(i - 1).push(chars@[i - 1]));
    }
    extend_str(&mut out, path);
    string_of(&out)
}

/// HTTP 401.
pub const STATUS_UNAUTHORIZED: u16 = 401;

/// HTTP 429.
pub const STATUS_TOO_MANY_REQUESTS: u16 = 429;

/// The longest wait before a rate-limited request is sent again, in seconds.
pub const MAX_RETRY_DELAY_SECS: u64 = 30;

/// The seconds a `Retry-After` header asks for: its value when it is a whole
/// number of seconds, else 1; never more than 30.
pub open spec fn retry_delay_of(header: Option<Seq<char>>) -> u64 {
    let asked: u64 = match header {
        Some(h) => match parse_u64(h) {
            Some(n) => n,
            None => 1,
        },
        None => 1,
    };
    if asked < MAX_RETRY_DELAY_SECS {
        asked
    } else {
        MAX_RETRY_DELAY_SECS
    }
}

/// The view of an optional header value.
pub open spec fn header_view(header: Option<&str>) -> Option<Seq<char>> {
    match header {
        Some(h) => Some(h@),
        None => None,
    }
}

/// The seconds to wait before sending a rate-limited request again (see
/// [`retry_delay_of`]).
pub fn retry_delay_secs(header: Option<&str>) -> (r: u64)
    ensures
        r == retry_delay_of(header_view(header)),
        r <= MAX_RETRY_DELAY_SECS,
{
    let asked: u64 = match header {
        Some(h) => {
            let chars = chars_of(h);
            assert(chars@.subrange(0, chars@.len() as int) =~= chars@);
            match parse_u64_chars(&chars, 0, chars.len()) {
                Some(n) => n,
                None => 1,
            }
        },
        None => 1,
    };
    if asked < MAX_RETRY_DELAY_SECS {
        asked
    } else {
        MAX_RETRY_DELAY_SECS
    }
}

/// What has been done for one request so far: each of the two recoveries is
/// tried at most once.
#[derive(Debug, Clone, Copy, PartialEq, Eq, Structural)]
pub struct RequestState {
    pub refreshed: bool,
    pub rate_limited: bool,
}

/// What to do after a response arrived.
#[derive(Debug, Clone, Copy, PartialEq, Eq, Structural)]
pub enum RequestStep {
    /// Refresh the session's tokens and send the request again.
    Refresh,
    /// Wait this many seconds and send the request again.
    Wait { seconds: u64 },
    /// Read the response as it is.
    Finish,
}

impl RequestState {
    /// Nothing done yet.
    pub fn new() -> (r: RequestState)
        ensures
            !r.refreshed && !r.rate_limited,
    {
        RequestState { refreshed: false, rate_limited: false }
    }

    /// How many of the two recoveries are still available.
    pub open spec fn recoveries_left(&self) -> nat {
        (if self.refreshed {
            0nat
        } else {
            1nat
        }) + (if self.rate_limited {
            0nat
        } else {
            1nat
        })
    }

    /// The step after a response with the given status: a first 401 refreshes
    /// the session, a first 429 waits for [`retry_delay_of`] the
    /// `Retry-After` header, anything else is read as it is.
    pub fn next_step(&mut self, status: u16, retry_after: Option<&str>) -> (r: RequestStep)
        ensures
            status == STATUS_UNAUTHORIZED && !old(self).refreshed ==> {
                &&& r is Refresh
                &&& final(self).refreshed
                &&& final(self).rate_limited == old(self).rate_limited
            },
            !(status == STATUS_UNAUTHORIZED && !old(self).refreshed) && status
                == STATUS_TOO_MANY_REQUESTS && !old(self).rate_limited ==> {
                &&& r == (RequestStep::Wait { seconds: retry_delay_of(header_view(retry_after)) })
                &&& final(self).rate_limited
                &&& final(self).refreshed == old(self).refreshed
            },
            !(status == STATUS_UNAUTHORIZED && !old(self).refreshed) && !(status
                == STATUS_TOO_MANY_REQUESTS && !old(self).rate_limited) ==> {
                &&& r is Finish
                &&& final(self).refreshed == old(self).refreshed
                &&& final(self).rate_limited == old(self).rate_limited
            },
            !(r is Finish) ==> final(self).recoveries_left() + 1 == old(self).recoveries_left(),
            (*final(self), r is Finish) == after_status(*old(self), status),
    {
        if status == STATUS_UNAUTHORIZED && !self.refreshed {
            self.refreshed = true;
            return RequestStep::Refresh;
        }
        if status == STATUS_TOO_MANY_REQUESTS && !self.rate_limited {
            self.rate_limited = true;
            return RequestStep::Wait { seconds: retry_delay_secs(retry_after) };
        }
        RequestStep::Finish
    }
}

/// The state after a response with the given status, and whether that
/// response is read as it is (see [`RequestState::next_step`]).
pub open spec fn after_status(st: RequestState, status: u16) -> (RequestState, bool) {
    if status == STATUS_UNAUTHORIZED && !st.refreshed {
        (RequestState { refreshed: true, rate_limited: st.rate_limited }, false)
    } else if status == STATUS_TOO_MANY_REQUESTS && !st.rate_limited {
        (RequestState { refreshed: st.refreshed, rate_limited: true }, false)
    } else {
        (st, true)
    }
}

/// How many times a request is sent again when its responses come with
/// these statuses in turn.
pub open spec fn resends(st: RequestState, statuses: Seq<u16>) -> nat
    decreases statuses.len(),
{
    if statuses.len() == 0 {
        0
    } else if after_status(st, statuses[0]).1 {
        0
    } else {
        1 + resends(after_status(st, statuses[0]).0, statuses.skip(1))
    }
}

proof fn lemma_resends_bounded(st: RequestState, statuses: Seq<u16>)
    ensures
        resends(st, statuses) <= st.recoveries_left(),
    decreases statuses.len(),
{
    if statuses.len() > 0 && !after_status(st, statuses[0]).1 {
        lemma_resends_bounded(after_status(st, statuses[0]).0, statuses.skip(1));
    }
}

/// A request is sent at most three times, whatever statuses its responses
/// come with: it is sent again at most twice.
pub proof fn lemma_request_sends_at_most_three(statuses: Seq<u16>)
    ensures
        resends(RequestState { refreshed: false, rate_limited: false }, statuses) <= 2,
{
    lemma_resends_bounded(RequestState { refreshed: false, rate_limited: false }, statuses);
}

} // verus!
