//! The error type of the library and the texts it displays.

use crate::text::{contains_str, has_substring, decimal, push_decimal, signed_decimal};
use vstd::prelude::*;
use vstd::string::StringExecFns;

verus! {

/// Everything that can go wrong while talking to the platform or WeChat.
#[derive(Debug)]
pub enum DeepSeekError {
    NotAuthenticated,
    TokenExpired,
    ApiError { code: i32, msg: String },
    ApiBizError { code: i32, msg: String },
    Http(String),
    Timeout,
    Parse(String),
    QrLogin(String),
    PollTimeout(u64),
    OAuthFailed(String),
    TokenStorage(String),
}

/// The content of an error, with texts as character sequences.
pub enum ErrorView {
    NotAuthenticated,
    TokenExpired,
    ApiError { code: i32, msg: Seq<char> },
    ApiBizError { code: i32, msg: Seq<char> },
    Http(Seq<char>),
    Timeout,
    Parse(Seq<char>),
    QrLogin(Seq<char>),
    PollTimeout(u64),
    OAuthFailed(Seq<char>),
    TokenStorage(Seq<char>),
}

impl View for DeepSeekError {
    type V = ErrorView;

    open spec fn view(&self) -> ErrorView {
        match self {
            DeepSeekError::NotAuthenticated => ErrorView::NotAuthenticated,
            DeepSeekError::TokenExpired => ErrorView::TokenExpired,
            DeepSeekError::ApiError { code, msg } => ErrorView::ApiError { code: *code, msg: msg@ },
            DeepSeekError::ApiBizError { code, msg } => ErrorView::ApiBizError { code: *code, msg: msg@ },
            DeepSeekError::Http(m) => ErrorView::Http(m@),
            DeepSeekError::Timeout => ErrorView::Timeout,
            DeepSeekError::Parse(m) => ErrorView::Parse(m@),
            DeepSeekError::QrLogin(m) => ErrorView::QrLogin(m@),
            DeepSeekError::PollTimeout(s) => ErrorView::PollTimeout(*s),
            DeepSeekError::OAuthFailed(m) => ErrorView::OAuthFailed(m@),
            DeepSeekError::TokenStorage(m) => ErrorView::TokenStorage(m@),
        }
    }
}

/// A result viewed with its error as an `ErrorView`.
pub open spec fn result_view<T>(r: Result<T, DeepSeekError>) -> Result<T, ErrorView> {
    match r {
        Ok(t) => Ok(t),
        Err(e) => Err(e@),
    }
}

/// A text result viewed as character sequences.
pub open spec fn text_result_view(r: Result<String, DeepSeekError>) -> Result<Seq<char>, ErrorView> {
    match r {
        Ok(t) => Ok(t@),
        Err(e) => Err(e@),
    }
}

/// The error `ureq` reports, as the library classifies it: a timeout when
/// its text mentions one, else an HTTP failure carrying the text.
pub open spec fn http_error_view(msg: Seq<char>) -> ErrorView {
    if has_substring(msg, "timed out"@) || has_substring(msg, "timeout"@) {
        ErrorView::Timeout
    } else {
        ErrorView::Http(msg)
    }
}

/// Classifies the text of a failed HTTP request.
pub fn http_error(msg: String) -> (e: DeepSeekError)
    ensures
        e@ == http_error_view(msg@),
{
    if contains_str(msg.as_str(), "timed out") || contains_str(msg.as_str(), "timeout") {
        DeepSeekError::Timeout
    } else {
        DeepSeekError::Http(msg)
    }
}

/// Appends the decimal text of a signed integer.
pub fn push_signed(out: &mut String, n: i64)
    ensures
        final(out)@ == old(out)@ + signed_decimal(n as int),
{
    if n < 0 {
        out.push('-');
        let magnitude: u64 = if n == i64::MIN {
            9223372036854775808u64
        } else {
            (-n) as u64
        };
        push_decimal(out, magnitude);
        assert(old(out)@ + signed_decimal(n as int) =~= old(out)@.push('-') + decimal(magnitude as nat));
    } else {
        push_decimal(out, n as u64);
    }
}

/// The text shown for each error.
pub open spec fn error_text(e: DeepSeekError) -> Seq<char> {
    match e {
        DeepSeekError::NotAuthenticated => "Not authenticated. Run `deepseek login` or `deepseek token <value>` first."@,
        DeepSeekError::TokenExpired => "Session token expired. Run `deepseek login` to re-authenticate."@,
        DeepSeekError::ApiError { code, msg } => "API error "@ + signed_decimal(code as int) + ": "@ + msg@,
        DeepSeekError::ApiBizError { code, msg } => "API business error "@ + signed_decimal(code as int) + ": "@
            + msg@,
        DeepSeekError::Http(m) => "HTTP request failed: "@ + m@,
        DeepSeekError::Timeout => "Request timed out"@,
        DeepSeekError::Parse(m) => "Failed to parse API response: "@ + m@,
        DeepSeekError::QrLogin(m) => "WeChat QR login failed: "@ + m@,
        DeepSeekError::PollTimeout(secs) => "WeChat poll timed out after "@ + decimal(secs as nat) + "s"@,
        DeepSeekError::OAuthFailed(m) => "OAuth token exchange failed: "@ + m@,
        DeepSeekError::TokenStorage(m) => "Token storage error: "@ + m@,
    }
}

impl DeepSeekError {
    /// The human-readable description of the error.
    pub fn message(&self) -> (s: String)
        ensures
            s@ == error_text(*self),
    {
        match self {
            DeepSeekError::NotAuthenticated => String::from_str(
                "Not authenticated. Run `deepseek login` or `deepseek token <value>` first.",
            ),
            DeepSeekError::TokenExpired => String::from_str(
                "Session token expired. Run `deepseek login` to re-authenticate.",
            ),
            DeepSeekError::ApiError { code, msg } => {
                let mut s = String::from_str("API error ");
                push_signed(&mut s, *code as i64);
                s.append(": ");
                s.append(msg.as_str());
                s
            },
            DeepSeekError::ApiBizError { code, msg } => {
                let mut s = String::from_str("API business error ");
                push_signed(&mut s, *code as i64);
                s.append(": ");
                s.append(msg.as_str());
                s
            },
            DeepSeekError::Http(m) => String::from_str("HTTP request failed: ").concat(m.as_str()),
            DeepSeekError::Timeout => String::from_str("Request timed out"),
            DeepSeekError::Parse(m) => String::from_str("Failed to parse API response: ").concat(m.as_str()),
            DeepSeekError::QrLogin(m) => String::from_str("WeChat QR login failed: ").concat(m.as_str()),
            DeepSeekError::PollTimeout(secs) => {
                let mut s = String::from_str("WeChat poll timed out after ");
                push_decimal(&mut s, *secs);
                s.append("s");
                s
            },
            DeepSeekError::OAuthFailed(m) => String::from_str("OAuth token exchange failed: ").concat(m.as_str()),
            DeepSeekError::TokenStorage(m) => String::from_str("Token storage error: ").concat(m.as_str()),
        }
    }
}


/// A failed request whose message mentions a timeout is reported as
/// `Timeout`; any other keeps its message as an HTTP failure.
pub proof fn law_http_error_classification(msg: Seq<char>)
    ensures
        (has_substring(msg, "timed out"@) || has_substring(msg, "timeout"@)) ==> http_error_view(msg)
            == ErrorView::Timeout,
        !(has_substring(msg, "timed out"@) || has_substring(msg, "timeout"@)) ==> http_error_view(msg)
            == ErrorView::Http(msg),
{
}

} // verus!
