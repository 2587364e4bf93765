//! Session-token handling and the texts of the login flow.

use crate::error::{DeepSeekError, ErrorView};
use crate::text::{chars_of, str_equal, trim, trim_seq};
use crate::wechat::opt_text;
use vstd::prelude::*;
use vstd::string::StringExecFns;

verus! {

/// The string member `key` of the JSON object `text`, as `serde_json`
/// reads it: `None` when `text` is not JSON or the member is no string.
pub uninterp spec fn json_string_member(text: Seq<char>, key: Seq<char>) -> Option<Seq<char>>;

/// `serde_json::from_str::<serde_json::Value>(text)`, then `value[key].as_str()`.
/// The contract only names the result.
#[verifier::external_body]
fn json_member_str(text: &str, key: &str) -> (r: Option<String>)
    ensures
        match r {
            Some(s) => json_string_member(text@, key@) == Some(s@),
            None => json_string_member(text@, key@) is None,
        },
{
    match serde_json::from_str::<serde_json::Value>(text) {
        Ok(v) => match v[key].as_str() {
            Some(s) => Some(s.to_string()),
            None => None,
        },
        Err(_) => None,
    }
}

/// The session token in trimmed pasted text, given the text's `value`
/// string member as JSON (if any): that member when the text opens with
/// `{` and has one, else the text.
pub open spec fn token_given_member(trimmed: Seq<char>, member: Option<Seq<char>>) -> Seq<char> {
    if trimmed.len() > 0 && trimmed[0] == '{' {
        match member {
            Some(v) => v,
            None => trimmed,
        }
    } else {
        trimmed
    }
}

/// The session token in what the user pasted: the trimmed text, or, when it
/// is a JSON object (`{"value": "...", ...}`), its `value` string.
pub open spec fn pasted_token(input: Seq<char>) -> Seq<char> {
    let t = trim_seq(input);
    token_given_member(t, json_string_member(t, "value"@))
}

/// Chooses the session token from trimmed pasted text and its `value`
/// member (see `token_given_member`).
pub fn token_from_member(trimmed: String, member: Option<String>) -> (r: String)
    ensures
        r@ == token_given_member(trimmed@, opt_text(member)),
{
    let v = chars_of(trimmed.as_str());
    if v.len() > 0 && v[0] == '{' {
        if let Some(value) = member {
            return value;
        }
    }
    trimmed
}

/// Extracts the session token from pasted input (see `pasted_token`).
pub fn token_from_input(token: &str) -> (r: String)
    ensures
        r@ == pasted_token(token@),
{
    let t = trim(token);
    let member = json_member_str(t.as_str(), "value");
    token_from_member(t, member)
}

/// The stored token, or `NotAuthenticated` when none is stored.
pub fn token_from_config(stored: String) -> (r: Result<String, DeepSeekError>)
    ensures
        stored@.len() == 0 ==> (r matches Err(e) && e@ == ErrorView::NotAuthenticated),
        stored@.len() > 0 ==> (r matches Ok(t) && t@ == stored@),
{
    if stored.as_str().unicode_len() == 0 {
        Err(DeepSeekError::NotAuthenticated)
    } else {
        Ok(stored)
    }
}

/// The login status to show when polling fails: `expired` after a poll
/// timeout, `error` otherwise.
pub fn poll_failure_status(e: &DeepSeekError) -> (s: &'static str)
    ensures
        s@ == (if e is PollTimeout {
            "expired"@
        } else {
            "error"@
        }),
{
    match e {
        DeepSeekError::PollTimeout(_) => "expired",
        _ => "error",
    }
}

/// The line shown for a login status, and whether it goes to standard
/// error; unknown statuses show nothing.
pub open spec fn login_status_text(status: Seq<char>) -> Option<(bool, Seq<char>)> {
    if status == "fetching"@ {
        Some((true, "Fetching WeChat QR code..."@))
    } else if status == "waiting"@ {
        Some((true, "Waiting for scan. Scan the QR code with WeChat..."@))
    } else if status == "scanned"@ {
        Some((false, "\n  ✓ Scanned! Waiting for phone confirmation..."@))
    } else if status == "confirmed"@ {
        Some((false, "\n  ✓ Login confirmed! Exchanging for session token..."@))
    } else if status == "success"@ {
        Some((false, "\n  ✓ Login successful!"@))
    } else if status == "expired"@ {
        Some((true, "\n  ✗ QR code expired. Please try again."@))
    } else if status == "error"@ {
        Some((true, "\n  ✗ Login failed."@))
    } else {
        None
    }
}

/// The line to show for a login status (see `login_status_text`).
pub fn login_status_line(status: &str) -> (r: Option<(bool, String)>)
    ensures
        match r {
            Some((to_err, line)) => login_status_text(status@) == Some((to_err, line@)),
            None => login_status_text(status@) is None,
        },
{
    if str_equal(status, "fetching") {
        Some((true, String::from_str("Fetching WeChat QR code...")))
    } else if str_equal(status, "waiting") {
        Some((true, String::from_str("Waiting for scan. Scan the QR code with WeChat...")))
    } else if str_equal(status, "scanned") {
        Some((false, String::from_str("\n  ✓ Scanned! Waiting for phone confirmation...")))
    } else if str_equal(status, "confirmed") {
        Some((false, String::from_str("\n  ✓ Login confirmed! Exchanging for session token...")))
    } else if str_equal(status, "success") {
        Some((false, String::from_str("\n  ✓ Login successful!")))
    } else if str_equal(status, "expired") {
        Some((true, String::from_str("\n  ✗ QR code expired. Please try again.")))
    } else if str_equal(status, "error") {
        Some((true, String::from_str("\n  ✗ Login failed.")))
    } else {
        None
    }
}

} // verus!
