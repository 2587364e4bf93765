//! Decisions on the platform's API replies: the response envelope, the
//! business wrapper and the choice between reply schemas.

use crate::constants::{API_SUCCESS_CODE, TOKEN_EXPIRED_CODE};
use crate::error::{DeepSeekError, ErrorView};
use crate::types::BizWrapper;
use vstd::prelude::*;
use vstd::string::StringExecFns;
use vstd::string::StringSliceAdditionalSpecFns;
use vstd::utf8::is_char_boundary;

verus! {

/// Whether the text can be cut after `max` bytes (or is no longer).
pub open spec fn cut_ok(s: &str, max: usize) -> bool {
    s.spec_bytes().len() <= max || is_char_boundary(s.spec_bytes(), max as int)
}

/// The first `max` bytes of `s`, or all of it when it is no longer.
pub fn truncate_str(s: &str, max: usize) -> (r: &str)
    requires
        cut_ok(s, max),
    ensures
        r.spec_bytes() == if s.spec_bytes().len() <= max {
            s.spec_bytes()
        } else {
            s.spec_bytes().take(max as int)
        },
{
    if s.is_char_boundary(max) {
        let (head, _tail) = s.split_at(max);
        assert(head.spec_bytes() =~= s.spec_bytes().take(max as int));
        proof {
            vstd::utf8::encode_utf8_valid_utf8(s@);
            if s.spec_bytes().len() <= max {
                assert(s.spec_bytes().len() == max);
                assert(s.spec_bytes().take(max as int) =~= s.spec_bytes());
            }
        }
        head
    } else {
        proof {
            vstd::utf8::encode_utf8_valid_utf8(s@);
            if s.spec_bytes().len() == max {
                vstd::utf8::is_char_boundary_start_end_of_seq(s.spec_bytes());
            }
        }
        s
    }
}

/// The decision on a reply's envelope: the status is the `code` field read
/// as an integer (-1 when absent) and truncated to `i32`; 40002 means the
/// token expired, any other non-zero status is an API error with the `msg`
/// field (`unknown` when absent); a successful reply must carry `data`.
pub open spec fn envelope_outcome(code: Option<i64>, msg: Option<Seq<char>>, has_data: bool) -> Result<(), ErrorView> {
    let c = (match code {
        Some(c) => c,
        None => -1i64,
    }) as i32;
    if c == TOKEN_EXPIRED_CODE {
        Err(ErrorView::TokenExpired)
    } else if c != API_SUCCESS_CODE {
        Err(
            ErrorView::ApiError {
                code: c,
                msg: match msg {
                    Some(m) => m,
                    None => "unknown"@,
                },
            },
        )
    } else if !has_data {
        Err(ErrorView::Parse("response missing 'data' field"@))
    } else {
        Ok(())
    }
}

/// Checks a reply's envelope (see `envelope_outcome`); `Ok` means: use `data`.
pub fn check_envelope(code: Option<i64>, msg: Option<String>, has_data: bool) -> (r: Result<(), DeepSeekError>)
    ensures
        crate::error::result_view(r) == envelope_outcome(
            code,
            match msg {
                Some(m) => Some(m@),
                None => None,
            },
            has_data,
        ),
{
    let raw: i64 = match code {
        Some(c) => c,
        None => -1,
    };
    let c = raw as i32;
    if c == TOKEN_EXPIRED_CODE {
        return Err(DeepSeekError::TokenExpired);
    }
    if c != API_SUCCESS_CODE {
        let m = match msg {
            Some(m) => m,
            None => String::from_str("unknown"),
        };
        return Err(DeepSeekError::ApiError { code: c, msg: m });
    }
    if !has_data {
        return Err(DeepSeekError::Parse(String::from_str("response missing 'data' field")));
    }
    Ok(())
}

/// The text shown of a body: its first 200 bytes, or all of it.
pub open spec fn shown_prefix(shown: &str, body: &str) -> bool {
    shown.spec_bytes() == (if body.spec_bytes().len() <= 200 {
        body.spec_bytes()
    } else {
        body.spec_bytes().take(200)
    })
}

/// The error for a reply body that is not JSON: the parser's message and
/// the first 200 bytes of the body.
pub fn invalid_json_error(err: &str, body: &str) -> (e: DeepSeekError)
    requires
        cut_ok(body, 200),
    ensures
        e matches DeepSeekError::Parse(m) && exists|shown: &str|
            shown_prefix(shown, body) && m@ == "invalid JSON: "@ + err@ + " — body: "@ + shown@,
{
    let shown = truncate_str(body, 200);
    assert(shown_prefix(shown, body));
    let mut m = String::from_str("invalid JSON: ");
    m.append(err);
    m.append(" — body: ");
    m.append(shown);
    DeepSeekError::Parse(m)
}

/// What `serde_json` reads from a reply body: the `code` field as an `i64`
/// (`None` when absent or not such an integer), the `msg` field when it is
/// a string, and whether a `data` field is present; or, when the body is
/// not JSON, the parser's error message.
pub uninterp spec fn reply_envelope_of(body: Seq<char>) -> Result<(Option<i64>, Option<Seq<char>>, bool), Seq<char>>;

/// `serde_json::from_str::<Value>(body)`, then `get("code")` with
/// `as_i64`, `get("msg")` with `as_str`, and whether `get("data")` is
/// present; the error as its display text.  The contract only names the
/// result.
#[verifier::external_body]
fn reply_envelope(body: &str) -> (r: Result<(Option<i64>, Option<String>, bool), String>)
    ensures
        match r {
            Ok((code, msg, has_data)) => reply_envelope_of(body@) == Ok::<
                (Option<i64>, Option<Seq<char>>, bool),
                Seq<char>,
            >((code, crate::wechat::opt_text(msg), has_data)),
            Err(e) => reply_envelope_of(body@) == Err::<(Option<i64>, Option<Seq<char>>, bool), Seq<char>>(e@),
        },
{
    match serde_json::from_str::<serde_json::Value>(body) {
        Ok(json) => {
            let code = match json.get("code") {
                Some(c) => c.as_i64(),
                None => None,
            };
            let msg = match json.get("msg") {
                Some(m) => m.as_str().map(String::from),
                None => None,
            };
            Ok((code, msg, json.get("data").is_some()))
        },
        Err(e) => Err(e.to_string()),
    }
}

/// Checks a reply body: the invalid-JSON error when it does not parse, else
/// the envelope decision (see `envelope_outcome`); `Ok` means: use `data`.
/// The invalid-JSON error shows the body's first 200 bytes, so a body that
/// does not parse must allow a cut there.
pub fn check_reply(body: &str) -> (r: Result<(), DeepSeekError>)
    requires
        reply_envelope_of(body@) is Err ==> cut_ok(body, 200),
    ensures
        match reply_envelope_of(body@) {
            Err(err) => r matches Err(DeepSeekError::Parse(m)) && exists|shown: &str|
                shown_prefix(shown, body) && m@ == "invalid JSON: "@ + err + " — body: "@ + shown@,
            Ok((code, msg, has_data)) => crate::error::result_view(r) == envelope_outcome(code, msg, has_data),
        },
{
    match reply_envelope(body) {
        Ok((code, msg, has_data)) => check_envelope(code, msg, has_data),
        Err(e) => Err(invalid_json_error(e.as_str(), body)),
    }
}

/// `check_reply` where it applies; `None` for a body that does not parse
/// and cannot be cut after 200 bytes (the cut would split a character).
pub fn try_check_reply(body: &str) -> (r: Option<Result<(), DeepSeekError>>)
    ensures
        r is None <==> (reply_envelope_of(body@) is Err && !cut_ok(body, 200)),
        r matches Some(res) ==> match reply_envelope_of(body@) {
            Err(err) => res matches Err(DeepSeekError::Parse(m)) && exists|shown: &str|
                shown_prefix(shown, body) && m@ == "invalid JSON: "@ + err + " — body: "@ + shown@,
            Ok((code, msg, has_data)) => crate::error::result_view(res) == envelope_outcome(code, msg, has_data),
        },
{
    let not_json = match reply_envelope(body) {
        Ok(_) => false,
        Err(_) => true,
    };
    let byte_len = body.as_bytes().len();
    if not_json && !(byte_len <= 200 || body.is_char_boundary(200)) {
        return None;
    }
    Some(check_reply(body))
}

/// Whether a reply body is JSON whose `code` is 0 (the token it was sent
/// with is accepted).
pub fn reply_accepted(body: &str) -> (ok: bool)
    ensures
        ok == (reply_envelope_of(body@) matches Ok((Some(c), _, _)) && c == 0),
{
    match reply_envelope(body) {
        Ok((Some(c), _, _)) => c == 0,
        _ => false,
    }
}

/// The error for `data` that does not have the expected shape.
pub fn deserialize_error(err: &str) -> (e: DeepSeekError)
    ensures
        e@ == ErrorView::Parse("failed to deserialize response: "@ + err@),
{
    DeepSeekError::Parse(String::from_str("failed to deserialize response: ").concat(err))
}

/// The content of a `biz_data` wrapper: accepted when `biz_code` is 0, else
/// a business error with the wrapper's code and message.
pub fn biz_outcome<T>(biz: BizWrapper<T>) -> (r: Result<T, DeepSeekError>)
    ensures
        biz.biz_code == 0 ==> r == Ok::<T, DeepSeekError>(biz.biz_data),
        biz.biz_code != 0 ==> (r matches Err(e) && e@ == ErrorView::ApiBizError {
            code: biz.biz_code,
            msg: biz.biz_msg@,
        }),
{
    if biz.biz_code == 0 {
        Ok(biz.biz_data)
    } else {
        Err(DeepSeekError::ApiBizError { code: biz.biz_code, msg: biz.biz_msg })
    }
}

/// A reply in one of two schemas.
pub enum Schema<A, B> {
    Flat(A),
    Bucketed(B),
}

/// The first schema the reply parses as (flat before bucketed), or the
/// error naming the reply (`cost`, `amount`).
pub fn pick_schema<A, B>(flat: Option<A>, bucketed: Option<B>, what: &str) -> (r: Result<Schema<A, B>, DeepSeekError>)
    ensures
        flat matches Some(a) ==> r == Ok::<Schema<A, B>, DeepSeekError>(Schema::Flat(a)),
        flat is None ==> (bucketed matches Some(b) ==> r == Ok::<Schema<A, B>, DeepSeekError>(Schema::Bucketed(b))),
        flat is None && bucketed is None ==> (r matches Err(e) && e@ == ErrorView::Parse(
            "unknown "@ + what@ + " response schema"@,
        )),
{
    if let Some(a) = flat {
        return Ok(Schema::Flat(a));
    }
    if let Some(b) = bucketed {
        return Ok(Schema::Bucketed(b));
    }
    let mut m = String::from_str("unknown ");
    m.append(what);
    m.append(" response schema");
    Err(DeepSeekError::Parse(m))
}


/// A reply is accepted only when its status reads as 0 and it carries
/// `data`; status 40002 always means an expired token, whatever else the
/// reply holds; a non-zero status other than 40002 is an API error with
/// that status.
pub proof fn law_envelope_acceptance(code: Option<i64>, msg: Option<Seq<char>>, has_data: bool)
    ensures
        envelope_outcome(code, msg, has_data) is Ok ==> (has_data && code is Some && code->0 as i32 == 0),
        (code is Some && code->0 as i32 == 40002) ==> envelope_outcome(code, msg, has_data) == Err::<(), ErrorView>(
            ErrorView::TokenExpired,
        ),
        (code is Some && code->0 as i32 != 0 && code->0 as i32 != 40002) ==> (envelope_outcome(code, msg, has_data) matches Err(
            ErrorView::ApiError { code: k, msg: _ },
        ) && k == code->0 as i32),
        code is None ==> (envelope_outcome(code, msg, has_data) matches Err(ErrorView::ApiError { code: k, msg: _ })
            && k == -1),
{
}

} // verus!
