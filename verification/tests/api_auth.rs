use deepseek_cli::auth::token_from_member;
use deepseek_cli::api::{check_reply, reply_accepted, try_check_reply};
use deepseek_cli::api::{biz_outcome, check_envelope, deserialize_error, invalid_json_error, pick_schema, truncate_str, Schema};
use deepseek_cli::auth::{login_status_line, poll_failure_status, token_from_config, token_from_input};
use deepseek_cli::error::{http_error, DeepSeekError};
use deepseek_cli::types::{BizWrapper, StringOrF64};

#[test]
fn envelope_decisions() {
    assert!(check_envelope(Some(0), None, true).is_ok());
    match check_envelope(Some(40002), None, true) {
        Err(DeepSeekError::TokenExpired) => {}
        _ => panic!(),
    }
    match check_envelope(None, None, true) {
        Err(DeepSeekError::ApiError { code, msg }) => assert_eq!((code, msg.as_str()), (-1, "unknown")),
        _ => panic!(),
    }
    match check_envelope(Some(4294967296 + 40002), Some("x".into()), true) {
        Err(DeepSeekError::TokenExpired) => {}
        _ => panic!("code truncated to i32"),
    }
    match check_envelope(Some(0), None, false) {
        Err(DeepSeekError::Parse(m)) => assert_eq!(m, "response missing 'data' field"),
        _ => panic!(),
    }
    match check_envelope(Some(3), Some("bad".into()), true) {
        Err(e) => assert_eq!(e.message(), "API error 3: bad"),
        _ => panic!(),
    }
}

#[test]
fn biz_and_schema() {
    let ok = BizWrapper { biz_code: 0, biz_msg: String::new(), biz_data: 5 };
    assert_eq!(biz_outcome(ok).unwrap(), 5);
    match biz_outcome(BizWrapper { biz_code: 9, biz_msg: "no".into(), biz_data: 5 }) {
        Err(e) => assert_eq!(e.message(), "API business error 9: no"),
        _ => panic!(),
    }
    assert!(matches!(pick_schema(Some(1), Some(2), "cost"), Ok(Schema::Flat(1))));
    assert!(matches!(pick_schema(None::<u8>, Some(2), "cost"), Ok(Schema::Bucketed(2))));
    match pick_schema(None::<u8>, None::<u8>, "amount") {
        Err(DeepSeekError::Parse(m)) => assert_eq!(m, "unknown amount response schema"),
        _ => panic!(),
    }
    match deserialize_error("missing field") {
        DeepSeekError::Parse(m) => assert_eq!(m, "failed to deserialize response: missing field"),
        _ => panic!(),
    }
}

#[test]
fn truncation() {
    assert_eq!(truncate_str("abcdef", 3), "abc");
    assert_eq!(truncate_str("ab", 3), "ab");
    assert_eq!(truncate_str("é", 2), "é");
    let body = "x".repeat(250);
    match invalid_json_error("expected value", &body) {
        DeepSeekError::Parse(m) => assert_eq!(m, format!("invalid JSON: expected value — body: {}", "x".repeat(200))),
        _ => panic!(),
    }
}

#[test]
fn error_messages() {
    assert_eq!(
        DeepSeekError::NotAuthenticated.message(),
        "Not authenticated. Run `deepseek login` or `deepseek token <value>` first."
    );
    assert_eq!(DeepSeekError::PollTimeout(300).message(), "WeChat poll timed out after 300s");
    assert_eq!(DeepSeekError::ApiError { code: i32::MIN, msg: "m".into() }.message(), "API error -2147483648: m");
    assert_eq!(DeepSeekError::Http("x".into()).message(), "HTTP request failed: x");
    assert!(matches!(http_error("connection timed out".into()), DeepSeekError::Timeout));
    assert!(matches!(http_error("global timeout reached".into()), DeepSeekError::Timeout));
    match http_error("dns failure".into()) {
        DeepSeekError::Http(m) => assert_eq!(m, "dns failure"),
        _ => panic!(),
    }
}

#[test]
fn token_input() {
    assert_eq!(token_from_input("  abc \n"), "abc");
    assert_eq!(token_from_input(r#" {"value":"tok123","__version":"0"} "#), "tok123");
    assert_eq!(token_from_input("{not json"), "{not json");
    assert_eq!(token_from_input(r#"{"value": 5}"#), r#"{"value": 5}"#);
    assert!(matches!(token_from_config(String::new()), Err(DeepSeekError::NotAuthenticated)));
    assert_eq!(token_from_config("t".into()).unwrap(), "t");
}

#[test]
fn login_statuses() {
    assert_eq!(login_status_line("fetching"), Some((true, "Fetching WeChat QR code...".to_string())));
    assert_eq!(login_status_line("success"), Some((false, "\n  ✓ Login successful!".to_string())));
    assert_eq!(login_status_line("nope"), None);
    assert_eq!(poll_failure_status(&DeepSeekError::PollTimeout(300)), "expired");
    assert_eq!(poll_failure_status(&DeepSeekError::Timeout), "error");
    assert_eq!(StringOrF64(Some("1.5".into())).as_str(), Some("1.5"));
    assert_eq!(StringOrF64(None).as_str(), None);
}

#[test]
fn reply_bodies() {
    assert!(check_reply(r#"{"code":0,"msg":"","data":{"x":1}}"#).is_ok());
    match check_reply(r#"{"code":40002,"data":null}"#) {
        Err(DeepSeekError::TokenExpired) => {}
        _ => panic!("expired token"),
    }
    match check_reply(r#"{"code":7,"msg":"nope"}"#) {
        Err(DeepSeekError::ApiError { code, msg }) => assert_eq!((code, msg.as_str()), (7, "nope")),
        _ => panic!("api error"),
    }
    match check_reply(r#"{"code":0}"#) {
        Err(DeepSeekError::Parse(m)) => assert_eq!(m, "response missing 'data' field"),
        _ => panic!("missing data"),
    }
    match check_reply("<html>") {
        Err(DeepSeekError::Parse(m)) => {
            assert!(m.starts_with("invalid JSON: "));
            assert!(m.ends_with(" — body: <html>"));
        }
        _ => panic!("not json"),
    }
    let long = format!("{}é", "x".repeat(199));
    assert!(try_check_reply(&long).is_none());
    let long_json = format!("{{\"code\":0,\"data\":\"{}é\"}}", "x".repeat(190));
    assert!(matches!(try_check_reply(&long_json), Some(Ok(()))));
    assert!(reply_accepted(r#"{"code":0}"#));
    assert!(!reply_accepted(r#"{"code":1}"#));
    assert!(!reply_accepted("not json"));
}

#[test]
fn token_member_choice() {
    assert_eq!(token_from_member("{\"value\":1}".into(), Some("tok".into())), "tok");
    assert_eq!(token_from_member("{broken".into(), None), "{broken");
    assert_eq!(token_from_member("plain".into(), Some("ignored".into())), "plain");
}
