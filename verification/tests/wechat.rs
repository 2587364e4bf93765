use deepseek_cli::wechat::{decode_qr, pixel_at, session_from_decoded};
use deepseek_cli::wechat::{body_nonce_provider, poll_code_from, uuid_from_captures};
use deepseek_cli::error::DeepSeekError;
use deepseek_cli::wechat::{
    exchange_reply_token, get_query_param, oauth_request_failed, parse_embedded_token, parse_oauth_from_url,
    parse_oauth_info, parse_poll_code, parse_redirect_uri, parse_uuid, parse_wx_code, qr_session,
    qr_uuid_from_page, snippet_of, JsonField, JsonField::{Int, Missing, Other}, OAuthStep, OAuthWalk, PollState, PollStep,
};

#[test]
fn uuid_from_page() {
    let page = r#"<script>var fordevtool = "https://long.open.weixin.qq.com/connect/l/qrconnect?uuid=abc123XYZ";</script>"#;
    assert_eq!(parse_uuid(page).as_deref(), Some("abc123XYZ"));
    let page = r#"<img class="qrcode" src="/connect/qrcode/0a1B2c3D4e"/>"#;
    assert_eq!(parse_uuid(page).as_deref(), Some("0a1B2c3D4e"));
    let page = "window.QRLogin = {uuid: 'zzzzzyyyyyxx'}";
    assert_eq!(parse_uuid(page).as_deref(), Some("zzzzzyyyyyxx"));
    assert_eq!(parse_uuid("nothing here"), None);
}

#[test]
fn uuid_error_shows_snippet() {
    match qr_uuid_from_page("<html>\n  <body> no  code </body></html>") {
        Err(DeepSeekError::QrLogin(m)) => assert_eq!(
            m,
            "failed to extract UUID from QR page. snippet: <html><body>nocode</body></html>"
        ),
        _ => panic!("expected an error"),
    }
    let long: String = "ab ".repeat(400);
    assert_eq!(snippet_of(&long).chars().count(), 320);
}

#[test]
fn poll_codes() {
    assert_eq!(parse_poll_code("window.wx_errcode=408;window.wx_code='';"), 408);
    assert_eq!(parse_poll_code("window.wx_errcode = 405;"), 405);
    assert_eq!(parse_poll_code("<div class='wx_after_scan'>"), 404);
    assert_eq!(parse_poll_code("<div class='wx_after_scan'><p class='wx_default_tip'>"), 408);
    assert_eq!(parse_poll_code("扫码成功"), 404);
    assert_eq!(parse_poll_code("wx_after_cancel"), 403);
    assert_eq!(parse_poll_code(""), 408);
    assert_eq!(parse_poll_code("window.wx_errcode=99999999999;"), 408);
    assert_eq!(parse_wx_code("window.wx_errcode=405;window.wx_code='081abc';").as_deref(), Some("081abc"));
    assert_eq!(parse_redirect_uri("window.wx_redirect_uri='https://x/cb?code=1';").as_deref(), Some("https://x/cb?code=1"));
}

#[test]
fn poll_state_machine() {
    let mut st = PollState::new();
    assert_eq!(st.begin_attempt(false).unwrap(), None);
    match st.on_body("window.wx_errcode=201;") {
        PollStep::Wait(ms) => assert_eq!(ms, 100),
        _ => panic!("scanned: wait"),
    }
    assert_eq!(st.begin_attempt(false).unwrap(), Some(201));
    match st.on_body("window.wx_errcode=408;") {
        PollStep::Wait(ms) => assert_eq!(ms, 2000),
        _ => panic!("waiting"),
    }
    match st.on_body("window.wx_errcode=405;window.wx_code='C0DE';") {
        PollStep::Done(Ok(c)) => assert_eq!(c, "C0DE"),
        _ => panic!("code returned"),
    }
    match st.on_body("window.wx_errcode=402;") {
        PollStep::Done(Err(DeepSeekError::QrLogin(m))) => assert_eq!(m, "QR code expired or cancelled"),
        _ => panic!("expired"),
    }
    match st.on_body("window.wx_errcode=405;") {
        PollStep::Done(Err(DeepSeekError::QrLogin(m))) => {
            assert_eq!(m, "WeChat confirmed but no wx_code returned (405)")
        }
        _ => panic!("405"),
    }
    match st.on_body("window.wx_errcode=200;window.wx_redirect_uri='https://r';") {
        PollStep::Done(Ok(r)) => assert_eq!(r, "https://r"),
        _ => panic!("redirect"),
    }
    match st.on_body("window.wx_errcode=200;") {
        PollStep::Done(Err(DeepSeekError::QrLogin(m))) => assert_eq!(m, "scan confirmed but no auth code in response"),
        _ => panic!("200 without code"),
    }
    // Unknown codes are tolerated for three attempts.
    match st.on_body("window.wx_errcode=777;") {
        PollStep::Wait(_) => {}
        _ => panic!("tolerated"),
    }
    st.begin_attempt(false).unwrap();
    st.begin_attempt(false).unwrap();
    match st.on_body("window.wx_errcode=777;") {
        PollStep::Done(Err(DeepSeekError::QrLogin(m))) => assert_eq!(m, "unexpected poll code: 777"),
        _ => panic!("fails after the third attempt"),
    }
    match st.begin_attempt(true) {
        Err(DeepSeekError::PollTimeout(300)) => {}
        _ => panic!("timeout"),
    }
    match st.on_network_error(DeepSeekError::Timeout) {
        PollStep::Wait(2000) => {}
        _ => panic!("retry"),
    }
    for _ in 0..2 {
        st.begin_attempt(false).unwrap();
    }
    match st.on_network_error(DeepSeekError::Timeout) {
        PollStep::Done(Err(DeepSeekError::Timeout)) => {}
        _ => panic!("give up after five attempts"),
    }
}

#[test]
fn oauth_parsing() {
    let info = parse_oauth_from_url("https://x/sign_in?nonce=N1&provider=wechat&x=1").unwrap();
    assert_eq!((info.nonce.as_str(), info.provider.as_str()), ("N1", "WECHAT"));
    assert!(parse_oauth_from_url("https://x/?nonce=N1").is_none());
    assert_eq!(get_query_param("a?b=1&key=v%20w&c", "key").as_deref(), Some("v%20w"));
    assert_eq!(get_query_param("a?x.y=1", "x.y").as_deref(), Some("1"));
    assert_eq!(get_query_param("a?xzy=1", "x.y"), None);
    let info = parse_oauth_info("https://a", Some("https://b?nonce=L&provider=p"), "").unwrap();
    assert_eq!(info.nonce, "L");
    let info = parse_oauth_info("https://a", None, r#"{"nonce": "J", "provider": "wx"}"#).unwrap();
    assert_eq!((info.nonce.as_str(), info.provider.as_str()), ("J", "WX"));
    assert!(parse_oauth_info("https://a", None, "nothing").is_none());
    let tok = "A".repeat(40);
    assert_eq!(parse_embedded_token(&format!(r#"{{"value": "{}"}}"#, tok)), Some(tok.clone()));
    assert_eq!(parse_embedded_token(r#"{"value": "short"}"#), None);
}

#[test]
fn oauth_walk() {
    let mut w = OAuthWalk::start("CODE");
    assert_eq!(
        w.url,
        "https://platform.deepseek.com/auth-api/v0/users/oauth/wechat/callback?code=CODE&state="
    );
    match w.on_response(302, Some("https://next".into()), "moved".into()) {
        OAuthStep::Fetch => assert_eq!(w.url, "https://next"),
        _ => panic!("follow redirect"),
    }
    match w.on_response(302, Some("https://x?nonce=n&provider=p".into()), String::new()) {
        OAuthStep::Exchange(i) => assert_eq!((i.nonce.as_str(), i.provider.as_str()), ("n", "P")),
        _ => panic!("exchange"),
    }
    let tok = "B".repeat(44);
    match w.on_response(200, None, format!(r#""value":"{}""#, tok)) {
        OAuthStep::Done(Ok(t)) => assert_eq!(t, tok),
        _ => panic!("embedded token"),
    }
    let mut w = OAuthWalk::start("C");
    for _ in 0..5 {
        match w.on_response(302, Some("https://loop".into()), String::new()) {
            OAuthStep::Fetch => {}
            _ => panic!("keep following"),
        }
    }
    match w.on_response(302, Some("https://loop".into()), String::new()) {
        OAuthStep::Done(Err(DeepSeekError::OAuthFailed(m))) => {
            assert_eq!(m, "could not find nonce/provider in OAuth callback chain")
        }
        _ => panic!("six requests at most"),
    }
    match oauth_request_failed("boom") {
        DeepSeekError::QrLogin(m) => assert_eq!(m, "OAuth callback request failed: boom"),
        _ => panic!(),
    }
}

#[test]
fn exchange_reply() {
    let t = |s: &str| JsonField::Text(s.to_string());
    assert_eq!(exchange_reply_token(t("tok"), t("other"), Missing, Missing, Missing, Missing).unwrap(), "tok");
    assert_eq!(exchange_reply_token(Other, t("dt"), Missing, Missing, Missing, Missing).unwrap(), "dt");
    match exchange_reply_token(t(""), t("dt"), Int(7), Int(0), t("bad"), t("ok")) {
        Err(DeepSeekError::OAuthFailed(m)) => assert_eq!(m, "token exchange failed: code=7, msg=bad"),
        _ => panic!("empty token fails"),
    }
    match exchange_reply_token(Missing, Missing, Missing, Int(-3), Other, t("m")) {
        Err(DeepSeekError::OAuthFailed(m)) => assert_eq!(m, "token exchange failed: code=-3, msg=unknown"),
        _ => panic!(),
    }
    match exchange_reply_token(Missing, Missing, Other, Int(5), Missing, Missing) {
        Err(DeepSeekError::OAuthFailed(m)) => assert_eq!(m, "token exchange failed: code=-1, msg=unknown"),
        _ => panic!(),
    }
}

#[test]
fn qr_image_roundtrip() {
    let code = qrcode::QrCode::new(b"https://open.weixin.qq.com/connect/confirm?uuid=XYZ").unwrap();
    let img = code.render::<image::Luma<u8>>().build();
    let mut png: Vec<u8> = Vec::new();
    img.write_to(&mut std::io::Cursor::new(&mut png), image::ImageFormat::Png).unwrap();
    let session = qr_session("XYZ".into(), &png).unwrap();
    assert_eq!(session.uuid, "XYZ");
    assert_eq!(session.qr_content, "https://open.weixin.qq.com/connect/confirm?uuid=XYZ");
    match qr_session("XYZ".into(), b"not an image") {
        Err(DeepSeekError::QrLogin(m)) => assert_eq!(m, "failed to decode WeChat QR code image"),
        _ => panic!(),
    }
}

#[test]
fn captures_to_values() {
    let s = |x: &str| Some(x.to_string());
    assert_eq!(uuid_from_captures(None, s("b"), s("c")), s("b"));
    assert_eq!(uuid_from_captures(s("a"), s("b"), None), s("a"));
    assert_eq!(uuid_from_captures(None, None, None), None);
    assert_eq!(poll_code_from(s("201"), ""), 201);
    assert_eq!(poll_code_from(s("99999999999"), "wx_after_cancel"), 403);
    assert_eq!(poll_code_from(None, "扫码成功"), 404);
    assert_eq!(poll_code_from(None, "nothing"), 408);
    assert_eq!(body_nonce_provider(None, s("n"), s("p"), s("q")), Some(("n".to_string(), "p".to_string())));
    assert_eq!(body_nonce_provider(s("n"), None, None, None), None);
}

#[test]
fn query_param_key_is_escaped() {
    assert_eq!(get_query_param("https://x/cb?a.b=1", "a.b").as_deref(), Some("1"));
    assert_eq!(get_query_param("https://x/cb?aXb=1", "a.b"), None);
    assert_eq!(get_query_param("https://x/cb?x=0&a+b=2", "a+b").as_deref(), Some("2"));
}

#[test]
fn grey_pixels_and_decoding() {
    let px = vec![1u8, 2, 3, 4, 5, 6];
    assert_eq!(pixel_at(&px, 3, 2, 1), 6);
    assert_eq!(pixel_at(&px, 3, 0, 0), 1);
    assert_eq!(pixel_at(&px, 3, 3, 0), 0);
    assert_eq!(pixel_at(&px, 3, 0, 2), 0);
    assert_eq!(decode_qr(b"not an image"), None);
    let code = qrcode::QrCode::new("https://example.com/login?x=1").unwrap();
    let img = code.render::<image::Luma<u8>>().build();
    let mut png: Vec<u8> = Vec::new();
    img.write_to(&mut std::io::Cursor::new(&mut png), image::ImageFormat::Png).unwrap();
    assert_eq!(decode_qr(&png).as_deref(), Some("https://example.com/login?x=1"));
    let s = session_from_decoded("U".into(), Some("T".into())).unwrap();
    assert_eq!((s.uuid.as_str(), s.qr_content.as_str()), ("U", "T"));
    match session_from_decoded("U".into(), None) {
        Err(DeepSeekError::QrLogin(m)) => assert_eq!(m, "failed to decode WeChat QR code image"),
        _ => panic!("no text decoded"),
    }
}
