//! The WeChat QR login flow: reading WeChat's pages, deciding each polling
//! step, following the OAuth redirect chain and reading the token reply.

use crate::constants::{POLL_FAST_INTERVAL_MS, POLL_INTERVAL_MS, POLL_MAX_DURATION_SECS};
use crate::error::{http_error_view, text_result_view, DeepSeekError, ErrorView};
use crate::text::{has_substring, parse_i32, parsed_i32, contains_str, is_white, chars_of};
use vstd::prelude::*;
use vstd::string::StringExecFns;

verus! {

// ── Regular expressions (the `regex` crate) ─────────────────────

/// Capture group 1 of the leftmost match of `pattern` in `text`, as the
/// `regex` crate finds it; `None` when the pattern does not compile, does
/// not match, or the group does not take part in the match.
pub uninterp spec fn regex_group1(pattern: Seq<char>, text: Seq<char>) -> Option<Seq<char>>;

/// A character with meaning in a regex (`regex_syntax::is_meta_character`).
pub open spec fn is_regex_meta(c: char) -> bool {
    c == '\\' || c == '.' || c == '+' || c == '*' || c == '?' || c == '(' || c == ')' || c == '|' || c == '['
        || c == ']' || c == '{' || c == '}' || c == '^' || c == '$' || c == '#' || c == '&' || c == '-' || c == '~'
}

/// `text` with a backslash before every regex meta character.
pub open spec fn regex_escaped(text: Seq<char>) -> Seq<char>
    decreases text.len(),
{
    if text.len() == 0 {
        seq![]
    } else {
        let head = regex_escaped(text.drop_last());
        let c = text.last();
        if is_regex_meta(c) {
            head.push('\\').push(c)
        } else {
            head.push(c)
        }
    }
}

/// `regex::Regex::new(pattern)`, then `captures(text)`, then group 1 as text.
/// The contract only names the result.
#[verifier::external_body]
fn capture_group1(pattern: &str, text: &str) -> (r: Option<String>)
    ensures
        match r {
            Some(s) => regex_group1(pattern@, text@) == Some(s@),
            None => regex_group1(pattern@, text@) is None,
        },
{
    let re = match regex::Regex::new(pattern) {
        Ok(re) => re,
        Err(_) => return None,
    };
    match re.captures(text) {
        Some(cap) => match cap.get(1) {
            Some(m) => Some(m.as_str().to_string()),
            None => None,
        },
        None => None,
    }
}

/// `regex::escape(text)`, which calls `regex_syntax::escape`: every
/// character of `text` in order, each meta character preceded by a
/// backslash.
#[verifier::external_body]
fn regex_escape(text: &str) -> (r: String)
    ensures
        r@ == regex_escaped(text@),
{
    regex::escape(text)
}

/// `str::to_uppercase`: Unicode upper-case mapping of every character.
pub uninterp spec fn upper_case(text: Seq<char>) -> Seq<char>;

/// `str::to_uppercase(text)`.  The contract only names the result.
#[verifier::external_body]
fn to_upper(text: &str) -> (r: String)
    ensures
        r@ == upper_case(text@),
{
    text.to_uppercase()
}

pub open spec fn opt_text(o: Option<String>) -> Option<Seq<char>> {
    match o {
        Some(s) => Some(s@),
        None => None,
    }
}

pub open spec fn first_some(a: Option<Seq<char>>, b: Option<Seq<char>>) -> Option<Seq<char>> {
    match a {
        Some(x) => Some(x),
        None => b,
    }
}

// ── Page parsing ────────────────────────────────────────────────

pub open spec fn uuid_devtool_pattern() -> Seq<char> {
    "var\\s+fordevtool\\s*=\\s*\"https://long\\.open\\.weixin\\.qq\\.com/connect/l/qrconnect\\?uuid=([^\"]+)\""@
}

/// The login UUID of WeChat's QR page: from the `fordevtool` URL, else from
/// the QR image path, else from any `uuid=`/`uuid:` assignment.
pub open spec fn page_uuid(html: Seq<char>) -> Option<Seq<char>> {
    first_some(
        regex_group1(uuid_devtool_pattern(), html),
        first_some(
            regex_group1("/connect/qrcode/([a-zA-Z0-9]+)"@, html),
            regex_group1("uuid[=:]\\s*[\"']?([a-zA-Z0-9]{10,30})[\"']?"@, html),
        ),
    )
}

/// The login UUID from the three captures of the QR page, tried in order
/// (the `fordevtool` URL, the QR image path, a `uuid` assignment).
pub fn uuid_from_captures(devtool: Option<String>, image_path: Option<String>, assignment: Option<String>) -> (r:
    Option<String>)
    ensures
        opt_text(r) == first_some(opt_text(devtool), first_some(opt_text(image_path), opt_text(assignment))),
{
    match devtool {
        Some(u) => Some(u),
        None => match image_path {
            Some(u) => Some(u),
            None => assignment,
        },
    }
}

/// Extracts the login UUID from WeChat's QR page (see `page_uuid`).
pub fn parse_uuid(html: &str) -> (r: Option<String>)
    ensures
        opt_text(r) == page_uuid(html@),
{
    let p1 = "var\\s+fordevtool\\s*=\\s*\"https://long\\.open\\.weixin\\.qq\\.com/connect/l/qrconnect\\?uuid=([^\"]+)\"";
    assert(p1@ == uuid_devtool_pattern());
    let devtool = capture_group1(p1, html);
    let image_path = capture_group1("/connect/qrcode/([a-zA-Z0-9]+)", html);
    let assignment = capture_group1("uuid[=:]\\s*[\"']?([a-zA-Z0-9]{10,30})[\"']?", html);
    uuid_from_captures(devtool, image_path, assignment)
}


/// WeChat's scan status in a poll reply, given the digits captured after
/// `window.wx_errcode =` (if any): those digits when they form a valid
/// `i32`, else 404 (scanned) for the after-scan page without the default
/// tip or a "scan succeeded" text, 403 for the cancel page, and 408 (still
/// waiting) otherwise.
pub open spec fn poll_code_given(errcode: Option<Seq<char>>, body: Seq<char>) -> i32 {
    let explicit = match errcode {
        Some(d) => parsed_i32(d),
        None => None,
    };
    match explicit {
        Some(c) => c,
        None => if has_substring(body, "wx_after_scan"@) && !has_substring(body, "wx_default_tip"@) {
            404
        } else if has_substring(body, "扫码成功"@) || has_substring(body, "扫描成功"@) {
            404
        } else if has_substring(body, "wx_after_cancel"@) {
            403
        } else {
            408
        },
    }
}

/// WeChat's scan status in a poll reply (see `poll_code_given`).
pub open spec fn poll_code_of(body: Seq<char>) -> i32 {
    poll_code_given(regex_group1("window\\.wx_errcode\\s*=\\s*(\\d+)"@, body), body)
}

/// The scan status of a poll reply from the captured `wx_errcode` digits
/// (see `poll_code_given`).
pub fn poll_code_from(errcode: Option<String>, body: &str) -> (code: i32)
    ensures
        code == poll_code_given(opt_text(errcode), body@),
{
    if let Some(d) = errcode {
        if let Some(c) = parse_i32(d.as_str()) {
            return c;
        }
    }
    if contains_str(body, "wx_after_scan") && !contains_str(body, "wx_default_tip") {
        return 404;
    }
    if contains_str(body, "扫码成功") || contains_str(body, "扫描成功") {
        return 404;
    }
    if contains_str(body, "wx_after_cancel") {
        return 403;
    }
    408
}

/// Reads the scan status of a poll reply (see `poll_code_of`).
pub fn parse_poll_code(body: &str) -> (code: i32)
    ensures
        code == poll_code_of(body@),
{
    let errcode = capture_group1("window\\.wx_errcode\\s*=\\s*(\\d+)", body);
    poll_code_from(errcode, body)
}

pub open spec fn wx_code_pattern() -> Seq<char> {
    "(?:window\\.)?wx_code\\s*=\\s*['\"]?([^'\"\\s;]+)['\"]?"@
}

pub open spec fn redirect_pattern() -> Seq<char> {
    "window\\.wx_redirect_uri\\s*=\\s*[\"']?([^\"'\\s]+)[\"']?"@
}

/// The authorization code in a poll reply (`wx_code = ...`).
pub fn parse_wx_code(body: &str) -> (r: Option<String>)
    ensures
        opt_text(r) == regex_group1(wx_code_pattern(), body@),
{
    let p = "(?:window\\.)?wx_code\\s*=\\s*['\"]?([^'\"\\s;]+)['\"]?";
    assert(p@ == wx_code_pattern());
    capture_group1(p, body)
}

/// The redirect URI in a poll reply (`window.wx_redirect_uri = ...`).
pub fn parse_redirect_uri(body: &str) -> (r: Option<String>)
    ensures
        opt_text(r) == regex_group1(redirect_pattern(), body@),
{
    let p = "window\\.wx_redirect_uri\\s*=\\s*[\"']?([^\"'\\s]+)[\"']?";
    assert(p@ == redirect_pattern());
    capture_group1(p, body)
}

/// The pattern of a query parameter `key` in a URL.
pub open spec fn query_param_pattern(key: Seq<char>) -> Seq<char> {
    "[?&]"@ + regex_escaped(key) + "=([^&\"'\\s]+)"@
}

/// The value of query parameter `key` in `url`: the first `?key=` or
/// `&key=`, up to the next `&`, quote or whitespace.
pub fn get_query_param(url: &str, key: &str) -> (r: Option<String>)
    ensures
        opt_text(r) == regex_group1(query_param_pattern(key@), url@),
{
    let mut pattern = String::from_str("[?&]");
    let escaped = regex_escape(key);
    pattern.append(escaped.as_str());
    pattern.append("=([^&\"'\\s]+)");
    capture_group1(pattern.as_str(), url)
}

/// The values needed to exchange the OAuth callback for a session token.
pub struct OAuthExchangeInfo {
    pub nonce: String,
    pub provider: String,
}

pub open spec fn info_view(o: Option<OAuthExchangeInfo>) -> Option<(Seq<char>, Seq<char>)> {
    match o {
        Some(i) => Some((i.nonce@, i.provider@)),
        None => None,
    }
}

/// Nonce and upper-cased provider from the query of a URL, when both occur.
pub open spec fn url_oauth_info(url: Seq<char>) -> Option<(Seq<char>, Seq<char>)> {
    match (regex_group1(query_param_pattern("nonce"@), url), regex_group1(query_param_pattern("provider"@), url)) {
        (Some(n), Some(p)) => Some((n, upper_case(p))),
        _ => None,
    }
}

/// Reads the nonce and provider from a URL's query (see `url_oauth_info`).
pub fn parse_oauth_from_url(url: &str) -> (r: Option<OAuthExchangeInfo>)
    ensures
        info_view(r) == url_oauth_info(url@),
{
    let nonce = get_query_param(url, "nonce");
    let provider = get_query_param(url, "provider");
    match (nonce, provider) {
        (Some(n), Some(p)) => Some(OAuthExchangeInfo { nonce: n, provider: to_upper(p.as_str()) }),
        _ => None,
    }
}

pub open spec fn nonce_query_pattern() -> Seq<char> {
    "[?&]nonce=([^&\"'\\s]+)"@
}
pub open spec fn nonce_json_pattern() -> Seq<char> {
    "\"nonce\"\\s*:\\s*\"([^\"\\s]+)\""@
}
pub open spec fn provider_query_pattern() -> Seq<char> {
    "[?&]provider=([^&\"'\\s]+)"@
}
pub open spec fn provider_json_pattern() -> Seq<char> {
    "\"provider\"\\s*:\\s*\"([^\"\\s]+)\""@
}

/// Nonce and provider of one callback response: from the `Location` header,
/// else from the requested URL, else from the body (query-style or JSON-style).
pub open spec fn response_oauth_info(current_url: Seq<char>, location: Option<Seq<char>>, body: Seq<char>) -> Option<
    (Seq<char>, Seq<char>),
> {
    let from_location = match location {
        Some(l) => url_oauth_info(l),
        None => None,
    };
    if from_location is Some {
        from_location
    } else if url_oauth_info(current_url) is Some {
        url_oauth_info(current_url)
    } else {
        let nonce = first_some(regex_group1(nonce_query_pattern(), body), regex_group1(nonce_json_pattern(), body));
        let provider = first_some(
            regex_group1(provider_query_pattern(), body),
            regex_group1(provider_json_pattern(), body),
        );
        match (nonce, provider) {
            (Some(n), Some(p)) => Some((n, upper_case(p))),
            _ => None,
        }
    }
}

/// Nonce and provider (before upper-casing) from the captures of a callback
/// body: each from its query-style capture, else its JSON-style one.
pub fn body_nonce_provider(
    nonce_query: Option<String>,
    nonce_json: Option<String>,
    provider_query: Option<String>,
    provider_json: Option<String>,
) -> (r: Option<(String, String)>)
    ensures
        match (first_some(opt_text(nonce_query), opt_text(nonce_json)), first_some(
            opt_text(provider_query),
            opt_text(provider_json),
        )) {
            (Some(n), Some(p)) => r matches Some((rn, rp)) && rn@ == n && rp@ == p,
            _ => r is None,
        },
{
    let nonce = match nonce_query {
        Some(n) => Some(n),
        None => nonce_json,
    };
    let provider = match provider_query {
        Some(p) => Some(p),
        None => provider_json,
    };
    match (nonce, provider) {
        (Some(n), Some(p)) => Some((n, p)),
        _ => None,
    }
}

/// Finds the nonce and provider in one callback response (see `response_oauth_info`).
pub fn parse_oauth_info(current_url: &str, location: Option<&str>, body: &str) -> (r: Option<OAuthExchangeInfo>)
    ensures
        info_view(r) == response_oauth_info(
            current_url@,
            match location {
                Some(l) => Some(l@),
                None => None,
            },
            body@,
        ),
{
    if let Some(l) = location {
        if let Some(info) = parse_oauth_from_url(l) {
            return Some(info);
        }
    }
    if let Some(info) = parse_oauth_from_url(current_url) {
        return Some(info);
    }
    let nq = "[?&]nonce=([^&\"'\\s]+)";
    let nj = "\"nonce\"\\s*:\\s*\"([^\"\\s]+)\"";
    let pq = "[?&]provider=([^&\"'\\s]+)";
    let pj = "\"provider\"\\s*:\\s*\"([^\"\\s]+)\"";
    assert(nq@ == nonce_query_pattern() && nj@ == nonce_json_pattern());
    assert(pq@ == provider_query_pattern() && pj@ == provider_json_pattern());
    let found = body_nonce_provider(
        capture_group1(nq, body),
        capture_group1(nj, body),
        capture_group1(pq, body),
        capture_group1(pj, body),
    );
    match found {
        Some((n, p)) => Some(OAuthExchangeInfo { nonce: n, provider: to_upper(p.as_str()) }),
        None => None,
    }
}

pub open spec fn embedded_token_pattern() -> Seq<char> {
    "\"value\"\\s*:\\s*\"([A-Za-z0-9+/=]{40,})\""@
}

/// A session token embedded in a page as `"value": "<40+ base64 chars>"`.
pub fn parse_embedded_token(body: &str) -> (r: Option<String>)
    ensures
        opt_text(r) == regex_group1(embedded_token_pattern(), body@),
{
    let p = "\"value\"\\s*:\\s*\"([A-Za-z0-9+/=]{40,})\"";
    assert(p@ == embedded_token_pattern());
    capture_group1(p, body)
}


// ── QR code session ─────────────────────────────────────────────

/// Session returned by the QR step: the login UUID and the text encoded in
/// WeChat's QR image (re-rendered locally).
pub struct QrCodeSession {
    pub uuid: String,
    pub qr_content: String,
}

/// The 8-bit grey image the `image` crate loads from these bytes (PNG or
/// JPEG): its width, height and pixels row by row.
pub uninterp spec fn luma_image_of(bytes: Seq<u8>) -> Option<(u32, u32, Seq<u8>)>;

/// `image::load_from_memory(bytes)`, then `into_luma8()`, as its
/// dimensions and `into_raw()` pixels (one byte per pixel, rows in order,
/// so `width * height` of them).  `None` when the bytes are no image.
#[verifier::external_body]
fn load_luma(bytes: &[u8]) -> (r: Option<(u32, u32, Vec<u8>)>)
    ensures
        match r {
            Some((w, h, px)) => luma_image_of(bytes@) == Some((w, h, px@)) && px@.len() == w * h,
            None => luma_image_of(bytes@) is None,
        },
{
    match image::load_from_memory(bytes) {
        Ok(img) => {
            let grey = img.into_luma8();
            let (w, h) = grey.dimensions();
            Some((w, h, grey.into_raw()))
        },
        Err(_) => None,
    }
}

/// The grey level at column `x`, row `y` of a `width`-wide image stored row
/// by row; 0 outside the pixels.
pub fn pixel_at(pixels: &Vec<u8>, width: usize, x: usize, y: usize) -> (v: u8)
    ensures
        x < width && (y * width + x) < pixels@.len() ==> v == pixels@[y * width + x],
{
    let n = pixels.len();
    if x >= width {
        return 0;
    }
    match y.checked_mul(width) {
        Some(row) => match row.checked_add(x) {
            Some(i) => if i < n {
                pixels[i]
            } else {
                0
            },
            None => 0,
        },
        None => 0,
    }
}

/// The text of the first QR code that `rqrr` finds and decodes in a grey
/// image of the given size whose pixels are listed row by row.
pub uninterp spec fn grey_qr_text_of(width: usize, height: usize, pixels: Seq<u8>) -> Option<Seq<char>>;

/// `rqrr::PreparedImage::prepare_from_greyscale(width, height, ..)` fed
/// with the pixels (`pixel_at`), then `detect_grids`, and `decode` of the
/// first grid, keeping its text.  The contract only names the result.
#[verifier::external_body]
fn decode_grey(width: usize, height: usize, pixels: &Vec<u8>) -> (r: Option<String>)
    requires
        pixels@.len() == width * height,
    ensures
        opt_text(r) == grey_qr_text_of(width, height, pixels@),
{
    let mut prepared = rqrr::PreparedImage::prepare_from_greyscale(width, height, |x, y| pixel_at(pixels, width, x, y));
    let grids = prepared.detect_grids();
    match grids.first() {
        Some(grid) => match grid.decode() {
            Ok((_, content)) => Some(content),
            Err(_) => None,
        },
        None => None,
    }
}

/// The text of the first QR code found in an image file's bytes: the image
/// loaded as grey levels, then searched for QR codes.
pub open spec fn qr_payload_of(image: Seq<u8>) -> Option<Seq<char>> {
    match luma_image_of(image) {
        Some((w, h, px)) => grey_qr_text_of(w as usize, h as usize, px),
        None => None,
    }
}

/// Decodes the QR code in an image file (see `qr_payload_of`).
pub fn decode_qr(bytes: &[u8]) -> (r: Option<String>)
    ensures
        opt_text(r) == qr_payload_of(bytes@),
{
    match load_luma(bytes) {
        Some((w, h, px)) => decode_grey(w as usize, h as usize, &px),
        None => None,
    }
}

pub open spec fn not_white() -> spec_fn(char) -> bool {
    |c: char| !is_white(c)
}

/// The first 320 non-whitespace characters of a page, shown when no UUID is found.
pub open spec fn page_snippet(html: Seq<char>) -> Seq<char> {
    let kept = html.filter(not_white());
    if kept.len() <= 320 {
        kept
    } else {
        kept.take(320)
    }
}

/// Builds the page snippet (see `page_snippet`).
pub fn snippet_of(html: &str) -> (r: String)
    ensures
        r@ == page_snippet(html@),
{
    let v = chars_of(html);
    let mut r = String::new();
    let mut count: usize = 0;
    let mut i: usize = 0;
    assert(v@.take(0).filter(not_white()) =~= Seq::<char>::empty()) by {
        reveal(Seq::filter);
    }
    while i < v.len() && count < 320
        invariant
            v@ == html@,
            i <= v@.len(),
            r@ == v@.take(i as int).filter(not_white()),
            count == r@.len(),
            count <= 320,
        decreases v@.len() - i,
    {
        let c = v[i];
        assert(v@.take(i + 1) =~= v@.take(i as int).push(c));
        proof {
            v@.take(i as int).lemma_filter_push(c, not_white());
        }
        if !crate::text::is_whitespace(c) {
            r.push(c);
            count = count + 1;
        }
        i = i + 1;
    }
    proof {
        let kept = html@.filter(not_white());
        assert(html@ =~= v@.take(i as int) + v@.skip(i as int));
        lemma_filter_concat(v@.take(i as int), v@.skip(i as int), not_white());
        if i < v@.len() {
            assert(count == 320);
            assert(kept.take(320) =~= r@);
        } else {
            assert(v@.take(i as int) =~= html@);
        }
    }
    r
}

proof fn lemma_filter_concat(a: Seq<char>, b: Seq<char>, p: spec_fn(char) -> bool)
    ensures
        (a + b).filter(p) == a.filter(p) + b.filter(p),
    decreases b.len(),
{
    if b.len() == 0 {
        assert(a + b =~= a);
        assert(b.filter(p) =~= Seq::<char>::empty()) by {
            reveal(Seq::filter);
        }
        assert(a.filter(p) + b.filter(p) =~= a.filter(p));
    } else {
        lemma_filter_concat(a, b.drop_last(), p);
        assert(a + b =~= (a + b.drop_last()).push(b.last()));
        assert(b =~= b.drop_last().push(b.last()));
        (a + b.drop_last()).lemma_filter_push(b.last(), p);
        b.drop_last().lemma_filter_push(b.last(), p);
        if p(b.last()) {
            assert((a.filter(p) + b.drop_last().filter(p)).push(b.last()) =~= a.filter(p) + b.drop_last().filter(p).push(b.last()));
        }
    }
}

/// The login UUID of WeChat's QR page, or the error with a page snippet.
pub fn qr_uuid_from_page(html: &str) -> (r: Result<String, DeepSeekError>)
    ensures
        text_result_view(r) == match page_uuid(html@) {
            Some(u) => Ok(u),
            None => Err(ErrorView::QrLogin("failed to extract UUID from QR page. snippet: "@ + page_snippet(html@))),
        },
{
    match parse_uuid(html) {
        Some(u) => Ok(u),
        None => {
            let mut m = String::from_str("failed to extract UUID from QR page. snippet: ");
            let snip = snippet_of(html);
            m.append(snip.as_str());
            Err(DeepSeekError::QrLogin(m))
        },
    }
}

/// The QR session from the UUID and the text decoded from WeChat's QR
/// image, if any.
pub fn session_from_decoded(uuid: String, decoded: Option<String>) -> (r: Result<QrCodeSession, DeepSeekError>)
    ensures
        match (r, opt_text(decoded)) {
            (Ok(s), Some(content)) => s.uuid@ == uuid@ && s.qr_content@ == content,
            (Err(e), None) => e@ == ErrorView::QrLogin("failed to decode WeChat QR code image"@),
            _ => false,
        },
{
    match decoded {
        Some(content) => Ok(QrCodeSession { uuid, qr_content: content }),
        None => Err(DeepSeekError::QrLogin(String::from_str("failed to decode WeChat QR code image"))),
    }
}

/// The QR session from the UUID and the bytes of WeChat's QR image.
pub fn qr_session(uuid: String, image: &[u8]) -> (r: Result<QrCodeSession, DeepSeekError>)
    ensures
        match (r, qr_payload_of(image@)) {
            (Ok(s), Some(content)) => s.uuid@ == uuid@ && s.qr_content@ == content,
            (Err(e), None) => e@ == ErrorView::QrLogin("failed to decode WeChat QR code image"@),
            _ => false,
        },
{
    session_from_decoded(uuid, decode_qr(image))
}


// ── Polling for the scan ────────────────────────────────────────

/// Progress of the scan polling: attempts made and the last status seen.
pub struct PollState {
    pub attempt: u32,
    pub last_code: Option<i32>,
}

/// What to do after a poll.
pub enum PollStep {
    /// Sleep this many milliseconds, then poll again.
    Wait(u64),
    /// Stop: the authorization code, or why the login failed.
    Done(Result<String, DeepSeekError>),
}

/// A poll step viewed with texts as sequences.
pub enum PollStepView {
    Wait(u64),
    Done(Result<Seq<char>, ErrorView>),
}

pub open spec fn poll_step_view(s: PollStep) -> PollStepView {
    match s {
        PollStep::Wait(ms) => PollStepView::Wait(ms),
        PollStep::Done(r) => PollStepView::Done(text_result_view(r)),
    }
}

impl PollState {
    /// No attempt made, no status seen.
    pub fn new() -> (s: PollState)
        ensures
            s.attempt == 0,
            s.last_code is None,
    {
        PollState { attempt: 0, last_code: None }
    }

    /// Starts an attempt: fails with `PollTimeout` once the time is up, else
    /// counts the attempt and gives the `last` status to send with the poll.
    pub fn begin_attempt(&mut self, timed_out: bool) -> (r: Result<Option<i32>, DeepSeekError>)
        requires
            timed_out || old(self).attempt < u32::MAX,
        ensures
            timed_out ==> (r matches Err(e) && e@ == ErrorView::PollTimeout(POLL_MAX_DURATION_SECS) && *final(self)
                == *old(self)),
            !timed_out ==> r == Ok::<Option<i32>, DeepSeekError>(old(self).last_code) && final(self).attempt
                == old(self).attempt + 1 && final(self).last_code == old(self).last_code,
    {
        if timed_out {
            return Err(DeepSeekError::PollTimeout(POLL_MAX_DURATION_SECS));
        }
        self.attempt = self.attempt + 1;
        Ok(self.last_code)
    }

    /// After a failed request: retry after the normal pause during the first
    /// five attempts, else give up with the request's error.
    pub fn on_network_error(&self, err: DeepSeekError) -> (step: PollStep)
        ensures
            self.attempt <= 5 ==> step == PollStep::Wait(POLL_INTERVAL_MS),
            self.attempt > 5 ==> (step matches PollStep::Done(Err(e)) && e@ == err@),
    {
        if self.attempt <= 5 {
            PollStep::Wait(POLL_INTERVAL_MS)
        } else {
            PollStep::Done(Err(err))
        }
    }

    /// Decides on a poll reply: finish with the authorization code or an
    /// error, or remember the status and wait (shortly once scanned).
    pub fn on_body(&mut self, body: &str) -> (step: PollStep)
        ensures
            poll_step_view(step) == poll_reply_outcome(old(self).attempt, body@),
            final(self).attempt == old(self).attempt,
            step is Wait ==> final(self).last_code == Some(poll_code_of(body@)),
    {
        let code = parse_poll_code(body);
        if let Some(wx) = parse_wx_code(body) {
            return PollStep::Done(Ok(wx));
        }
        if code == 200 {
            if let Some(redirect) = parse_redirect_uri(body) {
                return PollStep::Done(Ok(redirect));
            }
            return PollStep::Done(
                Err(DeepSeekError::QrLogin(String::from_str("scan confirmed but no auth code in response"))),
            );
        }
        if code == 402 || code == 403 {
            return PollStep::Done(Err(DeepSeekError::QrLogin(String::from_str("QR code expired or cancelled"))));
        }
        if code == 405 {
            return PollStep::Done(
                Err(DeepSeekError::QrLogin(String::from_str("WeChat confirmed but no wx_code returned (405)"))),
            );
        }
        if code != 408 && code != 404 && code != 201 && code != 500 && self.attempt > 3 {
            let mut m = String::from_str("unexpected poll code: ");
            crate::error::push_signed(&mut m, code as i64);
            return PollStep::Done(Err(DeepSeekError::QrLogin(m)));
        }
        self.last_code = Some(code);
        if code == 404 || code == 201 {
            PollStep::Wait(POLL_FAST_INTERVAL_MS)
        } else {
            PollStep::Wait(POLL_INTERVAL_MS)
        }
    }
}

/// The decision on a poll reply at the given attempt: an authorization code
/// ends the login; status 200 ends it with the redirect URI or an error;
/// 402/403 (expired, cancelled) and 405 fail; 408, 404, 201 and 500 wait; any
/// other status fails after the third attempt and waits before.  The wait
/// is short (100 ms) after 404/201 (scanned) and 2 s otherwise.
pub open spec fn poll_reply_outcome(attempt: u32, body: Seq<char>) -> PollStepView {
    let code = poll_code_of(body);
    match regex_group1(wx_code_pattern(), body) {
        Some(wx) => PollStepView::Done(Ok(wx)),
        None => if code == 200 {
            match regex_group1(redirect_pattern(), body) {
                Some(r) => PollStepView::Done(Ok(r)),
                None => PollStepView::Done(Err(ErrorView::QrLogin("scan confirmed but no auth code in response"@))),
            }
        } else if code == 402 || code == 403 {
            PollStepView::Done(Err(ErrorView::QrLogin("QR code expired or cancelled"@)))
        } else if code == 405 {
            PollStepView::Done(Err(ErrorView::QrLogin("WeChat confirmed but no wx_code returned (405)"@)))
        } else if code != 408 && code != 404 && code != 201 && code != 500 && attempt > 3 {
            PollStepView::Done(Err(ErrorView::QrLogin("unexpected poll code: "@ + crate::text::signed_decimal(code as int))))
        } else if code == 404 || code == 201 {
            PollStepView::Wait(POLL_FAST_INTERVAL_MS)
        } else {
            PollStepView::Wait(POLL_INTERVAL_MS)
        },
    }
}

// ── OAuth callback chain ─────────────────────────────────────────

/// At most this many callback requests are made.
pub const OAUTH_MAX_HOPS: u32 = 6;

/// Progress along the OAuth redirect chain.
pub struct OAuthWalk {
    /// The URL to request next.
    pub url: String,
    /// Requests answered so far.
    pub hops: u32,
    /// The body of the last response that gave no nonce/provider.
    pub last_body: Option<String>,
}

/// What to do after a callback response.
pub enum OAuthStep {
    /// Request `url` of the walk.
    Fetch,
    /// Exchange the nonce and provider for the session token.
    Exchange(OAuthExchangeInfo),
    /// Stop with the session token found in a page, or the failure.
    Done(Result<String, DeepSeekError>),
}

/// The first callback URL: DeepSeek's WeChat callback with the code.
pub open spec fn callback_url(wx_code: Seq<char>) -> Seq<char> {
    "https://platform.deepseek.com/auth-api/v0/users/oauth/wechat/callback?code="@ + wx_code + "&state="@
}

/// How the walk ends without nonce and provider: a token embedded in the
/// last page, else the failure.
pub open spec fn walk_conclusion(last_body: Option<Seq<char>>) -> Result<Seq<char>, ErrorView> {
    match last_body {
        Some(b) => match regex_group1(embedded_token_pattern(), b) {
            Some(t) => Ok(t),
            None => Err(ErrorView::OAuthFailed("could not find nonce/provider in OAuth callback chain"@)),
        },
        None => Err(ErrorView::OAuthFailed("could not find nonce/provider in OAuth callback chain"@)),
    }
}

/// A status in 300..=399 (`StatusCode::is_redirection`).
pub open spec fn is_redirection(status: u16) -> bool {
    300 <= status < 400
}

impl OAuthWalk {
    /// The walk before its first request.
    pub fn start(wx_code: &str) -> (w: OAuthWalk)
        ensures
            w.url@ == callback_url(wx_code@),
            w.hops == 0,
            w.last_body is None,
    {
        let mut url = String::from_str("https://platform.deepseek.com/auth-api/v0/users/oauth/wechat/callback?code=");
        url.append(wx_code);
        url.append("&state=");
        OAuthWalk { url, hops: 0, last_body: None }
    }

    fn conclude(&self) -> (r: Result<String, DeepSeekError>)
        ensures
            text_result_view(r) == walk_conclusion(opt_text(self.last_body)),
    {
        if let Some(body) = &self.last_body {
            if let Some(token) = parse_embedded_token(body.as_str()) {
                return Ok(token);
            }
        }
        Err(DeepSeekError::OAuthFailed(String::from_str("could not find nonce/provider in OAuth callback chain")))
    }

    /// Decides on a callback response: exchange when it reveals nonce and
    /// provider; else follow a redirect while requests remain; else finish.
    pub fn on_response(&mut self, status: u16, location: Option<String>, body: String) -> (step: OAuthStep)
        requires
            old(self).hops < OAUTH_MAX_HOPS,
        ensures
            ({
                let info = response_oauth_info(old(self).url@, opt_text(location), body@);
                if info is Some {
                    step matches OAuthStep::Exchange(i) && Some((i.nonce@, i.provider@)) == info
                        && *final(self) == *old(self)
                } else {
                    &&& final(self).hops == old(self).hops + 1
                    &&& opt_text(final(self).last_body) == Some(body@)
                    &&& if is_redirection(status) && location is Some {
                        &&& final(self).url@ == location->0@
                        &&& if final(self).hops < OAUTH_MAX_HOPS {
                            step is Fetch
                        } else {
                            step matches OAuthStep::Done(r) && text_result_view(r) == walk_conclusion(Some(body@))
                        }
                    } else {
                        &&& final(self).url == old(self).url
                        &&& step matches OAuthStep::Done(r) && text_result_view(r) == walk_conclusion(Some(body@))
                    }
                }
            }),
    {
        let info = parse_oauth_info(
            self.url.as_str(),
            match &location {
                Some(l) => Some(l.as_str()),
                None => None,
            },
            body.as_str(),
        );
        if let Some(i) = info {
            return OAuthStep::Exchange(i);
        }
        let ghost body_view = body@;
        self.last_body = Some(body);
        assert(opt_text(self.last_body) == Some(body_view));
        self.hops = self.hops + 1;
        let redirect = 300 <= status && status < 400;
        if redirect {
            if let Some(loc) = location {
                self.url = loc;
                if self.hops < OAUTH_MAX_HOPS {
                    return OAuthStep::Fetch;
                } else {
                    let r = self.conclude();
                    return OAuthStep::Done(r);
                }
            }
        }
        let r = self.conclude();
        OAuthStep::Done(r)
    }
}

/// The error for a callback request that failed outright.
pub fn oauth_request_failed(msg: &str) -> (e: DeepSeekError)
    ensures
        e@ == ErrorView::QrLogin("OAuth callback request failed: "@ + msg@),
{
    DeepSeekError::QrLogin(String::from_str("OAuth callback request failed: ").concat(msg))
}

// ── Token exchange reply ────────────────────────────────────────

/// A JSON value at some path of a reply, as far as the flow reads it.
pub enum JsonField {
    /// Nothing at that path.
    Missing,
    /// A string.
    Text(String),
    /// A number representable as `i64`.
    Int(i64),
    /// Anything else (null, boolean, other number, array, object).
    Other,
}

/// The session token of the exchange reply: `/data/biz_data/token` when it
/// is a string, else `/data/token` when that is one.
pub open spec fn reply_token(biz_token: JsonField, data_token: JsonField) -> Option<Seq<char>> {
    match biz_token {
        JsonField::Text(t) => Some(t@),
        _ => match data_token {
            JsonField::Text(t) => Some(t@),
            _ => None,
        },
    }
}

/// The first present of two fields, read as an integer (-1 when it is none).
pub open spec fn reply_code(primary: JsonField, fallback: JsonField) -> i64 {
    match (if primary is Missing { fallback } else { primary }) {
        JsonField::Int(i) => i,
        _ => -1i64,
    }
}

/// The first present of two fields, read as a string (`unknown` when it is none).
pub open spec fn reply_msg(primary: JsonField, fallback: JsonField) -> Seq<char> {
    match (if primary is Missing { fallback } else { primary }) {
        JsonField::Text(t) => t@,
        _ => "unknown"@,
    }
}

/// The outcome of the token exchange: the non-empty token, or the failure
/// with the reply's (business) code and message.
pub open spec fn exchange_outcome(
    biz_token: JsonField,
    data_token: JsonField,
    biz_code: JsonField,
    code: JsonField,
    biz_msg: JsonField,
    msg: JsonField,
) -> Result<Seq<char>, ErrorView> {
    match reply_token(biz_token, data_token) {
        Some(t) if t.len() > 0 => Ok(t),
        _ => Err(
            ErrorView::OAuthFailed(
                "token exchange failed: code="@ + crate::text::signed_decimal(reply_code(biz_code, code) as int)
                    + ", msg="@ + reply_msg(biz_msg, msg),
            ),
        ),
    }
}

/// Reads the session token from the exchange reply's fields
/// `/data/biz_data/token`, `/data/token`, `/data/biz_code`, `/code`,
/// `/data/biz_msg` and `/msg` (see `exchange_outcome`).
pub fn exchange_reply_token(
    biz_token: JsonField,
    data_token: JsonField,
    biz_code: JsonField,
    code: JsonField,
    biz_msg: JsonField,
    msg: JsonField,
) -> (r: Result<String, DeepSeekError>)
    ensures
        text_result_view(r) == exchange_outcome(biz_token, data_token, biz_code, code, biz_msg, msg),
{
    let token: Option<&String> = match &biz_token {
        JsonField::Text(t) => Some(t),
        _ => match &data_token {
            JsonField::Text(t) => Some(t),
            _ => None,
        },
    };
    if let Some(t) = token {
        if t.as_str().unicode_len() > 0 {
            return Ok(t.clone());
        }
    }
    let code_field = if let JsonField::Missing = biz_code { &code } else { &biz_code };
    let c: i64 = match code_field {
        JsonField::Int(i) => *i,
        _ => -1,
    };
    let msg_field = if let JsonField::Missing = biz_msg { &msg } else { &biz_msg };
    let mut m = String::from_str("token exchange failed: code=");
    crate::error::push_signed(&mut m, c);
    m.append(", msg=");
    match msg_field {
        JsonField::Text(t) => m.append(t.as_str()),
        _ => m.append("unknown"),
    }
    Err(DeepSeekError::OAuthFailed(m))
}

// ── Laws of the login flow ──────────────────────────────────────

/// A poll reply without an authorization code whose status is 402 (QR code
/// expired) or 403 (login cancelled on the phone) ends the login with
/// "QR code expired or cancelled", at every attempt: such a reply never
/// leads to another poll.
pub proof fn law_poll_stops_when_expired_or_cancelled(attempt: u32, body: Seq<char>)
    requires
        regex_group1(wx_code_pattern(), body) is None,
        poll_code_of(body) == 402 || poll_code_of(body) == 403,
    ensures
        poll_reply_outcome(attempt, body) == PollStepView::Done(
            Err::<Seq<char>, ErrorView>(ErrorView::QrLogin("QR code expired or cancelled"@)),
        ),
{
}

/// A reply carrying an authorization code ends the login with that code.
pub proof fn law_poll_code_ends_login(attempt: u32, body: Seq<char>)
    requires
        regex_group1(wx_code_pattern(), body) is Some,
    ensures
        poll_reply_outcome(attempt, body) == PollStepView::Done(
            Ok::<Seq<char>, ErrorView>(regex_group1(wx_code_pattern(), body)->0),
        ),
{
}

/// Polling goes on only without an authorization code and while the status
/// is pending (408 waiting, 404/201 scanned, 500 server hiccup) or, during
/// the first three attempts, unknown; after a scan the next poll comes
/// quickly (100 ms), otherwise after 2 s.
pub proof fn law_poll_waits_only_while_pending(attempt: u32, body: Seq<char>)
    ensures
        poll_reply_outcome(attempt, body) matches PollStepView::Wait(ms) ==> {
            let c = poll_code_of(body);
            &&& regex_group1(wx_code_pattern(), body) is None
            &&& c != 200 && c != 402 && c != 403 && c != 405
            &&& (c == 408 || c == 404 || c == 201 || c == 500 || attempt <= 3)
            &&& (ms == POLL_FAST_INTERVAL_MS <==> (c == 404 || c == 201))
            &&& (ms == POLL_FAST_INTERVAL_MS || ms == POLL_INTERVAL_MS)
        },
{
}

/// Nonce and provider found in the `Location` header win over everything
/// else in the response.
pub proof fn law_oauth_info_prefers_location(current_url: Seq<char>, location: Seq<char>, body: Seq<char>)
    requires
        url_oauth_info(location) is Some,
    ensures
        response_oauth_info(current_url, Some(location), body) == url_oauth_info(location),
{
}

/// When neither the `Location` header nor the requested URL carries both
/// parameters, a query-style `?nonce=N` / `&nonce=N` and `?provider=P` /
/// `&provider=P` in the body give nonce `N` and provider `P` upper-cased.
pub proof fn law_oauth_info_from_body_query(
    current_url: Seq<char>,
    location: Option<Seq<char>>,
    body: Seq<char>,
    n: Seq<char>,
    p: Seq<char>,
)
    requires
        location matches Some(l) ==> url_oauth_info(l) is None,
        url_oauth_info(current_url) is None,
        regex_group1(nonce_query_pattern(), body) == Some(n),
        regex_group1(provider_query_pattern(), body) == Some(p),
    ensures
        response_oauth_info(current_url, location, body) == Some((n, upper_case(p))),
{
}

/// Without query-style parameters in the body, the JSON-style
/// `"nonce": "N"` and `"provider": "P"` give nonce `N` and provider `P`
/// upper-cased.
pub proof fn law_oauth_info_from_body_json(
    current_url: Seq<char>,
    location: Option<Seq<char>>,
    body: Seq<char>,
    n: Seq<char>,
    p: Seq<char>,
)
    requires
        location matches Some(l) ==> url_oauth_info(l) is None,
        url_oauth_info(current_url) is None,
        regex_group1(nonce_query_pattern(), body) is None,
        regex_group1(provider_query_pattern(), body) is None,
        regex_group1(nonce_json_pattern(), body) == Some(n),
        regex_group1(provider_json_pattern(), body) == Some(p),
    ensures
        response_oauth_info(current_url, location, body) == Some((n, upper_case(p))),
{
}

/// The token exchange succeeds with `/data/biz_data/token` when that is a
/// non-empty string.
pub proof fn law_exchange_takes_biz_token(
    biz_token: JsonField,
    data_token: JsonField,
    biz_code: JsonField,
    code: JsonField,
    biz_msg: JsonField,
    msg: JsonField,
)
    requires
        biz_token matches JsonField::Text(t) && t@.len() > 0,
    ensures
        exchange_outcome(biz_token, data_token, biz_code, code, biz_msg, msg) == Ok::<Seq<char>, ErrorView>(
            biz_token->Text_0@,
        ),
{
}

/// When `/data/biz_data/token` is not a string (absent or any other value),
/// a non-empty string at `/data/token` is the session token.
pub proof fn law_exchange_takes_data_token(
    biz_token: JsonField,
    data_token: JsonField,
    biz_code: JsonField,
    code: JsonField,
    biz_msg: JsonField,
    msg: JsonField,
)
    requires
        !(biz_token is Text),
        data_token matches JsonField::Text(t) && t@.len() > 0,
    ensures
        exchange_outcome(biz_token, data_token, biz_code, code, biz_msg, msg) == Ok::<Seq<char>, ErrorView>(
            data_token->Text_0@,
        ),
{
}

/// The exchange succeeds only with a non-empty token taken from one of the
/// two token fields; otherwise it fails with `OAuthFailed`.
pub proof fn law_exchange_token_comes_from_reply(
    biz_token: JsonField,
    data_token: JsonField,
    biz_code: JsonField,
    code: JsonField,
    biz_msg: JsonField,
    msg: JsonField,
)
    ensures
        match exchange_outcome(biz_token, data_token, biz_code, code, biz_msg, msg) {
            Ok(t) => t.len() > 0 && ((biz_token matches JsonField::Text(b) && b@ == t) || (data_token matches JsonField::Text(
                d,
            ) && d@ == t)),
            Err(e) => e is OAuthFailed,
        },
{
}


/// The `fordevtool` URL's UUID wins over the QR image path, which wins over
/// any `uuid` assignment; without any of them there is no UUID.
pub proof fn law_page_uuid_priority(html: Seq<char>)
    ensures
        regex_group1(uuid_devtool_pattern(), html) is Some ==> page_uuid(html) == regex_group1(
            uuid_devtool_pattern(),
            html,
        ),
        page_uuid(html) is None <==> (regex_group1(uuid_devtool_pattern(), html) is None && regex_group1(
            "/connect/qrcode/([a-zA-Z0-9]+)"@,
            html,
        ) is None && regex_group1("uuid[=:]\\s*[\"']?([a-zA-Z0-9]{10,30})[\"']?"@, html) is None),
{
}

/// An explicit `window.wx_errcode = N` that reads as an `i32` is the status;
/// without one, a reply with none of the scan or cancel markers means
/// "still waiting" (408).
pub proof fn law_poll_code_reading(body: Seq<char>)
    ensures
        (regex_group1("window\\.wx_errcode\\s*=\\s*(\\d+)"@, body) matches Some(d) && parsed_i32(d) is Some)
            ==> poll_code_of(body) == parsed_i32(
            regex_group1("window\\.wx_errcode\\s*=\\s*(\\d+)"@, body)->0,
        )->0,
        (regex_group1("window\\.wx_errcode\\s*=\\s*(\\d+)"@, body) is None && !has_substring(body, "wx_after_scan"@)
            && !has_substring(body, "扫码成功"@) && !has_substring(body, "扫描成功"@) && !has_substring(
            body,
            "wx_after_cancel"@,
        )) ==> poll_code_of(body) == 408,
{
}

/// A URL yields nonce and provider only when it has both query parameters;
/// the provider comes upper-cased.
pub proof fn law_url_oauth_info(url: Seq<char>)
    ensures
        url_oauth_info(url) is Some <==> (regex_group1(query_param_pattern("nonce"@), url) is Some && regex_group1(
            query_param_pattern("provider"@),
            url,
        ) is Some),
        url_oauth_info(url) matches Some((n, p)) ==> Some(n) == regex_group1(query_param_pattern("nonce"@), url)
            && p == upper_case(regex_group1(query_param_pattern("provider"@), url)->0),
{
}

/// A walk that ends without nonce and provider succeeds only with a token
/// embedded in its last page; otherwise it fails with `OAuthFailed`.
pub proof fn law_walk_conclusion(last_body: Option<Seq<char>>)
    ensures
        walk_conclusion(last_body) matches Ok(t) ==> last_body matches Some(b) && regex_group1(
            embedded_token_pattern(),
            b,
        ) == Some(t),
        walk_conclusion(last_body) matches Err(e) ==> e is OAuthFailed,
        last_body is None ==> walk_conclusion(last_body) is Err,
{
}

} // verus!
