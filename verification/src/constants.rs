//! Endpoints, identifiers, timings and status codes of the platform.

use vstd::prelude::*;

verus! {

pub const DEEPSEEK_BASE_URL: &'static str = "https://platform.deepseek.com";
pub const DEEPSEEK_API_BASE: &'static str = "https://platform.deepseek.com/api/v0";
pub const DEEPSEEK_AUTH_BASE: &'static str = "https://platform.deepseek.com/auth-api/v0";

pub const USAGE_BY_KEY_AMOUNT_PATH: &'static str = "/usage/by_api_key/amount";
pub const USAGE_BY_KEY_COST_PATH: &'static str = "/usage/by_api_key/cost";
pub const API_KEYS_PATH: &'static str = "/users/get_api_keys";

/// Browser-like User-Agent that newer endpoints require.
pub const BROWSER_USER_AGENT: &'static str =
    "Mozilla/5.0 (X11; Linux x86_64) AppleWebKit/537.36 (KHTML, like Gecko) Chrome/131.0.0.0 Safari/537.36";

pub const WECHAT_OPEN_BASE: &'static str = "https://open.weixin.qq.com";
pub const WECHAT_LONG_POLL_BASE: &'static str = "https://long.open.weixin.qq.com";
pub const WECHAT_APP_ID: &'static str = "wx335255e1b73f9e52";

/// Pause between polls while waiting, in milliseconds.
pub const POLL_INTERVAL_MS: u64 = 2000;
/// Pause between polls once the code is scanned, in milliseconds.
pub const POLL_FAST_INTERVAL_MS: u64 = 100;
/// Longest wait for the scan, in seconds.
pub const POLL_MAX_DURATION_SECS: u64 = 300;

pub const API_TIMEOUT_SECS: u64 = 15;
pub const OAUTH_REQUEST_TIMEOUT_SECS: u64 = 35;

/// Status code of an expired session token.
pub const TOKEN_EXPIRED_CODE: i32 = 40002;
/// Status code of a successful reply.
pub const API_SUCCESS_CODE: i32 = 0;

} // verus!
