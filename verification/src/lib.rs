//! Usage accounting, time ranges and login-flow decisions of the DeepSeek
//! platform monitor, verified with Verus.

pub mod accounting;
pub mod api;
pub mod auth;
pub mod calendar;
pub mod constants;
pub mod error;
pub mod ratio;
pub mod status;
pub mod text;
pub mod types;
pub mod usage;
pub mod wechat;
