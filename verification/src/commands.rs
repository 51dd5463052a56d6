//! What the windows of the application ask for.
pub mod cert;
pub mod oauth;
pub mod oauth_loopback;
pub mod profile;
pub mod switch;
pub mod usage_history;
