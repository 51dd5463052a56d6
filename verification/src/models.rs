//! Records that several parts share.
use vstd::prelude::*;

verus! {

/// An account.
pub struct RawAccount {
    pub name: String,
    pub user_id: Option<String>,
    pub jwt: String,
    pub refresh_token: Option<String>,
    pub added_at: Option<String>,
    pub updated_at: Option<String>,
    pub dc_id: Option<String>,
    pub refresh_token_expires_at: Option<i64>,
    /// How often refreshing has failed in a row.
    pub refresh_token_fails: u32,
    /// Whether the refresh token is known to be no good.
    pub refresh_token_invalid: bool,
    pub auth_saved_at: Option<String>,
}

} // verus!
