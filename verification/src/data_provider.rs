//! The shapes of the asset feed consumed at startup: a provider status, the
//! catalogue entries, and the chain platform a token may live on. Fetching
//! and storing the feed is I/O and lives outside the library.
use vstd::prelude::*;

verus! {

/// One catalogue response from the asset provider.
#[derive(Debug)]
pub struct CMCAPIResponse {
    pub status: Status,
    pub data: Vec<TokenInfo>,
}

/// Provider bookkeeping sent with every catalogue response.
#[derive(Debug)]
pub struct Status {
    pub timestamp: String,
    pub error_code: u32,
    pub error_message: Option<String>,
    pub elapsed: u32,
    pub credit_count: u8,
    pub notice: Option<String>,
}

/// One asset in the provider's catalogue.
#[derive(Debug)]
pub struct TokenInfo {
    pub id: i32,
    pub rank: i32,
    pub name: String,
    pub symbol: String,
    pub slug: String,
    pub first_historical_data: String,
    pub last_historical_data: String,
    pub platform: Option<Platform>,
}

/// The chain a token lives on, when it is not a native coin.
#[derive(Debug)]
pub struct Platform {
    pub id: u32,
    pub name: String,
    pub symbol: String,
    pub slug: String,
    pub token_address: String,
}

} // verus!
