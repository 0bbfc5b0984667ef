//! A watchlist service core built around two layers that every request
//! crosses: a bearer-token authentication stage, and a cache-aside
//! consistency layer in front of the source of truth. Token validation,
//! the cache read and invalidation policy, the cache wire commands, and
//! the encoding of everything that is cached or sent to clients are all
//! specified and verified here; connections, sockets and the HTTP server
//! live outside the library and hand plain values in.
pub mod authgate;
pub mod b64;
pub mod cache;
pub mod coordinator;
pub mod data_provider;
pub mod dto;
pub mod errors;
pub mod health;
pub mod helpers;
pub mod json;
pub mod token;
pub mod watchlist;
pub mod watchlistgroup;

use vstd::prelude::*;

verus! {

/// Service configuration, assembled once at startup and handed to each
/// component that needs a part of it.
#[derive(Clone, Debug)]
pub struct Config {
    pub database_url: String,
    pub server: String,
    pub app_version: String,
    pub log_level: String,
    pub redis_host: String,
    pub redis_port: u16,
    pub redis_password: String,
    pub cmc_api_key: String,
    pub cmc_token_id_endpoint: String,
    pub is_feed_assets_data_enabled: bool,
    pub jwt_secret: String,
    pub log_file_location: String,
}

} // verus!
