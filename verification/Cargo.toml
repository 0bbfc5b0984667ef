[package]
name = "watchlist_core"
version = "0.1.0"
edition = "2021"
publish = false

[dependencies]
jsonwebtoken = { version = "=11.1.0", features = ["rust_crypto"] }
serde = { version = "=1.0.229", features = ["derive"] }
serde_json = "=1.0.151"
actix-web = "=4.15.0"
redis-async = "=0.18.0"
sqlx = { version = "=0.8.6", default-features = false, features = ["postgres", "runtime-tokio-rustls", "chrono"] }
chrono = "=0.4.45"
dotenv = "=0.15.0"
envy = "=0.4.2"
futures-util = "=0.3.34"
async-trait = "=0.1.92"
reqwest = "=0.13.5"
log = "=0.4.34"
env_logger = "=0.11.11"
