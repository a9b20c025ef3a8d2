[package]
name = "wealthfolio_budget"
version = "0.1.0"
edition = "2021"
publish = false

[dependencies]
anyhow = "=1.0.104"
axum = "=0.8.9"
chrono = { version = "=0.4.45", default-features = false, features = ["std", "clock"] }
diesel = { version = "=2.3.14", features = ["sqlite", "r2d2"] }
log = "=0.4.34"
rusqlite = "0.37"
serde = { version = "=1.0.229", features = ["derive"] }
