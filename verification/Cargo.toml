[package]
name = "payment_hub"
version = "0.1.0"
edition = "2021"
publish = false

[dependencies]
num-bigint = "*"
sha2 = "*"
candid = "*"
ic-cdk = "*"
ic-cdk-timers = "*"
icrc-ledger-types = "*"
ic-xrc-types = "*"
chrono = "*"
futures = "*"
serde = { version = "*", features = ["derive"] }
