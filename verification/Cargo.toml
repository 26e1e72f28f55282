[package]
name = "bleh"
version = "0.1.0"
edition = "2021"
rust-version = "1.95"
publish = false

[dependencies]
rrule = "=0.7.3"
chrono = "=0.4.45"
nom = "=7.1.3"
tokio = { version = "=1.54.1", features = ["rt-multi-thread", "macros", "time", "fs"] }
matrix-sdk = { version = "=0.18.0", default-features = false }
sqlx = { version = "=0.9.0", default-features = false, features = ["sqlite", "runtime-tokio"] }
tracing = "=0.1.44"
tracing-subscriber = { version = "=0.3.23", features = ["env-filter"] }
envconfig = "=0.11.1"
url = "=2.5.8"
askama = "=0.16.1"
async-trait = "=0.1.92"
