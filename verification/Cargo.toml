[package]
name = "opengov_bot"
version = "0.1.0"
edition = "2021"
publish = false

[dependencies]
clokwerk = "0.4"
diesel = { version = "2", features = ["postgres"] }
dotenvy = "0.15"
hyper = { version = "0.14", features = ["full"] }
hyper-tls = "0.5"
serde = { version = "1", features = ["derive"] }
serde_json = "1"
serenity = "0.11"
tokio = { version = "1", features = ["macros", "rt-multi-thread"] }
