[package]
name = "uniswap_arb_bot"
version = "0.1.0"
edition = "2021"
publish = false

[dependencies]
async-trait = "0.1"
clap = { version = "4", features = ["derive"] }
dotenvy = "0.15"
ethers = { version = "=2.0.14", default-features = false, features = ["abigen", "ws"] }
ethers-providers = { version = "=2.0.14", default-features = false, features = ["ws", "rustls"] }
eyre = "0.6"
futures-util = "0.3"
reqwest = { version = "0.11", default-features = false, features = ["json", "rustls-tls"] }
serde = { version = "1", features = ["derive"] }
serde_json = "1"
serde_yaml = "0.9"
tokio = { version = "1", features = ["macros", "rt-multi-thread", "signal", "time"] }
tracing = "0.1"
tracing-subscriber = { version = "0.3", features = ["env-filter"] }
