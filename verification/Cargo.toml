[package]
name = "loki"
version = "0.3.0"
edition = "2021"
publish = false

[dependencies]
glob = "0.3"
serde = { version = "1", features = ["derive"] }
serde_json = "1"
clap = { version = "4", features = ["derive", "env"] }
clap_complete = "4"
thiserror = "*"
tokio = { version = "1", features = ["macros", "rt-multi-thread"] }
async-trait = "0.1"
tracing = "0.1"
tracing-subscriber = { version = "0.3", features = ["env-filter"] }
dirs = "*"
core-foundation = "*"
core-graphics = "*"
image = { version = "*", default-features = false, features = ["png"] }
