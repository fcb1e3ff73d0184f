[package]
name = "slab_core"
version = "0.1.0"
edition = "2021"
publish = false

[dependencies]
pulldown-cmark = { version = "0.13", default-features = false }
serde_json = "1"
sha2 = "0.10"
serde = { version = "1", features = ["derive"] }
anyhow = "1"
thiserror = "2"
clap = { version = "4", features = ["derive", "env"] }
clap_complete = "4"
console = "0.15"
dirs = "6"
indicatif = "0.17"
opener = "0.7"
arboard = "3"
reqwest = { version = "0.12", default-features = false, features = ["json", "rustls-tls"] }
rusqlite = { version = "0.32", features = ["bundled"] }
tokio = { version = "1", features = ["rt-multi-thread", "macros"] }
toml = "0.8"
tracing = "0.1"
tracing-subscriber = { version = "0.3", features = ["env-filter"] }
similar = "2"
