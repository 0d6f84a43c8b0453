[package]
name = "tg_admin"
version = "0.1.0"
edition = "2021"
publish = false

[dependencies]
anyhow = "1"
clap = { version = "4", features = ["derive"] }
dptree = "=0.3.0"
json5 = "=0.4.1"
serde = { version = "1", features = ["derive"] }
serde_json = { version = "=1.0.154", features = ["preserve_order"] }
serde_yaml = "=0.9.34"
# teloxide-core pulls in takecell; 0.1.2 asks for a newer compiler than this crate is built with.
takecell = "<0.1.2"
teloxide = { version = "=0.13.0", default-features = false, features = ["macros", "ctrlc_handler", "rustls"] }
tokio = { version = "1", features = ["rt-multi-thread", "macros"] }
toml = { version = "=0.8.23", features = ["preserve_order"] }
tracing = "0.1"
