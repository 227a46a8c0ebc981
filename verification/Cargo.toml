[package]
name = "reddit-cli"
version = "0.1.0"
edition = "2021"
publish = false

[dependencies]
anyhow = "1"
clap = { version = "4", features = ["derive"] }
directories = "6"
open = "5"
owo-colors = "=4.4.0"
quick-xml = "=0.38.4"
rusqlite = { version = "0.37", features = ["bundled"] }
serde = { version = "1", features = ["derive"] }
serde_json = "=1.0.154"
sha2 = "0.10"
thiserror = "2"
tokio = { version = "1", features = ["macros", "rt-multi-thread", "time"] }
toml = "=0.9.8"
url = "=2.5.8"
urlencoding = "=2.1.3"
wreq = "0.15"
wreq-util = "0.1"
