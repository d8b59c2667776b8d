[package]
name = "canvas_cli"
version = "0.1.0"
edition = "2021"
publish = false

[dependencies]
fuzzy-matcher = "=0.3.7"
url = "=2.5.8"
anyhow = "*"
chrono = "*"
clap = { version = "*", features = ["derive"] }
clap_complete_command = "=0.6.1"
colored = "=3.1.1"
confy = "=2.0.0"
csscolorparser = "=0.9.0"
env_logger = "*"
futures = "*"
human_bytes = "=0.4.3"
indicatif = "=0.18.6"
inquire = "=0.9.4"
log = "*"
reqwest = { version = "=0.13.5", default-features = false, features = ["json", "multipart", "stream", "form", "query"] }
serde = { version = "*", features = ["derive"] }
serde_derive = "*"
serde_json = "*"
tokio = { version = "*", features = ["rt-multi-thread", "macros", "fs", "time"] }
tokio-util = { version = "*", features = ["codec"] }
