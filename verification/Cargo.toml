[package]
name = "bms_get"
version = "0.1.0"
edition = "2021"
publish = false

[dependencies]
anyhow = "1"
clap = { version = "4", features = ["derive"] }
encoding_rs = "0.8"
env_logger = "0.11"
futures-util = "0.3"
governor = "*"
hex = "0.4"
indicatif = "*"
log = "0.4"
md5 = "*"
regex = "1"
reqwest = { version = "0.12", default-features = false, features = ["json", "rustls-tls", "stream"] }
scraper = "*"
serde = { version = "1", features = ["derive"] }
sha2 = "0.10"
tokio = { version = "1", features = ["macros", "rt-multi-thread", "fs", "io-util", "time"] }
unrar = "*"
zip = { version = "2", default-features = false, features = ["deflate"] }
