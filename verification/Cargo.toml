[package]
name = "my_cont_srv"
version = "0.1.0"
edition = "2021"
publish = false

[dependencies]
actix-server = "2"
actix-web = { version = "4", default-features = false, features = ["macros", "compress-gzip", "rustls-0_23"] }
actix-web-httpauth = "0.8"
anyhow = "1"
base64 = "0.22"
bcrypt = "*"
clap = { version = "4", features = ["derive"] }
epub = "*"
lru = "*"
mime_guess = "2"
regex = "1"
rustls = { version = "0.23", default-features = false, features = ["ring", "std", "tls12", "logging"] }
rustls-pemfile = "2"
serde = { version = "1", features = ["derive"] }
tokio = { version = "1", features = ["fs", "sync", "rt-multi-thread", "macros"] }
tokio-util = { version = "0.7", features = ["io"] }
toml = "*"
urlencoding = "2"
