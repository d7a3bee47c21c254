[package]
name = "kidobo"
version = "0.1.0"
edition = "2021"
publish = false

[dependencies]
fs2 = "0.4"
log = "0.4"
nix = { version = "0.30", features = ["poll", "signal", "fs"] }
reqwest = { version = "0.12", default-features = false, features = ["blocking", "rustls-tls-webpki-roots-no-provider"] }
rustls = { version = "0.23", default-features = false, features = ["ring", "std", "tls12"] }
serde = { version = "1", features = ["derive"] }
serde_json = "1"
sha2 = "0.10"
thiserror = "2"
toml_edit = { version = "0.22", features = ["serde"] }
