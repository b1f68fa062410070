[package]
name = "hackattic"
version = "0.1.0"
edition = "2021"
publish = false

[dependencies]
anyhow = "=1.0.104"
base64 = "=0.23.1"
bytes = "=1.12.1"
celes = "=2.4.0"
dotenvy_macro = "=0.15.7"
hmac = "=0.13.0"
openssl = "=0.10.81"
pbkdf2 = "=0.13.0"
reqwest = { version = "=0.13.5", default-features = false, features = ["blocking", "json", "native-tls"] }
scrypt = "=0.12.0"
serde = { version = "=1.0.229", features = ["derive"] }
serde_json = "=1.0.154"
sha2 = "=0.11.1"
sha256 = { version = "=1.6.0", default-features = false }
zip = { version = "=9.1.0", default-features = false, features = ["deflate"] }

[dev-dependencies]
itertools = "=0.15.0"
