[package]
name = "rfc"
version = "0.1.0"
edition = "2021"
publish = false

[dependencies]
aes = "0.8"
base64 = "0.22"
clap = { version = "4.4", features = ["derive"] }
lz4_flex = "0.11"
password-hash = "0.5"
pbkdf2 = "0.12"
rand_core = { version = "0.6", features = ["getrandom"] }
rpassword = "7"
sha2 = "0.10"
thiserror = "1"
