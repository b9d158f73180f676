[package]
name = "rstf"
version = "0.1.0"
edition = "2021"
publish = false

[dependencies]
anyhow = "1"
argon2 = "0.5"
bincode = "1.3"
chacha20poly1305 = { version = "0.10", features = ["stream"] }
clap = { version = "4", features = ["derive"] }
indicatif = "0.17"
num_cpus = "1"
rand = "0.8"
rpassword = "7"
serde = { version = "1", features = ["derive"] }
sha2 = "0.10"
tar = "0.4"
zeroize = "1"
zstd = { version = "0.13", features = ["zstdmt"] }
