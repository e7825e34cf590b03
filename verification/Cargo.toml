[package]
name = "galileo"
version = "0.1.0"
edition = "2021"
publish = false

[dependencies]
solana-sdk = "=5.0.0"
solana-compute-budget-interface = "=3.1.0"
bs58 = "=0.5.1"
base64 = "=0.22.1"
serde = { version = "=1.0.229", features = ["derive"] }
serde_json = "=1.0.154"
serde_yaml = "=0.9.34"
url = "=2.5.8"
sha2 = "=0.10.9"
uuid = { version = "=1.29.0", features = ["v4"] }
rand = "=0.9.5"
aes-gcm = "=0.10.3"
argon2 = "=0.5.3"
time = { version = "=0.3.55", features = ["parsing"] }
clap = { version = "=4.6.7", features = ["derive"] }
console = "=0.16.6"
toml = "=1.1.8"
solana-address-lookup-table-interface = { version = "=4.0.0", features = ["bincode", "bytemuck"] }
