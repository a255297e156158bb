[package]
name = "nullmagnet"
version = "2.0.0"
edition = "2021"
publish = false

[dependencies]
aes-gcm = "0.10"
chrono = { version = "0.4", default-features = false, features = ["clock", "std"] }
crossbeam-channel = "0.5"
egui = { version = "0.29", default-features = false, features = ["default_fonts"] }
egui_plot = { version = "0.29", default-features = false }
hex = "0.4"
hmac = "0.12"
ml-kem = { version = "0.2", features = ["deterministic"] }
parking_lot = "0.12"
pqcrypto-falcon = "0.3"
pqcrypto-traits = "0.3"
rand = "0.8"
rand_core = { version = "0.6", features = ["getrandom"] }
reqwest = { version = "0.12", default-features = false, features = ["blocking", "json"] }
serde = { version = "1", features = ["derive"] }
serde_json = "1"
serialport = { version = "4", default-features = false }
sha2 = "0.10"
sha3 = "0.10"
toml = { version = "0.8", default-features = false, features = ["parse", "display"] }
zeroize = "1"
