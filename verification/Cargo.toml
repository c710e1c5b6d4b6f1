[package]
name = "firmina"
version = "0.1.0"
edition = "2021"
publish = false

[dependencies]
sha2 = "=0.11.1"
chrono = "=0.4.45"
rasn = "=0.30.0"
rasn-cms = "=0.30.0"
cryptoki = "=0.12.1"
clap = { version = "=4.6.7", features = ["derive"] }
dialoguer = "=0.12.0"
env_logger = "=0.11.11"
log = "=0.4.35"
thiserror = "=2.0.21"

[dev-dependencies]
rasn-pkix = "=0.30.0"
rasn-smime = "=0.30.0"
