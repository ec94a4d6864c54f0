[package]
name = "steam_optionx"
version = "0.1.0"
edition = "2021"
publish = false

[dependencies]
keyvalues-serde = "=0.2.4"
serde = { version = "=1.0.229", features = ["derive"] }
serde_json = "=1.0.154"
log = "=0.4.34"
env_logger = { version = "=0.11.11", default-features = false }
confy = "=0.6.1"
directories = "=5.0.1"
strum = "=0.26.3"
strum_macros = "=0.26.4"
