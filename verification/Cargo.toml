[package]
name = "cyberfiles_ui"
version = "0.1.0"
edition = "2021"
publish = false

[dependencies]
anyhow = "1"
chrono = "0.4"
rust-i18n = "3"
serde = { version = "1", features = ["derive"] }
sys-locale = "0.3"
