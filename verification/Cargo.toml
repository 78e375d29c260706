[package]
name = "cosmictify"
version = "0.2.1"
edition = "2021"
publish = false

[dependencies]
base64 = "0.22"
rand = "0.8"
sha2 = "0.10"
form_urlencoded = "1"
url = "2"
serde = { version = "1", features = ["derive"] }
serde_json = "1"
ureq = "2"
tokio = { version = "1", features = ["rt"] }
tracing = "0.1"
tracing-subscriber = { version = "0.3", features = ["env-filter"] }
tracing-journald = "0.3"
i18n-embed = { version = "0.15", features = ["fluent-system", "desktop-requester"] }
mpris = "2"
keyring = "*"
