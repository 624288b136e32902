[package]
name = "karere"
version = "2.0.0"
edition = "2021"
publish = false

[dependencies]
anyhow = "1"
ashpd = "*"
cairo-rs = "*"
env_logger = "*"
gettext-rs = "*"
glib = "*"
gtk4 = { version = "*", features = ["v4_10"] }
ksni = "*"
libadwaita = { version = "*", features = ["v1_6"] }
librsvg = "*"
log = "0.4"
pango = "*"
pangocairo = "*"
serde = { version = "1", features = ["derive"] }
serde_json = "1"
tokio = { version = "1", features = ["rt-multi-thread"] }
webkit6 = "*"
zbus = "*"
