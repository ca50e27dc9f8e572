[package]
name = "alter_ego_tools"
version = "0.1.0"
edition = "2021"
publish = false

[dependencies]
regex = "1"
anyhow = "1"
tracing = "0.1"
gtk4 = { version = "*", features = ["v4_12"] }
libadwaita = { version = "*", features = ["v1_6"] }
sourceview5 = "*"
