[package]
name = "zellij_template_render"
version = "0.1.0"
edition = "2021"
publish = false

[dependencies]
minijinja = { version = "2", features = ["loader"] }
chrono = "0.4"
chrono-tz = "0.10"
unicode-width = "0.2"
ansi_term = "0.12"
serde = { version = "1", features = ["derive"] }
zellij-tile = "*"
zellij-tile-utils = "*"
