[package]
name = "mecalin"
version = "0.1.0"
edition = "2021"
publish = false

[dependencies]
rand = "0.9"
gtk4 = "*"
libadwaita = "*"
i18n-format = "*"
