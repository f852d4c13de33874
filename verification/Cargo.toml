[package]
name = "blink"
version = "0.1.0"
edition = "2021"
publish = false

[dependencies]
pulldown-cmark = "=0.13.6"
emojis = "*"
serde = { version = "=1.0.229", features = ["derive"] }
toml = "=1.1.8"
async-channel = "=2.5.0"
gettext-rs = { version = "=0.7.7", features = ["gettext-system"] }
ab_glyph = "=0.2.32"
ratex-parser = "=0.1.15"
ratex-layout = "=0.1.15"
ratex-types = "=0.1.15"
ratex-font = "=0.1.15"
ratex-katex-fonts = "=0.1.15"
gtk4 = "=0.11.5"
libadwaita = "=0.9.2"
sourceview5 = "=0.11.2"
pango = "=0.22.9"
pangocairo = "=0.22.9"
