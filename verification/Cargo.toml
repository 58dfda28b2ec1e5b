[package]
name = "cirula"
version = "0.1.0"
edition = "2021"
publish = false

[dependencies]
fuzzy-matcher = "0.3"
regex = "1"
shlex = "1"
icu_collator = "2"
icu_locale = "2"
freedesktop_entry_parser = "2"
xdg = "3"
serde = { version = "1", features = ["derive"] }
toml = "0.9"
strum = { version = "0.27", features = ["derive"] }
tracing = "0.1"
tracing-subscriber = { version = "0.3", features = ["env-filter"] }
