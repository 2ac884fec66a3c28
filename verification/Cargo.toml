[package]
name = "relkit"
version = "0.1.0"
edition = "2021"
publish = false

[dependencies]
anyhow = "1.0"
clap = { version = "4", features = ["derive"] }
gix = { version = "0.78", default-features = false, features = ["revision"] }
isolang = { version = "2.4", features = ["english_names"] }
java-properties = "2.0"
serde = { version = "1.0", features = ["derive"] }
serde_json = "1.0"
serde_yaml = "0.9"
toml = "0.8"
ureq = { version = "3.0", features = ["json"] }
which = "8"
