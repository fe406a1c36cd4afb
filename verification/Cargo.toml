[package]
name = "rustique"
version = "0.1.0"
edition = "2021"
publish = false

[dependencies]
lenient_semver = "*"
semver = "1"
chrono = "*"
clap = { version = "4", features = ["derive"] }
clap_complete = "4"
comfy-table = "*"
owo-colors = "*"
serde = { version = "1", features = ["derive"] }
serde_json = "1"
serde_json5 = "*"
toml = "*"
tokio = { version = "1", features = ["full"] }
reqwest = { version = "*", default-features = false, features = ["json"] }
zip = { version = "*", default-features = false, features = ["deflate"] }
dirs = "*"
tracing = "*"
tracing-subscriber = { version = "*", features = ["env-filter"] }
url = "2"
uuid = { version = "1", features = ["v4"] }
futures = "*"
indicatif = "*"
rayon = "*"
html2text = "*"
async_zip = { version = "*", features = ["tokio", "tokio-fs", "deflate"] }
is_elevated = "*"
