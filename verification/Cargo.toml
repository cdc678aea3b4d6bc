[package]
name = "martin"
version = "0.1.0"
edition = "2021"
publish = false

[dependencies]
actix-cors = "0.7"
actix-files = "0.6"
actix-http = "3"
actix-web = { version = "4", default-features = false, features = ["macros", "compress-gzip", "compress-brotli"] }
bit-set = "0.5"
brotli = "*"
clap = { version = "4", features = ["derive"] }
flate2 = "1"
futures = "0.3"
itertools = "*"
log = "0.4"
num_cpus = "1"
pbf_font_tools = { version = "*", features = ["freetype"] }
postgis = "*"
postgres-protocol = "0.6"
regex = "1"
serde = { version = "1", features = ["derive"] }
serde_json = "1"
serde_yaml = "0.9"
thiserror = "1"
tilejson = "*"
tokio = { version = "1", features = ["full"] }
