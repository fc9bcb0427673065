[package]
name = "imagevault"
version = "0.1.0"
edition = "2021"
publish = false

[dependencies]
url = "*"
sha2 = "*"
image = "*"
warp = "0.3"
tokio = { version = "1", features = ["full"] }
reqwest = { version = "*", default-features = false, features = ["stream"] }
rusqlite = { version = "*", features = ["bundled"] }
r2d2 = "*"
r2d2_sqlite = "*"
moka = { version = "*", features = ["future"] }
serde = { version = "*", features = ["derive"] }
serde_json = "*"
bytes = "*"
futures-util = "*"
clap = { version = "*", features = ["derive", "env"] }
anyhow = "*"
time = { version = "0.3", features = ["formatting", "parsing", "macros", "serde-well-known"] }
uuid = { version = "*", features = ["v4"] }
