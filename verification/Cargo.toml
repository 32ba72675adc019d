[package]
name = "studio_offline"
version = "0.1.0"
edition = "2021"
publish = false

[dependencies]
axum = { version = "0.8", features = ["multipart"] }
goblin = "0.10"
iced-x86 = "=1.22.0"
inquire = "0.7"
md5 = "=0.7.0"
minhook-sys = "*"
reqwest = { version = "0.12", default-features = false, features = ["json", "gzip", "deflate", "rustls-tls"] }
serde = { version = "1", features = ["derive"] }
serde_json = "1"
sha2 = "=0.10.9"
tokio = { version = "1", features = ["full"] }
tower = { version = "0.5", features = ["util"] }
tower-http = { version = "0.6", features = ["fs"] }
tracing = "0.1"
tracing-subscriber = { version = "0.3", features = ["env-filter"] }
urlencoding = "=2.1.3"
windows = { version = "0.58", features = ["Win32_Foundation", "Win32_System_Console", "Win32_System_Memory", "Win32_System_SystemServices"] }
