[package]
name = "qwley_launcher"
version = "0.1.0"
edition = "2021"
publish = false

[dependencies]
urlencoding = "2"
serde = { version = "1", features = ["derive"] }
serde_json = "1"
ureq = { version = "2", features = ["json"] }
zip = { version = "2", default-features = false, features = ["deflate"] }
reqwest = { version = "0.12", default-features = false, features = ["json", "rustls-tls"] }
tokio = { version = "1", features = ["fs", "time", "rt-multi-thread", "macros"] }
winapi = { version = "0.3", features = ["shellapi", "fileapi", "handleapi", "winnt"] }
