[package]
name = "mpw_vault"
version = "0.1.0"
edition = "2021"
publish = false

[dependencies]
magic-crypt = "3.1"
mpw = "=0.1.0"
serde = { version = "1", features = ["derive"] }
serde_json = { version = "1", features = ["preserve_order"] }
leptos = { version = "0.4", features = ["csr"] }
web-sys = { version = "0.3", features = ["Window", "Storage"] }
