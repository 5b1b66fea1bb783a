[package]
name = "pow_gate_core"
version = "0.1.0"
edition = "2021"
publish = false

[dependencies]
arc-swap = "1"
base64 = "0.22"
getrandom = "0.2"
hmac = "0.12"
libc = "0.2"
ngx = "0.5"
p256 = { version = "0.13", features = ["ecdsa"] }
rand_core = { version = "0.6", features = ["getrandom"] }
serde = { version = "1", features = ["derive"] }
serde_json = { version = "1", features = ["preserve_order"] }
sha2 = "0.10"
subtle = "2"
ureq = { version = "2", features = ["json"] }
