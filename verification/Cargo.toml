[package]
name = "tag_editor_core"
version = "0.1.0"
edition = "2021"
publish = false

[dependencies]
regex = "1"
serde = { version = "1", features = ["derive"] }
serde_json = "1"
image = { version = "0.25", default-features = false, features = ["png", "jpeg", "gif"] }
rayon = "1"
ort = { version = "2.0.0-rc.10", default-features = false, features = ["load-dynamic"] }
hf-hub = { version = "0.4", default-features = false, features = ["ureq"] }
