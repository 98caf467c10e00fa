[package]
name = "east"
version = "0.1.0"
edition = "2021"
publish = false

[dependencies]
serde = { version = "1", features = ["derive"] }
serde_json = "1"
syn = { version = "1", features = ["full", "extra-traits"] }
quote = "1"
proc-macro2 = "1"
proc-macro-crate = "1"
sycamore = { version = "0.8", features = ["ssr", "hydrate"] }
axum = { version = "0.6", features = ["headers"] }
mime = "0.3"
include_dir = "0.7"
