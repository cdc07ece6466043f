[package]
name = "orpheus"
version = "0.1.0"
edition = "2021"
publish = false

[dependencies]
sha2 = "0.10"
base64 = "0.22"
slug = "0.1"
syntect = { version = "5", default-features = false, features = ["default-fancy"] }
serde = { version = "1", features = ["derive"] }
serde_yaml = "0.9"
serde_html_form = "0.2"
maud = { version = "0.26", features = ["axum"] }
axum = "0.7"
axum-extra = { version = "0.9", features = ["query"] }
tokio = { version = "1", features = ["full"] }
tower = "0.4"
tower-http = { version = "0.5", features = ["fs", "compression-full", "normalize-path", "trace"] }
tower-livereload = "0.9"
tantivy = "0.22"
pandoc = "0.8"
pandoc_ast = "0.8"
glob = "0.3"
grass = "0.13"
eyre = "0.6"
color-eyre = "0.6"
colored = "2"
