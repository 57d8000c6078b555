[package]
name = "bamboo_ssg"
version = "0.1.0"
edition = "2021"
publish = false

[dependencies]
sha2 = "*"
pulldown-cmark = "*"
syntect = "*"
tera = "*"
serde = { version = "*", features = ["derive"] }
serde_json = "*"
serde_yaml = "*"
toml = "*"
walkdir = "*"
notify = "*"
clap = { version = "*", features = ["derive"] }
axum = "*"
tokio = { version = "*", features = ["full"] }
tower-http = { version = "*", features = ["fs"] }
tower-livereload = "*"
open = "*"
thiserror = "*"
chrono = "*"
minify-html = "*"
