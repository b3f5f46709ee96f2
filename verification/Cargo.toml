[package]
name = "good_fences"
version = "0.1.0"
edition = "2021"
publish = false

[dependencies]
anyhow = "=1.0.104"
path-clean = "=1.0.1"
glob = "=0.3.4"
relative-path = "=1.9.3"
pathdiff = "=0.2.3"
serde = { version = "=1.0.229", features = ["derive"] }
serde_json = "=1.0.154"
thiserror = "=1.0.69"
regex = "=1.13.1"
jwalk = "=0.8.1"
rayon = "=1.12.0"
diffy = "0.4"
