[package]
name = "slideforge"
version = "0.1.0"
edition = "2021"
publish = false

[dependencies]
sha2 = "0.10"
serde = { version = "1", features = ["derive"] }
serde_yaml = "0.9"
clap = { version = "4", features = ["derive"] }
thiserror = "2"
xmltree = "0.11"
zip = { version = "2", default-features = false, features = ["deflate"] }
