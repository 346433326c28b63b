[package]
name = "cpan_distribution_meta"
version = "0.1.0"
edition = "2021"
publish = false

[dependencies]
serde = { version = "1", features = ["derive"] }
serde_json = "1"
serde_norway = "*"
thiserror = "2"
