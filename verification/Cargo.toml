[package]
name = "release_tagger"
version = "0.1.0"
edition = "2021"
publish = false

[dependencies]
discogs = "*"
dotenv = "*"

[dev-dependencies]
quick-xml = "*"
