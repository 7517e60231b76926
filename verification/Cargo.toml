[package]
name = "playlist_sort"
version = "0.1.0"
edition = "2021"
publish = false

[dependencies]
rspotify = { version = "=0.14.0", default-features = false, features = ["client-ureq", "ureq-rustls-tls", "cli", "env-file"] }
