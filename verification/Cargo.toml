[package]
name = "slapaman"
version = "0.1.0"
edition = "2021"
publish = false

[dependencies]
anyhow = "1"
chrono = "0.4"
clap = { version = "4", features = ["derive"] }
directories = "5"
fs_extra = "1"
regex = "1"
reqwest = { version = "0.12", default-features = false }
serde = "1"
serde_derive = "1"
serde_json = "1"
sha1 = "0.10"
sha2 = "0.10"
tokio = { version = "1", features = ["macros", "rt-multi-thread"] }
which = "6"
