[package]
name = "mononoke_import"
version = "0.1.0"
edition = "2021"
publish = false

[dependencies]
anyhow = "=1.0.104"
ascii = "=1.1.0"
async-trait = "=0.1.92"
bytes = "=1.12.1"
clap = "=2.34.0"
fbinit = "=0.1.2"
futures = "=0.3.34"
git2 = { version = "=0.19.0", default-features = false }
gix-hash = { version = "=0.28.1", features = ["sha1"] }
slog = "=2.8.2"
