[package]
name = "media_forge"
version = "0.1.0"
edition = "2021"
publish = false

[dependencies]
natord = "1"
num_cpus = "1"
clap = { version = "4", features = ["derive"] }
indicatif = "0.17"
rayon = "1"
walkdir = "2"
zip = "2"
ravif = { version = "0.11", default-features = false, features = ["threading"] }
image = { version = "0.25", default-features = false, features = ["jpeg", "png", "tiff", "bmp", "webp", "rayon"] }
ssimulacra2 = "0.5"
csv = "1"
serde = { version = "1", features = ["derive"] }
crossbeam-channel = "0.5"
ctrlc = "3"
mimalloc = "0.1"
once_cell = "1"
thiserror = "1"
anyhow = "1"
regex = "1"
serde_json = "1"
