[package]
name = "s739"
version = "0.1.0"
edition = "2021"
publish = false

[dependencies]
anyhow = "1"
clap = { version = "4", features = ["derive"] }
clap_complete = "4"
image = { version = "0.25", default-features = false, features = ["png", "jpeg"] }
libc = "0.2"
mozjpeg-sys = "2"
rand = { version = "0.9", default-features = false }
rand_chacha = "0.9"
rand_seeder = "0.4"

[dev-dependencies]
bitvec = "1"
