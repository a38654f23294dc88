[package]
name = "spooky_pass"
version = "0.1.0"
edition = "2021"
publish = false

[dependencies]
argon2 = "0.5"
chacha20poly1305 = "0.10"
rand_core = { version = "0.6", features = ["getrandom"] }
psl = "2"
url = "2"
serde = { version = "1", features = ["derive"] }
serde_json = "1"
time = { version = "0.3", features = ["formatting"] }
directories = "5"
interprocess = "2"
libc = "0.2"
zeroize = "1"

[dev-dependencies]
tempfile = "3"
