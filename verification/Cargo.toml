[package]
name = "vz_backend"
version = "0.1.0"
edition = "2021"
publish = false

[dependencies]
block2 = "=0.6.2"
dispatch2 = "=0.3.1"
libc = "=0.2.191"
objc2 = "=0.6.5"
objc2-foundation = "=0.3.2"
objc2-virtualization = "=0.3.2"
serde = { version = "=1.0.229", features = ["derive"] }
serde_json = "=1.0.154"
smoltcp = { version = "=0.12.0", features = ["iface-max-addr-count-4"] }
