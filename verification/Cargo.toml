[package]
name = "serial_gateway"
version = "0.1.0"
edition = "2021"
publish = false

[dependencies]
cdefmt-decoder = "=0.6.0"
clap = { version = "=4.6.7", features = ["derive"] }
cobs2 = "=0.1.4"
memmap2 = "=0.9.12"
mio = { version = "=1.2.4", features = ["os-poll", "net"] }
mio-serial = { version = "=5.0.7", default-features = false }
