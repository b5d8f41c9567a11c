[package]
name = "anchor_core"
version = "0.1.0"
edition = "2021"
publish = false

[dependencies]
blake3 = { version = "=1.8.7", default-features = false, features = ["pure"] }
embedded-alloc = "=0.7.0"
embedded-hal = "=1.0.0"
embedded-hal-bus = "=0.3.0"
panic-halt = "=1.0.0"
prost = { version = "=0.13.5", default-features = false, features = ["std"] }
rp235x-hal = { version = "=0.4.0", features = ["binary-info", "critical-section-impl", "rt"] }
tropic01 = "=0.1.1"
usb-device = "=0.3.2"
usbd-serial = "=0.2.2"
x25519-dalek = { version = "=2.0.1", features = ["static_secrets"] }
