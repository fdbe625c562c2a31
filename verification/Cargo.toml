[package]
name = "remote_desktop"
version = "0.1.0"
edition = "2021"
publish = false

[dependencies]
lz4_flex = "=0.11.6"
image = { version = "=0.24.9", default-features = false }
openh264 = "=0.4.4"
turbojpeg = { version = "=1.3.3", default-features = false }
rustls = { version = "=0.23.46", default-features = false, features = ["ring", "std", "tls12", "logging"] }
rustls-pemfile = "=2.2.0"
core-foundation = "=0.9.4"
core-graphics = "=0.23.2"
foreign-types-shared = "=0.3.1"
