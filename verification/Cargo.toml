[package]
name = "docfetch"
version = "0.1.0"
edition = "2021"
publish = false

[dependencies]
font-kit = "0.14"
raqote = "0.8"
rustls = { version = "0.23", default-features = false, features = ["ring", "std", "tls12"] }
socket2 = "0.5"
webpki-roots = "0.26"
winit = { version = "0.29", default-features = false, features = ["rwh_05", "x11"] }
winit_input_helper = "0.15"
