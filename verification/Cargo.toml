[package]
name = "imgserver"
version = "0.2.0"
edition = "2021"
publish = false

[dependencies]
afire = "1"
base16ct = { version = "0.2", features = ["alloc"] }
fast_image_resize = "2"
hashbrown = "*"
image = { version = "*", default-features = false, features = ["png", "jpeg"] }
indicatif = "0.17"
lazy_static = "1"
markdown = "*"
md5 = "0.7"
mut_static = "*"
regex = "1"
simple_config_parser = "*"
