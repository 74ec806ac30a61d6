[package]
name = "zavora_slide"
version = "0.1.0"
edition = "2021"
publish = false

[dependencies]
quick-xml = "=0.37.5"
resvg = "0.44"
svg2pdf = "0.12"
pdf-writer = "0.12"
fontdb = "0.22"
rustybuzz = "0.18"
base64 = "0.22"
zip = { version = "2", default-features = false, features = ["deflate"] }
