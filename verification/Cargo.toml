[package]
name = "lovshot"
version = "0.1.0"
edition = "2021"
publish = false

[dependencies]
image = { version = "=0.25.10", default-features = false, features = ["jpeg", "png"] }
base64 = "=0.22.1"
urlencoding = "=2.1.3"
serde = { version = "=1.0.229", features = ["derive"] }
serde_json = "=1.0.154"
dirs = "=7.0.0"
rustfft = "=6.4.1"
num-complex = "=0.4.6"
chrono = "=0.4.45"
imageproc = { version = "=0.27.0", default-features = false, features = ["text"] }
ab_glyph = "=0.2.32"
xcap = { version = "=0.9.8", default-features = false }
mouse_position = "=0.1.4"
objc = "=0.2.7"
cocoa = "=0.27.0"
core-graphics = "=0.25.0"
core-foundation = "=0.10.1"
accessibility-sys = "=0.2.0"
