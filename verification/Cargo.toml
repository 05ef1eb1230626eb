[package]
name = "hop"
version = "0.1.0"
edition = "2021"
publish = false

[dependencies]
png = "0.17"
serde = { version = "1", features = ["derive"] }
toml = "0.8"
x11 = { version = "2.21", features = ["xft", "xlib", "xrender"] }
x11rb = { version = "0.13", features = ["composite", "render", "xinerama"] }
