[package]
name = "iced_context_menu"
version = "0.1.0"
edition = "2021"
publish = false

[dependencies]
iced = { version = "=0.14.0", default-features = false, features = ["tiny-skia", "svg", "advanced", "x11", "thread-pool"] }
num-traits = "=0.2.19"
