[package]
name = "stimulus"
version = "0.1.0"
edition = "2021"
publish = false

[dependencies]
tokio = { version = "1", default-features = false, features = ["macros", "rt-multi-thread"] }
winit = { version = "0.29", default-features = false, features = ["rwh_06", "x11"] }
