[package]
name = "nothing_de"
version = "0.1.0"
edition = "2021"
publish = false

[dependencies]
chrono = { version = "0.4", default-features = false, features = ["clock", "std"] }
smithay = { version = "0.6", default-features = false, features = ["wayland_frontend", "desktop", "backend_winit", "renderer_gl"] }
tracing = "0.1"
tracing-subscriber = { version = "0.3", features = ["env-filter", "fmt"] }
