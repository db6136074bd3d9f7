[package]
name = "oxidedisk"
version = "0.1.0"
edition = "2021"
publish = false

[dependencies]
rayon = "1"
blake3 = "1"
jwalk = "0.8"
chrono = { version = "0.4", default-features = false, features = ["clock", "std"] }
egui = "0.29"
egui_extras = { version = "0.29", default-features = false }
serde = { version = "1", features = ["derive"] }
