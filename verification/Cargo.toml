[package]
name = "pixel_pal"
version = "0.1.0"
edition = "2021"
publish = false

[dependencies]
async-compat = "0.2"
benimator = "4"
dotenv = "0.15"
noise = "=0.8.2"
once_cell = "1"
phf = { version = "0.11", features = ["macros"] }
quick_cache = "=0.4.3"
rand = "=0.8.8"
reqwest = { version = "0.11", default-features = false, features = ["json"] }
schemars = "0.8"
serde = { version = "1", features = ["derive"] }
strum = "0.25"
strum_macros = "0.25"
tokio = { version = "1", features = ["sync"] }
