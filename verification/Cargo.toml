[package]
name = "maplibre_core"
version = "0.1.0"
edition = "2021"
publish = false

[dependencies]
geozero = { version = "*", default-features = false, features = ["with-mvt"] }
lyon = "*"
serde = { version = "*", features = ["derive"] }
serde_json = "*"
csscolorparser = "*"
