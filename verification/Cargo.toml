[package]
name = "dataframe"
version = "0.1.0"
edition = "2021"
publish = false

[dependencies]
csv = "1"
serde = { version = "1", features = ["derive"] }
linfa = "0.7"
linfa-trees = "0.7"
ndarray = "0.15"
