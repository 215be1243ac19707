[package]
name = "morphir_core"
version = "0.1.0"
edition = "2021"
publish = false

[dependencies]
sha2 = "=0.10.9"
serde = { version = "=1.0.229", features = ["derive"] }
serde_json = { version = "=1.0.154", features = ["arbitrary_precision"] }
thiserror = "=2.0.21"
lasso = { version = "=0.7.3", features = ["multi-threaded"] }
granit-parser = "=2.1.0"
