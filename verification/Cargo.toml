[package]
name = "cdd"
version = "0.1.0"
edition = "2021"
publish = false

[dependencies]
sha2 = "*"
petgraph = "*"
clap = "*"
walkdir = "*"
serde = { version = "*", features = ["derive"] }
serde_json = "*"
serde_yaml = "*"
log = "*"
env_logger = "*"
colored = "*"
anyhow = "*"
notify = "*"
notify-debouncer-mini = "*"
swc_common = "*"
swc_ecma_ast = "*"
swc_ecma_parser = "*"
swc_ecma_visit = "*"
