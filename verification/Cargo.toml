[package]
name = "cache_entry_file"
version = "0.1.0"
edition = "2021"
publish = false

[dependencies]
serde = { version = "*", features = ["derive"] }
serde_json = "*"
sys_traits = "*"
deno_path_util = "*"
