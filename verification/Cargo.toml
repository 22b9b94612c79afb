[package]
name = "vdm"
version = "0.1.0"
edition = "2021"
publish = false

[dependencies]
anyhow = "=1.0.104"
directories = "=6.0.0"
fs2 = "=0.4.3"
git2 = { version = "=0.20.4", default-features = false }
globset = "=0.4.21"
oxc_allocator = "=0.143.0"
oxc_ast = "=0.143.0"
oxc_ast_visit = "=0.143.0"
oxc_parser = "=0.143.0"
oxc_resolver = "=11.24.3"
oxc_span = "=0.143.0"
reqwest = { version = "=0.12.28", default-features = false, features = ["blocking"] }
serde = { version = "=1.0.229", features = ["derive"] }
sha2 = "=0.10.9"
similar = "2"
syn = { version = "=2.0.119", features = ["full", "visit"] }
tokio = { version = "=1.54.1", features = ["full"] }
toml = "=1.1.8"
