[package]
name = "cf"
version = "0.1.0"
edition = "2021"
publish = false

[dependencies]
anyhow = "=1.0.104"
base64 = "=0.22.1"
brotli = "=9.1.1"
byteorder = "=1.5.0"
flate2 = "=1.1.10"
oxc_allocator = "=0.143.0"
oxc_ast = "=0.143.0"
oxc_ast_visit = "=0.143.0"
oxc_codegen = "=0.143.0"
oxc_parser = "=0.143.0"
oxc_span = "=0.143.0"
rayon = "=1.12.0"
regex = "=1.13.1"
rustc-hash = "=2.1.3"
serde = { version = "=1.0.229", features = ["derive"] }
serde_json = "=1.0.154"
strum = { version = "=0.28.0", features = ["derive"] }
tokio = { version = "1", features = ["macros", "rt-multi-thread"] }
ureq = "=2.12.1"
