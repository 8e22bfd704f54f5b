[package]
name = "ssr_bundler"
version = "0.1.0"
edition = "2021"
publish = false

[dependencies]
anyhow = "*"
boa_engine = "*"
clap = { version = "*", features = ["derive"] }
serde = { version = "*", features = ["derive"] }
serde_json = "*"
swc_common = "*"
swc_ecma_ast = "*"
swc_ecma_codegen = "*"
swc_ecma_parser = "*"
swc_ecma_transforms = { version = "*", features = ["react", "typescript"] }
walkdir = "*"
