[package]
name = "fontgen"
version = "0.1.0"
edition = "2021"
publish = false

[dependencies]
phf = "=0.11.3"
phf_codegen = "=0.11.3"

[dev-dependencies]
phf_generator = "=0.11.3"
phf_shared = "=0.11.3"
