[package]
name = "aleph_compiler"
version = "0.1.0"
edition = "2021"
publish = false

[dependencies]
console_error_panic_hook = "=0.1.7"
serde = { version = "=1.0.229", features = ["derive"] }
serde_json = "=1.0.154"
swc_common = { version = "=26.0.0", features = ["sourcemap"] }
swc_ecmascript = { version = "=74.0.0", features = ["codegen", "parser", "react", "transforms", "typescript", "utils", "visit"] }
wasm-bindgen = { version = "=0.2.129", features = ["serde-serialize"] }
