[package]
name = "rustboyadvance"
version = "0.1.0"
edition = "2021"
publish = false

[dependencies]
cranelift = "=0.130.2"
cranelift-jit = "=0.130.2"
cranelift-module = "=0.130.2"
cranelift-native = "=0.130.2"
rustc-hash = "=2.1.3"
capstone = "=0.14.0"
sdl2 = "*"
clap = { version = "4", features = ["derive"] }
flexi_logger = "*"
log = "0.4"
bytesize = "*"
spin_sleep = "1"
num = "0.4"
bit = "*"
ansi_term = "0.12"
serde = { version = "1", features = ["derive"] }
inkwell = { version = "*", features = ["llvm18-1"] }

[dev-dependencies]
cranelift-interpreter = "=0.130.2"
