[package]
name = "difix"
version = "0.1.0"
edition = "2021"
publish = false

[dependencies]
gimli = { version = "=0.34.0", default-features = false }
llvm-sys = { version = "170", features = ["no-llvm-linking", "disable-alltargets-init"] }
log = "=0.4.34"
