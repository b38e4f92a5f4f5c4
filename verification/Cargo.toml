[package]
name = "inqjet"
version = "0.1.0"
edition = "2021"
publish = false

[dependencies]
nexus-logbuf = "=2.1.4"
crossbeam-utils = "=0.8.23"
crossbeam-queue = "=0.3.14"
log = { version = "=0.4.35", features = ["std"] }
mio = { version = "=1.2.4", features = ["os-poll"] }
thiserror = "=2.0.21"
proc-macro2 = "=1.0.107"
quote = "=1.0.47"
syn = { version = "=2.0.119", features = ["full"] }
