[package]
name = "vortex_core"
version = "0.1.0"
edition = "2021"
publish = false

[dependencies]
jiff = "=0.2.39"
prost = "=0.14.4"
object_store = { version = "=0.14.2", default-features = false }
smallvec = "1"
arrow-array = "=59.3.2"
arrow-buffer = "=59.3.2"
arrow-schema = "=59.3.2"
async-trait = "=0.1.92"
futures = "=0.3.34"
moka = { version = "=0.12.16", features = ["future"] }
num-traits = "=0.2.19"
parking_lot = "=0.12.5"
rustc-hash = "=2.1.3"
tracing = "=0.1.44"
datafusion-common = { version = "=55.2.0", default-features = false }
datafusion-expr = { version = "=55.2.0", default-features = false }
datafusion-physical-expr = { version = "=55.2.0", default-features = false }
