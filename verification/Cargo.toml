[package]
name = "stuck"
version = "0.4.0"
edition = "2021"
publish = false

[dependencies]
errno = "=0.3.14"
hashbrown = "=0.12.3"
io-uring = "=0.6.4"
lazy_static = "=1.5.1"
libc = "=0.2.191"
mio = { version = "=0.8.11", features = ["os-poll", "os-ext", "net"] }
proc-macro2 = "=1.0.107"
quote = "=1.0.47"
slab = "=0.4.12"
syn = { version = "=1.0.109", features = ["full"] }
