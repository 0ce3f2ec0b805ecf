[package]
name = "smithay"
version = "0.7.0"
edition = "2021"
publish = false

[dependencies]
ash = "=0.38.0"
drm = "=0.15.0"
drm-ffi = "=0.9.1"
glam = "=0.34.2"
profiling = "=1.0.18"
rustix = { version = "=1.1.6", features = ["event", "fs", "time"] }
shaderc = "=0.10.1"
thiserror = "=2.0.21"
tracing = "=0.1.44"
wayland-protocols = { version = "=0.32.13", features = ["server", "staging"] }
wayland-server = "=0.31.14"

[dev-dependencies]
drm-fourcc = "=2.2.0"
