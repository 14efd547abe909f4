[package]
name = "trixie"
version = "0.1.0"
edition = "2021"
publish = false

[dependencies]
anyhow = "1"
bytemuck = "1"
calloop = "0.13"
chrono = "=0.4.45"
drm = "0.12"
drm-fourcc = "2"
gbm = { version = "0.15", default-features = false, features = ["drm-support"] }
gl = "0.14"
input = { version = "0.9", default-features = false, features = ["libinput_1_19"] }
khronos-egl = { version = "6", features = ["dynamic"] }
libc = "0.2"
mlua = { version = "0.9", features = ["lua54", "vendored"] }
serde = { version = "=1.0.229", features = ["derive"] }
serde_json = "=1.0.154"
tokio = { version = "1", features = ["rt", "sync"] }
tracing = "0.1"
tracing-subscriber = { version = "0.3", features = ["env-filter"] }
wayland-protocols = { version = "0.32", features = ["server", "unstable", "staging"] }
wayland-protocols-wlr = { version = "0.3", features = ["server"] }
wayland-server = "0.31"
xkbcommon = "0.8"
zbus = { version = "4", default-features = false, features = ["tokio"] }
