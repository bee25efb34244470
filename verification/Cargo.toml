[package]
name = "rayshot"
version = "0.1.0"
edition = "2021"
publish = false

[dependencies]
anyhow = "1"
ashpd = { version = "0.13", default-features = false, features = ["tokio", "screencast", "screenshot"] }
egui = "0.34"
egui-phosphor = "0.12"
egui-wgpu = { version = "0.34", default-features = false }
egui-winit = { version = "0.34", default-features = false, features = ["wayland"] }
image = { version = "0.25", default-features = false, features = ["png"] }
libc = "0.2"
pipewire = "0.9"
signal-hook = "0.3"
tokio = { version = "1", features = ["rt-multi-thread", "time"] }
url = "2"
wgpu = { version = "29", default-features = false, features = ["std", "vulkan", "gles", "wgsl"] }
winit = { version = "0.30", default-features = false, features = ["wayland", "wayland-dlopen", "rwh_06"] }
