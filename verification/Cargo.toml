[package]
name = "webwallpaper"
version = "0.1.0"
edition = "2021"
publish = false

[dependencies]
serde = { version = "1", features = ["derive"] }
serde_json = "1"
clap = { version = "4", features = ["derive"] }
chrono = "0.4"
tiny_http = "0.12"
ctrlc = "3"
dirs = "*"
bytemuck = { version = "1", features = ["derive"] }
pollster = "0.4"
raw-window-handle = "0.6"
wgpu = { version = "*", features = ["glsl"] }
tao = "*"
wry = "*"
gtk = "0.18"
gdk = "0.18"
glib = "0.18"
gtk-layer-shell = "*"
