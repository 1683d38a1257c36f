[package]
name = "pathsmith_core"
version = "0.1.0"
edition = "2021"
publish = false

[dependencies]
image = { version = "=0.25.10", default-features = false, features = ["png", "jpeg", "webp", "gif", "bmp"] }
imageproc = { version = "=0.27.0", default-features = false }
base64 = "=0.22.1"
quick-xml = "=0.37.5"
vtracer = "=0.6.5"
visioncortex = "=0.8.10"
kmeans_colors = { version = "=0.7.1", default-features = false, features = ["palette_color"] }
palette = "=0.7.7"
serde = { version = "=1.0.229", features = ["derive"] }
serde_json = "=1.0.154"
clap = { version = "=4.6.7", features = ["derive", "env"] }
anyhow = "=1.0.104"
rayon = "=1.12.0"
resvg = { version = "=0.49.0", default-features = false }
image-compare = "=0.5.0"
zip = { version = "=9.2.2", default-features = false, features = ["deflate"] }
axum = "=0.8.9"
tokio = { version = "=1.54.1", features = ["rt-multi-thread", "macros", "net", "signal"] }
tower = { version = "=0.5.3", features = ["limit", "util"] }
tower-http = { version = "=0.7.1", features = ["cors", "timeout"] }
mime_guess = "=2.0.5"
