[package]
name = "knative"
version = "0.1.0"
edition = "2021"
publish = false

[dependencies]
chrono = { version = "=0.4.45", features = ["serde"] }
serde = { version = "=1.0.229", features = ["derive"] }
serde_json = "=1.0.151"
thiserror = "=2.0.21"
url = { version = "=2.5.8", features = ["serde"] }
http = "=1.5.0"
async-trait = "=0.1.92"
schemars = "=1.2.2"
k8s-openapi = { version = "=0.27.1", features = ["latest", "schemars"] }
kube = { version = "=3.1.0", default-features = false, features = ["client", "derive"] }
