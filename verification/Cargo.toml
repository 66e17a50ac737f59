[package]
name = "jobfather"
version = "0.1.0"
edition = "2021"
publish = false

[dependencies]
actix-web = "=4.18.1"
actix-web-opentelemetry = { version = "=0.16.0", features = ["metrics"] }
chrono = { version = "=0.4.45", features = ["serde"] }
chrono-tz = "=0.10.4"
croner = "=2.2.0"
env_logger = "=0.11.11"
flate2 = "=1.1.10"
futures = "=0.3.34"
k8s-openapi = { version = "=0.25.0", features = ["latest"] }
kube = { version = "=1.1.0", features = ["runtime", "derive", "client"] }
log = "=0.4.35"
maud = "=0.27.0"
md5 = "=0.7.0"
opentelemetry = "=0.21.0"
opentelemetry-prometheus = "=0.14.1"
opentelemetry_sdk = "=0.21.2"
prometheus = "=0.13.4"
quick-xml = "=0.37.5"
r2d2 = "=0.8.10"
r2d2_sqlite = "=0.35.0"
rusqlite = { version = "=0.40.2", features = ["bundled"] }
rusqlite_migration = "=2.6.0"
serde = { version = "=1.0.229", features = ["derive"] }
serde_json = "=1.0.154"
shell-words = "=1.1.1"
similar = "=2.7.0"
tar = "=0.4.46"
tokio = { version = "=1.54.1", features = ["macros", "time", "rt"] }
