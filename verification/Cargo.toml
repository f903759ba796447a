[package]
name = "node_agent"
version = "0.1.0"
edition = "2021"
publish = false

[dependencies]
gethostname = "*"
listeners = "*"
log = "*"
paho-mqtt = { version = "*", default-features = false, features = ["bundled"] }
pnet = "*"
serde = { version = "*", features = ["derive"] }
serde_json = "*"
stderrlog = "*"
structopt = "*"
uuid = { version = "*", features = ["v4", "serde"] }
