[package]
name = "zk_membership"
version = "0.1.0"
edition = "2021"
publish = false

[dependencies]
ark-bls12-381 = "=0.3.0"
ark-crypto-primitives = "=0.3.0"
ark-ff = "=0.3.0"
ark-groth16 = { version = "=0.3.0", default-features = false, features = ["std"] }
ark-serialize = "=0.3.0"
ark-snark = "=0.3.0"
ark-std = "=0.3.0"
bytes = "=1.12.1"
crossterm = "=0.25.0"
hyper = { version = "=0.14.32", features = ["full"] }
log = "=0.4.35"
route-recognizer = "=0.3.1"
serde = { version = "=1.0.229", features = ["derive"] }
serde_json = "=1.0.154"
thiserror = "=1.0.69"
tokio = { version = "=1.54.1", features = ["full"] }
tui = { version = "=0.19.0", default-features = false, features = ["crossterm"] }
tui-logger = "=0.8.3"

[dev-dependencies]
ark-relations = "=0.3.0"
