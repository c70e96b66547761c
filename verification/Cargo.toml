[package]
name = "clock_solver"
version = "0.1.0"
edition = "2021"
publish = false

[dependencies]
petgraph = { version = "=0.6.5", default-features = false, features = ["stable_graph"] }
uom = { version = "=0.38.0", features = ["serde"] }
serde = "=1.0.229"
serde_derive = "=1.0.229"
cairo-rs = "=0.9.1"
gtk = "=0.9.2"
relm = "=0.21.0"
relm-derive = "=0.21.0"
