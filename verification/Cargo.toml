[package]
name = "digital_garden"
version = "0.1.0"
edition = "2021"
publish = false

[dependencies]
chrono = { version = "0.4", features = ["serde"] }
crossterm = "0.25"
git2 = "0.18"
petgraph = "0.6"
serde = { version = "1", features = ["derive"] }
serde_json = "1"
structopt = "0.3"
tantivy = "0.19"
tui = "0.19"
