[package]
name = "crapette"
version = "0.1.0"
edition = "2021"
publish = false

[dependencies]
clap = { version = "4", features = ["derive"] }
colored = "2"
log = "0.4"
pyo3 = "0.20"
rand = "0.8"
rand_pcg = "0.3"
rand_seeder = "0.2"
regex = "1"
