[package]
name = "defmt_print"
version = "0.1.0"
edition = "2021"
publish = false

[dependencies]
anyhow = "1"
cobs = "0.1"
colored = "2"
defmt-decoder = { version = "0.2", features = ["unstable"] }
defmt-persist = "*"
embedded-storage = "0.1"
git-version = "0.3"
log = "0.4"
object = "*"
probe-rs = "*"
structopt = "0.3"
