[package]
name = "edit_prediction_context"
version = "0.1.0"
edition = "2021"
publish = false

[dependencies]
anyhow = "1"
itertools = "0.14"
log = "0.4"
nucleo = "0.5"
serde = { version = "1", features = ["derive"] }
shellexpand = "2"
shlex = "1"
slotmap = "1"
strum = { version = "0.27", features = ["derive"] }
url = "2"
