[package]
name = "lunamisc"
version = "0.1.0"
edition = "2021"
publish = false

[dependencies]
fxhash = "=0.2.1"
indexmap = "=2.14.2"
rand = "=0.8.8"
bytes = "=1.12.1"
ron = "=0.8.1"
embedded-hal = "=1.0.0"
chrono = "=0.4.45"
reed-solomon-erasure = "6"
reed-solomon = "0.2"
