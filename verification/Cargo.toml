[package]
name = "ion_inspect"
version = "0.1.0"
edition = "2021"
publish = false

[dependencies]
anyhow = "1"
clap = "2"
colored = "2"
ion-rs = "0.6"
memmap = "0.7"
tempfile = "3"
