[package]
name = "sailfish"
version = "0.1.0"
edition = "2021"
publish = false

[dependencies]
itoap = "1"
ryu = "1"
