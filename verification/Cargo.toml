[package]
name = "tabulon"
version = "0.1.0"
edition = "2021"
publish = false

[dependencies]
dxf = "=0.6.2"
joto_constants = "=0.1.1"
parley = "=0.6.0"
peniko = "=0.5.0"
vello_common = "=0.0.4"
vello_hybrid = { version = "=0.0.4", default-features = false }
