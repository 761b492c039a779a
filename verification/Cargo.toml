[package]
name = "svg3"
version = "0.1.0"
edition = "2021"
publish = false

[dependencies]
quick-xml = "=0.41.0"
base64 = "=0.23.1"
png = "=0.18.1"
thiserror = "=2.0.21"
wgpu = "=30.0.1"
lyon_tessellation = "=1.0.23"
