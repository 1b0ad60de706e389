[package]
name = "protodef_io"
version = "0.1.0"
edition = "2021"
publish = false

[dependencies]
thiserror = "=1.0.69"

[dev-dependencies]
byteorder = "=1.5.0"
