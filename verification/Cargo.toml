[package]
name = "audiowaveform"
version = "0.1.0"
edition = "2021"
publish = false

[dependencies]
byteorder = "*"
hound = "*"
png = "*"
image = { version = "*", default-features = false, features = ["png"] }
serde = { version = "*", features = ["derive"] }
serde_json = "*"
symphonia = { version = "*", features = ["all"] }
thiserror = "*"
clap = { version = "*", features = ["derive"] }
