[package]
name = "ahafs"
version = "0.1.0"
edition = "2021"
publish = false

[dependencies]
serde = { version = "*", features = ["derive"] }
serde_json = "*"
reqwest = { version = "*", default-features = false, features = ["blocking", "json"] }
netfuse = "*"
fuse = "0.3"
libc = "*"
time = "0.1"
dirs = "*"
dotenv = "*"
envy = "*"
toml = "*"
structopt = "*"
