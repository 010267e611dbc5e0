[package]
name = "o_"
version = "0.1.0"
edition = "2021"
publish = false

[dependencies]
nodejs-semver = "*"
ssri = "*"
toml = "*"
clap = { version = "4", features = ["derive"] }
home = "*"
reqwest = { version = "0.12", default-features = false, features = ["blocking", "rustls-tls"] }
serde = { version = "1", features = ["derive"] }
serde_json = "1"
flate2 = "1"
tar = "0.4"
tempfile = "3"
zip = { version = "*", default-features = false, features = ["deflate"] }
package-json = "*"
