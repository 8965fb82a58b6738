[package]
name = "quinn-deferred-config"
version = "0.1.0"
edition = "2021"
publish = false

[dependencies]
quinn-proto = { version = "0.11", default-features = false, features = ["rustls-ring"] }
rustls = { version = "0.23", default-features = false, features = ["ring", "std", "tls12"] }

[dev-dependencies]
rcgen = { version = "0.14", default-features = false, features = ["crypto", "ring"] }
