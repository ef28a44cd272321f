[package]
name = "sql2ldap"
version = "0.1.0"
edition = "2021"
publish = false

[dependencies]
clap = "2"
futures = "0.3"
ldap3_proto = "*"
log = "*"
num_cpus = "*"
serde = { version = "*", features = ["derive"] }
serde_derive = "*"
simplelog = "*"
sqlx = { version = "0.8", features = ["postgres", "runtime-tokio"] }
tokio = { version = "1", features = ["full"] }
tokio-util = { version = "*", features = ["codec"] }
toml = "*"
