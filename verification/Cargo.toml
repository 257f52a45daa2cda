[package]
name = "trustify"
version = "0.1.0"
edition = "2021"
publish = false

[dependencies]
petgraph = "=0.6.5"
fixedbitset = "=0.4.2"
log = "=0.4.35"
anyhow = "=1.0.104"
async-trait = "=0.1.92"
actix-web = { version = "=4.18.1", default-features = false, features = ["macros"] }
actix-cors = "=0.7.2"
async-graphql = { version = "=7.2.1", default-features = false }
async-graphql-actix-web = "=7.2.1"
juniper = { version = "=0.16.2", default-features = false }
clap = { version = "=4.6.7", features = ["derive", "env"] }
sea-orm = { version = "=1.1.20", default-features = false, features = ["macros"] }
sea-orm-migration = { version = "=1.1.20", default-features = false }
sea-query = "=0.32.7"
time = "=0.3.55"
tracing = "=0.1.44"
uuid = "=1.29.0"
