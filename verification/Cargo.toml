[package]
name = "basic_contact_manager"
version = "0.1.0"
edition = "2021"
publish = false

[dependencies]
cli-table = { version = "0.4", default-features = false }
structopt = "0.3"
thiserror = "1"
