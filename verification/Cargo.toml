[package]
name = "kv_crud_sqlite"
version = "0.1.0"
edition = "2021"
publish = false

[dependencies]
sqlite = "*"
kv-crud-core = "*"
