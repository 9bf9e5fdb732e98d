[package]
name = "more_collections"
version = "0.1.0"
edition = "2021"
publish = false

[dependencies]
indexmap = "2"
smallvec = { version = "1", features = ["const_generics"] }
