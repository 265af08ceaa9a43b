[package]
name = "xml2rdf"
version = "0.1.0"
edition = "2021"
publish = false

[dependencies]
oxrdf = "*"
uuid = { version = "*", features = ["v4"] }
xml = "*"
clap = { version = "*", features = ["derive"] }

[dev-dependencies]
oxrdfio = "*"
