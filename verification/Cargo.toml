[package]
name = "oxbow"
version = "0.1.0"
edition = "2021"
publish = false

[dependencies]
arrow = { version = "=60.0.0", default-features = false }
noodles = { version = "=0.117.0", features = ["core", "fasta", "gff", "gtf"] }
